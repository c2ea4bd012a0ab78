//! The data model shared by every tier: autonomous-system numbers and the
//! metadata attached to them.
use vstd::prelude::*;

use crate::text::{decimal, push_decimal, push_str};

verus! {

/// An autonomous-system number.
#[derive(Debug, Clone, Copy, PartialEq, Eq, Structural, Hash, PartialOrd, Ord)]
pub struct Asn(pub u32);

impl Asn {
    /// The number written as `AS<n>`.
    pub fn to_string(&self) -> (r: String)
        ensures
            r@ == seq!['A', 'S'] + decimal(self.0 as nat),
    {
        let mut r = String::new();
        push_str(&mut r, "AS");
        proof {
            reveal_strlit("AS");
        }
        push_decimal(&mut r, self.0);
        assert(r@ =~= seq!['A', 'S'] + decimal(self.0 as nat));
        r
    }
}

impl From<u32> for Asn {
    fn from(value: u32) -> (r: Asn)
        ensures
            r == Asn(value),
    {
        Asn(value)
    }
}

impl vstd::std_specs::convert::FromSpecImpl<u32> for Asn {
    open spec fn obeys_from_spec() -> bool {
        true
    }

    open spec fn from_spec(v: u32) -> Asn {
        Asn(v)
    }
}

/// What is known of an autonomous system; its identity is `asn`.
#[derive(Debug, Clone, PartialEq, Eq)]
pub struct AsnInfo {
    pub asn: Asn,
    pub organization: String,
    pub country: Option<String>,
    pub description: Option<String>,
}

impl AsnInfo {
    /// A copy of the record.
    pub fn duplicate(&self) -> (r: AsnInfo)
        ensures
            r == *self,
    {
        AsnInfo {
            asn: self.asn,
            organization: self.organization.clone(),
            country: match &self.country {
                Some(c) => Some(c.clone()),
                None => None,
            },
            description: match &self.description {
                Some(d) => Some(d.clone()),
                None => None,
            },
        }
    }
}

/// Errors of the library's operations.
#[derive(Debug)]
pub enum RasnError {
    InvalidAsn(String),
    InvalidIp(String),
    NotFound(String),
    Network(String),
    Database(String),
    Parse(String),
    Io(std::io::Error),
    Other(String),
}

/// The result of the library's operations.
pub type Result<T> = std::result::Result<T, RasnError>;

impl RasnError {
    /// The error as text: a label naming the kind, then the detail.
    pub fn to_string(&self) -> (r: String)
        ensures
            self matches RasnError::InvalidAsn(d) ==> r@ == "Invalid ASN: "@ + d@,
            self matches RasnError::InvalidIp(d) ==> r@ == "Invalid IP address: "@ + d@,
            self matches RasnError::NotFound(d) ==> r@ == "Not found: "@ + d@,
            self matches RasnError::Network(d) ==> r@ == "Network error: "@ + d@,
            self matches RasnError::Database(d) ==> r@ == "Database error: "@ + d@,
            self matches RasnError::Parse(d) ==> r@ == "Parse error: "@ + d@,
            self matches RasnError::Other(d) ==> r@ == d@,
    {
        match self {
            RasnError::InvalidAsn(d) => labelled("Invalid ASN: ", d.as_str()),
            RasnError::InvalidIp(d) => labelled("Invalid IP address: ", d.as_str()),
            RasnError::NotFound(d) => labelled("Not found: ", d.as_str()),
            RasnError::Network(d) => labelled("Network error: ", d.as_str()),
            RasnError::Database(d) => labelled("Database error: ", d.as_str()),
            RasnError::Parse(d) => labelled("Parse error: ", d.as_str()),
            RasnError::Io(e) => {
                let detail = e.to_string();
                labelled("I/O error: ", detail.as_str())
            },
            RasnError::Other(d) => d.clone(),
        }
    }
}

/// `label` followed by `detail`.
fn labelled(label: &str, detail: &str) -> (r: String)
    ensures
        r@ == label@ + detail@,
{
    let mut r = label.to_string();
    push_str(&mut r, detail);
    r
}

} // verus!
