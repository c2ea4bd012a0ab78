//! The external ASN API's answers and how they become `AsnInfo`.
use vstd::prelude::*;

use std::time::Duration;

use crate::asn::{Asn, AsnInfo};

verus! {

/// Errors of the external ASN API.
#[derive(Debug)]
pub enum ApiError {
    /// The request could not be made.
    RequestFailed(String),
    /// The API answered with an error status.
    ApiError(String),
    /// The answer could not be read.
    InvalidResponse(String),
    /// The API asks to retry after this many seconds.
    RateLimited(u64),
    /// The request took longer than allowed.
    Timeout(Duration),
    /// The API knows no ASN for the query.
    NotFound(String),
}

/// An answer of the API to an ASN lookup.
#[derive(Debug)]
pub struct ApiResponse {
    pub asn_number: Option<u32>,
    pub organization: String,
    pub country: Option<String>,
    pub description: Option<String>,
}

/// The `AsnInfo` of an answer to `query`; an answer without an ASN is
/// `NotFound` for the query.
pub fn parse_response(response: ApiResponse, query: &str) -> (r: Result<AsnInfo, ApiError>)
    ensures
        response.asn_number is None ==> (r matches Err(ApiError::NotFound(q)) && q@ == query@),
        response.asn_number matches Some(n) ==> r == Ok::<AsnInfo, ApiError>(
            AsnInfo {
                asn: Asn(n),
                organization: response.organization,
                country: response.country,
                description: response.description,
            },
        ),
{
    match response.asn_number {
        None => Err(ApiError::NotFound(query.to_string())),
        Some(n) => Ok(
            AsnInfo {
                asn: Asn(n),
                organization: response.organization,
                country: response.country,
                description: response.description,
            },
        ),
    }
}

} // verus!
