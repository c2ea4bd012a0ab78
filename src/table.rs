//! The hot range table: an immutable struct of arrays of IPv4 ranges, sorted
//! by start address and pairwise disjoint, answered by binary search.
use vstd::prelude::*;

use arrow::array::UInt32Array;
use arrow::error::ArrowError as ArrowComputeError;

use crate::asn::{Asn, AsnInfo};

verus! {

/// A column of `u32` values held in an arrow `UInt32Array`.
#[verifier::external_body]
pub struct U32Column {
    array: UInt32Array,
}

#[verifier::external_type_specification]
#[verifier::external_body]
pub struct ExArrowComputeError(ArrowComputeError);

#[verifier::external_type_specification]
#[verifier::external_body]
pub struct ExParquetError(parquet::errors::ParquetError);

#[verifier::external_type_specification]
#[verifier::external_body]
pub struct ExIoError(std::io::Error);

/// The values that a column's `UInt32Array` holds, in index order.
pub uninterp spec fn u32_column(a: U32Column) -> Seq<u32>;

/// Relies on `PrimitiveArray::len`: the number of values in the array.
#[verifier::external_body]
fn column_len(a: &U32Column) -> (r: usize)
    ensures
        r == u32_column(*a).len(),
{
    a.array.len()
}

/// Relies on `PrimitiveArray::value`: the value at index `i`; it panics only
/// when `i` is out of bounds.
#[verifier::external_body]
fn column_value(a: &U32Column, i: usize) -> (r: u32)
    requires
        i < u32_column(*a).len(),
    ensures
        r == u32_column(*a)[i as int],
{
    a.array.value(i)
}

/// Relies on `From<Vec<u32>> for UInt32Array`: the array holds the vector's
/// values, in order.
#[verifier::external_body]
fn column_from_vec(v: Vec<u32>) -> (r: U32Column)
    ensures
        u32_column(r) == v@,
{
    U32Column { array: UInt32Array::from(v) }
}

/// Errors of loading a range table.
#[derive(Debug)]
pub enum ArrowError {
    /// The snapshot could not be read as a table.
    ParquetLoad(String),
    /// A column is missing, of the wrong encoding, or the rows break the
    /// table's ordering.
    InvalidSchema(String),
    /// The snapshot does not exist.
    FileNotFound(String),
    Io(std::io::Error),
    Arrow(ArrowComputeError),
    Parquet(parquet::errors::ParquetError),
}

/// Every range starts no later than it ends, and each range ends before the
/// next one starts; so the starts ascend and no two ranges overlap.
pub open spec fn sorted_disjoint(starts: Seq<u32>, ends: Seq<u32>) -> bool {
    &&& starts.len() == ends.len()
    &&& forall|i: int| 0 <= i < starts.len() ==> #[trigger] starts[i] <= #[trigger] ends[i]
    &&& forall|i: int, j: int|
        0 <= i < j < starts.len() ==> #[trigger] ends[i] < #[trigger] starts[j]
}

/// Whether range `i` of the columns holds `ip` (both ends included).
pub open spec fn range_holds(starts: Seq<u32>, ends: Seq<u32>, i: int, ip: u32) -> bool {
    starts[i] <= ip && ip <= ends[i]
}

/// The row that a dictionary key stands for: the dictionary entry it names,
/// or empty text for a null row.
pub open spec fn dictionary_row(key: Option<u8>, values: Seq<String>) -> Seq<char> {
    match key {
        Some(k) => values[k as int]@,
        None => Seq::<char>::empty(),
    }
}

/// Decodes a dictionary-encoded string column into one string per row. A
/// key outside the dictionary makes the column invalid.
pub fn decode_dictionary(keys: &Vec<Option<u8>>, values: &Vec<String>) -> (r: Result<
    Vec<String>,
    ArrowError,
>)
    ensures
        r is Ok <==> forall|i: int|
            0 <= i < keys@.len() ==> (#[trigger] keys@[i] matches Some(k) ==> k < values@.len()),
        r matches Ok(rows) ==> {
            &&& rows@.len() == keys@.len()
            &&& forall|i: int|
                0 <= i < keys@.len() ==> (#[trigger] rows@[i])@ == dictionary_row(
                    keys@[i],
                    values@,
                )
        },
        r matches Err(e) ==> e is InvalidSchema,
{
    let mut rows: Vec<String> = Vec::new();
    let mut i: usize = 0;
    while i < keys.len()
        invariant
            i <= keys@.len(),
            rows@.len() == i,
            forall|j: int| 0 <= j < i ==> (#[trigger] keys@[j] matches Some(k) ==> k < values@.len()),
            forall|j: int| 0 <= j < i ==> (#[trigger] rows@[j])@ == dictionary_row(keys@[j], values@),
        decreases keys@.len() - i,
    {
        match keys[i] {
            None => {
                rows.push(String::new());
            },
            Some(k) => {
                if (k as usize) >= values.len() {
                    return Err(
                        ArrowError::InvalidSchema("dictionary key out of range".to_string()),
                    );
                }
                rows.push(values[k as usize].clone());
            },
        }
        i = i + 1;
    }
    Ok(rows)
}

/// In sorted, disjoint columns at most one range holds any address.
pub proof fn lemma_holding_range_unique(starts: Seq<u32>, ends: Seq<u32>, i: int, j: int, ip: u32)
    requires
        sorted_disjoint(starts, ends),
        0 <= i < starts.len(),
        0 <= j < starts.len(),
        range_holds(starts, ends, i, ip),
        range_holds(starts, ends, j, ip),
    ensures
        i == j,
{
    if i < j {
        assert(ends[i] < starts[j]);
    } else if j < i {
        assert(ends[j] < starts[i]);
    }
}

/// An immutable table of IPv4 ranges with their autonomous system, country
/// and organization, stored column by column.
pub struct IpRangeTableV4 {
    start_ips: U32Column,
    end_ips: U32Column,
    asns: U32Column,
    countries: Vec<String>,
    orgs: Vec<String>,
    len: usize,
}

impl IpRangeTableV4 {
    #[verifier::type_invariant]
    spec fn inv(self) -> bool {
        &&& u32_column(self.start_ips).len() == self.len
        &&& u32_column(self.end_ips).len() == self.len
        &&& u32_column(self.asns).len() == self.len
        &&& self.countries@.len() == self.len
        &&& self.orgs@.len() == self.len
        &&& sorted_disjoint(u32_column(self.start_ips), u32_column(self.end_ips))
    }

    /// The start addresses, in row order.
    pub closed spec fn starts(self) -> Seq<u32> {
        u32_column(self.start_ips)
    }

    /// The end addresses, in row order.
    pub closed spec fn ends(self) -> Seq<u32> {
        u32_column(self.end_ips)
    }

    /// The autonomous-system numbers, in row order.
    pub closed spec fn asn_values(self) -> Seq<u32> {
        u32_column(self.asns)
    }

    /// The countries, in row order.
    pub closed spec fn country_values(self) -> Seq<String> {
        self.countries@
    }

    /// The organizations, in row order.
    pub closed spec fn org_values(self) -> Seq<String> {
        self.orgs@
    }

    /// The number of ranges.
    pub open spec fn size(self) -> nat {
        self.starts().len()
    }

    /// Whether range `i` holds `ip`.
    pub open spec fn holds(self, i: int, ip: u32) -> bool {
        range_holds(self.starts(), self.ends(), i, ip)
    }

    /// What a lookup reports for range `i`.
    pub open spec fn row_info(self, i: int) -> AsnInfo {
        AsnInfo {
            asn: Asn(self.asn_values()[i]),
            organization: self.org_values()[i],
            country: Some(self.country_values()[i]),
            description: None,
        }
    }

    /// What a lookup of `ip` reports: the range that holds it, if any.
    pub open spec fn lookup(self, ip: u32) -> Option<AsnInfo> {
        if exists|i: int| 0 <= i < self.size() && #[trigger] self.holds(i, ip) {
            Some(self.row_info(choose|i: int| 0 <= i < self.size() && #[trigger] self.holds(i, ip)))
        } else {
            None
        }
    }

    /// The table's columns have one length and its ranges are sorted and
    /// disjoint; every value of the type satisfies this.
    pub open spec fn well_formed(self) -> bool {
        &&& self.ends().len() == self.size()
        &&& self.asn_values().len() == self.size()
        &&& self.country_values().len() == self.size()
        &&& self.org_values().len() == self.size()
        &&& sorted_disjoint(self.starts(), self.ends())
    }

    /// Builds a table from its five columns. The columns must have one length,
    /// and the ranges must be sorted by start and pairwise disjoint.
    pub fn from_columns(
        start_ips: Vec<u32>,
        end_ips: Vec<u32>,
        asns: Vec<u32>,
        countries: Vec<String>,
        orgs: Vec<String>,
    ) -> (r: Result<IpRangeTableV4, ArrowError>)
        ensures
            r is Ok <==> {
                &&& end_ips@.len() == start_ips@.len()
                &&& asns@.len() == start_ips@.len()
                &&& countries@.len() == start_ips@.len()
                &&& orgs@.len() == start_ips@.len()
                &&& sorted_disjoint(start_ips@, end_ips@)
            },
            r matches Ok(t) ==> {
                &&& t.starts() == start_ips@
                &&& t.ends() == end_ips@
                &&& t.asn_values() == asns@
                &&& t.country_values() == countries@
                &&& t.org_values() == orgs@
            },
            r matches Err(e) ==> e is InvalidSchema,
    {
        let ghost starts = start_ips@;
        let ghost ends = end_ips@;
        let start_col = column_from_vec(start_ips);
        let end_col = column_from_vec(end_ips);
        let asn_col = column_from_vec(asns);
        let len = column_len(&start_col);
        if column_len(&end_col) != len || column_len(&asn_col) != len || countries.len() != len
            || orgs.len() != len {
            return Err(ArrowError::InvalidSchema("columns differ in length".to_string()));
        }
        let mut k: usize = 0;
        while k < len
            invariant
                k <= len,
                len == starts.len(),
                starts == u32_column(start_col),
                ends == u32_column(end_col),
                starts == start_ips@,
                ends == end_ips@,
                len == ends.len(),
                forall|i: int| 0 <= i < k ==> #[trigger] starts[i] <= #[trigger] ends[i],
                forall|i: int, j: int| 0 <= i < j < k ==> #[trigger] ends[i] < #[trigger] starts[j],
            decreases len - k,
        {
            let s = column_value(&start_col, k);
            let e = column_value(&end_col, k);
            if s > e {
                return Err(ArrowError::InvalidSchema("a range ends before it starts".to_string()));
            }
            if k > 0 {
                let prev_end = column_value(&end_col, k - 1);
                if prev_end >= s {
                    return Err(
                        ArrowError::InvalidSchema(
                            "ranges are not sorted and disjoint".to_string(),
                        ),
                    );
                }
                assert forall|i: int, j: int| 0 <= i < j < k + 1 implies #[trigger] ends[i]
                    < #[trigger] starts[j] by {
                    if j == k && i < k - 1 {
                        assert(ends[i] < starts[k - 1]);
                        assert(starts[k - 1] <= ends[k - 1]);
                    }
                }
            }
            k = k + 1;
        }
        Ok(
            IpRangeTableV4 {
                start_ips: start_col,
                end_ips: end_col,
                asns: asn_col,
                countries,
                orgs,
                len,
            },
        )
    }

    /// The index of the range that holds `ip`, if any.
    pub fn binary_search(&self, ip: u32) -> (r: Option<usize>)
        ensures
            self.well_formed(),
            r matches Some(i) ==> i < self.size() && self.holds(i as int, ip),
            r is None ==> forall|i: int| 0 <= i < self.size() ==> !#[trigger] self.holds(i, ip),
    {
        proof {
            use_type_invariant(self);
        }
        let mut left: usize = 0;
        let mut right: usize = self.len;
        while left < right
            invariant
                left <= right <= self.len,
                self.len == self.size(),
                self.well_formed(),
                forall|i: int| 0 <= i < left ==> !#[trigger] self.holds(i, ip),
                forall|i: int| right <= i < self.size() ==> !#[trigger] self.holds(i, ip),
            decreases right - left,
        {
            let mid = left + (right - left) / 2;
            let start = column_value(&self.start_ips, mid);
            let end = column_value(&self.end_ips, mid);
            if ip < start {
                assert forall|i: int| mid <= i < self.size() implies !#[trigger] self.holds(
                    i,
                    ip,
                ) by {
                    if i > mid {
                        assert(self.ends()[mid as int] < self.starts()[i]);
                        assert(self.starts()[mid as int] <= self.ends()[mid as int]);
                    }
                }
                right = mid;
            } else if ip > end {
                assert forall|i: int| 0 <= i <= mid implies !#[trigger] self.holds(i, ip) by {
                    if i < mid {
                        assert(self.ends()[i] < self.starts()[mid as int]);
                    }
                }
                left = mid + 1;
            } else {
                return Some(mid);
            }
        }
        None
    }

    /// What is known of the range that holds `ip`, or `None` when no range
    /// does.
    pub fn find_ip(&self, ip: u32) -> (r: Option<AsnInfo>)
        ensures
            self.well_formed(),
            r == self.lookup(ip),
    {
        proof {
            use_type_invariant(self);
        }
        match self.binary_search(ip) {
            None => None,
            Some(idx) => {
                let asn = column_value(&self.asns, idx);
                let info = AsnInfo {
                    asn: Asn(asn),
                    organization: self.orgs[idx].clone(),
                    country: Some(self.countries[idx].clone()),
                    description: None,
                };
                proof {
                    let c = choose|i: int| 0 <= i < self.size() && #[trigger] self.holds(i, ip);
                    lemma_holding_range_unique(self.starts(), self.ends(), c, idx as int, ip);
                }
                Some(info)
            }
        }
    }

    /// The number of ranges.
    pub fn len(&self) -> (r: usize)
        ensures
            r == self.size(),
    {
        proof {
            use_type_invariant(self);
        }
        self.len
    }

    /// Whether the table holds no range.
    pub fn is_empty(&self) -> (r: bool)
        ensures
            r == (self.size() == 0),
    {
        proof {
            use_type_invariant(self);
        }
        self.len == 0
    }
}

/// A lookup reports the unique range that holds the address when one does,
/// and nothing when none does.
pub proof fn lemma_lookup_finds_holding_range(t: IpRangeTableV4, ip: u32, i: int)
    requires
        t.well_formed(),
        0 <= i < t.size(),
    ensures
        t.holds(i, ip) ==> t.lookup(ip) == Some(t.row_info(i)),
        (forall|j: int| 0 <= j < t.size() ==> !#[trigger] t.holds(j, ip)) ==> t.lookup(ip) is None,
{
    if t.holds(i, ip) {
        let c = choose|j: int| 0 <= j < t.size() && #[trigger] t.holds(j, ip);
        lemma_holding_range_unique(t.starts(), t.ends(), c, i, ip);
    }
}

/// Both ends of a range belong to it; the address just below its start and
/// the one just above its end do not, and a lookup of either reports nothing
/// unless another range holds it.
pub proof fn lemma_range_bounds_inclusive(t: IpRangeTableV4, i: int)
    requires
        t.well_formed(),
        0 <= i < t.size(),
    ensures
        t.lookup(t.starts()[i]) == Some(t.row_info(i)),
        t.lookup(t.ends()[i]) == Some(t.row_info(i)),
        t.starts()[i] > 0 ==> !t.holds(i, (t.starts()[i] - 1) as u32),
        t.ends()[i] < u32::MAX ==> !t.holds(i, (t.ends()[i] + 1) as u32),
        t.starts()[i] > 0 && (forall|j: int|
            0 <= j < t.size() && j != i ==> !#[trigger] t.holds(j, (t.starts()[i] - 1) as u32))
            ==> t.lookup((t.starts()[i] - 1) as u32) is None,
        t.ends()[i] < u32::MAX && (forall|j: int|
            0 <= j < t.size() && j != i ==> !#[trigger] t.holds(j, (t.ends()[i] + 1) as u32))
            ==> t.lookup((t.ends()[i] + 1) as u32) is None,
{
    assert(t.starts()[i] <= t.ends()[i]);
    lemma_lookup_finds_holding_range(t, t.starts()[i], i);
    lemma_lookup_finds_holding_range(t, t.ends()[i], i);
    if t.starts()[i] > 0 {
        lemma_lookup_finds_holding_range(t, (t.starts()[i] - 1) as u32, i);
    }
    if t.ends()[i] < u32::MAX {
        lemma_lookup_finds_holding_range(t, (t.ends()[i] + 1) as u32, i);
    }
}

} // verus!
