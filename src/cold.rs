//! The cold range store's records and lookup rule. The store is a key-ordered
//! map: a range is stored under its start address in big-endian form (so
//! byte order is numeric order) with the value `end || asn`; metadata is
//! stored under the big-endian ASN. A lookup of `ip` walks the ranges from the
//! greatest start at or below `ip` downwards and stops at the first that holds
//! `ip`. This module fixes the layout and the decision at each step of that
//! walk; the storage engine itself is driven by the application.
use vstd::prelude::*;

verus! {

/// The partition of ranges, keyed by big-endian start address.
pub const CF_IP_RANGES: &'static str = "ip_ranges";

/// The partition of metadata, keyed by big-endian ASN.
pub const CF_ASN_METADATA: &'static str = "asn_metadata";

/// A partition reserved for secondary indexes.
pub const CF_INDEXES: &'static str = "indexes";

/// Errors of the cold store.
#[derive(Debug)]
pub enum StorageError {
    /// The storage engine failed.
    DatabaseError(String),
    /// A record could not be encoded or decoded.
    SerializationError(String),
    /// A key is absent.
    NotFound(String),
    /// A stored record is corrupt.
    InvalidData(String),
}

/// The four big-endian bytes of `n`.
pub open spec fn be_bytes(n: u32) -> Seq<u8> {
    seq![(n >> 24u32) as u8, ((n >> 16u32) & 0xffu32) as u8, ((n >> 8u32) & 0xffu32) as u8, (n & 0xffu32) as u8]
}

/// The number that four big-endian bytes spell.
pub open spec fn be_value(b0: u8, b1: u8, b2: u8, b3: u8) -> u32 {
    ((b0 as u32) << 24u32) | ((b1 as u32) << 16u32) | ((b2 as u32) << 8u32) | (b3 as u32)
}

/// Four big-endian bytes read back as the number they were made from.
pub proof fn lemma_be_round_trip(n: u32)
    ensures
        be_value(be_bytes(n)[0], be_bytes(n)[1], be_bytes(n)[2], be_bytes(n)[3]) == n,
{
    assert(((((n >> 24u32) as u8) as u32) << 24u32) | (((((n >> 16u32) & 0xffu32) as u8) as u32)
        << 16u32) | (((((n >> 8u32) & 0xffu32) as u8) as u32) << 8u32) | (((n & 0xffu32) as u8) as u32)
        == n) by (bit_vector);
}

/// The big-endian bytes of `n`.
pub fn be_bytes_of(n: u32) -> (r: Vec<u8>)
    ensures
        r@ == be_bytes(n),
{
    let mut r: Vec<u8> = Vec::new();
    r.push((n >> 24u32) as u8);
    r.push(((n >> 16u32) & 0xffu32) as u8);
    r.push(((n >> 8u32) & 0xffu32) as u8);
    r.push((n & 0xffu32) as u8);
    assert(r@ =~= be_bytes(n));
    r
}

/// The number spelled by the four big-endian bytes of `b` at `at`.
fn be_u32_at(b: &[u8], at: usize) -> (r: u32)
    requires
        at + 4 <= b@.len(),
    ensures
        r == be_value(b@[at as int], b@[at + 1], b@[at + 2], b@[at + 3]),
{
    ((b[at] as u32) << 24u32) | ((b[at + 1] as u32) << 16u32) | ((b[at + 2] as u32) << 8u32) | (
    b[at + 3] as u32)
}

/// The key under which a range starting at `start` is stored.
pub fn range_key(start: u32) -> (r: Vec<u8>)
    ensures
        r@ == be_bytes(start),
{
    be_bytes_of(start)
}

/// The value stored for a range that ends at `end` and belongs to `asn`.
pub fn range_value(end: u32, asn: u32) -> (r: Vec<u8>)
    ensures
        r@ == be_bytes(end) + be_bytes(asn),
{
    let mut r = be_bytes_of(end);
    let mut tail = be_bytes_of(asn);
    r.append(&mut tail);
    r
}

/// The key under which the metadata of `asn` is stored.
pub fn metadata_key(asn: u32) -> (r: Vec<u8>)
    ensures
        r@ == be_bytes(asn),
{
    be_bytes_of(asn)
}

/// The range `(start, end, asn)` that a stored record spells, if it has the
/// range layout: a four-byte key and an eight-byte value.
pub open spec fn decoded_range(key: Seq<u8>, value: Seq<u8>) -> Option<(u32, u32, u32)> {
    if key.len() == 4 && value.len() == 8 {
        Some(
            (
                be_value(key[0], key[1], key[2], key[3]),
                be_value(value[0], value[1], value[2], value[3]),
                be_value(value[4], value[5], value[6], value[7]),
            ),
        )
    } else {
        None
    }
}

/// Reads a stored range record as `(start, end, asn)`; records of another
/// shape give `None`.
pub fn decode_range(key: &[u8], value: &[u8]) -> (r: Option<(u32, u32, u32)>)
    ensures
        r == decoded_range(key@, value@),
{
    if key.len() == 4 && value.len() == 8 {
        Some((be_u32_at(key, 0), be_u32_at(value, 0), be_u32_at(value, 4)))
    } else {
        None
    }
}

/// The decision at one record of a downward walk for `ip`.
#[derive(Debug, Clone, Copy, PartialEq, Eq, Structural)]
pub enum ScanStep {
    /// The record's range holds `ip`: the lookup answers with this ASN.
    Found(u32),
    /// The record's range starts above `ip`: nothing further down can hold it.
    Stop,
    /// Go on to the next record down.
    Continue,
}

/// The decision at a record `(key, value)` of the walk for `ip`.
pub open spec fn scan_step(ip: u32, key: Seq<u8>, value: Seq<u8>) -> ScanStep {
    match decoded_range(key, value) {
        None => ScanStep::Continue,
        Some((start, end, asn)) => if start <= ip && ip <= end {
            ScanStep::Found(asn)
        } else if ip < start {
            ScanStep::Stop
        } else {
            ScanStep::Continue
        },
    }
}

/// What the walk for `ip` answers over `records`, taken in order.
pub open spec fn scan(ip: u32, records: Seq<(Seq<u8>, Seq<u8>)>) -> Option<u32>
    decreases records.len(),
{
    if records.len() == 0 {
        None
    } else {
        match scan_step(ip, records[0].0, records[0].1) {
            ScanStep::Found(asn) => Some(asn),
            ScanStep::Stop => None,
            ScanStep::Continue => scan(ip, records.drop_first()),
        }
    }
}

/// Decides one step of the walk for `ip` at the record `(key, value)`.
pub fn range_scan_step(ip: u32, key: &[u8], value: &[u8]) -> (r: ScanStep)
    ensures
        r == scan_step(ip, key@, value@),
{
    match decode_range(key, value) {
        None => ScanStep::Continue,
        Some((start, end, asn)) => {
            if start <= ip && ip <= end {
                ScanStep::Found(asn)
            } else if ip < start {
                ScanStep::Stop
            } else {
                ScanStep::Continue
            }
        },
    }
}

/// The stored records of ranges `(start, end, asn)`, in the given order.
pub open spec fn range_records(ranges: Seq<(u32, u32, u32)>) -> Seq<(Seq<u8>, Seq<u8>)> {
    ranges.map_values(|r: (u32, u32, u32)| (be_bytes(r.0), be_bytes(r.1) + be_bytes(r.2)))
}

/// A range record reads back as the range that was stored.
pub proof fn lemma_range_record_round_trip(start: u32, end: u32, asn: u32)
    ensures
        decoded_range(be_bytes(start), be_bytes(end) + be_bytes(asn)) == Some((start, end, asn)),
{
    lemma_be_round_trip(start);
    lemma_be_round_trip(end);
    lemma_be_round_trip(asn);
    let v = be_bytes(end) + be_bytes(asn);
    assert(v[4] == be_bytes(asn)[0] && v[5] == be_bytes(asn)[1]);
    assert(v[6] == be_bytes(asn)[2] && v[7] == be_bytes(asn)[3]);
}

/// Pairwise disjoint ranges, each starting no later than it ends.
pub open spec fn disjoint_ranges(ranges: Seq<(u32, u32, u32)>) -> bool {
    &&& forall|i: int| 0 <= i < ranges.len() ==> (#[trigger] ranges[i]).0 <= ranges[i].1
    &&& forall|i: int, j: int|
        0 <= i < j < ranges.len() ==> (#[trigger] ranges[i]).1 < (#[trigger] ranges[j]).0
            || ranges[j].1 < ranges[i].0
}

/// Of stored disjoint ranges, the walk for `ip` over those that start at or
/// below `ip` (as the store yields them, from the greatest start down)
/// answers with the ASN of the range that holds `ip`, and with nothing when
/// none holds it.
pub proof fn lemma_scan_finds_stored_range(ip: u32, ranges: Seq<(u32, u32, u32)>)
    requires
        disjoint_ranges(ranges),
        forall|i: int| 0 <= i < ranges.len() ==> (#[trigger] ranges[i]).0 <= ip,
    ensures
        forall|i: int|
            0 <= i < ranges.len() && (#[trigger] ranges[i]).0 <= ip && ip <= ranges[i].1 ==> scan(
                ip,
                range_records(ranges),
            ) == Some(ranges[i].2),
        (forall|i: int| 0 <= i < ranges.len() ==> !((#[trigger] ranges[i]).0 <= ip && ip <= ranges[i].1))
            ==> scan(ip, range_records(ranges)) is None,
    decreases ranges.len(),
{
    let recs = range_records(ranges);
    if ranges.len() > 0 {
        let first = ranges[0];
        lemma_range_record_round_trip(first.0, first.1, first.2);
        let rest = ranges.drop_first();
        assert(recs.drop_first() =~= range_records(rest));
        assert(disjoint_ranges(rest)) by {
            assert forall|i: int, j: int| 0 <= i < j < rest.len() implies (#[trigger] rest[i]).1
                < (#[trigger] rest[j]).0 || rest[j].1 < rest[i].0 by {
                assert(rest[i] == ranges[i + 1] && rest[j] == ranges[j + 1]);
            }
        }
        assert forall|i: int| 0 <= i < rest.len() implies (#[trigger] rest[i]).0 <= ip by {
            assert(rest[i] == ranges[i + 1]);
        }
        lemma_scan_finds_stored_range(ip, rest);
        assert(recs[0] == (be_bytes(first.0), be_bytes(first.1) + be_bytes(first.2)));
        assert forall|i: int|
            0 <= i < ranges.len() && (#[trigger] ranges[i]).0 <= ip && ip <= ranges[i].1 implies scan(
                ip,
                recs,
            ) == Some(ranges[i].2) by {
            if i > 0 {
                assert(ranges[i] == rest[i - 1]);
                assert(!(first.0 <= ip && ip <= first.1));
            }
        }
        if forall|i: int| 0 <= i < ranges.len() ==> !((#[trigger] ranges[i]).0 <= ip && ip <= ranges[i].1) {
            assert forall|i: int| 0 <= i < rest.len() implies !((#[trigger] rest[i]).0 <= ip && ip
                <= rest[i].1) by {
                assert(rest[i] == ranges[i + 1]);
            }
        }
    }
}

} // verus!
