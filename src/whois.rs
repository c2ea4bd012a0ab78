//! WHOIS enrichment: the servers, the query text, and how fields are read
//! out of a response. Talking to a server over TCP is the application's part.
use vstd::prelude::*;

use std::time::Duration;

use crate::asn::Asn;
use crate::text::{chars_of, push_decimal, push_str, split, split_bounds, string_of, decimal};

verus! {

/// Errors of WHOIS queries.
#[derive(Debug)]
pub enum WhoisError {
    /// The server could not be reached.
    ConnectionFailed(String),
    /// Sending the query or reading the answer failed.
    QueryFailed(String),
    /// The answer is not text.
    ParseError(String),
    /// The server took longer than allowed.
    Timeout,
}

/// What a WHOIS server reports of an ASN.
#[derive(Debug, Clone)]
pub struct WhoisResponse {
    pub asn: Asn,
    pub org_name: Option<String>,
    pub org_id: Option<String>,
    pub reg_date: Option<String>,
    pub update_date: Option<String>,
    pub admin_contact: Option<String>,
    pub tech_contact: Option<String>,
    pub raw_response: String,
}

/// A WHOIS server's address.
#[derive(Debug, Clone)]
pub struct WhoisServer {
    pub host: String,
    pub port: u16,
}

/// The WHOIS port.
pub const WHOIS_PORT: u16 = 43;

impl WhoisServer {
    fn arin() -> (r: WhoisServer)
        ensures
            r.host@ == "whois.arin.net"@,
            r.port == WHOIS_PORT,
    {
        WhoisServer { host: "whois.arin.net".to_string(), port: WHOIS_PORT }
    }

    fn ripe() -> (r: WhoisServer)
        ensures
            r.host@ == "whois.ripe.net"@,
            r.port == WHOIS_PORT,
    {
        WhoisServer { host: "whois.ripe.net".to_string(), port: WHOIS_PORT }
    }

    fn apnic() -> (r: WhoisServer)
        ensures
            r.host@ == "whois.apnic.net"@,
            r.port == WHOIS_PORT,
    {
        WhoisServer { host: "whois.apnic.net".to_string(), port: WHOIS_PORT }
    }
}

/// Whether `c` is white space, as `char::is_whitespace` says (the Unicode
/// `White_Space` property).
pub open spec fn is_space(c: char) -> bool {
    ('\u{9}' <= c && c <= '\u{d}') || c == ' ' || c == '\u{85}' || c == '\u{a0}' || c == '\u{1680}'
        || ('\u{2000}' <= c && c <= '\u{200a}') || c == '\u{2028}' || c == '\u{2029}' || c
        == '\u{202f}' || c == '\u{205f}' || c == '\u{3000}'
}

fn space(c: char) -> (r: bool)
    ensures
        r == is_space(c),
{
    ('\u{9}' <= c && c <= '\u{d}') || c == ' ' || c == '\u{85}' || c == '\u{a0}' || c == '\u{1680}'
        || ('\u{2000}' <= c && c <= '\u{200a}') || c == '\u{2028}' || c == '\u{2029}' || c
        == '\u{202f}' || c == '\u{205f}' || c == '\u{3000}'
}

/// `s` without its leading white space.
pub open spec fn trim_front(s: Seq<char>) -> Seq<char>
    decreases s.len(),
{
    if s.len() > 0 && is_space(s[0]) {
        trim_front(s.drop_first())
    } else {
        s
    }
}

/// `s` without its trailing white space.
pub open spec fn trim_back(s: Seq<char>) -> Seq<char>
    decreases s.len(),
{
    if s.len() > 0 && is_space(s.last()) {
        trim_back(s.drop_last())
    } else {
        s
    }
}

/// `s` without white space at either end, as `str::trim` gives it.
pub open spec fn trimmed(s: Seq<char>) -> Seq<char> {
    trim_back(trim_front(s))
}

/// The lines of `s` as `str::lines` gives them: the pieces between line
/// feeds, each without the carriage return before its line feed, and no
/// empty last line after a final line feed.
pub open spec fn text_lines(s: Seq<char>) -> Seq<Seq<char>> {
    let pieces = split(s, '\n');
    let kept = if pieces.last().len() == 0 {
        pieces.drop_last()
    } else {
        pieces
    };
    Seq::new(kept.len(), |i: int| line_body(kept[i], i < pieces.len() - 1))
}

/// A piece of text without the carriage return that ends it, where a line
/// feed followed it.
pub open spec fn line_body(piece: Seq<char>, fed: bool) -> Seq<char> {
    if fed && piece.len() > 0 && piece.last() == '\r' {
        piece.drop_last()
    } else {
        piece
    }
}

/// Whether `l` starts with `f`.
pub open spec fn is_prefix(f: Seq<char>, l: Seq<char>) -> bool {
    f.len() <= l.len() && l.take(f.len() as int) == f
}

/// The first of `ls` that starts with `f`.
pub open spec fn first_with_prefix(ls: Seq<Seq<char>>, f: Seq<char>) -> Option<Seq<char>>
    decreases ls.len(),
{
    if ls.len() == 0 {
        None
    } else if is_prefix(f, ls[0]) {
        Some(ls[0])
    } else {
        first_with_prefix(ls.drop_first(), f)
    }
}

/// The value of field `f` in a WHOIS response: on the first line that starts
/// with `f`, the text between its first and second colon (or its end),
/// trimmed; nothing when no line starts with `f` or that line has no colon.
pub open spec fn field_value(response: Seq<char>, f: Seq<char>) -> Option<Seq<char>> {
    match first_with_prefix(text_lines(response), f) {
        None => None,
        Some(line) => if split(line, ':').len() >= 2 {
            Some(trimmed(split(line, ':')[1]))
        } else {
            None
        },
    }
}

proof fn lemma_first_with_prefix(ls: Seq<Seq<char>>, f: Seq<char>, k: int)
    requires
        0 <= k <= ls.len(),
        forall|j: int| 0 <= j < k ==> !is_prefix(f, #[trigger] ls[j]),
    ensures
        k < ls.len() && is_prefix(f, ls[k]) ==> first_with_prefix(ls, f) == Some(ls[k]),
        k == ls.len() ==> first_with_prefix(ls, f) is None,
    decreases k,
{
    if k > 0 {
        let rest = ls.drop_first();
        assert forall|j: int| 0 <= j < k - 1 implies !is_prefix(f, #[trigger] rest[j]) by {
            assert(rest[j] == ls[j + 1]);
        }
        lemma_first_with_prefix(rest, f, k - 1);
    }
}

/// Whether `cs@.subrange(lo, hi)` starts with `f`.
fn starts_with(cs: &Vec<char>, lo: usize, hi: usize, f: &Vec<char>) -> (r: bool)
    requires
        lo <= hi <= cs@.len(),
    ensures
        r == is_prefix(f@, cs@.subrange(lo as int, hi as int)),
{
    if f.len() > hi - lo {
        return false;
    }
    let mut i: usize = 0;
    while i < f.len()
        invariant
            lo <= hi <= cs@.len(),
            f@.len() <= hi - lo,
            i <= f@.len(),
            forall|j: int| 0 <= j < i ==> cs@[lo + j] == f@[j],
        decreases f@.len() - i,
    {
        if cs[lo + i] != f[i] {
            assert(cs@.subrange(lo as int, hi as int).take(f@.len() as int)[i as int] != f@[i as int]);
            return false;
        }
        i = i + 1;
    }
    assert(cs@.subrange(lo as int, hi as int).take(f@.len() as int) =~= f@);
    true
}

/// The bounds of `cs@.subrange(lo, hi)` without white space at either end.
fn trim_bounds(cs: &Vec<char>, lo: usize, hi: usize) -> (r: (usize, usize))
    requires
        lo <= hi <= cs@.len(),
    ensures
        lo <= r.0 <= r.1 <= hi,
        cs@.subrange(r.0 as int, r.1 as int) == trimmed(cs@.subrange(lo as int, hi as int)),
{
    let ghost s = cs@.subrange(lo as int, hi as int);
    let mut a = lo;
    while a < hi && space(cs[a])
        invariant
            lo <= a <= hi <= cs@.len(),
            trim_front(s) == trim_front(cs@.subrange(a as int, hi as int)),
        decreases hi - a,
    {
        assert(cs@.subrange(a as int, hi as int).drop_first() =~= cs@.subrange(a + 1, hi as int));
        a = a + 1;
    }
    let ghost front = cs@.subrange(a as int, hi as int);
    assert(trim_front(front) == front);
    let mut b = hi;
    while b > a && space(cs[b - 1])
        invariant
            lo <= a <= b <= hi <= cs@.len(),
            trim_back(front) == trim_back(cs@.subrange(a as int, b as int)),
        decreases b - a,
    {
        assert(cs@.subrange(a as int, b as int).drop_last() =~= cs@.subrange(a as int, b - 1));
        b = b - 1;
    }
    (a, b)
}

/// A WHOIS client; `timeout` bounds each connection and each read.
pub struct WhoisClient {
    timeout: Duration,
}

/// The default timeout, in milliseconds.
pub const DEFAULT_TIMEOUT_MILLIS: u64 = 500;

/// The duration of a number of milliseconds.
pub uninterp spec fn millis_duration(ms: u64) -> Duration;

/// Relies on `Duration::from_millis`: the duration of `ms` milliseconds,
/// which depends on `ms` alone.
#[verifier::external_body]
fn duration_from_millis(ms: u64) -> (r: Duration)
    ensures
        r == millis_duration(ms),
{
    Duration::from_millis(ms)
}

impl WhoisClient {
    pub closed spec fn time_limit(self) -> Duration {
        self.timeout
    }

    /// A client with the default timeout of 500 ms.
    pub fn new() -> (r: WhoisClient)
        ensures
            r.time_limit() == millis_duration(DEFAULT_TIMEOUT_MILLIS),
    {
        WhoisClient { timeout: duration_from_millis(DEFAULT_TIMEOUT_MILLIS) }
    }

    /// A client with the given timeout.
    pub fn with_timeout(timeout: Duration) -> (r: WhoisClient)
        ensures
            r.time_limit() == timeout,
    {
        WhoisClient { timeout }
    }

    /// The timeout.
    pub fn timeout(&self) -> (r: Duration)
        ensures
            r == self.time_limit(),
    {
        self.timeout
    }

    /// The query for `asn`: `AS<asn>` and a line end.
    pub fn query_text(asn: u32) -> (r: String)
        ensures
            r@ == seq!['A', 'S'] + decimal(asn as nat) + seq!['\r', '\n'],
    {
        let mut r = String::new();
        push_str(&mut r, "AS");
        proof {
            reveal_strlit("AS");
        }
        push_decimal(&mut r, asn);
        push_str(&mut r, "\r\n");
        proof {
            reveal_strlit("\r\n");
        }
        assert(r@ =~= seq!['A', 'S'] + decimal(asn as nat) + seq!['\r', '\n']);
        r
    }

    /// The response of a server to the query for `asn`, with its fields read
    /// out of the raw text.
    pub fn response_from(asn: u32, raw_response: String) -> (r: WhoisResponse)
        ensures
            r.asn == Asn(asn),
            r.raw_response == raw_response,
            opt_view(r.org_name) == field_value(raw_response@, "OrgName:"@),
            opt_view(r.org_id) == field_value(raw_response@, "OrgId:"@),
            opt_view(r.reg_date) == field_value(raw_response@, "RegDate:"@),
            opt_view(r.update_date) == field_value(raw_response@, "Updated:"@),
            opt_view(r.admin_contact) == field_value(raw_response@, "OrgAbuseEmail:"@),
            opt_view(r.tech_contact) == field_value(raw_response@, "OrgTechEmail:"@),
    {
        let org_name = Self::extract_field(raw_response.as_str(), "OrgName:");
        let org_id = Self::extract_field(raw_response.as_str(), "OrgId:");
        let reg_date = Self::extract_field(raw_response.as_str(), "RegDate:");
        let update_date = Self::extract_field(raw_response.as_str(), "Updated:");
        let admin_contact = Self::extract_field(raw_response.as_str(), "OrgAbuseEmail:");
        let tech_contact = Self::extract_field(raw_response.as_str(), "OrgTechEmail:");
        WhoisResponse {
            asn: Asn(asn),
            org_name,
            org_id,
            reg_date,
            update_date,
            admin_contact,
            tech_contact,
            raw_response,
        }
    }

    /// The value of `field` in `response`, as `field_value` describes it.
    pub fn extract_field(response: &str, field: &str) -> (r: Option<String>)
        ensures
            opt_view(r) == field_value(response@, field@),
    {
        let cs = chars_of(response);
        let f = chars_of(field);
        let n = cs.len();
        let pieces = split_bounds(&cs, 0, n, '\n');
        let ghost s = cs@.subrange(0, n as int);
        assert(s =~= response@);
        let ghost ps = split(s, '\n');
        proof {
            crate::text::lemma_split_nonempty(s, '\n');
        }
        let np = pieces.len();
        let (last_lo, last_hi) = pieces[np - 1];
        let kept = if last_lo == last_hi {
            np - 1
        } else {
            np
        };
        let ghost lines = text_lines(s);
        assert(lines.len() == kept);
        let mut k: usize = 0;
        while k < kept
            invariant
                k <= kept <= np,
                np == pieces@.len(),
                np == ps.len(),
                lines == text_lines(s),
                s == response@,
                f@ == field@,
                lines.len() == kept,
                n == cs@.len(),
                ps == split(s, '\n'),
                forall|j: int|
                    0 <= j < np ==> {
                        &&& 0 <= (#[trigger] pieces@[j]).0 <= pieces@[j].1 <= n
                        &&& cs@.subrange(pieces@[j].0 as int, pieces@[j].1 as int) == ps[j]
                    },
                forall|j: int| 0 <= j < k ==> !is_prefix(f@, #[trigger] lines[j]),
            decreases kept - k,
        {
            let (lo, hi0) = pieces[k];
            let mut hi = hi0;
            if k + 1 < np && hi > lo && cs[hi - 1] == '\r' {
                hi = hi - 1;
                assert(ps[k as int].drop_last() =~= cs@.subrange(lo as int, hi as int));
            }
            assert(cs@.subrange(lo as int, hi as int) == lines[k as int]);
            if starts_with(&cs, lo, hi, &f) {
                proof {
                    lemma_first_with_prefix(lines, f@, k as int);
                }
                let parts = split_bounds(&cs, lo, hi, ':');
                if parts.len() < 2 {
                    return None;
                }
                let (v_lo, v_hi) = parts[1];
                let (t_lo, t_hi) = trim_bounds(&cs, v_lo, v_hi);
                return Some(string_of(&cs, t_lo, t_hi));
            }
            k = k + 1;
        }
        proof {
            lemma_first_with_prefix(lines, f@, kept as int);
        }
        None
    }

    /// The servers the client knows: ARIN, RIPE and APNIC.
    pub fn available_servers() -> (r: Vec<WhoisServer>)
        ensures
            r@.len() == 3,
            r@[0].host@ == "whois.arin.net"@,
            r@[1].host@ == "whois.ripe.net"@,
            r@[2].host@ == "whois.apnic.net"@,
            forall|i: int| 0 <= i < 3 ==> (#[trigger] r@[i]).port == WHOIS_PORT,
    {
        let mut r: Vec<WhoisServer> = Vec::new();
        r.push(WhoisServer::arin());
        r.push(WhoisServer::ripe());
        r.push(WhoisServer::apnic());
        r
    }
}

impl Default for WhoisClient {
    fn default() -> (r: WhoisClient)
        ensures
            r.time_limit() == millis_duration(DEFAULT_TIMEOUT_MILLIS),
    {
        WhoisClient::new()
    }
}

/// The text of an optional string.
pub open spec fn opt_view(o: Option<String>) -> Option<Seq<char>> {
    match o {
        Some(s) => Some(s@),
        None => None,
    }
}

} // verus!
