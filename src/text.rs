//! Character-level helpers: splitting on a separator, reading a decimal `u8`,
//! and writing decimal numbers.
use vstd::prelude::*;

verus! {

/// Relies on `String::push`: appends one character.
#[verifier::external_body]
pub(crate) fn push_char(s: &mut String, c: char)
    ensures
        final(s)@ == old(s)@.push(c),
{
    s.push(c)
}

/// Relies on `String::push_str`: appends a string.
#[verifier::external_body]
pub(crate) fn push_str(s: &mut String, t: &str)
    ensures
        final(s)@ == old(s)@ + t@,
{
    s.push_str(t)
}

/// The characters of `s`, in order.
pub fn chars_of(s: &str) -> (r: Vec<char>)
    ensures
        r@ == s@,
{
    let n = s.unicode_len();
    let mut r: Vec<char> = Vec::new();
    let mut i: usize = 0;
    while i < n
        invariant
            n == s@.len(),
            i <= n,
            r@ == s@.take(i as int),
        decreases n - i,
    {
        r.push(s.get_char(i));
        i = i + 1;
        assert(r@ =~= s@.take(i as int));
    }
    assert(s@.take(n as int) =~= s@);
    r
}

/// A string holding the characters of `cs@.subrange(lo, hi)`.
pub fn string_of(cs: &Vec<char>, lo: usize, hi: usize) -> (r: String)
    requires
        lo <= hi <= cs@.len(),
    ensures
        r@ == cs@.subrange(lo as int, hi as int),
{
    let mut r = String::new();
    let mut i = lo;
    while i < hi
        invariant
            lo <= i <= hi <= cs@.len(),
            r@ == cs@.subrange(lo as int, i as int),
        decreases hi - i,
    {
        push_char(&mut r, cs[i]);
        i = i + 1;
        assert(r@ =~= cs@.subrange(lo as int, i as int));
    }
    r
}

/// The pieces of `s` between occurrences of `sep`, as `str::split` gives
/// them: `n` separators make `n + 1` pieces, empty ones included.
pub open spec fn split(s: Seq<char>, sep: char) -> Seq<Seq<char>>
    decreases s.len(),
{
    if s.len() == 0 {
        seq![Seq::<char>::empty()]
    } else {
        let prev = split(s.drop_last(), sep);
        if s.last() == sep {
            prev.push(Seq::<char>::empty())
        } else {
            prev.update(prev.len() - 1, prev.last().push(s.last()))
        }
    }
}

/// Splitting always gives at least one piece.
pub proof fn lemma_split_nonempty(s: Seq<char>, sep: char)
    ensures
        split(s, sep).len() >= 1,
    decreases s.len(),
{
    if s.len() > 0 {
        lemma_split_nonempty(s.drop_last(), sep);
    }
}

/// The pieces of `cs@.subrange(lo, hi)` between occurrences of `sep`, each as
/// the bounds `(start, end)` of its characters in `cs`.
pub fn split_bounds(cs: &Vec<char>, lo: usize, hi: usize, sep: char) -> (r: Vec<(usize, usize)>)
    requires
        lo <= hi <= cs@.len(),
    ensures
        r@.len() == split(cs@.subrange(lo as int, hi as int), sep).len(),
        forall|k: int|
            0 <= k < r@.len() ==> {
                &&& lo <= (#[trigger] r@[k]).0 <= r@[k].1 <= hi
                &&& cs@.subrange(r@[k].0 as int, r@[k].1 as int) == split(
                    cs@.subrange(lo as int, hi as int),
                    sep,
                )[k]
            },
{
    let mut r: Vec<(usize, usize)> = Vec::new();
    let mut start = lo;
    let mut i = lo;
    while i < hi
        invariant
            lo <= start <= i <= hi <= cs@.len(),
            split(cs@.subrange(lo as int, i as int), sep).len() == r@.len() + 1,
            cs@.subrange(start as int, i as int) == split(cs@.subrange(lo as int, i as int), sep).last(),
            forall|k: int|
                0 <= k < r@.len() ==> {
                    &&& lo <= (#[trigger] r@[k]).0 <= r@[k].1 <= start
                    &&& cs@.subrange(r@[k].0 as int, r@[k].1 as int) == split(
                        cs@.subrange(lo as int, i as int),
                        sep,
                    )[k]
                },
        decreases hi - i,
    {
        let ghost prev = split(cs@.subrange(lo as int, i as int), sep);
        let ghost next_s = cs@.subrange(lo as int, i + 1);
        assert(next_s.drop_last() =~= cs@.subrange(lo as int, i as int));
        assert(next_s.last() == cs@[i as int]);
        if cs[i] == sep {
            r.push((start, i));
            start = i + 1;
            i = i + 1;
            assert(cs@.subrange(start as int, i as int) =~= Seq::<char>::empty());
        } else {
            i = i + 1;
            assert(cs@.subrange(start as int, i as int) =~= prev.last().push(cs@[i - 1]));
        }
    }
    r.push((start, hi));
    r
}

/// Whether `c` is an ASCII decimal digit.
pub open spec fn is_digit(c: char) -> bool {
    '0' <= c && c <= '9'
}

/// The value of a digit character.
pub open spec fn digit_value(c: char) -> nat {
    (c as nat - '0' as nat) as nat
}

/// The number that a string of decimal digits spells.
pub open spec fn digits_value(s: Seq<char>) -> nat
    decreases s.len(),
{
    if s.len() == 0 {
        0
    } else {
        digits_value(s.drop_last()) * 10 + digit_value(s.last())
    }
}

/// `s` without a leading `+`.
pub open spec fn unsigned_part(s: Seq<char>) -> Seq<char> {
    if s.len() > 0 && s[0] == '+' {
        s.drop_first()
    } else {
        s
    }
}

/// Whether every character of `d` is a decimal digit.
pub open spec fn all_digits(d: Seq<char>) -> bool {
    forall|i: int| 0 <= i < d.len() ==> is_digit(#[trigger] d[i])
}

/// What `str::parse::<u8>` gives for `s`: an optional `+`, then one or more
/// decimal digits spelling at most 255.
pub open spec fn parsed_u8(s: Seq<char>) -> Option<u8> {
    let d = unsigned_part(s);
    if d.len() > 0 && all_digits(d) && digits_value(d) <= 255 {
        Some(digits_value(d) as u8)
    } else {
        None
    }
}

/// Reads `cs@.subrange(lo, hi)` as a `u8`, by the rules of `str::parse`.
pub fn parse_u8(cs: &Vec<char>, lo: usize, hi: usize) -> (r: Option<u8>)
    requires
        lo <= hi <= cs@.len(),
    ensures
        r == parsed_u8(cs@.subrange(lo as int, hi as int)),
{
    let ghost s = cs@.subrange(lo as int, hi as int);
    let mut from = lo;
    if lo < hi && cs[lo] == '+' {
        from = lo + 1;
    }
    let ghost d = cs@.subrange(from as int, hi as int);
    assert(d =~= unsigned_part(s));
    if from == hi {
        return None;
    }
    let mut acc: u32 = 0;
    let mut i = from;
    while i < hi
        invariant
            from <= i <= hi <= cs@.len(),
            d == cs@.subrange(from as int, hi as int),
            s == cs@.subrange(lo as int, hi as int),
            d == unsigned_part(s),
            forall|k: int| 0 <= k < i - from ==> is_digit(#[trigger] d[k]),
            acc == if digits_value(d.take(i - from)) < 256 {
                digits_value(d.take(i - from))
            } else {
                256
            },
        decreases hi - i,
    {
        let c = cs[i];
        if !('0' <= c && c <= '9') {
            assert(d[i - from] == c);
            assert(!is_digit(d[i - from]));
            return None;
        }
        let v = (c as u32) - ('0' as u32);
        let ghost t = d.take(i + 1 - from);
        assert(t.drop_last() =~= d.take(i - from));
        assert(t.last() == c);
        acc = acc * 10 + v;
        if acc > 256 {
            acc = 256;
        }
        i = i + 1;
    }
    assert(d.take(hi - from) =~= d);
    if acc > 255 {
        None
    } else {
        Some(acc as u8)
    }
}

/// The decimal digits of `n`, most significant first.
pub open spec fn decimal(n: nat) -> Seq<char>
    decreases n,
{
    if n < 10 {
        seq![digit_char(n)]
    } else {
        decimal(n / 10) + seq![digit_char(n % 10)]
    }
}

/// The character of digit `d`.
pub open spec fn digit_char(d: nat) -> char {
    ((d + 48) as u8) as char
}

/// Appends the decimal digits of `n` to `s`.
pub fn push_decimal(s: &mut String, n: u32)
    ensures
        final(s)@ == old(s)@ + decimal(n as nat),
    decreases n,
{
    if n >= 10 {
        push_decimal(s, n / 10);
    }
    let d = (n % 10) as u8;
    push_char(s, (d + 48u8) as char);
    assert(final(s)@ =~= old(s)@ + decimal(n as nat));
}

/// An IPv4 address in dotted-quad form, most significant octet first.
pub open spec fn dotted(n: u32) -> Seq<char> {
    decimal((n >> 24u32) as nat) + seq!['.'] + decimal(((n >> 16u32) & 0xffu32) as nat) + seq!['.']
        + decimal(((n >> 8u32) & 0xffu32) as nat) + seq!['.'] + decimal((n & 0xffu32) as nat)
}

/// Appends the dotted-quad form of `n` to `s`.
pub fn push_dotted(s: &mut String, n: u32)
    ensures
        final(s)@ == old(s)@ + dotted(n),
{
    push_decimal(s, n >> 24u32);
    push_char(s, '.');
    push_decimal(s, (n >> 16u32) & 0xffu32);
    push_char(s, '.');
    push_decimal(s, (n >> 8u32) & 0xffu32);
    push_char(s, '.');
    push_decimal(s, n & 0xffu32);
    assert(final(s)@ =~= old(s)@ + dotted(n));
}

} // verus!
