//! IPv4 CIDR blocks: parsing `a.b.c.d/p`, masks, bounds and membership.
use vstd::prelude::*;

use crate::cold::be_value;
use crate::text::{
    chars_of, decimal, dotted, parse_u8, parsed_u8, push_char, push_decimal, push_dotted, push_str,
    split, split_bounds, string_of,
};

verus! {

/// Errors of CIDR handling.
#[derive(Debug)]
pub enum CidrError {
    /// The text is not of the form `address/prefix`, or the prefix is not a
    /// number.
    InvalidNotation(String),
    /// The address is not four dotted octets.
    InvalidIpAddress(String),
    /// The prefix length exceeds 32.
    InvalidPrefixLength(u8),
    /// The block is too large for the operation.
    RangeTooLarge(u8),
}

/// The network mask of a prefix length: its `p` high bits set.
pub open spec fn mask_of(p: u8) -> u32 {
    if p == 0 {
        0
    } else {
        0xffff_ffffu32 << ((32 - p) as u32)
    }
}

/// The address that dotted-quad text spells: four pieces between dots, each
/// a `u8` as `str::parse` reads it, most significant first.
pub open spec fn ipv4_of(s: Seq<char>) -> Option<u32> {
    let o = split(s, '.');
    if o.len() == 4 && parsed_u8(o[0]) is Some && parsed_u8(o[1]) is Some && parsed_u8(o[2]) is Some
        && parsed_u8(o[3]) is Some {
        Some(
            be_value(
                parsed_u8(o[0])->0,
                parsed_u8(o[1])->0,
                parsed_u8(o[2])->0,
                parsed_u8(o[3])->0,
            ),
        )
    } else {
        None
    }
}

/// Reads a dotted-quad IPv4 address such as `192.168.1.1`.
pub fn parse_ip(ip: &str) -> (r: Result<u32, String>)
    ensures
        r is Ok <==> ipv4_of(ip@) is Some,
        r matches Ok(v) ==> v == ipv4_of(ip@)->0,
{
    let cs = chars_of(ip);
    assert(cs@.subrange(0, cs@.len() as int) =~= ip@);
    match Cidr::parse_ipv4(&cs, 0, cs.len()) {
        Ok(v) => Ok(v),
        Err(e) => Err(
            match e {
                CidrError::InvalidIpAddress(m) => m,
                _ => "Invalid IP address format".to_string(),
            },
        ),
    }
}

/// A CIDR block: a network address with its low `32 - prefix_len` bits
/// clear, and the prefix length.
#[derive(Debug, Clone, Copy, PartialEq, Eq, Structural)]
pub struct Cidr {
    network: u32,
    prefix_len: u8,
    mask: u32,
}

impl Cidr {
    #[verifier::type_invariant]
    spec fn inv(self) -> bool {
        &&& self.prefix_len <= 32
        &&& self.mask == mask_of(self.prefix_len)
        &&& self.network & self.mask == self.network
    }

    /// The network address.
    pub closed spec fn net(self) -> u32 {
        self.network
    }

    /// The prefix length.
    pub closed spec fn prefix(self) -> u8 {
        self.prefix_len
    }

    /// The broadcast address: the network address with every host bit set.
    pub open spec fn last_addr(self) -> u32 {
        self.net() | !mask_of(self.prefix())
    }

    /// Parses `a.b.c.d/p`. The text must hold exactly one `/`; the prefix
    /// must be a `u8` of at most 32; the address must be four dotted `u8`
    /// octets. The host bits of the address are cleared.
    pub fn parse(cidr: &str) -> (r: Result<Cidr, CidrError>)
        ensures
            split(cidr@, '/').len() != 2 ==> r matches Err(CidrError::InvalidNotation(_)),
            split(cidr@, '/').len() == 2 && parsed_u8(split(cidr@, '/')[1]) is None ==> r matches Err(
                CidrError::InvalidNotation(_),
            ),
            split(cidr@, '/').len() == 2 && parsed_u8(split(cidr@, '/')[1]) is Some && parsed_u8(
                split(cidr@, '/')[1],
            )->0 > 32 ==> r == Err::<Cidr, CidrError>(
                CidrError::InvalidPrefixLength(parsed_u8(split(cidr@, '/')[1])->0),
            ),
            split(cidr@, '/').len() == 2 && parsed_u8(split(cidr@, '/')[1]) is Some && parsed_u8(
                split(cidr@, '/')[1],
            )->0 <= 32 && ipv4_of(split(cidr@, '/')[0]) is None ==> r matches Err(
                CidrError::InvalidIpAddress(_),
            ),
            split(cidr@, '/').len() == 2 && parsed_u8(split(cidr@, '/')[1]) is Some && parsed_u8(
                split(cidr@, '/')[1],
            )->0 <= 32 && ipv4_of(split(cidr@, '/')[0]) is Some ==> {
                &&& r is Ok
                &&& r->Ok_0.net() == ipv4_of(split(cidr@, '/')[0])->0 & mask_of(
                    parsed_u8(split(cidr@, '/')[1])->0,
                )
                &&& r->Ok_0.prefix() == parsed_u8(split(cidr@, '/')[1])->0
            },
    {
        let cs = chars_of(cidr);
        let parts = split_bounds(&cs, 0, cs.len(), '/');
        assert(cs@.subrange(0, cs@.len() as int) =~= cidr@);
        if parts.len() != 2 {
            return Err(CidrError::InvalidNotation("Expected format: x.x.x.x/prefix".to_string()));
        }
        let (ip_lo, ip_hi) = parts[0];
        let (p_lo, p_hi) = parts[1];
        let prefix_len = match parse_u8(&cs, p_lo, p_hi) {
            Some(p) => p,
            None => {
                let mut msg = "Invalid prefix: ".to_string();
                let piece = string_of(&cs, p_lo, p_hi);
                push_str(&mut msg, piece.as_str());
                return Err(CidrError::InvalidNotation(msg));
            },
        };
        if prefix_len > 32 {
            return Err(CidrError::InvalidPrefixLength(prefix_len));
        }
        let ip = match Self::parse_ipv4(&cs, ip_lo, ip_hi) {
            Ok(ip) => ip,
            Err(e) => {
                return Err(e);
            },
        };
        let mask = Self::mask_for(prefix_len);
        let network = ip & mask;
        assert(network & mask == network) by (bit_vector)
            requires
                network == ip & mask,
        ;
        Ok(Cidr { network, prefix_len, mask })
    }

    /// The mask of prefix length `p`.
    fn mask_for(p: u8) -> (r: u32)
        requires
            p <= 32,
        ensures
            r == mask_of(p),
    {
        if p == 0 {
            0
        } else {
            0xffff_ffffu32 << ((32 - p) as u32)
        }
    }

    /// Reads the dotted-quad address `cs@.subrange(lo, hi)`.
    fn parse_ipv4(cs: &Vec<char>, lo: usize, hi: usize) -> (r: Result<u32, CidrError>)
        requires
            lo <= hi <= cs@.len(),
        ensures
            ipv4_of(cs@.subrange(lo as int, hi as int)) is Some ==> r == Ok::<u32, CidrError>(
                ipv4_of(cs@.subrange(lo as int, hi as int))->0,
            ),
            ipv4_of(cs@.subrange(lo as int, hi as int)) is None ==> r matches Err(
                CidrError::InvalidIpAddress(_),
            ),
    {
        let ghost s = cs@.subrange(lo as int, hi as int);
        let octets = split_bounds(cs, lo, hi, '.');
        if octets.len() != 4 {
            return Err(CidrError::InvalidIpAddress("Expected 4 octets".to_string()));
        }
        let mut values: Vec<u8> = Vec::new();
        let mut i: usize = 0;
        while i < 4
            invariant
                lo <= hi <= cs@.len(),
                s == cs@.subrange(lo as int, hi as int),
                octets@.len() == 4,
                i <= 4,
                values@.len() == i,
                split(s, '.').len() == 4,
                forall|k: int|
                    0 <= k < 4 ==> {
                        &&& lo <= (#[trigger] octets@[k]).0 <= octets@[k].1 <= hi
                        &&& cs@.subrange(octets@[k].0 as int, octets@[k].1 as int) == split(
                            s,
                            '.',
                        )[k]
                    },
                forall|k: int| 0 <= k < i ==> parsed_u8(split(s, '.')[k]) == Some(#[trigger] values@[k]),
            decreases 4 - i,
        {
            let (o_lo, o_hi) = octets[i];
            match parse_u8(cs, o_lo, o_hi) {
                Some(v) => {
                    values.push(v);
                },
                None => {
                    let mut msg = "Invalid octet: ".to_string();
                    let piece = string_of(cs, o_lo, o_hi);
                    push_str(&mut msg, piece.as_str());
                    return Err(CidrError::InvalidIpAddress(msg));
                },
            }
            i = i + 1;
        }
        Ok(((values[0] as u32) << 24u32) | ((values[1] as u32) << 16u32) | ((values[2] as u32)
            << 8u32) | (values[3] as u32))
    }

    /// The block of prefix length `prefix_len` that holds `network`; the host
    /// bits of `network` are cleared. A prefix length above 32 is refused.
    pub fn new(network: u32, prefix_len: u8) -> (r: Result<Cidr, CidrError>)
        ensures
            prefix_len > 32 ==> r == Err::<Cidr, CidrError>(
                CidrError::InvalidPrefixLength(prefix_len),
            ),
            prefix_len <= 32 ==> {
                &&& r is Ok
                &&& r->Ok_0.net() == network & mask_of(prefix_len)
                &&& r->Ok_0.prefix() == prefix_len
            },
    {
        if prefix_len > 32 {
            return Err(CidrError::InvalidPrefixLength(prefix_len));
        }
        let mask = Self::mask_for(prefix_len);
        let net = network & mask;
        assert(net & mask == net) by (bit_vector)
            requires
                net == network & mask,
        ;
        Ok(Cidr { network: net, prefix_len, mask })
    }

    /// The network address.
    pub fn network(&self) -> (r: u32)
        ensures
            r == self.net(),
            self.prefix() <= 32,
            r & mask_of(self.prefix()) == r,
    {
        proof {
            use_type_invariant(self);
        }
        self.network
    }

    /// The prefix length.
    pub fn prefix_len(&self) -> (r: u8)
        ensures
            r == self.prefix(),
            r <= 32,
    {
        proof {
            use_type_invariant(self);
        }
        self.prefix_len
    }

    /// The network mask.
    pub fn mask(&self) -> (r: u32)
        ensures
            r == mask_of(self.prefix()),
            self.prefix() <= 32,
            self.net() & r == self.net(),
    {
        proof {
            use_type_invariant(self);
        }
        self.mask
    }

    /// The broadcast address, the last of the block.
    pub fn broadcast(&self) -> (r: u32)
        ensures
            r == self.last_addr(),
    {
        proof {
            use_type_invariant(self);
        }
        self.network | !self.mask
    }

    /// The first host address: the network address itself for /31 and /32,
    /// otherwise the one after it.
    pub fn first_usable(&self) -> (r: u32)
        ensures
            self.prefix() >= 31 ==> r == self.net(),
            self.prefix() < 31 ==> r == self.net() + 1,
    {
        proof {
            use_type_invariant(self);
        }
        if self.prefix_len >= 31 {
            self.network
        } else {
            let n = self.network;
            let m = self.mask;
            if self.prefix_len > 0 {
                let s: u32 = (32 - self.prefix_len) as u32;
                assert(n < 0xffff_ffffu32) by (bit_vector)
                    requires
                        n & m == n,
                        m == 0xffff_ffffu32 << s,
                        2 <= s < 32,
                ;
            } else {
                assert(n == 0) by (bit_vector)
                    requires
                        n & m == n,
                        m == 0u32,
                ;
            }
            n + 1
        }
    }

    /// The last host address: the broadcast address itself for /31 and /32,
    /// otherwise the one before it.
    pub fn last_usable(&self) -> (r: u32)
        ensures
            self.prefix() >= 31 ==> r == self.last_addr(),
            self.prefix() < 31 ==> r == self.last_addr() - 1,
            self.prefix() >= 31 ==> self.net() <= r,
            self.prefix() < 31 ==> self.net() < r,
    {
        proof {
            use_type_invariant(self);
        }
        let b = self.broadcast();
        if self.prefix_len >= 31 {
            let n = self.network;
            let m = self.mask;
            assert(n <= (n | !m)) by (bit_vector);
            b
        } else {
            let n = self.network;
            let m = self.mask;
            if self.prefix_len > 0 {
                let s: u32 = (32 - self.prefix_len) as u32;
                assert((n | !m) > 0 && n < (n | !m) - 1) by (bit_vector)
                    requires
                        n & m == n,
                        m == 0xffff_ffffu32 << s,
                        2 <= s < 32,
                ;
            } else {
                assert((n | !m) > 0 && n < (n | !m) - 1) by (bit_vector)
                    requires
                        n & m == n,
                        m == 0u32,
                ;
            }
            b - 1
        }
    }

    /// The number of addresses in the block.
    pub fn size(&self) -> (r: u64)
        ensures
            r == self.last_addr() - self.net() + 1,
            self.prefix() == 0 ==> r == 0x1_0000_0000u64,
            self.prefix() > 0 ==> r == 1u64 << ((32 - self.prefix()) as u64),
    {
        proof {
            use_type_invariant(self);
        }
        let n = self.network;
        let m = self.mask;
        if self.prefix_len == 0 {
            assert(n == 0 && (n | !m) == 0xffff_ffffu32) by (bit_vector)
                requires
                    n & m == n,
                    m == 0u32,
            ;
            assert(1u64 << 32u64 == 0x1_0000_0000u64) by (bit_vector);
            1u64 << 32u64
        } else {
            let s: u32 = (32 - self.prefix_len) as u32;
            assert(((n | !m) as u64) - (n as u64) + 1u64 == (1u64 << (s as u64))) by (bit_vector)
                requires
                    n & m == n,
                    m == 0xffff_ffffu32 << s,
                    s < 32,
            ;
            1u64 << (s as u64)
        }
    }

    /// Whether `ip` lies in the block.
    pub fn contains(&self, ip: u32) -> (r: bool)
        ensures
            r == (self.net() <= ip && ip <= self.last_addr()),
            r == ((ip & mask_of(self.prefix())) == self.net()),
    {
        proof {
            use_type_invariant(self);
        }
        let n = self.network;
        let m = self.mask;
        if self.prefix_len == 0 {
            assert(((ip & m) == n) == (n <= ip && ip <= (n | !m))) by (bit_vector)
                requires
                    n & m == n,
                    m == 0u32,
            ;
        } else {
            let s: u32 = (32 - self.prefix_len) as u32;
            assert(((ip & m) == n) == (n <= ip && ip <= (n | !m))) by (bit_vector)
                requires
                    n & m == n,
                    m == 0xffff_ffffu32 << s,
                    s < 32,
            ;
        }
        (ip & self.mask) == self.network
    }

    /// The addresses of the block, from the network address up to the
    /// broadcast address.
    pub fn iter(&self) -> (r: CidrIterator)
        ensures
            r.position() == self.net(),
            r.last() == self.last_addr(),
    {
        CidrIterator::new(*self)
    }

    /// The block as `a.b.c.d/p`.
    pub fn to_string(&self) -> (r: String)
        ensures
            r@ == dotted(self.net()) + seq!['/'] + decimal(self.prefix() as nat),
    {
        let mut r = String::new();
        push_dotted(&mut r, self.network);
        push_char(&mut r, '/');
        push_decimal(&mut r, self.prefix_len as u32);
        assert(r@ =~= dotted(self.net()) + seq!['/'] + decimal(self.prefix() as nat));
        r
    }
}

/// The addresses of a block, in ascending order.
pub struct CidrIterator {
    current: u64,
    end: u64,
}

impl CidrIterator {
    #[verifier::type_invariant]
    spec fn inv(self) -> bool {
        self.end <= u32::MAX
    }

    /// The next address to hand out.
    pub closed spec fn position(self) -> int {
        self.current as int
    }

    /// The last address to hand out.
    pub closed spec fn last(self) -> int {
        self.end as int
    }

    fn new(cidr: Cidr) -> (r: CidrIterator)
        ensures
            r.position() == cidr.net(),
            r.last() == cidr.last_addr(),
    {
        let start = cidr.network() as u64;
        let end = cidr.broadcast() as u64;
        CidrIterator { current: start, end }
    }

    /// The next address of the block, or `None` once every address was
    /// handed out.
    pub fn next(&mut self) -> (r: Option<u32>)
        ensures
            final(self).last() == old(self).last(),
            old(self).position() <= old(self).last() ==> {
                &&& r == Some(old(self).position() as u32)
                &&& final(self).position() == old(self).position() + 1
            },
            old(self).position() > old(self).last() ==> {
                &&& r is None
                &&& final(self).position() == old(self).position()
            },
    {
        proof {
            use_type_invariant(&*self);
        }
        if self.current <= self.end {
            let ip = self.current as u32;
            self.current = self.current + 1;
            Some(ip)
        } else {
            None
        }
    }
}

} // verus!
