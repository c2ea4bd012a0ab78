use rasn::cidr::{parse_ip, Cidr, CidrError};

#[test]
fn test_parse_cidr() {
    let cidr = Cidr::parse("192.168.1.0/24").unwrap();
    assert_eq!(cidr.network(), 0xC0A80100);
    assert_eq!(cidr.prefix_len(), 24);
}

#[test]
fn test_parse_cidr_slash_8() {
    let cidr = Cidr::parse("10.0.0.0/8").unwrap();
    assert_eq!(cidr.network(), 0x0A000000);
    assert_eq!(cidr.prefix_len(), 8);
}

#[test]
fn test_parse_invalid_cidr() {
    assert!(Cidr::parse("192.168.1.0").is_err());
    assert!(Cidr::parse("192.168.1.0/33").is_err());
    assert!(Cidr::parse("256.0.0.0/24").is_err());
}

#[test]
fn parse_errors_name_their_cause() {
    assert!(matches!(Cidr::parse("192.168.1.0"), Err(CidrError::InvalidNotation(_))));
    assert!(matches!(Cidr::parse("1.2.3.4/5/6"), Err(CidrError::InvalidNotation(_))));
    assert!(matches!(Cidr::parse("1.2.3.4/x"), Err(CidrError::InvalidNotation(_))));
    assert!(matches!(Cidr::parse("1.2.3.4/"), Err(CidrError::InvalidNotation(_))));
    assert!(matches!(Cidr::parse("1.2.3.4/300"), Err(CidrError::InvalidNotation(_))));
    assert!(matches!(Cidr::parse("192.168.1.0/33"), Err(CidrError::InvalidPrefixLength(33))));
    assert!(matches!(Cidr::parse("256.0.0.0/24"), Err(CidrError::InvalidIpAddress(_))));
    assert!(matches!(Cidr::parse("1.2.3/24"), Err(CidrError::InvalidIpAddress(_))));
    assert!(matches!(Cidr::parse("1.2.3.4.5/24"), Err(CidrError::InvalidIpAddress(_))));
    assert!(matches!(Cidr::parse("1..3.4/24"), Err(CidrError::InvalidIpAddress(_))));
}

#[test]
fn parse_follows_integer_parsing_rules() {
    let cidr = Cidr::parse("+10.0.0.1/+8").unwrap();
    assert_eq!(cidr.network(), 0x0A000000);
    assert_eq!(cidr.prefix_len(), 8);
    let cidr = Cidr::parse("010.000.000.001/032").unwrap();
    assert_eq!(cidr.network(), 0x0A000001);
    assert!(Cidr::parse("-1.0.0.0/8").is_err());
    assert!(Cidr::parse(" 1.0.0.0/8").is_err());
}

#[test]
fn parse_clears_host_bits() {
    let cidr = Cidr::parse("192.168.1.77/24").unwrap();
    assert_eq!(cidr.network(), 0xC0A80100);
    assert_eq!(cidr.mask(), 0xFFFFFF00);
}

#[test]
fn test_cidr_contains() {
    let cidr = Cidr::parse("192.168.1.0/24").unwrap();
    assert!(cidr.contains(0xC0A80100));
    assert!(cidr.contains(0xC0A80101));
    assert!(cidr.contains(0xC0A801FF));
    assert!(!cidr.contains(0xC0A80001));
    assert!(!cidr.contains(0xC0A80200));
}

#[test]
fn test_cidr_broadcast() {
    let cidr = Cidr::parse("192.168.1.0/24").unwrap();
    assert_eq!(cidr.broadcast(), 0xC0A801FF);
}

#[test]
fn test_cidr_usable_range() {
    let cidr = Cidr::parse("192.168.1.0/24").unwrap();
    assert_eq!(cidr.first_usable(), 0xC0A80101);
    assert_eq!(cidr.last_usable(), 0xC0A801FE);
}

#[test]
fn test_cidr_size() {
    let cidr24 = Cidr::parse("192.168.1.0/24").unwrap();
    assert_eq!(cidr24.size(), 256);

    let cidr16 = Cidr::parse("192.168.0.0/16").unwrap();
    assert_eq!(cidr16.size(), 65536);

    let cidr8 = Cidr::parse("10.0.0.0/8").unwrap();
    assert_eq!(cidr8.size(), 16777216);
}

#[test]
fn whole_address_space() {
    let all = Cidr::parse("0.0.0.0/0").unwrap();
    assert_eq!(all.size(), 1u64 << 32);
    assert_eq!(all.mask(), 0);
    assert_eq!(all.broadcast(), u32::MAX);
    assert_eq!(all.first_usable(), 1);
    assert_eq!(all.last_usable(), u32::MAX - 1);
    assert!(all.contains(0) && all.contains(u32::MAX));
}

#[test]
fn test_cidr_iterator_small() {
    let cidr = Cidr::parse("192.168.1.0/30").unwrap();
    let mut it = cidr.iter();
    let mut ips: Vec<u32> = Vec::new();
    while let Some(ip) = it.next() {
        ips.push(ip);
    }
    assert_eq!(ips.len(), 4);
    assert_eq!(ips[0], 0xC0A80100);
    assert_eq!(ips[3], 0xC0A80103);
}

#[test]
fn iterator_reaches_the_top_address() {
    let cidr = Cidr::parse("255.255.255.254/31").unwrap();
    let mut it = cidr.iter();
    assert_eq!(it.next(), Some(0xFFFFFFFE));
    assert_eq!(it.next(), Some(0xFFFFFFFF));
    assert_eq!(it.next(), None);
}

#[test]
fn test_cidr_display() {
    let cidr = Cidr::parse("192.168.1.0/24").unwrap();
    assert_eq!(cidr.to_string(), "192.168.1.0/24");
}

#[test]
fn test_cidr_new() {
    let cidr = Cidr::new(0xC0A80100, 24).unwrap();
    assert_eq!(cidr.network(), 0xC0A80100);
    assert_eq!(cidr.prefix_len(), 24);
}

#[test]
fn new_refuses_long_prefixes() {
    assert!(matches!(Cidr::new(0, 33), Err(CidrError::InvalidPrefixLength(33))));
    assert_eq!(Cidr::new(0xC0A801FF, 24).unwrap().network(), 0xC0A80100);
    assert_eq!(Cidr::new(0x0A0B0C0D, 0).unwrap().to_string(), "0.0.0.0/0");
}

#[test]
fn test_cidr_slash_32() {
    let cidr = Cidr::parse("192.168.1.1/32").unwrap();
    assert_eq!(cidr.size(), 1);
    assert_eq!(cidr.first_usable(), 0xC0A80101);
    assert_eq!(cidr.last_usable(), 0xC0A80101);
}

#[test]
fn slash_31_has_two_usable_addresses() {
    let cidr = Cidr::parse("10.0.0.0/31").unwrap();
    assert_eq!(cidr.size(), 2);
    assert_eq!(cidr.first_usable(), 0x0A000000);
    assert_eq!(cidr.last_usable(), 0x0A000001);
}

#[test]
fn test_parse_ip() {
    assert_eq!(parse_ip("8.8.8.8").unwrap(), 0x08080808);
    assert_eq!(parse_ip("192.168.1.1").unwrap(), 0xC0A80101);
    assert!(parse_ip("invalid").is_err());
    assert!(parse_ip("256.0.0.1").is_err());
}
