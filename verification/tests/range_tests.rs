use octointel::range::parse_cidr;

fn ip(a: u32, b: u32, c: u32, d: u32) -> u32 {
    (a << 24) | (b << 16) | (c << 8) | d
}

#[test]
fn slash24_expands_to_256() {
    let r = parse_cidr(b"192.168.1.0/24").unwrap();
    let v = r.expand();
    assert_eq!(v.len(), 256);
    assert_eq!(v[0], ip(192, 168, 1, 0));
    assert_eq!(v[255], ip(192, 168, 1, 255));
}

#[test]
fn slash32_expands_to_one() {
    let r = parse_cidr(b"10.0.0.1/32").unwrap();
    let v = r.expand();
    assert_eq!(v.len(), 1);
    assert_eq!(v[0], ip(10, 0, 0, 1));
}

#[test]
fn slash30_expands_in_ascending_order() {
    let r = parse_cidr(b"10.0.0.0/30").unwrap();
    let v = r.expand();
    assert_eq!(
        v,
        vec![ip(10, 0, 0, 0), ip(10, 0, 0, 1), ip(10, 0, 0, 2), ip(10, 0, 0, 3)]
    );
}

#[test]
fn size_matches_prefix() {
    assert_eq!(parse_cidr(b"172.16.0.0/16").unwrap().size(), 65536);
    assert_eq!(parse_cidr(b"0.0.0.0/0").unwrap().size(), 1u64 << 32);
}

#[test]
fn host_bits_are_cleared() {
    let r = parse_cidr(b"10.0.0.5/30").unwrap();
    assert_eq!(r.network, ip(10, 0, 0, 4));
    assert_eq!(r.prefix, 30);
    let r = parse_cidr(b"35.207.76.249/16").unwrap();
    assert_eq!(r.network, ip(35, 207, 0, 0));
}

#[test]
fn octet_out_of_range_is_rejected() {
    assert!(parse_cidr(b"999.0.0.0/8").is_none());
    assert!(parse_cidr(b"10.0.0.256/24").is_none());
}

#[test]
fn malformed_strings_are_rejected() {
    assert!(parse_cidr(b"").is_none());
    assert!(parse_cidr(b"10.0.0.0").is_none());
    assert!(parse_cidr(b"10.0.0.0/").is_none());
    assert!(parse_cidr(b"10.0.0/8").is_none());
    assert!(parse_cidr(b"10.0.0.0.0/8").is_none());
    assert!(parse_cidr(b"a.b.c.d/8").is_none());
    assert!(parse_cidr(b"10.0.0.0/33").is_none());
    assert!(parse_cidr(b"10.0.0.0/123").is_none());
    assert!(parse_cidr(b"10.0.0.0/8 ").is_none());
    assert!(parse_cidr(b" 10.0.0.0/8").is_none());
}

#[test]
fn leading_zeros_are_rejected() {
    assert!(parse_cidr(b"01.0.0.0/8").is_none());
    assert!(parse_cidr(b"10.00.0.0/8").is_none());
}

#[test]
fn boundary_prefixes_parse() {
    assert!(parse_cidr(b"10.0.0.0/0").is_some());
    assert!(parse_cidr(b"255.255.255.255/32").is_some());
}
