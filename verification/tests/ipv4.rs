use dyndns::ipv4::{parse_ipv4, parse_ipv4_trimmed, Ipv4};

#[test]
fn test_parse_dotted_quad() {
    assert_eq!(parse_ipv4("1.2.3.4"), Some(Ipv4::new(1, 2, 3, 4)));
    assert_eq!(parse_ipv4("0.0.0.0"), Some(Ipv4::new(0, 0, 0, 0)));
    assert_eq!(parse_ipv4("255.255.255.255"), Some(Ipv4::new(255, 255, 255, 255)));
    assert_eq!(parse_ipv4("192.168.10.1"), Some(Ipv4::new(192, 168, 10, 1)));
}

#[test]
fn test_parse_rejects_malformed_text() {
    assert_eq!(parse_ipv4(""), None);
    assert_eq!(parse_ipv4("1.2.3"), None);
    assert_eq!(parse_ipv4("1.2.3.4.5"), None);
    assert_eq!(parse_ipv4("1.2.3."), None);
    assert_eq!(parse_ipv4(".1.2.3.4"), None);
    assert_eq!(parse_ipv4("1..2.3"), None);
    assert_eq!(parse_ipv4("a.b.c.d"), None);
    assert_eq!(parse_ipv4("1.2.3.4 "), None);
}

#[test]
fn test_parse_rejects_leading_zeros() {
    assert_eq!(parse_ipv4("01.2.3.4"), None);
    assert_eq!(parse_ipv4("1.2.3.04"), None);
    assert_eq!(parse_ipv4("00.0.0.0"), None);
}

#[test]
fn test_parse_rejects_octet_above_255() {
    assert_eq!(parse_ipv4("256.1.1.1"), None);
    assert_eq!(parse_ipv4("1.1.1.999"), None);
    assert_eq!(parse_ipv4("1234.1.1.1"), None);
}

#[test]
fn test_render_exact_text() {
    assert_eq!(Ipv4::new(255, 0, 17, 3).render(), "255.0.17.3");
    assert_eq!(Ipv4::new(4, 4, 4, 4).render(), "4.4.4.4");
}

#[test]
fn test_parse_render_round_trip() {
    for ip in [
        Ipv4::new(1, 2, 3, 4),
        Ipv4::new(0, 0, 0, 0),
        Ipv4::new(255, 254, 100, 9),
        Ipv4::new(10, 0, 200, 99),
    ] {
        assert_eq!(parse_ipv4(&ip.render()), Some(ip));
    }
}

#[test]
fn test_parse_trimmed_strips_whitespace() {
    assert_eq!(parse_ipv4_trimmed("  1.2.3.4\r\n"), Some(Ipv4::new(1, 2, 3, 4)));
    assert_eq!(parse_ipv4_trimmed("5.6.7.8"), Some(Ipv4::new(5, 6, 7, 8)));
    assert_eq!(parse_ipv4_trimmed("\t\n"), None);
    assert_eq!(parse_ipv4_trimmed("1.2. 3.4"), None);
}
