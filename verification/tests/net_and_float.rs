//! Tests for the address and floating point syntax matchers.

use scan_rules::scanner::lang::match_float;
use scan_rules::scanner::net::{match_ipv4, match_ipv4_sock, match_ipv6, match_ipv6_sock, match_sock_addr};

#[test]
fn test_match_ipv4() {
    assert_eq!(match_ipv4(b"0.0.0.0"), Some(7));
    assert_eq!(match_ipv4(b"127.0.0.1"), Some(9));
    assert_eq!(match_ipv4(b"255.255.255.255"), Some(15));
    assert_eq!(match_ipv4(b"255.0.0"), None);
    assert_eq!(match_ipv4(b"255.0.0.1.2"), Some(9));
    assert_eq!(match_ipv4(b"255.0..1"), None);
    assert_eq!(match_ipv4(b"x.0.0.1"), None);
}

#[test]
fn test_match_ipv6() {
    assert_eq!(match_ipv6(b"::"), Some(2));
    assert_eq!(match_ipv6(b"::1"), Some(3));
    assert_eq!(match_ipv6(b"0:0:0:0:0:0:0:0"), Some(15));
    assert_eq!(match_ipv6(b"2a02:6b8::11:11"), Some(15));
    assert_eq!(match_ipv6(b"2001:db8::8a2e:370:7334"), Some(23));
    assert_eq!(match_ipv6(b"1:2:::6:7:8"), Some(5));
    assert_eq!(match_ipv6(b"1:2::6::8"), Some(6));
    assert_eq!(match_ipv6(b"::192.0.2.33"), Some(12));
    assert_eq!(match_ipv6(b"64:ff9b::192.0.2.33"), Some(19));
    assert_eq!(match_ipv6(b"::127.0.0.1:"), Some(11));
    // An abbreviation directly after the first group is not recognised:
    // the address grammar asks for two ordinary groups first.
    assert_eq!(match_ipv6(b"fe80::204:61ff:254.157.241.86"), None);
    assert_eq!(match_ipv6(b"x"), None);
    assert_eq!(match_ipv6(b"1"), None);
}

#[test]
fn test_match_sock_addr() {
    assert_eq!(match_ipv4_sock(b"127.0.0.1:80"), Some(12));
    assert_eq!(match_ipv4_sock(b"127.0.0.1"), None);
    assert_eq!(match_ipv6_sock(b"[::1]:8080"), Some(10));
    assert_eq!(match_ipv6_sock(b"::1:8080"), None);
    assert_eq!(match_sock_addr(b"10.0.0.1:22 rest"), Some(11));
    assert_eq!(match_sock_addr(b"[2001:db8::1]:443"), Some(17));
}

#[test]
fn test_float_scan_forms() {
    assert_eq!(match_float(b""), None);
    assert_eq!(match_float(b"-"), None);
    assert_eq!(match_float(b"+"), None);
    assert_eq!(match_float(b"x"), None);
    assert_eq!(match_float(b" 0"), None);
    assert_eq!(match_float(b"0"), None);

    assert_eq!(match_float(b"inf"), Some(3));
    assert_eq!(match_float(b"-inf"), Some(4));
    assert_eq!(match_float(b"NaN"), Some(3));
    assert_eq!(match_float(b"infinite"), None);

    assert_eq!(match_float(b"0.0"), Some(3));
    assert_eq!(match_float(b"-1.0"), Some(4));
    assert_eq!(match_float(b"0.1"), Some(3));
    assert_eq!(match_float(b"12345."), Some(6));
    assert_eq!(match_float(b"0.12345"), Some(7));
    assert_eq!(match_float(b"101e-33"), Some(7));
    assert_eq!(match_float(b"1e23"), Some(4));
    assert_eq!(match_float(b"2075e23 rest"), Some(7));
    assert_eq!(match_float(b"8713e-23"), Some(8));
    assert_eq!(match_float(b"1.448997445238699"), Some(17));
    assert_eq!(match_float(b"1e"), None);
    assert_eq!(match_float(b"1e+"), None);
}
