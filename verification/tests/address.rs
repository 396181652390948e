use dynamic_multi_reducer::address::parse_ipv4_address;
use dynamic_multi_reducer::error::Error;
use fast_socks5::util::target_addr::TargetAddr;

fn parsed(text: &str) -> Option<(String, u16)> {
    match parse_ipv4_address(text) {
        Ok(address) => Some(address),
        Err(Error::ParseIPAddress) => None,
        Err(other) => panic!("{}", other.message()),
    }
}

fn address(host: &str, port: u16) -> Option<(String, u16)> {
    Some((host.to_string(), port))
}

/// What the standard library makes of the text.
fn reference(text: &str) -> Option<(String, u16)> {
    match text.parse().map(TargetAddr::Ip) {
        Ok(TargetAddr::Ip(addr)) if addr.is_ipv4() => Some((addr.ip().to_string(), addr.port())),
        _ => None,
    }
}

#[test]
fn splits_an_address() {
    assert_eq!(parsed("127.0.0.1:8080"), address("127.0.0.1", 8080));
    assert_eq!(parsed("0.0.0.0:0"), address("0.0.0.0", 0));
    assert_eq!(parsed("255.255.255.255:65535"), address("255.255.255.255", 65535));
}

#[test]
fn port_may_have_leading_zeros() {
    assert_eq!(parsed("10.0.0.1:000000080"), address("10.0.0.1", 80));
}

#[test]
fn refuses_what_is_no_address() {
    for text in [
        "", ":", "localhost:80", "1.2.3.4", "1.2.3.4:", "1.2.3:80", "1.2.3.4.5:80", "256.0.0.1:80",
        "01.2.3.4:80", "1.2.3.00:80", "1.2.3.4:65536", "1.2.3.4:99999999999999999999", "1.2.3.4:8a",
        " 1.2.3.4:80", "1.2.3.4:80 ", "1.2.3.4:-1", "1.2.3.4:+1", "1..3.4:80", "[::1]:80",
        "1.2.3.4;80", "1000.2.3.4:80", "1.2.3.4:8\u{662}",
    ] {
        assert_eq!(parsed(text), None, "{}", text);
    }
}

#[test]
fn agrees_with_the_standard_library() {
    let hosts = [
        "0.0.0.0", "1.2.3.4", "9.10.99.100", "199.200.249.255", "256.1.1.1", "1.256.1.1", "01.1.1.1",
        "1.1.1.001", "1.1.1.", ".1.1.1", "1.1.1", "1.1.1.1.1", "a.1.1.1", "1.1.1.1 ", "999.1.1.1",
        "1000.1.1.1", "0.00.0.0", "1.1.1.\u{661}", "", "[::1]",
    ];
    let ports = [
        "0", "1", "80", "0080", "65535", "65536", "065535", "000000000065535", "99999", "", "-1",
        "+1", "8 ", " 8", "0x10", "8a", "4294967376", "18446744073709551696", ":80",
    ];
    for host in hosts {
        assert_eq!(parsed(host), reference(host), "{}", host);
        for port in ports {
            let text = format!("{}:{}", host, port);
            assert_eq!(parsed(&text), reference(&text), "{}", text);
        }
    }
}

#[test]
fn written_addresses_read_back() {
    for n in 0..=255u8 {
        let host = format!("{}.{}.{}.{}", n, 255 - n, n / 2, n % 10);
        let port = n as u16 * 257;
        assert_eq!(parsed(&format!("{}:{}", host, port)), Some((host, port)));
    }
}

#[test]
fn host_is_the_text_before_the_colon() {
    let (host, _) = parsed("192.168.100.7:00443").unwrap();
    assert_eq!(host, "192.168.100.7");
}
