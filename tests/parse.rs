use proxy_pool::proxy::{Ipv4, ParseError, Proxy, ProxyType};

fn proxy(a: u8, b: u8, c: u8, d: u8, port: i32) -> Proxy {
    Proxy { proxy_type: ProxyType::Socks5, ip: Ipv4 { a, b, c, d }, port }
}

#[test]
fn parses_address_and_port() {
    assert_eq!(Proxy::from_str("1.2.3.4:1080"), Ok(proxy(1, 2, 3, 4, 1080)));
    assert_eq!(Proxy::from_str("218.28.136.54:7302"), Ok(proxy(218, 28, 136, 54, 7302)));
    assert_eq!(Proxy::from_str("0.0.0.0:0"), Ok(proxy(0, 0, 0, 0, 0)));
    assert_eq!(Proxy::from_str("255.255.255.255:65535"), Ok(proxy(255, 255, 255, 255, 65535)));
}

#[test]
fn port_is_any_i32() {
    assert_eq!(Proxy::from_str("1.2.3.4:-5"), Ok(proxy(1, 2, 3, 4, -5)));
    assert_eq!(Proxy::from_str("1.2.3.4:+7"), Ok(proxy(1, 2, 3, 4, 7)));
    assert_eq!(Proxy::from_str("1.2.3.4:070000"), Ok(proxy(1, 2, 3, 4, 70000)));
    assert_eq!(Proxy::from_str("1.2.3.4:2147483647"), Ok(proxy(1, 2, 3, 4, i32::MAX)));
    assert_eq!(Proxy::from_str("1.2.3.4:-2147483648"), Ok(proxy(1, 2, 3, 4, i32::MIN)));
}

#[test]
fn rejects_malformed_lines() {
    let bad = [
        "not-a-proxy",
        "",
        "1.2.3.4",
        "1.2.3.4:",
        ":80",
        "1.2.3.4:abc",
        "1.2.3.4:8o",
        "1.2.3.4:-",
        "1.2.3.4:+",
        "1.2.3.4:80:90",
        "1.2.3:80",
        "1.2.3.4.5:80",
        "256.1.1.1:80",
        "01.2.3.4:80",
        "1..3.4:80",
        "1.2.3.4:2147483648",
        "1.2.3.4:-2147483649",
        " 1.2.3.4:80",
    ];
    for line in bad {
        assert_eq!(Proxy::from_str(line), Err(ParseError::InvalidFormat), "{}", line);
    }
}

#[test]
fn renders_address_and_scheme() {
    let p = proxy(192, 168, 0, 10, 9050);
    assert_eq!(p.ip.to_text(), "192.168.0.10");
    assert_eq!(p.scheme(), "socks5://192.168.0.10:9050");
    assert_eq!(proxy(1, 2, 3, 4, -5).scheme(), "socks5://1.2.3.4:-5");
}

#[test]
fn rendered_text_parses_back() {
    for p in [proxy(1, 2, 3, 4, 1080), proxy(0, 10, 100, 255, 0), proxy(9, 99, 199, 250, 65535)] {
        let text = format!("{}:{}", p.ip.to_text(), p.port);
        assert_eq!(Proxy::from_str(&text), Ok(p));
    }
}
