use proxy_pool::check::{check_response, judge_trimmed, route_through, ProxyCheckError};
use proxy_pool::proxy::{Ipv4, Proxy, ProxyType};

fn proxy(a: u8, b: u8, c: u8, d: u8, port: i32) -> Proxy {
    Proxy { proxy_type: ProxyType::Socks5, ip: Ipv4 { a, b, c, d }, port }
}

#[test]
fn own_address_verifies() {
    let p = proxy(1, 2, 3, 4, 1080);
    assert_eq!(judge_trimmed(&p, Some("1.2.3.4")), Ok(()));
    assert_eq!(check_response(&p, Some("1.2.3.4".to_string())), Ok(()));
}

#[test]
fn answer_is_trimmed_before_comparing() {
    let p = proxy(1, 2, 3, 4, 1080);
    assert_eq!(check_response(&p, Some("  1.2.3.4\n".to_string())), Ok(()));
    assert_eq!(judge_trimmed(&p, Some(" 1.2.3.4")), Err(ProxyCheckError::IPMismatch));
}

#[test]
fn other_address_is_a_mismatch() {
    let p = proxy(5, 6, 7, 8, 9050);
    assert_eq!(check_response(&p, Some("9.9.9.9".to_string())), Err(ProxyCheckError::IPMismatch));
    assert_eq!(check_response(&p, Some("".to_string())), Err(ProxyCheckError::IPMismatch));
    assert_eq!(judge_trimmed(&p, Some("5.6.7.80")), Err(ProxyCheckError::IPMismatch));
}

#[test]
fn no_answer_is_a_connection_error() {
    let p = proxy(5, 6, 7, 8, 9050);
    assert_eq!(check_response(&p, None), Err(ProxyCheckError::ConnectionError));
    assert_eq!(judge_trimmed(&p, None), Err(ProxyCheckError::ConnectionError));
}

#[test]
fn client_accepts_socks5_uri() {
    assert_eq!(route_through(&proxy(1, 2, 3, 4, 1080)), Ok(()));
}

#[test]
fn client_refuses_out_of_range_port() {
    assert_eq!(route_through(&proxy(1, 2, 3, 4, 70000)), Err(ProxyCheckError::InvalidFormat));
    assert_eq!(route_through(&proxy(1, 2, 3, 4, -5)), Err(ProxyCheckError::InvalidFormat));
}
