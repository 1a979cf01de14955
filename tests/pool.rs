use proxy_pool::check::ProxyCheckError;
use proxy_pool::json::json_array;
use proxy_pool::pool::DB;
use proxy_pool::proxy::{Ipv4, Proxy, ProxyType};
use proxy_pool::refresh::{dispatch, refresh_proxies, settle};

fn proxy(a: u8, b: u8, c: u8, d: u8, port: i32) -> Proxy {
    Proxy { proxy_type: ProxyType::Socks5, ip: Ipv4 { a, b, c, d }, port }
}

fn lines(v: &[&str]) -> Vec<String> {
    v.iter().map(|s| s.to_string()).collect()
}

#[test]
fn reset_empties_both_collections() {
    let mut db = DB::new();
    let p = proxy(1, 2, 3, 4, 1080);
    db.record_observed(p);
    assert!(db.record_verified(p, db.cycle()));
    let cycle = db.reset();
    assert_eq!(cycle, 1);
    assert!(db.snapshot_verified().is_empty());
    assert!(db.snapshot_observed().is_empty());
}

#[test]
fn verified_needs_observed() {
    let mut db = DB::new();
    let p = proxy(1, 2, 3, 4, 1080);
    assert!(!db.record_verified(p, db.cycle()));
    assert!(db.snapshot_verified().is_empty());
    db.record_observed(p);
    assert!(db.record_verified(p, db.cycle()));
    assert_eq!(db.snapshot_verified(), vec![p]);
}

#[test]
fn stale_cycle_is_dropped() {
    let mut db = DB::new();
    let p = proxy(1, 2, 3, 4, 1080);
    let old = db.cycle();
    db.reset();
    db.record_observed(p);
    assert!(!db.record_verified(p, old));
    assert!(db.snapshot_verified().is_empty());
}

#[test]
fn n_records_give_n_entries() {
    let mut db = DB::new();
    let n: u8 = 50;
    for i in 0..n {
        db.record_observed(proxy(10, 0, 0, i, 1000));
    }
    for i in 0..n {
        assert!(db.record_verified(proxy(10, 0, 0, i, 1000), db.cycle()));
    }
    assert_eq!(db.snapshot_observed().len(), n as usize);
    assert_eq!(db.snapshot_verified().len(), n as usize);
}

#[test]
fn duplicates_are_kept() {
    let mut db = DB::new();
    let todo = dispatch(&mut db, &lines(&["1.2.3.4:1080", "1.2.3.4:1080"]));
    assert_eq!(todo.len(), 2);
    assert_eq!(db.snapshot_observed().len(), 2);
}

#[test]
fn scenario_verified_proxy_and_malformed_line() {
    let mut db = DB::new();
    let (cycle, todo) = refresh_proxies(&mut db, &lines(&["1.2.3.4:1080", "not-a-proxy"]));
    let p = proxy(1, 2, 3, 4, 1080);
    assert_eq!(todo, vec![p]);
    assert_eq!(db.snapshot_observed(), vec![p]);
    let outcome = proxy_pool::check::check_response(&p, Some("1.2.3.4".to_string()));
    assert!(settle(&mut db, p, cycle, outcome));
    assert_eq!(db.snapshot_verified(), vec![p]);
}

#[test]
fn scenario_mismatched_answer() {
    let mut db = DB::new();
    let (cycle, todo) = refresh_proxies(&mut db, &lines(&["5.6.7.8:9050"]));
    let p = proxy(5, 6, 7, 8, 9050);
    assert_eq!(todo, vec![p]);
    let outcome = proxy_pool::check::check_response(&p, Some("9.9.9.9".to_string()));
    assert_eq!(outcome, Err(ProxyCheckError::IPMismatch));
    assert!(!settle(&mut db, p, cycle, outcome));
    assert_eq!(db.snapshot_observed(), vec![p]);
    assert!(db.snapshot_verified().is_empty());
}

#[test]
fn scenario_two_cycles_disjoint_feeds() {
    let mut db = DB::new();
    let (first, todo1) = refresh_proxies(&mut db, &lines(&["1.1.1.1:1", "2.2.2.2:2"]));
    let early = todo1[0];
    assert!(settle(&mut db, early, first, Ok(())));
    let (second, todo2) = refresh_proxies(&mut db, &lines(&["3.3.3.3:3"]));
    assert_ne!(first, second);
    assert_eq!(db.snapshot_observed(), todo2);
    assert!(db.snapshot_verified().is_empty());
    // a slow probe of the first cycle reports after the second began
    assert!(!settle(&mut db, todo1[1], first, Ok(())));
    assert!(settle(&mut db, todo2[0], second, Ok(())));
    assert_eq!(db.snapshot_verified(), vec![proxy(3, 3, 3, 3, 3)]);
    assert_eq!(db.snapshot_observed(), vec![proxy(3, 3, 3, 3, 3)]);
}

#[test]
fn failed_probe_changes_nothing() {
    let mut db = DB::new();
    let (cycle, todo) = refresh_proxies(&mut db, &lines(&["1.2.3.4:1080"]));
    assert!(!settle(&mut db, todo[0], cycle, Err(ProxyCheckError::ConnectionError)));
    assert!(!settle(&mut db, todo[0], cycle, Err(ProxyCheckError::InvalidFormat)));
    assert!(db.snapshot_verified().is_empty());
}

#[test]
fn json_array_framing() {
    assert_eq!(json_array(vec![]), "[]");
    assert_eq!(json_array(vec!["1".to_string()]), "[1]");
    assert_eq!(
        json_array(vec!["{\"a\":1}".to_string(), "{\"a\":2}".to_string(), "3".to_string()]),
        "[{\"a\":1},{\"a\":2},3]"
    );
}
