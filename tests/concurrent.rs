use std::sync::Arc;

use proxy_pool::pool::DB;
use proxy_pool::proxy::{Ipv4, Proxy, ProxyType};
use tokio::sync::RwLock;

#[test]
fn concurrent_records_are_all_kept() {
    let rt = tokio::runtime::Runtime::new().unwrap();
    let n: u8 = 64;
    let db = Arc::new(RwLock::new(DB::new()));
    rt.block_on(async {
        let cycle = db.read().await.cycle();
        let mut handles = Vec::new();
        for i in 0..n {
            let db = db.clone();
            handles.push(tokio::spawn(async move {
                let p = Proxy { proxy_type: ProxyType::Socks5, ip: Ipv4 { a: 10, b: 1, c: 2, d: i }, port: 1080 };
                db.write().await.record_observed(p);
                tokio::task::yield_now().await;
                assert!(db.write().await.record_verified(p, cycle));
            }));
        }
        for h in handles {
            h.await.unwrap();
        }
        let guard = db.read().await;
        assert_eq!(guard.snapshot_observed().len(), n as usize);
        assert_eq!(guard.snapshot_verified().len(), n as usize);
    });
}
