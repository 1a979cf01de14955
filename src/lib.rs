//! A pool of verified SOCKS5 proxies: candidate parsing, the decision that
//! follows a probe, the pool's state machine and the framing of its snapshot.

pub mod text;
pub mod proxy;
pub mod check;
pub mod pool;
pub mod refresh;
pub mod json;
