//! The probe's decision: what the echo service's answer means for a proxy.

use vstd::prelude::*;
use crate::proxy::{dotted, scheme_of, Proxy};
use crate::text::is_digit;

verus! {

/// Why a proxy failed its probe.
#[derive(Debug, Clone, Copy, PartialEq, Eq, Structural)]
pub enum ProxyCheckError {
    InvalidFormat,
    ConnectionError,
    IPMismatch,
}

pub type ProxyCheckResult = Result<(), ProxyCheckError>;

/// What a probe concludes from the trimmed answer of the echo service, or
/// from no answer at all.
pub open spec fn verdict(p: Proxy, answer: Option<Seq<char>>) -> ProxyCheckResult {
    match answer {
        None => Err(ProxyCheckError::ConnectionError),
        Some(a) => if a == dotted(p.ip) {
            Ok(())
        } else {
            Err(ProxyCheckError::IPMismatch)
        },
    }
}

/// An echo service that answers with the proxy's own address makes the probe
/// pass; any other answer is a mismatch; no answer is a connection failure.
pub proof fn lemma_verdicts(p: Proxy, other: Seq<char>)
    requires
        other != dotted(p.ip),
    ensures
        verdict(p, Some(dotted(p.ip))) == Ok::<(), ProxyCheckError>(()),
        verdict(p, Some(other)) == Err::<(), ProxyCheckError>(ProxyCheckError::IPMismatch),
        verdict(p, None) == Err::<(), ProxyCheckError>(ProxyCheckError::ConnectionError),
{
}

/// What `str::trim` returns for a text.
pub uninterp spec fn trim_of(s: Seq<char>) -> Seq<char>;

/// Relies on `str::trim`: leading and trailing whitespace is removed, so a
/// text that starts and ends with an ASCII digit comes back unchanged.
#[verifier::external_body]
fn trimmed(s: &str) -> (r: String)
    ensures
        r@ == trim_of(s@),
        s@.len() > 0 && is_digit(s@[0]) && is_digit(s@.last()) ==> r@ == s@,
{
    s.trim().to_string()
}

/// Whether `reqwest::Proxy::all` accepts a URI as a proxy for all traffic.
pub uninterp spec fn client_accepts_uri(uri: Seq<char>) -> bool;

/// Relies on `reqwest::Proxy::all`: whether the HTTP client accepts the URI
/// as a proxy for all traffic, which depends on the URI alone.
#[verifier::external_body]
fn client_accepts(uri: String) -> (r: bool)
    ensures
        r == client_accepts_uri(uri@),
{
    reqwest::Proxy::all(uri).is_ok()
}

/// Whether a client can be routed through `p`: the proxy URI (see
/// `Proxy::scheme`) is handed to the HTTP client, and a URI it refuses makes
/// the proxy `InvalidFormat`.
pub fn route_through(p: &Proxy) -> (r: ProxyCheckResult)
    ensures
        r == if client_accepts_uri(scheme_of(*p)) {
            Ok::<(), ProxyCheckError>(())
        } else {
            Err(ProxyCheckError::InvalidFormat)
        },
{
    if client_accepts(p.scheme()) {
        Ok(())
    } else {
        Err(ProxyCheckError::InvalidFormat)
    }
}

/// Judges a proxy by the already trimmed answer of the echo service; `None`
/// stands for a failed round trip.
pub fn judge_trimmed(p: &Proxy, answer: Option<&str>) -> (r: ProxyCheckResult)
    ensures
        r == verdict(
            *p,
            match answer {
                Some(a) => Some(a@),
                None => None,
            },
        ),
{
    match answer {
        None => Err(ProxyCheckError::ConnectionError),
        Some(a) => {
            let expected = p.ip.to_text();
            let got = a.to_string();
            if got == expected {
                Ok(())
            } else {
                Err(ProxyCheckError::IPMismatch)
            }
        },
    }
}

/// Judges a proxy by the raw answer of the echo service, compared after
/// trimming; `None` stands for a failed round trip.
pub fn check_response(p: &Proxy, body: Option<String>) -> (r: ProxyCheckResult)
    ensures
        r == verdict(
            *p,
            match body {
                Some(b) => Some(trim_of(b@)),
                None => None,
            },
        ),
        body is Some && body->0@ == dotted(p.ip) ==> r is Ok,
{
    match body {
        None => Err(ProxyCheckError::ConnectionError),
        Some(b) => {
            proof {
                crate::proxy::lemma_dotted_digit_ends(p.ip);
            }
            let t = trimmed(b.as_str());
            judge_trimmed(p, Some(t.as_str()))
        },
    }
}

} // verus!
