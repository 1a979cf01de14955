//! Proxy descriptors and the parser that reads them from `<ipv4>:<port>` text.

use vstd::prelude::*;
use crate::text::{
    all_digits, chars_of, decimal, digits_up_to, digits_value, push_decimal, split_chars, split_on,
    string_of, is_digit, lemma_decimal_digits, lemma_decimal_value, lemma_digits_no_punctuation,
    lemma_split_append, lemma_split_without_delimiter,
};

verus! {

/// The protocol a proxy speaks.
#[derive(Debug, Clone, Copy, PartialEq, Eq, Structural)]
pub enum ProxyType {
    Socks5,
}

/// An IPv4 address as its four octets, most significant first.
#[derive(Debug, Clone, Copy, PartialEq, Eq, Structural)]
pub struct Ipv4 {
    pub a: u8,
    pub b: u8,
    pub c: u8,
    pub d: u8,
}

/// A candidate proxy endpoint.
#[derive(Debug, Clone, Copy, PartialEq, Eq, Structural)]
pub struct Proxy {
    pub proxy_type: ProxyType,
    pub ip: Ipv4,
    pub port: i32,
}

/// Why a candidate string could not be read as a proxy.
#[derive(Debug, Clone, Copy, PartialEq, Eq, Structural)]
pub enum ParseError {
    InvalidFormat,
}

/// One dotted-quad field: one to three digits, no leading zero, at most 255.
pub open spec fn octet_of(t: Seq<char>) -> Option<u8> {
    if 1 <= t.len() <= 3 && all_digits(t) && (t.len() > 1 ==> t[0] != '0') && digits_value(t)
        <= 255 {
        Some(digits_value(t) as u8)
    } else {
        None
    }
}

/// A dotted-quad address: four octet fields separated by `.`.
pub open spec fn ipv4_of(t: Seq<char>) -> Option<Ipv4> {
    let f = split_on(t, '.');
    if f.len() == 4 && octet_of(f[0]) is Some && octet_of(f[1]) is Some && octet_of(f[2]) is Some
        && octet_of(f[3]) is Some {
        Some(
            Ipv4 {
                a: octet_of(f[0])->0,
                b: octet_of(f[1])->0,
                c: octet_of(f[2])->0,
                d: octet_of(f[3])->0,
            },
        )
    } else {
        None
    }
}

/// A decimal integer with an optional leading `+` or `-`.
pub open spec fn int_of(t: Seq<char>) -> Option<int> {
    if t.len() > 0 && (t[0] == '+' || t[0] == '-') {
        let rest = t.drop_first();
        if rest.len() > 0 && all_digits(rest) {
            Some(if t[0] == '-' { -digits_value(rest) } else { digits_value(rest) })
        } else {
            None
        }
    } else if t.len() > 0 && all_digits(t) {
        Some(digits_value(t))
    } else {
        None
    }
}

/// A port field: a decimal integer in the range of `i32`.
pub open spec fn port_of(t: Seq<char>) -> Option<i32> {
    match int_of(t) {
        Some(v) => if i32::MIN <= v <= i32::MAX {
            Some(v as i32)
        } else {
            None
        },
        None => None,
    }
}

/// A candidate line: exactly two `:`-separated fields, an address and a port.
pub open spec fn parse_proxy(s: Seq<char>) -> Option<Proxy> {
    let f = split_on(s, ':');
    if f.len() == 2 && ipv4_of(f[0]) is Some && port_of(f[1]) is Some {
        Some(Proxy { proxy_type: ProxyType::Socks5, ip: ipv4_of(f[0])->0, port: port_of(f[1])->0 })
    } else {
        None
    }
}

fn octet_from(t: &Vec<char>) -> (r: Option<u8>)
    ensures
        r == octet_of(t@),
{
    if t.len() < 1 || t.len() > 3 {
        return None;
    }
    if t.len() > 1 && t[0] == '0' {
        return None;
    }
    match digits_up_to(t, 255) {
        Some(v) => Some(v as u8),
        None => None,
    }
}

fn ipv4_from(t: &Vec<char>) -> (r: Option<Ipv4>)
    ensures
        r == ipv4_of(t@),
{
    let f = split_chars(t, '.');
    if f.len() != 4 {
        return None;
    }
    proof {
        assert(f[0]@ == f.deep_view()[0]);
        assert(f[1]@ == f.deep_view()[1]);
        assert(f[2]@ == f.deep_view()[2]);
        assert(f[3]@ == f.deep_view()[3]);
    }
    let a = octet_from(&f[0]);
    let b = octet_from(&f[1]);
    let c = octet_from(&f[2]);
    let d = octet_from(&f[3]);
    match (a, b, c, d) {
        (Some(a), Some(b), Some(c), Some(d)) => Some(Ipv4 { a, b, c, d }),
        _ => None,
    }
}

fn port_from(t: &Vec<char>) -> (r: Option<i32>)
    ensures
        r == port_of(t@),
{
    if t.len() == 0 {
        return None;
    }
    let first = t[0];
    if first == '+' || first == '-' {
        let mut rest: Vec<char> = Vec::new();
        let mut i: usize = 1;
        while i < t.len()
            invariant
                1 <= i <= t.len(),
                rest@ == t@.subrange(1, i as int),
            decreases t.len() - i,
        {
            rest.push(t[i]);
            i = i + 1;
        }
        assert(rest@ == t@.drop_first());
        if rest.len() == 0 {
            return None;
        }
        match digits_up_to(&rest, 2147483648) {
            Some(v) => {
                if first == '-' {
                    Some((0 - (v as i64)) as i32)
                } else if v <= 2147483647 {
                    Some(v as i32)
                } else {
                    None
                }
            },
            None => None,
        }
    } else {
        match digits_up_to(t, 2147483647) {
            Some(v) => Some(v as i32),
            None => None,
        }
    }
}

/// The dotted-quad rendering of an address.
pub open spec fn dotted(ip: Ipv4) -> Seq<char> {
    decimal(ip.a as nat) + seq!['.'] + decimal(ip.b as nat) + seq!['.'] + decimal(ip.c as nat)
        + seq!['.'] + decimal(ip.d as nat)
}

/// The decimal rendering of an integer, with `-` before a negative one.
pub open spec fn int_text(v: int) -> Seq<char> {
    if v < 0 {
        seq!['-'] + decimal((-v) as nat)
    } else {
        decimal(v as nat)
    }
}

/// The URI through which a client reaches the proxy.
pub open spec fn scheme_of(p: Proxy) -> Seq<char> {
    match p.proxy_type {
        ProxyType::Socks5 => seq!['s', 'o', 'c', 'k', 's', '5', ':', '/', '/'] + dotted(p.ip)
            + seq![':'] + int_text(p.port as int),
    }
}

/// A dotted quad starts and ends with a digit.
pub proof fn lemma_dotted_digit_ends(ip: Ipv4)
    ensures
        dotted(ip).len() > 0,
        is_digit(dotted(ip)[0]),
        is_digit(dotted(ip).last()),
{
    lemma_decimal_digits(ip.a as nat);
    lemma_decimal_digits(ip.d as nat);
}

/// The text `<address>:<port>` of a proxy, both in their usual decimal form.
pub open spec fn proxy_text(ip: Ipv4, port: i32) -> Seq<char> {
    dotted(ip) + seq![':'] + int_text(port as int)
}

proof fn lemma_octet_round_trip(n: u8)
    ensures
        octet_of(decimal(n as nat)) == Some(n),
        !decimal(n as nat).contains('.'),
        !decimal(n as nat).contains(':'),
{
    lemma_decimal_value(n as nat);
    lemma_decimal_digits(n as nat);
    lemma_digits_no_punctuation(decimal(n as nat));
}

proof fn lemma_dotted_fields(ip: Ipv4)
    ensures
        split_on(dotted(ip), '.') == seq![
            decimal(ip.a as nat),
            decimal(ip.b as nat),
            decimal(ip.c as nat),
            decimal(ip.d as nat),
        ],
        ipv4_of(dotted(ip)) == Some(ip),
        !dotted(ip).contains(':'),
{
    let a = decimal(ip.a as nat);
    let b = decimal(ip.b as nat);
    let c = decimal(ip.c as nat);
    let d = decimal(ip.d as nat);
    lemma_octet_round_trip(ip.a);
    lemma_octet_round_trip(ip.b);
    lemma_octet_round_trip(ip.c);
    lemma_octet_round_trip(ip.d);
    lemma_split_without_delimiter(a, '.');
    lemma_split_append(a, '.', b);
    lemma_split_append(a + seq!['.'] + b, '.', c);
    lemma_split_append(a + seq!['.'] + b + seq!['.'] + c, '.', d);
    assert(seq![a].push(b).push(c).push(d) =~= seq![a, b, c, d]);
    let t = dotted(ip);
    if t.contains(':') {
        let i = choose|i: int| 0 <= i < t.len() && t[i] == ':';
        let la = a.len() as int;
        let lb = b.len() as int;
        let lc = c.len() as int;
        if i < la {
            assert(a[i] == t[i]);
        } else if i == la || i == la + 1 + lb || i == la + 1 + lb + 1 + lc {
        } else if i < la + 1 + lb {
            assert(b[i - la - 1] == t[i]);
        } else if i < la + 1 + lb + 1 + lc {
            assert(c[i - la - 1 - lb - 1] == t[i]);
        } else {
            assert(d[i - la - 1 - lb - 1 - lc - 1] == t[i]);
        }
    }
}

proof fn lemma_int_round_trip(v: int)
    ensures
        int_of(int_text(v)) == Some(v),
        !int_text(v).contains(':'),
{
    if v < 0 {
        let n = (-v) as nat;
        lemma_decimal_value(n);
        lemma_decimal_digits(n);
        lemma_digits_no_punctuation(decimal(n));
        let t = int_text(v);
        assert(t.drop_first() =~= decimal(n));
        assert(t[0] == '-');
        if t.contains(':') {
            let i = choose|i: int| 0 <= i < t.len() && t[i] == ':';
            assert(i > 0);
            assert(decimal(n)[i - 1] == t[i]);
        }
    } else {
        lemma_decimal_value(v as nat);
        lemma_decimal_digits(v as nat);
        lemma_digits_no_punctuation(decimal(v as nat));
        assert(is_digit(decimal(v as nat)[0]));
    }
}

/// Reading back the text of a proxy gives exactly its address and port.
pub proof fn lemma_parse_round_trip(ip: Ipv4, port: i32)
    ensures
        parse_proxy(proxy_text(ip, port)) == Some(
            Proxy { proxy_type: ProxyType::Socks5, ip, port },
        ),
{
    lemma_dotted_fields(ip);
    lemma_int_round_trip(port as int);
    lemma_split_without_delimiter(dotted(ip), ':');
    lemma_split_append(dotted(ip), ':', int_text(port as int));
    assert(seq![dotted(ip)].push(int_text(port as int)) =~= seq![dotted(ip), int_text(port as int)]);
}

/// A text without `:`, or whose second `:`-separated field is not a decimal
/// integer, does not parse.
pub proof fn lemma_parse_rejects(s: Seq<char>)
    ensures
        !s.contains(':') ==> parse_proxy(s) is None,
        split_on(s, ':').len() >= 2 && int_of(split_on(s, ':')[1]) is None ==> parse_proxy(s) is None,
{
    if !s.contains(':') {
        lemma_split_without_delimiter(s, ':');
    }
}

fn push_dotted(out: &mut Vec<char>, ip: Ipv4)
    ensures
        final(out)@ == old(out)@ + dotted(ip),
{
    let ghost start = out@;
    push_decimal(out, ip.a as u64);
    out.push('.');
    push_decimal(out, ip.b as u64);
    out.push('.');
    push_decimal(out, ip.c as u64);
    out.push('.');
    push_decimal(out, ip.d as u64);
    assert(out@ =~= start + dotted(ip));
}

impl Ipv4 {
    /// The address in dotted-quad form.
    pub fn to_text(&self) -> (r: String)
        ensures
            r@ == dotted(*self),
    {
        let mut out: Vec<char> = Vec::new();
        push_dotted(&mut out, *self);
        assert(out@ =~= dotted(*self));
        string_of(&out)
    }
}

impl Proxy {
    /// The URI `socks5://<address>:<port>` that routes a client through this proxy.
    pub fn scheme(&self) -> (r: String)
        ensures
            r@ == scheme_of(*self),
    {
        let mut out: Vec<char> = Vec::new();
        match self.proxy_type {
            ProxyType::Socks5 => {
                out.push('s');
                out.push('o');
                out.push('c');
                out.push('k');
                out.push('s');
                out.push('5');
                out.push(':');
                out.push('/');
                out.push('/');
            },
        }
        push_dotted(&mut out, self.ip);
        out.push(':');
        let ghost before_port = out@;
        if self.port < 0 {
            out.push('-');
            push_decimal(&mut out, (0 - (self.port as i64)) as u64);
        } else {
            push_decimal(&mut out, self.port as u64);
        }
        assert(out@ =~= before_port + int_text(self.port as int));
        assert(out@ =~= scheme_of(*self));
        string_of(&out)
    }

    /// Reads a candidate line of the form `<ipv4>:<port>`.
    pub fn from_str(s: &str) -> (r: Result<Proxy, ParseError>)
        ensures
            r == match parse_proxy(s@) {
                Some(p) => Ok(p),
                None => Err(ParseError::InvalidFormat),
            },
    {
        let cs = chars_of(s);
        let f = split_chars(&cs, ':');
        if f.len() != 2 {
            return Err(ParseError::InvalidFormat);
        }
        proof {
            assert(f[0]@ == f.deep_view()[0]);
            assert(f[1]@ == f.deep_view()[1]);
        }
        let ip = ipv4_from(&f[0]);
        let port = port_from(&f[1]);
        match (ip, port) {
            (Some(ip), Some(port)) => Ok(Proxy { proxy_type: ProxyType::Socks5, ip, port }),
            _ => Err(ParseError::InvalidFormat),
        }
    }
}

} // verus!
