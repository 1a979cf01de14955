//! Character-level helpers: decimal digits, splitting on a delimiter, and
//! conversion between `String` and `Vec<char>`.

use vstd::prelude::*;
use vstd::string::*;

verus! {

pub open spec fn is_digit(c: char) -> bool {
    '0' <= c && c <= '9'
}

pub open spec fn digit_value(c: char) -> int {
    (c as int) - ('0' as int)
}

pub open spec fn all_digits(s: Seq<char>) -> bool {
    forall|i: int| 0 <= i < s.len() ==> is_digit(#[trigger] s[i])
}

/// The value of a string of decimal digits, most significant first.
pub open spec fn digits_value(s: Seq<char>) -> int
    decreases s.len(),
{
    if s.len() == 0 {
        0
    } else {
        digits_value(s.drop_last()) * 10 + digit_value(s.last())
    }
}

/// The fields of `s` between occurrences of `d`; always at least one field.
pub open spec fn split_on(s: Seq<char>, d: char) -> Seq<Seq<char>>
    decreases s.len(),
{
    if s.len() == 0 {
        seq![Seq::<char>::empty()]
    } else {
        let prev = split_on(s.drop_last(), d);
        if s.last() == d {
            prev.push(Seq::<char>::empty())
        } else {
            prev.update(prev.len() - 1, prev.last().push(s.last()))
        }
    }
}

/// The decimal rendering of a natural number, without leading zeros.
pub open spec fn decimal(n: nat) -> Seq<char>
    decreases n,
{
    if n < 10 {
        seq![digit_char(n)]
    } else {
        decimal(n / 10).push(digit_char(n % 10))
    }
}

pub open spec fn digit_char(d: nat) -> char {
    (('0' as nat) + d) as char
}

/// Splits `s` at every occurrence of `d`.
pub fn split_chars(s: &Vec<char>, d: char) -> (r: Vec<Vec<char>>)
    ensures
        r.deep_view() == split_on(s@, d),
{
    let mut done: Vec<Vec<char>> = Vec::new();
    let mut cur: Vec<char> = Vec::new();
    let mut i: usize = 0;
    while i < s.len()
        invariant
            i <= s.len(),
            done.deep_view().push(cur@) == split_on(s@.take(i as int), d),
        decreases s.len() - i,
    {
        let c = s[i];
        proof {
            assert(s@.take(i as int + 1).drop_last() == s@.take(i as int));
            assert(s@.take(i as int + 1).last() == c);
        }
        if c == d {
            let ghost before = done.deep_view().push(cur@);
            assert(cur.deep_view() =~= cur@);
            done.push(cur);
            cur = Vec::new();
            proof {
                assert(done.deep_view() =~= before);
                assert(done.deep_view().push(cur@) =~= before.push(Seq::<char>::empty()));
            }
        } else {
            let ghost before = done.deep_view().push(cur@);
            cur.push(c);
            proof {
                assert(done.deep_view().push(cur@) =~= before.update(
                    before.len() - 1,
                    before.last().push(c),
                ));
            }
        }
        i = i + 1;
    }
    assert(s@.take(s.len() as int) == s@);
    let ghost before = done.deep_view().push(cur@);
    assert(cur.deep_view() =~= cur@);
    done.push(cur);
    assert(done.deep_view() =~= before);
    done
}


pub proof fn lemma_digits_value_nonneg(t: Seq<char>)
    requires
        all_digits(t),
    ensures
        digits_value(t) >= 0,
    decreases t.len(),
{
    if t.len() > 0 {
        lemma_digits_value_nonneg(t.drop_last());
    }
}

/// A prefix of a digit string never has a larger value than the whole.
pub proof fn lemma_digits_prefix_le(t: Seq<char>, i: int)
    requires
        all_digits(t),
        0 <= i <= t.len(),
    ensures
        digits_value(t.take(i)) <= digits_value(t),
    decreases t.len(),
{
    if i < t.len() {
        let u = t.drop_last();
        assert(u.take(i) == t.take(i));
        lemma_digits_prefix_le(u, i);
        lemma_digits_value_nonneg(u);
    } else {
        assert(t.take(i) == t);
    }
}

/// Reads `t` as a decimal number no larger than `bound`.
pub fn digits_up_to(t: &Vec<char>, bound: u64) -> (r: Option<u64>)
    requires
        bound <= u32::MAX,
    ensures
        match r {
            Some(v) => all_digits(t@) && v == digits_value(t@) && v <= bound,
            None => !(all_digits(t@) && digits_value(t@) <= bound),
        },
{
    let mut v: u64 = 0;
    let mut i: usize = 0;
    while i < t.len()
        invariant
            i <= t.len(),
            bound <= u32::MAX,
            all_digits(t@.take(i as int)),
            v == digits_value(t@.take(i as int)),
            v <= bound,
        decreases t.len() - i,
    {
        let c = t[i];
        proof {
            assert(t@.take(i as int + 1).drop_last() == t@.take(i as int));
            assert(t@.take(i as int + 1).last() == c);
        }
        if !('0' <= c && c <= '9') {
            return None;
        }
        v = v * 10 + (c as u64 - '0' as u64);
        assert(all_digits(t@.take(i as int + 1))) by {
            assert forall|j: int| 0 <= j < i + 1 implies is_digit(#[trigger] t@.take(i as int + 1)[j]) by {
                if j < i {
                    assert(t@.take(i as int + 1)[j] == t@.take(i as int)[j]);
                }
            }
        }
        if v > bound {
            proof {
                if all_digits(t@) {
                    lemma_digits_prefix_le(t@, i as int + 1);
                }
            }
            return None;
        }
        i = i + 1;
    }
    assert(t@.take(t.len() as int) == t@);
    Some(v)
}

/// The characters of `s`, in order.
pub fn chars_of(s: &str) -> (r: Vec<char>)
    ensures
        r@ == s@,
{
    let n = s.unicode_len();
    let mut r: Vec<char> = Vec::new();
    let mut i: usize = 0;
    while i < n
        invariant
            n == s@.len(),
            i <= n,
            r@ == s@.take(i as int),
        decreases n - i,
    {
        let c = s.get_char(i);
        r.push(c);
        assert(r@ == s@.take(i as int + 1));
        i = i + 1;
    }
    assert(s@.take(n as int) == s@);
    r
}

/// Relies on `FromIterator<char>` for `String`: the characters are kept in order.
#[verifier::external_body]
pub(crate) fn string_of(v: &Vec<char>) -> (r: String)
    ensures
        r@ == v@,
{
    v.iter().collect()
}


/// A decimal rendering is a non-empty string of digits.
pub proof fn lemma_decimal_digits(n: nat)
    ensures
        decimal(n).len() > 0,
        all_digits(decimal(n)),
    decreases n,
{
    if n >= 10 {
        lemma_decimal_digits(n / 10);
        let prev = decimal(n / 10);
        assert forall|i: int| 0 <= i < decimal(n).len() implies is_digit(#[trigger] decimal(n)[i]) by {
            if i < prev.len() {
                assert(decimal(n)[i] == prev[i]);
            }
        }
    }
}

pub proof fn lemma_digit_char_value(d: nat)
    requires
        d < 10,
    ensures
        digit_value(digit_char(d)) == d,
        is_digit(digit_char(d)),
{
}

/// Reading a decimal rendering gives the number back; only zero renders
/// with a leading `0`, and numbers below 1000 take at most three digits.
pub proof fn lemma_decimal_value(n: nat)
    ensures
        digits_value(decimal(n)) == n,
        decimal(n)[0] == '0' ==> n == 0,
        decimal(n).len() > 1 <==> n >= 10,
        n < 100 ==> decimal(n).len() <= 2,
        n < 1000 ==> decimal(n).len() <= 3,
    decreases n,
{
    lemma_decimal_digits(n);
    if n >= 10 {
        lemma_decimal_value(n / 10);
        lemma_decimal_digits(n / 10);
        assert(decimal(n).drop_last() == decimal(n / 10));
        assert(decimal(n)[0] == decimal(n / 10)[0]);
        lemma_digit_char_value((n % 10) as nat);
        assert(decimal(n).last() == digit_char((n % 10) as nat));
        assert(digits_value(decimal(n)) == digits_value(decimal(n / 10)) * 10 + digit_value(
            decimal(n).last(),
        ));
        assert(n == (n / 10) * 10 + n % 10);
    } else {
        assert(decimal(n).drop_last() =~= Seq::<char>::empty());
        assert(digits_value(decimal(n).drop_last()) == 0);
        lemma_digit_char_value(n);
    }
}

/// Splitting a text with no delimiter gives the text itself.
pub proof fn lemma_split_without_delimiter(s: Seq<char>, d: char)
    requires
        !s.contains(d),
    ensures
        split_on(s, d) == seq![s],
    decreases s.len(),
{
    if s.len() > 0 {
        assert(!s.drop_last().contains(d)) by {
            if s.drop_last().contains(d) {
                let i = choose|i: int| 0 <= i < s.drop_last().len() && s.drop_last()[i] == d;
                assert(s[i] == d);
            }
        }
        lemma_split_without_delimiter(s.drop_last(), d);
        assert(s.last() != d) by {
            assert(s[s.len() - 1] == s.last());
        }
        assert(s.drop_last().push(s.last()) == s);
    } else {
        assert(s =~= Seq::<char>::empty());
    }
}

/// Splitting `a`, a delimiter, then a text `b` with no delimiter gives the
/// fields of `a` followed by `b`.
pub proof fn lemma_split_append(a: Seq<char>, d: char, b: Seq<char>)
    requires
        !b.contains(d),
    ensures
        split_on(a + seq![d] + b, d) == split_on(a, d).push(b),
    decreases b.len(),
{
    let s = a + seq![d] + b;
    if b.len() == 0 {
        assert(s.drop_last() =~= a);
        assert(b =~= Seq::<char>::empty());
    } else {
        assert(!b.drop_last().contains(d)) by {
            if b.drop_last().contains(d) {
                let i = choose|i: int| 0 <= i < b.drop_last().len() && b.drop_last()[i] == d;
                assert(b[i] == d);
            }
        }
        lemma_split_append(a, d, b.drop_last());
        assert(s.drop_last() =~= a + seq![d] + b.drop_last());
        assert(b.last() != d) by {
            assert(b[b.len() - 1] == b.last());
        }
        assert(s.last() == b.last());
        assert(b.drop_last().push(b.last()) =~= b);
        assert(split_on(a, d).push(b.drop_last()).update(
            split_on(a, d).len() as int,
            b.drop_last().push(b.last()),
        ) =~= split_on(a, d).push(b));
    }
}

/// A string of digits holds neither `.` nor `:`.
pub proof fn lemma_digits_no_punctuation(s: Seq<char>)
    requires
        all_digits(s),
    ensures
        !s.contains('.'),
        !s.contains(':'),
{
    if s.contains('.') {
        let i = choose|i: int| 0 <= i < s.len() && s[i] == '.';
        assert(is_digit(s[i]));
    }
    if s.contains(':') {
        let i = choose|i: int| 0 <= i < s.len() && s[i] == ':';
        assert(is_digit(s[i]));
    }
}

/// Appends the decimal rendering of `n`.
pub fn push_decimal(out: &mut Vec<char>, n: u64)
    ensures
        final(out)@ == old(out)@ + decimal(n as nat),
    decreases n,
{
    if n >= 10 {
        push_decimal(out, n / 10);
    }
    let c = ((n % 10) as u8 + 48u8) as char;
    assert(c == digit_char((n % 10) as nat));
    out.push(c);
    proof {
        if n < 10 {
            assert(n % 10 == n);
        }
    }
}

} // verus!
