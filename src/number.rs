//! Decimal numbers written in text, compared exactly.
use crate::command_request::{find_char, first_pos, lemma_first_pos};
use crate::text::{digit, is_ascii_digit};
use vstd::prelude::*;
use vstd::string::*;

verus! {

/// The most digits a number may have and still be compared.
pub const MAX_DIGITS: usize = 18;

pub open spec fn pow10(n: nat) -> nat
    decreases n,
{
    if n == 0 {
        1
    } else {
        10 * pow10((n - 1) as nat)
    }
}

pub open spec fn all_digits(s: Seq<char>) -> bool {
    forall|i: int| 0 <= i < s.len() ==> is_ascii_digit(#[trigger] s[i])
}

/// The value of a run of decimal digits.
pub open spec fn digits_value(s: Seq<char>) -> nat
    decreases s.len(),
{
    if s.len() == 0 {
        0
    } else {
        10 * digits_value(s.drop_last()) + (s.last() as nat - '0' as nat) as nat
    }
}

/// The parts of `-?[0-9]+(\.[0-9]+)?`: the sign, the integer digits and the
/// fraction digits; `None` where `t` is not in that form.
pub open spec fn decimal_parts(t: Seq<char>) -> Option<(bool, Seq<char>, Seq<char>)> {
    let negative = t.len() > 0 && t[0] == '-';
    let u = if negative {
        t.drop_first()
    } else {
        t
    };
    let d = first_pos(u, '.');
    let int_digits = u.subrange(0, d);
    let frac_digits = if d < u.len() {
        u.subrange(d + 1, u.len() as int)
    } else {
        Seq::<char>::empty()
    };
    if int_digits.len() > 0 && all_digits(int_digits) && (d == u.len() || (frac_digits.len() > 0
        && all_digits(frac_digits))) {
        Some((negative, int_digits, frac_digits))
    } else {
        None
    }
}

/// A decimal as `numerator / 10^scale`, where it has at most `MAX_DIGITS` digits.
pub open spec fn decimal_of(t: Seq<char>) -> Option<(int, nat)> {
    match decimal_parts(t) {
        Some((negative, i, f)) => if i.len() + f.len() <= MAX_DIGITS {
            let m = digits_value(i + f) as int;
            Some((if negative { -m } else { m }, f.len()))
        } else {
            None
        },
        None => None,
    }
}

/// A natural number written as `[0-9]+`, with at most `MAX_DIGITS` digits.
pub open spec fn natural_of(t: Seq<char>) -> Option<nat> {
    if t.len() > 0 && t.len() <= MAX_DIGITS && all_digits(t) {
        Some(digits_value(t))
    } else {
        None
    }
}

pub proof fn lemma_digits_value_bound(s: Seq<char>)
    requires
        all_digits(s),
    ensures
        digits_value(s) < pow10(s.len()),
    decreases s.len(),
{
    if s.len() > 0 {
        let p = s.drop_last();
        assert(all_digits(p)) by {
            assert forall|i: int| 0 <= i < p.len() implies is_ascii_digit(#[trigger] p[i]) by {
                assert(p[i] == s[i]);
            }
        }
        lemma_digits_value_bound(p);
        assert(is_ascii_digit(s[s.len() - 1]));
        let v = digits_value(p);
        let q = pow10(p.len());
        assert(10 * v + 9 < 10 * q) by (nonlinear_arith)
            requires
                v < q,
        ;
    }
}

pub proof fn lemma_pow10_mono(a: nat, b: nat)
    requires
        a <= b,
    ensures
        1 <= pow10(a) <= pow10(b),
    decreases b,
{
    if b > 0 {
        if a < b {
            lemma_pow10_mono(a, (b - 1) as nat);
        } else {
            lemma_pow10_mono((a - 1) as nat, (b - 1) as nat);
        }
    }
}

pub proof fn lemma_pow10_max()
    ensures
        pow10(18) == 1000000000000000000nat,
{
    reveal_with_fuel(pow10, 19);
}

/// `10^n`.
pub fn pow10_exec(n: usize) -> (r: u64)
    requires
        n <= MAX_DIGITS,
    ensures
        r == pow10(n as nat),
{
    let mut r: u64 = 1;
    let mut i: usize = 0;
    while i < n
        invariant
            i <= n <= MAX_DIGITS,
            r == pow10(i as nat),
        decreases n - i,
    {
        proof {
            lemma_pow10_mono((i + 1) as nat, 18);
            lemma_pow10_max();
        }
        r = r * 10;
        i = i + 1;
    }
    r
}

/// The value of the digits of `s`, which are at most `MAX_DIGITS`.
pub fn digits_value_exec(s: &str) -> (r: u64)
    requires
        s@.len() <= MAX_DIGITS,
        all_digits(s@),
    ensures
        r == digits_value(s@),
{
    let n = s.unicode_len();
    let mut r: u64 = 0;
    let mut i: usize = 0;
    while i < n
        invariant
            i <= n == s@.len() <= MAX_DIGITS,
            all_digits(s@),
            r == digits_value(s@.subrange(0, i as int)),
        decreases n - i,
    {
        let ghost p = s@.subrange(0, i + 1);
        assert(p.drop_last() =~= s@.subrange(0, i as int));
        assert(all_digits(p)) by {
            assert forall|j: int| 0 <= j < p.len() implies is_ascii_digit(#[trigger] p[j]) by {
                assert(p[j] == s@[j]);
            }
        }
        proof {
            lemma_digits_value_bound(p);
            lemma_pow10_mono(p.len(), 18);
            lemma_pow10_max();
        }
        let c = s.get_char(i);
        assert(is_ascii_digit(s@[i as int]));
        let d = (c as u32 - '0' as u32) as u64;
        r = r * 10 + d;
        i = i + 1;
    }
    assert(s@.subrange(0, n as int) =~= s@);
    r
}

/// Whether `s` holds only digits.
pub fn digits_only(s: &str) -> (r: bool)
    ensures
        r == all_digits(s@),
{
    let n = s.unicode_len();
    let mut i: usize = 0;
    while i < n
        invariant
            i <= n == s@.len(),
            forall|j: int| 0 <= j < i ==> is_ascii_digit(#[trigger] s@[j]),
        decreases n - i,
    {
        if !digit(s.get_char(i)) {
            return false;
        }
        i = i + 1;
    }
    true
}

pub proof fn lemma_digits_value_concat(a: Seq<char>, b: Seq<char>)
    ensures
        digits_value(a + b) == digits_value(a) * pow10(b.len()) + digits_value(b),
    decreases b.len(),
{
    if b.len() == 0 {
        assert(a + b =~= a);
        assert(pow10(0) == 1);
        assert(digits_value(b) == 0);
    } else {
        assert((a + b).drop_last() =~= a + b.drop_last());
        assert((a + b).last() == b.last());
        lemma_digits_value_concat(a, b.drop_last());
        let x = digits_value(a);
        let q = pow10(b.drop_last().len());
        let y = digits_value(b.drop_last());
        let dg = (b.last() as nat - '0' as nat) as nat;
        assert(pow10(b.len()) == 10 * q);
        assert(digits_value(a + b) == 10 * digits_value(a + b.drop_last()) + dg);
        assert(digits_value(b) == 10 * y + dg);
        assert(10 * (x * q + y) == x * (10 * q) + 10 * y) by (nonlinear_arith);
        assert(digits_value(a + b.drop_last()) == x * q + y);
        assert(digits_value(a + b) == x * (10 * q) + 10 * y + dg);
        assert(digits_value(a) * pow10(b.len()) == x * (10 * q));
    }
}

/// Reads `t` as a decimal `numerator / 10^scale`.
pub fn parse_decimal(t: &str) -> (r: Option<(i64, usize)>)
    ensures
        match r {
            Some((m, p)) => decimal_of(t@) == Some((m as int, p as nat)) && p <= MAX_DIGITS,
            None => decimal_of(t@) is None,
        },
{
    let n = t.unicode_len();
    let negative = n > 0 && t.get_char(0) == '-';
    let start: usize = if negative { 1 } else { 0 };
    let u = t.substring_char(start, n);
    assert(u@ =~= if negative { t@.drop_first() } else { t@ });
    let d = find_char(u, '.');
    proof {
        lemma_first_pos(u@, '.');
    }
    let m = u.unicode_len();
    let ip = u.substring_char(0, d);
    let fp = if d < m { u.substring_char(d + 1, m) } else { u.substring_char(m, m) };
    assert(d == m ==> fp@ =~= Seq::<char>::empty());
    if d == 0 || !digits_only(ip) {
        return None;
    }
    if d < m && (d + 1 == m || !digits_only(fp)) {
        return None;
    }
    assert(decimal_parts(t@) == Some((negative, ip@, fp@)));
    let il = ip.unicode_len();
    let fl = fp.unicode_len();
    if il + fl > MAX_DIGITS {
        return None;
    }
    let a = digits_value_exec(ip);
    let b = digits_value_exec(fp);
    let q = pow10_exec(fl);
    proof {
        let w = ip@ + fp@;
        lemma_digits_value_concat(ip@, fp@);
        assert(all_digits(w)) by {
            assert forall|j: int| 0 <= j < w.len() implies is_ascii_digit(#[trigger] w[j]) by {
                if j < ip@.len() {
                    assert(w[j] == ip@[j]);
                } else {
                    assert(w[j] == fp@[j - ip@.len()]);
                }
            }
        }
        lemma_digits_value_bound(w);
        lemma_pow10_mono(w.len(), 18);
        lemma_pow10_max();
    }
    let v = (a * q + b) as i64;
    if negative {
        Some((-v, fl))
    } else {
        Some((v, fl))
    }
}

/// Reads `t` as a natural number `[0-9]+`.
pub fn parse_natural(t: &str) -> (r: Option<u64>)
    ensures
        match r {
            Some(e) => natural_of(t@) == Some(e as nat) && e < 1000000000000000000u64,
            None => natural_of(t@) is None,
        },
{
    let n = t.unicode_len();
    if n == 0 || n > MAX_DIGITS || !digits_only(t) {
        return None;
    }
    proof {
        lemma_digits_value_bound(t@);
        lemma_pow10_mono(t@.len(), 18);
        lemma_pow10_max();
    }
    Some(digits_value_exec(t))
}

/// The decimal digits of `n`, without leading zeros.
pub open spec fn decimal_text(n: nat) -> Seq<char>
    decreases n,
{
    if n < 10 {
        seq![digit_char(n)]
    } else {
        decimal_text(n / 10).push(digit_char(n % 10))
    }
}

/// The digit for `d`, which is below ten.
pub open spec fn digit_char(d: nat) -> char {
    (('0' as nat) + d) as char
}

/// Relies on the `Display` of `u64` (through `to_string`), which writes the
/// decimal digits of `n` without leading zeros.
#[verifier::external_body]
pub fn format_natural(n: u64) -> (r: String)
    ensures
        r@ == decimal_text(n as nat),
{
    n.to_string()
}

} // verus!
