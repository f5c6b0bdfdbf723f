//! Conditional expressions `key[<op>value]` and their evaluation against a
//! device status value.
use crate::number::{decimal_of, natural_of, parse_decimal, parse_natural, pow10, pow10_exec, lemma_pow10_mono, lemma_pow10_max, MAX_DIGITS};
use crate::text::{chars_of, digit, is_ascii_alnum, is_ascii_letter, is_white_space, letter, slice_to_string, white_space, to_string};
use vstd::prelude::*;
use vstd::string::*;

verus! {

/// The comparison of a conditional expression; `Truthy` is the bare key.
#[derive(Clone, Copy, Debug, PartialEq, Eq, Structural)]
pub enum Operator {
    Truthy,
    Eq,
    Lt,
    Le,
    Gt,
    Ge,
}

/// A parsed `key[<op>value]` expression.
#[derive(Clone, Debug, PartialEq, Eq)]
pub struct ConditionalExpression {
    pub key: String,
    pub operator: Operator,
    pub value: String,
}

/// A typed value of a device status.
#[derive(Clone, Debug, PartialEq, Eq)]
pub enum StatusValue {
    Bool(bool),
    /// A number, in its canonical decimal text.
    Number(String),
    Text(String),
    /// Any other value (null, list, object), in its canonical text.
    Other(String),
}

/// Why an expression could not be parsed or evaluated.
#[derive(Clone, Debug, PartialEq, Eq)]
pub enum ConditionError {
    /// The text is not a valid expression.
    Invalid(String),
    /// The operator does not apply to a value of this kind.
    Unsupported,
    /// A side of an ordering comparison is not a number that can be compared.
    NotANumber,
    /// The device status has no such key.
    NoStatusKey(String),
}

pub open spec fn all_letters(s: Seq<char>) -> bool {
    forall|i: int| 0 <= i < s.len() ==> is_ascii_letter(#[trigger] s[i])
}

pub open spec fn all_alnum(s: Seq<char>) -> bool {
    forall|i: int| 0 <= i < s.len() ==> is_ascii_alnum(#[trigger] s[i])
}

pub open spec fn all_space(s: Seq<char>) -> bool {
    forall|i: int| 0 <= i < s.len() ==> is_white_space(#[trigger] s[i])
}

/// The operator spelled by `s`, if any: `=`, `<`, `<=`, `>` or `>=`.
pub open spec fn operator_of(s: Seq<char>) -> Option<Operator> {
    if s.len() == 1 && s[0] == '=' {
        Some(Operator::Eq)
    } else if s.len() == 1 && s[0] == '<' {
        Some(Operator::Lt)
    } else if s.len() == 2 && s[0] == '<' && s[1] == '=' {
        Some(Operator::Le)
    } else if s.len() == 1 && s[0] == '>' {
        Some(Operator::Gt)
    } else if s.len() == 2 && s[0] == '>' && s[1] == '=' {
        Some(Operator::Ge)
    } else {
        None
    }
}

/// `s` is `key ws op ws value` with the key `0..k`, the operator `a..b` and the
/// value `c..`: `[A-Za-z]+\s*(=|<=?|>=?)\s*[A-Za-z0-9]+`.
pub open spec fn is_comparison_split(s: Seq<char>, k: int, a: int, b: int, c: int) -> bool {
    &&& 0 < k <= a < b <= c < s.len()
    &&& all_letters(s.subrange(0, k))
    &&& all_space(s.subrange(k, a))
    &&& operator_of(s.subrange(a, b)) is Some
    &&& all_space(s.subrange(b, c))
    &&& all_alnum(s.subrange(c, s.len() as int))
}

/// `s` is a bare key `[A-Za-z]+`.
pub open spec fn is_bare_key(s: Seq<char>) -> bool {
    s.len() > 0 && all_letters(s)
}

/// `s` is in the grammar `[A-Za-z]+(\s*(=|<=?|>=?)\s*[A-Za-z0-9]+)?`.
pub open spec fn is_expression(s: Seq<char>) -> bool {
    is_bare_key(s) || exists|k: int, a: int, b: int, c: int| is_comparison_split(s, k, a, b, c)
}

/// `(key, operator, value)` is how `s` reads in the grammar.
pub open spec fn reads_as(s: Seq<char>, key: Seq<char>, op: Operator, value: Seq<char>) -> bool {
    ||| (is_bare_key(s) && key == s && op == Operator::Truthy && value.len() == 0)
    ||| exists|k: int, a: int, b: int, c: int|
        is_comparison_split(s, k, a, b, c) && key == s.subrange(0, k) && operator_of(
            s.subrange(a, b),
        ) == Some(op) && value == s.subrange(c, s.len() as int)
}

/// The text of `b`, as `true` or `false`.
pub open spec fn bool_text(b: bool) -> Seq<char> {
    if b {
        seq!['t', 'r', 'u', 'e']
    } else {
        seq!['f', 'a', 'l', 's', 'e']
    }
}

/// Whether `left op right` holds of two integers.
pub open spec fn compare(op: Operator, left: int, right: int) -> bool {
    match op {
        Operator::Lt => left < right,
        Operator::Le => left <= right,
        Operator::Gt => left > right,
        Operator::Ge => left >= right,
        _ => left == right,
    }
}

/// The outcome of `op expected` against a status value: `Ok(truth)`, or the
/// error it gives (`1` unsupported, `2` not a number).
///
/// A boolean with the bare key is itself; `=` compares the value's text with
/// `expected`; an ordering operator compares a number with `expected` exactly,
/// both read as decimals; anything else is unsupported.
pub open spec fn evaluate_spec(op: Operator, expected: Seq<char>, v: StatusValue) -> Result<bool, int> {
    match v {
        StatusValue::Bool(b) => match op {
            Operator::Truthy => Ok(b),
            Operator::Eq => Ok(bool_text(b) == expected),
            _ => Err(1),
        },
        StatusValue::Number(t) => match op {
            Operator::Truthy => Err(1),
            Operator::Eq => Ok(t@ == expected),
            _ => match (decimal_of(t@), natural_of(expected)) {
                (Some((m, p)), Some(e)) => Ok(compare(op, m, (e * pow10(p)) as int)),
                _ => Err(2),
            },
        },
        StatusValue::Text(t) => match op {
            Operator::Eq => Ok(t@ == expected),
            _ => Err(1),
        },
        StatusValue::Other(t) => match op {
            Operator::Eq => Ok(t@ == expected),
            _ => Err(1),
        },
    }
}

/// The code that `evaluate_spec` gives each error.
pub open spec fn error_code(e: ConditionError) -> int {
    match e {
        ConditionError::Invalid(_) => 0,
        ConditionError::Unsupported => 1,
        ConditionError::NotANumber => 2,
        ConditionError::NoStatusKey(_) => 3,
    }
}

/// The length of the run of characters from `from` that `class` accepts.
fn run_end(v: &Vec<char>, from: usize, class: u8) -> (r: usize)
    requires
        from <= v@.len(),
        class <= 2,
    ensures
        from <= r <= v@.len(),
        forall|i: int| from <= i < r ==> char_in(#[trigger] v@[i], class),
        r < v@.len() ==> !char_in(v@[r as int], class),
{
    let mut i: usize = from;
    while i < v.len() && class_has(v[i], class)
        invariant
            from <= i <= v@.len(),
            class <= 2,
            forall|j: int| from <= j < i ==> char_in(#[trigger] v@[j], class),
        decreases v@.len() - i,
    {
        i = i + 1;
    }
    i
}

/// Class `0` letters, `1` white space, `2` letters and digits.
pub open spec fn char_in(c: char, class: u8) -> bool {
    if class == 0 {
        is_ascii_letter(c)
    } else if class == 1 {
        is_white_space(c)
    } else {
        is_ascii_alnum(c)
    }
}

fn class_has(c: char, class: u8) -> (r: bool)
    ensures
        r == char_in(c, class),
{
    if class == 0 {
        letter(c)
    } else if class == 1 {
        white_space(c)
    } else {
        letter(c) || digit(c)
    }
}

/// Any split of `s` into the parts of a comparison has its key end at the end
/// of the leading letters, and its operator start after the white space.
proof fn lemma_split_fixed(s: Seq<char>, k: int, a: int, b: int, c: int, k0: int, a0: int)
    requires
        is_comparison_split(s, k, a, b, c),
        0 <= k0 <= s.len(),
        forall|i: int| 0 <= i < k0 ==> is_ascii_letter(#[trigger] s[i]),
        k0 < s.len() ==> !is_ascii_letter(s[k0]),
        k0 <= a0 <= s.len(),
        forall|i: int| k0 <= i < a0 ==> is_white_space(#[trigger] s[i]),
        a0 < s.len() ==> !is_white_space(s[a0]),
    ensures
        k == k0,
        a == a0,
        s[a] == '=' || s[a] == '<' || s[a] == '>',
        b == a + 2 <==> (s[a] != '=' && a + 1 < s.len() && s[a + 1] == '='),
        b == a + 1 || b == a + 2,
{
    let o = s.subrange(a, b);
    assert(o[0] == s[a]);
    if o.len() == 1 {
        if s[a] != '=' && a + 1 < s.len() && s[a + 1] == '=' {
            if c > b {
                assert(s.subrange(b, c)[0] == s[b]);
            } else {
                assert(s.subrange(c, s.len() as int)[0] == s[c]);
            }
        }
    } else {
        assert(o[1] == s[a + 1]);
    }
    assert(s.subrange(a, b)[0] == s[a]);
    assert(s[a] == '=' || s[a] == '<' || s[a] == '>');
    if k < k0 {
        if k < a {
            assert(s.subrange(k, a)[0] == s[k]);
        }
        assert(is_ascii_letter(s[k]));
    }
    if k > k0 {
        assert(s.subrange(0, k)[k0] == s[k0]);
    }
    if a < a0 {
        assert(is_white_space(s[a]));
    }
    if a > a0 {
        assert(s.subrange(k, a)[a0 - k] == s[a0]);
    }
}

impl ConditionalExpression {
    /// Parses `[A-Za-z]+(\s*(=|<=?|>=?)\s*[A-Za-z0-9]+)?`.
    pub fn parse(text: &str) -> (r: Result<ConditionalExpression, ConditionError>)
        ensures
            match r {
                Ok(e) => reads_as(text@, e.key@, e.operator, e.value@),
                Err(e) => !is_expression(text@) && e is Invalid && e->Invalid_0@ == text@,
            },
    {
        let v = chars_of(text);
        let n = v.len();
        let k = run_end(&v, 0, 0);
        let ghost s = text@;
        if k == 0 {
            proof {
                assert forall|k2: int, a2: int, b2: int, c2: int| !is_comparison_split(s, k2, a2, b2, c2) by {
                    if is_comparison_split(s, k2, a2, b2, c2) {
                        assert(s.subrange(0, k2)[0] == s[0]);
                    }
                }
            }
            return Err(ConditionError::Invalid(to_string(text)));
        }
        if k == n {
            assert(s.subrange(0, k as int) =~= s);
            return Ok(ConditionalExpression { key: to_string(text), operator: Operator::Truthy, value: String::new() });
        }
        let a = run_end(&v, k, 1);
        assert(!is_bare_key(s));
        let mut op = Operator::Eq;
        let mut b: usize = a;
        if a < n {
            let c = v[a];
            if c == '=' {
                b = a + 1;
            } else if c == '<' || c == '>' {
                if a + 1 < n && v[a + 1] == '=' {
                    op = if c == '<' { Operator::Le } else { Operator::Ge };
                    b = a + 2;
                } else {
                    op = if c == '<' { Operator::Lt } else { Operator::Gt };
                    b = a + 1;
                }
            }
        }
        if b == a {
            proof {
                assert forall|k2: int, a2: int, b2: int, c2: int| !is_comparison_split(s, k2, a2, b2, c2) by {
                    if is_comparison_split(s, k2, a2, b2, c2) {
                        lemma_split_fixed(s, k2, a2, b2, c2, k as int, a as int);
                        assert(s.subrange(a2, b2)[0] == s[a2]);
                    }
                }
            }
            return Err(ConditionError::Invalid(to_string(text)));
        }
        let c = run_end(&v, b, 1);
        let end = run_end(&v, c, 2);
        if c == n || end < n {
            proof {
                assert forall|k2: int, a2: int, b2: int, c2: int| !is_comparison_split(s, k2, a2, b2, c2) by {
                    if is_comparison_split(s, k2, a2, b2, c2) {
                        lemma_split_fixed(s, k2, a2, b2, c2, k as int, a as int);
                        assert(b2 == b);
                        if c2 < c {
                            assert(s.subrange(c2, s.len() as int)[0] == s[c2]);
                            assert(char_in(v@[c2], 1));
                        }
                        if c2 > c {
                            assert(s.subrange(b2, c2)[c - b2] == s[c as int]);
                        }
                        assert(c2 == c);
                        if end < n {
                            assert(s.subrange(c2, s.len() as int)[end - c2] == s[end as int]);
                        }
                    }
                }
            }
            return Err(ConditionError::Invalid(to_string(text)));
        }
        let r = ConditionalExpression {
            key: slice_to_string(text, 0, k),
            operator: op,
            value: slice_to_string(text, c, n),
        };
        proof {
            let o = s.subrange(a as int, b as int);
            assert(o[0] == s[a as int]);
            if b == a + 2 {
                assert(o[1] == s[a + 1]);
            }
            assert(operator_of(s.subrange(a as int, b as int)) == Some(op));
            assert(is_comparison_split(s, k as int, a as int, b as int, c as int));
        }
        Ok(r)
    }
}

/// Whether `m / 10^p` stands in the relation `op` to `e`.
fn compare_decimal(op: Operator, m: i64, p: usize, e: u64) -> (r: bool)
    requires
        p <= MAX_DIGITS,
        e < 1000000000000000000u64,
    ensures
        r == compare(op, m as int, (e * pow10(p as nat)) as int),
{
    let q = pow10_exec(p);
    proof {
        lemma_pow10_mono(p as nat, 18);
        lemma_pow10_max();
        assert(e * q <= 1000000000000000000u64 * 1000000000000000000u64) by (nonlinear_arith)
            requires
                e < 1000000000000000000u64,
                q <= 1000000000000000000u64,
        ;
    }
    let left = m as i128;
    let right = (e as i128) * (q as i128);
    match op {
        Operator::Lt => left < right,
        Operator::Le => left <= right,
        Operator::Gt => left > right,
        Operator::Ge => left >= right,
        _ => left == right,
    }
}

/// Whether `s` is the text of `b`.
fn is_bool_text(s: &String, b: bool) -> (r: bool)
    ensures
        r == (s@ == bool_text(b)),
{
    proof {
        reveal_strlit("true");
        reveal_strlit("false");
        assert("true"@ =~= bool_text(true));
        assert("false"@ =~= bool_text(false));
    }
    let t = if b { to_string("true") } else { to_string("false") };
    *s == t
}

impl ConditionalExpression {
    /// Evaluates this expression against the status value `value`.
    pub fn evaluate(&self, value: &StatusValue) -> (r: Result<bool, ConditionError>)
        ensures
            match r {
                Ok(b) => evaluate_spec(self.operator, self.value@, *value) == Ok::<bool, int>(b),
                Err(e) => evaluate_spec(self.operator, self.value@, *value) == Err::<bool, int>(
                    error_code(e),
                ),
            },
    {
        match value {
            StatusValue::Bool(b) => match self.operator {
                Operator::Truthy => Ok(*b),
                Operator::Eq => Ok(is_bool_text(&self.value, *b)),
                _ => Err(ConditionError::Unsupported),
            },
            StatusValue::Number(t) => match self.operator {
                Operator::Truthy => Err(ConditionError::Unsupported),
                Operator::Eq => Ok(*t == self.value),
                _ => match (parse_decimal(t.as_str()), parse_natural(self.value.as_str())) {
                    (Some((m, p)), Some(e)) => Ok(compare_decimal(self.operator, m, p, e)),
                    _ => Err(ConditionError::NotANumber),
                },
            },
            StatusValue::Text(t) => match self.operator {
                Operator::Eq => Ok(*t == self.value),
                _ => Err(ConditionError::Unsupported),
            },
            StatusValue::Other(t) => match self.operator {
                Operator::Eq => Ok(*t == self.value),
                _ => Err(ConditionError::Unsupported),
            },
        }
    }
}

/// The older form of a condition, with `=` as its only operator.
#[derive(Clone, Debug, PartialEq, Eq)]
pub struct ConditionExpression {
    pub key: String,
    pub operator: Operator,
    pub value: String,
}

impl ConditionExpression {
    /// Parses `[A-Za-z]+(\s*=\s*[A-Za-z0-9]+)?`.
    pub fn parse(text: &str) -> (r: Result<ConditionExpression, ConditionError>)
        ensures
            match r {
                Ok(e) => reads_as(text@, e.key@, e.operator, e.value@) && (e.operator == Operator::Truthy
                    || e.operator == Operator::Eq),
                Err(e) => e is Invalid && e->Invalid_0@ == text@ && forall|k: Seq<char>, op: Operator, v: Seq<char>|
                    reads_as(text@, k, op, v) ==> op != Operator::Truthy && op != Operator::Eq,
            },
    {
        match ConditionalExpression::parse(text) {
            Ok(e) => {
                if e.operator == Operator::Truthy || e.operator == Operator::Eq {
                    Ok(ConditionExpression { key: e.key, operator: e.operator, value: e.value })
                } else {
                    proof {
                        assert forall|k: Seq<char>, op: Operator, v: Seq<char>|
                            reads_as(text@, k, op, v) implies op != Operator::Truthy && op != Operator::Eq by {
                            lemma_reads_as_unique(text@, e.key@, e.operator, e.value@, k, op, v);
                        }
                    }
                    Err(ConditionError::Invalid(to_string(text)))
                }
            },
            Err(e) => Err(e),
        }
    }

    /// Evaluates this condition against `value`: a boolean with the bare key
    /// is itself, `=` compares the value's text.
    pub fn evaluate(&self, value: &StatusValue) -> (r: Result<bool, ConditionError>)
        requires
            self.operator == Operator::Truthy || self.operator == Operator::Eq,
        ensures
            match r {
                Ok(b) => evaluate_spec(self.operator, self.value@, *value) == Ok::<bool, int>(b),
                Err(e) => evaluate_spec(self.operator, self.value@, *value) == Err::<bool, int>(
                    error_code(e),
                ),
            },
    {
        let e = ConditionalExpression {
            key: self.key.clone(),
            operator: self.operator,
            value: self.value.clone(),
        };
        e.evaluate(value)
    }
}

/// A text reads in one way at most.
pub proof fn lemma_reads_as_unique(
    s: Seq<char>,
    k1: Seq<char>,
    op1: Operator,
    v1: Seq<char>,
    k2: Seq<char>,
    op2: Operator,
    v2: Seq<char>,
)
    requires
        reads_as(s, k1, op1, v1),
        reads_as(s, k2, op2, v2),
    ensures
        k1 == k2 && op1 == op2 && v1 == v2,
{
    if is_bare_key(s) {
        assert forall|k: int, a: int, b: int, c: int| !is_comparison_split(s, k, a, b, c) by {
            if is_comparison_split(s, k, a, b, c) {
                assert(s.subrange(a, b)[0] == s[a]);
                assert(is_ascii_letter(s[a]));
            }
        }
    } else {
        let (k, a, b, c) = choose|k: int, a: int, b: int, c: int|
            is_comparison_split(s, k, a, b, c) && k1 == s.subrange(0, k) && operator_of(s.subrange(a, b))
                == Some(op1) && v1 == s.subrange(c, s.len() as int);
        let (k_, a_, b_, c_) = choose|k_: int, a_: int, b_: int, c_: int|
            is_comparison_split(s, k_, a_, b_, c_) && k2 == s.subrange(0, k_) && operator_of(
                s.subrange(a_, b_),
            ) == Some(op2) && v2 == s.subrange(c_, s.len() as int);
        assert forall|i: int| 0 <= i < k implies is_ascii_letter(#[trigger] s[i]) by {
            assert(s.subrange(0, k)[i] == s[i]);
        }
        assert forall|i: int| k <= i < a implies is_white_space(#[trigger] s[i]) by {
            assert(s.subrange(k, a)[i - k] == s[i]);
        }
        assert(s.subrange(a, b)[0] == s[a]);
        lemma_split_fixed(s, k, a, b, c, k, a);
        lemma_split_fixed(s, k_, a_, b_, c_, k, a);
        assert(b == b_);
        if c_ < c {
            assert(s.subrange(b, c)[c_ - b] == s[c_]);
            assert(s.subrange(c_, s.len() as int)[0] == s[c_]);
        }
        if c < c_ {
            assert(s.subrange(b_, c_)[c - b_] == s[c]);
            assert(s.subrange(c, s.len() as int)[0] == s[c]);
        }
    }
}

} // verus!
