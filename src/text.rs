//! Character classes and small text operations over `Seq<char>` views.
use vstd::prelude::*;
use vstd::string::*;

verus! {

/// `[A-Za-z]`.
pub open spec fn is_ascii_letter(c: char) -> bool {
    ('a' <= c && c <= 'z') || ('A' <= c && c <= 'Z')
}

/// `[0-9]`.
pub open spec fn is_ascii_digit(c: char) -> bool {
    '0' <= c && c <= '9'
}

/// `[A-Za-z0-9]`.
pub open spec fn is_ascii_alnum(c: char) -> bool {
    is_ascii_letter(c) || is_ascii_digit(c)
}

/// The characters with the Unicode `White_Space` property.
pub open spec fn is_white_space(c: char) -> bool {
    ('\u{9}' <= c && c <= '\u{d}') || c == ' ' || c == '\u{85}' || c == '\u{a0}'
        || c == '\u{1680}' || ('\u{2000}' <= c && c <= '\u{200a}') || c == '\u{2028}'
        || c == '\u{2029}' || c == '\u{202f}' || c == '\u{205f}' || c == '\u{3000}'
}

pub fn letter(c: char) -> (r: bool)
    ensures
        r == is_ascii_letter(c),
{
    ('a' <= c && c <= 'z') || ('A' <= c && c <= 'Z')
}

pub fn digit(c: char) -> (r: bool)
    ensures
        r == is_ascii_digit(c),
{
    '0' <= c && c <= '9'
}

pub fn white_space(c: char) -> (r: bool)
    ensures
        r == is_white_space(c),
{
    ('\u{9}' <= c && c <= '\u{d}') || c == ' ' || c == '\u{85}' || c == '\u{a0}' || c
        == '\u{1680}' || ('\u{2000}' <= c && c <= '\u{200a}') || c == '\u{2028}' || c
        == '\u{2029}' || c == '\u{202f}' || c == '\u{205f}' || c == '\u{3000}'
}

/// The characters of `s`, in order.
pub fn chars_of(s: &str) -> (v: Vec<char>)
    ensures
        v@ == s@,
{
    let n = s.unicode_len();
    let mut v: Vec<char> = Vec::new();
    let mut i: usize = 0;
    while i < n
        invariant
            n == s@.len(),
            i <= n,
            v@ == s@.subrange(0, i as int),
        decreases n - i,
    {
        v.push(s.get_char(i));
        i = i + 1;
        assert(v@ =~= s@.subrange(0, i as int));
    }
    assert(v@ =~= s@);
    v
}

/// Whether `a` and `b` hold the same characters.
pub fn str_eq(a: &str, b: &str) -> (r: bool)
    ensures
        r == (a@ == b@),
{
    let n = a.unicode_len();
    if n != b.unicode_len() {
        return false;
    }
    let mut i: usize = 0;
    while i < n
        invariant
            n == a@.len() == b@.len(),
            i <= n,
            forall|j: int| 0 <= j < i ==> a@[j] == b@[j],
        decreases n - i,
    {
        if a.get_char(i) != b.get_char(i) {
            return false;
        }
        i = i + 1;
    }
    assert(a@ =~= b@);
    true
}

/// An owned copy of the characters `from..to` of `s`.
pub fn slice_to_string(s: &str, from: usize, to: usize) -> (r: String)
    requires
        from <= to <= s@.len(),
    ensures
        r@ == s@.subrange(from as int, to as int),
{
    String::from_str(s.substring_char(from, to))
}

/// An owned copy of `s`.
pub fn to_string(s: &str) -> (r: String)
    ensures
        r@ == s@,
{
    String::from_str(s)
}

/// The fields of `s` between occurrences of `sep`, as `str::split` yields them:
/// there is always at least one field.
pub open spec fn split_spec(s: Seq<char>, sep: char) -> Seq<Seq<char>>
    decreases s.len(),
{
    if s.len() == 0 {
        seq![Seq::<char>::empty()]
    } else {
        let prev = split_spec(s.drop_last(), sep);
        if s.last() == sep {
            prev.push(Seq::<char>::empty())
        } else {
            prev.update(prev.len() - 1, prev.last().push(s.last()))
        }
    }
}

/// The fields as `str::split_terminator` yields them: a last empty field is dropped.
pub open spec fn split_terminator_spec(s: Seq<char>, sep: char) -> Seq<Seq<char>> {
    let f = split_spec(s, sep);
    if f.last().len() == 0 {
        f.drop_last()
    } else {
        f
    }
}

pub proof fn lemma_split_nonempty(s: Seq<char>, sep: char)
    ensures
        split_spec(s, sep).len() >= 1,
    decreases s.len(),
{
    if s.len() > 0 {
        lemma_split_nonempty(s.drop_last(), sep);
    }
}

proof fn lemma_split_leading(s: Seq<char>, sep: char)
    requires
        s.len() > 0,
        s[0] == sep,
    ensures
        split_spec(s, sep).len() >= 2,
    decreases s.len(),
{
    let prev = split_spec(s.drop_last(), sep);
    if s.len() > 1 {
        assert(s.drop_last()[0] == sep);
        lemma_split_leading(s.drop_last(), sep);
    } else {
        assert(s.drop_last().len() == 0);
        assert(s.last() == sep);
        assert(prev.len() == 1);
    }
    assert(split_spec(s, sep).len() >= prev.len());
}

/// A text that starts with the separator has at least one field, even
/// where a last empty field is dropped.
pub proof fn lemma_split_terminator_first(s: Seq<char>, sep: char)
    requires
        s.len() > 0,
        s[0] == sep,
    ensures
        split_terminator_spec(s, sep).len() >= 1,
{
    lemma_split_leading(s, sep);
}

/// Splits `s` at every `sep`; with `terminator`, a last empty field is dropped.
pub fn split_fields(s: &str, sep: char, terminator: bool) -> (r: Vec<String>)
    ensures
        terminator ==> r@.map_values(|f: String| f@) == split_terminator_spec(s@, sep),
        !terminator ==> r@.map_values(|f: String| f@) == split_spec(s@, sep),
{
    let n = s.unicode_len();
    let mut fields: Vec<String> = Vec::new();
    let mut start: usize = 0;
    let mut i: usize = 0;
    while i < n
        invariant
            n == s@.len(),
            start <= i <= n,
            split_spec(s@.subrange(0, i as int), sep).len() == fields@.len() + 1,
            split_spec(s@.subrange(0, i as int), sep).last() == s@.subrange(
                start as int,
                i as int,
            ),
            fields@.map_values(|f: String| f@) == split_spec(
                s@.subrange(0, i as int),
                sep,
            ).drop_last(),
        decreases n - i,
    {
        let c = s.get_char(i);
        let ghost pre = s@.subrange(0, i as int);
        let ghost next = s@.subrange(0, i + 1);
        assert(next.drop_last() =~= pre);
        proof {
            lemma_split_nonempty(pre, sep);
        }
        assert(next.last() == c);
        let ghost before = fields@.map_values(|f: String| f@);
        if c == sep {
            let f = slice_to_string(s, start, i);
            fields.push(f);
            start = i + 1;
            assert(split_spec(next, sep) == split_spec(pre, sep).push(Seq::<char>::empty()));
            assert(split_spec(pre, sep) =~= before.push(f@));
            assert(fields@.map_values(|f: String| f@) =~= before.push(f@));
        } else {
            assert(s@.subrange(start as int, i + 1) =~= s@.subrange(start as int, i as int).push(
                c,
            ));
            assert(fields@.map_values(|f: String| f@) =~= split_spec(next, sep).drop_last());
        }
        i = i + 1;
    }
    assert(s@.subrange(0, n as int) =~= s@);
    let last = slice_to_string(s, start, n);
    if terminator && start == n {
        return fields;
    }
    let ghost before = fields@.map_values(|f: String| f@);
    fields.push(last);
    proof {
        lemma_split_nonempty(s@, sep);
    }
    assert(split_spec(s@, sep) =~= before.push(last@));
    assert(fields@.map_values(|f: String| f@) =~= before.push(last@));
    assert(fields@.map_values(|f: String| f@) =~= split_spec(s@, sep));
    fields
}

/// `s` without leading and trailing white space.
pub open spec fn trim_spec(s: Seq<char>) -> Seq<char> {
    let t = s.subrange(trim_start_index(s), s.len() as int);
    t.subrange(0, trim_end_index(t))
}

/// Index of the first character that is not white space (or the length).
pub open spec fn trim_start_index(s: Seq<char>) -> int
    decreases s.len(),
{
    if s.len() == 0 || !is_white_space(s[0]) {
        0
    } else {
        1 + trim_start_index(s.drop_first())
    }
}

/// One past the last character that is not white space (or zero).
pub open spec fn trim_end_index(s: Seq<char>) -> int
    decreases s.len(),
{
    if s.len() == 0 || !is_white_space(s.last()) {
        s.len() as int
    } else {
        trim_end_index(s.drop_last())
    }
}

/// Removes leading and trailing white space, as `str::trim` does.
pub fn trim(s: &str) -> (r: String)
    ensures
        r@ == trim_spec(s@),
{
    let n = s.unicode_len();
    let mut a: usize = 0;
    assert(s@.subrange(0, n as int) =~= s@);
    while a < n && white_space(s.get_char(a))
        invariant
            n == s@.len(),
            a <= n,
            trim_start_index(s@.subrange(a as int, n as int)) + a == trim_start_index(s@),
        decreases n - a,
    {
        let ghost t = s@.subrange(a as int, n as int);
        assert(t.drop_first() =~= s@.subrange(a + 1, n as int));
        a = a + 1;
    }
    let ghost t = s@.subrange(a as int, n as int);
    assert(s@.subrange(0, n as int) =~= s@);
    assert(trim_start_index(s@) == a);
    let mut b: usize = n;
    while b > a && white_space(s.get_char(b - 1))
        invariant
            n == s@.len(),
            a <= b <= n,
            t == s@.subrange(a as int, n as int),
            trim_end_index(s@.subrange(a as int, b as int)) == trim_end_index(t),
        decreases b,
    {
        let ghost u = s@.subrange(a as int, b as int);
        assert(u.drop_last() =~= s@.subrange(a as int, b - 1));
        b = b - 1;
    }
    assert(trim_end_index(t) == b - a);
    assert(t.subrange(0, b - a) =~= s@.subrange(a as int, b as int));
    slice_to_string(s, a, b)
}

/// `s` without leading and trailing `c`, as `str::trim_matches(c)` gives it.
pub open spec fn trim_char_spec(s: Seq<char>, c: char) -> Seq<char> {
    let t = s.subrange(strip_start(s, c), s.len() as int);
    t.subrange(0, strip_end(t, c))
}

/// Index of the first character that is not `c` (or the length).
pub open spec fn strip_start(s: Seq<char>, c: char) -> int
    decreases s.len(),
{
    if s.len() == 0 || s[0] != c {
        0
    } else {
        1 + strip_start(s.drop_first(), c)
    }
}

/// One past the last character that is not `c` (or zero).
pub open spec fn strip_end(s: Seq<char>, c: char) -> int
    decreases s.len(),
{
    if s.len() == 0 || s.last() != c {
        s.len() as int
    } else {
        strip_end(s.drop_last(), c)
    }
}

/// Removes every leading and trailing `c`.
pub fn trim_char(s: &str, c: char) -> (r: String)
    ensures
        r@ == trim_char_spec(s@, c),
{
    let n = s.unicode_len();
    let mut a: usize = 0;
    assert(s@.subrange(0, n as int) =~= s@);
    while a < n && s.get_char(a) == c
        invariant
            n == s@.len(),
            a <= n,
            strip_start(s@.subrange(a as int, n as int), c) + a == strip_start(s@, c),
        decreases n - a,
    {
        let ghost t = s@.subrange(a as int, n as int);
        assert(t.drop_first() =~= s@.subrange(a + 1, n as int));
        a = a + 1;
    }
    let ghost t = s@.subrange(a as int, n as int);
    assert(strip_start(s@, c) == a);
    let mut b: usize = n;
    while b > a && s.get_char(b - 1) == c
        invariant
            n == s@.len(),
            a <= b <= n,
            t == s@.subrange(a as int, n as int),
            strip_end(s@.subrange(a as int, b as int), c) == strip_end(t, c),
        decreases b,
    {
        let ghost u = s@.subrange(a as int, b as int);
        assert(u.drop_last() =~= s@.subrange(a as int, b - 1));
        b = b - 1;
    }
    assert(strip_end(t, c) == b - a);
    assert(t.subrange(0, b - a) =~= s@.subrange(a as int, b as int));
    slice_to_string(s, a, b)
}

} // verus!
