//! The `if<sep>condition<sep>then[<sep>else]` branch grammar.
use crate::text::{slice_to_string, split_fields, split_terminator_spec};
use vstd::prelude::*;
use vstd::string::*;

verus! {

/// Whether `c` is alphabetic or numeric in Unicode.
pub uninterp spec fn is_alphanumeric_of(c: char) -> bool;

/// Relies on `char::is_alphanumeric`, which answers by the Unicode
/// `Alphabetic` and `Numeric` properties of `c` alone.
#[verifier::external_body]
fn is_alphanumeric(c: char) -> (r: bool)
    ensures
        r == is_alphanumeric_of(c),
{
    c.is_alphanumeric()
}

/// The `(condition, then, else)` fields of `rest` split at `sep`: two fields
/// have an empty `else`; any other count is no branch.
pub open spec fn branch_fields(rest: Seq<char>, sep: char) -> Option<(Seq<char>, Seq<char>, Seq<char>)> {
    let f = split_terminator_spec(rest, sep);
    if f.len() == 2 {
        Some((f[0], f[1], Seq::<char>::empty()))
    } else if f.len() == 3 {
        Some((f[0], f[1], f[2]))
    } else {
        None
    }
}

/// What `text` reads as a branch: it starts with `if`, the next character is
/// the separator, which must not be alphanumeric, and the rest holds the fields.
pub open spec fn parse_if_spec(text: Seq<char>) -> Option<(Seq<char>, Seq<char>, Seq<char>)> {
    if text.len() >= 3 && text[0] == 'i' && text[1] == 'f' && !is_alphanumeric_of(text[2]) {
        branch_fields(text.subrange(3, text.len() as int), text[2])
    } else {
        None
    }
}

/// The condition of the branch that `text` reads as, if it is one.
pub open spec fn if_condition(text: Seq<char>) -> Seq<char> {
    match parse_if_spec(text) {
        Some((c, _, _)) => c,
        None => Seq::<char>::empty(),
    }
}

pub open spec fn fields_view(r: Option<(String, String, String)>) -> Option<(Seq<char>, Seq<char>, Seq<char>)> {
    match r {
        Some((a, b, c)) => Some((a@, b@, c@)),
        None => None,
    }
}

/// Splits `rest` at `sep` into the fields of a branch.
pub fn split_branch(rest: &str, sep: char) -> (r: Option<(String, String, String)>)
    ensures
        fields_view(r) == branch_fields(rest@, sep),
{
    let mut fields = split_fields(rest, sep, true);
    let ghost f = fields@.map_values(|s: String| s@);
    assert(f.len() == fields@.len());
    if fields.len() == 2 {
        let b = fields.pop().unwrap();
        let a = fields.pop().unwrap();
        assert(a@ == f[0] && b@ == f[1]);
        Some((a, b, String::new()))
    } else if fields.len() == 3 {
        let c = fields.pop().unwrap();
        let b = fields.pop().unwrap();
        let a = fields.pop().unwrap();
        assert(a@ == f[0] && b@ == f[1] && c@ == f[2]);
        Some((a, b, c))
    } else {
        None
    }
}

/// Reads `text` as `if<sep>condition<sep>then[<sep>else]`.
pub fn parse_if_expr(text: &str) -> (r: Option<(String, String, String)>)
    ensures
        fields_view(r) == parse_if_spec(text@),
{
    let n = text.unicode_len();
    if n < 3 || text.get_char(0) != 'i' || text.get_char(1) != 'f' {
        return None;
    }
    let sep = text.get_char(2);
    if is_alphanumeric(sep) {
        return None;
    }
    let rest = text.substring_char(3, n);
    split_branch(rest, sep)
}

} // verus!
