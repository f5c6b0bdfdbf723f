//! A little Markdown: emphasis, line breaks and table rows.
use crate::text::{is_white_space, slice_to_string, split_fields, split_terminator_spec, to_string, trim, trim_spec, white_space};
use vstd::prelude::*;
use vstd::string::*;

verus! {

/// A piece of Markdown text.
#[derive(Clone, Debug, Default)]
pub struct Markdown {
    markdown: String,
}

/// `*text*` at `p..=q`: stars at both ends, none between, at least one
/// character between.
pub open spec fn is_em_at(s: Seq<char>, p: int, q: int) -> bool {
    &&& 0 <= p && p + 1 < q < s.len()
    &&& s[p] == '*' && s[q] == '*'
    &&& forall|m: int| p < m < q ==> s[m] != '*'
}

/// No emphasis starts before `p`: every star before it is followed by a star.
pub open spec fn none_before(s: Seq<char>, p: int) -> bool {
    forall|m: int| 0 <= m < p && #[trigger] s[m] == '*' ==> m + 1 < s.len() && s[m + 1] == '*'
}

/// The length of a line break `<br>`, `<br/>` or `<br />` (any case, any white
/// space before the slash) at the start of `s`, or zero.
pub open spec fn br_len(s: Seq<char>) -> int {
    if s.len() >= 3 && s[0] == '<' && (s[1] == 'b' || s[1] == 'B') && (s[2] == 'r' || s[2] == 'R') {
        let k = 3 + space_run(s.subrange(3, s.len() as int));
        let k2 = if k < s.len() && s[k] == '/' {
            k + 1
        } else {
            k
        };
        if k2 < s.len() && s[k2] == '>' {
            k2 + 1
        } else {
            0
        }
    } else {
        0
    }
}

/// The number of white space characters at the start of `s`.
pub open spec fn space_run(s: Seq<char>) -> int
    decreases s.len(),
{
    if s.len() > 0 && is_white_space(s[0]) {
        1 + space_run(s.drop_first())
    } else {
        0
    }
}

proof fn lemma_space_run(s: Seq<char>)
    ensures
        0 <= space_run(s) <= s.len(),
    decreases s.len(),
{
    if s.len() > 0 && is_white_space(s[0]) {
        lemma_space_run(s.drop_first());
    }
}

/// `s` with every line break replaced by a newline.
pub open spec fn plain_spec(s: Seq<char>) -> Seq<char>
    decreases s.len(),
{
    if s.len() == 0 {
        s
    } else if br_len(s) > 0 {
        seq!['\n'] + plain_spec(s.subrange(br_len(s), s.len() as int))
    } else {
        seq![s[0]] + plain_spec(s.drop_first())
    }
}

proof fn lemma_br_len(s: Seq<char>)
    ensures
        0 <= br_len(s) <= s.len(),
{
    if s.len() >= 3 {
        lemma_space_run(s.subrange(3, s.len() as int));
    }
}

/// The columns of a table row `|a|b|`, each trimmed.
pub open spec fn columns_spec(line: Seq<char>) -> Option<Seq<Seq<char>>> {
    if line.len() > 0 && line[0] == '|' && line.last() == '|' {
        Some(split_terminator_spec(line, '|').drop_first().map_values(|f: Seq<char>| trim_spec(f)))
    } else {
        None
    }
}

/// The length of the line break at position `i` of `s`, or zero.
fn line_break_at(s: &str, i: usize) -> (r: usize)
    requires
        i <= s@.len(),
    ensures
        r == br_len(s@.subrange(i as int, s@.len() as int)),
{
    let n = s.unicode_len();
    let ghost t = s@.subrange(i as int, n as int);
    if n - i < 3 {
        return 0;
    }
    let c0 = s.get_char(i);
    let c1 = s.get_char(i + 1);
    let c2 = s.get_char(i + 2);
    if !(c0 == '<' && (c1 == 'b' || c1 == 'B') && (c2 == 'r' || c2 == 'R')) {
        return 0;
    }
    let mut k: usize = i + 3;
    while k < n && white_space(s.get_char(k))
        invariant
            i + 3 <= k <= n == s@.len(),
            space_run(s@.subrange(k as int, n as int)) + k == space_run(s@.subrange(i + 3, n as int)) + i + 3,
        decreases n - k,
    {
        assert(s@.subrange(k as int, n as int).drop_first() =~= s@.subrange(k + 1, n as int));
        k = k + 1;
    }
    assert(t.subrange(3, t.len() as int) =~= s@.subrange(i + 3, n as int));
    if k < n && s.get_char(k) == '/' {
        k = k + 1;
    }
    if k < n && s.get_char(k) == '>' {
        k + 1 - i
    } else {
        0
    }
}

impl Markdown {
    pub closed spec fn text(&self) -> Seq<char> {
        self.markdown@
    }

    pub fn new(markdown: &str) -> (r: Markdown)
        ensures
            r.text() == markdown@,
    {
        Markdown { markdown: to_string(markdown) }
    }

    /// A copy of this text.
    pub fn duplicate(&self) -> (r: Markdown)
        ensures
            r == *self,
    {
        Markdown { markdown: self.markdown.clone() }
    }

    /// The Markdown text as given.
    pub fn markdown(&self) -> (r: &str)
        ensures
            r@ == self.text(),
    {
        self.markdown.as_str()
    }

    /// The first emphasized text `*text*` in `text`.
    pub fn em(text: &str) -> (r: Option<String>)
        ensures
            match r {
                Some(t) => exists|p: int, q: int|
                    is_em_at(text@, p, q) && none_before(text@, p) && t@ == text@.subrange(p + 1, q),
                None => forall|p: int, q: int| !is_em_at(text@, p, q),
            },
    {
        let n = text.unicode_len();
        let ghost s = text@;
        let mut prev: Option<usize> = None;
        let mut i: usize = 0;
        while i < n
            invariant
                i <= n == s.len(),
                s == text@,
                match prev {
                    Some(p) => p < i && s[p as int] == '*' && none_before(s, p as int) && forall|m: int|
                        p < m < i ==> s[m] != '*',
                    None => forall|m: int| 0 <= m < i ==> s[m] != '*',
                },
                forall|p: int, q: int| q < i ==> !is_em_at(s, p, q),
            decreases n - i,
        {
            if text.get_char(i) == '*' {
                match prev {
                    Some(p) => {
                        if i > p + 1 {
                            assert(is_em_at(s, p as int, i as int));
                            return Some(slice_to_string(text, p + 1, i));
                        }
                        assert forall|earlier: int, q: int| q < i + 1 implies !is_em_at(s, earlier, q) by {
                            if q == i && is_em_at(s, earlier, q) {
                                assert(earlier <= p);
                                if earlier < p {
                                    assert(s[p as int] != '*');
                                }
                            }
                        }
                    },
                    None => {},
                }
                prev = Some(i);
            }
            i = i + 1;
        }
        None
    }

    /// The text with every line break `<br>` replaced by a newline.
    pub fn plain_text(&self) -> (r: String)
        ensures
            r@ == plain_spec(self.text()),
    {
        let s = self.markdown.as_str();
        let n = s.unicode_len();
        let mut out = String::new();
        let mut i: usize = 0;
        proof {
            reveal_strlit("\n");
            assert(s@.subrange(0, n as int) =~= s@);
        }
        while i < n
            invariant
                i <= n == s@.len(),
                s@ == self.text(),
                out@ + plain_spec(s@.subrange(i as int, n as int)) == plain_spec(s@),
            decreases n - i,
        {
            let ghost t = s@.subrange(i as int, n as int);
            let b = line_break_at(s, i);
            proof {
                lemma_br_len(t);
            }
            if b > 0 {
                out.append("\n");
                assert(t.subrange(br_len(t), t.len() as int) =~= s@.subrange(i + b, n as int));
                proof {
                    reveal_strlit("\n");
                }
                assert("\n"@ =~= seq!['\n']);
                assert(out@ + plain_spec(s@.subrange(i + b, n as int)) =~= plain_spec(s@)) by {
                    assert(plain_spec(t) == seq!['\n'] + plain_spec(t.subrange(br_len(t), t.len() as int)));
                }
                i = i + b;
            } else {
                out.append(s.substring_char(i, i + 1));
                assert(t.drop_first() =~= s@.subrange(i + 1, n as int));
                assert(s@.subrange(i as int, i + 1) =~= seq![t[0]]);
                assert(plain_spec(t) == seq![t[0]] + plain_spec(t.drop_first()));
                assert(out@ + plain_spec(s@.subrange(i + 1, n as int)) =~= plain_spec(s@));
                i = i + 1;
            }
        }
        assert(plain_spec(s@.subrange(n as int, n as int)) =~= Seq::<char>::empty());
        assert(out@ =~= out@ + Seq::<char>::empty());
        out
    }

    /// The trimmed columns of the table row `line`, which starts and ends with `|`.
    pub fn table_columns(line: &str) -> (r: Option<Vec<String>>)
        ensures
            match r {
                Some(v) => columns_spec(line@) == Some(v@.map_values(|f: String| f@)),
                None => columns_spec(line@) is None,
            },
    {
        let n = line.unicode_len();
        if n == 0 || line.get_char(0) != '|' || line.get_char(n - 1) != '|' {
            return None;
        }
        let fields = split_fields(line, '|', true);
        let ghost f = fields@.map_values(|x: String| x@);
        let mut columns: Vec<String> = Vec::new();
        let mut i: usize = 1;
        proof {
            crate::text::lemma_split_nonempty(line@, '|');
        }
        assert(f.len() >= 1) by {
            assert(split_terminator_spec(line@, '|').len() >= 1) by {
                crate::text::lemma_split_terminator_first(line@, '|');
            }
        }
        while i < fields.len()
            invariant
                1 <= i <= fields@.len(),
                f == fields@.map_values(|x: String| x@),
                columns@.map_values(|x: String| x@) == f.subrange(1, i as int).map_values(|g: Seq<char>| trim_spec(g)),
            decreases fields@.len() - i,
        {
            let c = trim(fields[i].as_str());
            let ghost before = columns@.map_values(|x: String| x@);
            columns.push(c);
            assert(f[i as int] == fields@[i as int]@);
            assert(columns@.map_values(|x: String| x@) =~= before.push(trim_spec(f[i as int])));
            assert(f.subrange(1, i + 1).map_values(|g: Seq<char>| trim_spec(g)) =~= f.subrange(1, i as int).map_values(|g: Seq<char>| trim_spec(g)).push(trim_spec(f[i as int])));
            assert(columns@.map_values(|x: String| x@) =~= f.subrange(1, i + 1).map_values(|g: Seq<char>| trim_spec(g)));
            i = i + 1;
        }
        assert(f.subrange(1, f.len() as int) =~= f.drop_first());
        Some(columns)
    }
}

} // verus!
