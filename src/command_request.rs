//! The `[type/]command[:parameter]` command grammar.
use crate::text::{slice_to_string, to_string};
use vstd::prelude::*;
use vstd::string::*;

verus! {

/// Position of the first `c` in `s`, or the length of `s` when there is none.
pub open spec fn first_pos(s: Seq<char>, c: char) -> int
    decreases s.len(),
{
    if s.len() == 0 || s[0] == c {
        0
    } else {
        1 + first_pos(s.drop_first(), c)
    }
}

pub proof fn lemma_first_pos(s: Seq<char>, c: char)
    ensures
        0 <= first_pos(s, c) <= s.len(),
        first_pos(s, c) < s.len() ==> s[first_pos(s, c)] == c,
        forall|i: int| 0 <= i < first_pos(s, c) ==> s[i] != c,
    decreases s.len(),
{
    if s.len() > 0 && s[0] != c {
        lemma_first_pos(s.drop_first(), c);
        assert forall|i: int| 0 <= i < first_pos(s, c) implies s[i] != c by {
            if i > 0 {
                assert(s[i] == s.drop_first()[i - 1]);
            }
        }
    }
}

/// The first position of `c` in `s`, or the length of `s`.
pub fn find_char(s: &str, c: char) -> (r: usize)
    ensures
        r == first_pos(s@, c),
{
    let n = s.unicode_len();
    let mut i: usize = 0;
    assert(s@.subrange(0, n as int) =~= s@);
    while i < n && s.get_char(i) != c
        invariant
            n == s@.len(),
            i <= n,
            first_pos(s@.subrange(i as int, n as int), c) + i == first_pos(s@, c),
        decreases n - i,
    {
        let ghost t = s@.subrange(i as int, n as int);
        assert(t.drop_first() =~= s@.subrange(i + 1, n as int));
        i = i + 1;
    }
    assert(s@.subrange(0, n as int) =~= s@);
    i
}

/// A command to send to a device.
#[derive(Clone, Debug, Default, PartialEq, Eq)]
pub struct CommandRequest {
    /// The command.
    pub command: String,
    /// The command parameter; empty or `"default"` stands for the default.
    pub parameter: String,
    /// The command type; empty or `"command"` stands for the default.
    pub command_type: String,
}

/// The spelled-out default parameter.
pub open spec fn default_parameter() -> Seq<char> {
    seq!['d', 'e', 'f', 'a', 'u', 'l', 't']
}

/// The spelled-out default command type.
pub open spec fn default_command_type() -> Seq<char> {
    seq!['c', 'o', 'm', 'm', 'a', 'n', 'd']
}

pub open spec fn omits_parameter(s: Seq<char>) -> bool {
    s.len() == 0 || s == default_parameter()
}

pub open spec fn omits_command_type(s: Seq<char>) -> bool {
    s.len() == 0 || s == default_command_type()
}

/// The fields `(command_type, command, parameter)` that `text` parses to: the
/// first `:` starts the parameter, and the first `/` before it ends the type.
pub open spec fn parse_spec(text: Seq<char>) -> (Seq<char>, Seq<char>, Seq<char>) {
    let p = first_pos(text, ':');
    let name = text.subrange(0, p);
    let parameter = if p < text.len() {
        text.subrange(p + 1, text.len() as int)
    } else {
        Seq::<char>::empty()
    };
    let q = first_pos(name, '/');
    if q < name.len() {
        (name.subrange(0, q), name.subrange(q + 1, name.len() as int), parameter)
    } else {
        (Seq::<char>::empty(), name, parameter)
    }
}

/// The text of a command: the type and the parameter are left out where they
/// are empty or the default.
pub open spec fn format_spec(command_type: Seq<char>, command: Seq<char>, parameter: Seq<char>) -> Seq<
    char,
> {
    let head = if omits_command_type(command_type) {
        Seq::<char>::empty()
    } else {
        command_type.push('/')
    };
    let tail = if omits_parameter(parameter) {
        Seq::<char>::empty()
    } else {
        seq![':'] + parameter
    };
    head + command + tail
}

fn is_default_text(s: &str, word: &str) -> (r: bool)
    requires
        word@.len() == 7,
    ensures
        r == (s@ == word@),
{
    let n = s.unicode_len();
    if n != 7 {
        return false;
    }
    let mut i: usize = 0;
    while i < 7
        invariant
            n == 7 == s@.len() == word@.len(),
            i <= 7,
            forall|j: int| 0 <= j < i ==> s@[j] == word@[j],
        decreases 7 - i,
    {
        if s.get_char(i) != word.get_char(i) {
            return false;
        }
        i = i + 1;
    }
    assert(s@ =~= word@);
    true
}

impl CommandRequest {
    pub fn can_omit_parameter(s: &str) -> (r: bool)
        ensures
            r == omits_parameter(s@),
    {
        proof {
            reveal_strlit("default");
            assert("default"@ =~= default_parameter());
        }
        s.unicode_len() == 0 || is_default_text(s, "default")
    }

    pub fn can_omit_command_type(s: &str) -> (r: bool)
        ensures
            r == omits_command_type(s@),
    {
        proof {
            reveal_strlit("command");
            assert("command"@ =~= default_command_type());
        }
        s.unicode_len() == 0 || is_default_text(s, "command")
    }

    /// A copy of this command.
    pub fn duplicate(&self) -> (r: CommandRequest)
        ensures
            r == *self,
    {
        CommandRequest {
            command: self.command.clone(),
            parameter: self.parameter.clone(),
            command_type: self.command_type.clone(),
        }
    }

    /// Parses `[type/]command[:parameter]`.
    pub fn parse(text: &str) -> (r: CommandRequest)
        ensures
            (r.command_type@, r.command@, r.parameter@) == parse_spec(text@),
    {
        let n = text.unicode_len();
        let p = find_char(text, ':');
        proof {
            lemma_first_pos(text@, ':');
        }
        let parameter = if p < n {
            slice_to_string(text, p + 1, n)
        } else {
            String::new()
        };
        let name = text.substring_char(0, p);
        let q = find_char(name, '/');
        proof {
            lemma_first_pos(name@, '/');
        }
        let m = name.unicode_len();
        if q < m {
            CommandRequest {
                command: slice_to_string(name, q + 1, m),
                parameter,
                command_type: slice_to_string(name, 0, q),
            }
        } else {
            CommandRequest { command: to_string(name), parameter, command_type: String::new() }
        }
    }

    /// The text form of this command, which [`CommandRequest::parse`] reads back.
    pub fn format(&self) -> (r: String)
        ensures
            r@ == format_spec(self.command_type@, self.command@, self.parameter@),
    {
        let mut r = String::new();
        if !Self::can_omit_command_type(self.command_type.as_str()) {
            r.append(self.command_type.as_str());
            r.append("/");
        }
        r.append(self.command.as_str());
        if !Self::can_omit_parameter(self.parameter.as_str()) {
            r.append(":");
            r.append(self.parameter.as_str());
        }
        proof {
            reveal_strlit("/");
            reveal_strlit(":");
        }
        assert(r@ =~= format_spec(self.command_type@, self.command@, self.parameter@));
        r
    }
}

/// Formatting a command and parsing the text gives the command back, as long
/// as no field is spelled as its default, the type holds neither `/` nor `:`,
/// the command holds no `:`, and, where the type is empty, no `/` either.
pub proof fn lemma_format_parse_round_trip(
    command_type: Seq<char>,
    command: Seq<char>,
    parameter: Seq<char>,
)
    requires
        command_type != default_command_type(),
        parameter != default_parameter(),
        forall|i: int| 0 <= i < command_type.len() ==> command_type[i] != '/' && command_type[i] != ':',
        forall|i: int| 0 <= i < command.len() ==> command[i] != ':',
        command_type.len() == 0 ==> forall|i: int| 0 <= i < command.len() ==> command[i] != '/',
    ensures
        parse_spec(format_spec(command_type, command, parameter)) == (command_type, command, parameter),
{
    let t = format_spec(command_type, command, parameter);
    let head = if command_type.len() == 0 {
        Seq::<char>::empty()
    } else {
        command_type.push('/')
    };
    let name = head + command;
    lemma_first_pos(t, ':');
    lemma_first_pos(name, '/');
    let p = first_pos(t, ':');
    assert forall|i: int| 0 <= i < name.len() implies t[i] == name[i] && name[i] != ':' by {
        if i >= head.len() {
            assert(name[i] == command[i - head.len()]);
        }
    }
    if parameter.len() == 0 {
        assert(t =~= name);
        assert(p == name.len());
    } else {
        assert(t =~= name + (seq![':'] + parameter));
        assert(t[name.len() as int] == ':');
        assert(p == name.len());
        assert(t.subrange(p + 1, t.len() as int) =~= parameter);
    }
    assert(t.subrange(0, p) =~= name);
    let q = first_pos(name, '/');
    if command_type.len() == 0 {
        assert(name =~= command);
        assert(q == name.len());
    } else {
        assert(name[command_type.len() as int] == '/');
        assert(q == command_type.len());
        assert(name.subrange(0, q) =~= command_type);
        assert(name.subrange(q + 1, name.len() as int) =~= command);
    }
}

} // verus!
