//! The interactive session: the current selection, and what each line of
//! input asks for.
use crate::alias::AliasTable;
use crate::branch::{if_condition, parse_if_expr, parse_if_spec};
use crate::command_request::{find_char, first_pos, lemma_first_pos, parse_spec, CommandRequest};
use crate::device::DeviceList;
use crate::selector::{as_ints, resolve, resolve_spec, selector_error_view, SelectorError};
use crate::text::{slice_to_string, str_eq, to_string};
use vstd::prelude::*;
use vstd::string::*;

verus! {

/// What the caller is to do after a line was executed.
#[derive(Clone, Debug, PartialEq, Eq)]
pub enum Action {
    /// The selection changed; show it.
    SelectionChanged,
    /// List all devices.
    ListDevices,
    /// Nothing to do.
    Nothing,
    /// Send the command to every selected device.
    Send(CommandRequest),
    /// Refresh the status of every selected device and show the value of the
    /// key, or the whole status where the key is empty.
    Status(String),
    /// Refresh the status of the device at `device`, evaluate `condition`
    /// against it, and execute `then_command` or `else_command`.
    Branch { device: usize, condition: String, then_command: String, else_command: String },
}

/// What a line typed at the prompt asks for.
#[derive(Clone, Debug, PartialEq, Eq)]
pub enum LineOutcome {
    /// Leave the interactive loop.
    Quit,
    /// The selection was cleared; list all devices.
    SelectionCleared,
    /// The line was executed.
    Executed(Action),
}

/// The session: aliases, devices, the current selection and the dispatch threshold.
#[derive(Debug, Default)]
pub struct Session {
    pub aliases: AliasTable,
    pub devices: DeviceList,
    pub current: Vec<usize>,
    pub parallel_threshold: usize,
}

pub open spec fn word_devices() -> Seq<char> {
    seq!['d', 'e', 'v', 'i', 'c', 'e', 's']
}

pub open spec fn word_status() -> Seq<char> {
    seq!['s', 't', 'a', 't', 'u', 's']
}

/// `text`, or what it stands for where the whole of it is an alias.
pub open spec fn expand_alias(aliases: Map<Seq<char>, Seq<char>>, text: Seq<char>) -> Seq<char> {
    if aliases.contains_key(text) {
        aliases[text]
    } else {
        text
    }
}

/// What executing `t` from the session `old` does: the session becomes `new`
/// and the outcome is `r`.
pub open spec fn execute_outcome(old: Session, new: Session, t: Seq<char>, r: Result<Action, SelectorError>) -> bool {
    let named = resolve_spec(t, old.aliases@, old.devices@, old.aliases.count());
    let selected = old.selection().len() > 0;
    let p = first_pos(t, '.');
    match r {
        Ok(Action::SelectionChanged) => named is Ok && new.selection() == named->Ok_0,
        Ok(Action::ListDevices) => named is Err && t == word_devices()
            && new.selection() == old.selection(),
        Ok(Action::Branch { device, condition, then_command, else_command }) => named is Err
            && t != word_devices() && selected
            && new.selection() == old.selection()
            && parse_if_spec(t) == Some((if_condition(t), then_command@, else_command@))
            && (device as int, condition@) == old.condition_target(if_condition(t)),
        Ok(Action::Nothing) => named is Err && t != word_devices() && selected
            && parse_if_spec(t) is None && t.len() == 0
            && new.selection() == old.selection(),
        Ok(Action::Status(key)) => named is Err && t != word_devices() && selected
            && parse_if_spec(t) is None
            && new.selection() == old.selection()
            && ((t == word_status() && key@.len() == 0) || (p == 6 && 6 < t.len() && t.subrange(0, 6)
            == word_status() && key@ == t.subrange(7, t.len() as int))),
        Ok(Action::Send(c)) => named is Err && t != word_devices() && selected
            && parse_if_spec(t) is None && t.len() > 0 && t != word_status()
            && !(p == 6 && 6 < t.len() && t.subrange(0, 6) == word_status())
            && new.selection() == old.selection()
            && (c.command_type@, c.command@, c.parameter@) == parse_spec(t),
        Err(e) => named is Err && t != word_devices() && !selected
            && selector_error_view(e) == named->Err_0
            && new.selection() == old.selection(),
    }
}

impl Session {
    /// The current selection, as device positions.
    pub open spec fn selection(&self) -> Seq<int> {
        as_ints(self.current@)
    }

    pub fn new(aliases: AliasTable, devices: DeviceList, parallel_threshold: usize) -> (r: Session)
        ensures
            r.aliases == aliases,
            r.devices == devices,
            r.parallel_threshold == parallel_threshold,
            r.selection().len() == 0,
    {
        let r = Session { aliases, devices, current: Vec::new(), parallel_threshold };
        assert(r.selection() =~= Seq::<int>::empty());
        r
    }

    /// The device that a branch condition names, and the condition proper:
    /// `selector.key` names the first device of the selector, where it
    /// resolves; otherwise the condition is about the first selected device.
    pub open spec fn condition_target(&self, condition: Seq<char>) -> (int, Seq<char>) {
        let p = first_pos(condition, '.');
        let named = resolve_spec(condition.subrange(0, p), self.aliases@, self.devices@, self.aliases.count());
        if p < condition.len() && named is Ok && named->Ok_0.len() > 0 {
            (named->Ok_0[0], condition.subrange(p + 1, condition.len() as int))
        } else {
            (self.selection()[0], condition)
        }
    }

    pub fn has_current_device(&self) -> (r: bool)
        ensures
            r == (self.selection().len() > 0),
    {
        self.current.len() > 0
    }

    pub fn num_current_devices(&self) -> (r: usize)
        ensures
            r == self.selection().len(),
    {
        self.current.len()
    }

    /// The current selection.
    pub fn current_device_indexes(&self) -> (r: &Vec<usize>)
        ensures
            as_ints(r@) == self.selection(),
    {
        &self.current
    }

    /// Forgets the current selection.
    pub fn clear_selection(&mut self)
        ensures
            final(self).selection().len() == 0,
            final(self).aliases == old(self).aliases,
            final(self).devices == old(self).devices,
            final(self).parallel_threshold == old(self).parallel_threshold,
    {
        self.current = Vec::new();
        assert(self.selection() =~= Seq::<int>::empty());
    }

    /// Resolves the selector `text` against the aliases and devices.
    pub fn parse_device_indexes(&self, text: &str) -> (r: Result<Vec<usize>, SelectorError>)
        requires
            self.aliases.wf(),
        ensures
            match resolve_spec(text@, self.aliases@, self.devices@, self.aliases.count()) {
                Ok(s) => r is Ok && as_ints(r->Ok_0@) == s,
                Err(e) => r is Err && selector_error_view(r->Err_0) == e,
            },
    {
        resolve(text, &self.aliases, &self.devices)
    }

    /// Makes the devices that `text` names the selection, where it resolves.
    pub fn set_current_devices(&mut self, text: &str) -> (r: Result<(), SelectorError>)
        requires
            old(self).aliases.wf(),
        ensures
            final(self).aliases == old(self).aliases,
            final(self).devices == old(self).devices,
            final(self).parallel_threshold == old(self).parallel_threshold,
            match resolve_spec(text@, old(self).aliases@, old(self).devices@, old(self).aliases.count()) {
                Ok(s) => r is Ok && final(self).selection() == s,
                Err(e) => r is Err && selector_error_view(r->Err_0) == e && final(self).selection()
                    == old(self).selection(),
            },
    {
        match self.parse_device_indexes(text) {
            Ok(v) => {
                self.current = v;
                Ok(())
            },
            Err(e) => Err(e),
        }
    }

    /// The device that `condition` is about, and the condition proper.
    pub fn device_expr(&self, condition: &str) -> (r: (usize, String))
        requires
            self.aliases.wf(),
            self.selection().len() > 0,
        ensures
            (r.0 as int, r.1@) == self.condition_target(condition@),
    {
        let n = condition.unicode_len();
        let p = find_char(condition, '.');
        proof {
            lemma_first_pos(condition@, '.');
        }
        if p < n {
            let device = condition.substring_char(0, p);
            match self.parse_device_indexes(device) {
                Ok(v) => {
                    if v.len() > 0 {
                        return (v[0], slice_to_string(condition, p + 1, n));
                    }
                },
                Err(_) => {},
            }
        }
        (self.current[0], to_string(condition))
    }

    /// Executes `text`, which names devices, or, with a selection, is a
    /// branch, a status query or a command. Where the whole of `text` is an
    /// alias, what it stands for is executed instead.
    pub fn execute(&mut self, text: &str) -> (r: Result<Action, SelectorError>)
        requires
            old(self).aliases.wf(),
        ensures
            final(self).aliases == old(self).aliases,
            final(self).devices == old(self).devices,
            final(self).parallel_threshold == old(self).parallel_threshold,
            execute_outcome(*old(self), *final(self), expand_alias(old(self).aliases@, text@), r),
    {
        match self.aliases.get(text) {
            Some(alias) => {
                let alias = to_string(alias.as_str());
                self.execute_no_alias(alias.as_str())
            },
            None => self.execute_no_alias(text),
        }
    }

    fn execute_no_alias(&mut self, t: &str) -> (r: Result<Action, SelectorError>)
        requires
            old(self).aliases.wf(),
        ensures
            final(self).aliases == old(self).aliases,
            final(self).devices == old(self).devices,
            final(self).parallel_threshold == old(self).parallel_threshold,
            execute_outcome(*old(self), *final(self), t@, r),
    {
        let err = match self.set_current_devices(t) {
            Ok(()) => {
                return Ok(Action::SelectionChanged);
            },
            Err(e) => e,
        };
        proof {
            reveal_strlit("devices");
            reveal_strlit("status");
            assert("devices"@ =~= word_devices());
            assert("status"@ =~= word_status());
        }
        if str_eq(t, "devices") {
            return Ok(Action::ListDevices);
        }
        if !self.has_current_device() {
            return Err(err);
        }
        match parse_if_expr(t) {
            Some((condition, then_command, else_command)) => {
                let (device, condition) = self.device_expr(condition.as_str());
                return Ok(Action::Branch { device, condition, then_command, else_command });
            },
            None => {},
        }
        let n = t.unicode_len();
        if n == 0 {
            return Ok(Action::Nothing);
        }
        if str_eq(t, "status") {
            return Ok(Action::Status(String::new()));
        }
        let p = find_char(t, '.');
        proof {
            lemma_first_pos(t@, '.');
        }
        if p == 6 && p < n && str_eq(t.substring_char(0, 6), "status") {
            return Ok(Action::Status(slice_to_string(t, 7, n)));
        }
        Ok(Action::Send(CommandRequest::parse(t)))
    }

    /// Handles a line typed at the prompt: `q` quits; an empty line clears the
    /// selection, or quits where there is none; anything else is executed.
    pub fn handle_line(&mut self, line: &str) -> (r: Result<LineOutcome, SelectorError>)
        requires
            old(self).aliases.wf(),
        ensures
            final(self).aliases == old(self).aliases,
            final(self).devices == old(self).devices,
            line@ == seq!['q'] ==> r == Ok::<LineOutcome, SelectorError>(LineOutcome::Quit)
                && final(self).selection() == old(self).selection(),
            line@.len() == 0 && old(self).selection().len() > 0 ==> r == Ok::<
                LineOutcome,
                SelectorError,
            >(LineOutcome::SelectionCleared) && final(self).selection().len() == 0,
            line@.len() == 0 && old(self).selection().len() == 0 ==> r == Ok::<
                LineOutcome,
                SelectorError,
            >(LineOutcome::Quit) && final(self).selection() == old(self).selection(),
            line@.len() > 0 && line@ != seq!['q'] ==> match r {
                Ok(LineOutcome::Executed(a)) => execute_outcome(
                    *old(self),
                    *final(self),
                    expand_alias(old(self).aliases@, line@),
                    Ok(a),
                ),
                Err(e) => execute_outcome(
                    *old(self),
                    *final(self),
                    expand_alias(old(self).aliases@, line@),
                    Err(e),
                ),
                _ => false,
            },
    {
        proof {
            reveal_strlit("q");
            assert("q"@ =~= seq!['q']);
        }
        if str_eq(line, "q") {
            return Ok(LineOutcome::Quit);
        }
        if line.unicode_len() == 0 {
            if self.has_current_device() {
                self.clear_selection();
                return Ok(LineOutcome::SelectionCleared);
            }
            return Ok(LineOutcome::Quit);
        }
        match self.execute(line) {
            Ok(a) => Ok(LineOutcome::Executed(a)),
            Err(e) => Err(e),
        }
    }
}

} // verus!
