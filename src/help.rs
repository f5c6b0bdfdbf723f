//! Help on the commands of each kind of device, read from the service's
//! Markdown documentation.
use crate::alias::AliasTable;
use crate::command_request::CommandRequest;
use crate::device::Device;
use crate::markdown::{columns_spec, Markdown};
use crate::text::{slice_to_string, split_fields, split_spec, str_eq, to_string, trim, trim_char, trim_char_spec, trim_spec};
use vstd::prelude::*;
use vstd::string::*;

verus! {

/// A command with its human-readable description.
#[derive(Clone, Debug)]
pub struct CommandHelp {
    command: CommandRequest,
    description: Markdown,
}

impl CommandHelp {
    pub closed spec fn request(&self) -> CommandRequest {
        self.command
    }

    pub closed spec fn text(&self) -> Markdown {
        self.description
    }

    pub fn new(command: CommandRequest, description: Markdown) -> (r: CommandHelp)
        ensures
            r.request() == command,
            r.text() == description,
    {
        CommandHelp { command, description }
    }

    /// A copy of this help.
    pub fn duplicate(&self) -> (r: CommandHelp)
        ensures
            r == *self,
    {
        CommandHelp { command: self.command.duplicate(), description: self.description.duplicate() }
    }

    /// This help with the backquotes around its command type removed.
    pub fn with_plain_command_type(&self) -> (r: CommandHelp)
        ensures
            type_trimmed(r, *self),
    {
        CommandHelp {
            command: CommandRequest {
                command: self.command.command.clone(),
                parameter: self.command.parameter.clone(),
                command_type: trim_char(self.command.command_type.as_str(), '`'),
            },
            description: self.description.duplicate(),
        }
    }

    /// The command; its fields may hold human-readable text rather than what
    /// the service takes.
    pub fn command(&self) -> (r: &CommandRequest)
        ensures
            *r == self.request(),
    {
        &self.command
    }

    /// The description of the command.
    pub fn description(&self) -> (r: &Markdown)
        ensures
            *r == self.text(),
    {
        &self.description
    }
}

/// `a` is `b` with the backquotes around its command type removed.
pub open spec fn type_trimmed(a: CommandHelp, b: CommandHelp) -> bool {
    &&& a.request().command@ == b.request().command@
    &&& a.request().parameter@ == b.request().parameter@
    &&& a.request().command_type@ == trim_char_spec(b.request().command_type@, '`')
    &&& a.text() == b.text()
}

/// Each of `a` is the one of `b` at its place with a plain command type.
pub open spec fn types_trimmed(a: Seq<CommandHelp>, b: Seq<CommandHelp>) -> bool {
    a.len() == b.len() && forall|i: int| 0 <= i < a.len() ==> type_trimmed(#[trigger] a[i], b[i])
}

/// `m` with `extra` added before (`front`) or after the helps of every entry.
pub open spec fn extend_entries(m: Map<Seq<char>, Seq<CommandHelp>>, extra: Seq<CommandHelp>, front: bool) -> Map<Seq<char>, Seq<CommandHelp>> {
    Map::new(
        |k: Seq<char>| m.contains_key(k),
        |k: Seq<char>| if front {
            extra + m[k]
        } else {
            m[k] + extra
        },
    )
}

/// Copies of `helps`, in order.
pub fn duplicate_all(helps: &Vec<CommandHelp>) -> (r: Vec<CommandHelp>)
    ensures
        r@ == helps@,
{
    let mut r: Vec<CommandHelp> = Vec::new();
    let mut i: usize = 0;
    while i < helps.len()
        invariant
            i <= helps@.len(),
            r@ == helps@.subrange(0, i as int),
        decreases helps@.len() - i,
    {
        r.push(helps[i].duplicate());
        i = i + 1;
        assert(r@ =~= helps@.subrange(0, i as int));
    }
    assert(r@ =~= helps@);
    r
}

/// Command helps by device type; no two entries share a type.
#[derive(Debug, Default)]
pub struct HelpTable {
    entries: Vec<(String, Vec<CommandHelp>)>,
}

impl View for HelpTable {
    type V = Map<Seq<char>, Seq<CommandHelp>>;

    closed spec fn view(&self) -> Map<Seq<char>, Seq<CommandHelp>> {
        Map::new(
            |name: Seq<char>| self.has_name(name),
            |name: Seq<char>|
                self.entries@[choose|i: int|
                    0 <= i < self.entries@.len() && (#[trigger] self.entries@[i]).0@ == name].1@,
        )
    }
}

impl HelpTable {
    pub closed spec fn wf(&self) -> bool {
        forall|i: int, j: int|
            0 <= i < self.entries@.len() && 0 <= j < self.entries@.len() && i != j
                ==> (#[trigger] self.entries@[i]).0@ != (#[trigger] self.entries@[j]).0@
    }

    pub closed spec fn has_name(&self, name: Seq<char>) -> bool {
        exists|i: int| 0 <= i < self.entries@.len() && (#[trigger] self.entries@[i]).0@ == name
    }

    pub fn new() -> (r: HelpTable)
        ensures
            r.wf(),
            r@ == Map::<Seq<char>, Seq<CommandHelp>>::empty(),
    {
        let r = HelpTable { entries: Vec::new() };
        assert(r@ =~= Map::<Seq<char>, Seq<CommandHelp>>::empty());
        r
    }

    proof fn lemma_lookup(&self, i: int)
        requires
            self.wf(),
            0 <= i < self.entries@.len(),
        ensures
            self@.contains_key(self.entries@[i].0@),
            self@[self.entries@[i].0@] == self.entries@[i].1@,
    {
        let name = self.entries@[i].0@;
        assert(self.has_name(name));
        let j = choose|j: int| 0 <= j < self.entries@.len() && (#[trigger] self.entries@[j]).0@ == name;
        assert(j == i);
    }

    fn index_of(&self, name: &str) -> (r: Option<usize>)
        requires
            self.wf(),
        ensures
            match r {
                Some(i) => i < self.entries@.len() && self.entries@[i as int].0@ == name@,
                None => !self@.contains_key(name@),
            },
    {
        let mut i: usize = 0;
        while i < self.entries.len()
            invariant
                i <= self.entries@.len(),
                forall|j: int| 0 <= j < i ==> (#[trigger] self.entries@[j]).0@ != name@,
            decreases self.entries@.len() - i,
        {
            if str_eq(self.entries[i].0.as_str(), name) {
                return Some(i);
            }
            i = i + 1;
        }
        None
    }

    /// The helps for `name`, if it has any entry.
    pub fn get(&self, name: &str) -> (r: Option<&Vec<CommandHelp>>)
        requires
            self.wf(),
        ensures
            match r {
                Some(v) => self@.contains_key(name@) && v@ == self@[name@],
                None => !self@.contains_key(name@),
            },
    {
        match self.index_of(name) {
            Some(i) => {
                proof {
                    self.lemma_lookup(i as int);
                }
                Some(&self.entries[i].1)
            },
            None => None,
        }
    }

    /// Takes out the entry for `name`.
    pub fn remove(&mut self, name: &str) -> (r: Option<Vec<CommandHelp>>)
        requires
            old(self).wf(),
        ensures
            final(self).wf(),
            final(self)@ == old(self)@.remove(name@),
            match r {
                Some(v) => old(self)@.contains_key(name@) && v@ == old(self)@[name@],
                None => !old(self)@.contains_key(name@),
            },
    {
        let ghost before = *self;
        match self.index_of(name) {
            Some(i) => {
                let (_, helps) = self.entries.remove(i);
                proof {
                    before.lemma_lookup(i as int);
                    let m = self.entries@.len() as int;
                    assert forall|j: int| 0 <= j < m implies #[trigger] self.entries@[j] == before.entries@[if j < i { j } else { j + 1 }] by {}
                    assert forall|k: Seq<char>| #[trigger] self@.contains_key(k) == before@.remove(name@).contains_key(k) by {
                        if self.has_name(k) {
                            let j = choose|j: int| 0 <= j < self.entries@.len() && (#[trigger] self.entries@[j]).0@ == k;
                            let j0 = if j < i { j } else { j + 1 };
                            assert(before.entries@[j0].0@ == k);
                        }
                        if before.has_name(k) && k != name@ {
                            let j = choose|j: int| 0 <= j < before.entries@.len() && (#[trigger] before.entries@[j]).0@ == k;
                            if j < i {
                                assert(self.entries@[j].0@ == k);
                            } else {
                                assert(self.entries@[j - 1].0@ == k);
                            }
                        }
                    }
                    assert forall|k: Seq<char>| #[trigger] self@.contains_key(k) implies self@[k] == before@[k] by {
                        let j = choose|j: int| 0 <= j < self.entries@.len() && (#[trigger] self.entries@[j]).0@ == k;
                        let j0 = if j < i { j } else { j + 1 };
                        self.lemma_lookup(j);
                        before.lemma_lookup(j0);
                    }
                    assert(self@ =~= before@.remove(name@));
                }
                Some(helps)
            },
            None => {
                assert(self@ =~= before@.remove(name@));
                None
            },
        }
    }

    /// Adds copies of `extra` before (`front`) or after the helps of every entry.
    pub fn extend_all(&mut self, extra: &Vec<CommandHelp>, front: bool)
        requires
            old(self).wf(),
        ensures
            final(self).wf(),
            final(self)@ == extend_entries(old(self)@, extra@, front),
    {
        let ghost before = *self;
        let mut entries: Vec<(String, Vec<CommandHelp>)> = Vec::new();
        let mut j: usize = 0;
        while j < self.entries.len()
            invariant
                *self == before,
                j <= self.entries@.len(),
                entries@.len() == j,
                forall|m: int| 0 <= m < j ==> (#[trigger] entries@[m]).0@ == self.entries@[m].0@
                    && entries@[m].1@ == if front {
                        extra@ + self.entries@[m].1@
                    } else {
                        self.entries@[m].1@ + extra@
                    },
            decreases self.entries@.len() - j,
        {
            let k = self.entries[j].0.clone();
            let mut v = duplicate_all(&self.entries[j].1);
            let mut e = duplicate_all(extra);
            let value = if front {
                e.append(&mut v);
                e
            } else {
                v.append(&mut e);
                v
            };
            entries.push((k, value));
            j = j + 1;
        }
        self.entries = entries;
        proof {
            assert forall|i: int, m: int|
                0 <= i < self.entries@.len() && 0 <= m < self.entries@.len() && i != m
                    implies (#[trigger] self.entries@[i]).0@ != (#[trigger] self.entries@[m]).0@ by {
                assert(before.entries@[i].0@ != before.entries@[m].0@);
            }
            assert forall|k: Seq<char>| #[trigger] self@.contains_key(k) == before@.contains_key(k) by {
                if self.has_name(k) {
                    let m = choose|m: int| 0 <= m < self.entries@.len() && (#[trigger] self.entries@[m]).0@ == k;
                    assert(before.entries@[m].0@ == k);
                }
                if before.has_name(k) {
                    let m = choose|m: int| 0 <= m < before.entries@.len() && (#[trigger] before.entries@[m]).0@ == k;
                    assert(self.entries@[m].0@ == k);
                }
            }
            assert forall|k: Seq<char>| #[trigger] self@.contains_key(k) implies self@[k] == extend_entries(before@, extra@, front)[k] by {
                let m = choose|m: int| 0 <= m < self.entries@.len() && (#[trigger] self.entries@[m]).0@ == k;
                self.lemma_lookup(m);
                before.lemma_lookup(m);
            }
            assert(self@ =~= extend_entries(before@, extra@, front));
        }
    }

    /// Adds `helps` after those that `name` has, or as a new entry.
    pub fn add(&mut self, name: String, helps: Vec<CommandHelp>)
        requires
            old(self).wf(),
        ensures
            final(self).wf(),
            final(self)@ == old(self)@.insert(
                name@,
                if old(self)@.contains_key(name@) {
                    old(self)@[name@] + helps@
                } else {
                    helps@
                },
            ),
    {
        let ghost before = *self;
        let ghost value = if before@.contains_key(name@) { before@[name@] + helps@ } else { helps@ };
        let mut helps = helps;
        match self.index_of(name.as_str()) {
            Some(i) => {
                proof {
                    before.lemma_lookup(i as int);
                }
                let mut v = duplicate_all(&self.entries[i].1);
                v.append(&mut helps);
                self.entries.set(i, (name, v));
                proof {
                    assert forall|j: int| 0 <= j < before.entries@.len() && j != i implies
                        #[trigger] self.entries@[j] == before.entries@[j] by {}
                    self.lemma_lookup(i as int);
                    assert forall|k: Seq<char>| #[trigger] self@.contains_key(k) == before@.insert(name@, value).contains_key(k) by {
                        if self.has_name(k) {
                            let j = choose|j: int| 0 <= j < self.entries@.len() && (#[trigger] self.entries@[j]).0@ == k;
                            if j != i {
                                assert(before.entries@[j].0@ == k);
                            }
                        }
                        if before.has_name(k) {
                            let j = choose|j: int| 0 <= j < before.entries@.len() && (#[trigger] before.entries@[j]).0@ == k;
                            if j != i {
                                assert(self.entries@[j].0@ == k);
                            }
                        }
                    }
                    assert forall|k: Seq<char>| #[trigger] self@.contains_key(k) && k != name@ implies self@[k] == before@[k] by {
                        let j = choose|j: int| 0 <= j < self.entries@.len() && (#[trigger] self.entries@[j]).0@ == k;
                        self.lemma_lookup(j);
                        before.lemma_lookup(j);
                    }
                    assert(self@ =~= before@.insert(name@, value));
                }
            },
            None => {
                self.entries.push((name, helps));
                proof {
                    let n = before.entries@.len() as int;
                    assert forall|j: int| 0 <= j < n implies #[trigger] self.entries@[j] == before.entries@[j] by {}
                    self.lemma_lookup(n);
                    assert forall|k: Seq<char>| #[trigger] self@.contains_key(k) == before@.insert(name@, value).contains_key(k) by {
                        if self.has_name(k) {
                            let j = choose|j: int| 0 <= j < self.entries@.len() && (#[trigger] self.entries@[j]).0@ == k;
                            if j != n {
                                assert(before.entries@[j].0@ == k);
                            }
                        }
                        if before.has_name(k) {
                            let j = choose|j: int| 0 <= j < before.entries@.len() && (#[trigger] before.entries@[j]).0@ == k;
                            assert(self.entries@[j].0@ == k);
                        }
                    }
                    assert forall|k: Seq<char>| #[trigger] self@.contains_key(k) && k != name@ implies self@[k] == before@[k] by {
                        let j = choose|j: int| 0 <= j < self.entries@.len() && (#[trigger] self.entries@[j]).0@ == k;
                        self.lemma_lookup(j);
                        before.lemma_lookup(j);
                    }
                    assert(self@ =~= before@.insert(name@, value));
                }
            },
        }
    }
}


/// Copies of `helps` with plain command types.
pub fn plain_command_types(helps: &Vec<CommandHelp>) -> (r: Vec<CommandHelp>)
    ensures
        types_trimmed(r@, helps@),
{
    let mut r: Vec<CommandHelp> = Vec::new();
    let mut i: usize = 0;
    while i < helps.len()
        invariant
            i <= helps@.len(),
            r@.len() == i,
            forall|m: int| 0 <= m < i ==> type_trimmed(#[trigger] r@[m], helps@[m]),
        decreases helps@.len() - i,
    {
        r.push(helps[i].with_plain_command_type());
        i = i + 1;
    }
    r
}

/// The helps for the device type `t`, directly or through the device name
/// that the type stands for.
pub open spec fn helps_for_type(
    commands: Map<Seq<char>, Seq<CommandHelp>>,
    names: Map<Seq<char>, Seq<char>>,
    t: Seq<char>,
) -> Option<Seq<CommandHelp>> {
    if commands.contains_key(t) {
        Some(commands[t])
    } else if names.contains_key(t) && commands.contains_key(names[t]) {
        Some(commands[names[t]])
    } else {
        None
    }
}

/// The helps for the remote type `t`, also without a `DIY ` prefix.
pub open spec fn helps_for_remote(ir: Map<Seq<char>, Seq<CommandHelp>>, t: Seq<char>) -> Option<Seq<CommandHelp>> {
    if ir.contains_key(t) {
        Some(ir[t])
    } else if t.len() >= 4 && t.subrange(0, 4) == "DIY "@ && ir.contains_key(t.subrange(4, t.len() as int)) {
        Some(ir[t.subrange(4, t.len() as int)])
    } else {
        None
    }
}

/// The remote commands once the generic groups are spread: those of `Others`
/// (`others`, with plain command types) go after every other type's, then
/// those of `All home appliance types except Others` before them.
pub open spec fn finalize_spec(ir: Map<Seq<char>, Seq<CommandHelp>>, others: Seq<CommandHelp>) -> Map<Seq<char>, Seq<CommandHelp>> {
    let ir1 = if ir.contains_key("Others"@) {
        extend_entries(ir.remove("Others"@), others, false)
    } else {
        ir
    };
    let all = "All home appliance types except Others"@;
    if ir1.contains_key(all) {
        extend_entries(ir1.remove(all), ir1[all], true)
    } else {
        ir1
    }
}

/// The command helps of every device type, read from the documentation.
#[derive(Debug, Default)]
pub struct Help {
    commands: HelpTable,
    commands_ir: HelpTable,
    device_name_by_type: AliasTable,
}

impl Help {
    pub closed spec fn wf(&self) -> bool {
        self.commands.wf() && self.commands_ir.wf() && self.device_name_by_type.wf()
    }

    /// The commands of devices, by device type or name.
    pub closed spec fn device_commands(&self) -> Map<Seq<char>, Seq<CommandHelp>> {
        self.commands@
    }

    /// The commands of infrared remote devices, by remote type.
    pub closed spec fn remote_commands(&self) -> Map<Seq<char>, Seq<CommandHelp>> {
        self.commands_ir@
    }

    /// The device name that each device type stands for.
    pub closed spec fn names(&self) -> Map<Seq<char>, Seq<char>> {
        self.device_name_by_type@
    }

    pub fn new() -> (r: Help)
        ensures
            r.wf(),
            r.device_commands() == Map::<Seq<char>, Seq<CommandHelp>>::empty(),
            r.remote_commands() == Map::<Seq<char>, Seq<CommandHelp>>::empty(),
            r.names() == Map::<Seq<char>, Seq<char>>::empty(),
    {
        Help { commands: HelpTable::new(), commands_ir: HelpTable::new(), device_name_by_type: AliasTable::new() }
    }

    /// The helps for a device type.
    pub fn command_helps_by_device_type(&self, device_type: &str) -> (r: Option<&Vec<CommandHelp>>)
        requires
            self.wf(),
        ensures
            match r {
                Some(v) => helps_for_type(self.device_commands(), self.names(), device_type@) == Some(v@),
                None => helps_for_type(self.device_commands(), self.names(), device_type@) is None,
            },
    {
        if let Some(helps) = self.commands.get(device_type) {
            return Some(helps);
        }
        if let Some(name) = self.device_name_by_type.get(device_type) {
            if let Some(helps) = self.commands.get(name.as_str()) {
                return Some(helps);
            }
        }
        None
    }

    /// The helps for a remote type.
    pub fn command_helps_by_remote_type(&self, remote_type: &str) -> (r: Option<&Vec<CommandHelp>>)
        requires
            self.wf(),
        ensures
            match r {
                Some(v) => helps_for_remote(self.remote_commands(), remote_type@) == Some(v@),
                None => helps_for_remote(self.remote_commands(), remote_type@) is None,
            },
    {
        if let Some(helps) = self.commands_ir.get(remote_type) {
            return Some(helps);
        }
        let n = remote_type.unicode_len();
        if n >= 4 && str_eq(remote_type.substring_char(0, 4), "DIY ") {
            if let Some(helps) = self.commands_ir.get(remote_type.substring_char(4, n)) {
                return Some(helps);
            }
        }
        None
    }

    /// The helps for `device`: by its remote type for a remote device, else
    /// by its device type.
    pub fn command_helps(&self, device: &Device) -> (r: Option<&Vec<CommandHelp>>)
        requires
            self.wf(),
        ensures
            match r {
                Some(v) => Some(v@) == if device.remote_kind().len() > 0 {
                    helps_for_remote(self.remote_commands(), device.remote_kind())
                } else {
                    helps_for_type(self.device_commands(), self.names(), device.kind())
                },
                None => (if device.remote_kind().len() > 0 {
                    helps_for_remote(self.remote_commands(), device.remote_kind())
                } else {
                    helps_for_type(self.device_commands(), self.names(), device.kind())
                }) is None,
            },
    {
        if device.is_remote() {
            return self.command_helps_by_remote_type(device.remote_type());
        }
        self.command_helps_by_device_type(device.device_type())
    }

    /// Spreads the generic remote groups over the remote types.
    pub fn finalize(&mut self)
        requires
            old(self).wf(),
        ensures
            final(self).wf(),
            final(self).device_commands() == old(self).device_commands(),
            final(self).names() == old(self).names(),
            exists|others: Seq<CommandHelp>|
                (old(self).remote_commands().contains_key("Others"@) ==> types_trimmed(
                    others,
                    old(self).remote_commands()["Others"@],
                )) && final(self).remote_commands() == finalize_spec(old(self).remote_commands(), others),
    {
        proof {
            reveal_strlit("Others");
            reveal_strlit("All home appliance types except Others");
        }
        let ghost ir = self.commands_ir@;
        let mut others_plain: Vec<CommandHelp> = Vec::new();
        if let Some(others) = self.commands_ir.remove("Others") {
            others_plain = plain_command_types(&others);
            assert(types_trimmed(others_plain@, ir["Others"@]));
            self.commands_ir.extend_all(&others_plain, false);
        }
        assert(ir.contains_key("Others"@) ==> types_trimmed(others_plain@, ir["Others"@]));
        let ghost ir1 = self.commands_ir@;
        if let Some(all) = self.commands_ir.remove("All home appliance types except Others") {
            self.commands_ir.extend_all(&all, true);
        }
        assert(self.commands_ir@ == finalize_spec(ir, others_plain@));
        assert((old(self).remote_commands().contains_key("Others"@) ==> types_trimmed(
            others_plain@,
            old(self).remote_commands()["Others"@],
        )) && self.remote_commands() == finalize_spec(old(self).remote_commands(), others_plain@));
    }
}

/// The part of the documentation being read.
#[derive(Clone, Copy, Debug, Default, PartialEq, Eq, Structural)]
pub enum Section {
    #[default]
    Initial,
    Devices,
    Status,
    Commands,
    CommandsIR,
    Scenes,
}

/// The section that the heading `line` starts, if it starts one.
pub open spec fn section_of(line: Seq<char>) -> Option<Section> {
    if line == "## Devices"@ {
        Some(Section::Devices)
    } else if line == "### Get device status"@ {
        Some(Section::Status)
    } else if line == "### Send device control commands"@ {
        Some(Section::Commands)
    } else if line == "#### Command set for virtual infrared remote devices"@ {
        Some(Section::CommandsIR)
    } else if line == "## Scenes"@ {
        Some(Section::Scenes)
    } else {
        None
    }
}

impl Section {
    /// Moves to the section that the heading `line` starts; returns whether it
    /// starts one.
    pub fn update(&mut self, line: &str) -> (r: bool)
        ensures
            r == section_of(line@) is Some,
            r ==> *final(self) == section_of(line@)->0,
            !r ==> *final(self) == *old(self),
    {
        let next = if str_eq(line, "## Devices") {
            Some(Section::Devices)
        } else if str_eq(line, "### Get device status") {
            Some(Section::Status)
        } else if str_eq(line, "### Send device control commands") {
            Some(Section::Commands)
        } else if str_eq(line, "#### Command set for virtual infrared remote devices") {
            Some(Section::CommandsIR)
        } else if str_eq(line, "## Scenes") {
            Some(Section::Scenes)
        } else {
            None
        };
        match next {
            Some(s) => {
                *self = s;
                true
            },
            None => false,
        }
    }
}

/// Reads the documentation line by line into a [`Help`].
#[derive(Debug, Default)]
pub struct HelpLoader {
    help: Help,
    section: Section,
    device_name: String,
    in_command_table: bool,
    command_device_type: String,
    command_helps: Vec<CommandHelp>,
}

/// `line` starts with `prefix`.
pub open spec fn starts_with(line: Seq<char>, prefix: Seq<char>) -> bool {
    line.len() >= prefix.len() && line.subrange(0, prefix.len() as int) == prefix
}

/// Whether `s` starts with `prefix`.
fn has_prefix(s: &str, prefix: &str) -> (r: bool)
    ensures
        r == starts_with(s@, prefix@),
{
    let n = s.unicode_len();
    let m = prefix.unicode_len();
    if n < m {
        return false;
    }
    str_eq(s.substring_char(0, m), prefix)
}

impl HelpLoader {
    pub closed spec fn wf(&self) -> bool {
        self.help.wf()
    }

    pub closed spec fn current_section(&self) -> Section {
        self.section
    }

    pub closed spec fn current_device_name(&self) -> Seq<char> {
        self.device_name@
    }

    pub closed spec fn in_table(&self) -> bool {
        self.in_command_table
    }

    /// The device type whose command rows are being gathered.
    pub closed spec fn pending_type(&self) -> Seq<char> {
        self.command_device_type@
    }

    /// The command rows gathered for the pending type.
    pub closed spec fn pending(&self) -> Seq<CommandHelp> {
        self.command_helps@
    }

    pub closed spec fn loaded(&self) -> Help {
        self.help
    }

    pub fn new() -> (r: HelpLoader)
        ensures
            r.wf(),
            r.current_section() == Section::Initial,
            r.pending().len() == 0,
            r.pending_type().len() == 0,
            !r.in_table(),
    {
        HelpLoader {
            help: Help::new(),
            section: Section::Initial,
            device_name: String::new(),
            in_command_table: false,
            command_device_type: String::new(),
            command_helps: Vec::new(),
        }
    }

    /// The help read so far.
    pub fn help(&self) -> (r: &Help)
        ensures
            *r == self.loaded(),
    {
        &self.help
    }

    /// Takes the help read so far.
    pub fn into_help(self) -> (r: Help)
        ensures
            r == self.loaded(),
    {
        self.help
    }

    /// A heading `##### name` names the device whose part follows.
    pub fn update_device_type(&mut self, line: &str) -> (r: bool)
        ensures
            r == starts_with(line@, "##### "@),
            r ==> final(self).current_device_name() == trim_spec(line@.subrange(6, line@.len() as int)),
            !r ==> final(self).current_device_name() == old(self).current_device_name(),
            final(self).loaded() == old(self).loaded(),
            final(self).current_section() == old(self).current_section(),
            final(self).in_table() == old(self).in_table(),
            final(self).pending_type() == old(self).pending_type(),
            final(self).pending() == old(self).pending(),
    {
        proof {
            reveal_strlit("##### ");
        }
        if has_prefix(line, "##### ") {
            let n = line.unicode_len();
            self.device_name = trim(line.substring_char(6, n));
            return true;
        }
        false
    }

    /// Records that the device type `device_type` stands for the current
    /// device name, unless they are the same.
    pub fn add_device_alias(&mut self, device_type: &str)
        requires
            old(self).wf(),
        ensures
            final(self).wf(),
            final(self).loaded().names() == if old(self).current_device_name() == device_type@ {
                old(self).loaded().names()
            } else {
                old(self).loaded().names().insert(device_type@, old(self).current_device_name())
            },
            final(self).loaded().device_commands() == old(self).loaded().device_commands(),
            final(self).loaded().remote_commands() == old(self).loaded().remote_commands(),
            final(self).current_device_name() == old(self).current_device_name(),
            final(self).current_section() == old(self).current_section(),
            final(self).in_table() == old(self).in_table(),
            final(self).pending_type() == old(self).pending_type(),
            final(self).pending() == old(self).pending(),
    {
        if str_eq(self.device_name.as_str(), device_type) {
            return;
        }
        self.help.device_name_by_type.insert(to_string(device_type), self.device_name.clone());
    }

    /// Files `helps` under `name` in the commands of the current section; the
    /// documentation names the commands of the Lock Pro `Lock`.
    pub fn add_command_help(&mut self, name: String, helps: Vec<CommandHelp>)
        requires
            old(self).wf(),
            old(self).current_section() == Section::Commands || old(self).current_section() == Section::CommandsIR,
        ensures
            final(self).wf(),
            ({
                let key = if name@ == "Lock"@ && old(self).current_device_name() == "Lock Pro"@ {
                    "Lock Pro"@
                } else {
                    name@
                };
                if old(self).current_section() == Section::Commands {
                    final(self).loaded().device_commands() == old(self).loaded().device_commands().insert(
                        key,
                        if old(self).loaded().device_commands().contains_key(key) {
                            old(self).loaded().device_commands()[key] + helps@
                        } else {
                            helps@
                        },
                    ) && final(self).loaded().remote_commands() == old(self).loaded().remote_commands()
                } else {
                    final(self).loaded().remote_commands() == old(self).loaded().remote_commands().insert(
                        key,
                        if old(self).loaded().remote_commands().contains_key(key) {
                            old(self).loaded().remote_commands()[key] + helps@
                        } else {
                            helps@
                        },
                    ) && final(self).loaded().device_commands() == old(self).loaded().device_commands()
                }
            }),
            final(self).loaded().names() == old(self).loaded().names(),
            final(self).current_device_name() == old(self).current_device_name(),
            final(self).current_section() == old(self).current_section(),
            final(self).in_table() == old(self).in_table(),
            final(self).pending_type() == old(self).pending_type(),
            final(self).pending() == old(self).pending(),
    {
        proof {
            reveal_strlit("Lock");
            reveal_strlit("Lock Pro");
        }
        let name = if str_eq(name.as_str(), "Lock") && str_eq(self.device_name.as_str(), "Lock Pro") {
            to_string("Lock Pro")
        } else {
            name
        };
        if self.section == Section::Commands {
            self.help.commands.add(name, helps);
        } else {
            self.help.commands_ir.add(name, helps);
        }
    }
}

/// `m` with `helps` added after those of `key`, or as a new entry.
pub open spec fn add_spec(m: Map<Seq<char>, Seq<CommandHelp>>, key: Seq<char>, helps: Seq<CommandHelp>) -> Map<Seq<char>, Seq<CommandHelp>> {
    m.insert(key, if m.contains_key(key) { m[key] + helps } else { helps })
}

/// The key that commands of the type `name` are filed under while reading
/// the part of the device `device_name`.
pub open spec fn file_key(name: Seq<char>, device_name: Seq<char>) -> Seq<char> {
    if name == "Lock"@ && device_name == "Lock Pro"@ {
        "Lock Pro"@
    } else {
        name
    }
}

/// `m` with `helps` filed under each of `names`, trimmed, in order.
pub open spec fn add_each_spec(
    m: Map<Seq<char>, Seq<CommandHelp>>,
    names: Seq<Seq<char>>,
    helps: Seq<CommandHelp>,
    device_name: Seq<char>,
) -> Map<Seq<char>, Seq<CommandHelp>>
    decreases names.len(),
{
    if names.len() == 0 {
        m
    } else {
        add_spec(
            add_each_spec(m, names.drop_last(), helps, device_name),
            file_key(trim_spec(names.last()), device_name),
            helps,
        )
    }
}

impl HelpLoader {
    /// Files the gathered command rows under the pending type, and forgets
    /// both. A remote type `a, b` files them under each of `a` and `b`.
    pub fn flush_command_help(&mut self)
        requires
            old(self).wf(),
            old(self).current_section() == Section::Commands || old(self).current_section() == Section::CommandsIR,
        ensures
            final(self).wf(),
            final(self).current_device_name() == old(self).current_device_name(),
            final(self).current_section() == old(self).current_section(),
            final(self).in_table() == old(self).in_table(),
            final(self).loaded().names() == old(self).loaded().names(),
            old(self).pending_type().len() == 0 || old(self).pending().len() == 0 ==> *final(self) == *old(self),
            old(self).pending_type().len() > 0 && old(self).pending().len() > 0 ==> ({
                let names = split_spec(old(self).pending_type(), ',');
                let dn = old(self).current_device_name();
                &&& final(self).pending_type().len() == 0
                &&& final(self).pending().len() == 0
                &&& if old(self).current_section() == Section::Commands {
                    final(self).loaded().device_commands() == add_spec(
                        old(self).loaded().device_commands(),
                        file_key(old(self).pending_type(), dn),
                        old(self).pending(),
                    ) && final(self).loaded().remote_commands() == old(self).loaded().remote_commands()
                } else if names.len() > 1 {
                    final(self).loaded().remote_commands() == add_each_spec(
                        old(self).loaded().remote_commands(),
                        names,
                        old(self).pending(),
                        dn,
                    ) && final(self).loaded().device_commands() == old(self).loaded().device_commands()
                } else {
                    final(self).loaded().remote_commands() == add_spec(
                        old(self).loaded().remote_commands(),
                        file_key(old(self).pending_type(), dn),
                        old(self).pending(),
                    ) && final(self).loaded().device_commands() == old(self).loaded().device_commands()
                }
            }),
    {
        if self.command_device_type.as_str().unicode_len() == 0 || self.command_helps.len() == 0 {
            return;
        }
        let mut name = String::new();
        std::mem::swap(&mut name, &mut self.command_device_type);
        let mut helps: Vec<CommandHelp> = Vec::new();
        std::mem::swap(&mut helps, &mut self.command_helps);
        if self.section == Section::CommandsIR {
            let names = split_fields(name.as_str(), ',', false);
            if names.len() > 1 {
                let ghost start = self.help.commands_ir@;
                let ghost ns = names@.map_values(|f: String| f@);
                let mut i: usize = 0;
                while i < names.len()
                    invariant
                        i <= names@.len(),
                        ns == names@.map_values(|f: String| f@),
                        self.wf(),
                        self.section == Section::CommandsIR,
                        self.device_name@ == old(self).device_name@,
                        self.in_command_table == old(self).in_command_table,
                        self.command_device_type@.len() == 0,
                        self.command_helps@.len() == 0,
                        self.help.device_name_by_type@ == old(self).help.device_name_by_type@,
                        self.help.commands@ == old(self).help.commands@,
                        self.help.commands_ir@ == add_each_spec(start, ns.subrange(0, i as int), helps@, self.device_name@),
                    decreases names@.len() - i,
                {
                    assert(ns.subrange(0, i + 1).drop_last() =~= ns.subrange(0, i as int));
                    let key = trim(names[i].as_str());
                    let copies = duplicate_all(&helps);
                    self.add_command_help(key, copies);
                    i = i + 1;
                }
                assert(ns.subrange(0, i as int) =~= ns);
                return;
            }
        }
        self.add_command_help(name, helps);
    }
}

/// The row `columns` of a command table as a help: type, command,
/// parameter and description in its second to fifth columns.
pub open spec fn row_help(h: CommandHelp, columns: Seq<Seq<char>>) -> bool {
    &&& h.request().command_type@ == columns[1]
    &&& h.request().command@ == columns[2]
    &&& h.request().parameter@ == columns[3]
    &&& h.text().text() == columns[4]
}

impl HelpLoader {
    /// `line` is read in a part on commands, and is neither a section heading
    /// nor a device heading.
    pub open spec fn is_commands_line(&self, line: Seq<char>) -> bool {
        &&& (self.current_section() == Section::Commands || self.current_section() == Section::CommandsIR)
        &&& section_of(line) is None
        &&& !starts_with(line, "##### "@)
    }

    /// Reads one line of the documentation, with its white space trimmed.
    ///
    /// Headings move between sections. In the part on devices, `##### name`
    /// names the device, and a `deviceType` row with an emphasized type
    /// records the type for the device name. In the parts on commands, a
    /// `deviceType` header row starts a table of five columns; each later row
    /// (but a `-` ruler) is a command of the type in its first column, or of
    /// the last type where that is empty; a line that is no row ends the table
    /// and files the gathered commands.
    pub fn read_line(&mut self, line: &str)
        requires
            old(self).wf(),
        ensures
            final(self).wf(),
            section_of(line@) is Some ==> final(self).current_section() == section_of(line@)->0
                && final(self).loaded() == old(self).loaded()
                && final(self).current_device_name() == old(self).current_device_name()
                && final(self).in_table() == old(self).in_table()
                && final(self).pending() == old(self).pending(),
            section_of(line@) is None ==> final(self).current_section() == old(self).current_section(),
            section_of(line@) is None && !(old(self).current_section() == Section::Devices
                || old(self).current_section() == Section::Commands
                || old(self).current_section() == Section::CommandsIR) ==> *final(self) == *old(self),
            section_of(line@) is None && starts_with(line@, "##### "@) && (old(self).current_section() == Section::Devices
                || old(self).current_section() == Section::Commands
                || old(self).current_section() == Section::CommandsIR) ==> final(self).current_device_name()
                == trim_spec(line@.subrange(6, line@.len() as int)) && final(self).loaded() == old(self).loaded()
                && final(self).in_table() == old(self).in_table() && final(self).pending() == old(self).pending(),
            section_of(line@) is None && !starts_with(line@, "##### "@) ==> final(self).current_device_name()
                == old(self).current_device_name(),
            old(self).current_section() == Section::Devices && section_of(line@) is None && !starts_with(line@, "##### "@)
                ==> final(self).loaded().device_commands() == old(self).loaded().device_commands()
                && final(self).loaded().remote_commands() == old(self).loaded().remote_commands()
                && (final(self).loaded().names() == old(self).loaded().names() || exists|t: Seq<char>, p: int, q: int|
                    columns_spec(line@) is Some && columns_spec(line@)->0.len() >= 3
                    && columns_spec(line@)->0[0] == "deviceType"@
                    && crate::markdown::is_em_at(columns_spec(line@)->0[2], p, q)
                    && crate::markdown::none_before(columns_spec(line@)->0[2], p)
                    && t == columns_spec(line@)->0[2].subrange(p + 1, q)
                    && final(self).loaded().names() == old(self).loaded().names().insert(t, old(self).current_device_name())),
            old(self).is_commands_line(line@) ==> final(self).loaded().names() == old(self).loaded().names(),
            old(self).is_commands_line(line@) && columns_spec(line@) is None ==> !final(self).in_table(),
            old(self).is_commands_line(line@) && columns_spec(line@) is Some && !old(self).in_table() ==> final(self).in_table() == (columns_spec(line@)->0.len() == 5 && columns_spec(line@)->0[0] == "deviceType"@)
                && final(self).loaded() == old(self).loaded() && final(self).pending() == old(self).pending()
                && final(self).pending_type() == old(self).pending_type(),
            old(self).is_commands_line(line@) && columns_spec(line@) is Some && old(self).in_table() ==> final(self).in_table(),
            old(self).is_commands_line(line@) && old(self).in_table() && columns_spec(line@) is Some
                && columns_spec(line@)->0.len() >= 5 && columns_spec(line@)->0[0].len() == 0
                && old(self).pending_type().len() > 0 ==> final(self).pending_type() == old(self).pending_type()
                && final(self).loaded() == old(self).loaded() && final(self).pending().len() == old(self).pending().len() + 1 && final(self).pending().drop_last() == old(self).pending() && row_help(
                final(self).pending().last(),
                columns_spec(line@)->0,
            ),
            old(self).is_commands_line(line@) && old(self).in_table() && columns_spec(line@) is Some
                && columns_spec(line@)->0.len() >= 5 && columns_spec(line@)->0[0].len() > 0
                && columns_spec(line@)->0[0][0] != '-' ==> final(self).pending_type() == columns_spec(line@)->0[0]
                && final(self).pending().len() >= 1 && row_help(final(self).pending().last(), columns_spec(line@)->0),
    {
        if self.section.update(line) {
            return;
        }
        proof {
            reveal_strlit("deviceType");
            reveal_strlit("-");
        }
        match self.section {
            Section::Devices => {
                if self.update_device_type(line) {
                    return;
                }
                if self.device_name.as_str().unicode_len() > 0 {
                    if let Some(columns) = Markdown::table_columns(line) {
                        let ghost cols = columns@.map_values(|f: String| f@);
                        if columns.len() >= 3 && str_eq(columns[0].as_str(), "deviceType") {
                            assert(cols[0] == columns@[0]@ && cols[2] == columns@[2]@);
                            if let Some(device_type) = Markdown::em(columns[2].as_str()) {
                                let ghost before = self.help.device_name_by_type@;
                                let ghost dn = self.device_name@;
                                self.add_device_alias(device_type.as_str());
                                proof {
                                    let c2 = cols[2];
                                    let (p, q) = choose|p: int, q: int|
                                        crate::markdown::is_em_at(c2, p, q) && crate::markdown::none_before(c2, p)
                                            && device_type@ == c2.subrange(p + 1, q);
                                    if dn != device_type@ {
                                        assert(self.help.device_name_by_type@ == before.insert(device_type@, dn));
                                        assert(crate::markdown::is_em_at(columns_spec(line@)->0[2], p, q));
                                    }
                                }
                            }
                        }
                    }
                }
            },
            Section::Commands | Section::CommandsIR => {
                if self.update_device_type(line) {
                    return;
                }
                match Markdown::table_columns(line) {
                    Some(columns) => {
                        let ghost cols = columns@.map_values(|f: String| f@);
                        proof {
                            if cols.len() >= 5 && starts_with(cols[0], "-"@) {
                                assert("-"@ =~= seq!['-']);
                                assert(cols[0].subrange(0, 1)[0] == cols[0][0]);
                            }
                        }
                        if !self.in_command_table {
                            if columns.len() == 5 && str_eq(columns[0].as_str(), "deviceType") {
                                self.in_command_table = true;
                            }
                            assert(cols.len() == 5 ==> cols[0] == columns@[0]@);
                        } else if columns.len() >= 5 && !has_prefix(columns[0].as_str(), "-") {
                            assert("-"@ =~= seq!['-']);
                            assert(cols[0].len() > 0 ==> cols[0].subrange(0, 1)[0] == cols[0][0]);
                            assert(cols[0] == columns@[0]@ && cols[1] == columns@[1]@ && cols[2] == columns@[2]@
                                && cols[3] == columns@[3]@ && cols[4] == columns@[4]@);
                            let first = columns[0].as_str();
                            if first.unicode_len() > 0 && !str_eq(self.command_device_type.as_str(), first) {
                                self.flush_command_help();
                                self.command_device_type = to_string(first);
                            }
                            if self.command_device_type.as_str().unicode_len() > 0 {
                                let help = CommandHelp {
                                    command: CommandRequest {
                                        command: columns[2].clone(),
                                        parameter: columns[3].clone(),
                                        command_type: columns[1].clone(),
                                    },
                                    description: Markdown::new(columns[4].as_str()),
                                };
                                let ghost before = self.command_helps@;
                                self.command_helps.push(help);
                                assert(self.command_helps@.drop_last() =~= before);
                            }
                        }
                    },
                    None => {
                        self.flush_command_help();
                        self.in_command_table = false;
                    },
                }
            },
            _ => {},
        }
    }

    /// Reads every line, each with its white space trimmed.
    pub fn read_lines(&mut self, lines: &Vec<String>)
        requires
            old(self).wf(),
        ensures
            final(self).wf(),
    {
        let mut i: usize = 0;
        while i < lines.len()
            invariant
                self.wf(),
                i <= lines@.len(),
            decreases lines@.len() - i,
        {
            let line = trim(lines[i].as_str());
            self.read_line(line.as_str());
            i = i + 1;
        }
    }
}

} // verus!
