//! Settings of the command line tool: authentication, aliases and the
//! alias updates asked for on the command line.
use crate::alias::AliasTable;
use crate::command_request::{find_char, first_pos, lemma_first_pos};
use crate::text::{slice_to_string, to_string};
use vstd::prelude::*;
use vstd::string::*;

verus! {

/// The settings, from the command line and the saved configuration.
#[derive(Debug, Default)]
pub struct Args {
    pub token: String,
    pub secret: String,
    /// Clear the saved authentication.
    pub clear: bool,
    /// `name=value` adds or replaces an alias, a bare `name` removes it.
    pub alias_updates: Vec<String>,
    /// The number of selected devices from which commands run in parallel.
    pub parallel_threshold: usize,
    pub aliases: AliasTable,
    /// Commands to run instead of the interactive loop.
    pub commands: Vec<String>,
    /// The version of the saved configuration.
    pub config_version: u8,
}

/// The aliases after the update `text`: `name=value` with a non-empty value
/// sets `name`, `name=` or a bare `name` removes it, and an empty text does
/// nothing. The first `=` ends the name.
pub open spec fn alias_update_spec(aliases: Map<Seq<char>, Seq<char>>, text: Seq<char>) -> Map<Seq<char>, Seq<char>> {
    let p = first_pos(text, '=');
    if text.len() == 0 {
        aliases
    } else if p < text.len() && p + 1 < text.len() {
        aliases.insert(text.subrange(0, p), text.subrange(p + 1, text.len() as int))
    } else {
        aliases.remove(text.subrange(0, p))
    }
}

/// The aliases after the updates `texts`, in order.
pub open spec fn alias_updates_spec(aliases: Map<Seq<char>, Seq<char>>, texts: Seq<String>) -> Map<Seq<char>, Seq<char>>
    decreases texts.len(),
{
    if texts.len() == 0 {
        aliases
    } else {
        alias_update_spec(alias_updates_spec(aliases, texts.drop_last()), texts.last()@)
    }
}

/// `aliases` with `name` for `value`, unless `name` is already an alias.
pub open spec fn with_default(aliases: Map<Seq<char>, Seq<char>>, name: Seq<char>, value: Seq<char>) -> Map<Seq<char>, Seq<char>> {
    if aliases.contains_key(name) {
        aliases
    } else {
        aliases.insert(name, value)
    }
}

/// The aliases that a configuration of `version` gains on its way to the
/// current version.
pub open spec fn defaults_spec(aliases: Map<Seq<char>, Seq<char>>, version: u8) -> Map<Seq<char>, Seq<char>> {
    let m1 = if version < 1 {
        aliases.insert("on"@, "turnOn"@).insert("off"@, "turnOff"@)
    } else {
        aliases
    };
    let m2 = if version < 2 {
        with_default(m1, "d"@, "devices"@)
    } else {
        m1
    };
    if version < 3 {
        with_default(m2, "h"@, "help"@)
    } else {
        m2
    }
}

/// Applies one alias update to `aliases`.
pub fn apply_alias_update(aliases: &mut AliasTable, text: &str)
    requires
        old(aliases).wf(),
    ensures
        final(aliases).wf(),
        final(aliases)@ == alias_update_spec(old(aliases)@, text@),
{
    let n = text.unicode_len();
    if n == 0 {
        return;
    }
    let p = find_char(text, '=');
    proof {
        lemma_first_pos(text@, '=');
    }
    if p < n && p + 1 < n {
        aliases.insert(slice_to_string(text, 0, p), slice_to_string(text, p + 1, n));
    } else {
        aliases.remove(text.substring_char(0, p));
    }
}

impl Args {
    /// Applies the alias updates, in order.
    pub fn update_aliases(&mut self)
        requires
            old(self).aliases.wf(),
        ensures
            final(self).aliases.wf(),
            final(self).aliases@ == alias_updates_spec(old(self).aliases@, old(self).alias_updates@),
            final(self).alias_updates@ == old(self).alias_updates@,
    {
        let ghost start = self.aliases@;
        let mut i: usize = 0;
        while i < self.alias_updates.len()
            invariant
                i <= self.alias_updates@.len(),
                self.aliases.wf(),
                self.alias_updates@ == old(self).alias_updates@,
                self.aliases@ == alias_updates_spec(start, self.alias_updates@.subrange(0, i as int)),
            decreases self.alias_updates@.len() - i,
        {
            let ghost next = self.alias_updates@.subrange(0, i + 1);
            assert(next.drop_last() =~= self.alias_updates@.subrange(0, i as int));
            apply_alias_update(&mut self.aliases, self.alias_updates[i].as_str());
            i = i + 1;
        }
        assert(self.alias_updates@.subrange(0, i as int) =~= self.alias_updates@);
    }

    /// Adds `name` for `command` unless `name` is already an alias.
    pub fn add_alias_if_missing(&mut self, name: &str, command: &str)
        requires
            old(self).aliases.wf(),
        ensures
            final(self).aliases.wf(),
            final(self).aliases@ == with_default(old(self).aliases@, name@, command@),
            final(self).config_version == old(self).config_version,
    {
        if !self.aliases.contains(name) {
            self.aliases.insert(to_string(name), to_string(command));
        }
    }

    /// Brings a configuration of an older version up to date: the default
    /// aliases of each later version are added.
    pub fn ensure_default(&mut self)
        requires
            old(self).aliases.wf(),
        ensures
            final(self).aliases.wf(),
            final(self).aliases@ == defaults_spec(old(self).aliases@, old(self).config_version),
            final(self).config_version == if old(self).config_version < 3 {
                3
            } else {
                old(self).config_version
            },
    {
        if self.config_version < 1 {
            self.aliases.insert(to_string("on"), to_string("turnOn"));
            self.aliases.insert(to_string("off"), to_string("turnOff"));
            self.config_version = 1;
        }
        if self.config_version < 2 {
            self.add_alias_if_missing("d", "devices");
            self.config_version = 2;
        }
        if self.config_version < 3 {
            self.add_alias_if_missing("h", "help");
            self.config_version = 3;
        }
    }

    /// Forgets the authentication.
    pub fn clear_auth(&mut self)
        ensures
            final(self).token@.len() == 0,
            final(self).secret@.len() == 0,
            final(self).aliases == old(self).aliases,
    {
        self.token = String::new();
        self.secret = String::new();
    }

    /// Takes from `other` the authentication this one lacks, and its aliases,
    /// which replace aliases of the same name.
    pub fn merge(&mut self, other: &Args)
        requires
            old(self).aliases.wf(),
            other.aliases.wf(),
        ensures
            final(self).aliases.wf(),
            final(self).token@ == if old(self).token@.len() == 0 {
                other.token@
            } else {
                old(self).token@
            },
            final(self).secret@ == if old(self).secret@.len() == 0 {
                other.secret@
            } else {
                old(self).secret@
            },
            final(self).aliases@ == old(self).aliases@.union_prefer_right(other.aliases@),
    {
        if self.token.as_str().unicode_len() == 0 {
            self.token = other.token.clone();
        }
        if self.secret.as_str().unicode_len() == 0 {
            self.secret = other.secret.clone();
        }
        let entries = other.aliases.entries();
        let ghost start = self.aliases@;
        let ghost token = self.token@;
        let ghost secret = self.secret@;
        let mut i: usize = 0;
        while i < entries.len()
            invariant
                i <= entries@.len() == other.aliases.count(),
                other.aliases.wf(),
                self.token@ == token,
                self.secret@ == secret,
                self.aliases.wf(),
                forall|j: int|
                    0 <= j < entries@.len() ==> other.aliases@.contains_key((#[trigger] entries@[j]).0@)
                        && other.aliases@[entries@[j].0@] == entries@[j].1@,
                forall|k: Seq<char>|
                    #[trigger] other.aliases@.contains_key(k) ==> exists|j: int|
                        0 <= j < entries@.len() && (#[trigger] entries@[j]).0@ == k,
                forall|k: Seq<char>|
                    #[trigger] self.aliases@.contains_key(k) <==> (start.contains_key(k) || exists|j: int|
                        0 <= j < i && (#[trigger] entries@[j]).0@ == k),
                forall|k: Seq<char>|
                    #[trigger] self.aliases@.contains_key(k) ==> self.aliases@[k] == if exists|j: int|
                        0 <= j < i && (#[trigger] entries@[j]).0@ == k {
                        other.aliases@[k]
                    } else {
                        start[k]
                    },
            decreases entries@.len() - i,
        {
            let (name, value) = (entries[i].0.clone(), entries[i].1.clone());
            self.aliases.insert(name, value);
            i = i + 1;
        }
        assert(self.aliases@ =~= start.union_prefer_right(other.aliases@));
    }
}

} // verus!
