//! Command identity: the canonical name, its aliases, and accepted switches.

use vstd::prelude::*;
use crate::slug::{bad_slug_message, bad_slug_text};
use super::token::{first_invalid_token_char, first_invalid_spec, valid_token};

verus! {

/// A canonical or alias command name such as `look` or `north`, in the
/// lowercase token alphabet.
#[derive(Debug, Clone, PartialEq, Eq, PartialOrd, Ord, Hash)]
pub struct CommandName(String);

impl View for CommandName {
    type V = Seq<char>;

    closed spec fn view(&self) -> Seq<char> {
        self.0@
    }
}

/// A failure parsing a [`CommandName`].
#[derive(Debug, Clone, Copy, PartialEq, Eq, Structural)]
#[non_exhaustive]
pub enum CommandNameError {
    /// The token was empty.
    Empty,
    /// The token holds a character outside `[a-z0-9_-]`; the first such one.
    InvalidCharacter(char),
}

impl CommandNameError {
    /// The human-readable message for this error.
    pub fn message(&self) -> (r: String)
        ensures
            r@ == (match *self {
                CommandNameError::Empty => "command name must not be empty"@,
                CommandNameError::InvalidCharacter(c) => bad_slug_message("command name"@, c),
            }),
    {
        match *self {
            CommandNameError::Empty => "command name must not be empty".to_owned(),
            CommandNameError::InvalidCharacter(c) => bad_slug_text("command name", c),
        }
    }
}

/// The result of parsing `s` as a command name, over plain values.
pub open spec fn name_parse_spec(s: Seq<char>) -> Result<Seq<char>, CommandNameError> {
    if s.len() == 0 {
        Err(CommandNameError::Empty)
    } else {
        match first_invalid_spec(s) {
            Some(c) => Err(CommandNameError::InvalidCharacter(c)),
            None => Ok(s),
        }
    }
}

/// The plain-value forms of a list of command names.
pub open spec fn names_view(v: Seq<CommandName>) -> Seq<Seq<char>> {
    v.map_values(|n: CommandName| n@)
}

impl CommandName {
    /// Parses a raw token into a `CommandName`: it must be non-empty and drawn
    /// from the lowercase alphabet `[a-z0-9_-]`.
    pub fn parse(value: &str) -> (r: Result<Self, CommandNameError>)
        ensures
            r is Ok <==> valid_token(value@),
            match (r, name_parse_spec(value@)) {
                (Ok(n), Ok(v)) => n@ == v,
                (Err(e), Err(f)) => e == f,
                _ => false,
            },
    {
        if value.is_empty() {
            return Err(CommandNameError::Empty);
        }
        if let Some(bad) = first_invalid_token_char(value) {
            return Err(CommandNameError::InvalidCharacter(bad));
        }
        Ok(CommandName(value.to_owned()))
    }

    /// The name text.
    pub fn as_str(&self) -> (r: &str)
        ensures
            r@ == self@,
    {
        self.0.as_str()
    }

    /// The text, as an owned string.
    pub fn to_string(&self) -> (r: String)
        ensures
            r@ == self@,
    {
        self.0.clone()
    }

    /// A copy of this name.
    pub fn duplicate(&self) -> (r: Self)
        ensures
            r@ == self@,
    {
        CommandName(self.0.clone())
    }
}

/// A command switch such as the `quiet` in `look/quiet`.
#[derive(Debug, Clone, PartialEq, Eq, Hash)]
pub struct Switch(String);

impl View for Switch {
    type V = Seq<char>;

    closed spec fn view(&self) -> Seq<char> {
        self.0@
    }
}

/// A failure parsing a [`Switch`].
#[derive(Debug, Clone, Copy, PartialEq, Eq, Structural)]
#[non_exhaustive]
pub enum SwitchError {
    /// The token was empty.
    Empty,
    /// The token holds a character outside `[a-z0-9_-]`; the first such one.
    InvalidCharacter(char),
}

impl SwitchError {
    /// The human-readable message for this error.
    pub fn message(&self) -> (r: String)
        ensures
            r@ == (match *self {
                SwitchError::Empty => "switch must not be empty"@,
                SwitchError::InvalidCharacter(c) => bad_slug_message("switch"@, c),
            }),
    {
        match *self {
            SwitchError::Empty => "switch must not be empty".to_owned(),
            SwitchError::InvalidCharacter(c) => bad_slug_text("switch", c),
        }
    }
}

/// The result of parsing `s` as a switch, over plain values.
pub open spec fn switch_parse_spec(s: Seq<char>) -> Result<Seq<char>, SwitchError> {
    if s.len() == 0 {
        Err(SwitchError::Empty)
    } else {
        match first_invalid_spec(s) {
            Some(c) => Err(SwitchError::InvalidCharacter(c)),
            None => Ok(s),
        }
    }
}

/// The plain-value forms of a list of switches.
pub open spec fn switches_view(v: Seq<Switch>) -> Seq<Seq<char>> {
    v.map_values(|s: Switch| s@)
}

impl Switch {
    /// Parses a raw token into a `Switch`: it must be non-empty and drawn from
    /// the lowercase alphabet `[a-z0-9_-]`.
    pub fn parse(value: &str) -> (r: Result<Self, SwitchError>)
        ensures
            r is Ok <==> valid_token(value@),
            match (r, switch_parse_spec(value@)) {
                (Ok(s), Ok(v)) => s@ == v,
                (Err(e), Err(f)) => e == f,
                _ => false,
            },
    {
        if value.is_empty() {
            return Err(SwitchError::Empty);
        }
        if let Some(bad) = first_invalid_token_char(value) {
            return Err(SwitchError::InvalidCharacter(bad));
        }
        Ok(Switch(value.to_owned()))
    }

    /// The switch text.
    pub fn as_str(&self) -> (r: &str)
        ensures
            r@ == self@,
    {
        self.0.as_str()
    }

    /// The text, as an owned string.
    pub fn to_string(&self) -> (r: String)
        ensures
            r@ == self@,
    {
        self.0.clone()
    }

    /// A copy of this switch.
    pub fn duplicate(&self) -> (r: Self)
        ensures
            r@ == self@,
    {
        Switch(self.0.clone())
    }
}

/// A command definition: the metadata the parser and merge need.
#[derive(Debug, Clone, PartialEq, Eq)]
pub struct Command {
    name: CommandName,
    aliases: Vec<CommandName>,
    switches: Vec<Switch>,
}

/// A command over plain values.
pub struct CommandModel {
    pub name: Seq<char>,
    pub aliases: Seq<Seq<char>>,
    pub switches: Seq<Seq<char>>,
}

impl View for Command {
    type V = CommandModel;

    closed spec fn view(&self) -> CommandModel {
        CommandModel {
            name: self.name@,
            aliases: names_view(self.aliases@),
            switches: switches_view(self.switches@),
        }
    }
}

/// Every name a command answers to: the canonical name first, then each alias.
pub open spec fn all_names_spec(c: CommandModel) -> Seq<Seq<char>> {
    seq![c.name] + c.aliases
}

fn copy_names(v: &Vec<CommandName>) -> (r: Vec<CommandName>)
    ensures
        names_view(r@) == names_view(v@),
{
    let mut out: Vec<CommandName> = Vec::new();
    let mut i: usize = 0;
    while i < v.len()
        invariant
            i <= v@.len(),
            out@.len() == i,
            forall|k: int| 0 <= k < i ==> (#[trigger] out@[k])@ == v@[k]@,
        decreases v@.len() - i,
    {
        out.push(v[i].duplicate());
        i = i + 1;
    }
    assert(names_view(out@) =~= names_view(v@));
    out
}

fn copy_switches(v: &Vec<Switch>) -> (r: Vec<Switch>)
    ensures
        switches_view(r@) == switches_view(v@),
{
    let mut out: Vec<Switch> = Vec::new();
    let mut i: usize = 0;
    while i < v.len()
        invariant
            i <= v@.len(),
            out@.len() == i,
            forall|k: int| 0 <= k < i ==> (#[trigger] out@[k])@ == v@[k]@,
        decreases v@.len() - i,
    {
        out.push(v[i].duplicate());
        i = i + 1;
    }
    assert(switches_view(out@) =~= switches_view(v@));
    out
}

impl Command {
    /// A command answering to `name`, with no aliases or switches yet.
    pub fn new(name: CommandName) -> (r: Self)
        ensures
            r@.name == name@,
            r@.aliases == Seq::<Seq<char>>::empty(),
            r@.switches == Seq::<Seq<char>>::empty(),
    {
        let r = Command { name, aliases: Vec::new(), switches: Vec::new() };
        assert(r@.aliases =~= Seq::<Seq<char>>::empty());
        assert(r@.switches =~= Seq::<Seq<char>>::empty());
        r
    }

    /// Adds an alias the command also answers to (e.g. `n` for `north`).
    pub fn with_alias(self, alias: CommandName) -> (r: Self)
        ensures
            r@.name == self@.name,
            r@.aliases == self@.aliases.push(alias@),
            r@.switches == self@.switches,
    {
        let mut c = self;
        c.aliases.push(alias);
        assert(c@.aliases =~= self@.aliases.push(alias@));
        c
    }

    /// Declares a switch the command accepts.
    pub fn with_switch(self, switch: Switch) -> (r: Self)
        ensures
            r@.name == self@.name,
            r@.aliases == self@.aliases,
            r@.switches == self@.switches.push(switch@),
    {
        let mut c = self;
        c.switches.push(switch);
        assert(c@.switches =~= self@.switches.push(switch@));
        c
    }

    /// The canonical name.
    pub fn name(&self) -> (r: &CommandName)
        ensures
            r@ == self@.name,
    {
        &self.name
    }

    /// The aliases, in declaration order.
    pub fn aliases(&self) -> (r: &[CommandName])
        ensures
            names_view(r@) == self@.aliases,
    {
        self.aliases.as_slice()
    }

    /// The declared accepted switches.
    pub fn switches(&self) -> (r: &[Switch])
        ensures
            switches_view(r@) == self@.switches,
    {
        self.switches.as_slice()
    }

    /// Every name the command answers to: the canonical name first, then each
    /// alias. These are the keys under which the parser indexes the command.
    pub fn names(&self) -> (r: Vec<&CommandName>)
        ensures
            r@.len() == all_names_spec(self@).len(),
            forall|i: int| 0 <= i < r@.len() ==> (#[trigger] r@[i])@ == all_names_spec(self@)[i],
    {
        let mut out: Vec<&CommandName> = Vec::new();
        out.push(&self.name);
        let mut i: usize = 0;
        while i < self.aliases.len()
            invariant
                i <= self.aliases@.len(),
                out@.len() == i + 1,
                out@[0]@ == self.name@,
                forall|k: int| 0 <= k < i ==> (#[trigger] out@[k + 1])@ == self.aliases@[k]@,
            decreases self.aliases@.len() - i,
        {
            out.push(&self.aliases[i]);
            i = i + 1;
        }
        proof {
            assert forall|k: int| 0 <= k < out@.len() implies (#[trigger] out@[k])@ == all_names_spec(self@)[k] by {
                if k > 0 {
                    assert(out@[(k - 1) + 1] == out@[k]);
                }
            }
        }
        out
    }

    /// A copy of this command.
    pub fn duplicate(&self) -> (r: Self)
        ensures
            r@ == self@,
    {
        Command { name: self.name.duplicate(), aliases: copy_names(&self.aliases), switches: copy_switches(&self.switches) }
    }
}

} // verus!
