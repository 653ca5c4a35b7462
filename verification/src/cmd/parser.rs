//! The post-merge command table and the line parser.

use vstd::prelude::*;
use crate::chars::{chars_of, lowercase_of, pieces_view, split_chars, split_on, string_of, to_lowercase,
    trim_bounds, trim_spec, word_end, word_len};
use super::command::{Command, CommandModel, CommandName, Switch, SwitchError, switch_parse_spec, switches_view};
use super::trie::{PrefixTrie, TrieMatch, has_extension, lookup_spec, reachable, sorted_strict};

verus! {

/// The result of parsing a single input line against a [`CommandTable`].
///
/// Only command-name disambiguation lives here (exact / unique-prefix /
/// ambiguous); the argument remainder is returned trimmed but otherwise
/// verbatim.
#[derive(Debug, PartialEq, Eq)]
pub enum ParseOutcome<'a> {
    /// The line was blank.
    Empty,
    /// No command name matched the leading token.
    NotFound,
    /// The leading token was a prefix of several commands; their canonical names
    /// in command order.
    Ambiguous(Vec<&'a CommandName>),
    /// A switch token was malformed.
    BadSwitch(SwitchError),
    /// A command matched.
    Matched {
        /// The resolved command.
        command: &'a Command,
        /// The switches given after the command (e.g. `quiet` in `look/quiet`).
        switches: Vec<Switch>,
        /// The argument remainder, trimmed but otherwise verbatim.
        args: String,
    },
}

/// A parse outcome over plain values.
pub enum OutcomeModel {
    Empty,
    NotFound,
    Ambiguous(Seq<Seq<char>>),
    BadSwitch(SwitchError),
    Matched { command: CommandModel, switches: Seq<Seq<char>>, args: Seq<char> },
}

/// The plain-value forms of a list of name references.
pub open spec fn name_refs_view(v: Seq<&CommandName>) -> Seq<Seq<char>> {
    v.map_values(|n: &CommandName| n@)
}

impl<'a> View for ParseOutcome<'a> {
    type V = OutcomeModel;

    open spec fn view(&self) -> OutcomeModel {
        match self {
            ParseOutcome::Empty => OutcomeModel::Empty,
            ParseOutcome::NotFound => OutcomeModel::NotFound,
            ParseOutcome::Ambiguous(v) => OutcomeModel::Ambiguous(name_refs_view(v@)),
            ParseOutcome::BadSwitch(e) => OutcomeModel::BadSwitch(*e),
            ParseOutcome::Matched { command, switches, args } => OutcomeModel::Matched {
                command: command@,
                switches: switches_view(switches@),
                args: args@,
            },
        }
    }
}

/// The strictly increasing sequence holding exactly the members of `s`.
pub open spec fn sorted_of(s: Set<usize>) -> Seq<usize> {
    choose|q: Seq<usize>| sorted_strict(q) && forall|i: usize| q.contains(i) <==> s.contains(i)
}

/// Two strictly increasing sequences with the same members are equal.
pub proof fn lemma_sorted_unique(a: Seq<usize>, b: Seq<usize>)
    requires
        sorted_strict(a),
        sorted_strict(b),
        forall|i: usize| a.contains(i) <==> b.contains(i),
    ensures
        a == b,
    decreases a.len(),
{
    if a.len() == 0 {
        if b.len() > 0 {
            assert(b.contains(b[0]));
        }
        assert(a =~= b);
    } else {
        assert(a.contains(a[0]));
        assert(b.contains(a[0]));
        assert(b.contains(b[0]));
        assert(a.contains(b[0]));
        let ka = choose|k: int| 0 <= k < a.len() && a[k] == b[0];
        let kb = choose|k: int| 0 <= k < b.len() && b[k] == a[0];
        assert(a[0] <= a[ka]);
        assert(b[0] <= b[kb]);
        assert(a[0] == b[0]);
        let a1 = a.drop_first();
        let b1 = b.drop_first();
        assert forall|i: usize| a1.contains(i) <==> b1.contains(i) by {
            if a1.contains(i) {
                let k = choose|k: int| 0 <= k < a1.len() && a1[k] == i;
                assert(a[k + 1] == i);
                assert(a.contains(i));
                let j = choose|j: int| 0 <= j < b.len() && b[j] == i;
                assert(j != 0);
                assert(b1[j - 1] == i);
            }
            if b1.contains(i) {
                let k = choose|k: int| 0 <= k < b1.len() && b1[k] == i;
                assert(b[k + 1] == i);
                assert(b.contains(i));
                let j = choose|j: int| 0 <= j < a.len() && a[j] == i;
                assert(j != 0);
                assert(a1[j - 1] == i);
            }
        }
        lemma_sorted_unique(a1, b1);
        assert(a =~= seq![a[0]] + a1);
        assert(b =~= seq![b[0]] + b1);
    }
}

/// The first switch segment that fails to parse decides the error; otherwise
/// every segment is a switch.
pub open spec fn switches_result(segs: Seq<Seq<char>>) -> Result<Seq<Seq<char>>, SwitchError>
    decreases segs.len(),
{
    if segs.len() == 0 {
        Ok(Seq::empty())
    } else {
        match switch_parse_spec(segs[0]) {
            Err(e) => Err(e),
            Ok(s) => match switches_result(segs.drop_first()) {
                Ok(rest) => Ok(seq![s] + rest),
                Err(e) => Err(e),
            },
        }
    }
}

/// Resolves a command token against the table's commands and key map.
pub open spec fn resolve_token_spec(
    cmds: Seq<CommandModel>,
    m: Map<Seq<char>, usize>,
    token: Seq<char>,
    switches: Seq<Seq<char>>,
    args: Seq<char>,
) -> OutcomeModel {
    if m.contains_key(token) {
        OutcomeModel::Matched { command: cmds[m[token] as int], switches, args }
    } else if token.len() == 0 || has_extension(m, token) {
        let ids = sorted_of(reachable(m, token));
        if ids.len() == 1 {
            OutcomeModel::Matched { command: cmds[ids[0] as int], switches, args }
        } else if ids.len() == 0 {
            OutcomeModel::NotFound
        } else {
            OutcomeModel::Ambiguous(ids.map_values(|i: usize| cmds[i as int].name))
        }
    } else {
        OutcomeModel::NotFound
    }
}

/// The outcome for an already-lowercased command head: the text before the
/// first `/` is the command token, the rest are switches.
pub open spec fn head_outcome_spec(
    cmds: Seq<CommandModel>,
    m: Map<Seq<char>, usize>,
    head: Seq<char>,
    args: Seq<char>,
) -> OutcomeModel {
    let segs = split_on(head, '/');
    if segs[0].len() == 0 {
        OutcomeModel::NotFound
    } else {
        match switches_result(segs.drop_first()) {
            Err(e) => OutcomeModel::BadSwitch(e),
            Ok(sw) => resolve_token_spec(cmds, m, segs[0], sw, args),
        }
    }
}

/// The leading word of the trimmed line.
pub open spec fn line_head(line: Seq<char>) -> Seq<char> {
    let t = trim_spec(line);
    t.take(word_len(t) as int)
}

/// The trimmed remainder after the leading word and the one whitespace
/// character that ends it.
pub open spec fn line_args(line: Seq<char>) -> Seq<char> {
    let t = trim_spec(line);
    let k = word_len(t) as int;
    if k < t.len() {
        trim_spec(t.skip(k + 1))
    } else {
        Seq::empty()
    }
}

/// What parsing `line` yields: a blank line is empty; otherwise the lowercased
/// leading word is resolved with the argument remainder.
pub open spec fn parse_spec(cmds: Seq<CommandModel>, m: Map<Seq<char>, usize>, line: Seq<char>) -> OutcomeModel {
    if line_head(line).len() == 0 {
        OutcomeModel::Empty
    } else {
        head_outcome_spec(cmds, m, lowercase_of(line_head(line)), line_args(line))
    }
}

/// The plain-value forms of a list of commands.
pub open spec fn commands_view(v: Seq<Command>) -> Seq<CommandModel> {
    v.map_values(|c: Command| c@)
}

/// A merged, parseable set of commands: the resolved commands plus the
/// prefix index mapping every name and alias to its command.
#[derive(Debug)]
pub struct CommandTable {
    commands: Vec<Command>,
    trie: PrefixTrie,
}

impl CommandTable {
    #[verifier::type_invariant]
    spec fn inv(&self) -> bool {
        &&& self.trie.wf()
        &&& forall|k: Seq<char>| #[trigger] self.trie.map().contains_key(k) ==> self.trie.map()[k] < self.commands@.len()
    }

    /// The resolved commands, in order.
    pub closed spec fn commands_spec(&self) -> Seq<CommandModel> {
        commands_view(self.commands@)
    }

    /// Every settled token and the index of the command that owns it.
    pub closed spec fn index_spec(&self) -> Map<Seq<char>, usize> {
        self.trie.map()
    }

    /// Stores the resolved commands and the index over their settled tokens.
    pub(crate) fn new(commands: Vec<Command>, trie: PrefixTrie) -> (r: Self)
        requires
            trie.wf(),
            forall|k: Seq<char>| #[trigger] trie.map().contains_key(k) ==> trie.map()[k] < commands@.len(),
        ensures
            r.commands_spec() == commands_view(commands@),
            r.index_spec() == trie.map(),
    {
        CommandTable { commands, trie }
    }

    /// The number of resolved commands.
    pub fn len(&self) -> (r: usize)
        ensures
            r == self.commands_spec().len(),
    {
        self.commands.len()
    }

    /// Whether the table holds no commands.
    pub fn is_empty(&self) -> (r: bool)
        ensures
            r == (self.commands_spec().len() == 0),
    {
        self.commands.len() == 0
    }

    /// The resolved commands, in order.
    pub fn commands(&self) -> (r: &[Command])
        ensures
            commands_view(r@) == self.commands_spec(),
    {
        self.commands.as_slice()
    }

    /// Iterates the resolved commands in order.
    pub fn iter(&self) -> (r: std::slice::Iter<'_, Command>)
        ensures
            commands_view(vstd::std_specs::slice::into_iter_elts(r)) == self.commands_spec(),
    {
        let r = self.commands.as_slice().iter();
        proof {
            broadcast use vstd::std_specs::slice::axiom_spec_slice_iter;
            assert(self.commands@.as_ref().unref() =~= self.commands@);
        }
        r
    }

    /// Looks up a command by its exact canonical name or alias.
    pub fn get(&self, name: &CommandName) -> (r: Option<&Command>)
        ensures
            match r {
                Some(c) => self.index_spec().contains_key(name@) && c@ == self.commands_spec()[self.index_spec()[name@] as int],
                None => !self.index_spec().contains_key(name@),
            },
    {
        proof {
            use_type_invariant(self);
        }
        match self.trie.lookup(name.as_str()) {
            TrieMatch::Exact(index) => Some(&self.commands[index]),
            TrieMatch::Prefix(_) | TrieMatch::NoMatch => None,
        }
    }

    /// Parses one input line.
    ///
    /// The trimmed line is split into a leading command head and an argument
    /// remainder at the first whitespace. The head is lowercased (matching is
    /// case-insensitive) and resolved by [`CommandTable::parse_head`].
    pub fn parse<'a>(&'a self, line: &str) -> (r: ParseOutcome<'a>)
        ensures
            r@ == parse_spec(self.commands_spec(), self.index_spec(), line@),
    {
        let cs = chars_of(line);
        let (a, b) = trim_bounds(&cs, 0, cs.len());
        let k = word_end(&cs, a, b);
        let ghost t = cs@.subrange(a as int, b as int);
        proof {
            assert(cs@.subrange(0, cs@.len() as int) =~= cs@);
            assert(t.take((k - a) as int) =~= cs@.subrange(a as int, k as int));
        }
        if k == a {
            return ParseOutcome::Empty;
        }
        let head = string_of(&cs, a, k);
        let args = if k < b {
            let (c, d) = trim_bounds(&cs, k + 1, b);
            proof {
                assert(t.skip(k - a + 1) =~= cs@.subrange(k + 1, b as int));
            }
            string_of(&cs, c, d)
        } else {
            String::new()
        };
        let lowered = to_lowercase(head.as_str());
        self.parse_head(lowered.as_str(), args)
    }

    /// Resolves an already-lowercased command head and its argument
    /// remainder: the text before the first `/` is the command token and each
    /// later `/`-separated segment a switch. A malformed switch is reported
    /// before lookup; then an exact name or alias wins, else a unique prefix,
    /// else the candidates are reported as ambiguous.
    pub fn parse_head<'a>(&'a self, head: &str, args: String) -> (r: ParseOutcome<'a>)
        ensures
            r@ == head_outcome_spec(self.commands_spec(), self.index_spec(), head@, args@),
    {
        let hs = chars_of(head);
        let segs = split_chars(&hs, '/');
        let ghost sv = pieces_view(segs@);
        assert(sv.len() > 0 && sv[0] == segs@[0]@);
        if segs[0].len() == 0 {
            return ParseOutcome::NotFound;
        }
        let mut switches: Vec<Switch> = Vec::new();
        let mut i: usize = 1;
        while i < segs.len()
            invariant
                1 <= i <= segs@.len(),
                sv == pieces_view(segs@),
                sv == split_on(head@, '/'),
                sv[0].len() != 0,
                switches_result(sv.drop_first()) == match switches_result(sv.skip(i as int)) {
                    Ok(rest) => Ok(switches_view(switches@) + rest),
                    Err(e) => Err::<Seq<Seq<char>>, SwitchError>(e),
                },
            decreases segs@.len() - i,
        {
            let seg = string_of(&segs[i], 0, segs[i].len());
            assert(segs@[i as int]@.subrange(0, segs@[i as int]@.len() as int) =~= segs@[i as int]@);
            let ghost tail = sv.skip(i as int);
            assert(tail[0] == sv[i as int]);
            assert(tail.drop_first() =~= sv.skip(i + 1));
            match Switch::parse(seg.as_str()) {
                Ok(switch) => {
                    let ghost before = switches_view(switches@);
                    switches.push(switch);
                    assert(switches_view(switches@) =~= before.push(sv[i as int]));
                    proof {
                        match switches_result(sv.skip(i + 1)) {
                            Ok(rest) => {
                                assert(before + (seq![sv[i as int]] + rest) =~= before.push(sv[i as int]) + rest);
                            },
                            Err(_) => {},
                        }
                    }
                },
                Err(error) => {
                    assert(seg@ == sv[i as int]);
                    assert(switch_parse_spec(tail[0]) == Err::<Seq<char>, SwitchError>(error));
                    assert(switches_result(tail) == Err::<Seq<Seq<char>>, SwitchError>(error));
                    assert(switches_result(sv.drop_first()) == Err::<Seq<Seq<char>>, SwitchError>(error));
                    assert(sv == split_on(head@, '/'));
                    assert(sv[0].len() != 0);
                    return ParseOutcome::BadSwitch(error);
                },
            }
            i = i + 1;
        }
        proof {
            assert(sv.skip(i as int) =~= Seq::<Seq<char>>::empty());
            assert(switches_view(switches@) + Seq::<Seq<char>>::empty() =~= switches_view(switches@));
        }
        let token = string_of(&segs[0], 0, segs[0].len());
        assert(segs@[0]@.subrange(0, segs@[0]@.len() as int) =~= segs@[0]@);
        self.resolve_token(token.as_str(), switches, args)
    }

    fn resolve_token<'a>(&'a self, token: &str, switches: Vec<Switch>, args: String) -> (r: ParseOutcome<'a>)
        ensures
            r@ == resolve_token_spec(self.commands_spec(), self.index_spec(), token@, switches_view(switches@), args@),
    {
        proof {
            use_type_invariant(self);
        }
        match self.trie.lookup(token) {
            TrieMatch::Exact(index) => ParseOutcome::Matched { command: &self.commands[index], switches, args },
            TrieMatch::Prefix(indices) => {
                proof {
                    let s = reachable(self.trie.map(), token@);
                    let q = sorted_of(s);
                    assert(sorted_strict(indices@) && forall|i: usize| indices@.contains(i) <==> s.contains(i));
                    lemma_sorted_unique(indices@, q);
                    assert forall|j: int| 0 <= j < indices@.len() implies indices@[j] < self.commands@.len() by {
                        assert(indices@.contains(indices@[j]));
                        let k = choose|k: Seq<char>| #[trigger] self.trie.map().contains_key(k) && token@.is_prefix_of(k) && self.trie.map()[k] == indices@[j];
                    }
                }
                if indices.len() == 1 {
                    ParseOutcome::Matched { command: &self.commands[indices[0]], switches, args }
                } else if indices.len() == 0 {
                    ParseOutcome::NotFound
                } else {
                    ParseOutcome::Ambiguous(self.canonical_names(&indices))
                }
            },
            TrieMatch::NoMatch => ParseOutcome::NotFound,
        }
    }

    /// The canonical names of the commands at `indices`, for an ambiguity report.
    fn canonical_names(&self, indices: &Vec<usize>) -> (r: Vec<&CommandName>)
        requires
            forall|j: int| 0 <= j < indices@.len() ==> indices@[j] < self.commands@.len(),
        ensures
            name_refs_view(r@) == indices@.map_values(|i: usize| self.commands_spec()[i as int].name),
    {
        let mut out: Vec<&CommandName> = Vec::new();
        let mut j: usize = 0;
        while j < indices.len()
            invariant
                j <= indices@.len(),
                forall|q: int| 0 <= q < indices@.len() ==> indices@[q] < self.commands@.len(),
                out@.len() == j,
                forall|q: int| 0 <= q < j ==> (#[trigger] out@[q])@ == self.commands_spec()[indices@[q] as int].name,
            decreases indices@.len() - j,
        {
            out.push(self.commands[indices[j]].name());
            j = j + 1;
        }
        assert(name_refs_view(out@) =~= indices@.map_values(|i: usize| self.commands_spec()[i as int].name));
        out
    }
}

} // verus!
