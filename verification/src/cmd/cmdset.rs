//! The CmdSet model and the merge.
//!
//! A [`CmdSet`] is a named, prioritised bundle of [`Command`]s with a
//! [`MergeType`]. [`CmdSet::merge`] folds several sets into the single
//! [`CommandTable`] the parser drives.
//!
//! Collisions are resolved per canonical command name:
//! - a [`Remove`](MergeType::Remove) contributor deletes the name regardless of
//!   precedence;
//! - otherwise a [`Replace`](MergeType::Replace) contributor wins regardless of
//!   precedence;
//! - otherwise (every contributor is [`Union`](MergeType::Union)) the
//!   highest-[`Priority`] contributor wins, ties broken by input order.

use vstd::prelude::*;
use crate::chars::{chars_of, chars_eq, lex_less, lex_lt, lemma_lex_asymmetric, lemma_lex_irreflexive, lemma_lex_total, lemma_lex_transitive};
use super::command::{Command, CommandModel, CommandName};
use super::parser::{CommandTable, commands_view, name_refs_view};
use super::token::{first_invalid_token_char, first_invalid_spec, valid_token};
use super::trie::PrefixTrie;
use crate::slug::{bad_slug_message, bad_slug_text};

verus! {

/// A merge priority. Higher beats lower when two [`Union`](MergeType::Union)
/// sets contribute the same command name.
#[derive(Debug, Clone, Copy, PartialEq, Eq, Structural, PartialOrd, Ord, Hash)]
pub struct Priority(i32);

impl View for Priority {
    type V = i32;

    closed spec fn view(&self) -> i32 {
        self.0
    }
}

impl Priority {
    /// A priority from a raw level. Higher wins.
    pub fn new(level: i32) -> (r: Self)
        ensures
            r@ == level,
    {
        Priority(level)
    }

    /// The raw level.
    pub fn level(&self) -> (r: i32)
        ensures
            r == self@,
    {
        self.0
    }
}

impl Default for Priority {
    /// The neutral default priority (`0`).
    fn default() -> (r: Self)
        ensures
            r@ == 0,
    {
        Priority(0)
    }
}

/// How a [`CmdSet`] merges onto the others.
#[derive(Debug, Clone, Copy, PartialEq, Eq, Structural)]
pub enum MergeType {
    /// Combine; same-name collisions resolve by [`Priority`].
    Union,
    /// Override the named command regardless of precedence.
    Replace,
    /// Delete the named command regardless of precedence; contribute nothing.
    Remove,
}

/// A lightweight identifier for a set, for tracing and authoring reference.
#[derive(Debug, Clone, PartialEq, Eq, PartialOrd, Ord, Hash)]
pub struct CmdSetKey(String);

impl View for CmdSetKey {
    type V = Seq<char>;

    closed spec fn view(&self) -> Seq<char> {
        self.0@
    }
}

/// A failure parsing a [`CmdSetKey`].
#[derive(Debug, Clone, Copy, PartialEq, Eq, Structural)]
#[non_exhaustive]
pub enum CmdSetKeyError {
    /// The identifier was empty.
    Empty,
    /// The identifier holds a character outside `[a-z0-9_-]`; the first such one.
    InvalidCharacter(char),
}

impl CmdSetKeyError {
    /// The human-readable message for this error.
    pub fn message(&self) -> (r: String)
        ensures
            r@ == (match *self {
                CmdSetKeyError::Empty => "cmdset key must not be empty"@,
                CmdSetKeyError::InvalidCharacter(c) => bad_slug_message("cmdset key"@, c),
            }),
    {
        match *self {
            CmdSetKeyError::Empty => "cmdset key must not be empty".to_owned(),
            CmdSetKeyError::InvalidCharacter(c) => bad_slug_text("cmdset key", c),
        }
    }
}

/// The result of parsing `s` as a set key, over plain values.
pub open spec fn key_parse_spec(s: Seq<char>) -> Result<Seq<char>, CmdSetKeyError> {
    if s.len() == 0 {
        Err(CmdSetKeyError::Empty)
    } else {
        match first_invalid_spec(s) {
            Some(c) => Err(CmdSetKeyError::InvalidCharacter(c)),
            None => Ok(s),
        }
    }
}

impl CmdSetKey {
    /// Parses a raw identifier: it must be non-empty and drawn from the
    /// alphabet `[a-z0-9_-]`.
    pub fn parse(value: &str) -> (r: Result<Self, CmdSetKeyError>)
        ensures
            r is Ok <==> valid_token(value@),
            match (r, key_parse_spec(value@)) {
                (Ok(k), Ok(v)) => k@ == v,
                (Err(e), Err(f)) => e == f,
                _ => false,
            },
    {
        if value.is_empty() {
            return Err(CmdSetKeyError::Empty);
        }
        if let Some(bad) = first_invalid_token_char(value) {
            return Err(CmdSetKeyError::InvalidCharacter(bad));
        }
        Ok(CmdSetKey(value.to_owned()))
    }

    /// The key text.
    pub fn as_str(&self) -> (r: &str)
        ensures
            r@ == self@,
    {
        self.0.as_str()
    }
}

/// A named, prioritised bundle of commands with a merge rule.
#[derive(Debug, Clone, PartialEq, Eq)]
pub struct CmdSet {
    key: CmdSetKey,
    priority: Priority,
    mergetype: MergeType,
    commands: Vec<Command>,
}

/// A command set over plain values.
pub struct SetModel {
    pub key: Seq<char>,
    pub priority: i32,
    pub mergetype: MergeType,
    pub commands: Seq<CommandModel>,
}

impl View for CmdSet {
    type V = SetModel;

    closed spec fn view(&self) -> SetModel {
        SetModel {
            key: self.key@,
            priority: self.priority@,
            mergetype: self.mergetype,
            commands: commands_view(self.commands@),
        }
    }
}

/// The plain-value forms of a list of sets.
pub open spec fn sets_view(s: Seq<CmdSet>) -> Seq<SetModel> {
    s.map_values(|x: CmdSet| x@)
}

// ---------------------------------------------------------------------------
// Per-name resolution.

/// The running state of resolving one name: whether a `Remove` contributor
/// was met, and the best `Replace` and `Union` contributors so far.
pub struct Tally {
    pub removed: bool,
    pub replace: Option<(i32, CommandModel)>,
    pub union: Option<(i32, CommandModel)>,
}

/// Keeps `c` only when it strictly outranks the current best, so equal
/// priorities preserve the earlier winner.
pub open spec fn keep_higher_spec(best: Option<(i32, CommandModel)>, p: i32, c: CommandModel) -> Option<(i32, CommandModel)> {
    match best {
        Some((cur, _)) => if p > cur { Some((p, c)) } else { best },
        None => Some((p, c)),
    }
}

/// One contributor meets the tally for `name`.
pub open spec fn tally_step(t: Tally, mt: MergeType, p: i32, c: CommandModel, name: Seq<char>) -> Tally {
    if c.name != name {
        t
    } else {
        match mt {
            MergeType::Remove => Tally { removed: true, ..t },
            MergeType::Replace => Tally { replace: keep_higher_spec(t.replace, p, c), ..t },
            MergeType::Union => Tally { union: keep_higher_spec(t.union, p, c), ..t },
        }
    }
}

/// The tally after the first `j` commands of `s`.
pub open spec fn tally_commands(t: Tally, s: SetModel, name: Seq<char>, j: int) -> Tally
    decreases j,
{
    if j <= 0 {
        t
    } else {
        tally_step(tally_commands(t, s, name, j - 1), s.mergetype, s.priority, s.commands[j - 1], name)
    }
}

/// The empty tally.
pub open spec fn tally_init() -> Tally {
    Tally { removed: false, replace: None, union: None }
}

/// The tally after the first `i` sets.
pub open spec fn tally_sets(sets: Seq<SetModel>, name: Seq<char>, i: int) -> Tally
    decreases i,
{
    if i <= 0 {
        tally_init()
    } else {
        tally_commands(tally_sets(sets, name, i - 1), sets[i - 1], name, sets[i - 1].commands.len() as int)
    }
}

/// The winning command for `name` with the priority of the set that won it,
/// or `None` when a `Remove` deletes it (or nothing contributes it).
pub open spec fn resolve_spec(sets: Seq<SetModel>, name: Seq<char>) -> Option<(i32, CommandModel)> {
    let t = tally_sets(sets, name, sets.len() as int);
    if t.removed {
        None
    } else if t.replace is Some {
        t.replace
    } else {
        t.union
    }
}

proof fn lemma_removed_sticky_commands(t: Tally, s: SetModel, name: Seq<char>, j: int, k: int)
    requires
        j <= k,
        tally_commands(t, s, name, j).removed,
    ensures
        tally_commands(t, s, name, k).removed,
    decreases k - j,
{
    if j < k {
        lemma_removed_sticky_commands(t, s, name, j, k - 1);
    }
}

proof fn lemma_removed_sticky_sets(sets: Seq<SetModel>, name: Seq<char>, i: int, k: int)
    requires
        0 <= i <= k,
        tally_sets(sets, name, i).removed,
    ensures
        tally_sets(sets, name, k).removed,
    decreases k - i,
{
    if i < k {
        lemma_removed_sticky_sets(sets, name, i, k - 1);
        let t = tally_sets(sets, name, k - 1);
        let s = sets[k - 1];
        assert(tally_commands(t, s, name, 0).removed);
        lemma_removed_sticky_commands(t, s, name, 0, s.commands.len() as int);
    }
}

/// The exec form of a best contributor, over plain values.
pub open spec fn best_view(b: Option<(Priority, &Command)>) -> Option<(i32, CommandModel)> {
    match b {
        Some((p, c)) => Some((p@, c@)),
        None => None,
    }
}

/// Keeps `candidate` only when it strictly outranks the current best, so equal
/// priorities preserve the earlier (input-order) winner.
fn keep_higher<'a>(best: &mut Option<(Priority, &'a Command)>, priority: Priority, candidate: &'a Command)
    ensures
        best_view(*final(best)) == keep_higher_spec(best_view(*old(best)), priority@, candidate@),
{
    let outranked = match best {
        Some((current, _)) => priority.0 > current.0,
        None => true,
    };
    if outranked {
        *best = Some((priority, candidate));
    }
}

/// Whether two command names hold the same text.
fn same_name(a: &CommandName, b: &CommandName) -> (r: bool)
    ensures
        r == (a@ == b@),
{
    let ca = chars_of(a.as_str());
    let cb = chars_of(b.as_str());
    chars_eq(&ca, cb.as_slice())
}

/// Resolves the winning command for `name`, paired with the priority of the
/// set that won it, or `None` when a `Remove` deletes it.
fn resolve_name<'a>(sets: &'a [CmdSet], name: &CommandName) -> (r: Option<(Priority, &'a Command)>)
    ensures
        best_view(r) == resolve_spec(sets_view(sets@), name@),
        r matches Some((_, c)) ==> c@.name == name@,
{
    let ghost sv = sets_view(sets@);
    let mut best_union: Option<(Priority, &Command)> = None;
    let mut best_replace: Option<(Priority, &Command)> = None;
    let mut i: usize = 0;
    while i < sets.len()
        invariant
            sv == sets_view(sets@),
            i <= sets@.len(),
            best_replace matches Some((_, c)) ==> c@.name == name@,
            best_union matches Some((_, c)) ==> c@.name == name@,
            tally_sets(sv, name@, i as int) == (Tally {
                removed: false,
                replace: best_view(best_replace),
                union: best_view(best_union),
            }),
        decreases sets@.len() - i,
    {
        let set = &sets[i];
        assert(sv[i as int] == set@);
        let mut j: usize = 0;
        while j < set.commands.len()
            invariant
                sv == sets_view(sets@),
                i < sets@.len(),
                set == &sets@[i as int],
                sv[i as int] == set@,
                j <= set.commands@.len(),
                best_replace matches Some((_, c)) ==> c@.name == name@,
                best_union matches Some((_, c)) ==> c@.name == name@,
                tally_commands(tally_sets(sv, name@, i as int), sv[i as int], name@, j as int) == (Tally {
                    removed: false,
                    replace: best_view(best_replace),
                    union: best_view(best_union),
                }),
            decreases set.commands@.len() - j,
        {
            let command = &set.commands[j];
            assert(set@.commands[j as int] == command@);
            if same_name(command.name(), name) {
                match set.mergetype {
                    MergeType::Remove => {
                        proof {
                            let t0 = tally_sets(sv, name@, i as int);
                            lemma_removed_sticky_commands(t0, sv[i as int], name@, j + 1, sv[i as int].commands.len() as int);
                            lemma_removed_sticky_sets(sv, name@, i + 1, sv.len() as int);
                        }
                        return None;
                    },
                    MergeType::Replace => keep_higher(&mut best_replace, set.priority, command),
                    MergeType::Union => keep_higher(&mut best_union, set.priority, command),
                }
            }
            j = j + 1;
        }
        i = i + 1;
    }
    match best_replace {
        Some(b) => Some(b),
        None => best_union,
    }
}

// ---------------------------------------------------------------------------
// Token ownership.

/// How `c` claims `token`: `Some(true)` as its canonical name, `Some(false)`
/// as an alias only, `None` not at all.
pub open spec fn claim_kind(c: CommandModel, token: Seq<char>) -> Option<bool> {
    if c.name == token {
        Some(true)
    } else if c.aliases.contains(token) {
        Some(false)
    } else {
        None
    }
}

/// Command `i`'s claim on `token` is stronger than command `j`'s: higher
/// priority, then a canonical name over an alias, then the earlier command.
pub open spec fn outranks(ranked: Seq<(i32, CommandModel)>, i: int, j: int, token: Seq<char>) -> bool {
    let pi = ranked[i].0;
    let pj = ranked[j].0;
    let ci = claim_kind(ranked[i].1, token) == Some(true);
    let cj = claim_kind(ranked[j].1, token) == Some(true);
    ||| pi > pj
    ||| (pi == pj && ci && !cj)
    ||| (pi == pj && ci == cj && i < j)
}

/// Command `i` holds the strongest claim on `token`.
pub open spec fn is_owner(ranked: Seq<(i32, CommandModel)>, token: Seq<char>, i: int) -> bool {
    &&& 0 <= i < ranked.len()
    &&& claim_kind(ranked[i].1, token) is Some
    &&& forall|j: int|
        0 <= j < ranked.len() && j != i && (#[trigger] claim_kind(ranked[j].1, token)) is Some ==> outranks(
            ranked,
            i,
            j,
            token,
        )
}

/// Some command claims `token`.
pub open spec fn claimed(ranked: Seq<(i32, CommandModel)>, token: Seq<char>) -> bool {
    exists|i: int| 0 <= i < ranked.len() && (#[trigger] claim_kind(ranked[i].1, token)) is Some
}

/// Every claimed token and the index of the command holding its strongest
/// claim.
pub open spec fn settle_spec(ranked: Seq<(i32, CommandModel)>) -> Map<Seq<char>, usize> {
    Map::new(
        |t: Seq<char>| claimed(ranked, t),
        |t: Seq<char>| (choose|i: int| is_owner(ranked, t, i)) as usize,
    )
}

/// The plain-value form of the resolved list.
pub open spec fn ranked_view(v: Seq<(Priority, Command)>) -> Seq<(i32, CommandModel)> {
    v.map_values(|e: (Priority, Command)| (e.0@, e.1@))
}

proof fn lemma_owner_unique(ranked: Seq<(i32, CommandModel)>, t: Seq<char>, i: int)
    requires
        is_owner(ranked, t, i),
    ensures
        (choose|k: int| is_owner(ranked, t, k)) == i,
{
    let k = choose|k: int| is_owner(ranked, t, k);
    if k != i {
        assert(claim_kind(ranked[k].1, t) is Some);
        assert(outranks(ranked, i, k, t));
        assert(claim_kind(ranked[i].1, t) is Some);
        assert(outranks(ranked, k, i, t));
    }
}

/// How `c` claims the token `t`.
fn claim_of(c: &Command, t: &Vec<char>) -> (r: Option<bool>)
    ensures
        r == claim_kind(c@, t@),
{
    let name = chars_of(c.name().as_str());
    if chars_eq(&name, t.as_slice()) {
        return Some(true);
    }
    let aliases = c.aliases();
    let mut k: usize = 0;
    while k < aliases.len()
        invariant
            k <= aliases@.len(),
            c@.name != t@,
            super::command::names_view(aliases@) == c@.aliases,
            forall|q: int| 0 <= q < k ==> (#[trigger] aliases@[q])@ != t@,
        decreases aliases@.len() - k,
    {
        let a = chars_of(aliases[k].as_str());
        if chars_eq(&a, t.as_slice()) {
            assert(c@.aliases[k as int] == t@);
            assert(c@.aliases.contains(t@));
            return Some(false);
        }
        k = k + 1;
    }
    proof {
        if c@.aliases.contains(t@) {
            let q = choose|q: int| 0 <= q < c@.aliases.len() && c@.aliases[q] == t@;
            assert(aliases@[q]@ == t@);
        }
    }
    None
}

/// The index of the command holding the strongest claim on `t`.
fn best_owner(resolved: &Vec<(Priority, Command)>, t: &Vec<char>) -> (r: usize)
    requires
        claimed(ranked_view(resolved@), t@),
    ensures
        is_owner(ranked_view(resolved@), t@, r as int),
{
    let ghost rv = ranked_view(resolved@);
    let mut best: usize = 0;
    let mut found = false;
    let mut best_canon = false;
    let mut i: usize = 0;
    while i < resolved.len()
        invariant
            rv == ranked_view(resolved@),
            i <= resolved@.len(),
            found ==> best < i,
            found ==> best_canon == (claim_kind(rv[best as int].1, t@) == Some(true)),
            found ==> claim_kind(rv[best as int].1, t@) is Some,
            found ==> forall|j: int|
                0 <= j < i && j != best && (#[trigger] claim_kind(rv[j].1, t@)) is Some ==> outranks(rv, best as int, j, t@),
            !found ==> forall|j: int| 0 <= j < i ==> (#[trigger] claim_kind(rv[j].1, t@)) is None,
        decreases resolved@.len() - i,
    {
        let kind = claim_of(&resolved[i].1, t);
        assert(rv[i as int] == (resolved@[i as int].0@, resolved@[i as int].1@));
        match kind {
            Some(canon) => {
                if !found {
                    best = i;
                    best_canon = canon;
                    found = true;
                } else {
                    let p = resolved[i].0.0;
                    let bp = resolved[best].0.0;
                    if p > bp || (p == bp && canon && !best_canon) {
                        proof {
                            assert forall|j: int|
                                0 <= j < i + 1 && j != i && (#[trigger] claim_kind(rv[j].1, t@)) is Some implies outranks(rv, i as int, j, t@) by {
                                if j != best {
                                    assert(outranks(rv, best as int, j, t@));
                                }
                            }
                        }
                        best = i;
                        best_canon = canon;
                    }
                }
            },
            None => {},
        }
        i = i + 1;
    }
    proof {
        let w = choose|w: int| 0 <= w < rv.len() && (#[trigger] claim_kind(rv[w].1, t@)) is Some;
        assert(found);
    }
    best
}

/// Settles which resolved command owns each token and returns the prefix
/// index mapping every claimed token to its owner's index.
fn settle_token_ownership(resolved: &Vec<(Priority, Command)>) -> (r: PrefixTrie)
    ensures
        r.wf(),
        r.map() == settle_spec(ranked_view(resolved@)),
        forall|t: Seq<char>| #[trigger] r.map().contains_key(t) ==> r.map()[t] < resolved@.len(),
{
    let ghost rv = ranked_view(resolved@);
    let mut trie = PrefixTrie::new();
    let mut i: usize = 0;
    while i < resolved.len()
        invariant
            rv == ranked_view(resolved@),
            i <= resolved@.len(),
            trie.wf(),
            forall|t: Seq<char>| #[trigger] trie.map().contains_key(t) <==> exists|q: int|
                0 <= q < i && (#[trigger] claim_kind(rv[q].1, t)) is Some,
            forall|t: Seq<char>| #[trigger] trie.map().contains_key(t) ==> is_owner(rv, t, trie.map()[t] as int),
        decreases resolved@.len() - i,
    {
        let command = &resolved[i].1;
        assert(rv[i as int].1 == command@);
        let names = command.names();
        let mut k: usize = 0;
        while k < names.len()
            invariant
                rv == ranked_view(resolved@),
                i < resolved@.len(),
                rv[i as int].1 == command@,
                names@.len() == super::command::all_names_spec(command@).len(),
                forall|q: int| 0 <= q < names@.len() ==> (#[trigger] names@[q])@ == super::command::all_names_spec(command@)[q],
                k <= names@.len(),
                trie.wf(),
                forall|t: Seq<char>| #[trigger] trie.map().contains_key(t) <==> ((exists|q: int|
                    0 <= q < i && (#[trigger] claim_kind(rv[q].1, t)) is Some) || exists|q: int|
                    0 <= q < k && (#[trigger] names@[q])@ == t),
                forall|t: Seq<char>| #[trigger] trie.map().contains_key(t) ==> is_owner(rv, t, trie.map()[t] as int),
            decreases names@.len() - k,
        {
            let token = chars_of(names[k].as_str());
            proof {
                let all = super::command::all_names_spec(command@);
                assert(all[k as int] == token@);
                if k == 0 {
                    assert(claim_kind(command@, token@) == Some(true));
                } else {
                    assert(command@.aliases[k - 1] == token@);
                    assert(command@.aliases.contains(token@));
                }
                assert(claim_kind(rv[i as int].1, token@) is Some);
            }
            let owner = best_owner(resolved, &token);
            let ghost before = trie.map();
            trie.insert(names[k].as_str(), owner);
            proof {
                assert forall|t: Seq<char>| #[trigger] trie.map().contains_key(t) <==> ((exists|q: int|
                    0 <= q < i && (#[trigger] claim_kind(rv[q].1, t)) is Some) || exists|q: int|
                    0 <= q < k + 1 && (#[trigger] names@[q])@ == t) by {
                    if t == token@ {
                        assert(names@[k as int]@ == t);
                    }
                    if exists|q: int| 0 <= q < k + 1 && (#[trigger] names@[q])@ == t {
                        let q = choose|q: int| 0 <= q < k + 1 && (#[trigger] names@[q])@ == t;
                        if q < k {
                            assert(before.contains_key(t));
                        }
                    }
                }
            }
            k = k + 1;
        }
        proof {
            let all = super::command::all_names_spec(command@);
            assert forall|t: Seq<char>| #[trigger] trie.map().contains_key(t) <==> exists|q: int|
                0 <= q < i + 1 && (#[trigger] claim_kind(rv[q].1, t)) is Some by {
                if exists|q: int| 0 <= q < names@.len() && (#[trigger] names@[q])@ == t {
                    let q = choose|q: int| 0 <= q < names@.len() && (#[trigger] names@[q])@ == t;
                    assert(all[q] == t);
                    if q == 0 {
                        assert(claim_kind(rv[i as int].1, t) is Some);
                    } else {
                        assert(command@.aliases[q - 1] == t);
                        assert(command@.aliases.contains(t));
                        assert(claim_kind(rv[i as int].1, t) is Some);
                    }
                }
                if claim_kind(rv[i as int].1, t) is Some {
                    if command@.name == t {
                        assert(names@[0]@ == t);
                    } else {
                        let q = choose|q: int| 0 <= q < command@.aliases.len() && command@.aliases[q] == t;
                        assert(names@[q + 1]@ == t);
                    }
                }
                if exists|q: int| 0 <= q < i + 1 && (#[trigger] claim_kind(rv[q].1, t)) is Some {
                    let q = choose|q: int| 0 <= q < i + 1 && (#[trigger] claim_kind(rv[q].1, t)) is Some;
                    if q < i {
                        assert(exists|q: int| 0 <= q < i && (#[trigger] claim_kind(rv[q].1, t)) is Some);
                    }
                }
            }
        }
        i = i + 1;
    }
    proof {
        let m = settle_spec(rv);
        assert forall|t: Seq<char>| #[trigger] trie.map().contains_key(t) == m.contains_key(t) by {}
        assert forall|t: Seq<char>| trie.map().contains_key(t) implies trie.map()[t] == m[t] by {
            lemma_owner_unique(rv, t, trie.map()[t] as int);
        }
        assert(trie.map() =~= m);
    }
    trie
}

// ---------------------------------------------------------------------------
// The merge.

/// `s` is strictly increasing in lexicographic order.
pub open spec fn lex_sorted(s: Seq<Seq<char>>) -> bool {
    forall|i: int, j: int| 0 <= i < j < s.len() ==> lex_lt(#[trigger] s[i], #[trigger] s[j])
}

/// Some set contributes a command whose canonical name is `n`.
pub open spec fn name_in_sets(sets: Seq<SetModel>, n: Seq<char>) -> bool {
    exists|i: int, j: int|
        0 <= i < sets.len() && 0 <= j < sets[i].commands.len() && (#[trigger] sets[i].commands[j]).name == n
}

/// The priority of the set whose command won `n`.
pub open spec fn winning_priority(sets: Seq<SetModel>, n: Seq<char>) -> i32 {
    match resolve_spec(sets, n) {
        Some((p, _)) => p,
        None => 0,
    }
}

/// The merged commands paired with the priority that won each.
pub open spec fn merged_ranked(sets: Seq<SetModel>, cmds: Seq<CommandModel>) -> Seq<(i32, CommandModel)> {
    cmds.map_values(|c: CommandModel| (winning_priority(sets, c.name), c))
}

/// Whether name `a` sorts before name `b`.
fn name_less(a: &CommandName, b: &CommandName) -> (r: bool)
    ensures
        r == lex_lt(a@, b@),
{
    let ca = chars_of(a.as_str());
    let cb = chars_of(b.as_str());
    lex_less(&ca, &cb)
}

/// Inserts `x` into the sorted name list unless an equal name is there.
fn insert_name<'a>(v: &mut Vec<&'a CommandName>, x: &'a CommandName)
    requires
        lex_sorted(name_refs_view(old(v)@)),
    ensures
        lex_sorted(name_refs_view(final(v)@)),
        forall|n: Seq<char>| name_refs_view(final(v)@).contains(n) <==> (name_refs_view(old(v)@).contains(n) || n == x@),
{
    let ghost o = name_refs_view(v@);
    let mut p: usize = 0;
    while p < v.len() && name_less(v[p], x)
        invariant
            o == name_refs_view(v@),
            p <= v@.len(),
            forall|k: int| 0 <= k < p ==> lex_lt(#[trigger] o[k], x@),
        decreases v@.len() - p,
    {
        p = p + 1;
    }
    if p < v.len() && same_name(v[p], x) {
        assert(o[p as int] == x@);
        assert(o.contains(x@));
        assert(forall|n: Seq<char>| name_refs_view(v@).contains(n) <==> (o.contains(n) || n == x@));
        return;
    }
    v.insert(p, x);
    proof {
        let nv = name_refs_view(v@);
        assert(nv =~= o.insert(p as int, x@));
        if p < o.len() {
            assert(!lex_lt(o[p as int], x@));
            assert(o[p as int] != x@);
            lemma_lex_total(o[p as int], x@);
        }
        assert forall|i: int, j: int| 0 <= i < j < nv.len() implies lex_lt(#[trigger] nv[i], #[trigger] nv[j]) by {
            if j < p {
            } else if j == p {
            } else if i < p {
                assert(nv[j] == o[j - 1]);
                if j - 1 > p {
                    assert(lex_lt(o[p as int], o[j - 1]));
                    lemma_lex_transitive(x@, o[p as int], o[j - 1]);
                }
                lemma_lex_transitive(nv[i], x@, nv[j]);
            } else if i == p {
                assert(nv[j] == o[j - 1]);
                if j - 1 > p {
                    assert(lex_lt(o[p as int], o[j - 1]));
                    lemma_lex_transitive(x@, o[p as int], o[j - 1]);
                }
            } else {
                assert(nv[i] == o[i - 1]);
                assert(nv[j] == o[j - 1]);
            }
        }
        assert forall|n: Seq<char>| nv.contains(n) <==> (o.contains(n) || n == x@) by {
            if nv.contains(n) {
                let k = choose|k: int| 0 <= k < nv.len() && nv[k] == n;
                if k < p {
                    assert(o[k] == n);
                } else if k > p {
                    assert(o[k - 1] == n);
                }
            }
            if o.contains(n) {
                let k = choose|k: int| 0 <= k < o.len() && o[k] == n;
                if k < p {
                    assert(nv[k] == n);
                } else {
                    assert(nv[k + 1] == n);
                }
            }
            if n == x@ {
                assert(nv[p as int] == n);
            }
        }
    }
}

/// The distinct canonical names across `sets`, in lexicographic order.
fn collect_names<'a>(sets: &'a [CmdSet]) -> (r: Vec<&'a CommandName>)
    ensures
        lex_sorted(name_refs_view(r@)),
        forall|n: Seq<char>| name_refs_view(r@).contains(n) <==> name_in_sets(sets_view(sets@), n),
{
    let ghost sv = sets_view(sets@);
    let mut names: Vec<&CommandName> = Vec::new();
    let mut i: usize = 0;
    while i < sets.len()
        invariant
            sv == sets_view(sets@),
            i <= sets@.len(),
            lex_sorted(name_refs_view(names@)),
            forall|n: Seq<char>| name_refs_view(names@).contains(n) <==> exists|a: int, b: int|
                0 <= a < i && 0 <= b < sv[a].commands.len() && (#[trigger] sv[a].commands[b]).name == n,
        decreases sets@.len() - i,
    {
        let set = &sets[i];
        assert(sv[i as int] == set@);
        let mut j: usize = 0;
        while j < set.commands.len()
            invariant
                sv == sets_view(sets@),
                i < sets@.len(),
                set == &sets@[i as int],
                sv[i as int] == set@,
                j <= set.commands@.len(),
                lex_sorted(name_refs_view(names@)),
                forall|n: Seq<char>| name_refs_view(names@).contains(n) <==> (exists|a: int, b: int|
                    0 <= a < i && 0 <= b < sv[a].commands.len() && (#[trigger] sv[a].commands[b]).name == n)
                    || exists|b: int| 0 <= b < j && (#[trigger] sv[i as int].commands[b]).name == n,
            decreases set.commands@.len() - j,
        {
            let command = &set.commands[j];
            assert(sv[i as int].commands[j as int] == command@);
            insert_name(&mut names, command.name());
            proof {
                assert forall|n: Seq<char>| name_refs_view(names@).contains(n) <==> (exists|a: int, b: int|
                    0 <= a < i && 0 <= b < sv[a].commands.len() && (#[trigger] sv[a].commands[b]).name == n)
                    || exists|b: int| 0 <= b < j + 1 && (#[trigger] sv[i as int].commands[b]).name == n by {
                    if n == command@.name {
                        assert(sv[i as int].commands[j as int].name == n);
                    }
                    if exists|b: int| 0 <= b < j + 1 && (#[trigger] sv[i as int].commands[b]).name == n {
                        let b = choose|b: int| 0 <= b < j + 1 && (#[trigger] sv[i as int].commands[b]).name == n;
                        if b < j {
                            assert(exists|b: int| 0 <= b < j && (#[trigger] sv[i as int].commands[b]).name == n);
                        }
                    }
                }
            }
            j = j + 1;
        }
        proof {
            assert forall|n: Seq<char>| name_refs_view(names@).contains(n) <==> exists|a: int, b: int|
                0 <= a < i + 1 && 0 <= b < sv[a].commands.len() && (#[trigger] sv[a].commands[b]).name == n by {
                if exists|a: int, b: int|
                    0 <= a < i + 1 && 0 <= b < sv[a].commands.len() && (#[trigger] sv[a].commands[b]).name == n {
                    let (a, b) = choose|a: int, b: int|
                        0 <= a < i + 1 && 0 <= b < sv[a].commands.len() && (#[trigger] sv[a].commands[b]).name == n;
                    if a == i {
                        assert(exists|b: int| 0 <= b < j && (#[trigger] sv[i as int].commands[b]).name == n);
                    } else {
                        assert(exists|a: int, b: int|
                            0 <= a < i && 0 <= b < sv[a].commands.len() && (#[trigger] sv[a].commands[b]).name == n);
                    }
                }
            }
        }
        i = i + 1;
    }
    names
}

impl CmdSet {
    /// A set identified by `key`, merging via `mergetype` at `priority`.
    pub fn new(key: CmdSetKey, priority: Priority, mergetype: MergeType, commands: Vec<Command>) -> (r: Self)
        ensures
            r@ == (SetModel { key: key@, priority: priority@, mergetype, commands: commands_view(commands@) }),
    {
        CmdSet { key, priority, mergetype, commands }
    }

    /// The set's identifier.
    pub fn key(&self) -> (r: &CmdSetKey)
        ensures
            r@ == self@.key,
    {
        &self.key
    }

    /// The set's merge priority.
    pub fn priority(&self) -> (r: Priority)
        ensures
            r@ == self@.priority,
    {
        self.priority
    }

    /// The set's merge rule.
    pub fn mergetype(&self) -> (r: MergeType)
        ensures
            r == self@.mergetype,
    {
        self.mergetype
    }

    /// The commands the set contributes.
    pub fn commands(&self) -> (r: &[Command])
        ensures
            commands_view(r@) == self@.commands,
    {
        self.commands.as_slice()
    }

    /// Merges `sets` into the single [`CommandTable`] the parser drives.
    ///
    /// Resolution is per canonical command name (see [`resolve_spec`]). The
    /// table lists surviving commands in canonical-name order, and each token
    /// belongs to the command with the strongest claim on it (see
    /// [`settle_spec`]), so the table is fully determined by its inputs.
    pub fn merge(sets: &[CmdSet]) -> (r: CommandTable)
        ensures
            lex_sorted(r.commands_spec().map_values(|c: CommandModel| c.name)),
            forall|n: Seq<char>|
                (exists|k: int| 0 <= k < r.commands_spec().len() && (#[trigger] r.commands_spec()[k]).name == n)
                    <==> (name_in_sets(sets_view(sets@), n) && resolve_spec(sets_view(sets@), n) is Some),
            forall|k: int|
                0 <= k < r.commands_spec().len() ==> resolve_spec(sets_view(sets@), (#[trigger] r.commands_spec()[k]).name)
                    == Some((winning_priority(sets_view(sets@), r.commands_spec()[k].name), r.commands_spec()[k])),
            r.index_spec() == settle_spec(merged_ranked(sets_view(sets@), r.commands_spec())),
            merge_result(sets_view(sets@), r.commands_spec()),
    {
        let ghost sv = sets_view(sets@);
        let names = collect_names(sets);
        let mut resolved: Vec<(Priority, Command)> = Vec::new();
        let mut q: usize = 0;
        while q < names.len()
            invariant
                sv == sets_view(sets@),
                q <= names@.len(),
                lex_sorted(name_refs_view(names@)),
                forall|n: Seq<char>| name_refs_view(names@).contains(n) <==> name_in_sets(sv, n),
                forall|k: int| 0 <= k < resolved@.len() ==> exists|p: int|
                    0 <= p < q && (#[trigger] names@[p])@ == (#[trigger] resolved@[k]).1@.name,
                forall|k: int| 0 <= k < resolved@.len() ==> resolve_spec(sv, (#[trigger] resolved@[k]).1@.name)
                    == Some((resolved@[k].0@, resolved@[k].1@)),
                forall|n: Seq<char>| (exists|k: int| 0 <= k < resolved@.len() && (#[trigger] resolved@[k]).1@.name == n)
                    <==> (exists|p: int| 0 <= p < q && (#[trigger] names@[p])@ == n) && resolve_spec(sv, n) is Some,
                lex_sorted(ranked_view(resolved@).map_values(|e: (i32, CommandModel)| e.1.name)),
            decreases names@.len() - q,
        {
            let name = names[q];
            match resolve_name(sets, name) {
                Some((priority, command)) => {
                    let ghost before = resolved@;
                    resolved.push((priority, command.duplicate()));
                    proof {
                        let rn = ranked_view(resolved@).map_values(|e: (i32, CommandModel)| e.1.name);
                        assert forall|i: int, j: int| 0 <= i < j < rn.len() implies lex_lt(#[trigger] rn[i], #[trigger] rn[j]) by {
                            if j == before.len() {
                                let p = choose|p: int| 0 <= p < q && (#[trigger] names@[p])@ == before[i].1@.name;
                                assert(name_refs_view(names@)[p] == names@[p]@);
                                assert(name_refs_view(names@)[q as int] == names@[q as int]@);
                            } else {
                                assert(resolved@[i] == before[i]);
                                assert(resolved@[j] == before[j]);
                                assert(ranked_view(before).map_values(|e: (i32, CommandModel)| e.1.name)[i] == rn[i]);
                                assert(ranked_view(before).map_values(|e: (i32, CommandModel)| e.1.name)[j] == rn[j]);
                            }
                        }
                        assert forall|k: int| 0 <= k < resolved@.len() implies exists|p: int|
                            0 <= p < q + 1 && (#[trigger] names@[p])@ == (#[trigger] resolved@[k]).1@.name by {
                            if k < before.len() {
                                assert(resolved@[k] == before[k]);
                            } else {
                                assert(names@[q as int]@ == resolved@[k].1@.name);
                            }
                        }
                        assert forall|n: Seq<char>| (exists|k: int| 0 <= k < resolved@.len() && (#[trigger] resolved@[k]).1@.name == n)
                            <==> (exists|p: int| 0 <= p < q + 1 && (#[trigger] names@[p])@ == n) && resolve_spec(sv, n) is Some by {
                            if exists|k: int| 0 <= k < resolved@.len() && (#[trigger] resolved@[k]).1@.name == n {
                                let k = choose|k: int| 0 <= k < resolved@.len() && (#[trigger] resolved@[k]).1@.name == n;
                                if k < before.len() {
                                    assert(resolved@[k] == before[k]);
                                    assert(exists|k: int| 0 <= k < before.len() && (#[trigger] before[k]).1@.name == n);
                                } else {
                                    assert(names@[q as int]@ == n);
                                }
                            }
                            if (exists|p: int| 0 <= p < q + 1 && (#[trigger] names@[p])@ == n) && resolve_spec(sv, n) is Some {
                                let p = choose|p: int| 0 <= p < q + 1 && (#[trigger] names@[p])@ == n;
                                if p < q {
                                    let k = choose|k: int| 0 <= k < before.len() && (#[trigger] before[k]).1@.name == n;
                                    assert(resolved@[k] == before[k]);
                                } else {
                                    assert(resolved@[before.len() as int].1@.name == n);
                                }
                            }
                        }
                        assert forall|k: int| 0 <= k < resolved@.len() implies resolve_spec(sv, (#[trigger] resolved@[k]).1@.name)
                            == Some((resolved@[k].0@, resolved@[k].1@)) by {
                            if k < before.len() {
                                assert(resolved@[k] == before[k]);
                            }
                        }
                    }
                },
                None => {
                    proof {
                        assert forall|n: Seq<char>| (exists|k: int| 0 <= k < resolved@.len() && (#[trigger] resolved@[k]).1@.name == n)
                            <==> (exists|p: int| 0 <= p < q + 1 && (#[trigger] names@[p])@ == n) && resolve_spec(sv, n) is Some by {
                            if (exists|p: int| 0 <= p < q + 1 && (#[trigger] names@[p])@ == n) && resolve_spec(sv, n) is Some {
                                let p = choose|p: int| 0 <= p < q + 1 && (#[trigger] names@[p])@ == n;
                                assert(p < q);
                            }
                        }
                        assert forall|k: int| 0 <= k < resolved@.len() implies exists|p: int|
                            0 <= p < q + 1 && (#[trigger] names@[p])@ == (#[trigger] resolved@[k]).1@.name by {
                            let p = choose|p: int| 0 <= p < q && (#[trigger] names@[p])@ == resolved@[k].1@.name;
                        }
                    }
                },
            }
            q = q + 1;
        }
        let trie = settle_token_ownership(&resolved);
        let mut commands: Vec<Command> = Vec::new();
        let mut k: usize = 0;
        while k < resolved.len()
            invariant
                k <= resolved@.len(),
                commands@.len() == k,
                forall|c: int| 0 <= c < k ==> (#[trigger] commands@[c])@ == resolved@[c].1@,
            decreases resolved@.len() - k,
        {
            commands.push(resolved[k].1.duplicate());
            k = k + 1;
        }
        let ghost cmds = commands_view(commands@);
        proof {
            let rv = ranked_view(resolved@);
            assert forall|c: int| 0 <= c < cmds.len() implies rv[c] == (winning_priority(sv, cmds[c].name), cmds[c]) by {
                assert(resolve_spec(sv, resolved@[c].1@.name) == Some((resolved@[c].0@, resolved@[c].1@)));
            }
            assert(rv =~= merged_ranked(sv, cmds));
            assert(rv.map_values(|e: (i32, CommandModel)| e.1.name) =~= cmds.map_values(|c: CommandModel| c.name));
            assert forall|n: Seq<char>|
                (exists|k: int| 0 <= k < cmds.len() && (#[trigger] cmds[k]).name == n)
                    <==> (name_in_sets(sv, n) && resolve_spec(sv, n) is Some) by {
                if exists|k: int| 0 <= k < cmds.len() && (#[trigger] cmds[k]).name == n {
                    let k = choose|k: int| 0 <= k < cmds.len() && (#[trigger] cmds[k]).name == n;
                    assert(resolved@[k].1@.name == n);
                    let p = choose|p: int| 0 <= p < q && (#[trigger] names@[p])@ == n;
                    assert(name_refs_view(names@)[p] == n);
                }
                if name_in_sets(sv, n) && resolve_spec(sv, n) is Some {
                    assert(name_refs_view(names@).contains(n));
                    let p = choose|p: int| 0 <= p < name_refs_view(names@).len() && name_refs_view(names@)[p] == n;
                    assert(names@[p]@ == n);
                    let k = choose|k: int| 0 <= k < resolved@.len() && (#[trigger] resolved@[k]).1@.name == n;
                    assert(cmds[k].name == n);
                }
            }
        }
        CommandTable::new(commands, trie)
    }
}

// ---------------------------------------------------------------------------
// What resolution means, stated over the contributors.

/// Position `(a, b)` (set `a`, command `b`) comes before `(i, j)`.
pub open spec fn before(a: int, b: int, i: int, j: int) -> bool {
    a < i || (a == i && b < j)
}

/// Command `b` of set `a` contributes `name` with merge rule `mt`.
pub open spec fn contributes(sets: Seq<SetModel>, name: Seq<char>, mt: MergeType, a: int, b: int) -> bool {
    &&& 0 <= a < sets.len()
    &&& 0 <= b < sets[a].commands.len()
    &&& sets[a].commands[b].name == name
    &&& sets[a].mergetype == mt
}

/// Among the `mt` contributors of `name` before `(i, j)`, the one at `(a, b)`
/// has the highest priority and is the earliest of those with it.
pub open spec fn best_before(sets: Seq<SetModel>, name: Seq<char>, mt: MergeType, i: int, j: int, a: int, b: int) -> bool {
    &&& before(a, b, i, j)
    &&& contributes(sets, name, mt, a, b)
    &&& forall|a2: int, b2: int|
        before(a2, b2, i, j) && #[trigger] contributes(sets, name, mt, a2, b2) ==> (sets[a2].priority < sets[a].priority
            || (sets[a2].priority == sets[a].priority && !before(a2, b2, a, b)))
}

/// The tally of `mt` contributors before `(i, j)` holds the best of them.
pub open spec fn kind_tally_ok(
    sets: Seq<SetModel>,
    name: Seq<char>,
    mt: MergeType,
    i: int,
    j: int,
    t: Option<(i32, CommandModel)>,
) -> bool {
    match t {
        None => forall|a: int, b: int| before(a, b, i, j) ==> !#[trigger] contributes(sets, name, mt, a, b),
        Some((p, c)) => exists|a: int, b: int|
            #[trigger] best_before(sets, name, mt, i, j, a, b) && p == sets[a].priority && c == sets[a].commands[b],
    }
}

/// The tally after the positions before `(i, j)` describes them exactly.
pub open spec fn tally_ok(sets: Seq<SetModel>, name: Seq<char>, i: int, j: int, t: Tally) -> bool {
    &&& t.removed <==> exists|a: int, b: int| before(a, b, i, j) && #[trigger] contributes(sets, name, MergeType::Remove, a, b)
    &&& kind_tally_ok(sets, name, MergeType::Replace, i, j, t.replace)
    &&& kind_tally_ok(sets, name, MergeType::Union, i, j, t.union)
}

proof fn lemma_kind_step(
    sets: Seq<SetModel>,
    name: Seq<char>,
    mt: MergeType,
    i: int,
    j: int,
    t: Option<(i32, CommandModel)>,
)
    requires
        0 <= i < sets.len(),
        0 <= j < sets[i].commands.len(),
        kind_tally_ok(sets, name, mt, i, j, t),
    ensures
        kind_tally_ok(
            sets,
            name,
            mt,
            i,
            j + 1,
            if contributes(sets, name, mt, i, j) {
                keep_higher_spec(t, sets[i].priority, sets[i].commands[j])
            } else {
                t
            },
        ),
{
    let p = sets[i].priority;
    let c = sets[i].commands[j];
    if contributes(sets, name, mt, i, j) {
        match t {
            None => {
                assert(best_before(sets, name, mt, i, j + 1, i, j));
            },
            Some((cur, cc)) => {
                let (a, b) = choose|a: int, b: int|
                    #[trigger] best_before(sets, name, mt, i, j, a, b) && cur == sets[a].priority && cc == sets[a].commands[b];
                if p > cur {
                    assert forall|a2: int, b2: int|
                        before(a2, b2, i, j + 1) && #[trigger] contributes(sets, name, mt, a2, b2) implies (sets[a2].priority < p
                            || (sets[a2].priority == p && !before(a2, b2, i, j))) by {
                        if before(a2, b2, i, j) {
                            assert(contributes(sets, name, mt, a2, b2));
                        }
                    }
                    assert(best_before(sets, name, mt, i, j + 1, i, j));
                } else {
                    assert(best_before(sets, name, mt, i, j + 1, a, b));
                }
            },
        }
    } else {
        match t {
            None => {},
            Some((cur, cc)) => {
                let (a, b) = choose|a: int, b: int|
                    #[trigger] best_before(sets, name, mt, i, j, a, b) && cur == sets[a].priority && cc == sets[a].commands[b];
                assert(best_before(sets, name, mt, i, j + 1, a, b));
            },
        }
    }
}

proof fn lemma_kind_same_bound(sets: Seq<SetModel>, name: Seq<char>, mt: MergeType, i: int, t: Option<(i32, CommandModel)>)
    requires
        0 <= i < sets.len(),
        kind_tally_ok(sets, name, mt, i, sets[i].commands.len() as int, t),
    ensures
        kind_tally_ok(sets, name, mt, i + 1, 0, t),
{
    let n = sets[i].commands.len() as int;
    match t {
        None => {
            assert forall|a: int, b: int| before(a, b, i + 1, 0) implies !#[trigger] contributes(sets, name, mt, a, b) by {
                if a == i && b >= n {
                }
            }
        },
        Some((cur, cc)) => {
            let (a, b) = choose|a: int, b: int|
                #[trigger] best_before(sets, name, mt, i, n, a, b) && cur == sets[a].priority && cc == sets[a].commands[b];
            assert forall|a2: int, b2: int|
                before(a2, b2, i + 1, 0) && #[trigger] contributes(sets, name, mt, a2, b2) implies (sets[a2].priority < sets[a].priority
                    || (sets[a2].priority == sets[a].priority && !before(a2, b2, a, b))) by {
                assert(before(a2, b2, i, n));
            }
            assert(best_before(sets, name, mt, i + 1, 0, a, b));
        },
    }
}

proof fn lemma_tally_commands_ok(sets: Seq<SetModel>, name: Seq<char>, i: int, j: int)
    requires
        0 <= i < sets.len(),
        0 <= j <= sets[i].commands.len(),
        tally_ok(sets, name, i, 0, tally_sets(sets, name, i)),
    ensures
        tally_ok(sets, name, i, j, tally_commands(tally_sets(sets, name, i), sets[i], name, j)),
    decreases j,
{
    if j > 0 {
        lemma_tally_commands_ok(sets, name, i, j - 1);
        let t = tally_commands(tally_sets(sets, name, i), sets[i], name, j - 1);
        let c = sets[i].commands[j - 1];
        lemma_kind_step(sets, name, MergeType::Replace, i, j - 1, t.replace);
        lemma_kind_step(sets, name, MergeType::Union, i, j - 1, t.union);
        let t2 = tally_commands(tally_sets(sets, name, i), sets[i], name, j);
        assert(t2.removed <==> exists|a: int, b: int| before(a, b, i, j) && #[trigger] contributes(sets, name, MergeType::Remove, a, b)) by {
            if contributes(sets, name, MergeType::Remove, i, j - 1) {
                assert(before(i, j - 1, i, j));
            }
            if exists|a: int, b: int| before(a, b, i, j) && #[trigger] contributes(sets, name, MergeType::Remove, a, b) {
                let (a, b) = choose|a: int, b: int| before(a, b, i, j) && #[trigger] contributes(sets, name, MergeType::Remove, a, b);
                if before(a, b, i, j - 1) {
                } else {
                    assert(a == i && b == j - 1);
                }
            }
        }
    }
}

proof fn lemma_tally_sets_ok(sets: Seq<SetModel>, name: Seq<char>, i: int)
    requires
        0 <= i <= sets.len(),
    ensures
        tally_ok(sets, name, i, 0, tally_sets(sets, name, i)),
    decreases i,
{
    if i > 0 {
        lemma_tally_sets_ok(sets, name, i - 1);
        let n = sets[i - 1].commands.len() as int;
        lemma_tally_commands_ok(sets, name, i - 1, n);
        let t = tally_sets(sets, name, i);
        lemma_kind_same_bound(sets, name, MergeType::Replace, i - 1, t.replace);
        lemma_kind_same_bound(sets, name, MergeType::Union, i - 1, t.union);
        assert(t.removed <==> exists|a: int, b: int| before(a, b, i, 0) && #[trigger] contributes(sets, name, MergeType::Remove, a, b)) by {
            if exists|a: int, b: int| before(a, b, i, 0) && #[trigger] contributes(sets, name, MergeType::Remove, a, b) {
                let (a, b) = choose|a: int, b: int| before(a, b, i, 0) && #[trigger] contributes(sets, name, MergeType::Remove, a, b);
                assert(before(a, b, i - 1, n));
            }
            if exists|a: int, b: int| before(a, b, i - 1, n) && #[trigger] contributes(sets, name, MergeType::Remove, a, b) {
                let (a, b) = choose|a: int, b: int| before(a, b, i - 1, n) && #[trigger] contributes(sets, name, MergeType::Remove, a, b);
                assert(before(a, b, i, 0));
            }
        }
    }
}

/// Some command of some set contributes `name` with rule `mt`.
pub open spec fn any_contributes(sets: Seq<SetModel>, name: Seq<char>, mt: MergeType) -> bool {
    exists|a: int, b: int| #[trigger] contributes(sets, name, mt, a, b)
}

/// Among all `mt` contributors of `name`, the one at `(a, b)` has the highest
/// priority and is the earliest of those with it.
pub open spec fn is_best(sets: Seq<SetModel>, name: Seq<char>, mt: MergeType, a: int, b: int) -> bool {
    best_before(sets, name, mt, sets.len() as int, 0, a, b)
}

/// How a name resolves: a `Remove` contributor deletes it whatever its
/// priority; otherwise the best `Replace` contributor wins whatever the
/// priority of any `Union` one; otherwise the best `Union` contributor wins,
/// where the best is the highest priority and, among equals, the earliest set
/// (then the earliest command in it); a name nobody contributes resolves to
/// nothing.
pub proof fn lemma_resolution(sets: Seq<SetModel>, name: Seq<char>)
    ensures
        any_contributes(sets, name, MergeType::Remove) ==> resolve_spec(sets, name) is None,
        !any_contributes(sets, name, MergeType::Remove) ==> (forall|a: int, b: int|
            #[trigger] is_best(sets, name, MergeType::Replace, a, b) ==> resolve_spec(sets, name) == Some(
                (sets[a].priority, sets[a].commands[b]),
            )),
        !any_contributes(sets, name, MergeType::Remove) && !any_contributes(sets, name, MergeType::Replace) ==> (
        forall|a: int, b: int|
            #[trigger] is_best(sets, name, MergeType::Union, a, b) ==> resolve_spec(sets, name) == Some(
                (sets[a].priority, sets[a].commands[b]),
            )),
        !any_contributes(sets, name, MergeType::Remove) && !any_contributes(sets, name, MergeType::Replace)
            && !any_contributes(sets, name, MergeType::Union) ==> resolve_spec(sets, name) is None,
{
    let n = sets.len() as int;
    lemma_tally_sets_ok(sets, name, n);
    let t = tally_sets(sets, name, n);
    if any_contributes(sets, name, MergeType::Remove) {
        let (a, b) = choose|a: int, b: int| #[trigger] contributes(sets, name, MergeType::Remove, a, b);
        assert(before(a, b, n, 0));
    }
    assert forall|a: int, b: int| #[trigger] is_best(sets, name, MergeType::Replace, a, b) && !any_contributes(sets, name, MergeType::Remove)
        implies resolve_spec(sets, name) == Some((sets[a].priority, sets[a].commands[b])) by {
        assert(!t.removed);
        assert(contributes(sets, name, MergeType::Replace, a, b));
        match t.replace {
            None => {
                assert(before(a, b, n, 0));
            },
            Some((p, c)) => {
                let (a1, b1) = choose|a1: int, b1: int|
                    #[trigger] best_before(sets, name, MergeType::Replace, n, 0, a1, b1) && p == sets[a1].priority && c == sets[a1].commands[b1];
                assert(contributes(sets, name, MergeType::Replace, a1, b1));
                assert(before(a1, b1, n, 0));
                if a1 != a || b1 != b {
                    assert(sets[a1].priority < sets[a].priority || (sets[a1].priority == sets[a].priority && !before(a1, b1, a, b)));
                    assert(sets[a].priority < sets[a1].priority || (sets[a].priority == sets[a1].priority && !before(a, b, a1, b1)));
                }
            },
        }
    }
    assert forall|a: int, b: int| #[trigger] is_best(sets, name, MergeType::Union, a, b) && !any_contributes(sets, name, MergeType::Remove)
        && !any_contributes(sets, name, MergeType::Replace) implies resolve_spec(sets, name) == Some((sets[a].priority, sets[a].commands[b])) by {
        assert(!t.removed);
        if t.replace is Some {
            let (p, c) = t.replace->0;
            let (a1, b1) = choose|a1: int, b1: int|
                #[trigger] best_before(sets, name, MergeType::Replace, n, 0, a1, b1) && p == sets[a1].priority && c == sets[a1].commands[b1];
            assert(contributes(sets, name, MergeType::Replace, a1, b1));
        }
        assert(contributes(sets, name, MergeType::Union, a, b));
        match t.union {
            None => {
                assert(before(a, b, n, 0));
            },
            Some((p, c)) => {
                let (a1, b1) = choose|a1: int, b1: int|
                    #[trigger] best_before(sets, name, MergeType::Union, n, 0, a1, b1) && p == sets[a1].priority && c == sets[a1].commands[b1];
                assert(contributes(sets, name, MergeType::Union, a1, b1));
                assert(before(a1, b1, n, 0));
                if a1 != a || b1 != b {
                    assert(sets[a1].priority < sets[a].priority || (sets[a1].priority == sets[a].priority && !before(a1, b1, a, b)));
                    assert(sets[a].priority < sets[a1].priority || (sets[a].priority == sets[a1].priority && !before(a, b, a1, b1)));
                }
            },
        }
    }
    if !any_contributes(sets, name, MergeType::Remove) && !any_contributes(sets, name, MergeType::Replace)
        && !any_contributes(sets, name, MergeType::Union) {
        if t.replace is Some {
            let (p, c) = t.replace->0;
            let (a1, b1) = choose|a1: int, b1: int|
                #[trigger] best_before(sets, name, MergeType::Replace, n, 0, a1, b1) && p == sets[a1].priority && c == sets[a1].commands[b1];
            assert(contributes(sets, name, MergeType::Replace, a1, b1));
        }
        if t.union is Some {
            let (p, c) = t.union->0;
            let (a1, b1) = choose|a1: int, b1: int|
                #[trigger] best_before(sets, name, MergeType::Union, n, 0, a1, b1) && p == sets[a1].priority && c == sets[a1].commands[b1];
            assert(contributes(sets, name, MergeType::Union, a1, b1));
        }
    }
}

/// What a merge of `sets` yields, over plain values: commands sorted by
/// canonical name, exactly the names some set contributes and that resolve,
/// each listed as its resolution.
pub open spec fn merge_result(sets: Seq<SetModel>, cs: Seq<CommandModel>) -> bool {
    &&& lex_sorted(cs.map_values(|c: CommandModel| c.name))
    &&& forall|n: Seq<char>|
        (exists|k: int| 0 <= k < cs.len() && (#[trigger] cs[k]).name == n) <==> (name_in_sets(sets, n) && resolve_spec(
            sets,
            n,
        ) is Some)
    &&& forall|k: int|
        0 <= k < cs.len() ==> resolve_spec(sets, (#[trigger] cs[k]).name) == Some(
            (winning_priority(sets, cs[k].name), cs[k]),
        )
}

/// Two strictly sorted sequences with the same members are equal.
proof fn lemma_sorted_same_members(a: Seq<Seq<char>>, b: Seq<Seq<char>>)
    requires
        lex_sorted(a),
        lex_sorted(b),
        forall|x: Seq<char>| a.contains(x) <==> b.contains(x),
    ensures
        a == b,
    decreases a.len() + b.len(),
{
    if a.len() == 0 || b.len() == 0 {
        if a.len() > 0 {
            assert(a.contains(a[0]));
        }
        if b.len() > 0 {
            assert(b.contains(b[0]));
        }
        assert(a =~= b);
    } else {
        assert(a.contains(a[0]));
        assert(b.contains(b[0]));
        let j = choose|j: int| 0 <= j < b.len() && b[j] == a[0];
        let i = choose|i: int| 0 <= i < a.len() && a[i] == b[0];
        if a[0] != b[0] {
            assert(i > 0 && j > 0);
            assert(lex_lt(a[0], a[i]));
            assert(lex_lt(b[0], b[j]));
            lemma_lex_asymmetric(a[0], b[0]);
        }
        let a1 = a.skip(1);
        let b1 = b.skip(1);
        assert(lex_sorted(a1)) by {
            assert forall|p: int, q: int| 0 <= p < q < a1.len() implies lex_lt(#[trigger] a1[p], #[trigger] a1[q]) by {
                assert(a1[p] == a[p + 1] && a1[q] == a[q + 1]);
            }
        }
        assert(lex_sorted(b1)) by {
            assert forall|p: int, q: int| 0 <= p < q < b1.len() implies lex_lt(#[trigger] b1[p], #[trigger] b1[q]) by {
                assert(b1[p] == b[p + 1] && b1[q] == b[q + 1]);
            }
        }
        assert forall|x: Seq<char>| a1.contains(x) <==> b1.contains(x) by {
            if a1.contains(x) {
                let p = choose|p: int| 0 <= p < a1.len() && a1[p] == x;
                assert(a[p + 1] == x);
                assert(lex_lt(a[0], a[p + 1]));
                lemma_lex_irreflexive(x);
                assert(a.contains(x));
                assert(b.contains(x));
                let q = choose|q: int| 0 <= q < b.len() && b[q] == x;
                assert(q != 0);
                assert(b1[q - 1] == x);
            }
            if b1.contains(x) {
                let p = choose|p: int| 0 <= p < b1.len() && b1[p] == x;
                assert(b[p + 1] == x);
                assert(lex_lt(b[0], b[p + 1]));
                lemma_lex_irreflexive(x);
                assert(b.contains(x));
                assert(a.contains(x));
                let q = choose|q: int| 0 <= q < a.len() && a[q] == x;
                assert(q != 0);
                assert(a1[q - 1] == x);
            }
        }
        lemma_sorted_same_members(a1, b1);
        assert(a =~= seq![a[0]] + a1);
        assert(b =~= seq![b[0]] + b1);
    }
}

/// A merge is determined by its inputs: any two command lists that are each
/// what a merge of `sets` yields are equal, and so are the token indexes
/// settled over them.
pub proof fn lemma_merge_determined(sets: Seq<SetModel>, c1: Seq<CommandModel>, c2: Seq<CommandModel>)
    requires
        merge_result(sets, c1),
        merge_result(sets, c2),
    ensures
        c1 == c2,
        settle_spec(merged_ranked(sets, c1)) == settle_spec(merged_ranked(sets, c2)),
{
    let n1 = c1.map_values(|c: CommandModel| c.name);
    let n2 = c2.map_values(|c: CommandModel| c.name);
    assert forall|x: Seq<char>| n1.contains(x) <==> n2.contains(x) by {
        if n1.contains(x) {
            let k = choose|k: int| 0 <= k < n1.len() && n1[k] == x;
            assert(c1[k].name == x);
            assert(name_in_sets(sets, x) && resolve_spec(sets, x) is Some);
            assert(exists|k2: int| 0 <= k2 < c2.len() && (#[trigger] c2[k2]).name == x);
            let k2 = choose|k2: int| 0 <= k2 < c2.len() && (#[trigger] c2[k2]).name == x;
            assert(n2[k2] == x);
        }
        if n2.contains(x) {
            let k = choose|k: int| 0 <= k < n2.len() && n2[k] == x;
            assert(c2[k].name == x);
            assert(name_in_sets(sets, x) && resolve_spec(sets, x) is Some);
            assert(exists|k1: int| 0 <= k1 < c1.len() && (#[trigger] c1[k1]).name == x);
            let k1 = choose|k1: int| 0 <= k1 < c1.len() && (#[trigger] c1[k1]).name == x;
            assert(n1[k1] == x);
        }
    }
    lemma_sorted_same_members(n1, n2);
    assert(n1.len() == n2.len());
    assert forall|k: int| 0 <= k < c1.len() implies c1[k] == c2[k] by {
        assert(n1[k] == n2[k]);
        assert(resolve_spec(sets, c1[k].name) == Some((winning_priority(sets, c1[k].name), c1[k])));
        assert(resolve_spec(sets, c2[k].name) == Some((winning_priority(sets, c2[k].name), c2[k])));
    }
    assert(c1 =~= c2);
}

} // verus!
