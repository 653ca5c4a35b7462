//! A prefix trie over command names and aliases backing command lookup.
//!
//! Keys are the lowercase tokens a command answers to; each terminal node
//! carries the command's index into the owning table's command vector. Lookup
//! distinguishes an **exact** terminal from the set of commands reachable by
//! **prefix**, which is what lets an exact name beat a longer command it is a
//! prefix of (e.g. `n` resolves the `n` alias, never ambiguous against
//! `north`).

use std::collections::BTreeMap;
use vstd::prelude::*;
use vstd::std_specs::iter::IteratorSpec;
use crate::chars::chars_of;

verus! {

/// The outcome of resolving a token against the index.
#[derive(Debug, PartialEq, Eq)]
pub enum TrieMatch {
    /// The token is itself a registered name; resolves to that command index.
    Exact(usize),
    /// The token is a strict prefix of registered names (or empty); the
    /// reachable command indices, deduplicated and sorted ascending.
    Prefix(Vec<usize>),
    /// No registered name starts with the token.
    NoMatch,
}

/// `s` is strictly increasing.
pub open spec fn sorted_strict(s: Seq<usize>) -> bool {
    forall|i: int, j: int| 0 <= i < j < s.len() ==> s[i] < s[j]
}

/// The command indices registered under a key that starts with `token`.
pub open spec fn reachable(m: Map<Seq<char>, usize>, token: Seq<char>) -> Set<usize> {
    Set::new(|i: usize| exists|k: Seq<char>| #[trigger] m.contains_key(k) && token.is_prefix_of(k) && m[k] == i)
}

/// Some registered key starts with `token`.
pub open spec fn has_extension(m: Map<Seq<char>, usize>, token: Seq<char>) -> bool {
    exists|k: Seq<char>| #[trigger] m.contains_key(k) && token.is_prefix_of(k)
}

/// What a lookup of `token` in the key map `m` yields: the exact key wins;
/// else, if some key extends the token (the empty token reaches the root), the
/// reachable indices; else nothing.
pub open spec fn lookup_spec(m: Map<Seq<char>, usize>, token: Seq<char>, r: TrieMatch) -> bool {
    match r {
        TrieMatch::Exact(i) => m.contains_key(token) && i == m[token],
        TrieMatch::Prefix(v) => {
            &&& !m.contains_key(token)
            &&& (token.len() == 0 || has_extension(m, token))
            &&& sorted_strict(v@)
            &&& forall|i: usize| v@.contains(i) <==> reachable(m, token).contains(i)
        },
        TrieMatch::NoMatch => !m.contains_key(token) && token.len() > 0 && !has_extension(m, token),
    }
}

/// One node of the trie: its children, keyed by the scalar value of the next
/// character (whose order is the characters' order), and the command index of
/// the key that ends here, if one does.
#[derive(Debug)]
struct TrieNode {
    children: BTreeMap<u32, TrieNode>,
    terminal: Option<usize>,
}

/// The node reached from `n` by following `path`, if any.
spec fn node_at(n: TrieNode, path: Seq<char>) -> Option<TrieNode>
    decreases path.len(),
{
    if path.len() == 0 {
        Some(n)
    } else if n.children@.contains_key(path[0] as u32) {
        node_at(n.children@[path[0] as u32], path.drop_first())
    } else {
        None
    }
}

/// The command index registered under `path` below `n`, if any.
spec fn value_at(n: TrieNode, path: Seq<char>) -> Option<usize> {
    match node_at(n, path) {
        Some(m) => m.terminal,
        None => None,
    }
}

/// The scalar value of `c`, by which a child is keyed.
spec fn code(c: char) -> u32 {
    c as u32
}

/// Distinct characters have distinct scalar values.
proof fn lemma_code_injective(a: char, b: char)
    requires
        code(a) == code(b),
    ensures
        a == b,
{
}

/// Every child of `n` is keyed by the scalar value of some character.
spec fn keys_are_chars(n: TrieNode) -> bool {
    forall|u: u32| #[trigger] n.children@.contains_key(u) ==> exists|c: char| #[trigger] code(c) == u
}

/// Every node at or below `n` keys its children by characters.
spec fn chars_below(n: TrieNode) -> bool {
    forall|p: Seq<char>| #[trigger] node_at(n, p) is Some ==> keys_are_chars(node_at(n, p)->Some_0)
}

/// The command indices registered at or below `n`.
spec fn below(n: TrieNode) -> Set<usize> {
    Set::new(|v: usize| exists|p: Seq<char>| #[trigger] value_at(n, p) == Some(v))
}

/// `n` has no children and no terminal.
spec fn is_leaf(n: TrieNode) -> bool {
    n.children@ == Map::<u32, TrieNode>::empty() && n.terminal is None
}

/// Following one character from `n`.
proof fn lemma_step(n: TrieNode, c: char, q: Seq<char>)
    ensures
        node_at(n, seq![c] + q) == (if n.children@.contains_key(c as u32) {
            node_at(n.children@[c as u32], q)
        } else {
            None
        }),
{
    assert((seq![c] + q).drop_first() =~= q);
    assert((seq![c] + q)[0] == c);
}

/// Following `a` then `b` is following `a + b`.
proof fn lemma_concat(n: TrieNode, a: Seq<char>, b: Seq<char>)
    ensures
        node_at(n, a + b) == (match node_at(n, a) {
            Some(m) => node_at(m, b),
            None => None,
        }),
    decreases a.len(),
{
    if a.len() == 0 {
        assert(a + b =~= b);
    } else {
        assert((a + b).drop_first() =~= a.drop_first() + b);
        assert((a + b)[0] == a[0]);
        if n.children@.contains_key(a[0] as u32) {
            lemma_concat(n.children@[a[0] as u32], a.drop_first(), b);
        }
    }
}

/// Nothing is reachable below a leaf but the leaf itself.
proof fn lemma_leaf(n: TrieNode, p: Seq<char>)
    requires
        is_leaf(n),
    ensures
        value_at(n, p) is None,
        node_at(n, p) is Some ==> p.len() == 0,
        chars_below(n),
{
    assert forall|q: Seq<char>| #[trigger] node_at(n, q) is Some implies keys_are_chars(node_at(n, q)->Some_0) by {
        if q.len() > 0 {
            assert(!n.children@.contains_key(q[0] as u32));
        }
    }
    if p.len() > 0 {
        assert(!n.children@.contains_key(p[0] as u32));
    }
}

/// The children of a node whose keys are characters stay so below.
proof fn lemma_child_chars(n: TrieNode, c: char)
    requires
        chars_below(n),
        n.children@.contains_key(c as u32),
    ensures
        chars_below(n.children@[c as u32]),
{
    let child = n.children@[c as u32];
    assert forall|q: Seq<char>| #[trigger] node_at(child, q) is Some implies keys_are_chars(node_at(child, q)->Some_0) by {
        lemma_step(n, c, q);
        assert(node_at(n, seq![c] + q) is Some);
    }
}

/// What is registered below `n`: its own terminal and what is below each
/// child.
proof fn lemma_below(n: TrieNode, v: usize)
    requires
        chars_below(n),
    ensures
        below(n).contains(v) <==> (n.terminal == Some(v) || exists|u: u32|
            #[trigger] n.children@.contains_key(u) && below(n.children@[u]).contains(v)),
{
    if below(n).contains(v) {
        let p = choose|p: Seq<char>| #[trigger] value_at(n, p) == Some(v);
        if p.len() > 0 {
            let u = p[0] as u32;
            assert(n.children@.contains_key(u));
            assert(value_at(n.children@[u], p.drop_first()) == Some(v));
            assert(below(n.children@[u]).contains(v));
        } else {
            assert(node_at(n, p) == Some(n));
        }
    }
    if n.terminal == Some(v) {
        assert(value_at(n, Seq::<char>::empty()) == Some(v));
    }
    if exists|u: u32| #[trigger] n.children@.contains_key(u) && below(n.children@[u]).contains(v) {
        let u = choose|u: u32| #[trigger] n.children@.contains_key(u) && below(n.children@[u]).contains(v);
        assert(node_at(n, Seq::<char>::empty()) == Some(n));
        assert(keys_are_chars(n));
        let c = choose|c: char| code(c) == u;
        let q = choose|q: Seq<char>| #[trigger] value_at(n.children@[u], q) == Some(v);
        lemma_step(n, c, q);
        assert(value_at(n, seq![c] + q) == Some(v));
    }
}

/// Registers the key `cs[i..]` below `node` as resolving to `idx`.
fn insert_at(node: &mut TrieNode, cs: &Vec<char>, i: usize, idx: usize)
    requires
        i <= cs@.len(),
        chars_below(*old(node)),
    ensures
        chars_below(*final(node)),
        forall|p: Seq<char>| #[trigger] value_at(*final(node), p) == (if p == cs@.skip(i as int) {
            Some(idx)
        } else {
            value_at(*old(node), p)
        }),
        forall|p: Seq<char>| #[trigger] node_at(*final(node), p) is Some ==> node_at(*old(node), p) is Some
            || p.is_prefix_of(cs@.skip(i as int)),
    decreases cs@.len() - i,
{
    broadcast use vstd::std_specs::btree::group_btree_axioms;

    if i == cs.len() {
        node.terminal = Some(idx);
        proof {
            let o = *old(node);
            let f = *node;
            assert(cs@.skip(i as int) =~= Seq::<char>::empty());
            assert forall|p: Seq<char>| #[trigger] value_at(f, p) == (if p == cs@.skip(i as int) {
                Some(idx)
            } else {
                value_at(o, p)
            }) by {
                if p.len() == 0 {
                    assert(p =~= cs@.skip(i as int));
                } else {
                    assert(p != cs@.skip(i as int));
                }
            }
            assert forall|p: Seq<char>| #[trigger] node_at(f, p) is Some implies keys_are_chars(node_at(f, p)->Some_0) by {
                if p.len() == 0 {
                    assert(node_at(o, p) == Some(o));
                } else {
                    assert(node_at(f, p) == node_at(o, p));
                }
            }
            assert forall|p: Seq<char>| #[trigger] node_at(f, p) is Some implies node_at(o, p) is Some
                || p.is_prefix_of(cs@.skip(i as int)) by {
                if p.len() == 0 {
                    assert(node_at(o, p) == Some(o));
                } else {
                    assert(node_at(f, p) == node_at(o, p));
                }
            }
        }
        return;
    }
    let c = cs[i];
    let u: u32 = c as u32;
    let ghost o = *node;
    let mut child = match node.children.remove(&u) {
        Some(child) => child,
        None => TrieNode { children: BTreeMap::new(), terminal: None },
    };
    let ghost child0 = child;
    proof {
        if o.children@.contains_key(u) {
            assert(child0 == o.children@[u]);
            lemma_child_chars(o, c);
        } else {
            assert(is_leaf(child0));
            lemma_leaf(child0, Seq::<char>::empty());
        }
    }
    insert_at(&mut child, cs, i + 1, idx);
    let ghost child1 = child;
    node.children.insert(u, child);
    proof {
        let f = *node;
        let key = cs@.skip(i as int);
        assert(f.children@ == o.children@.insert(u, child1));
        assert(f.terminal == o.terminal);
        assert(key.len() > 0 && key[0] == c);
        assert(key.drop_first() =~= cs@.skip(i + 1));
        assert forall|p: Seq<char>| #[trigger] value_at(f, p) == (if p == key { Some(idx) } else { value_at(o, p) }) by {
            if p.len() == 0 {
                assert(p != key);
                assert(node_at(f, p) == Some(f));
                assert(node_at(o, p) == Some(o));
            } else if p[0] as u32 == u {
                lemma_code_injective(p[0], c);
                let q = p.drop_first();
                assert(p =~= seq![c] + q);
                lemma_step(f, c, q);
                lemma_step(o, c, q);
                assert(key =~= seq![c] + cs@.skip(i + 1));
                if q == cs@.skip(i + 1) {
                    assert(p == key);
                } else {
                    assert(p != key);
                }
                if !o.children@.contains_key(u) {
                    lemma_leaf(child0, q);
                }
                assert(value_at(child1, q) == (if q == cs@.skip(i + 1) { Some(idx) } else { value_at(child0, q) }));
                assert(value_at(f, p) == value_at(child1, q));
                assert(value_at(o, p) == value_at(child0, q));
            } else {
                assert(p != key);
                assert(f.children@.contains_key(p[0] as u32) == o.children@.contains_key(p[0] as u32));
                if o.children@.contains_key(p[0] as u32) {
                    assert(f.children@[p[0] as u32] == o.children@[p[0] as u32]);
                }
            }
        }
        assert forall|p: Seq<char>| #[trigger] node_at(f, p) is Some implies keys_are_chars(node_at(f, p)->Some_0) by {
            if p.len() == 0 {
                assert(node_at(f, p) == Some(f));
                assert(node_at(o, p) == Some(o));
                assert(keys_are_chars(o));
                assert forall|w: u32| #[trigger] f.children@.contains_key(w) implies exists|d: char| #[trigger] code(d) == w by {
                    if w == u {
                        assert(code(c) == w);
                    } else {
                        assert(o.children@.contains_key(w));
                    }
                }
            } else if p[0] as u32 == u {
                let q = p.drop_first();
                assert(node_at(f, p) == node_at(child1, q));
            } else {
                assert(f.children@.contains_key(p[0] as u32) == o.children@.contains_key(p[0] as u32));
                if o.children@.contains_key(p[0] as u32) {
                    assert(f.children@[p[0] as u32] == o.children@[p[0] as u32]);
                }
                assert(node_at(f, p) == node_at(o, p));
            }
        }
        assert forall|p: Seq<char>| #[trigger] node_at(f, p) is Some implies node_at(o, p) is Some
            || p.is_prefix_of(key) by {
            if p.len() == 0 {
                assert(node_at(o, p) == Some(o));
            } else if p[0] as u32 == u {
                lemma_code_injective(p[0], c);
                let q = p.drop_first();
                assert(p =~= seq![c] + q);
                lemma_step(f, c, q);
                lemma_step(o, c, q);
                assert(node_at(f, p) == node_at(child1, q));
                if q.is_prefix_of(cs@.skip(i + 1)) {
                    assert(key.take(p.len() as int) =~= p);
                } else if !o.children@.contains_key(u) {
                    lemma_leaf(child0, q);
                    assert(q.is_prefix_of(cs@.skip(i + 1)));
                }
            } else {
                assert(f.children@.contains_key(p[0] as u32) == o.children@.contains_key(p[0] as u32));
                if o.children@.contains_key(p[0] as u32) {
                    assert(f.children@[p[0] as u32] == o.children@[p[0] as u32]);
                }
                assert(node_at(f, p) == node_at(o, p));
            }
        }
    }
}

/// Something is registered at or below every node reachable from `n`.
#[verifier::opaque]
spec fn live(n: TrieNode) -> bool {
    forall|p: Seq<char>| #[trigger] node_at(n, p) is Some ==> exists|q: Seq<char>| #[trigger] value_at(n, p + q) is Some
}

/// Registering a key leaves no node without a key below it.
proof fn lemma_insert_keeps_live(o: TrieNode, f: TrieNode, key: Seq<char>, idx: usize)
    requires
        live(o) || is_leaf(o),
        forall|p: Seq<char>| #[trigger] value_at(f, p) == (if p == key { Some(idx) } else { value_at(o, p) }),
        forall|p: Seq<char>| #[trigger] node_at(f, p) is Some ==> node_at(o, p) is Some || p.is_prefix_of(key),
    ensures
        live(f),
{
    reveal(live);
    assert forall|p: Seq<char>| #[trigger] node_at(f, p) is Some implies exists|q: Seq<char>| #[trigger] value_at(f, p + q) is Some by {
        if !p.is_prefix_of(key) {
            assert(node_at(o, p) is Some);
            if is_leaf(o) {
                lemma_leaf(o, p);
                assert(key.take(0) =~= p);
            }
            let q = choose|q: Seq<char>| #[trigger] value_at(o, p + q) is Some;
            assert(value_at(f, p + q) is Some);
        } else {
            let q = key.skip(p.len() as int);
            assert(p + q =~= key);
            assert(value_at(f, p + q) is Some);
        }
    }
}

/// Adds every command index registered at or below `node` to `out`, keeping
/// it strictly increasing.
fn collect_terminals(node: &TrieNode, out: &mut Vec<usize>)
    requires
        chars_below(*node),
        sorted_strict(old(out)@),
    ensures
        sorted_strict(final(out)@),
        forall|v: usize| #[trigger] final(out)@.contains(v) <==> (old(out)@.contains(v) || below(*node).contains(v)),
    decreases *node,
{
    broadcast use vstd::std_specs::btree::group_btree_axioms;

    let ghost out0 = out@;
    if let Some(index) = node.terminal {
        insert_sorted(out, index);
    }
    for (k, child) in it: node.children.iter()
        invariant
            chars_below(*node),
            it.seq() == vstd::std_specs::btree::spec_btree_map_iter(&node.children).remaining(),
            sorted_strict(out@),
            forall|v: usize| #[trigger] out@.contains(v) <==> (out0.contains(v) || node.terminal == Some(v)
                || exists|j: int| 0 <= j < it.index() && below(*(#[trigger] it.seq()[j]).1).contains(v)),
    {
        proof {
            assert(it.seq()[it.index()] == (k, child));
            assert(node.children@.contains_key(*k) && node.children@[*k] == *child);
            assert(decreases_to!(node.children => node.children@));
            assert(decreases_to!(node.children@ => node.children@[*k]));
            assert(decreases_to!(*node => node.children));
            assert(node_at(*node, Seq::<char>::empty()) == Some(*node));
            assert(keys_are_chars(*node));
            let c = choose|c: char| code(c) == *k;
            lemma_child_chars(*node, c);
        }
        let ghost before = out@;
        collect_terminals(child, out);
        proof {
            assert forall|v: usize| #[trigger] out@.contains(v) <==> (out0.contains(v) || node.terminal == Some(v)
                || exists|j: int| 0 <= j < it.index() + 1 && below(*(#[trigger] it.seq()[j]).1).contains(v)) by {
                if exists|j: int| 0 <= j < it.index() + 1 && below(*(#[trigger] it.seq()[j]).1).contains(v) {
                    let j = choose|j: int| 0 <= j < it.index() + 1 && below(*(#[trigger] it.seq()[j]).1).contains(v);
                    if j < it.index() {
                        assert(before.contains(v));
                    }
                }
                if below(*child).contains(v) {
                    assert(below(*it.seq()[it.index()].1).contains(v));
                }
            }
        }
    }
    proof {
        let seq = vstd::std_specs::btree::spec_btree_map_iter(&node.children).remaining();
        assert forall|v: usize| #[trigger] out@.contains(v) <==> (out0.contains(v) || below(*node).contains(v)) by {
            lemma_below(*node, v);
            if exists|j: int| 0 <= j < seq.len() && below(*(#[trigger] seq[j]).1).contains(v) {
                let j = choose|j: int| 0 <= j < seq.len() && below(*(#[trigger] seq[j]).1).contains(v);
                assert(node.children@.contains_key(*seq[j].0) && node.children@[*seq[j].0] == *seq[j].1);
            }
            if exists|u: u32| #[trigger] node.children@.contains_key(u) && below(node.children@[u]).contains(v) {
                let u = choose|u: u32| #[trigger] node.children@.contains_key(u) && below(node.children@[u]).contains(v);
                assert(seq.contains((&u, &node.children@[u])));
                let j = choose|j: int| 0 <= j < seq.len() && seq[j] == (&u, &node.children@[u]);
                assert(below(*seq[j].1).contains(v));
            }
        }
    }
}

/// A char-keyed prefix trie mapping command names to command indices.
#[derive(Debug)]
pub struct PrefixTrie {
    root: TrieNode,
}

impl PrefixTrie {
    /// Every node keys its children by characters, and, unless the trie is
    /// empty, has a key registered at or below it.
    pub closed spec fn wf(&self) -> bool {
        &&& chars_below(self.root)
        &&& (is_leaf(self.root) || live(self.root))
    }

    /// The registered keys and the command index each resolves to.
    pub closed spec fn map(&self) -> Map<Seq<char>, usize> {
        Map::new(
            |k: Seq<char>| value_at(self.root, k) is Some,
            |k: Seq<char>| value_at(self.root, k)->Some_0,
        )
    }

    /// A token whose path leaves the trie at `a` matches nothing.
    proof fn lemma_dead_end(&self, t: Seq<char>, a: Seq<char>)
        requires
            a.is_prefix_of(t),
            a.len() > 0,
            node_at(self.root, a) is None,
        ensures
            lookup_spec(self.map(), t, TrieMatch::NoMatch),
    {
        let m = self.map();
        assert forall|k: Seq<char>| a.is_prefix_of(k) implies !(#[trigger] m.contains_key(k)) by {
            assert(k =~= a + k.skip(a.len() as int));
            lemma_concat(self.root, a, k.skip(a.len() as int));
        }
        assert forall|k: Seq<char>| t.is_prefix_of(k) implies !(#[trigger] m.contains_key(k)) by {
            assert(k.take(a.len() as int) =~= t.take(a.len() as int));
            assert(a.is_prefix_of(k));
        }
        assert(t.is_prefix_of(t));
    }

    /// The indices collected below the node a token leads to, when no key ends
    /// there, are the token's prefix answer.
    proof fn lemma_collected(&self, t: Seq<char>, node: TrieNode, indices: Vec<usize>)
        requires
            self.wf(),
            node_at(self.root, t) == Some(node),
            node.terminal is None,
            sorted_strict(indices@),
            forall|v: usize| #[trigger] indices@.contains(v) <==> below(node).contains(v),
        ensures
            lookup_spec(self.map(), t, TrieMatch::Prefix(indices)),
    {
        let m = self.map();
        assert forall|v: usize| indices@.contains(v) <==> reachable(m, t).contains(v) by {
            if below(node).contains(v) {
                let q = choose|q: Seq<char>| #[trigger] value_at(node, q) == Some(v);
                lemma_concat(self.root, t, q);
                assert((t + q).take(t.len() as int) =~= t);
                assert(m.contains_key(t + q) && t.is_prefix_of(t + q) && m[t + q] == v);
            }
            if reachable(m, t).contains(v) {
                let k = choose|k: Seq<char>| #[trigger] m.contains_key(k) && t.is_prefix_of(k) && m[k] == v;
                let q = k.skip(t.len() as int);
                assert(k =~= t + q);
                lemma_concat(self.root, t, q);
                assert(value_at(node, q) == Some(v));
            }
        }
        if t.len() > 0 {
            if is_leaf(self.root) {
                lemma_leaf(self.root, t);
            }
            assert(exists|q: Seq<char>| #[trigger] value_at(self.root, t + q) is Some) by {
                reveal(live);
            }
            let q = choose|q: Seq<char>| #[trigger] value_at(self.root, t + q) is Some;
            lemma_concat(self.root, t, q);
            let v = value_at(node, q)->Some_0;
            assert(below(node).contains(v));
            assert(indices@.contains(v));
            assert(reachable(m, t).contains(v));
            let k = choose|k: Seq<char>| #[trigger] m.contains_key(k) && t.is_prefix_of(k) && m[k] == v;
            assert(has_extension(m, t));
        }
    }

    /// An empty trie.
    pub fn new() -> (r: Self)
        ensures
            r.wf(),
            r.map() == Map::<Seq<char>, usize>::empty(),
    {
        broadcast use vstd::std_specs::btree::group_btree_axioms;

        let r = PrefixTrie { root: TrieNode { children: BTreeMap::new(), terminal: None } };
        proof {
            assert(is_leaf(r.root));
            lemma_leaf(r.root, Seq::<char>::empty());
            assert forall|k: Seq<char>| !(#[trigger] r.map().contains_key(k)) by {
                lemma_leaf(r.root, k);
            }
            assert(r.map() =~= Map::<Seq<char>, usize>::empty());
        }
        r
    }

    /// Registers `key` as resolving to `command_index`; a repeat insert
    /// overwrites the earlier index.
    pub fn insert(&mut self, key: &str, command_index: usize)
        requires
            old(self).wf(),
        ensures
            final(self).wf(),
            final(self).map() == old(self).map().insert(key@, command_index),
    {
        let cs = chars_of(key);
        let ghost o = self.map();
        insert_at(&mut self.root, &cs, 0, command_index);
        proof {
            assert(cs@.skip(0) =~= key@);
            lemma_insert_keeps_live(old(self).root, self.root, cs@.skip(0), command_index);
            assert forall|k: Seq<char>| #[trigger] self.map().contains_key(k) == o.insert(key@, command_index).contains_key(k)
                && (self.map().contains_key(k) ==> self.map()[k] == o.insert(key@, command_index)[k]) by {
                assert(value_at(self.root, k) == (if k == cs@.skip(0) { Some(command_index) } else { value_at(old(self).root, k) }));
            }
            assert(self.map() =~= o.insert(key@, command_index));
        }
    }

    /// Resolves `token` to an exact match, a prefix candidate set, or nothing.
    pub fn lookup(&self, token: &str) -> (r: TrieMatch)
        requires
            self.wf(),
        ensures
            lookup_spec(self.map(), token@, r),
    {
        broadcast use vstd::std_specs::btree::group_btree_axioms;

        let cs = chars_of(token);
        let ghost t = token@;
        let mut node = &self.root;
        let mut i: usize = 0;
        proof {
            assert(cs@.take(0) =~= Seq::<char>::empty());
        }
        while i < cs.len()
            invariant
                cs@ == t,
                t == token@,
                i <= cs@.len(),
                node_at(self.root, cs@.take(i as int)) == Some(*node),
            decreases cs@.len() - i,
        {
            let c = cs[i];
            proof {
                assert(cs@.take(i + 1) =~= cs@.take(i as int) + seq![c]);
                lemma_concat(self.root, cs@.take(i as int), seq![c]);
                lemma_step(*node, c, Seq::<char>::empty());
                assert(seq![c] + Seq::<char>::empty() =~= seq![c]);
            }
            match node.children.get(&(c as u32)) {
                Some(child) => {
                    node = child;
                },
                None => {
                    proof {
                        self.lemma_dead_end(t, cs@.take(i + 1));
                    }
                    return TrieMatch::NoMatch;
                },
            }
            i = i + 1;
        }
        proof {
            assert(cs@.take(i as int) =~= t);
        }
        if let Some(index) = node.terminal {
            return TrieMatch::Exact(index);
        }
        let mut indices: Vec<usize> = Vec::new();
        proof {
            lemma_concat_chars(self.root, t);
        }
        collect_terminals(node, &mut indices);
        proof {
            self.lemma_collected(t, *node, indices);
        }
        TrieMatch::Prefix(indices)
    }
}

/// The node a path leads to inherits the key discipline of the root.
proof fn lemma_concat_chars(n: TrieNode, t: Seq<char>)
    requires
        chars_below(n),
        node_at(n, t) is Some,
    ensures
        chars_below(node_at(n, t)->Some_0),
{
    let m = node_at(n, t)->Some_0;
    assert forall|q: Seq<char>| #[trigger] node_at(m, q) is Some implies keys_are_chars(node_at(m, q)->Some_0) by {
        lemma_concat(n, t, q);
        assert(node_at(n, t + q) is Some);
    }
}

/// Inserts `x` into the strictly increasing `v`, keeping it so.
fn insert_sorted(v: &mut Vec<usize>, x: usize)
    requires
        sorted_strict(old(v)@),
    ensures
        sorted_strict(final(v)@),
        forall|i: usize| final(v)@.contains(i) <==> (old(v)@.contains(i) || i == x),
{
    let mut p: usize = 0;
    while p < v.len() && v[p] < x
        invariant
            p <= v@.len(),
            forall|k: int| 0 <= k < p ==> v@[k] < x,
        decreases v@.len() - p,
    {
        p = p + 1;
    }
    if p < v.len() && v[p] == x {
        assert(v@.contains(x) && v@[p as int] == x);
        return;
    }
    let ghost o = v@;
    assert(o == old(v)@);
    v.insert(p, x);
    proof {
        assert(v@ =~= o.insert(p as int, x));
        assert forall|i: int, j: int| 0 <= i < j < v@.len() implies v@[i] < v@[j] by {
            if j < p {
            } else if j == p {
            } else if i < p {
                assert(v@[j] == o[j - 1]);
            } else if i == p {
                assert(v@[j] == o[j - 1]);
            } else {
                assert(v@[i] == o[i - 1]);
                assert(v@[j] == o[j - 1]);
            }
        }
        assert forall|i: usize| v@.contains(i) <==> (o.contains(i) || i == x) by {
            if v@.contains(i) {
                let k = choose|k: int| 0 <= k < v@.len() && v@[k] == i;
                if k < p {
                    assert(o[k] == i);
                } else if k > p {
                    assert(o[k - 1] == i);
                }
            }
            if o.contains(i) {
                let k = choose|k: int| 0 <= k < o.len() && o[k] == i;
                if k < p {
                    assert(v@[k] == i);
                } else {
                    assert(v@[k + 1] == i);
                }
            }
            if i == x {
                assert(v@[p as int] == x);
            }
        }
        assert(forall|i: usize| v@.contains(i) <==> (old(v)@.contains(i) || i == x));
    }
}

} // verus!
