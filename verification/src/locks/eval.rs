//! Lock evaluation: walks a resolved [`Lock`] against a [`LockContext`],
//! dispatching on the typed [`LockFn`].

use vstd::prelude::*;
use crate::chars::str_eq;
use super::ast::{Lock, LockFn, LockFnModel, ResolvedExpr, ResolvedModel, strings_view};
use super::parser::{ascii_identifier, kw_and, kw_not, kw_or, lemma_call_parses, spec_parse_lock};
use super::resolve::resolve_expr_spec;

verus! {

broadcast use vstd::seq_lib::group_seq_properties;

/// The facts a lock check evaluates against.
///
/// `perm`/`status` describe the accessor (the caller), `attr`/`tag` describe
/// the accessed object, and `self` asks whether the two are the same entity.
#[derive(Debug, Clone)]
pub struct LockContext {
    perms: Vec<String>,
    attrs: Vec<String>,
    tags: Vec<String>,
    statuses: Vec<String>,
    is_self: bool,
}

/// The facts of a [`LockContext`] over plain values.
pub struct ContextModel {
    pub perms: Set<Seq<char>>,
    pub attrs: Set<Seq<char>>,
    pub tags: Set<Seq<char>>,
    pub statuses: Set<Seq<char>>,
    pub is_self: bool,
}

/// The set of names a list of strings holds.
pub open spec fn name_set(v: Seq<String>) -> Set<Seq<char>> {
    strings_view(v).to_set()
}

impl View for LockContext {
    type V = ContextModel;

    closed spec fn view(&self) -> ContextModel {
        ContextModel {
            perms: name_set(self.perms@),
            attrs: name_set(self.attrs@),
            tags: name_set(self.tags@),
            statuses: name_set(self.statuses@),
            is_self: self.is_self,
        }
    }
}

/// Whether one typed lock function holds in `ctx`.
pub open spec fn eval_fn_spec(f: LockFnModel, ctx: ContextModel) -> bool {
    match f {
        LockFnModel::Perm(a) => ctx.perms.contains(a),
        LockFnModel::Attr(a) => ctx.attrs.contains(a),
        LockFnModel::Tag(a) => ctx.tags.contains(a),
        LockFnModel::Status(a) => ctx.statuses.contains(a),
        LockFnModel::SelfRef => ctx.is_self,
    }
}

/// The boolean value of a resolved lock expression in `ctx`.
pub open spec fn eval_spec(e: ResolvedModel, ctx: ContextModel) -> bool
    decreases e,
{
    match e {
        ResolvedModel::Fn(f) => eval_fn_spec(f, ctx),
        ResolvedModel::Not(inner) => !eval_spec(*inner, ctx),
        ResolvedModel::And(l, r) => eval_spec(*l, ctx) && eval_spec(*r, ctx),
        ResolvedModel::Or(l, r) => eval_spec(*l, ctx) || eval_spec(*r, ctx),
    }
}

proof fn lemma_push_name(v: Seq<String>, s: String)
    ensures
        name_set(v.push(s)) == name_set(v).insert(s@),
{
    assert(strings_view(v.push(s)) =~= strings_view(v).push(s@));
    strings_view(v).lemma_push_to_set_commute(s@);
}

/// Appends `name` to a name list.
fn push_name(v: &mut Vec<String>, name: &str)
    ensures
        name_set(final(v)@) == name_set(old(v)@).insert(name@),
{
    let s = name.to_owned();
    proof {
        lemma_push_name(v@, s);
    }
    v.push(s);
}

/// Whether a name list holds `name`.
fn holds_name(v: &Vec<String>, name: &str) -> (r: bool)
    ensures
        r == name_set(v@).contains(name@),
{
    let mut i: usize = 0;
    while i < v.len()
        invariant
            i <= v@.len(),
            forall|k: int| 0 <= k < i ==> v@[k]@ != name@,
        decreases v@.len() - i,
    {
        if str_eq(v[i].as_str(), name) {
            proof {
                assert(strings_view(v@)[i as int] == name@);
            }
            return true;
        }
        i = i + 1;
    }
    proof {
        if strings_view(v@).contains(name@) {
            let k = choose|k: int| 0 <= k < strings_view(v@).len() && strings_view(v@)[k] == name@;
            assert(v@[k]@ == name@);
        }
    }
    false
}

impl LockContext {
    /// An empty context: no permissions, attributes, tags, or statuses, and the
    /// accessor is not the accessed object.
    pub fn new() -> (r: Self)
        ensures
            r@.perms == Set::<Seq<char>>::empty(),
            r@.attrs == Set::<Seq<char>>::empty(),
            r@.tags == Set::<Seq<char>>::empty(),
            r@.statuses == Set::<Seq<char>>::empty(),
            !r@.is_self,
    {
        let r = LockContext { perms: Vec::new(), attrs: Vec::new(), tags: Vec::new(), statuses: Vec::new(), is_self: false };
        proof {
            assert(strings_view(r.perms@) =~= Seq::<Seq<char>>::empty());
            assert(name_set(r.perms@) =~= Set::<Seq<char>>::empty());
        }
        r
    }

    /// Grants the accessor permission `name`.
    pub fn with_perm(self, name: &str) -> (r: Self)
        ensures
            r@.perms == self@.perms.insert(name@),
            r@.attrs == self@.attrs,
            r@.tags == self@.tags,
            r@.statuses == self@.statuses,
            r@.is_self == self@.is_self,
    {
        let mut c = self;
        push_name(&mut c.perms, name);
        c
    }

    /// Records attribute `name` on the accessed object.
    pub fn with_attr(self, name: &str) -> (r: Self)
        ensures
            r@.perms == self@.perms,
            r@.attrs == self@.attrs.insert(name@),
            r@.tags == self@.tags,
            r@.statuses == self@.statuses,
            r@.is_self == self@.is_self,
    {
        let mut c = self;
        push_name(&mut c.attrs, name);
        c
    }

    /// Records tag `name` on the accessed object.
    pub fn with_tag(self, name: &str) -> (r: Self)
        ensures
            r@.perms == self@.perms,
            r@.attrs == self@.attrs,
            r@.tags == self@.tags.insert(name@),
            r@.statuses == self@.statuses,
            r@.is_self == self@.is_self,
    {
        let mut c = self;
        push_name(&mut c.tags, name);
        c
    }

    /// Records status `name` on the accessor.
    pub fn with_status(self, name: &str) -> (r: Self)
        ensures
            r@.perms == self@.perms,
            r@.attrs == self@.attrs,
            r@.tags == self@.tags,
            r@.statuses == self@.statuses.insert(name@),
            r@.is_self == self@.is_self,
    {
        let mut c = self;
        push_name(&mut c.statuses, name);
        c
    }

    /// Marks the accessor as the accessed object, so `self()` holds.
    pub fn as_self(self) -> (r: Self)
        ensures
            r@.perms == self@.perms,
            r@.attrs == self@.attrs,
            r@.tags == self@.tags,
            r@.statuses == self@.statuses,
            r@.is_self,
    {
        let mut c = self;
        c.is_self = true;
        c
    }
}

fn eval_fn(function: &LockFn, ctx: &LockContext) -> (r: bool)
    ensures
        r == eval_fn_spec(function@, ctx@),
{
    match function {
        LockFn::Perm(arg) => holds_name(&ctx.perms, arg.as_str()),
        LockFn::Attr(arg) => holds_name(&ctx.attrs, arg.as_str()),
        LockFn::Tag(arg) => holds_name(&ctx.tags, arg.as_str()),
        LockFn::Status(arg) => holds_name(&ctx.statuses, arg.as_str()),
        LockFn::SelfRef => ctx.is_self,
    }
}

fn eval_expr(expr: &ResolvedExpr, ctx: &LockContext) -> (r: bool)
    ensures
        r == eval_spec(expr@, ctx@),
    decreases expr,
{
    match expr {
        ResolvedExpr::Fn(function) => eval_fn(function, ctx),
        ResolvedExpr::Not(inner) => !eval_expr(inner, ctx),
        ResolvedExpr::And(lhs, rhs) => eval_expr(lhs, ctx) && eval_expr(rhs, ctx),
        ResolvedExpr::Or(lhs, rhs) => eval_expr(lhs, ctx) || eval_expr(rhs, ctx),
    }
}

impl Lock {
    /// Evaluates this lock against `ctx`, returning whether access is granted.
    pub fn evaluate(&self, ctx: &LockContext) -> (r: bool)
        ensures
            r == eval_spec(self.expr_spec(), ctx@),
    {
        eval_expr(self.expr(), ctx)
    }
}

/// Each named check asks about its own set of names, and about one name in
/// it: `perm(a)`, `attr(a)`, `tag(a)` and `status(a)` never hold when that
/// set is empty, hold once `a` is recorded in it, are unchanged by recording
/// any other name in it, and do not look at the other sets or at `self`;
/// `self()` is exactly whether the accessor is the accessed object.
pub proof fn lemma_named_checks(ctx: ContextModel, a: Seq<char>, b: Seq<char>)
    ensures
        eval_spec(ResolvedModel::Fn(LockFnModel::Perm(a)), ctx) == ctx.perms.contains(a),
        eval_spec(ResolvedModel::Fn(LockFnModel::Attr(a)), ctx) == ctx.attrs.contains(a),
        eval_spec(ResolvedModel::Fn(LockFnModel::Tag(a)), ctx) == ctx.tags.contains(a),
        eval_spec(ResolvedModel::Fn(LockFnModel::Status(a)), ctx) == ctx.statuses.contains(a),
        !eval_spec(ResolvedModel::Fn(LockFnModel::Perm(a)), ContextModel { perms: Set::empty(), ..ctx }),
        !eval_spec(ResolvedModel::Fn(LockFnModel::Attr(a)), ContextModel { attrs: Set::empty(), ..ctx }),
        !eval_spec(ResolvedModel::Fn(LockFnModel::Tag(a)), ContextModel { tags: Set::empty(), ..ctx }),
        !eval_spec(ResolvedModel::Fn(LockFnModel::Status(a)), ContextModel { statuses: Set::empty(), ..ctx }),
        eval_spec(ResolvedModel::Fn(LockFnModel::Perm(a)), ContextModel { perms: ctx.perms.insert(a), ..ctx }),
        eval_spec(ResolvedModel::Fn(LockFnModel::Attr(a)), ContextModel { attrs: ctx.attrs.insert(a), ..ctx }),
        eval_spec(ResolvedModel::Fn(LockFnModel::Tag(a)), ContextModel { tags: ctx.tags.insert(a), ..ctx }),
        eval_spec(ResolvedModel::Fn(LockFnModel::Status(a)), ContextModel { statuses: ctx.statuses.insert(a), ..ctx }),
        b != a ==> eval_spec(ResolvedModel::Fn(LockFnModel::Perm(a)), ContextModel { perms: ctx.perms.insert(b), ..ctx })
            == eval_spec(ResolvedModel::Fn(LockFnModel::Perm(a)), ctx),
        b != a ==> eval_spec(ResolvedModel::Fn(LockFnModel::Attr(a)), ContextModel { attrs: ctx.attrs.insert(b), ..ctx })
            == eval_spec(ResolvedModel::Fn(LockFnModel::Attr(a)), ctx),
        b != a ==> eval_spec(ResolvedModel::Fn(LockFnModel::Tag(a)), ContextModel { tags: ctx.tags.insert(b), ..ctx })
            == eval_spec(ResolvedModel::Fn(LockFnModel::Tag(a)), ctx),
        b != a ==> eval_spec(
            ResolvedModel::Fn(LockFnModel::Status(a)),
            ContextModel { statuses: ctx.statuses.insert(b), ..ctx },
        ) == eval_spec(ResolvedModel::Fn(LockFnModel::Status(a)), ctx),
        eval_spec(ResolvedModel::Fn(LockFnModel::Perm(a)), ctx) == eval_spec(
            ResolvedModel::Fn(LockFnModel::Perm(a)),
            ContextModel { perms: ctx.perms, attrs: Set::empty(), tags: Set::empty(), statuses: Set::empty(), is_self: false },
        ),
        eval_spec(ResolvedModel::Fn(LockFnModel::Attr(a)), ctx) == eval_spec(
            ResolvedModel::Fn(LockFnModel::Attr(a)),
            ContextModel { perms: Set::empty(), attrs: ctx.attrs, tags: Set::empty(), statuses: Set::empty(), is_self: false },
        ),
        eval_spec(ResolvedModel::Fn(LockFnModel::Tag(a)), ctx) == eval_spec(
            ResolvedModel::Fn(LockFnModel::Tag(a)),
            ContextModel { perms: Set::empty(), attrs: Set::empty(), tags: ctx.tags, statuses: Set::empty(), is_self: false },
        ),
        eval_spec(ResolvedModel::Fn(LockFnModel::Status(a)), ctx) == eval_spec(
            ResolvedModel::Fn(LockFnModel::Status(a)),
            ContextModel { perms: Set::empty(), attrs: Set::empty(), tags: Set::empty(), statuses: ctx.statuses, is_self: false },
        ),
        eval_spec(ResolvedModel::Fn(LockFnModel::SelfRef), ctx) == ctx.is_self,
{
}

/// Whether the lock string `x:f(w)` grants access in `ctx`, once parsed and
/// resolved; `None` when it does not parse or resolve.
pub open spec fn call_lock_verdict(f: Seq<char>, w: Seq<char>, ctx: ContextModel) -> Option<bool> {
    match spec_parse_lock(seq!['x', ':'] + f + seq!['('] + w + seq![')']) {
        Some((_, e)) => match resolve_expr_spec(e) {
            Ok(r) => Some(eval_spec(r, ctx)),
            Err(_) => None,
        },
        None => None,
    }
}

/// A lock that checks one name means what it says: for every identifier `w`
/// and context, the lock strings `x:perm(w)`, `x:attr(w)`, `x:tag(w)` and
/// `x:status(w)` parse, resolve, and grant access exactly when `w` is among
/// the context's permissions, attributes, tags or statuses respectively.
pub proof fn lemma_name_check_locks(ctx: ContextModel, w: Seq<char>)
    requires
        ascii_identifier(w),
    ensures
        call_lock_verdict(seq!['p', 'e', 'r', 'm'], w, ctx) == Some(ctx.perms.contains(w)),
        call_lock_verdict(seq!['a', 't', 't', 'r'], w, ctx) == Some(ctx.attrs.contains(w)),
        call_lock_verdict(seq!['t', 'a', 'g'], w, ctx) == Some(ctx.tags.contains(w)),
        call_lock_verdict(seq!['s', 't', 'a', 't', 'u', 's'], w, ctx) == Some(ctx.statuses.contains(w)),
{
    let names = seq![seq!['p', 'e', 'r', 'm'], seq!['a', 't', 't', 'r'], seq!['t', 'a', 'g'], seq!['s', 't', 'a', 't', 'u', 's']];
    assert forall|i: int| 0 <= i < 4 implies {
        let f = #[trigger] names[i];
        &&& ascii_identifier(f)
        &&& f != kw_or() && f != kw_and() && f != kw_not()
    } by {
        let f = names[i];
        assert(f.len() != 2 || f[0] != 'o');
        assert(f.len() != 3 || f[0] != 'a');
        assert(f.len() != 3 || f[0] != 'n');
        assert(f != kw_or()) by {
            if f.len() == 2 {
                assert(f[0] != kw_or()[0]);
            }
        }
        assert(f != kw_and()) by {
            if f.len() == 3 {
                assert(f[0] != kw_and()[0]);
            }
        }
        assert(f != kw_not()) by {
            if f.len() == 3 {
                assert(f[0] != kw_not()[0]);
            }
        }
    }
    assert(names[0] == seq!['p', 'e', 'r', 'm']);
    assert(names[1] == seq!['a', 't', 't', 'r']);
    assert(names[2] == seq!['t', 'a', 'g']);
    assert(names[3] == seq!['s', 't', 'a', 't', 'u', 's']);
    lemma_call_parses(names[0], w);
    lemma_call_parses(names[1], w);
    lemma_call_parses(names[2], w);
    lemma_call_parses(names[3], w);
    assert(seq![w].len() == 1 && seq![w][0] == w);
}

/// The connectives are the boolean ones: `not e` holds exactly when `e` does
/// not, `l and r` exactly when both do, `l or r` exactly when either does.
pub proof fn lemma_connectives(l: ResolvedModel, r: ResolvedModel, ctx: ContextModel)
    ensures
        eval_spec(ResolvedModel::Not(Box::new(l)), ctx) == !eval_spec(l, ctx),
        eval_spec(ResolvedModel::And(Box::new(l), Box::new(r)), ctx) == (eval_spec(l, ctx) && eval_spec(r, ctx)),
        eval_spec(ResolvedModel::Or(Box::new(l), Box::new(r)), ctx) == (eval_spec(l, ctx) || eval_spec(r, ctx)),
{
}

} // verus!
