//! Lock resolution: lowers a syntactic [`ParsedLock`] into a typed [`Lock`],
//! mapping each function call to a [`LockFn`] and enforcing argument arity.
//! Unknown functions and bad arity become errors here; the first error met in
//! left-to-right order is the one reported.

use vstd::prelude::*;
use vstd::string::StringExecFns;
use crate::chars::{chars_of, chars_eq, decimal, decimal_spec, joined};
use super::ast::{Lock, LockArg, LockFn, LockFnModel, ParsedLock, ResolvedExpr, ResolvedModel, SyntaxExpr, SyntaxModel, strings_view};

verus! {

/// A failure to resolve a parsed lock against the known lock functions.
#[derive(Debug, Clone, PartialEq, Eq)]
#[non_exhaustive]
pub enum ResolveError {
    /// A function name outside the known lock-function set.
    UnknownFunction { name: String },
    /// A known function called with the wrong number of arguments.
    ArityMismatch { name: String, expected: usize, found: usize },
}

/// A resolution failure over plain values.
pub enum ResolveFault {
    UnknownFunction { name: Seq<char> },
    ArityMismatch { name: Seq<char>, expected: nat, found: nat },
}

impl ResolveError {
    /// The human-readable message for this error.
    pub fn message(&self) -> (r: String)
        ensures
            r@ == (match self {
                ResolveError::UnknownFunction { name } => "unknown lock function `"@ + name@ + "`"@,
                ResolveError::ArityMismatch { name, expected, found } => "lock function `"@ + name@ + "` takes "@
                    + decimal_spec(*expected as nat) + " argument(s), got "@ + decimal_spec(*found as nat),
            }),
    {
        match self {
            ResolveError::UnknownFunction { name } => {
                let mut s = joined("unknown lock function `", name.as_str());
                s.append("`");
                s
            },
            ResolveError::ArityMismatch { name, expected, found } => {
                let mut s = joined("lock function `", name.as_str());
                s.append("` takes ");
                s.append(decimal(*expected).as_str());
                s.append(" argument(s), got ");
                s.append(decimal(*found).as_str());
                s
            },
        }
    }
}

impl View for ResolveError {
    type V = ResolveFault;

    open spec fn view(&self) -> ResolveFault {
        match self {
            ResolveError::UnknownFunction { name } => ResolveFault::UnknownFunction { name: name@ },
            ResolveError::ArityMismatch { name, expected, found } => ResolveFault::ArityMismatch {
                name: name@,
                expected: *expected as nat,
                found: *found as nat,
            },
        }
    }
}

pub open spec fn name_perm() -> Seq<char> {
    seq!['p', 'e', 'r', 'm']
}

pub open spec fn name_attr() -> Seq<char> {
    seq!['a', 't', 't', 'r']
}

pub open spec fn name_tag() -> Seq<char> {
    seq!['t', 'a', 'g']
}

pub open spec fn name_status() -> Seq<char> {
    seq!['s', 't', 'a', 't', 'u', 's']
}

pub open spec fn name_self() -> Seq<char> {
    seq!['s', 'e', 'l', 'f']
}

/// A unary function's single argument, or the arity error.
pub open spec fn unary_spec(name: Seq<char>, args: Seq<Seq<char>>) -> Result<Seq<char>, ResolveFault> {
    if args.len() == 1 {
        Ok(args[0])
    } else {
        Err(ResolveFault::ArityMismatch { name, expected: 1, found: args.len() })
    }
}

/// The typed function a call names: `perm`, `attr`, `tag` and `status` take
/// one argument, `self` takes none, and any other name is unknown.
pub open spec fn resolve_call_spec(name: Seq<char>, args: Seq<Seq<char>>) -> Result<LockFnModel, ResolveFault> {
    if name == name_perm() {
        match unary_spec(name, args) { Ok(a) => Ok(LockFnModel::Perm(a)), Err(e) => Err(e) }
    } else if name == name_attr() {
        match unary_spec(name, args) { Ok(a) => Ok(LockFnModel::Attr(a)), Err(e) => Err(e) }
    } else if name == name_tag() {
        match unary_spec(name, args) { Ok(a) => Ok(LockFnModel::Tag(a)), Err(e) => Err(e) }
    } else if name == name_status() {
        match unary_spec(name, args) { Ok(a) => Ok(LockFnModel::Status(a)), Err(e) => Err(e) }
    } else if name == name_self() {
        if args.len() == 0 {
            Ok(LockFnModel::SelfRef)
        } else {
            Err(ResolveFault::ArityMismatch { name, expected: 0, found: args.len() })
        }
    } else {
        Err(ResolveFault::UnknownFunction { name })
    }
}

/// The resolved tree of `e`, or the first failure in left-to-right order.
pub open spec fn resolve_expr_spec(e: SyntaxModel) -> Result<ResolvedModel, ResolveFault>
    decreases e,
{
    match e {
        SyntaxModel::Call { name, args } => match resolve_call_spec(name, args) {
            Ok(f) => Ok(ResolvedModel::Fn(f)),
            Err(err) => Err(err),
        },
        SyntaxModel::Not(inner) => match resolve_expr_spec(*inner) {
            Ok(r) => Ok(ResolvedModel::Not(Box::new(r))),
            Err(err) => Err(err),
        },
        SyntaxModel::And(l, r) => match resolve_expr_spec(*l) {
            Err(err) => Err(err),
            Ok(a) => match resolve_expr_spec(*r) {
                Ok(b) => Ok(ResolvedModel::And(Box::new(a), Box::new(b))),
                Err(err) => Err(err),
            },
        },
        SyntaxModel::Or(l, r) => match resolve_expr_spec(*l) {
            Err(err) => Err(err),
            Ok(a) => match resolve_expr_spec(*r) {
                Ok(b) => Ok(ResolvedModel::Or(Box::new(a), Box::new(b))),
                Err(err) => Err(err),
            },
        },
    }
}

/// Resolves a parsed lock into a typed, evaluable [`Lock`]: the access type is
/// kept, and the expression resolves as [`resolve_expr_spec`] states.
pub fn resolve(parsed: ParsedLock) -> (r: Result<Lock, ResolveError>)
    ensures
        match r {
            Ok(lock) => lock.access_type_spec() == parsed.access_type_spec()
                && resolve_expr_spec(parsed.expr_spec()) == Ok::<ResolvedModel, ResolveFault>(lock.expr_spec()),
            Err(e) => resolve_expr_spec(parsed.expr_spec()) == Err::<ResolvedModel, ResolveFault>(e@),
        },
{
    let (access_type, expr) = parsed.into_parts();
    match resolve_expr(expr) {
        Ok(resolved) => Ok(Lock::new(access_type, resolved)),
        Err(e) => Err(e),
    }
}

fn resolve_expr(expr: SyntaxExpr) -> (r: Result<ResolvedExpr, ResolveError>)
    ensures
        match r {
            Ok(x) => resolve_expr_spec(expr@) == Ok::<ResolvedModel, ResolveFault>(x@),
            Err(e) => resolve_expr_spec(expr@) == Err::<ResolvedModel, ResolveFault>(e@),
        },
    decreases expr,
{
    match expr {
        SyntaxExpr::Call { name, args } => match resolve_call(name, args) {
            Ok(f) => Ok(ResolvedExpr::Fn(f)),
            Err(e) => Err(e),
        },
        SyntaxExpr::Not(inner) => match resolve_expr(*inner) {
            Ok(x) => Ok(ResolvedExpr::Not(Box::new(x))),
            Err(e) => Err(e),
        },
        SyntaxExpr::And(lhs, rhs) => {
            let a = match resolve_expr(*lhs) {
                Ok(a) => a,
                Err(e) => return Err(e),
            };
            match resolve_expr(*rhs) {
                Ok(b) => Ok(ResolvedExpr::And(Box::new(a), Box::new(b))),
                Err(e) => Err(e),
            }
        },
        SyntaxExpr::Or(lhs, rhs) => {
            let a = match resolve_expr(*lhs) {
                Ok(a) => a,
                Err(e) => return Err(e),
            };
            match resolve_expr(*rhs) {
                Ok(b) => Ok(ResolvedExpr::Or(Box::new(a), Box::new(b))),
                Err(e) => Err(e),
            }
        },
    }
}

fn resolve_call(name: String, args: Vec<String>) -> (r: Result<LockFn, ResolveError>)
    ensures
        match r {
            Ok(f) => resolve_call_spec(name@, strings_view(args@)) == Ok::<LockFnModel, ResolveFault>(f@),
            Err(e) => resolve_call_spec(name@, strings_view(args@)) == Err::<LockFnModel, ResolveFault>(e@),
        },
{
    let cs = chars_of(name.as_str());
    if chars_eq(&cs, &['p', 'e', 'r', 'm']) {
        match unary_arg(name, args) {
            Ok(a) => Ok(LockFn::Perm(a)),
            Err(e) => Err(e),
        }
    } else if chars_eq(&cs, &['a', 't', 't', 'r']) {
        match unary_arg(name, args) {
            Ok(a) => Ok(LockFn::Attr(a)),
            Err(e) => Err(e),
        }
    } else if chars_eq(&cs, &['t', 'a', 'g']) {
        match unary_arg(name, args) {
            Ok(a) => Ok(LockFn::Tag(a)),
            Err(e) => Err(e),
        }
    } else if chars_eq(&cs, &['s', 't', 'a', 't', 'u', 's']) {
        match unary_arg(name, args) {
            Ok(a) => Ok(LockFn::Status(a)),
            Err(e) => Err(e),
        }
    } else if chars_eq(&cs, &['s', 'e', 'l', 'f']) {
        match ensure_nullary(name, &args) {
            Ok(()) => Ok(LockFn::SelfRef),
            Err(e) => Err(e),
        }
    } else {
        Err(ResolveError::UnknownFunction { name })
    }
}

/// The single argument of a unary function, or the arity error.
fn unary_arg(name: String, args: Vec<String>) -> (r: Result<LockArg, ResolveError>)
    ensures
        match r {
            Ok(a) => unary_spec(name@, strings_view(args@)) == Ok::<Seq<char>, ResolveFault>(a@),
            Err(e) => unary_spec(name@, strings_view(args@)) == Err::<Seq<char>, ResolveFault>(e@),
        },
{
    let found = args.len();
    if found == 1 {
        let mut args = args;
        let arg = args.pop().unwrap();
        Ok(LockArg::new(arg))
    } else {
        Err(ResolveError::ArityMismatch { name, expected: 1, found })
    }
}

fn ensure_nullary(name: String, args: &Vec<String>) -> (r: Result<(), ResolveError>)
    ensures
        match r {
            Ok(()) => args@.len() == 0,
            Err(e) => args@.len() != 0 && e@ == (ResolveFault::ArityMismatch {
                name: name@,
                expected: 0,
                found: args@.len(),
            }),
        },
{
    if args.len() == 0 {
        Ok(())
    } else {
        Err(ResolveError::ArityMismatch { name, expected: 0, found: args.len() })
    }
}

} // verus!
