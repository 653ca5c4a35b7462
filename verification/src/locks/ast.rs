//! Lock DSL abstract syntax: the syntactic form the parser produces, whose
//! function calls are still untyped, and the resolved form evaluation runs
//! against, whose every function is a typed variant.

use vstd::prelude::*;

verus! {

/// An access-type label: the left-hand side of a lock string naming the
/// operation the lock guards (the `get` in `get:perm(player)`).
#[derive(Debug, Clone, PartialEq, Eq)]
pub struct AccessType(String);

impl View for AccessType {
    type V = Seq<char>;

    closed spec fn view(&self) -> Seq<char> {
        self.0@
    }
}

impl AccessType {
    /// Wraps a parsed access-type token.
    pub(crate) fn new(raw: String) -> (r: Self)
        ensures
            r@ == raw@,
    {
        AccessType(raw)
    }

    /// The access-type label.
    pub fn as_str(&self) -> (r: &str)
        ensures
            r@ == self@,
    {
        self.0.as_str()
    }
}

/// A lock expression as parsed: a boolean tree whose leaves are untyped
/// function calls (a name and string arguments).
#[derive(Debug, PartialEq, Eq)]
pub enum SyntaxExpr {
    /// A function call such as `perm(player)` or `self()`.
    Call { name: String, args: Vec<String> },
    /// Logical negation.
    Not(Box<SyntaxExpr>),
    /// Logical conjunction.
    And(Box<SyntaxExpr>, Box<SyntaxExpr>),
    /// Logical disjunction.
    Or(Box<SyntaxExpr>, Box<SyntaxExpr>),
}

/// A syntactic lock expression over plain values.
pub enum SyntaxModel {
    Call { name: Seq<char>, args: Seq<Seq<char>> },
    Not(Box<SyntaxModel>),
    And(Box<SyntaxModel>, Box<SyntaxModel>),
    Or(Box<SyntaxModel>, Box<SyntaxModel>),
}

/// The plain-value form of a list of strings.
pub open spec fn strings_view(v: Seq<String>) -> Seq<Seq<char>> {
    v.map_values(|s: String| s@)
}

impl View for SyntaxExpr {
    type V = SyntaxModel;

    open spec fn view(&self) -> SyntaxModel
        decreases self,
    {
        match self {
            SyntaxExpr::Call { name, args } => SyntaxModel::Call { name: name@, args: strings_view(args@) },
            SyntaxExpr::Not(e) => SyntaxModel::Not(Box::new((**e).view())),
            SyntaxExpr::And(l, r) => SyntaxModel::And(Box::new((**l).view()), Box::new((**r).view())),
            SyntaxExpr::Or(l, r) => SyntaxModel::Or(Box::new((**l).view()), Box::new((**r).view())),
        }
    }
}

/// A successfully parsed lock string, before function resolution.
#[derive(Debug, PartialEq, Eq)]
pub struct ParsedLock {
    access_type: AccessType,
    expr: SyntaxExpr,
}

impl ParsedLock {
    /// The access type, over plain values.
    pub closed spec fn access_type_spec(&self) -> Seq<char> {
        self.access_type@
    }

    /// The expression, over plain values.
    pub closed spec fn expr_spec(&self) -> SyntaxModel {
        self.expr@
    }

    pub(crate) fn new(access_type: AccessType, expr: SyntaxExpr) -> (r: Self)
        ensures
            r.access_type_spec() == access_type@,
            r.expr_spec() == expr@,
    {
        ParsedLock { access_type, expr }
    }

    /// The access type this lock guards.
    pub fn access_type(&self) -> (r: &AccessType)
        ensures
            r@ == self.access_type_spec(),
    {
        &self.access_type
    }

    /// The (still untyped) boolean expression.
    pub fn expr(&self) -> (r: &SyntaxExpr)
        ensures
            r@ == self.expr_spec(),
    {
        &self.expr
    }

    /// Consumes the parsed lock, yielding its parts for resolution.
    pub(crate) fn into_parts(self) -> (r: (AccessType, SyntaxExpr))
        ensures
            r.0@ == self.access_type_spec(),
            r.1@ == self.expr_spec(),
    {
        (self.access_type, self.expr)
    }
}

/// A validated argument to a lock function (the `player` in `perm(player)`).
#[derive(Debug, Clone, PartialEq, Eq)]
pub struct LockArg(String);

impl View for LockArg {
    type V = Seq<char>;

    closed spec fn view(&self) -> Seq<char> {
        self.0@
    }
}

impl LockArg {
    /// Wraps a resolved function argument.
    pub(crate) fn new(raw: String) -> (r: Self)
        ensures
            r@ == raw@,
    {
        LockArg(raw)
    }

    /// The argument text.
    pub fn as_str(&self) -> (r: &str)
        ensures
            r@ == self@,
    {
        self.0.as_str()
    }
}

/// A resolved lock function: `perm`, `attr`, `tag`, `status` and `self`.
#[derive(Debug, Clone, PartialEq, Eq)]
#[non_exhaustive]
pub enum LockFn {
    /// `perm(name)`: the accessor holds permission `name`.
    Perm(LockArg),
    /// `attr(name)`: the accessed object has attribute `name`.
    Attr(LockArg),
    /// `tag(name)`: the accessed object carries tag `name`.
    Tag(LockArg),
    /// `status(name)`: the accessor has status `name`.
    Status(LockArg),
    /// `self()`: the accessor is the accessed object.
    SelfRef,
}

/// A resolved lock function over plain values.
pub enum LockFnModel {
    Perm(Seq<char>),
    Attr(Seq<char>),
    Tag(Seq<char>),
    Status(Seq<char>),
    SelfRef,
}

impl View for LockFn {
    type V = LockFnModel;

    open spec fn view(&self) -> LockFnModel {
        match self {
            LockFn::Perm(a) => LockFnModel::Perm(a@),
            LockFn::Attr(a) => LockFnModel::Attr(a@),
            LockFn::Tag(a) => LockFnModel::Tag(a@),
            LockFn::Status(a) => LockFnModel::Status(a@),
            LockFn::SelfRef => LockFnModel::SelfRef,
        }
    }
}

/// A resolved lock expression: every leaf lowered to a typed [`LockFn`].
#[derive(Debug, PartialEq, Eq)]
pub enum ResolvedExpr {
    /// A resolved function leaf.
    Fn(LockFn),
    /// Logical negation.
    Not(Box<ResolvedExpr>),
    /// Logical conjunction.
    And(Box<ResolvedExpr>, Box<ResolvedExpr>),
    /// Logical disjunction.
    Or(Box<ResolvedExpr>, Box<ResolvedExpr>),
}

/// A resolved lock expression over plain values.
pub enum ResolvedModel {
    Fn(LockFnModel),
    Not(Box<ResolvedModel>),
    And(Box<ResolvedModel>, Box<ResolvedModel>),
    Or(Box<ResolvedModel>, Box<ResolvedModel>),
}

impl View for ResolvedExpr {
    type V = ResolvedModel;

    open spec fn view(&self) -> ResolvedModel
        decreases self,
    {
        match self {
            ResolvedExpr::Fn(f) => ResolvedModel::Fn(f@),
            ResolvedExpr::Not(e) => ResolvedModel::Not(Box::new((**e).view())),
            ResolvedExpr::And(l, r) => ResolvedModel::And(Box::new((**l).view()), Box::new((**r).view())),
            ResolvedExpr::Or(l, r) => ResolvedModel::Or(Box::new((**l).view()), Box::new((**r).view())),
        }
    }
}

/// A fully resolved lock, ready to evaluate.
#[derive(Debug, PartialEq, Eq)]
pub struct Lock {
    access_type: AccessType,
    expr: ResolvedExpr,
}

impl Lock {
    /// The access type, over plain values.
    pub closed spec fn access_type_spec(&self) -> Seq<char> {
        self.access_type@
    }

    /// The resolved expression, over plain values.
    pub closed spec fn expr_spec(&self) -> ResolvedModel {
        self.expr@
    }

    pub(crate) fn new(access_type: AccessType, expr: ResolvedExpr) -> (r: Self)
        ensures
            r.access_type_spec() == access_type@,
            r.expr_spec() == expr@,
    {
        Lock { access_type, expr }
    }

    /// The access type this lock guards.
    pub fn access_type(&self) -> (r: &AccessType)
        ensures
            r@ == self.access_type_spec(),
    {
        &self.access_type
    }

    /// The resolved boolean expression.
    pub fn expr(&self) -> (r: &ResolvedExpr)
        ensures
            r@ == self.expr_spec(),
    {
        &self.expr
    }
}

} // verus!
