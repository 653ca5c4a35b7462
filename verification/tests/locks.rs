use ferrodun::locks::ast::{Lock, LockFn, ParsedLock, ResolvedExpr, SyntaxExpr};
use ferrodun::locks::eval::LockContext;
use ferrodun::locks::parser::parse;
use ferrodun::locks::resolve::{resolve, ResolveError};

fn call(name: &str, args: &[&str]) -> SyntaxExpr {
    SyntaxExpr::Call {
        name: name.to_string(),
        args: args.iter().map(ToString::to_string).collect(),
    }
}

fn and(lhs: SyntaxExpr, rhs: SyntaxExpr) -> SyntaxExpr {
    SyntaxExpr::And(Box::new(lhs), Box::new(rhs))
}

fn or(lhs: SyntaxExpr, rhs: SyntaxExpr) -> SyntaxExpr {
    SyntaxExpr::Or(Box::new(lhs), Box::new(rhs))
}

fn not(inner: SyntaxExpr) -> SyntaxExpr {
    SyntaxExpr::Not(Box::new(inner))
}

fn parse_ok(input: &str) -> ParsedLock {
    parse(input).expect("input should parse")
}

fn lock(input: &str) -> Lock {
    resolve(parse(input).expect("input should parse")).expect("input should resolve")
}

fn resolve_str(input: &str) -> Result<Lock, ResolveError> {
    let parsed = parse(input).expect("input should parse");
    resolve(parsed)
}

/// The resolved function at the root of a single-call lock, as its variant
/// name and argument text (`LockArg` has no public constructor).
fn leaf(input: &str) -> (&'static str, Option<String>) {
    let lock = resolve_str(input).expect("should resolve");
    match lock.expr() {
        ResolvedExpr::Fn(LockFn::Perm(a)) => ("perm", Some(a.as_str().to_string())),
        ResolvedExpr::Fn(LockFn::Attr(a)) => ("attr", Some(a.as_str().to_string())),
        ResolvedExpr::Fn(LockFn::Tag(a)) => ("tag", Some(a.as_str().to_string())),
        ResolvedExpr::Fn(LockFn::Status(a)) => ("status", Some(a.as_str().to_string())),
        ResolvedExpr::Fn(LockFn::SelfRef) => ("self", None),
        other => panic!("not a leaf: {other:?}"),
    }
}

// parser

#[test]
fn parses_first_normative_example() {
    let lock = parse_ok("get:perm(player) and not attr(cursed)");
    assert_eq!(lock.access_type().as_str(), "get");
    assert_eq!(
        *lock.expr(),
        and(call("perm", &["player"]), not(call("attr", &["cursed"])))
    );
}

#[test]
fn parses_second_normative_example() {
    let lock = parse_ok("edit:self() or perm(admin)");
    assert_eq!(lock.access_type().as_str(), "edit");
    assert_eq!(*lock.expr(), or(call("self", &[]), call("perm", &["admin"])));
}

#[test]
fn parses_third_normative_example() {
    let lock = parse_ok("helm:tag(crew) and not status(drunk)");
    assert_eq!(lock.access_type().as_str(), "helm");
    assert_eq!(
        *lock.expr(),
        and(call("tag", &["crew"]), not(call("status", &["drunk"])))
    );
}

#[test]
fn not_binds_tighter_than_and_binds_tighter_than_or() {
    let lock = parse_ok("x:perm(a) and not perm(b) or perm(c)");
    assert_eq!(
        *lock.expr(),
        or(
            and(call("perm", &["a"]), not(call("perm", &["b"]))),
            call("perm", &["c"]),
        )
    );
}

#[test]
fn not_applies_to_a_parenthesized_group() {
    let lock = parse_ok("x:not (perm(a) or perm(b))");
    assert_eq!(*lock.expr(), not(or(call("perm", &["a"]), call("perm", &["b"]))));
}

#[test]
fn parentheses_override_precedence() {
    let lock = parse_ok("x:perm(a) and (perm(b) or perm(c))");
    assert_eq!(
        *lock.expr(),
        and(call("perm", &["a"]), or(call("perm", &["b"]), call("perm", &["c"])))
    );
}

#[test]
fn tolerates_surrounding_and_internal_whitespace() {
    let lock = parse_ok("  get : perm( player )  ");
    assert_eq!(*lock.expr(), call("perm", &["player"]));
}

#[test]
fn rejects_missing_access_type() {
    assert!(parse("perm(player)").is_err());
}

#[test]
fn rejects_unbalanced_parentheses() {
    assert!(parse("x:perm(player) and (perm(admin)").is_err());
}

#[test]
fn rejects_trailing_input() {
    assert!(parse("x:perm(player) garbage").is_err());
}

#[test]
fn rejects_keyword_as_function_name() {
    assert!(parse("x:and(player)").is_err());
}

#[test]
fn rejects_keyword_as_access_type() {
    assert!(parse("not:perm(player)").is_err());
}

#[test]
fn and_and_or_associate_to_the_left() {
    let lock = parse_ok("x:perm(a) or perm(b) or perm(c)");
    assert_eq!(
        *lock.expr(),
        or(or(call("perm", &["a"]), call("perm", &["b"])), call("perm", &["c"]))
    );
    let lock = parse_ok("x:perm(a) and perm(b) and perm(c)");
    assert_eq!(
        *lock.expr(),
        and(and(call("perm", &["a"]), call("perm", &["b"])), call("perm", &["c"]))
    );
}

#[test]
fn parse_error_carries_a_message() {
    let err = parse("").expect_err("empty input is not a lock");
    assert!(!err.message().is_empty());
}

// resolve

#[test]
fn resolves_each_known_function() {
    assert_eq!(leaf("x:perm(player)"), ("perm", Some("player".to_string())));
    assert_eq!(leaf("x:attr(cursed)"), ("attr", Some("cursed".to_string())));
    assert_eq!(leaf("x:tag(crew)"), ("tag", Some("crew".to_string())));
    assert_eq!(leaf("x:status(drunk)"), ("status", Some("drunk".to_string())));
    assert_eq!(leaf("x:self()"), ("self", None));
}

#[test]
fn resolves_all_three_normative_examples() {
    assert!(resolve_str("get:perm(player) and not attr(cursed)").is_ok());
    assert!(resolve_str("edit:self() or perm(admin)").is_ok());
    assert!(resolve_str("helm:tag(crew) and not status(drunk)").is_ok());
}

#[test]
fn rejects_unknown_function() {
    assert_eq!(
        resolve_str("x:wizard(merlin)"),
        Err(ResolveError::UnknownFunction { name: "wizard".to_string() })
    );
}

#[test]
fn rejects_unary_function_with_no_argument() {
    assert_eq!(
        resolve_str("x:perm()"),
        Err(ResolveError::ArityMismatch { name: "perm".to_string(), expected: 1, found: 0 })
    );
}

#[test]
fn rejects_unary_function_with_extra_arguments() {
    assert_eq!(
        resolve_str("x:perm(player, admin)"),
        Err(ResolveError::ArityMismatch { name: "perm".to_string(), expected: 1, found: 2 })
    );
}

#[test]
fn rejects_self_with_argument() {
    assert_eq!(
        resolve_str("x:self(player)"),
        Err(ResolveError::ArityMismatch { name: "self".to_string(), expected: 0, found: 1 })
    );
}

#[test]
fn resolution_keeps_the_access_type() {
    assert_eq!(lock("helm:tag(crew)").access_type().as_str(), "helm");
}

// evaluate

#[test]
fn first_example_grants_uncursed_player() {
    let lock = lock("get:perm(player) and not attr(cursed)");
    assert!(lock.evaluate(&LockContext::new().with_perm("player")));
}

#[test]
fn first_example_denies_cursed_player() {
    let lock = lock("get:perm(player) and not attr(cursed)");
    let ctx = LockContext::new().with_perm("player").with_attr("cursed");
    assert!(!lock.evaluate(&ctx));
}

#[test]
fn first_example_denies_non_player() {
    let lock = lock("get:perm(player) and not attr(cursed)");
    assert!(!lock.evaluate(&LockContext::new()));
}

#[test]
fn second_example_grants_self_or_admin() {
    let lock = lock("edit:self() or perm(admin)");
    assert!(lock.evaluate(&LockContext::new().as_self()));
    assert!(lock.evaluate(&LockContext::new().with_perm("admin")));
}

#[test]
fn second_example_denies_unrelated_caller() {
    let lock = lock("edit:self() or perm(admin)");
    assert!(!lock.evaluate(&LockContext::new().with_perm("player")));
}

#[test]
fn third_example_grants_sober_crew() {
    let lock = lock("helm:tag(crew) and not status(drunk)");
    assert!(lock.evaluate(&LockContext::new().with_tag("crew")));
}

#[test]
fn third_example_denies_drunk_crew() {
    let lock = lock("helm:tag(crew) and not status(drunk)");
    let ctx = LockContext::new().with_tag("crew").with_status("drunk");
    assert!(!lock.evaluate(&ctx));
}

#[test]
fn negation_inverts_a_leaf() {
    let lock = lock("x:not perm(banned)");
    assert!(lock.evaluate(&LockContext::new()));
    assert!(!lock.evaluate(&LockContext::new().with_perm("banned")));
}

#[test]
fn disjunction_short_circuits_correctly() {
    let lock = lock("x:perm(a) or perm(b)");
    assert!(lock.evaluate(&LockContext::new().with_perm("b")));
    assert!(!lock.evaluate(&LockContext::new().with_perm("c")));
}

// pipeline

#[test]
fn first_normative_example_grants_uncursed_player_only() {
    let lock = lock("get:perm(player) and not attr(cursed)");

    assert!(lock.evaluate(&LockContext::new().with_perm("player")));
    assert!(!lock.evaluate(&LockContext::new().with_perm("player").with_attr("cursed")));
    assert!(!lock.evaluate(&LockContext::new()));
}

#[test]
fn second_normative_example_grants_self_or_admin() {
    let lock = lock("edit:self() or perm(admin)");

    assert!(lock.evaluate(&LockContext::new().as_self()));
    assert!(lock.evaluate(&LockContext::new().with_perm("admin")));
    assert!(!lock.evaluate(&LockContext::new().with_perm("player")));
}

#[test]
fn third_normative_example_grants_sober_crew_only() {
    let lock = lock("helm:tag(crew) and not status(drunk)");

    assert!(lock.evaluate(&LockContext::new().with_tag("crew")));
    assert!(!lock.evaluate(&LockContext::new().with_tag("crew").with_status("drunk")));
}

#[test]
fn precedence_is_not_binds_tighter_than_and_tighter_than_or() {
    let lock = lock("x:perm(a) and not perm(b) or perm(c)");

    assert!(lock.evaluate(&LockContext::new().with_perm("c")));
    assert!(lock.evaluate(&LockContext::new().with_perm("a")));
    assert!(!lock.evaluate(&LockContext::new().with_perm("a").with_perm("b")));
}

#[test]
fn a_syntactically_invalid_lock_fails_to_parse() {
    assert!(parse("x:perm(player) and (perm(admin)").is_err());
}

#[test]
fn an_unknown_function_fails_to_resolve() {
    let parsed = parse("x:wizard(merlin)").expect("input should parse");

    assert_eq!(
        resolve(parsed),
        Err(ResolveError::UnknownFunction { name: "wizard".to_string() })
    );
}

#[test]
fn wrong_arity_fails_to_resolve() {
    let nullary_with_arg = parse("x:self(player)").expect("input should parse");
    assert_eq!(
        resolve(nullary_with_arg),
        Err(ResolveError::ArityMismatch { name: "self".to_string(), expected: 0, found: 1 })
    );

    let unary_without_arg = parse("x:perm()").expect("input should parse");
    assert_eq!(
        resolve(unary_without_arg),
        Err(ResolveError::ArityMismatch { name: "perm".to_string(), expected: 1, found: 0 })
    );
}
