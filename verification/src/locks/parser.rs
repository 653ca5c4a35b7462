//! The lock-string parser.
//!
//! The grammar, over whitespace-separated tokens:
//!
//! ```text
//! lock  := ident ':' or            (the access type is not a keyword)
//! or    := or 'or' and | and       (left associative)
//! and   := and 'and' unary | unary (left associative)
//! unary := 'not' unary | atom
//! atom  := '(' or ')' | ident '(' [ident (',' ident)*] ')'
//! ```
//!
//! so `not` binds tighter than `and`, which binds tighter than `or`. An
//! identifier is `[A-Za-z_][A-Za-z0-9_]*`; `and`, `or` and `not` are keywords
//! and never name a function or an access type (an argument may be any
//! identifier). Whitespace (Unicode `White_Space`) between tokens is
//! insignificant. The parse is stated as [`spec_parse_lock`]: lexing, then
//! splitting each expression at its last top-level lowest-precedence operator.

use vstd::prelude::*;
use vstd::string::StringExecFns;
use crate::chars::{joined, chars_of, string_of, is_space, is_space_spec, is_ascii_alpha_spec, is_ascii_digit_spec};
use super::ast::{AccessType, ParsedLock, SyntaxExpr, SyntaxModel};

verus! {

/// A lock-string parse failure.
#[derive(Debug, Clone, PartialEq, Eq)]
#[non_exhaustive]
pub struct ParseError {
    message: String,
}

impl ParseError {
    /// What went wrong, without the common prefix.
    pub closed spec fn detail(&self) -> Seq<char> {
        self.message@
    }

    /// The human-readable message for this error.
    pub fn message(&self) -> (r: String)
        ensures
            r@ == "lock parse error: "@ + self.detail(),
    {
        joined("lock parse error: ", self.message.as_str())
    }
}

/// A token of the lock grammar.
pub enum LockToken {
    Ident(Seq<char>),
    Open,
    Close,
    Comma,
    Colon,
}

/// First character of an identifier.
pub open spec fn is_ident_start(c: char) -> bool {
    is_ascii_alpha_spec(c) || c == '_'
}

/// Later character of an identifier.
pub open spec fn is_ident_char(c: char) -> bool {
    is_ident_start(c) || is_ascii_digit_spec(c)
}

/// The end of the identifier run starting at `i`.
pub open spec fn ident_end(s: Seq<char>, i: int) -> int
    decreases s.len() - i,
{
    if 0 <= i < s.len() && is_ident_char(s[i]) {
        ident_end(s, i + 1)
    } else {
        i
    }
}

pub proof fn lemma_ident_end(s: Seq<char>, i: int)
    requires
        0 <= i <= s.len(),
    ensures
        i <= ident_end(s, i) <= s.len(),
        forall|k: int| i <= k < ident_end(s, i) ==> is_ident_char(#[trigger] s[k]),
        ident_end(s, i) < s.len() ==> !is_ident_char(s[ident_end(s, i)]),
    decreases s.len() - i,
{
    if i < s.len() && is_ident_char(s[i]) {
        lemma_ident_end(s, i + 1);
    }
}

/// Prepends `t` to a successful token list.
pub open spec fn cons_token(t: LockToken, rest: Option<Seq<LockToken>>) -> Option<Seq<LockToken>> {
    match rest {
        Some(r) => Some(seq![t] + r),
        None => None,
    }
}

/// The tokens of `s[i..]`, or `None` when a character fits no token.
pub open spec fn lex_from(s: Seq<char>, i: int) -> Option<Seq<LockToken>>
    decreases s.len() - i,
{
    if i < 0 || i >= s.len() {
        Some(Seq::empty())
    } else {
        let c = s[i];
        if is_space_spec(c) {
            lex_from(s, i + 1)
        } else if c == '(' {
            cons_token(LockToken::Open, lex_from(s, i + 1))
        } else if c == ')' {
            cons_token(LockToken::Close, lex_from(s, i + 1))
        } else if c == ',' {
            cons_token(LockToken::Comma, lex_from(s, i + 1))
        } else if c == ':' {
            cons_token(LockToken::Colon, lex_from(s, i + 1))
        } else if is_ident_start(c) {
            let j = ident_end(s, i + 1);
            proof {
                lemma_ident_end(s, i + 1);
            }
            cons_token(LockToken::Ident(s.subrange(i, j)), lex_from(s, j))
        } else {
            None
        }
    }
}

/// The keyword `or`.
pub open spec fn kw_or() -> Seq<char> {
    seq!['o', 'r']
}

/// The keyword `and`.
pub open spec fn kw_and() -> Seq<char> {
    seq!['a', 'n', 'd']
}

/// The keyword `not`.
pub open spec fn kw_not() -> Seq<char> {
    seq!['n', 'o', 't']
}

/// The reserved words of the grammar.
pub open spec fn is_keyword(w: Seq<char>) -> bool {
    w == kw_or() || w == kw_and() || w == kw_not()
}

/// How a token changes the parenthesis depth.
pub open spec fn token_delta(t: LockToken) -> int {
    match t {
        LockToken::Open => 1,
        LockToken::Close => -1,
        _ => 0,
    }
}

/// The parenthesis depth after `t[lo..i]`.
pub open spec fn depth_at(t: Seq<LockToken>, lo: int, i: int) -> int
    decreases i - lo,
{
    if i <= lo {
        0
    } else {
        depth_at(t, lo, i - 1) + token_delta(t[i - 1])
    }
}

/// The last index `k` in `lo..i` whose token is the word `w` at depth 0, or
/// `lo - 1` when there is none.
pub open spec fn last_top(t: Seq<LockToken>, lo: int, i: int, w: Seq<char>) -> int
    decreases i - lo,
{
    if i <= lo {
        lo - 1
    } else if t[i - 1] == LockToken::Ident(w) && depth_at(t, lo, i - 1) == 0 {
        i - 1
    } else {
        last_top(t, lo, i - 1, w)
    }
}

pub proof fn lemma_last_top(t: Seq<LockToken>, lo: int, i: int, w: Seq<char>)
    requires
        lo <= i,
    ensures
        lo - 1 <= last_top(t, lo, i, w) < i,
    decreases i - lo,
{
    if i > lo {
        lemma_last_top(t, lo, i - 1, w);
    }
}

/// The group `t[lo..hi]` opens at `lo` and closes only at `hi - 1`.
pub open spec fn is_group(t: Seq<LockToken>, lo: int, hi: int) -> bool {
    &&& hi - lo >= 2
    &&& t[lo] == LockToken::Open
    &&& t[hi - 1] == LockToken::Close
    &&& forall|j: int| lo < j < hi - 1 ==> #[trigger] depth_at(t, lo, j) > 0
}

/// The argument list `ident (',' ident)*` spanning `t[lo..hi]` (non-empty).
pub open spec fn arg_list(t: Seq<LockToken>, lo: int, hi: int) -> Option<Seq<Seq<char>>>
    decreases hi - lo,
{
    if lo >= hi {
        None
    } else {
        match t[lo] {
            LockToken::Ident(a) => {
                if lo + 1 == hi {
                    Some(seq![a])
                } else if t[lo + 1] == LockToken::Comma {
                    match arg_list(t, lo + 2, hi) {
                        Some(rest) => Some(seq![a] + rest),
                        None => None,
                    }
                } else {
                    None
                }
            },
            _ => None,
        }
    }
}

/// The arguments spanning `t[lo..hi]`: empty, or an argument list.
pub open spec fn args_spec(t: Seq<LockToken>, lo: int, hi: int) -> Option<Seq<Seq<char>>> {
    if lo == hi {
        Some(Seq::empty())
    } else {
        arg_list(t, lo, hi)
    }
}

/// Combines two optional operands.
pub open spec fn both(
    l: Option<SyntaxModel>,
    r: Option<SyntaxModel>,
) -> Option<(SyntaxModel, SyntaxModel)> {
    match (l, r) {
        (Some(a), Some(b)) => Some((a, b)),
        _ => None,
    }
}

/// `t[lo..hi]` as an `or` expression.
pub open spec fn parse_or_spec(t: Seq<LockToken>, lo: int, hi: int) -> Option<SyntaxModel>
    decreases hi - lo, 3int,
{
    if lo > hi {
        None
    } else {
        let k = last_top(t, lo, hi, kw_or());
        proof {
            lemma_last_top(t, lo, hi, kw_or());
        }
        if k >= lo {
            match both(parse_or_spec(t, lo, k), parse_and_spec(t, k + 1, hi)) {
                Some((a, b)) => Some(SyntaxModel::Or(Box::new(a), Box::new(b))),
                None => None,
            }
        } else {
            parse_and_spec(t, lo, hi)
        }
    }
}

/// `t[lo..hi]` as an `and` expression.
pub open spec fn parse_and_spec(t: Seq<LockToken>, lo: int, hi: int) -> Option<SyntaxModel>
    decreases hi - lo, 2int,
{
    if lo > hi {
        None
    } else {
        let k = last_top(t, lo, hi, kw_and());
        proof {
            lemma_last_top(t, lo, hi, kw_and());
        }
        if k >= lo {
            match both(parse_and_spec(t, lo, k), parse_unary_spec(t, k + 1, hi)) {
                Some((a, b)) => Some(SyntaxModel::And(Box::new(a), Box::new(b))),
                None => None,
            }
        } else {
            parse_unary_spec(t, lo, hi)
        }
    }
}

/// `t[lo..hi]` as a unary expression.
pub open spec fn parse_unary_spec(t: Seq<LockToken>, lo: int, hi: int) -> Option<SyntaxModel>
    decreases hi - lo, 1int,
{
    if lo > hi {
        None
    } else if lo < hi && t[lo] == LockToken::Ident(kw_not()) {
        match parse_unary_spec(t, lo + 1, hi) {
            Some(e) => Some(SyntaxModel::Not(Box::new(e))),
            None => None,
        }
    } else {
        parse_atom_spec(t, lo, hi)
    }
}

/// `t[lo..hi]` as an atom: a parenthesised group or a function call.
pub open spec fn parse_atom_spec(t: Seq<LockToken>, lo: int, hi: int) -> Option<SyntaxModel>
    decreases hi - lo, 0int,
{
    if lo > hi {
        None
    } else if is_group(t, lo, hi) {
        parse_or_spec(t, lo + 1, hi - 1)
    } else if hi - lo >= 3 && t[lo + 1] == LockToken::Open && t[hi - 1] == LockToken::Close {
        match t[lo] {
            LockToken::Ident(name) => {
                if is_keyword(name) {
                    None
                } else {
                    match args_spec(t, lo + 2, hi - 1) {
                        Some(args) => Some(SyntaxModel::Call { name, args }),
                        None => None,
                    }
                }
            },
            _ => None,
        }
    } else {
        None
    }
}

/// A lock string, over plain values: its access type and expression, or
/// `None` when the string is not a lock.
pub open spec fn spec_parse_lock(s: Seq<char>) -> Option<(Seq<char>, SyntaxModel)> {
    match lex_from(s, 0) {
        None => None,
        Some(t) => {
            if t.len() >= 2 && t[1] == LockToken::Colon {
                match t[0] {
                    LockToken::Ident(a) => {
                        if is_keyword(a) {
                            None
                        } else {
                            match parse_or_spec(t, 2, t.len() as int) {
                                Some(e) => Some((a, e)),
                                None => None,
                            }
                        }
                    },
                    _ => None,
                }
            } else {
                None
            }
        },
    }
}

/// A token as the lexer produces it.
pub enum Lexeme {
    Ident(Vec<char>),
    Open,
    Close,
    Comma,
    Colon,
}

impl View for Lexeme {
    type V = LockToken;

    open spec fn view(&self) -> LockToken {
        match self {
            Lexeme::Ident(v) => LockToken::Ident(v@),
            Lexeme::Open => LockToken::Open,
            Lexeme::Close => LockToken::Close,
            Lexeme::Comma => LockToken::Comma,
            Lexeme::Colon => LockToken::Colon,
        }
    }
}

/// The plain-value form of a token vector.
pub open spec fn tokens_view(t: Seq<Lexeme>) -> Seq<LockToken> {
    t.map_values(|x: Lexeme| x@)
}

/// Prepends `p` to a successful token list.
pub open spec fn prefix_tokens(p: Seq<LockToken>, rest: Option<Seq<LockToken>>) -> Option<Seq<LockToken>> {
    match rest {
        Some(r) => Some(p + r),
        None => None,
    }
}

fn is_ident_start_exec(c: char) -> (r: bool)
    ensures
        r == is_ident_start(c),
{
    ('a' <= c && c <= 'z') || ('A' <= c && c <= 'Z') || c == '_'
}

fn is_ident_char_exec(c: char) -> (r: bool)
    ensures
        r == is_ident_char(c),
{
    is_ident_start_exec(c) || ('0' <= c && c <= '9')
}

/// Splits the characters `s` into tokens.
fn lex(s: &Vec<char>) -> (r: Option<Vec<Lexeme>>)
    ensures
        match r {
            Some(t) => lex_from(s@, 0) == Some(tokens_view(t@)),
            None => lex_from(s@, 0) is None,
        },
{
    let mut out: Vec<Lexeme> = Vec::new();
    let mut i: usize = 0;
    while i < s.len()
        invariant
            i <= s@.len(),
            lex_from(s@, 0) == prefix_tokens(tokens_view(out@), lex_from(s@, i as int)),
        decreases s@.len() - i,
    {
        let c = s[i];
        let ghost before = tokens_view(out@);
        if is_space(c) {
            i = i + 1;
        } else if c == '(' || c == ')' || c == ',' || c == ':' {
            let tok = if c == '(' {
                Lexeme::Open
            } else if c == ')' {
                Lexeme::Close
            } else if c == ',' {
                Lexeme::Comma
            } else {
                Lexeme::Colon
            };
            out.push(tok);
            i = i + 1;
            proof {
                assert(tokens_view(out@) =~= before + seq![tok@]);
                match lex_from(s@, i as int) {
                    Some(r) => assert(before + (seq![tok@] + r) =~= tokens_view(out@) + r),
                    None => {},
                }
            }
        } else if is_ident_start_exec(c) {
            let start = i;
            let mut j = i + 1;
            while j < s.len() && is_ident_char_exec(s[j])
                invariant
                    start < j <= s@.len(),
                    ident_end(s@, j as int) == ident_end(s@, start + 1),
                decreases s@.len() - j,
            {
                j = j + 1;
            }
            let mut word: Vec<char> = Vec::new();
            let mut k = start;
            while k < j
                invariant
                    start <= k <= j <= s@.len(),
                    word@ == s@.subrange(start as int, k as int),
                decreases j - k,
            {
                word.push(s[k]);
                k = k + 1;
                assert(word@ =~= s@.subrange(start as int, k as int));
            }
            let tok = Lexeme::Ident(word);
            let ghost tv = tok@;
            out.push(tok);
            i = j;
            proof {
                assert(tokens_view(out@) =~= before + seq![tv]);
                match lex_from(s@, i as int) {
                    Some(r) => assert(before + (seq![tv] + r) =~= tokens_view(out@) + r),
                    None => {},
                }
            }
        } else {
            return None;
        }
    }
    proof {
        assert(tokens_view(out@) + Seq::<LockToken>::empty() =~= tokens_view(out@));
    }
    Some(out)
}

/// The plain-value form of an optional expression.
pub open spec fn opt_view(r: Option<SyntaxExpr>) -> Option<SyntaxModel> {
    match r {
        Some(e) => Some(e@),
        None => None,
    }
}

fn is_word(t: &Lexeme, w: u8) -> (r: bool)
    requires
        w < 3,
    ensures
        r == (t@ == LockToken::Ident(if w == 0 { kw_or() } else if w == 1 { kw_and() } else { kw_not() })),
{
    match t {
        Lexeme::Ident(v) => {
            let r = if w == 0 {
                v.len() == 2 && v[0] == 'o' && v[1] == 'r'
            } else if w == 1 {
                v.len() == 3 && v[0] == 'a' && v[1] == 'n' && v[2] == 'd'
            } else {
                v.len() == 3 && v[0] == 'n' && v[1] == 'o' && v[2] == 't'
            };
            proof {
                let kw = if w == 0 { kw_or() } else if w == 1 { kw_and() } else { kw_not() };
                if r {
                    assert(v@ =~= kw);
                } else if v@ == kw {
                    assert(v@.len() == kw.len());
                }
            }
            r
        },
        _ => false,
    }
}

fn is_keyword_exec(v: &Vec<char>) -> (r: bool)
    ensures
        r == is_keyword(v@),
{
    let r = (v.len() == 2 && v[0] == 'o' && v[1] == 'r')
        || (v.len() == 3 && v[0] == 'a' && v[1] == 'n' && v[2] == 'd')
        || (v.len() == 3 && v[0] == 'n' && v[1] == 'o' && v[2] == 't');
    proof {
        if r {
            if v.len() == 2 {
                assert(v@ =~= kw_or());
            } else if v[0] == 'a' {
                assert(v@ =~= kw_and());
            } else {
                assert(v@ =~= kw_not());
            }
        } else {
            if v@ == kw_or() {
                assert(v@.len() == 2);
            }
            if v@ == kw_and() {
                assert(v@.len() == 3);
            }
            if v@ == kw_not() {
                assert(v@.len() == 3);
            }
        }
    }
    r
}

/// The last index in `lo..hi` holding the keyword `w` at depth 0.
fn find_last_top(t: &Vec<Lexeme>, lo: usize, hi: usize, w: u8) -> (r: Option<usize>)
    requires
        lo <= hi <= t@.len(),
        w < 3,
    ensures
        match r {
            Some(k) => k as int == last_top(tokens_view(t@), lo as int, hi as int, if w == 0 { kw_or() } else if w == 1 { kw_and() } else { kw_not() })
                && lo <= k < hi,
            None => last_top(tokens_view(t@), lo as int, hi as int, if w == 0 { kw_or() } else if w == 1 { kw_and() } else { kw_not() }) < lo,
        },
{
    let ghost tv = tokens_view(t@);
    let ghost kw = if w == 0 { kw_or() } else if w == 1 { kw_and() } else { kw_not() };
    let mut found: Option<usize> = None;
    let mut opens: usize = 0;
    let mut closes: usize = 0;
    let mut i = lo;
    while i < hi
        invariant
            lo <= i <= hi <= t@.len(),
            tv == tokens_view(t@),
            kw == (if w == 0 { kw_or() } else if w == 1 { kw_and() } else { kw_not() }),
            w < 3,
            opens <= i - lo,
            closes <= i - lo,
            depth_at(tv, lo as int, i as int) == opens - closes,
            match found {
                Some(k) => k as int == last_top(tv, lo as int, i as int, kw) && lo <= k < i,
                None => last_top(tv, lo as int, i as int, kw) < lo,
            },
        decreases hi - i,
    {
        let tok = &t[i];
        if is_word(tok, w) && opens == closes {
            found = Some(i);
        }
        match tok {
            Lexeme::Open => {
                opens = opens + 1;
            },
            Lexeme::Close => {
                closes = closes + 1;
            },
            _ => {},
        }
        i = i + 1;
    }
    found
}

/// Whether `t[lo..hi]` is a parenthesised group closing only at its end.
fn check_group(t: &Vec<Lexeme>, lo: usize, hi: usize) -> (r: bool)
    requires
        lo <= hi <= t@.len(),
    ensures
        r == is_group(tokens_view(t@), lo as int, hi as int),
{
    let ghost tv = tokens_view(t@);
    if hi - lo < 2 {
        return false;
    }
    match (&t[lo], &t[hi - 1]) {
        (Lexeme::Open, Lexeme::Close) => {},
        _ => {
            return false;
        },
    }
    let mut opens: usize = 1;
    let mut closes: usize = 0;
    let mut j = lo + 1;
    proof {
        assert(tv[lo as int] == LockToken::Open);
        assert(depth_at(tv, lo as int, lo as int) == 0);
        assert(depth_at(tv, lo as int, lo as int + 1) == 1);
    }
    while j < hi - 1
        invariant
            lo < j <= hi - 1,
            hi <= t@.len(),
            hi - lo >= 2,
            tv == tokens_view(t@),
            opens <= j - lo,
            closes <= j - lo,
            depth_at(tv, lo as int, j as int) == opens - closes,
            forall|m: int| lo < m < j ==> #[trigger] depth_at(tv, lo as int, m) > 0,
        decreases hi - j,
    {
        if opens <= closes {
            return false;
        }
        match &t[j] {
            Lexeme::Open => {
                opens = opens + 1;
            },
            Lexeme::Close => {
                closes = closes + 1;
            },
            _ => {},
        }
        j = j + 1;
    }
    true
}

/// Parses `t[lo..hi]` as a non-empty comma-separated list of identifiers.
fn parse_args(t: &Vec<Lexeme>, lo: usize, hi: usize) -> (r: Option<Vec<String>>)
    requires
        lo <= hi <= t@.len(),
    ensures
        match r {
            Some(v) => args_spec(tokens_view(t@), lo as int, hi as int) == Some(crate::locks::ast::strings_view(v@)),
            None => args_spec(tokens_view(t@), lo as int, hi as int) is None,
        },
{
    let ghost tv = tokens_view(t@);
    let mut out: Vec<String> = Vec::new();
    if lo == hi {
        proof {
            assert(crate::locks::ast::strings_view(out@) =~= Seq::<Seq<char>>::empty());
        }
        return Some(out);
    }
    let mut idx = lo;
    loop
        invariant
            lo <= idx < hi <= t@.len(),
            tv == tokens_view(t@),
            arg_list(tv, lo as int, hi as int) == (match arg_list(tv, idx as int, hi as int) {
                Some(rest) => Some(crate::locks::ast::strings_view(out@) + rest),
                None => None::<Seq<Seq<char>>>,
            }),
        decreases hi - idx,
    {
        let ghost before = crate::locks::ast::strings_view(out@);
        match &t[idx] {
            Lexeme::Ident(v) => {
                let arg = string_of(v, 0, v.len());
                proof {
                    assert(v@.subrange(0, v@.len() as int) =~= v@);
                }
                out.push(arg);
                proof {
                    assert(crate::locks::ast::strings_view(out@) =~= before + seq![v@]);
                }
                if idx + 1 == hi {
                    proof {
                        assert(before + seq![v@] =~= crate::locks::ast::strings_view(out@));
                    }
                    return Some(out);
                }
                match &t[idx + 1] {
                    Lexeme::Comma => {},
                    _ => {
                        return None;
                    },
                }
                if idx + 2 >= hi {
                    proof {
                        assert(tv[idx as int + 1] == LockToken::Comma);
                        assert(arg_list(tv, idx as int + 2, hi as int) is None);
                    }
                    return None;
                }
                idx = idx + 2;
                proof {
                    match arg_list(tv, idx as int, hi as int) {
                        Some(rest) => {
                            assert(before + (seq![v@] + rest) =~= crate::locks::ast::strings_view(out@) + rest);
                        },
                        None => {},
                    }
                }
            },
            _ => {
                return None;
            },
        }
    }
}

fn parse_or(t: &Vec<Lexeme>, lo: usize, hi: usize) -> (r: Option<SyntaxExpr>)
    requires
        lo <= hi <= t@.len(),
    ensures
        opt_view(r) == parse_or_spec(tokens_view(t@), lo as int, hi as int),
    decreases hi - lo, 3int,
{
    proof {
        lemma_last_top(tokens_view(t@), lo as int, hi as int, kw_or());
    }
    match find_last_top(t, lo, hi, 0) {
        Some(k) => {
            let left = parse_or(t, lo, k);
            match left {
                Some(a) => {
                    let right = parse_and(t, k + 1, hi);
                    match right {
                        Some(b) => Some(SyntaxExpr::Or(Box::new(a), Box::new(b))),
                        None => None,
                    }
                },
                None => None,
            }
        },
        None => parse_and(t, lo, hi),
    }
}

fn parse_and(t: &Vec<Lexeme>, lo: usize, hi: usize) -> (r: Option<SyntaxExpr>)
    requires
        lo <= hi <= t@.len(),
    ensures
        opt_view(r) == parse_and_spec(tokens_view(t@), lo as int, hi as int),
    decreases hi - lo, 2int,
{
    proof {
        lemma_last_top(tokens_view(t@), lo as int, hi as int, kw_and());
    }
    match find_last_top(t, lo, hi, 1) {
        Some(k) => {
            let left = parse_and(t, lo, k);
            match left {
                Some(a) => {
                    let right = parse_unary(t, k + 1, hi);
                    match right {
                        Some(b) => Some(SyntaxExpr::And(Box::new(a), Box::new(b))),
                        None => None,
                    }
                },
                None => None,
            }
        },
        None => parse_unary(t, lo, hi),
    }
}

fn parse_unary(t: &Vec<Lexeme>, lo: usize, hi: usize) -> (r: Option<SyntaxExpr>)
    requires
        lo <= hi <= t@.len(),
    ensures
        opt_view(r) == parse_unary_spec(tokens_view(t@), lo as int, hi as int),
    decreases hi - lo, 1int,
{
    if lo < hi && is_word(&t[lo], 2) {
        match parse_unary(t, lo + 1, hi) {
            Some(e) => Some(SyntaxExpr::Not(Box::new(e))),
            None => None,
        }
    } else {
        parse_atom(t, lo, hi)
    }
}

fn parse_atom(t: &Vec<Lexeme>, lo: usize, hi: usize) -> (r: Option<SyntaxExpr>)
    requires
        lo <= hi <= t@.len(),
    ensures
        opt_view(r) == parse_atom_spec(tokens_view(t@), lo as int, hi as int),
    decreases hi - lo, 0int,
{
    if check_group(t, lo, hi) {
        return parse_or(t, lo + 1, hi - 1);
    }
    if hi - lo < 3 {
        return None;
    }
    match (&t[lo + 1], &t[hi - 1]) {
        (Lexeme::Open, Lexeme::Close) => {},
        _ => {
            return None;
        },
    }
    match &t[lo] {
        Lexeme::Ident(v) => {
            if is_keyword_exec(v) {
                return None;
            }
            match parse_args(t, lo + 2, hi - 1) {
                Some(args) => {
                    let name = string_of(v, 0, v.len());
                    proof {
                        assert(v@.subrange(0, v@.len() as int) =~= v@);
                    }
                    Some(SyntaxExpr::Call { name, args })
                },
                None => None,
            }
        },
        _ => None,
    }
}

fn parse_error(text: &str) -> (r: ParseError)
    ensures
        r.detail() == text@,
{
    ParseError { message: String::from_str(text) }
}

/// Parses a lock string of the form `accesstype:expr` into a [`ParsedLock`]
/// (see the module documentation for the grammar).
///
/// Returns [`ParseError`] exactly when the input is not a lock string:
/// a character outside every token, a missing or keyword access type, a
/// malformed expression or trailing input.
pub fn parse(input: &str) -> (r: Result<ParsedLock, ParseError>)
    ensures
        match r {
            Ok(p) => spec_parse_lock(input@) == Some((p.access_type_spec(), p.expr_spec())),
            Err(_) => spec_parse_lock(input@) is None,
        },
{
    let cs = chars_of(input);
    let toks = match lex(&cs) {
        Some(t) => t,
        None => {
            return Err(parse_error("lock string contains a character outside the lock grammar"));
        },
    };
    if toks.len() < 2 {
        return Err(parse_error("lock string must have the form accesstype:expr"));
    }
    match &toks[1] {
        Lexeme::Colon => {},
        _ => {
            return Err(parse_error("lock string must have the form accesstype:expr"));
        },
    }
    let access = match &toks[0] {
        Lexeme::Ident(v) => {
            if is_keyword_exec(v) {
                return Err(parse_error("reserved keyword cannot be an access type"));
            }
            let a = string_of(v, 0, v.len());
            proof {
                assert(v@.subrange(0, v@.len() as int) =~= v@);
            }
            a
        },
        _ => {
            return Err(parse_error("lock string must have the form accesstype:expr"));
        },
    };
    match parse_or(&toks, 2, toks.len()) {
        Some(e) => Ok(ParsedLock::new(AccessType::new(access), e)),
        None => Err(parse_error("malformed lock expression")),
    }
}

/// An identifier run from `i` up to `j`, stopped by the end or by a
/// character outside the run, ends at `j`.
proof fn lemma_ident_end_at(s: Seq<char>, i: int, j: int)
    requires
        0 <= i <= j <= s.len(),
        forall|k: int| i <= k < j ==> is_ident_char(#[trigger] s[k]),
        j < s.len() ==> !is_ident_char(s[j]),
    ensures
        ident_end(s, i) == j,
    decreases j - i,
{
    if i < j {
        lemma_ident_end_at(s, i + 1, j);
    }
}

/// `w` is an identifier, checked against fixed character ranges: a letter or
/// `_`, then ASCII letters, digits or `_`.
pub open spec fn ascii_identifier(w: Seq<char>) -> bool {
    &&& w.len() > 0
    &&& ('a' <= w[0] && w[0] <= 'z') || ('A' <= w[0] && w[0] <= 'Z') || w[0] == '_'
    &&& forall|k: int| 0 < k < w.len() ==> {
        let c = #[trigger] w[k];
        ('a' <= c && c <= 'z') || ('A' <= c && c <= 'Z') || ('0' <= c && c <= '9') || c == '_'
    }
}

/// A call with one identifier argument parses: for identifiers `f` (not a
/// keyword) and `w`, `x:f(w)` is the access type `x` with the single call
/// `f` whose one argument is `w`.
pub proof fn lemma_call_parses(f: Seq<char>, w: Seq<char>)
    requires
        ascii_identifier(f),
        f != kw_or() && f != kw_and() && f != kw_not(),
        ascii_identifier(w),
    ensures
        spec_parse_lock(seq!['x', ':'] + f + seq!['('] + w + seq![')']) == Some(
            (seq!['x'], SyntaxModel::Call { name: f, args: seq![w] }),
        ),
{
    let m = f.len() as int;
    let n = w.len() as int;
    let s = seq!['x', ':'] + f + seq!['('] + w + seq![')'];
    assert(s.len() == m + n + 4);
    assert(s[0] == 'x' && s[1] == ':');
    assert forall|k: int| 0 <= k < m implies #[trigger] s[2 + k] == f[k] by {}
    assert(s[2 + m] == '(');
    assert forall|k: int| 0 <= k < n implies #[trigger] s[3 + m + k] == w[k] by {}
    assert(s[3 + m + n] == ')');
    // Lexing: `x`, `:`, `f`, `(`, `w`, `)`.
    assert(lex_from(s, m + n + 4) == Some(Seq::<LockToken>::empty()));
    assert(lex_from(s, 3 + m + n) == cons_token(LockToken::Close, lex_from(s, m + n + 4)));
    assert forall|k: int| 4 + m <= k < 3 + m + n implies is_ident_char(#[trigger] s[k]) by {
        assert(s[k] == w[k - 3 - m]);
    }
    lemma_ident_end_at(s, 4 + m, 3 + m + n);
    assert(s[3 + m] == w[0]);
    assert(!is_space_spec(s[3 + m]));
    assert(s.subrange(3 + m, 3 + m + n) =~= w);
    assert(lex_from(s, 3 + m) == cons_token(LockToken::Ident(w), lex_from(s, 3 + m + n)));
    assert(lex_from(s, 2 + m) == cons_token(LockToken::Open, lex_from(s, 3 + m)));
    assert forall|k: int| 3 <= k < 2 + m implies is_ident_char(#[trigger] s[k]) by {
        assert(s[k] == f[k - 2]);
    }
    lemma_ident_end_at(s, 3, 2 + m);
    assert(s[2] == f[0]);
    assert(!is_space_spec(s[2]));
    assert(s.subrange(2, 2 + m) =~= f);
    assert(lex_from(s, 2) == cons_token(LockToken::Ident(f), lex_from(s, 2 + m)));
    assert(lex_from(s, 1) == cons_token(LockToken::Colon, lex_from(s, 2)));
    lemma_ident_end_at(s, 1, 1);
    assert(s.subrange(0, 1) =~= seq!['x']);
    assert(lex_from(s, 0) == cons_token(LockToken::Ident(seq!['x']), lex_from(s, 1)));
    let t = seq![
        LockToken::Ident(seq!['x']),
        LockToken::Colon,
        LockToken::Ident(f),
        LockToken::Open,
        LockToken::Ident(w),
        LockToken::Close,
    ];
    assert(lex_from(s, 0) == Some(t)) by {
        assert(seq![LockToken::Close] + Seq::<LockToken>::empty() =~= seq![LockToken::Close]);
        assert(seq![LockToken::Ident(w)] + seq![LockToken::Close] =~= t.subrange(4, 6));
        assert(seq![LockToken::Open] + t.subrange(4, 6) =~= t.subrange(3, 6));
        assert(seq![LockToken::Ident(f)] + t.subrange(3, 6) =~= t.subrange(2, 6));
        assert(seq![LockToken::Colon] + t.subrange(2, 6) =~= t.subrange(1, 6));
        assert(seq![LockToken::Ident(seq!['x'])] + t.subrange(1, 6) =~= t);
    }
    // Parsing the expression `f(w)`.
    assert(seq!['x'] != kw_or() && seq!['x'] != kw_and() && seq!['x'] != kw_not()) by {
        assert(seq!['x'].len() != kw_or().len());
        assert(seq!['x'].len() != kw_and().len());
        assert(seq!['x'].len() != kw_not().len());
    }
    assert(depth_at(t, 2, 2) == 0);
    assert(depth_at(t, 2, 3) == 0);
    assert(depth_at(t, 2, 4) == 1);
    assert(depth_at(t, 2, 5) == 1);
    assert forall|kw: Seq<char>| kw == kw_or() || kw == kw_and() implies #[trigger] last_top(t, 2, 6, kw) == 1 by {
        assert(last_top(t, 2, 2, kw) == 1);
        assert(last_top(t, 2, 3, kw) == 1);
        assert(last_top(t, 2, 4, kw) == 1);
        assert(last_top(t, 2, 5, kw) == 1);
    }
    assert(args_spec(t, 4, 5) == Some(seq![w]));
    assert(!is_group(t, 2, 6));
    let call = SyntaxModel::Call { name: f, args: seq![w] };
    assert(parse_atom_spec(t, 2, 6) == Some(call));
    assert(parse_unary_spec(t, 2, 6) == Some(call));
    assert(parse_and_spec(t, 2, 6) == Some(call));
    assert(parse_or_spec(t, 2, 6) == Some(call));
}

/// Identifiers are a letter or `_` followed by any ASCII letters, digits or
/// `_` (digits included): such a word lexes as one identifier token, and as
/// the argument of a call it parses: `x:perm(w)` is the access type `x` with
/// the single call `perm` whose one argument is `w`.
pub proof fn lemma_identifier_argument(w: Seq<char>)
    requires
        ascii_identifier(w),
    ensures
        lex_from(w, 0) == Some(seq![LockToken::Ident(w)]),
        spec_parse_lock(seq!['x', ':', 'p', 'e', 'r', 'm', '('] + w + seq![')']) == Some(
            (seq!['x'], SyntaxModel::Call { name: seq!['p', 'e', 'r', 'm'], args: seq![w] }),
        ),
{
    let n = w.len() as int;
    assert forall|k: int| 1 <= k < n implies is_ident_char(#[trigger] w[k]) by {}
    lemma_ident_end_at(w, 1, n);
    assert(w.subrange(0, n) =~= w);
    assert(lex_from(w, n) == Some(Seq::<LockToken>::empty()));
    assert(!is_space_spec(w[0]));
    assert(lex_from(w, 0) == cons_token(LockToken::Ident(w), lex_from(w, n)));
    assert(seq![LockToken::Ident(w)] + Seq::<LockToken>::empty() =~= seq![LockToken::Ident(w)]);
    let perm = seq!['p', 'e', 'r', 'm'];
    assert(perm != kw_or() && perm != kw_and() && perm != kw_not()) by {
        assert(perm.len() != kw_or().len());
        assert(perm.len() != kw_and().len());
        assert(perm.len() != kw_not().len());
    }
    assert(ascii_identifier(perm));
    lemma_call_parses(perm, w);
    assert(seq!['x', ':'] + perm + seq!['('] + w + seq![')'] =~= seq!['x', ':', 'p', 'e', 'r', 'm', '('] + w + seq![')']);
}

/// `t[p..p + 4]` are the tokens of the call `f(a)`, `f` not a keyword.
pub open spec fn call_at(t: Seq<LockToken>, p: int, f: Seq<char>, a: Seq<char>) -> bool {
    &&& 0 <= p && p + 4 <= t.len()
    &&& t[p] == LockToken::Ident(f)
    &&& t[p + 1] == LockToken::Open
    &&& t[p + 2] == LockToken::Ident(a)
    &&& t[p + 3] == LockToken::Close
    &&& !is_keyword(f)
}

/// Stepping over a call keeps the depth and finds no operator inside it.
proof fn lemma_skip_call(t: Seq<LockToken>, lo: int, p: int, f: Seq<char>, a: Seq<char>, w: Seq<char>)
    requires
        lo <= p,
        call_at(t, p, f, a),
        depth_at(t, lo, p) == 0,
        w == kw_or() || w == kw_and(),
    ensures
        depth_at(t, lo, p + 4) == 0,
        last_top(t, lo, p + 4, w) == last_top(t, lo, p, w),
{
    assert(depth_at(t, lo, p + 1) == 0);
    assert(depth_at(t, lo, p + 2) == 1);
    assert(depth_at(t, lo, p + 3) == 1);
    assert(depth_at(t, lo, p + 4) == 0);
    assert(f != w);
    assert(last_top(t, lo, p + 1, w) == last_top(t, lo, p, w));
    assert(last_top(t, lo, p + 2, w) == last_top(t, lo, p, w));
    assert(last_top(t, lo, p + 3, w) == last_top(t, lo, p, w));
}

/// Stepping over the word `v` at depth 0: it is the last operator `w` seen
/// when it is `w`, and is passed over otherwise.
proof fn lemma_skip_word(t: Seq<LockToken>, lo: int, p: int, v: Seq<char>, w: Seq<char>)
    requires
        lo <= p < t.len(),
        t[p] == LockToken::Ident(v),
        depth_at(t, lo, p) == 0,
    ensures
        depth_at(t, lo, p + 1) == 0,
        last_top(t, lo, p + 1, w) == (if v == w { p } else { last_top(t, lo, p, w) }),
{
}

/// A call's tokens parse, at every precedence level, as that call.
proof fn lemma_call_at_parses(t: Seq<LockToken>, p: int, f: Seq<char>, a: Seq<char>)
    requires
        call_at(t, p, f, a),
    ensures
        parse_or_spec(t, p, p + 4) == Some(SyntaxModel::Call { name: f, args: seq![a] }),
        parse_and_spec(t, p, p + 4) == Some(SyntaxModel::Call { name: f, args: seq![a] }),
        parse_unary_spec(t, p, p + 4) == Some(SyntaxModel::Call { name: f, args: seq![a] }),
{
    assert(depth_at(t, p, p) == 0);
    assert(last_top(t, p, p, kw_or()) == p - 1);
    assert(last_top(t, p, p, kw_and()) == p - 1);
    lemma_skip_call(t, p, p, f, a, kw_or());
    lemma_skip_call(t, p, p, f, a, kw_and());
    assert(f != kw_not());
    assert(args_spec(t, p + 2, p + 3) == Some(seq![a]));
    assert(!is_group(t, p, p + 4));
    assert(parse_atom_spec(t, p, p + 4) == Some(SyntaxModel::Call { name: f, args: seq![a] }));
    assert(parse_unary_spec(t, p, p + 4) == Some(SyntaxModel::Call { name: f, args: seq![a] }));
    assert(parse_and_spec(t, p, p + 4) == Some(SyntaxModel::Call { name: f, args: seq![a] }));
    assert(parse_or_spec(t, p, p + 4) == Some(SyntaxModel::Call { name: f, args: seq![a] }));
}

/// The tokens of `x:` followed by `e`.
pub open spec fn lock_tokens(e: Seq<LockToken>) -> Seq<LockToken> {
    seq![LockToken::Ident(seq!['x']), LockToken::Colon] + e
}

/// The tokens of the call `f(a)`.
pub open spec fn call_tokens(f: Seq<char>, a: Seq<char>) -> Seq<LockToken> {
    seq![LockToken::Ident(f), LockToken::Open, LockToken::Ident(a), LockToken::Close]
}

/// The call `f(a)` as a syntax tree.
pub open spec fn call_of(f: Seq<char>, a: Seq<char>) -> SyntaxModel {
    SyntaxModel::Call { name: f, args: seq![a] }
}

/// `x` is not a keyword.
proof fn lemma_x_not_keyword()
    ensures
        !is_keyword(seq!['x']),
{
    assert(seq!['x'].len() != kw_or().len());
    assert(seq!['x'].len() != kw_and().len());
    assert(seq!['x'].len() != kw_not().len());
}

/// Precedence and grouping of the connectives, for any calls `f(a)`,
/// `g(b)`, `h(c)` whose names are not keywords, in every lock string whose
/// tokens are `x:` followed by the expression's: `and` binds tighter than
/// `or` on either side, `or` groups to the left, and `not` applies to the
/// atom after it only.
pub proof fn lemma_precedence(
    f: Seq<char>,
    a: Seq<char>,
    g: Seq<char>,
    b: Seq<char>,
    h: Seq<char>,
    c: Seq<char>,
    s: Seq<char>,
)
    requires
        !is_keyword(f),
        !is_keyword(g),
        !is_keyword(h),
    ensures
        lex_from(s, 0) == Some(lock_tokens(
            call_tokens(f, a) + seq![LockToken::Ident(kw_or())] + call_tokens(g, b) + seq![LockToken::Ident(kw_and())]
                + call_tokens(h, c),
        )) ==> spec_parse_lock(s) == Some(
            (
                seq!['x'],
                SyntaxModel::Or(
                    Box::new(call_of(f, a)),
                    Box::new(SyntaxModel::And(Box::new(call_of(g, b)), Box::new(call_of(h, c)))),
                ),
            ),
        ),
        lex_from(s, 0) == Some(lock_tokens(
            call_tokens(f, a) + seq![LockToken::Ident(kw_and())] + call_tokens(g, b) + seq![LockToken::Ident(kw_or())]
                + call_tokens(h, c),
        )) ==> spec_parse_lock(s) == Some(
            (
                seq!['x'],
                SyntaxModel::Or(
                    Box::new(SyntaxModel::And(Box::new(call_of(f, a)), Box::new(call_of(g, b)))),
                    Box::new(call_of(h, c)),
                ),
            ),
        ),
        lex_from(s, 0) == Some(lock_tokens(
            call_tokens(f, a) + seq![LockToken::Ident(kw_or())] + call_tokens(g, b) + seq![LockToken::Ident(kw_or())]
                + call_tokens(h, c),
        )) ==> spec_parse_lock(s) == Some(
            (
                seq!['x'],
                SyntaxModel::Or(
                    Box::new(SyntaxModel::Or(Box::new(call_of(f, a)), Box::new(call_of(g, b)))),
                    Box::new(call_of(h, c)),
                ),
            ),
        ),
        lex_from(s, 0) == Some(lock_tokens(
            seq![LockToken::Ident(kw_not())] + call_tokens(f, a) + seq![LockToken::Ident(kw_and())] + call_tokens(g, b),
        )) ==> spec_parse_lock(s) == Some(
            (
                seq!['x'],
                SyntaxModel::And(
                    Box::new(SyntaxModel::Not(Box::new(call_of(f, a)))),
                    Box::new(call_of(g, b)),
                ),
            ),
        ),
{
    lemma_x_not_keyword();
    lemma_three_calls(f, a, g, b, h, c, kw_or(), kw_and());
    lemma_three_calls(f, a, g, b, h, c, kw_and(), kw_or());
    lemma_three_calls(f, a, g, b, h, c, kw_or(), kw_or());
    lemma_not_and(f, a, g, b);
}

/// `f(a) u g(b) v h(c)` after `x:`, for operators `u` and `v`.
proof fn lemma_three_calls(
    f: Seq<char>,
    a: Seq<char>,
    g: Seq<char>,
    b: Seq<char>,
    h: Seq<char>,
    c: Seq<char>,
    u: Seq<char>,
    v: Seq<char>,
)
    requires
        !is_keyword(f),
        !is_keyword(g),
        !is_keyword(h),
        (u == kw_or() && v == kw_and()) || (u == kw_and() && v == kw_or()) || (u == kw_or() && v == kw_or()),
    ensures
        ({
            let t = lock_tokens(
                call_tokens(f, a) + seq![LockToken::Ident(u)] + call_tokens(g, b) + seq![LockToken::Ident(v)] + call_tokens(
                    h,
                    c,
                ),
            );
            let fa = call_of(f, a);
            let gb = call_of(g, b);
            let hc = call_of(h, c);
            &&& u == kw_or() && v == kw_and() ==> parse_or_spec(t, 2, 16) == Some(
                SyntaxModel::Or(Box::new(fa), Box::new(SyntaxModel::And(Box::new(gb), Box::new(hc)))),
            )
            &&& u == kw_and() && v == kw_or() ==> parse_or_spec(t, 2, 16) == Some(
                SyntaxModel::Or(Box::new(SyntaxModel::And(Box::new(fa), Box::new(gb))), Box::new(hc)),
            )
            &&& u == kw_or() && v == kw_or() ==> parse_or_spec(t, 2, 16) == Some(
                SyntaxModel::Or(Box::new(SyntaxModel::Or(Box::new(fa), Box::new(gb))), Box::new(hc)),
            )
        }),
{
    let t = lock_tokens(
        call_tokens(f, a) + seq![LockToken::Ident(u)] + call_tokens(g, b) + seq![LockToken::Ident(v)] + call_tokens(h, c),
    );
    assert(t.len() == 16);
    assert(call_at(t, 2, f, a));
    assert(t[6] == LockToken::Ident(u));
    assert(call_at(t, 7, g, b));
    assert(t[11] == LockToken::Ident(v));
    assert(call_at(t, 12, h, c));
    assert(kw_or() != kw_and()) by {
        assert(kw_or().len() != kw_and().len());
    }
    lemma_call_at_parses(t, 2, f, a);
    lemma_call_at_parses(t, 7, g, b);
    lemma_call_at_parses(t, 12, h, c);
    lemma_scan_three(t, f, a, g, b, h, c, u, v, kw_or());
    lemma_scan_three(t, f, a, g, b, h, c, u, v, kw_and());
    let fa = call_of(f, a);
    let gb = call_of(g, b);
    let hc = call_of(h, c);
    if u == kw_or() && v == kw_and() {
        assert(parse_and_spec(t, 7, 11) == Some(gb));
        assert(parse_and_spec(t, 7, 16) == Some(SyntaxModel::And(Box::new(gb), Box::new(hc))));
        assert(parse_or_spec(t, 2, 6) == Some(fa));
        assert(parse_or_spec(t, 2, 16) == Some(
            SyntaxModel::Or(Box::new(fa), Box::new(SyntaxModel::And(Box::new(gb), Box::new(hc)))),
        ));
    } else if u == kw_and() && v == kw_or() {
        assert(parse_and_spec(t, 2, 6) == Some(fa));
        assert(parse_and_spec(t, 2, 11) == Some(SyntaxModel::And(Box::new(fa), Box::new(gb))));
        assert(parse_or_spec(t, 2, 11) == Some(SyntaxModel::And(Box::new(fa), Box::new(gb))));
        assert(parse_and_spec(t, 12, 16) == Some(hc));
        assert(parse_or_spec(t, 2, 16) == Some(
            SyntaxModel::Or(Box::new(SyntaxModel::And(Box::new(fa), Box::new(gb))), Box::new(hc)),
        ));
    } else {
        assert(parse_or_spec(t, 2, 6) == Some(fa));
        assert(parse_and_spec(t, 7, 11) == Some(gb));
        assert(parse_or_spec(t, 2, 11) == Some(SyntaxModel::Or(Box::new(fa), Box::new(gb))));
        assert(parse_and_spec(t, 12, 16) == Some(hc));
        assert(parse_or_spec(t, 2, 16) == Some(
            SyntaxModel::Or(Box::new(SyntaxModel::Or(Box::new(fa), Box::new(gb))), Box::new(hc)),
        ));
    }
}

/// Where the operator `w` last occurs at the top level in the pieces of
/// `x: f(a) u g(b) v h(c)`.
proof fn lemma_scan_three(
    t: Seq<LockToken>,
    f: Seq<char>,
    a: Seq<char>,
    g: Seq<char>,
    b: Seq<char>,
    h: Seq<char>,
    c: Seq<char>,
    u: Seq<char>,
    v: Seq<char>,
    w: Seq<char>,
)
    requires
        call_at(t, 2, f, a),
        t.len() == 16,
        t[6] == LockToken::Ident(u),
        call_at(t, 7, g, b),
        t[11] == LockToken::Ident(v),
        call_at(t, 12, h, c),
        w == kw_or() || w == kw_and(),
    ensures
        last_top(t, 2, 6, w) == 1,
        last_top(t, 2, 11, w) == (if u == w { 6int } else { 1int }),
        last_top(t, 2, 16, w) == (if v == w { 11int } else if u == w { 6int } else { 1int }),
        last_top(t, 7, 11, w) == 6,
        last_top(t, 7, 16, w) == (if v == w { 11int } else { 6int }),
        last_top(t, 12, 16, w) == 11,
{
    assert(depth_at(t, 2, 2) == 0);
    assert(last_top(t, 2, 2, w) == 1);
    assert(depth_at(t, 7, 7) == 0);
    assert(last_top(t, 7, 7, w) == 6);
    assert(depth_at(t, 12, 12) == 0);
    assert(last_top(t, 12, 12, w) == 11);
    lemma_skip_call(t, 2, 2, f, a, w);
    lemma_skip_word(t, 2, 6, u, w);
    lemma_skip_call(t, 2, 7, g, b, w);
    lemma_skip_word(t, 2, 11, v, w);
    lemma_skip_call(t, 2, 12, h, c, w);
    lemma_skip_call(t, 7, 7, g, b, w);
    lemma_skip_word(t, 7, 11, v, w);
    lemma_skip_call(t, 7, 12, h, c, w);
    lemma_skip_call(t, 12, 12, h, c, w);
}

/// `not f(a) and g(b)` after `x:`.
proof fn lemma_not_and(f: Seq<char>, a: Seq<char>, g: Seq<char>, b: Seq<char>)
    requires
        !is_keyword(f),
        !is_keyword(g),
    ensures
        parse_or_spec(
            lock_tokens(seq![LockToken::Ident(kw_not())] + call_tokens(f, a) + seq![LockToken::Ident(kw_and())] + call_tokens(g, b)),
            2,
            12,
        ) == Some(SyntaxModel::And(Box::new(SyntaxModel::Not(Box::new(call_of(f, a)))), Box::new(call_of(g, b)))),
{
    let t = lock_tokens(seq![LockToken::Ident(kw_not())] + call_tokens(f, a) + seq![LockToken::Ident(kw_and())] + call_tokens(g, b));
    assert(t.len() == 12);
    assert(t[2] == LockToken::Ident(kw_not()));
    assert(call_at(t, 3, f, a));
    assert(t[7] == LockToken::Ident(kw_and()));
    assert(call_at(t, 8, g, b));
    assert(kw_not() != kw_and() && kw_not() != kw_or()) by {
        assert(kw_not()[0] != kw_and()[0]);
        assert(kw_not().len() != kw_or().len());
    }
    lemma_call_at_parses(t, 3, f, a);
    lemma_call_at_parses(t, 8, g, b);
    assert forall|w: Seq<char>| w == kw_or() || w == kw_and() implies {
        &&& #[trigger] last_top(t, 2, 12, w) == (if w == kw_and() { 7int } else { 1int })
        &&& last_top(t, 2, 7, w) == 1
    } by {
        assert(depth_at(t, 2, 2) == 0);
        assert(last_top(t, 2, 2, w) == 1);
        lemma_skip_word(t, 2, 2, kw_not(), w);
        lemma_skip_call(t, 2, 3, f, a, w);
        lemma_skip_word(t, 2, 7, kw_and(), w);
        lemma_skip_call(t, 2, 8, g, b, w);
    }
    assert(last_top(t, 2, 12, kw_and()) == 7);
    assert(last_top(t, 2, 12, kw_or()) == 1);
    assert(last_top(t, 2, 7, kw_and()) == 1);
    assert(parse_unary_spec(t, 3, 7) == Some(call_of(f, a)));
    assert(parse_unary_spec(t, 2, 7) == Some(SyntaxModel::Not(Box::new(call_of(f, a)))));
    assert(parse_and_spec(t, 2, 7) == Some(SyntaxModel::Not(Box::new(call_of(f, a)))));
    assert(parse_unary_spec(t, 8, 12) == Some(call_of(g, b)));
    assert(parse_and_spec(t, 2, 12) == Some(
        SyntaxModel::And(Box::new(SyntaxModel::Not(Box::new(call_of(f, a)))), Box::new(call_of(g, b))),
    ));
}

} // verus!
