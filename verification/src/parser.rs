//! The recursive-descent parser of the policy language.
//!
//! The grammar, over the tokens of `token`:
//! ```text
//! Policy      := PolicyAtom+                  (one atom is `Atom`, two or more `Composite`)
//! PolicyAtom  := "allow" Action "on"? Resource Filter* AttrClause?
//! Action      := "create" | "read" | "update" | "delete"
//! Resource    := "table" StringLiteral
//! Filter      := "where" ("key_equals" | "key_like") Key StringExpr
//! Key         := "$" ("pk" | "sk")
//! AttrClause  := "with" "attributes" "[" (Field ("," Field)*)? "]"
//! StringExpr  := StringLiteral | "$" VarPath | "concat" "(" StringExpr "," StringExpr ")"
//! VarPath     := Ident ("." Ident)*
//! ```
//! The parser commits to one production per leading token and never
//! backtracks. A policy is parsed greedily: atoms are consumed while
//! they keep parsing, and input after the last parsable atom is
//! ignored; an empty input, or a first atom that does not parse, is an
//! error. The functions below mirror, and are verified against, the
//! specification-level parser `sp_parse_policy`.

use vstd::prelude::*;
use vstd::string::StrSliceExecFns;
use vstd::string::StringExecFns;

use crate::policy::Action;
use crate::policy::Field;
use crate::policy::Filter;
use crate::policy::FilterV;
use crate::policy::Key;
use crate::policy::Policy;
use crate::policy::PolicyAtom;
use crate::policy::PolicyAtomV;
use crate::policy::PolicyV;
use crate::policy::Resource;
use crate::policy::ResourceV;
use crate::policy::StringExpr;
use crate::policy::StringExprV;
use crate::policy::Var;
use crate::policy::wf_atom;
use crate::policy::wf_filter;
use crate::policy::wf_policy;
use crate::policy::wf_string_expr;
use crate::token::Token;
use crate::token::TokenV;
use crate::token::str_eq;
use crate::token::token_views;

verus! {

/// A grammar error: the position of the offending token (in tokens,
/// counted from the start of the annotation) and the alternatives that
/// were expected there.
#[derive(Clone, Debug, PartialEq, Eq)]
pub struct ParseError {
    pub pos: usize,
    pub expected: String,
}

// ---------------------------------------------------------------------
// The specification-level parser. Each function takes the token
// sequence and a position, and returns the parsed value with the
// position after it, or `None` where the grammar does not match.
// ---------------------------------------------------------------------

pub open spec fn sp_parse_action(t: Seq<TokenV>, i: int) -> Option<(Action, int)> {
    if 0 <= i < t.len() {
        match t[i] {
            TokenV::Ident(s) => {
                if s == "create"@ {
                    Option::Some((Action::Create, i + 1))
                } else if s == "read"@ {
                    Option::Some((Action::Read, i + 1))
                } else if s == "update"@ {
                    Option::Some((Action::Update, i + 1))
                } else if s == "delete"@ {
                    Option::Some((Action::Delete, i + 1))
                } else {
                    Option::None
                }
            },
            _ => Option::None,
        }
    } else {
        Option::None
    }
}

pub open spec fn sp_parse_key(t: Seq<TokenV>, i: int) -> Option<(Key, int)> {
    if 0 <= i && i + 1 < t.len() && t[i] is Dollar {
        match t[i + 1] {
            TokenV::Ident(s) => {
                if s == "pk"@ {
                    Option::Some((Key::Pk, i + 2))
                } else if s == "sk"@ {
                    Option::Some((Key::Sk, i + 2))
                } else {
                    Option::None
                }
            },
            _ => Option::None,
        }
    } else {
        Option::None
    }
}

/// The `("." Ident)*` tail of a variable path: the segments read and
/// the position after them. Total: it stops at the first token pair
/// that does not continue the path.
pub open spec fn sp_var_tail(t: Seq<TokenV>, i: int) -> (Seq<Seq<char>>, int)
    decreases t.len() - i,
{
    if 0 <= i && i + 1 < t.len() && t[i] is Dot && t[i + 1] is Ident {
        let rest = sp_var_tail(t, i + 2);
        (seq![t[i + 1]->Ident_0] + rest.0, rest.1)
    } else {
        (Seq::empty(), i)
    }
}

pub open spec fn sp_parse_var(t: Seq<TokenV>, i: int) -> Option<(Seq<Seq<char>>, int)> {
    if 0 <= i && i + 1 < t.len() && t[i] is Dollar && t[i + 1] is Ident {
        let rest = sp_var_tail(t, i + 2);
        Option::Some((seq![t[i + 1]->Ident_0] + rest.0, rest.1))
    } else {
        Option::None
    }
}

pub open spec fn sp_parse_string_expr(t: Seq<TokenV>, i: int) -> Option<(StringExprV, int)>
    decreases t.len() - i,
{
    if !(0 <= i < t.len()) {
        Option::None
    } else {
        match t[i] {
            TokenV::LitStr(s) => Option::Some((StringExprV::Literal(s), i + 1)),
            TokenV::Dollar => match sp_parse_var(t, i) {
                Option::Some((v, j)) => Option::Some((StringExprV::Variable(v), j)),
                Option::None => Option::None,
            },
            TokenV::Ident(s) => {
                if s == "concat"@ && i + 1 < t.len() && t[i + 1] is LParen {
                    match sp_parse_string_expr(t, i + 2) {
                        Option::Some((l, j)) => {
                            if j <= i + 1 || j >= t.len() {
                                Option::None
                            } else if t[j] is Comma {
                                match sp_parse_string_expr(t, j + 1) {
                                    Option::Some((r, k)) => {
                                        if 0 <= k < t.len() && t[k] is RParen {
                                            Option::Some(
                                                (
                                                    StringExprV::Concat(
                                                        Box::new(l),
                                                        Box::new(r),
                                                    ),
                                                    k + 1,
                                                ),
                                            )
                                        } else {
                                            Option::None
                                        }
                                    },
                                    Option::None => Option::None,
                                }
                            } else {
                                Option::None
                            }
                        },
                        Option::None => Option::None,
                    }
                } else {
                    Option::None
                }
            },
            _ => Option::None,
        }
    }
}

pub open spec fn sp_parse_filter(t: Seq<TokenV>, i: int) -> Option<(FilterV, int)> {
    if 0 <= i < t.len() {
        match t[i] {
            TokenV::Ident(s) => {
                if s == "key_equals"@ {
                    match sp_parse_key(t, i + 1) {
                        Option::Some((k, j)) => match sp_parse_string_expr(t, j) {
                            Option::Some((e, p)) => Option::Some((FilterV::KeyEquals(k, e), p)),
                            Option::None => Option::None,
                        },
                        Option::None => Option::None,
                    }
                } else if s == "key_like"@ {
                    match sp_parse_key(t, i + 1) {
                        Option::Some((k, j)) => match sp_parse_string_expr(t, j) {
                            Option::Some((e, p)) => Option::Some((FilterV::KeyLike(k, e), p)),
                            Option::None => Option::None,
                        },
                        Option::None => Option::None,
                    }
                } else {
                    Option::None
                }
            },
            _ => Option::None,
        }
    } else {
        Option::None
    }
}

/// The `Filter*` loop of an atom: as long as the next token is the
/// keyword `where`, one filter must follow; a malformed filter after a
/// `where` fails the whole atom.
pub open spec fn sp_parse_filters(t: Seq<TokenV>, i: int) -> Option<(Seq<FilterV>, int)>
    decreases t.len() - i,
{
    if 0 <= i < t.len() && t[i] == TokenV::Ident("where"@) {
        match sp_parse_filter(t, i + 1) {
            Option::Some((f, j)) => {
                if j <= i + 1 || j > t.len() {
                    Option::None
                } else {
                    match sp_parse_filters(t, j) {
                        Option::Some((rest, k)) => Option::Some((seq![f] + rest, k)),
                        Option::None => Option::None,
                    }
                }
            },
            Option::None => Option::None,
        }
    } else {
        Option::Some((Seq::empty(), i))
    }
}

/// The bracketed field list of an attribute clause, starting after the
/// opening bracket and consuming the closing one: zero or more string
/// literals separated by commas.
pub open spec fn sp_parse_fields(t: Seq<TokenV>, i: int) -> Option<(Seq<Seq<char>>, int)> {
    if 0 <= i < t.len() {
        match t[i] {
            TokenV::RBracket => Option::Some((Seq::empty(), i + 1)),
            TokenV::LitStr(s) => match sp_fields_tail(t, i + 1) {
                Option::Some((rest, k)) => Option::Some((seq![s] + rest, k)),
                Option::None => Option::None,
            },
            _ => Option::None,
        }
    } else {
        Option::None
    }
}

pub open spec fn sp_fields_tail(t: Seq<TokenV>, i: int) -> Option<(Seq<Seq<char>>, int)>
    decreases t.len() - i,
{
    if !(0 <= i < t.len()) {
        Option::None
    } else if t[i] is RBracket {
        Option::Some((Seq::empty(), i + 1))
    } else if t[i] is Comma && i + 1 < t.len() && t[i + 1] is LitStr {
        match sp_fields_tail(t, i + 2) {
            Option::Some((rest, k)) => Option::Some((seq![t[i + 1]->LitStr_0] + rest, k)),
            Option::None => Option::None,
        }
    } else {
        Option::None
    }
}

pub open spec fn sp_parse_resource(t: Seq<TokenV>, i: int) -> Option<(ResourceV, int)> {
    if 0 <= i && i + 1 < t.len() && t[i] == TokenV::Ident("table"@) && t[i + 1] is LitStr {
        Option::Some((ResourceV::Table(t[i + 1]->LitStr_0), i + 2))
    } else {
        Option::None
    }
}

pub open spec fn sp_parse_atom(t: Seq<TokenV>, i: int) -> Option<(PolicyAtomV, int)> {
    if 0 <= i < t.len() && t[i] == TokenV::Ident("allow"@) {
        match sp_parse_action(t, i + 1) {
            Option::Some((a, j)) => {
                let j2 = if j < t.len() && t[j] == TokenV::Ident("on"@) {
                    j + 1
                } else {
                    j
                };
                match sp_parse_resource(t, j2) {
                    Option::Some((res, p)) => match sp_parse_filters(t, p) {
                        Option::Some((fs, q)) => {
                            if q < t.len() && t[q] == TokenV::Ident("with"@) {
                                if q + 2 < t.len() && t[q + 1] == TokenV::Ident("attributes"@)
                                    && t[q + 2] is LBracket {
                                    match sp_parse_fields(t, q + 3) {
                                        Option::Some((fields, r)) => Option::Some(
                                            (
                                                PolicyAtomV {
                                                    action: a,
                                                    resource: res,
                                                    filters: fs,
                                                    attributes: Option::Some(fields),
                                                },
                                                r,
                                            ),
                                        ),
                                        Option::None => Option::None,
                                    }
                                } else {
                                    Option::None
                                }
                            } else {
                                Option::Some(
                                    (
                                        PolicyAtomV {
                                            action: a,
                                            resource: res,
                                            filters: fs,
                                            attributes: Option::None,
                                        },
                                        q,
                                    ),
                                )
                            }
                        },
                        Option::None => Option::None,
                    },
                    Option::None => Option::None,
                }
            },
            Option::None => Option::None,
        }
    } else {
        Option::None
    }
}

/// The greedy atom loop: atoms are collected while they keep parsing.
pub open spec fn sp_parse_atoms(t: Seq<TokenV>, i: int) -> (Seq<PolicyAtomV>, int)
    decreases t.len() - i,
{
    match sp_parse_atom(t, i) {
        Option::Some((a, j)) => {
            if j <= i || j > t.len() {
                (Seq::empty(), i)
            } else {
                let rest = sp_parse_atoms(t, j);
                (seq![a] + rest.0, rest.1)
            }
        },
        Option::None => (Seq::empty(), i),
    }
}

/// The whole policy: at least one atom must parse; exactly one yields
/// `Atom`, more yield `Composite`. Input after the last parsable atom
/// is ignored.
pub open spec fn sp_parse_policy(t: Seq<TokenV>) -> Option<PolicyV> {
    match sp_parse_atom(t, 0) {
        Option::None => Option::None,
        Option::Some(_) => {
            let atoms = sp_parse_atoms(t, 0).0;
            if atoms.len() == 1 {
                Option::Some(PolicyV::Atom(atoms[0]))
            } else {
                Option::Some(PolicyV::Composite(atoms))
            }
        },
    }
}

// ---------------------------------------------------------------------
// Progress: every parser either fails or moves strictly forward and
// stays inside the input, and what it returns is well formed.
// ---------------------------------------------------------------------

pub proof fn lemma_var_tail_bounds(t: Seq<TokenV>, i: int)
    requires
        0 <= i <= t.len(),
    ensures
        i <= sp_var_tail(t, i).1 <= t.len(),
    decreases t.len() - i,
{
    if i + 1 < t.len() && t[i] is Dot && t[i + 1] is Ident {
        lemma_var_tail_bounds(t, i + 2);
    }
}

pub proof fn lemma_parse_string_expr_bounds(t: Seq<TokenV>, i: int)
    requires
        sp_parse_string_expr(t, i) is Some,
    ensures
        i < sp_parse_string_expr(t, i)->Some_0.1 <= t.len(),
        wf_string_expr(sp_parse_string_expr(t, i)->Some_0.0),
    decreases t.len() - i,
{
    let c = t[i];
    match c {
        TokenV::Dollar => {
            lemma_var_tail_bounds(t, i + 2);
        },
        TokenV::Ident(s) => {
            let l = sp_parse_string_expr(t, i + 2);
            lemma_parse_string_expr_bounds(t, i + 2);
            let j = l->Some_0.1;
            if j > i + 1 && j < t.len() && t[j] is Comma {
                lemma_parse_string_expr_bounds(t, j + 1);
            }
        },
        _ => {},
    }
}

pub proof fn lemma_parse_filter_bounds(t: Seq<TokenV>, i: int)
    requires
        sp_parse_filter(t, i) is Some,
    ensures
        i < sp_parse_filter(t, i)->Some_0.1 <= t.len(),
        wf_filter(sp_parse_filter(t, i)->Some_0.0),
{
    match sp_parse_key(t, i + 1) {
        Option::Some((k, j)) => {
            if sp_parse_string_expr(t, j) is Some {
                lemma_parse_string_expr_bounds(t, j);
            }
        },
        Option::None => {},
    }
}

pub proof fn lemma_parse_filters_bounds(t: Seq<TokenV>, i: int)
    requires
        0 <= i <= t.len(),
        sp_parse_filters(t, i) is Some,
    ensures
        i <= sp_parse_filters(t, i)->Some_0.1 <= t.len(),
        forall|n: int|
            0 <= n < sp_parse_filters(t, i)->Some_0.0.len() ==> wf_filter(
                #[trigger] sp_parse_filters(t, i)->Some_0.0[n],
            ),
    decreases t.len() - i,
{
    if i < t.len() && t[i] == TokenV::Ident("where"@) {
        lemma_parse_filter_bounds(t, i + 1);
        let j = sp_parse_filter(t, i + 1)->Some_0.1;
        lemma_parse_filters_bounds(t, j);
    }
}

pub proof fn lemma_fields_tail_bounds(t: Seq<TokenV>, i: int)
    requires
        sp_fields_tail(t, i) is Some,
    ensures
        i < sp_fields_tail(t, i)->Some_0.1 <= t.len(),
    decreases t.len() - i,
{
    if t[i] is RBracket {
    } else {
        lemma_fields_tail_bounds(t, i + 2);
    }
}

pub proof fn lemma_parse_fields_bounds(t: Seq<TokenV>, i: int)
    requires
        sp_parse_fields(t, i) is Some,
    ensures
        i < sp_parse_fields(t, i)->Some_0.1 <= t.len(),
{
    if t[i] is RBracket {
    } else {
        lemma_fields_tail_bounds(t, i + 1);
    }
}

pub proof fn lemma_parse_atom_bounds(t: Seq<TokenV>, i: int)
    requires
        sp_parse_atom(t, i) is Some,
    ensures
        i < sp_parse_atom(t, i)->Some_0.1 <= t.len(),
        wf_atom(sp_parse_atom(t, i)->Some_0.0),
{
    let j = sp_parse_action(t, i + 1)->Some_0.1;
    let j2 = if j < t.len() && t[j] == TokenV::Ident("on"@) {
        j + 1
    } else {
        j
    };
    let p = sp_parse_resource(t, j2)->Some_0.1;
    lemma_parse_filters_bounds(t, p);
    let q = sp_parse_filters(t, p)->Some_0.1;
    if q < t.len() && t[q] == TokenV::Ident("with"@) {
        lemma_parse_fields_bounds(t, q + 3);
    }
}

pub proof fn lemma_parse_atoms_bounds(t: Seq<TokenV>, i: int)
    requires
        0 <= i <= t.len(),
    ensures
        i <= sp_parse_atoms(t, i).1 <= t.len(),
        forall|n: int|
            0 <= n < sp_parse_atoms(t, i).0.len() ==> wf_atom(
                #[trigger] sp_parse_atoms(t, i).0[n],
            ),
    decreases t.len() - i,
{
    match sp_parse_atom(t, i) {
        Option::Some((a, j)) => {
            lemma_parse_atom_bounds(t, i);
            lemma_parse_atoms_bounds(t, j);
        },
        Option::None => {},
    }
}

/// Whatever `sp_parse_policy` returns satisfies the structural policy
/// invariant: a parsed `Composite` holds two or more well-formed atoms.
pub proof fn lemma_parse_policy_wf(t: Seq<TokenV>)
    requires
        sp_parse_policy(t) is Some,
    ensures
        wf_policy(sp_parse_policy(t)->0),
{
    lemma_parse_atom_bounds(t, 0);
    lemma_parse_atoms_bounds(t, 0);
    let atoms = sp_parse_atoms(t, 0).0;
    if atoms.len() != 1 {
        assert(sp_parse_atom(t, 0) is Some);
        assert(atoms.len() >= 1);
    }
}


// ---------------------------------------------------------------------
// The executable parser. Each function is verified against the
// specification-level parser above: it succeeds exactly where that
// parser does, and then returns exactly its value and its position.
// ---------------------------------------------------------------------

fn perr(pos: usize, expected: &str) -> (r: ParseError)
    ensures
        r.pos == pos,
{
    ParseError { pos, expected: expected.to_owned() }
}

fn ident_matches(tok: &Token, kw: &str) -> (r: bool)
    ensures
        r == (tok@ == TokenV::Ident(kw@)),
{
    match tok {
        Token::Ident(s) => str_eq(s.as_str(), kw),
        _ => false,
    }
}

/// True when the token at `pos` is the identifier `expected`; consumes
/// nothing.
pub fn next_is_string_value(tokens: &Vec<Token>, pos: usize, expected: &str) -> (r: bool)
    ensures
        r == (pos < tokens@.len() && token_views(tokens@)[pos as int] == TokenV::Ident(
            expected@,
        )),
{
    pos < tokens.len() && ident_matches(&tokens[pos], expected)
}

/// Requires the token at `pos` to be the identifier `word` and steps
/// over it.
pub fn parse_and_ignore(tokens: &Vec<Token>, pos: usize, word: &str) -> (r: Result<
    usize,
    ParseError,
>)
    ensures
        match r {
            Result::Ok(j) => pos < tokens@.len() && token_views(tokens@)[pos as int]
                == TokenV::Ident(word@) && j == pos + 1,
            Result::Err(_) => !(pos < tokens@.len() && token_views(tokens@)[pos as int]
                == TokenV::Ident(word@)),
        },
{
    proof {
        assert(tokens@.len() == tokens.len());
    }
    if next_is_string_value(tokens, pos, word) {
        Result::Ok(pos + 1)
    } else {
        Result::Err(perr(pos, word))
    }
}

fn tok_is_dollar(tok: &Token) -> (r: bool)
    ensures
        r == (tok@ is Dollar),
{
    match tok {
        Token::Dollar => true,
        _ => false,
    }
}

fn tok_is_dot(tok: &Token) -> (r: bool)
    ensures
        r == (tok@ is Dot),
{
    match tok {
        Token::Dot => true,
        _ => false,
    }
}

fn tok_is_comma(tok: &Token) -> (r: bool)
    ensures
        r == (tok@ is Comma),
{
    match tok {
        Token::Comma => true,
        _ => false,
    }
}

fn tok_is_lparen(tok: &Token) -> (r: bool)
    ensures
        r == (tok@ is LParen),
{
    match tok {
        Token::LParen => true,
        _ => false,
    }
}

fn tok_is_rparen(tok: &Token) -> (r: bool)
    ensures
        r == (tok@ is RParen),
{
    match tok {
        Token::RParen => true,
        _ => false,
    }
}

fn tok_is_lbracket(tok: &Token) -> (r: bool)
    ensures
        r == (tok@ is LBracket),
{
    match tok {
        Token::LBracket => true,
        _ => false,
    }
}

fn tok_is_rbracket(tok: &Token) -> (r: bool)
    ensures
        r == (tok@ is RBracket),
{
    match tok {
        Token::RBracket => true,
        _ => false,
    }
}

fn tok_is_ident(tok: &Token) -> (r: bool)
    ensures
        r == (tok@ is Ident),
{
    match tok {
        Token::Ident(_) => true,
        _ => false,
    }
}

impl Action {
    /// Reads one action keyword.
    pub fn parse(tokens: &Vec<Token>, pos: usize) -> (r: Result<(Action, usize), ParseError>)
        ensures
            ({
                let t = token_views(tokens@);
                match r {
                    Result::Ok((a, j)) => sp_parse_action(t, pos as int) == Option::Some(
                        (a, j as int),
                    ),
                    Result::Err(_) => sp_parse_action(t, pos as int) is None,
                }
            }),
    {
        if pos < tokens.len() {
            match &tokens[pos] {
                Token::Ident(s) => {
                    if str_eq(s.as_str(), "create") {
                        Result::Ok((Action::Create, pos + 1))
                    } else if str_eq(s.as_str(), "read") {
                        Result::Ok((Action::Read, pos + 1))
                    } else if str_eq(s.as_str(), "update") {
                        Result::Ok((Action::Update, pos + 1))
                    } else if str_eq(s.as_str(), "delete") {
                        Result::Ok((Action::Delete, pos + 1))
                    } else {
                        Result::Err(perr(pos, "one of 'create', 'read', 'update', 'delete'"))
                    }
                },
                _ => Result::Err(perr(pos, "one of 'create', 'read', 'update', 'delete'")),
            }
        } else {
            Result::Err(perr(pos, "one of 'create', 'read', 'update', 'delete'"))
        }
    }
}

impl Key {
    /// Reads `$pk` or `$sk`.
    pub fn parse(tokens: &Vec<Token>, pos: usize) -> (r: Result<(Key, usize), ParseError>)
        ensures
            ({
                let t = token_views(tokens@);
                match r {
                    Result::Ok((k, j)) => sp_parse_key(t, pos as int) == Option::Some(
                        (k, j as int),
                    ),
                    Result::Err(_) => sp_parse_key(t, pos as int) is None,
                }
            }),
    {
        if pos < tokens.len() && pos + 1 < tokens.len() && tok_is_dollar(&tokens[pos]) {
            match &tokens[pos + 1] {
                Token::Ident(s) => {
                    if str_eq(s.as_str(), "pk") {
                        Result::Ok((Key::Pk, pos + 2))
                    } else if str_eq(s.as_str(), "sk") {
                        Result::Ok((Key::Sk, pos + 2))
                    } else {
                        Result::Err(perr(pos + 1, "one of '$pk', '$sk'"))
                    }
                },
                _ => Result::Err(perr(pos + 1, "one of '$pk', '$sk'")),
            }
        } else {
            Result::Err(perr(pos, "one of '$pk', '$sk'"))
        }
    }
}

fn var_continues(tokens: &Vec<Token>, cur: usize) -> (r: bool)
    ensures
        r == (cur + 1 < tokens@.len() && token_views(tokens@)[cur as int] is Dot && token_views(
            tokens@,
        )[cur + 1] is Ident),
{
    cur < tokens.len() && cur + 1 < tokens.len() && tok_is_dot(&tokens[cur]) && tok_is_ident(
        &tokens[cur + 1],
    )
}

impl Var {
    /// Reads `$` followed by a dot-separated path of identifiers.
    pub fn parse(tokens: &Vec<Token>, pos: usize) -> (r: Result<(Var, usize), ParseError>)
        ensures
            ({
                let t = token_views(tokens@);
                match r {
                    Result::Ok((v, j)) => sp_parse_var(t, pos as int) == Option::Some(
                        (v@, j as int),
                    ) && j <= tokens@.len(),
                    Result::Err(_) => sp_parse_var(t, pos as int) is None,
                }
            }),
    {
        let ghost t = token_views(tokens@);
        proof {
            assert(tokens@.len() == tokens.len());
        }
        if pos < tokens.len() && pos + 1 < tokens.len() && tok_is_dollar(&tokens[pos])
            && tok_is_ident(&tokens[pos + 1]) {
            let first = match &tokens[pos + 1] {
                Token::Ident(s) => s.clone(),
                _ => {
                    return Result::Err(perr(pos + 1, "an identifier"));
                },
            };
            let mut segments: Vec<String> = Vec::new();
            segments.push(first);
            let mut cur: usize = pos + 2;
            proof {
                assert(crate::policy::string_views(segments@) =~= seq![t[pos + 1]->Ident_0]);
            }
            while var_continues(tokens, cur)
                invariant
                    tokens@.len() <= usize::MAX,
                    pos + 2 <= cur <= tokens@.len(),
                    t == token_views(tokens@),
                    sp_parse_var(t, pos as int) == Option::Some(
                        (
                            crate::policy::string_views(segments@) + sp_var_tail(
                                t,
                                cur as int,
                            ).0,
                            sp_var_tail(t, cur as int).1,
                        ),
                    ),
                decreases tokens@.len() - cur,
            {
                let seg = match &tokens[cur + 1] {
                    Token::Ident(s) => s.clone(),
                    _ => {
                        return Result::Err(perr(cur + 1, "an identifier"));
                    },
                };
                let ghost old_segments = segments@;
                let ghost old_cur = cur as int;
                segments.push(seg);
                cur = cur + 2;
                proof {
                    lemma_var_tail_bounds(t, cur as int);
                    assert(crate::policy::string_views(old_segments.push(seg))
                        =~= crate::policy::string_views(old_segments).push(seg@));
                    assert(crate::policy::string_views(old_segments).push(seg@) + sp_var_tail(
                        t,
                        cur as int,
                    ).0 =~= crate::policy::string_views(old_segments) + (seq![seg@]
                        + sp_var_tail(t, cur as int).0));
                    assert(seg@ == t[old_cur + 1]->Ident_0);
                }
            }
            proof {
                assert(sp_var_tail(t, cur as int) == (Seq::<Seq<char>>::empty(), cur as int));
                assert(crate::policy::string_views(segments@) + Seq::<Seq<char>>::empty()
                    =~= crate::policy::string_views(segments@));
            }
            Result::Ok((Var(segments), cur))
        } else {
            Result::Err(perr(pos, "'$' followed by a path of identifiers"))
        }
    }
}

impl StringExpr {
    /// Reads one string expression: a literal, a variable, or a
    /// `concat(left, right)` pair.
    pub fn parse(tokens: &Vec<Token>, pos: usize) -> (r: Result<(StringExpr, usize), ParseError>)
        ensures
            ({
                let t = token_views(tokens@);
                match r {
                    Result::Ok((e, j)) => sp_parse_string_expr(t, pos as int) == Option::Some(
                        (e@, j as int),
                    ),
                    Result::Err(_) => sp_parse_string_expr(t, pos as int) is None,
                }
            }),
        decreases tokens@.len() - pos,
    {
        let ghost t = token_views(tokens@);
        if pos >= tokens.len() {
            return Result::Err(perr(pos, "a string expression"));
        }
        match &tokens[pos] {
            Token::LitStr(s) => Result::Ok((StringExpr::Literal(s.clone()), pos + 1)),
            Token::Dollar => match Var::parse(tokens, pos) {
                Result::Ok((v, j)) => Result::Ok((StringExpr::Variable(v), j)),
                Result::Err(e) => Result::Err(e),
            },
            Token::Ident(s) => {
                if str_eq(s.as_str(), "concat") && pos + 1 < tokens.len() && tok_is_lparen(
                    &tokens[pos + 1],
                ) {
                    match StringExpr::parse(tokens, pos + 2) {
                        Result::Ok((left, j)) => {
                            proof {
                                lemma_parse_string_expr_bounds(t, pos + 2);
                            }
                            if j < tokens.len() && tok_is_comma(&tokens[j]) {
                                match StringExpr::parse(tokens, j + 1) {
                                    Result::Ok((right, k)) => {
                                        if k < tokens.len() && tok_is_rparen(&tokens[k]) {
                                            Result::Ok(
                                                (
                                                    StringExpr::Concat(
                                                        Box::new(left),
                                                        Box::new(right),
                                                    ),
                                                    k + 1,
                                                ),
                                            )
                                        } else {
                                            Result::Err(perr(k, "')'"))
                                        }
                                    },
                                    Result::Err(e) => Result::Err(e),
                                }
                            } else {
                                Result::Err(perr(j, "','"))
                            }
                        },
                        Result::Err(e) => Result::Err(e),
                    }
                } else {
                    Result::Err(perr(pos, "a string literal, a variable, or 'concat'"))
                }
            },
            _ => Result::Err(perr(pos, "a string literal, a variable, or 'concat'")),
        }
    }
}

impl Filter {
    /// Reads `key_equals` or `key_like`, then a key and a string
    /// expression.
    pub fn parse(tokens: &Vec<Token>, pos: usize) -> (r: Result<(Filter, usize), ParseError>)
        ensures
            ({
                let t = token_views(tokens@);
                match r {
                    Result::Ok((f, j)) => sp_parse_filter(t, pos as int) == Option::Some(
                        (f@, j as int),
                    ),
                    Result::Err(_) => sp_parse_filter(t, pos as int) is None,
                }
            }),
    {
        if pos >= tokens.len() {
            return Result::Err(perr(pos, "one of 'key_equals', 'key_like'"));
        }
        let equals = match &tokens[pos] {
            Token::Ident(s) => {
                if str_eq(s.as_str(), "key_equals") {
                    true
                } else if str_eq(s.as_str(), "key_like") {
                    false
                } else {
                    return Result::Err(perr(pos, "one of 'key_equals', 'key_like'"));
                }
            },
            _ => {
                return Result::Err(perr(pos, "one of 'key_equals', 'key_like'"));
            },
        };
        match Key::parse(tokens, pos + 1) {
            Result::Ok((k, j)) => match StringExpr::parse(tokens, j) {
                Result::Ok((e, p)) => {
                    if equals {
                        Result::Ok((Filter::KeyEquals(k, e), p))
                    } else {
                        Result::Ok((Filter::KeyLike(k, e), p))
                    }
                },
                Result::Err(e) => Result::Err(e),
            },
            Result::Err(e) => Result::Err(e),
        }
    }
}

/// The `Filter*` loop of an atom: one filter per leading `where`.
fn parse_filters(tokens: &Vec<Token>, pos: usize) -> (r: Result<(Vec<Filter>, usize), ParseError>)
    requires
        pos <= tokens@.len(),
    ensures
        ({
            let t = token_views(tokens@);
            match r {
                Result::Ok((fs, j)) => sp_parse_filters(t, pos as int) == Option::Some(
                    (crate::policy::filter_views(fs@), j as int),
                ) && j <= tokens@.len(),
                Result::Err(_) => sp_parse_filters(t, pos as int) is None,
            }
        }),
{
    let ghost t = token_views(tokens@);
    proof {
        assert(tokens@.len() == tokens.len());
    }
    let mut filters: Vec<Filter> = Vec::new();
    let mut cur: usize = pos;
    proof {
        assert(crate::policy::filter_views(filters@) =~= Seq::<FilterV>::empty());
    }
    while next_is_string_value(tokens, cur, "where")
        invariant
            tokens@.len() <= usize::MAX,
            pos <= cur <= tokens@.len(),
            t == token_views(tokens@),
            ({
                match sp_parse_filters(t, cur as int) {
                    Option::Some((rest, k)) => sp_parse_filters(t, pos as int) == Option::Some(
                        (crate::policy::filter_views(filters@) + rest, k),
                    ),
                    Option::None => sp_parse_filters(t, pos as int) is None,
                }
            }),
        decreases tokens@.len() - cur,
    {
        match Filter::parse(tokens, cur + 1) {
            Result::Ok((f, j)) => {
                proof {
                    lemma_parse_filter_bounds(t, cur + 1);
                }
                let ghost old_filters = filters@;
                let ghost old_cur = cur as int;
                filters.push(f);
                cur = j;
                proof {
                    assert(crate::policy::filter_views(old_filters.push(f))
                        =~= crate::policy::filter_views(old_filters).push(f@));
                    match sp_parse_filters(t, cur as int) {
                        Option::Some((rest, k)) => {
                            assert(crate::policy::filter_views(old_filters).push(f@) + rest
                                =~= crate::policy::filter_views(old_filters) + (seq![f@]
                                + rest));
                        },
                        Option::None => {},
                    }
                }
            },
            Result::Err(e) => {
                return Result::Err(e);
            },
        }
    }
    proof {
        assert(sp_parse_filters(t, cur as int) == Option::Some(
            (Seq::<FilterV>::empty(), cur as int),
        ));
        assert(crate::policy::filter_views(filters@) + Seq::<FilterV>::empty()
            =~= crate::policy::filter_views(filters@));
    }
    Result::Ok((filters, cur))
}

/// The bracketed field list of an attribute clause, after the opening
/// bracket: zero or more string literals separated by commas, then the
/// closing bracket.
fn parse_fields(tokens: &Vec<Token>, pos: usize) -> (r: Result<(Vec<Field>, usize), ParseError>)
    ensures
        ({
            let t = token_views(tokens@);
            match r {
                Result::Ok((fs, j)) => sp_parse_fields(t, pos as int) == Option::Some(
                    (crate::policy::field_views(fs@), j as int),
                ) && j <= tokens@.len(),
                Result::Err(_) => sp_parse_fields(t, pos as int) is None,
            }
        }),
{
    let ghost t = token_views(tokens@);
    proof {
        assert(tokens@.len() == tokens.len());
    }
    if pos >= tokens.len() {
        return Result::Err(perr(pos, "a field list"));
    }
    if tok_is_rbracket(&tokens[pos]) {
        let fields: Vec<Field> = Vec::new();
        proof {
            assert(crate::policy::field_views(fields@) =~= Seq::<Seq<char>>::empty());
        }
        return Result::Ok((fields, pos + 1));
    }
    let first = match &tokens[pos] {
        Token::LitStr(s) => Field(s.clone()),
        _ => {
            return Result::Err(perr(pos, "a string literal or ']'"));
        },
    };
    let mut fields: Vec<Field> = Vec::new();
    fields.push(first);
    let mut cur: usize = pos + 1;
    proof {
        assert(crate::policy::field_views(fields@) =~= seq![t[pos as int]->LitStr_0]);
    }
    loop
        invariant
            tokens@.len() <= usize::MAX,
            pos + 1 <= cur <= tokens@.len(),
            t == token_views(tokens@),
            ({
                match sp_fields_tail(t, cur as int) {
                    Option::Some((rest, k)) => sp_parse_fields(t, pos as int) == Option::Some(
                        (crate::policy::field_views(fields@) + rest, k),
                    ),
                    Option::None => sp_parse_fields(t, pos as int) is None,
                }
            }),
        decreases tokens@.len() - cur,
    {
        if cur >= tokens.len() {
            return Result::Err(perr(cur, "',' or ']'"));
        }
        if tok_is_rbracket(&tokens[cur]) {
            proof {
                assert(crate::policy::field_views(fields@) + Seq::<Seq<char>>::empty()
                    =~= crate::policy::field_views(fields@));
            }
            return Result::Ok((fields, cur + 1));
        }
        if tok_is_comma(&tokens[cur]) && cur + 1 < tokens.len() {
            let next = match &tokens[cur + 1] {
                Token::LitStr(s) => Field(s.clone()),
                _ => {
                    return Result::Err(perr(cur + 1, "a string literal"));
                },
            };
            let ghost old_fields = fields@;
            let ghost old_cur = cur as int;
            fields.push(next);
            cur = cur + 2;
            proof {
                assert(crate::policy::field_views(old_fields.push(next))
                    =~= crate::policy::field_views(old_fields).push(next@));
                match sp_fields_tail(t, cur as int) {
                    Option::Some((rest, k)) => {
                        assert(crate::policy::field_views(old_fields).push(next@) + rest
                            =~= crate::policy::field_views(old_fields) + (seq![next@] + rest));
                        lemma_fields_tail_bounds(t, cur as int);
                    },
                    Option::None => {},
                }
                assert(next@ == t[old_cur + 1]->LitStr_0);
            }
        } else {
            return Result::Err(perr(cur, "',' or ']'"));
        }
    }
}

impl Resource {
    /// Reads `table` followed by the table name as a string literal.
    pub fn parse(tokens: &Vec<Token>, pos: usize) -> (r: Result<(Resource, usize), ParseError>)
        ensures
            ({
                let t = token_views(tokens@);
                match r {
                    Result::Ok((res, j)) => sp_parse_resource(t, pos as int) == Option::Some(
                        (res@, j as int),
                    ),
                    Result::Err(_) => sp_parse_resource(t, pos as int) is None,
                }
            }),
    {
        if pos < tokens.len() && pos + 1 < tokens.len() && ident_matches(&tokens[pos], "table") {
            match &tokens[pos + 1] {
                Token::LitStr(s) => Result::Ok((Resource::Table(s.clone()), pos + 2)),
                _ => Result::Err(perr(pos + 1, "a table name as a string literal")),
            }
        } else {
            Result::Err(perr(pos, "'table' and a table name"))
        }
    }
}

impl PolicyAtom {
    /// Reads one atom: `allow`, an action, an optional `on`, a
    /// resource, any number of filters, and an optional attribute
    /// clause.
    pub fn parse(tokens: &Vec<Token>, pos: usize) -> (r: Result<(PolicyAtom, usize), ParseError>)
        ensures
            ({
                let t = token_views(tokens@);
                match r {
                    Result::Ok((a, j)) => sp_parse_atom(t, pos as int) == Option::Some(
                        (a@, j as int),
                    ),
                    Result::Err(_) => sp_parse_atom(t, pos as int) is None,
                }
            }),
    {
        let ghost t = token_views(tokens@);
        proof {
            assert(tokens@.len() == tokens.len());
        }
        let after_allow = match parse_and_ignore(tokens, pos, "allow") {
            Result::Ok(j) => j,
            Result::Err(e) => {
                return Result::Err(e);
            },
        };
        let (action, j) = match Action::parse(tokens, after_allow) {
            Result::Ok(aj) => aj,
            Result::Err(e) => {
                return Result::Err(e);
            },
        };
        let j2 = if next_is_string_value(tokens, j, "on") {
            j + 1
        } else {
            j
        };
        let (resource, p) = match Resource::parse(tokens, j2) {
            Result::Ok(rp) => rp,
            Result::Err(e) => {
                return Result::Err(e);
            },
        };
        proof {
            assert(p <= tokens@.len());
        }
        let (filters, q) = match parse_filters(tokens, p) {
            Result::Ok(fq) => fq,
            Result::Err(e) => {
                return Result::Err(e);
            },
        };
        if next_is_string_value(tokens, q, "with") {
            if q + 1 < tokens.len() && q + 2 < tokens.len() && ident_matches(
                &tokens[q + 1],
                "attributes",
            ) && tok_is_lbracket(&tokens[q + 2]) {
                match parse_fields(tokens, q + 3) {
                    Result::Ok((fields, rr)) => Result::Ok(
                        (
                            PolicyAtom {
                                action,
                                resource,
                                filters,
                                attributes: Option::Some(fields),
                            },
                            rr,
                        ),
                    ),
                    Result::Err(e) => Result::Err(e),
                }
            } else {
                Result::Err(perr(q, "'attributes' and a bracketed field list"))
            }
        } else {
            Result::Ok(
                (
                    PolicyAtom { action, resource, filters, attributes: Option::None },
                    q,
                ),
            )
        }
    }
}

impl Policy {
    /// Reads a whole policy from the start of the token stream: one or
    /// more atoms, greedily; input after the last parsable atom is
    /// ignored. An empty stream, or a first atom that does not parse,
    /// is a grammar error.
    pub fn parse(tokens: &Vec<Token>) -> (r: Result<Policy, ParseError>)
        ensures
            match r {
                Result::Ok(p) => sp_parse_policy(token_views(tokens@)) == Option::Some(p@)
                    && wf_policy(p@),
                Result::Err(_) => sp_parse_policy(token_views(tokens@)) is None,
            },
    {
        let ghost t = token_views(tokens@);
        proof {
            assert(tokens@.len() == tokens.len());
        }
        let (first, j0) = match PolicyAtom::parse(tokens, 0) {
            Result::Ok(aj) => aj,
            Result::Err(e) => {
                return Result::Err(e);
            },
        };
        proof {
            lemma_parse_atom_bounds(t, 0);
        }
        let mut atoms: Vec<PolicyAtom> = Vec::new();
        atoms.push(first);
        let mut cur: usize = j0;
        let mut stop = false;
        proof {
            assert(crate::policy::atom_views(atoms@) =~= seq![first@]);
        }
        while !stop
            invariant
                tokens@.len() <= usize::MAX,
                cur <= tokens@.len(),
                t == token_views(tokens@),
                atoms@.len() >= 1,
                sp_parse_atom(t, 0) is Some,
                sp_parse_atoms(t, 0) == (
                    crate::policy::atom_views(atoms@) + sp_parse_atoms(t, cur as int).0,
                    sp_parse_atoms(t, cur as int).1,
                ),
                stop ==> sp_parse_atom(t, cur as int) is None,
            decreases tokens@.len() - cur, (if stop { 0int } else { 1int }),
        {
            match PolicyAtom::parse(tokens, cur) {
                Result::Ok((a, j)) => {
                    proof {
                        lemma_parse_atom_bounds(t, cur as int);
                    }
                    let ghost old_atoms = atoms@;
                    atoms.push(a);
                    cur = j;
                    proof {
                        assert(crate::policy::atom_views(old_atoms.push(a))
                            =~= crate::policy::atom_views(old_atoms).push(a@));
                        assert(crate::policy::atom_views(old_atoms).push(a@) + sp_parse_atoms(
                            t,
                            cur as int,
                        ).0 =~= crate::policy::atom_views(old_atoms) + (seq![a@]
                            + sp_parse_atoms(t, cur as int).0));
                    }
                },
                Result::Err(_) => {
                    stop = true;
                },
            }
        }
        proof {
            assert(sp_parse_atoms(t, cur as int) == (Seq::<PolicyAtomV>::empty(), cur as int));
            assert(crate::policy::atom_views(atoms@) + Seq::<PolicyAtomV>::empty()
                =~= crate::policy::atom_views(atoms@));
            lemma_parse_policy_wf(t);
        }
        if atoms.len() == 1 {
            let ghost full = atoms@;
            let atom = match atoms.pop() {
                Option::Some(a) => a,
                Option::None => {
                    return Result::Err(perr(0, "an atom"));
                },
            };
            proof {
                assert(atom == full[0]);
                assert(crate::policy::atom_views(full)[0] == atom@);
            }
            Result::Ok(Policy::Atom(atom))
        } else {
            Result::Ok(Policy::Composite(atoms))
        }
    }
}

impl Policy {
    /// Parses one annotation's text: first into tokens, then by the
    /// grammar. A lexical error is reported as a grammar error whose
    /// position counts characters rather than tokens.
    pub fn parse_text(s: &str) -> (r: Result<Policy, ParseError>)
        ensures
            match r {
                Result::Ok(p) => {
                    &&& crate::token::sp_tokenize(s@) is Some
                    &&& sp_parse_policy(crate::token::sp_tokenize(s@)->0) == Option::Some(p@)
                    &&& wf_policy(p@)
                },
                Result::Err(_) => crate::token::sp_tokenize(s@) is None || sp_parse_policy(
                    crate::token::sp_tokenize(s@)->0,
                ) is None,
            },
    {
        match crate::token::tokenize(s) {
            Result::Ok(tokens) => Policy::parse(&tokens),
            Result::Err(e) => Result::Err(
                ParseError { pos: e.pos, expected: "a token".to_owned() },
            ),
        }
    }
}

} // verus!
