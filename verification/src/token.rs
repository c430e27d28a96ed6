//! The token alphabet of the policy language and the lexer that turns
//! annotation text into tokens: identifiers, string literals in double
//! quotes, and the punctuation `$ . , ( ) [ ]`, separated by whitespace.

use vstd::prelude::*;
use vstd::string::StrSliceExecFns;
use vstd::string::StringExecFns;

verus! {

/// One lexical token of the policy language.
#[derive(Clone, Debug, PartialEq, Eq)]
pub enum Token {
    Ident(String),
    LitStr(String),
    Dollar,
    Dot,
    Comma,
    LParen,
    RParen,
    LBracket,
    RBracket,
}

/// Mathematical view of a `Token`.
#[verifier::ext_equal]
pub enum TokenV {
    Ident(Seq<char>),
    LitStr(Seq<char>),
    Dollar,
    Dot,
    Comma,
    LParen,
    RParen,
    LBracket,
    RBracket,
}

impl View for Token {
    type V = TokenV;

    open spec fn view(&self) -> TokenV {
        match self {
            Token::Ident(s) => TokenV::Ident(s@),
            Token::LitStr(s) => TokenV::LitStr(s@),
            Token::Dollar => TokenV::Dollar,
            Token::Dot => TokenV::Dot,
            Token::Comma => TokenV::Comma,
            Token::LParen => TokenV::LParen,
            Token::RParen => TokenV::RParen,
            Token::LBracket => TokenV::LBracket,
            Token::RBracket => TokenV::RBracket,
        }
    }
}

/// The views of a token sequence.
pub open spec fn token_views(ts: Seq<Token>) -> Seq<TokenV> {
    ts.map_values(|t: Token| t@)
}

/// The error of the lexer: the character position (not a byte offset)
/// at which no token could start — an unexpected character, an
/// unterminated literal, or a backslash, which literals of this
/// language do not contain.
#[derive(Clone, Copy, Debug, PartialEq, Eq)]
pub struct LexError {
    pub pos: usize,
}

pub open spec fn is_space_char(c: char) -> bool {
    c == ' ' || c == '\t' || c == '\n' || c == '\r'
}

pub open spec fn is_ident_start_char(c: char) -> bool {
    ||| ('a' as u32) <= (c as u32) && (c as u32) <= ('z' as u32)
    ||| ('A' as u32) <= (c as u32) && (c as u32) <= ('Z' as u32)
    ||| c == '_'
}

pub open spec fn is_ident_char(c: char) -> bool {
    is_ident_start_char(c) || ('0' as u32) <= (c as u32) && (c as u32) <= ('9' as u32)
}

/// The first position at or after `i` that does not continue an
/// identifier (or the end of the input).
pub open spec fn scan_ident_end(cs: Seq<char>, i: int) -> int
    decreases cs.len() - i,
{
    if 0 <= i < cs.len() && is_ident_char(cs[i]) {
        scan_ident_end(cs, i + 1)
    } else {
        i
    }
}

/// The position of the closing quote of a literal whose body starts at
/// `i`, unless the input ends first or holds a backslash.
pub open spec fn scan_lit_end(cs: Seq<char>, i: int) -> Option<int>
    decreases cs.len() - i,
{
    if !(0 <= i < cs.len()) {
        Option::None
    } else if cs[i] == '"' {
        Option::Some(i)
    } else if cs[i] == '\\' {
        Option::None
    } else {
        scan_lit_end(cs, i + 1)
    }
}

/// The tokens of `cs` from position `i` on, or `None` where no token
/// can start.
pub open spec fn sp_tokenize_at(cs: Seq<char>, i: int) -> Option<Seq<TokenV>>
    decreases cs.len() - i,
{
    if !(0 <= i < cs.len()) {
        Option::Some(Seq::empty())
    } else {
        let c = cs[i];
        if is_space_char(c) {
            sp_tokenize_at(cs, i + 1)
        } else if c == '$' || c == '.' || c == ',' || c == '(' || c == ')' || c == '['
            || c == ']' {
            match sp_tokenize_at(cs, i + 1) {
                Option::Some(rest) => Option::Some(seq![punct_token(c)] + rest),
                Option::None => Option::None,
            }
        } else if is_ident_start_char(c) {
            let j = scan_ident_end(cs, i + 1);
            if j <= i || j > cs.len() {
                Option::None
            } else {
                match sp_tokenize_at(cs, j) {
                    Option::Some(rest) => Option::Some(
                        seq![TokenV::Ident(cs.subrange(i, j))] + rest,
                    ),
                    Option::None => Option::None,
                }
            }
        } else if c == '"' {
            match scan_lit_end(cs, i + 1) {
                Option::Some(q) => {
                    if q < i + 1 || q >= cs.len() {
                        Option::None
                    } else {
                        match sp_tokenize_at(cs, q + 1) {
                            Option::Some(rest) => Option::Some(
                                seq![TokenV::LitStr(cs.subrange(i + 1, q))] + rest,
                            ),
                            Option::None => Option::None,
                        }
                    }
                },
                Option::None => Option::None,
            }
        } else {
            Option::None
        }
    }
}

pub open spec fn punct_token(c: char) -> TokenV {
    if c == '$' {
        TokenV::Dollar
    } else if c == '.' {
        TokenV::Dot
    } else if c == ',' {
        TokenV::Comma
    } else if c == '(' {
        TokenV::LParen
    } else if c == ')' {
        TokenV::RParen
    } else if c == '[' {
        TokenV::LBracket
    } else {
        TokenV::RBracket
    }
}

/// The tokens of a whole character sequence.
pub open spec fn sp_tokenize(cs: Seq<char>) -> Option<Seq<TokenV>> {
    sp_tokenize_at(cs, 0)
}

/// `scan_ident_end` never moves backwards and never passes the end.
pub proof fn lemma_scan_ident_end_bounds(cs: Seq<char>, i: int)
    requires
        0 <= i <= cs.len(),
    ensures
        i <= scan_ident_end(cs, i) <= cs.len(),
    decreases cs.len() - i,
{
    if i < cs.len() && is_ident_char(cs[i]) {
        lemma_scan_ident_end_bounds(cs, i + 1);
    }
}

/// A successful literal scan ends on a quote at or after its start.
pub proof fn lemma_scan_lit_end_bounds(cs: Seq<char>, i: int)
    requires
        0 <= i,
        scan_lit_end(cs, i) is Some,
    ensures
        i <= scan_lit_end(cs, i)->0 < cs.len(),
        cs[scan_lit_end(cs, i)->0] == '"',
    decreases cs.len() - i,
{
    if i < cs.len() && cs[i] != '"' && cs[i] != '\\' {
        lemma_scan_lit_end_bounds(cs, i + 1);
    }
}

fn is_space(c: char) -> (r: bool)
    ensures
        r == is_space_char(c),
{
    c == ' ' || c == '\t' || c == '\n' || c == '\r'
}

fn is_ident_start(c: char) -> (r: bool)
    ensures
        r == is_ident_start_char(c),
{
    let v = c as u32;
    ('a' as u32) <= v && v <= ('z' as u32) || ('A' as u32) <= v && v <= ('Z' as u32) || c == '_'
}

fn is_ident_continue(c: char) -> (r: bool)
    ensures
        r == is_ident_char(c),
{
    let v = c as u32;
    is_ident_start(c) || ('0' as u32) <= v && v <= ('9' as u32)
}

/// True exactly when the two strings hold the same characters.
pub fn str_eq(a: &str, b: &str) -> (r: bool)
    ensures
        r == (a@ == b@),
{
    let n = a.unicode_len();
    let m = b.unicode_len();
    if n != m {
        return false;
    }
    let mut i: usize = 0;
    while i < n
        invariant
            n == a@.len(),
            n == b@.len(),
            i <= n,
            forall|k: int| 0 <= k < i ==> a@[k] == b@[k],
        decreases n - i,
    {
        if a.get_char(i) != b.get_char(i) {
            return false;
        }
        i = i + 1;
    }
    proof {
        assert(a@ =~= b@);
    }
    true
}

/// The characters of a string, in order.
pub fn str_to_chars(s: &str) -> (r: Vec<char>)
    ensures
        r@ == s@,
{
    let n = s.unicode_len();
    let mut out: Vec<char> = Vec::new();
    let mut i: usize = 0;
    while i < n
        invariant
            n == s@.len(),
            i <= n,
            out@ == s@.subrange(0, i as int),
        decreases n - i,
    {
        out.push(s.get_char(i));
        i = i + 1;
        proof {
            assert(out@ =~= s@.subrange(0, i as int));
        }
    }
    proof {
        assert(out@ =~= s@);
    }
    out
}

/// Relies on `String`'s `FromIterator` over characters: collecting the
/// characters of a vector yields the string with exactly those
/// characters.
#[verifier::external_body]
pub fn chars_to_string(v: &Vec<char>) -> (s: String)
    ensures
        s@ == v@,
{
    v.iter().collect()
}

/// The first position at or after `from` that does not continue an
/// identifier.
fn find_ident_end(cs: &Vec<char>, from: usize) -> (r: usize)
    requires
        from <= cs@.len(),
    ensures
        r == scan_ident_end(cs@, from as int),
        from <= r <= cs@.len(),
{
    let mut i: usize = from;
    while i < cs.len() && is_ident_continue(cs[i])
        invariant
            from <= i <= cs@.len(),
            scan_ident_end(cs@, from as int) == scan_ident_end(cs@, i as int),
        decreases cs@.len() - i,
    {
        i = i + 1;
    }
    proof {
        lemma_scan_ident_end_bounds(cs@, i as int);
    }
    i
}

/// The position of the closing quote for a literal body starting at
/// `from`, if the literal is terminated and free of backslashes.
fn find_lit_end(cs: &Vec<char>, from: usize) -> (r: Option<usize>)
    requires
        from <= cs@.len(),
    ensures
        match r {
            Option::Some(q) => scan_lit_end(cs@, from as int) == Option::Some(q as int),
            Option::None => scan_lit_end(cs@, from as int) is None,
        },
{
    let mut i: usize = from;
    while i < cs.len() && cs[i] != '"' && cs[i] != '\\'
        invariant
            from <= i <= cs@.len(),
            scan_lit_end(cs@, from as int) == scan_lit_end(cs@, i as int),
        decreases cs@.len() - i,
    {
        i = i + 1;
    }
    if i < cs.len() && cs[i] == '"' {
        Option::Some(i)
    } else {
        Option::None
    }
}

/// The characters `cs[from..to]` as a fresh string.
pub(crate) fn copy_range(cs: &Vec<char>, from: usize, to: usize) -> (r: String)
    requires
        from <= to <= cs@.len(),
    ensures
        r@ == cs@.subrange(from as int, to as int),
{
    let mut part: Vec<char> = Vec::new();
    let mut i: usize = from;
    while i < to
        invariant
            from <= i <= to <= cs@.len(),
            part@ == cs@.subrange(from as int, i as int),
        decreases to - i,
    {
        part.push(cs[i]);
        i = i + 1;
        proof {
            assert(part@ =~= cs@.subrange(from as int, i as int));
        }
    }
    chars_to_string(&part)
}

/// Turns characters into tokens. Succeeds exactly where the
/// specification-level lexer does, and then returns exactly its tokens.
pub fn tokenize_chars(cs: &Vec<char>) -> (r: Result<Vec<Token>, LexError>)
    ensures
        match r {
            Result::Ok(ts) => sp_tokenize(cs@) == Option::Some(token_views(ts@)),
            Result::Err(_) => sp_tokenize(cs@) is None,
        },
{
    let mut out: Vec<Token> = Vec::new();
    let mut i: usize = 0;
    loop
        invariant
            i <= cs@.len(),
            sp_tokenize(cs@) == match sp_tokenize_at(cs@, i as int) {
                Option::Some(rest) => Option::Some(token_views(out@) + rest),
                Option::None => Option::None::<Seq<TokenV>>,
            },
        decreases cs@.len() - i,
    {
        if i >= cs.len() {
            proof {
                assert(token_views(out@) + Seq::<TokenV>::empty() =~= token_views(out@));
            }
            return Result::Ok(out);
        }
        let c = cs[i];
        if is_space(c) {
            i = i + 1;
        } else if c == '$' || c == '.' || c == ',' || c == '(' || c == ')' || c == '['
            || c == ']' {
            let t = if c == '$' {
                Token::Dollar
            } else if c == '.' {
                Token::Dot
            } else if c == ',' {
                Token::Comma
            } else if c == '(' {
                Token::LParen
            } else if c == ')' {
                Token::RParen
            } else if c == '[' {
                Token::LBracket
            } else {
                Token::RBracket
            };
            let ghost prev = out@;
            out.push(t);
            i = i + 1;
            proof {
                lemma_token_views_push(prev, t);
                lemma_prepend_assoc(token_views(prev), t@, sp_tokenize_at(cs@, i as int));
            }
        } else if is_ident_start(c) {
            let j = find_ident_end(cs, i + 1);
            let text = copy_range(cs, i, j);
            let t = Token::Ident(text);
            let ghost prev = out@;
            out.push(t);
            proof {
                lemma_scan_ident_end_bounds(cs@, i + 1);
                lemma_token_views_push(prev, t);
                lemma_prepend_assoc(token_views(prev), t@, sp_tokenize_at(cs@, j as int));
            }
            i = j;
        } else if c == '"' {
            match find_lit_end(cs, i + 1) {
                Option::Some(q) => {
                    proof {
                        lemma_scan_lit_end_bounds(cs@, i + 1);
                    }
                    let text = copy_range(cs, i + 1, q);
                    let t = Token::LitStr(text);
                    let ghost prev = out@;
                    out.push(t);
                    proof {
                        lemma_token_views_push(prev, t);
                        lemma_prepend_assoc(token_views(prev), t@, sp_tokenize_at(cs@, q + 1));
                    }
                    i = q + 1;
                },
                Option::None => {
                    return Result::Err(LexError { pos: i });
                },
            }
        } else {
            return Result::Err(LexError { pos: i });
        }
    }
}

proof fn lemma_token_views_push(ts: Seq<Token>, t: Token)
    ensures
        token_views(ts.push(t)) =~= token_views(ts).push(t@),
{
}

/// Prepending one token and then the earlier ones is the same as
/// prepending the earlier ones already extended by that token.
proof fn lemma_prepend_assoc(done: Seq<TokenV>, t: TokenV, rest: Option<Seq<TokenV>>)
    ensures
        match rest {
            Option::Some(r) => done + (seq![t] + r) =~= done.push(t) + r,
            Option::None => true,
        },
{
}

/// Turns annotation text into tokens.
pub fn tokenize(s: &str) -> (r: Result<Vec<Token>, LexError>)
    ensures
        match r {
            Result::Ok(ts) => sp_tokenize(s@) == Option::Some(token_views(ts@)),
            Result::Err(_) => sp_tokenize(s@) is None,
        },
{
    let cs = str_to_chars(s);
    tokenize_chars(&cs)
}


/// The text of one token.
pub open spec fn token_text(t: TokenV) -> Seq<char> {
    match t {
        TokenV::Ident(s) => s,
        TokenV::LitStr(s) => seq!['"'] + s + seq!['"'],
        TokenV::Dollar => seq!['$'],
        TokenV::Dot => seq!['.'],
        TokenV::Comma => seq![','],
        TokenV::LParen => seq!['('],
        TokenV::RParen => seq![')'],
        TokenV::LBracket => seq!['['],
        TokenV::RBracket => seq![']'],
    }
}

/// The text of a token stream: each token followed by one space.
pub open spec fn text_of_tokens(ts: Seq<TokenV>) -> Seq<char>
    decreases ts.len(),
{
    if ts.len() == 0 {
        Seq::empty()
    } else {
        token_text(ts[0]) + seq![' '] + text_of_tokens(ts.drop_first())
    }
}

proof fn lemma_text_of_tokens_snoc(ts: Seq<TokenV>)
    requires
        ts.len() >= 1,
    ensures
        text_of_tokens(ts) =~= text_of_tokens(ts.drop_last()) + (token_text(ts.last()) + seq![
            ' ',
        ]),
    decreases ts.len(),
{
    if ts.len() == 1 {
        assert(ts.drop_first().len() == 0);
        assert(ts.drop_last().len() == 0);
        assert(text_of_tokens(ts.drop_first()) =~= Seq::<char>::empty());
        assert(text_of_tokens(ts.drop_last()) =~= Seq::<char>::empty());
        assert(ts.last() == ts[0]);
    } else {
        let d = ts.drop_first();
        lemma_text_of_tokens_snoc(d);
        assert(d.drop_last() =~= ts.drop_last().drop_first());
        assert(ts.drop_last()[0] == ts[0]);
        assert(ts.drop_last().len() >= 1);
        assert(d.last() == ts.last());
        assert(text_of_tokens(ts) =~= (token_text(ts[0]) + seq![' '] + text_of_tokens(
            d.drop_last(),
        )) + (token_text(ts.last()) + seq![' ']));
        assert(text_of_tokens(ts.drop_last()) =~= token_text(ts[0]) + seq![' ']
            + text_of_tokens(d.drop_last()));
    }
}

/// The tokens as text, each followed by one space; the lexer reads
/// this text back into the same tokens as long as every identifier is
/// identifier-shaped and every literal is free of quotes and
/// backslashes.
pub fn render_to_text(tokens: &Vec<Token>) -> (r: String)
    ensures
        r@ == text_of_tokens(token_views(tokens@)),
{
    let ghost tv = token_views(tokens@);
    let mut out = String::new();
    let mut i: usize = 0;
    proof {
        assert(text_of_tokens(tv.subrange(0, 0)) =~= Seq::<char>::empty());
        assert(out@ =~= text_of_tokens(tv.subrange(0, 0)));
    }
    while i < tokens.len()
        invariant
            i <= tokens@.len(),
            tv == token_views(tokens@),
            out@ == text_of_tokens(tv.subrange(0, i as int)),
        decreases tokens@.len() - i,
    {
        let ghost before = out@;
        match &tokens[i] {
            Token::Ident(s) => out.append(s.as_str()),
            Token::LitStr(s) => {
                out.append("\"");
                out.append(s.as_str());
                out.append("\"");
                proof {
                    reveal_strlit("\"");
                    assert("\""@ =~= seq!['"']);
                }
            },
            Token::Dollar => {
                out.append("$");
                proof {
                    reveal_strlit("$");
                    assert("$"@ =~= seq!['$']);
                }
            },
            Token::Dot => {
                out.append(".");
                proof {
                    reveal_strlit(".");
                    assert("."@ =~= seq!['.']);
                }
            },
            Token::Comma => {
                out.append(",");
                proof {
                    reveal_strlit(",");
                    assert(","@ =~= seq![',']);
                }
            },
            Token::LParen => {
                out.append("(");
                proof {
                    reveal_strlit("(");
                    assert("("@ =~= seq!['(']);
                }
            },
            Token::RParen => {
                out.append(")");
                proof {
                    reveal_strlit(")");
                    assert(")"@ =~= seq![')']);
                }
            },
            Token::LBracket => {
                out.append("[");
                proof {
                    reveal_strlit("[");
                    assert("["@ =~= seq!['[']);
                }
            },
            Token::RBracket => {
                out.append("]");
                proof {
                    reveal_strlit("]");
                    assert("]"@ =~= seq![']']);
                }
            },
        }
        out.append(" ");
        i = i + 1;
        proof {
            reveal_strlit(" ");
            assert(" "@ =~= seq![' ']);
            lemma_text_of_tokens_snoc(tv.subrange(0, i as int));
            assert(tv.subrange(0, i as int).drop_last() =~= tv.subrange(0, i - 1 as int));
            assert(tv.subrange(0, i as int).last() == tokens@[i - 1]@);
            assert(out@ =~= before + (token_text(tokens@[i - 1]@) + seq![' ']));
            assert(out@ =~= text_of_tokens(tv.subrange(0, i as int)));
        }
    }
    proof {
        assert(tv.subrange(0, tokens@.len() as int) =~= tv);
    }
    out
}


/// A token the renderer can write and the lexer will read back: an
/// identifier is identifier-shaped, and a literal holds no quote and no
/// backslash.
pub open spec fn wf_token(t: TokenV) -> bool {
    match t {
        TokenV::Ident(s) => s.len() >= 1 && is_ident_start_char(s[0]) && forall|k: int|
            0 <= k < s.len() ==> is_ident_char(#[trigger] s[k]),
        TokenV::LitStr(s) => forall|k: int|
            0 <= k < s.len() ==> #[trigger] s[k] != '"' && s[k] != '\\',
        _ => true,
    }
}

/// Every token of the stream satisfies `wf_token`.
pub open spec fn all_wf_tokens(ts: Seq<TokenV>) -> bool {
    forall|n: int| 0 <= n < ts.len() ==> wf_token(#[trigger] ts[n])
}

/// Well-formedness of tokens carries over concatenation.
pub proof fn lemma_all_wf_tokens_concat(a: Seq<TokenV>, b: Seq<TokenV>)
    requires
        all_wf_tokens(a),
        all_wf_tokens(b),
    ensures
        all_wf_tokens(a + b),
{
    assert forall|n: int| 0 <= n < (a + b).len() implies wf_token(#[trigger] (a + b)[n]) by {
        if n < a.len() {
            assert((a + b)[n] == a[n]);
        } else {
            assert((a + b)[n] == b[n - a.len()]);
        }
    }
}

/// The characters `r` sit in `cs` at position `i`.
pub open spec fn chars_at(cs: Seq<char>, i: int, r: Seq<char>) -> bool {
    &&& 0 <= i
    &&& i + r.len() <= cs.len()
    &&& forall|k: int| 0 <= k < r.len() ==> cs[i + k] == #[trigger] r[k]
}

proof fn lemma_chars_at_split(cs: Seq<char>, i: int, a: Seq<char>, b: Seq<char>)
    requires
        chars_at(cs, i, a + b),
    ensures
        chars_at(cs, i, a),
        chars_at(cs, i + a.len(), b),
{
    assert forall|k: int| 0 <= k < a.len() implies cs[i + k] == #[trigger] a[k] by {
        assert((a + b)[k] == a[k]);
    }
    assert forall|k: int| 0 <= k < b.len() implies cs[i + a.len() + k] == #[trigger] b[k] by {
        assert((a + b)[a.len() + k] == b[k]);
    }
}

/// A run of identifier characters ends exactly where they stop.
proof fn lemma_scan_ident_run(cs: Seq<char>, i: int, len: int)
    requires
        0 <= i,
        0 <= len,
        i + len <= cs.len(),
        forall|k: int| 0 <= k < len ==> is_ident_char(#[trigger] cs[i + k]),
        i + len == cs.len() || !is_ident_char(cs[i + len]),
    ensures
        scan_ident_end(cs, i) == i + len,
    decreases len,
{
    if len == 0 {
    } else {
        assert(cs[i + 0] == cs[i]);
        assert(is_ident_char(cs[i]));
        assert forall|k: int| 0 <= k < len - 1 implies is_ident_char(
            #[trigger] cs[i + 1 + k],
        ) by {
            assert(cs[i + (k + 1)] == cs[i + 1 + k]);
        }
        lemma_scan_ident_run(cs, i + 1, len - 1);
    }
}

/// A literal body free of quotes and backslashes scans to its closing
/// quote.
proof fn lemma_scan_lit_run(cs: Seq<char>, i: int, len: int)
    requires
        0 <= i,
        0 <= len,
        i + len < cs.len(),
        forall|k: int| 0 <= k < len ==> #[trigger] cs[i + k] != '"' && cs[i + k] != '\\',
        cs[i + len] == '"',
    ensures
        scan_lit_end(cs, i) == Option::Some(i + len),
    decreases len,
{
    if len == 0 {
    } else {
        assert(cs[i + 0] != '"' && cs[i + 0] != '\\');
        assert forall|k: int| 0 <= k < len - 1 implies #[trigger] cs[i + 1 + k] != '"' && cs[i
            + 1 + k] != '\\' by {
            assert(cs[i + (k + 1)] == cs[i + 1 + k]);
        }
        lemma_scan_lit_run(cs, i + 1, len - 1);
    }
}

/// Text written by the renderer reads back as exactly the tokens it was
/// written from, provided they all satisfy `wf_token`.
proof fn lemma_tokenize_text_at(cs: Seq<char>, i: int, ts: Seq<TokenV>)
    requires
        forall|n: int| 0 <= n < ts.len() ==> wf_token(#[trigger] ts[n]),
        chars_at(cs, i, text_of_tokens(ts)),
        i + text_of_tokens(ts).len() == cs.len(),
    ensures
        sp_tokenize_at(cs, i) == Option::Some(ts),
    decreases ts.len(),
{
    if ts.len() == 0 {
        assert(text_of_tokens(ts).len() == 0);
        assert(i == cs.len());
    } else {
        let t0 = ts[0];
        let rest = ts.drop_first();
        let tt = token_text(t0);
        assert(text_of_tokens(ts) == tt + seq![' '] + text_of_tokens(rest));
        lemma_chars_at_split(cs, i, tt + seq![' '], text_of_tokens(rest));
        lemma_chars_at_split(cs, i, tt, seq![' ']);
        let sp = i + tt.len();
        assert(cs[sp] == (seq![' '])[0]);
        assert(cs[sp] == ' ');
        lemma_tokenize_text_at(cs, sp + 1, rest);
        assert(sp_tokenize_at(cs, sp) == sp_tokenize_at(cs, sp + 1));
        match t0 {
            TokenV::Ident(s) => {
                assert(cs[i] == tt[0]);
                assert(cs[i] == s[0]);
                assert(!is_space_char(cs[i]));
                assert forall|k: int| 0 <= k < s.len() - 1 implies is_ident_char(
                    #[trigger] cs[i + 1 + k],
                ) by {
                    assert(cs[i + (k + 1)] == tt[k + 1]);
                    assert(tt[k + 1] == s[k + 1]);
                }
                assert(!is_ident_char(cs[i + 1 + (s.len() as int - 1)]));
                lemma_scan_ident_run(cs, i + 1, s.len() as int - 1);
                assert(scan_ident_end(cs, i + 1) == sp);
                assert forall|k: int| 0 <= k < s.len() implies cs.subrange(i, sp)[k] == s[k] by {
                    assert(cs[i + k] == tt[k]);
                    assert(cs.subrange(i, sp)[k] == cs[i + k]);
                }
                assert(cs.subrange(i, sp) =~= s);
                assert(seq![TokenV::Ident(cs.subrange(i, sp))] + rest =~= ts);
            },
            TokenV::LitStr(s) => {
                assert(cs[i] == tt[0]);
                assert(cs[i] == '"');
                assert(!is_space_char('"'));
                assert(!is_ident_start_char('"'));
                assert forall|k: int| 0 <= k < s.len() implies #[trigger] cs[i + 1 + k] != '"'
                    && cs[i + 1 + k] != '\\' by {
                    assert(cs[i + (k + 1)] == tt[k + 1]);
                    assert(tt[k + 1] == (seq!['"'] + s + seq!['"'])[k + 1]);
                    assert(tt[k + 1] == s[k]);
                }
                assert(cs[i + 1 + s.len() as int] == tt[s.len() as int + 1]);
                assert(cs[i + 1 + s.len() as int] == '"');
                lemma_scan_lit_run(cs, i + 1, s.len() as int);
                let q = i + 1 + s.len() as int;
                assert(scan_lit_end(cs, i + 1) == Option::Some(q));
                assert(q == sp - 1);
                assert forall|k: int| 0 <= k < s.len() implies cs.subrange(i + 1, q)[k] == s[k]
                    by {
                    assert(cs[i + (k + 1)] == tt[k + 1]);
                    assert(tt[k + 1] == (seq!['"'] + s + seq!['"'])[k + 1]);
                    assert(tt[k + 1] == s[k]);
                    assert(cs.subrange(i + 1, q)[k] == cs[i + 1 + k]);
                    assert(cs[i + (k + 1)] == cs[i + 1 + k]);
                }
                assert(cs.subrange(i + 1, q) =~= s);
                assert(seq![TokenV::LitStr(cs.subrange(i + 1, q))] + rest =~= ts);
            },
            TokenV::Dollar => {
                assert(cs[i] == tt[0]);
                assert(punct_token(cs[i]) == t0);
                assert(seq![punct_token(cs[i])] + rest =~= ts);
            },
            TokenV::Dot => {
                assert(cs[i] == tt[0]);
                assert(punct_token(cs[i]) == t0);
                assert(seq![punct_token(cs[i])] + rest =~= ts);
            },
            TokenV::Comma => {
                assert(cs[i] == tt[0]);
                assert(punct_token(cs[i]) == t0);
                assert(seq![punct_token(cs[i])] + rest =~= ts);
            },
            TokenV::LParen => {
                assert(cs[i] == tt[0]);
                assert(punct_token(cs[i]) == t0);
                assert(seq![punct_token(cs[i])] + rest =~= ts);
            },
            TokenV::RParen => {
                assert(cs[i] == tt[0]);
                assert(punct_token(cs[i]) == t0);
                assert(seq![punct_token(cs[i])] + rest =~= ts);
            },
            TokenV::LBracket => {
                assert(cs[i] == tt[0]);
                assert(punct_token(cs[i]) == t0);
                assert(seq![punct_token(cs[i])] + rest =~= ts);
            },
            TokenV::RBracket => {
                assert(cs[i] == tt[0]);
                assert(punct_token(cs[i]) == t0);
                assert(seq![punct_token(cs[i])] + rest =~= ts);
            },
        }
    }
}

/// The lexer inverts the text renderer: the text of any stream of
/// well-formed tokens reads back as exactly that stream.
pub proof fn lemma_tokenize_render_text(ts: Seq<TokenV>)
    requires
        all_wf_tokens(ts),
    ensures
        sp_tokenize(text_of_tokens(ts)) == Option::Some(ts),
{
    let cs = text_of_tokens(ts);
    assert(chars_at(cs, 0, cs));
    lemma_tokenize_text_at(cs, 0, ts);
}

} // verus!
