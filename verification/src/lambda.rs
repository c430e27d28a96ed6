//! The deployment annotation of a function: an HTTP method and a path,
//! read from the same token alphabet as the policy language.

use vstd::prelude::*;
use vstd::string::StringExecFns;

use crate::parser::ParseError;
use crate::token::Token;
use crate::token::TokenV;
use crate::token::str_eq;
use crate::token::token_views;

verus! {

/// The HTTP methods an annotated function can be exposed under.
#[derive(Clone, Copy, Debug, PartialEq, Eq)]
pub enum HttpAction {
    GET,
    POST,
    PUT,
    DELETE,
}

/// One deployment annotation: the method and the path of the endpoint.
#[derive(Clone, Debug, PartialEq, Eq)]
pub struct Lambda {
    pub http_action: HttpAction,
    pub path: String,
}

/// Mathematical view of a `Lambda`.
#[verifier::ext_equal]
pub struct LambdaV {
    pub http_action: HttpAction,
    pub path: Seq<char>,
}

impl View for Lambda {
    type V = LambdaV;

    open spec fn view(&self) -> LambdaV {
        LambdaV { http_action: self.http_action, path: self.path@ }
    }
}

/// The name of an HTTP method.
pub open spec fn http_action_text(a: HttpAction) -> Seq<char> {
    match a {
        HttpAction::GET => "GET"@,
        HttpAction::POST => "POST"@,
        HttpAction::PUT => "PUT"@,
        HttpAction::DELETE => "DELETE"@,
    }
}

/// The method named by an identifier, if any.
pub open spec fn sp_parse_http_action(t: Seq<TokenV>, i: int) -> Option<(HttpAction, int)> {
    if 0 <= i < t.len() {
        match t[i] {
            TokenV::Ident(s) => {
                if s == "GET"@ {
                    Option::Some((HttpAction::GET, i + 1))
                } else if s == "POST"@ {
                    Option::Some((HttpAction::POST, i + 1))
                } else if s == "PUT"@ {
                    Option::Some((HttpAction::PUT, i + 1))
                } else if s == "DELETE"@ {
                    Option::Some((HttpAction::DELETE, i + 1))
                } else {
                    Option::None
                }
            },
            _ => Option::None,
        }
    } else {
        Option::None
    }
}

/// One annotation: a method, an optional comma, and the path as a
/// string literal.
pub open spec fn sp_parse_lambda(t: Seq<TokenV>, i: int) -> Option<(LambdaV, int)> {
    match sp_parse_http_action(t, i) {
        Option::Some((a, j)) => {
            let j2 = if j < t.len() && t[j] is Comma {
                j + 1
            } else {
                j
            };
            if 0 <= j2 < t.len() && t[j2] is LitStr {
                Option::Some(
                    (LambdaV { http_action: a, path: t[j2]->LitStr_0 }, j2 + 1),
                )
            } else {
                Option::None
            }
        },
        Option::None => Option::None,
    }
}

impl HttpAction {
    /// The method named by this text, or the text that names none.
    pub fn from_str(s: &str) -> (r: Result<HttpAction, String>)
        ensures
            s@ == "GET"@ ==> r == Result::<HttpAction, String>::Ok(HttpAction::GET),
            s@ == "POST"@ ==> r == Result::<HttpAction, String>::Ok(HttpAction::POST),
            s@ == "PUT"@ ==> r == Result::<HttpAction, String>::Ok(HttpAction::PUT),
            s@ == "DELETE"@ ==> r == Result::<HttpAction, String>::Ok(HttpAction::DELETE),
            r is Err <==> !(s@ == "GET"@ || s@ == "POST"@ || s@ == "PUT"@ || s@
                == "DELETE"@),
    {
        proof {
            lemma_method_names_distinct();
        }
        if str_eq(s, "GET") {
            Result::Ok(HttpAction::GET)
        } else if str_eq(s, "POST") {
            Result::Ok(HttpAction::POST)
        } else if str_eq(s, "PUT") {
            Result::Ok(HttpAction::PUT)
        } else if str_eq(s, "DELETE") {
            Result::Ok(HttpAction::DELETE)
        } else {
            let mut message = "Invalid HTTP action: ".to_owned();
            message.append(s);
            Result::Err(message)
        }
    }

    /// The name of this method.
    pub fn as_str(&self) -> (r: &'static str)
        ensures
            r@ == http_action_text(*self),
    {
        match self {
            HttpAction::GET => "GET",
            HttpAction::POST => "POST",
            HttpAction::PUT => "PUT",
            HttpAction::DELETE => "DELETE",
        }
    }

    /// Reads one method name from the token stream.
    pub fn parse(tokens: &Vec<Token>, pos: usize) -> (r: Result<(HttpAction, usize), ParseError>)
        ensures
            ({
                let t = token_views(tokens@);
                match r {
                    Result::Ok((a, j)) => sp_parse_http_action(t, pos as int) == Option::Some(
                        (a, j as int),
                    ),
                    Result::Err(_) => sp_parse_http_action(t, pos as int) is None,
                }
            }),
    {
        if pos < tokens.len() {
            match &tokens[pos] {
                Token::Ident(s) => match HttpAction::from_str(s.as_str()) {
                    Result::Ok(a) => Result::Ok((a, pos + 1)),
                    Result::Err(_) => Result::Err(
                        ParseError {
                            pos,
                            expected: "one of 'GET', 'POST', 'PUT', 'DELETE'".to_owned(),
                        },
                    ),
                },
                _ => Result::Err(
                    ParseError {
                        pos,
                        expected: "one of 'GET', 'POST', 'PUT', 'DELETE'".to_owned(),
                    },
                ),
            }
        } else {
            Result::Err(
                ParseError {
                    pos,
                    expected: "one of 'GET', 'POST', 'PUT', 'DELETE'".to_owned(),
                },
            )
        }
    }
}

impl Lambda {
    /// Reads one annotation: the method, an optional comma, and the
    /// path.
    pub fn parse(tokens: &Vec<Token>, pos: usize) -> (r: Result<(Lambda, usize), ParseError>)
        ensures
            ({
                let t = token_views(tokens@);
                match r {
                    Result::Ok((l, j)) => sp_parse_lambda(t, pos as int) == Option::Some(
                        (l@, j as int),
                    ),
                    Result::Err(_) => sp_parse_lambda(t, pos as int) is None,
                }
            }),
    {
        proof {
            assert(tokens@.len() == tokens.len());
        }
        let (action, j) = match HttpAction::parse(tokens, pos) {
            Result::Ok(aj) => aj,
            Result::Err(e) => {
                return Result::Err(e);
            },
        };
        let j2 = if j < tokens.len() && tok_is_comma_here(&tokens[j]) {
            j + 1
        } else {
            j
        };
        if j2 < tokens.len() {
            match &tokens[j2] {
                Token::LitStr(s) => Result::Ok(
                    (Lambda { http_action: action, path: s.clone() }, j2 + 1),
                ),
                _ => Result::Err(
                    ParseError { pos: j2, expected: "a path as a string literal".to_owned() },
                ),
            }
        } else {
            Result::Err(
                ParseError { pos: j2, expected: "a path as a string literal".to_owned() },
            )
        }
    }
}

/// The method names are pairwise distinct.
proof fn lemma_method_names_distinct()
    ensures
        "GET"@ != "POST"@,
        "GET"@ != "PUT"@,
        "GET"@ != "DELETE"@,
        "POST"@ != "PUT"@,
        "POST"@ != "DELETE"@,
        "PUT"@ != "DELETE"@,
{
    reveal_strlit("GET");
    reveal_strlit("POST");
    reveal_strlit("PUT");
    reveal_strlit("DELETE");
    assert("GET"@.len() == 3);
    assert("POST"@.len() == 4);
    assert("PUT"@.len() == 3);
    assert("DELETE"@.len() == 6);
    assert("GET"@[0] == 'G');
    assert("PUT"@[0] == 'P');
}

fn tok_is_comma_here(tok: &Token) -> (r: bool)
    ensures
        r == (tok@ is Comma),
{
    match tok {
        Token::Comma => true,
        _ => false,
    }
}

/// The greeting of the sample HTTP handler, built from the caller's
/// name and the fetched file contents.
pub fn handler_message(who: &str, file_contents: &str) -> (r: String)
    ensures
        r@ == "Hello "@ + who@ + ", this is an AWS Lambda HTTP request. File contents: "@
            + file_contents@,
{
    let mut out = String::new();
    out.append("Hello ");
    out.append(who);
    out.append(", this is an AWS Lambda HTTP request. File contents: ");
    out.append(file_contents);
    out
}

} // verus!
