use vstd::prelude::*;

verus! {

/// A token character of RFC 9110: a letter, a digit, or one of ``!#$%&'*+-.^_`|~``.
pub open spec fn is_token_char(c: char) -> bool {
    ||| ('a' <= c && c <= 'z')
    ||| ('A' <= c && c <= 'Z')
    ||| ('0' <= c && c <= '9')
    ||| c == '!' || c == '#' || c == '$' || c == '%' || c == '&' || c == '\''
    ||| c == '*' || c == '+' || c == '-' || c == '.' || c == '^' || c == '_'
    ||| c == '`' || c == '|' || c == '~'
}

/// A valid HTTP method name: one or more token characters.
pub open spec fn is_method_token(s: Seq<char>) -> bool {
    s.len() > 0 && forall|i: int| 0 <= i < s.len() ==> #[trigger] is_token_char(s[i])
}

/// Calls `http::Method::from_str` and gives back the name of the parsed method.
///
/// Claims, as the crate's source shows: the parse succeeds exactly on non-empty
/// names made of token characters (any other byte, and any byte of a character
/// beyond ASCII, is refused), and the method's name is then the name given.
#[verifier::external_body]
pub(crate) fn parse_method(name: &str) -> (parsed: Option<String>)
    ensures
        parsed is Some <==> is_method_token(name@),
        parsed matches Some(m) ==> m@ == name@,
{
    match name.parse::<http::Method>() {
        Ok(m) => Some(m.as_str().to_owned()),
        Err(_) => None,
    }
}

} // verus!
