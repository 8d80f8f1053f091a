use vstd::prelude::*;

use crate::text::{chars_of, text_of, text_starts};

verus! {

/// `subtle::ConstantTimeEq::ct_eq` on the bytes of two texts: whether they are the
/// same. How long it takes is not stated.
#[verifier::external_body]
fn same_secret(a: &str, b: &str) -> (r: bool)
    ensures
        r == (a@ == b@),
{
    subtle::ConstantTimeEq::ct_eq(a.as_bytes(), b.as_bytes()).into()
}

/// The request carries the key, as such or as a bearer token.
pub open spec fn carries_key(
    api_key: Option<Seq<char>>,
    authorization: Option<Seq<char>>,
    expected: Seq<char>,
) -> bool {
    ||| api_key == Some(expected)
    ||| authorization == Some("Bearer "@ + expected)
}

/// What a header holds.
pub open spec fn header_view(header: Option<&str>) -> Option<Seq<char>> {
    match header {
        Some(text) => Some(text@),
        None => None,
    }
}

/// Whether the header is a bearer token with the expected key.
pub fn bearer_matches(authorization: Option<&str>, expected: &str) -> (r: bool)
    ensures
        r == (header_view(authorization) == Some("Bearer "@ + expected@)),
{
    let value: &str = match authorization {
        Some(value) => value,
        None => {
            return false;
        },
    };
    if !text_starts(value, "Bearer ") {
        proof {
            if value@ == "Bearer "@ + expected@ {
                assert(value@.take("Bearer "@.len() as int) =~= "Bearer "@);
            }
        }
        return false;
    }
    let chars = chars_of(value);
    let n: usize = chars_of("Bearer ").len();
    let token = text_of(&chars, n, chars.len());
    assert(value@ =~= "Bearer "@ + token@);
    proof {
        if value@ == "Bearer "@ + expected@ {
            assert(token@ =~= expected@);
        }
    }
    same_secret(token.as_str(), expected)
}

/// Whether the header is the expected key.
pub fn metadata_value_matches(header: Option<&str>, expected: &str) -> (r: bool)
    ensures
        r == (header_view(header) == Some(expected@)),
{
    match header {
        Some(actual) => same_secret(actual, expected),
        None => false,
    }
}

/// Whether a request may be served: always where no key is set, else where it carries
/// the key.
pub fn is_authorized(
    expected: &Option<String>,
    api_key: Option<&str>,
    authorization: Option<&str>,
) -> (r: bool)
    ensures
        r == match *expected {
            Some(key) => carries_key(header_view(api_key), header_view(authorization), key@),
            None => true,
        },
{
    match expected {
        Some(key) => metadata_value_matches(api_key, key.as_str()) || bearer_matches(
            authorization,
            key.as_str(),
        ),
        None => true,
    }
}

/// Without a key everyone is let in. With one, a request is let in that carries the key
/// itself, or carries it as a bearer token, and no other.
pub proof fn lemma_authorized(
    expected: Option<String>,
    api_key: Option<&str>,
    authorization: Option<&str>,
    r: bool,
)
    requires
        call_ensures(is_authorized, (&expected, api_key, authorization), r),
    ensures
        expected is None ==> r,
        expected is Some && api_key is None && authorization is None ==> !r,
        expected is Some ==> (r <==> api_key is Some && api_key->0@ == (expected->0)@
            || authorization is Some && authorization->0@ == "Bearer "@ + (expected->0)@),
{
}

} // verus!
