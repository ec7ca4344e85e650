//! The texts of the HTTP error responses and of the authentication challenge.

use vstd::prelude::*;
use crate::addr::{fields, first_index, first_index_in, split_fields};
use crate::text::{chars_of, string_of, sub_chars};

verus! {

/// The body of a 400 response.
pub fn bad_request() -> (r: &'static str)
    ensures
        r@ == "400 Bad Request"@,
{
    "400 Bad Request"
}

/// The body of a 401 response.
pub fn unauthorized() -> (r: &'static str)
    ensures
        r@ == "401 Unauthorized"@,
{
    "401 Unauthorized"
}

/// The `WWW-Authenticate` header value sent with a 401 response.
pub fn challenge() -> (r: &'static str)
    ensures
        r@ == "Basic realm=\"dynonym\""@,
{
    "Basic realm=\"dynonym\""
}

/// The body of a 403 response.
pub fn forbidden() -> (r: &'static str)
    ensures
        r@ == "403 Forbidden"@,
{
    "403 Forbidden"
}

/// The body of a 404 response.
pub fn not_found() -> (r: &'static str)
    ensures
        r@ == "404 Not Found"@,
{
    "404 Not Found"
}

/// The body of a 500 response.
pub fn internal_server_error() -> (r: &'static str)
    ensures
        r@ == "500 Internal Server Error"@,
{
    "500 Internal Server Error"
}

/// The body of a 501 response.
pub fn not_implemented() -> (r: &'static str)
    ensures
        r@ == "501 Not Implemented"@,
{
    "501 Not Implemented"
}

/// The body of a 502 response.
pub fn bad_gateway() -> (r: &'static str)
    ensures
        r@ == "502 Bad Gateway"@,
{
    "502 Bad Gateway"
}

/// The body of a 504 response.
pub fn gateway_timeout() -> (r: &'static str)
    ensures
        r@ == "504 Gateway Timeout"@,
{
    "504 Gateway Timeout"
}

/// The key of a `key=value` pair of a query: all of it where it has no `=`.
pub open spec fn pair_key(p: Seq<char>) -> Seq<char> {
    match first_index(p, '=') {
        Some(i) => p.take(i as int),
        None => p,
    }
}

/// The value of a `key=value` pair of a query: empty where it has no `=`.
pub open spec fn pair_value(p: Seq<char>) -> Seq<char> {
    match first_index(p, '=') {
        Some(i) => p.skip((i + 1) as int),
        None => Seq::empty(),
    }
}

/// The value of the last pair with this key.
pub open spec fn lookup(pairs: Seq<Seq<char>>, key: Seq<char>) -> Option<Seq<char>>
    decreases pairs.len(),
{
    if pairs.len() == 0 {
        None
    } else if pair_key(pairs.last()) == key {
        Some(pair_value(pairs.last()))
    } else {
        lookup(pairs.drop_last(), key)
    }
}

/// The value of a parameter of a query string (`a=1&b=2`): the value of the
/// last pair with that key.
pub fn query_param(query: &str, key: &str) -> (r: Option<String>)
    ensures
        match r {
            Some(v) => lookup(fields(query@, '&'), key@) == Some(v@),
            None => lookup(fields(query@, '&'), key@) is None,
        },
{
    let v = chars_of(query);
    let pairs = split_fields(&v, '&');
    let ghost fs = fields(query@, '&');
    let wanted = key.to_owned();
    let mut i: usize = pairs.len();
    proof {
        assert(fs.take(i as int) =~= fs);
    }
    while i > 0
        invariant
            0 <= i <= pairs@.len(),
            pairs@.len() == fs.len(),
            fs == fields(query@, '&'),
            forall|k: int| 0 <= k < pairs@.len() ==> (#[trigger] pairs@[k])@ == fs[k],
            wanted@ == key@,
            lookup(fs, key@) == lookup(fs.take(i as int), key@),
        decreases i,
    {
        let p = &pairs[i - 1];
        proof {
            assert(p@ == fs[i - 1]);
            assert(fs.take(i as int).drop_last() =~= fs.take(i - 1));
            assert(fs.take(i as int).last() == fs[i - 1]);
        }
        let (k, value) = match first_index_in(p, '=') {
            Some(e) => {
                let n = p.len();
                let k = string_of(sub_chars(p, 0, e).as_slice());
                let value = string_of(sub_chars(p, e + 1, n).as_slice());
                proof {
                    assert(p@.subrange(0, e as int) =~= p@.take(e as int));
                    assert(p@.subrange(e + 1, n as int) =~= p@.skip(e + 1));
                }
                (k, value)
            },
            None => (string_of(p.as_slice()), String::new()),
        };
        if k == wanted {
            return Some(value);
        }
        i = i - 1;
    }
    proof {
        assert(fs.take(0) =~= Seq::<Seq<char>>::empty());
    }
    None
}

} // verus!
