//! HTTP Basic credentials: `Basic <base64 of user:password>`.

use vstd::prelude::*;
use vstd::utf8::{decode_utf8, valid_utf8};
use crate::text::{chars_of, string_of, sub_chars};

verus! {

/// Whether `c` separates the words of a header value.
pub open spec fn is_space(c: char) -> bool {
    c == ' ' || c == '\t'
}

/// The text with its leading spaces taken off.
pub open spec fn skip_space(s: Seq<char>) -> Seq<char>
    decreases s.len(),
{
    if s.len() > 0 && is_space(s[0]) {
        skip_space(s.drop_first())
    } else {
        s
    }
}

/// The length of the word at the start of the text.
pub open spec fn word_len(s: Seq<char>) -> nat
    decreases s.len(),
{
    if s.len() > 0 && !is_space(s[0]) {
        1 + word_len(s.drop_first())
    } else {
        0
    }
}

/// The scheme word of Basic authentication.
pub open spec fn basic_word() -> Seq<char> {
    seq!['B', 'a', 's', 'i', 'c']
}

/// The encoded credentials of a header value: the word after a first word
/// `Basic`; what follows it is ignored.
pub open spec fn basic_token(h: Seq<char>) -> Option<Seq<char>> {
    let s1 = skip_space(h);
    if s1.take(word_len(s1) as int) == basic_word() {
        let s2 = skip_space(s1.skip(word_len(s1) as int));
        let w = s2.take(word_len(s2) as int);
        if w.len() > 0 {
            Some(w)
        } else {
            None
        }
    } else {
        None
    }
}

/// The position of the first colon of the text, if it has one.
pub open spec fn first_colon(s: Seq<char>) -> Option<nat>
    decreases s.len(),
{
    if s.len() == 0 {
        None
    } else if s[0] == ':' {
        Some(0)
    } else {
        match first_colon(s.drop_first()) {
            Some(p) => Some(p + 1),
            None => None,
        }
    }
}

/// The user and the password of decoded credentials: what stands before and
/// after the first colon.
pub open spec fn split_pair(s: Seq<char>) -> Option<(Seq<char>, Seq<char>)> {
    match first_colon(s) {
        Some(p) => Some((s.take(p as int), s.skip((p + 1) as int))),
        None => None,
    }
}

/// The user and the password held in decoded bytes, which must be UTF-8.
pub open spec fn pair_of_bytes(b: Seq<u8>) -> Option<(Seq<char>, Seq<char>)> {
    if valid_utf8(b) {
        split_pair(decode_utf8(b))
    } else {
        None
    }
}

/// What standard base64 decoding makes of a text, or `None` where it is not
/// valid base64.
pub uninterp spec fn base64_decoded(s: Seq<char>) -> Option<Seq<u8>>;

/// Relies on `base64`'s standard engine `decode`: the decoded bytes, or
/// `None` where the text is not valid padded base64.
#[verifier::external_body]
fn decode_base64(s: &str) -> (r: Option<Vec<u8>>)
    ensures
        match r {
            Some(b) => base64_decoded(s@) == Some(b@),
            None => base64_decoded(s@) is None,
        },
{
    base64::Engine::decode(&base64::engine::general_purpose::STANDARD, s).ok()
}

/// Relies on `String::from_utf8`: the text of the bytes where they are valid
/// UTF-8, else `None`.
#[verifier::external_body]
fn utf8_text(b: Vec<u8>) -> (r: Option<String>)
    ensures
        r is Some <==> valid_utf8(b@),
        r matches Some(s) ==> s@ == decode_utf8(b@),
{
    String::from_utf8(b).ok()
}

/// The user name and password presented by a client.
#[derive(Clone, Debug)]
pub struct Credentials {
    pub user: String,
    pub pw: String,
}

/// The position just after the spaces that start at `i`.
fn skip_spaces_from(v: &Vec<char>, i: usize) -> (j: usize)
    requires
        i <= v@.len(),
    ensures
        i <= j <= v@.len(),
        v@.skip(j as int) == skip_space(v@.skip(i as int)),
{
    let mut j: usize = i;
    while j < v.len() && (v[j] == ' ' || v[j] == '\t')
        invariant
            i <= j <= v@.len(),
            skip_space(v@.skip(j as int)) == skip_space(v@.skip(i as int)),
        decreases v@.len() - j,
    {
        proof {
            assert(v@.skip(j as int).drop_first() =~= v@.skip(j + 1));
        }
        j = j + 1;
    }
    proof {
        let t = v@.skip(j as int);
        if t.len() > 0 {
            assert(t[0] == v@[j as int]);
        }
    }
    j
}

/// The position where the word that starts at `i` ends.
fn word_end_from(v: &Vec<char>, i: usize) -> (j: usize)
    requires
        i <= v@.len(),
    ensures
        i <= j <= v@.len(),
        j - i == word_len(v@.skip(i as int)),
{
    let mut j: usize = i;
    while j < v.len() && !(v[j] == ' ' || v[j] == '\t')
        invariant
            i <= j <= v@.len(),
            forall|k: int| i <= k < j ==> !is_space(v@[k]),
            (j - i) + word_len(v@.skip(j as int)) == word_len(v@.skip(i as int)),
        decreases v@.len() - j,
    {
        proof {
            assert(v@.skip(j as int).drop_first() =~= v@.skip(j + 1));
        }
        j = j + 1;
    }
    proof {
        let t = v@.skip(j as int);
        if t.len() > 0 {
            assert(t[0] == v@[j as int]);
        }
    }
    j
}

/// Whether the characters of `v` from `i` to `j` spell `Basic`.
fn is_basic(v: &Vec<char>, i: usize, j: usize) -> (r: bool)
    requires
        i <= j <= v@.len(),
    ensures
        r == (v@.subrange(i as int, j as int) == basic_word()),
{
    if j - i != 5 {
        proof {
            assert(v@.subrange(i as int, j as int).len() != basic_word().len());
        }
        return false;
    }
    let r = v[i] == 'B' && v[i + 1] == 'a' && v[i + 2] == 's' && v[i + 3] == 'i' && v[i + 4] == 'c';
    proof {
        let w = v@.subrange(i as int, j as int);
        if r {
            assert(w =~= basic_word());
        } else {
            assert(w != basic_word()) by {
                if w == basic_word() {
                    assert(w[0] == 'B' && w[1] == 'a' && w[2] == 's' && w[3] == 'i' && w[4] == 'c');
                }
            }
        }
    }
    r
}

/// The encoded word of a Basic authorization header value.
pub fn basic_token_of(h: &str) -> (r: Option<String>)
    ensures
        match r {
            Some(t) => basic_token(h@) == Some(t@),
            None => basic_token(h@) is None,
        },
{
    let v = chars_of(h);
    let a = skip_spaces_from(&v, 0);
    let b = word_end_from(&v, a);
    proof {
        assert(v@.skip(0) =~= v@);
        let s1 = v@.skip(a as int);
        assert(s1.take(word_len(s1) as int) =~= v@.subrange(a as int, b as int));
    }
    if !is_basic(&v, a, b) {
        return None;
    }
    let c = skip_spaces_from(&v, b);
    let d = word_end_from(&v, c);
    proof {
        let s1 = v@.skip(a as int);
        assert(s1.skip(word_len(s1) as int) =~= v@.skip(b as int));
        let s2 = v@.skip(c as int);
        assert(s2.take(word_len(s2) as int) =~= v@.subrange(c as int, d as int));
    }
    if d == c {
        return None;
    }
    Some(string_of(sub_chars(&v, c, d).as_slice()))
}

/// The position of the first colon in `v`, if any.
fn colon_in(v: &Vec<char>) -> (r: Option<usize>)
    ensures
        match r {
            Some(p) => first_colon(v@) == Some(p as nat) && p < v@.len(),
            None => first_colon(v@) is None,
        },
{
    let mut i: usize = 0;
    while i < v.len()
        invariant
            0 <= i <= v@.len(),
            forall|k: int| 0 <= k < i ==> v@[k] != ':',
        decreases v@.len() - i,
    {
        if v[i] == ':' {
            proof {
                lemma_first_colon(v@, i as int);
            }
            return Some(i);
        }
        i = i + 1;
    }
    proof {
        lemma_no_colon(v@);
    }
    None
}

proof fn lemma_first_colon(s: Seq<char>, i: int)
    requires
        0 <= i < s.len(),
        s[i] == ':',
        forall|k: int| 0 <= k < i ==> s[k] != ':',
    ensures
        first_colon(s) == Some(i as nat),
    decreases i,
{
    if i > 0 {
        lemma_first_colon(s.drop_first(), i - 1);
    }
}

proof fn lemma_no_colon(s: Seq<char>)
    requires
        forall|k: int| 0 <= k < s.len() ==> s[k] != ':',
    ensures
        first_colon(s) is None,
    decreases s.len(),
{
    if s.len() > 0 {
        lemma_no_colon(s.drop_first());
    }
}

impl Credentials {
    /// The user and password of decoded credentials: the text before and
    /// after the first colon. `None` where the bytes are not UTF-8 or hold
    /// no colon.
    pub fn from_decoded(b: Vec<u8>) -> (r: Option<Credentials>)
        ensures
            match r {
                Some(c) => pair_of_bytes(b@) == Some((c.user@, c.pw@)),
                None => pair_of_bytes(b@) is None,
            },
    {
        let text = match utf8_text(b) {
            Some(t) => t,
            None => return None,
        };
        let v = chars_of(text.as_str());
        match colon_in(&v) {
            Some(p) => {
                let user = string_of(sub_chars(&v, 0, p).as_slice());
                let n = v.len();
                assert(p < n);
                let pw = string_of(sub_chars(&v, p + 1, n).as_slice());
                proof {
                    assert(v@.subrange(0, p as int) =~= v@.take(p as int));
                    assert(v@.subrange(p + 1, v@.len() as int) =~= v@.skip(p + 1));
                }
                Some(Credentials { user, pw })
            },
            None => None,
        }
    }

    /// The credentials of an `Authorization` header value, where it reads
    /// `Basic` followed by base64 of `user:password`.
    pub fn from_header(h: &str) -> (r: Option<Credentials>)
        ensures
            match r {
                Some(c) => {
                    &&& basic_token(h@) is Some
                    &&& base64_decoded(basic_token(h@)->0) is Some
                    &&& pair_of_bytes(base64_decoded(basic_token(h@)->0)->0) == Some((c.user@, c.pw@))
                },
                None => {
                    ||| basic_token(h@) is None
                    ||| base64_decoded(basic_token(h@)->0) is None
                    ||| pair_of_bytes(base64_decoded(basic_token(h@)->0)->0) is None
                },
            },
    {
        let token = match basic_token_of(h) {
            Some(t) => t,
            None => return None,
        };
        match decode_base64(token.as_str()) {
            Some(b) => Credentials::from_decoded(b),
            None => None,
        }
    }
}

} // verus!
