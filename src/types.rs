//! Domain names and password hashes.

use vstd::prelude::*;
use crate::addr::{fields, split_fields};
use crate::text::{chars_of, folded, same_folded};

verus! {

/// A domain name, written as dot-separated labels (a final dot is allowed).
///
/// Names compare with ASCII letters folded, as DNS names do.
#[derive(Clone, Debug)]
pub struct Domain(pub String);

impl View for Domain {
    type V = Seq<char>;

    open spec fn view(&self) -> Seq<char> {
        self.0@
    }
}

/// The name without its final dot, if it has one.
pub open spec fn trimmed(s: Seq<char>) -> Seq<char> {
    if s.len() > 0 && s.last() == '.' {
        s.drop_last()
    } else {
        s
    }
}

/// Whether the name is the root of the DNS tree.
pub open spec fn is_root(s: Seq<char>) -> bool {
    trimmed(s).len() == 0
}

/// Whether two names denote the same node of the DNS tree.
pub open spec fn same_name(a: Seq<char>, b: Seq<char>) -> bool {
    folded(trimmed(a)) == folded(trimmed(b))
}

/// Whether `z` is `d` itself or one of its ancestors.
pub open spec fn is_zone_of(z: Seq<char>, d: Seq<char>) -> bool {
    let zt = trimmed(z);
    let dt = trimmed(d);
    ||| zt.len() == 0
    ||| folded(zt) == folded(dt)
    ||| {
        &&& zt.len() < dt.len()
        &&& dt[dt.len() - zt.len() - 1] == '.'
        &&& folded(zt) == folded(dt.subrange(dt.len() - zt.len(), dt.len() as int))
    }
}

/// The name with its leftmost label taken off: the parent in the DNS tree.
/// A name of one label has the root as parent.
pub open spec fn parent(s: Seq<char>) -> Seq<char>
    decreases s.len(),
{
    if s.len() == 0 {
        s
    } else if s[0] == '.' {
        s.drop_first()
    } else {
        parent(s.drop_first())
    }
}

/// The position just after the first dot of `s`, or its length if it has none.
pub open spec fn label_end(s: Seq<char>) -> int
    decreases s.len(),
{
    if s.len() == 0 {
        0
    } else if s[0] == '.' {
        1
    } else {
        1 + label_end(s.drop_first())
    }
}

/// The parent is what follows the first label and its dot.
pub proof fn lemma_parent_is_suffix(s: Seq<char>)
    ensures
        0 <= label_end(s) <= s.len(),
        parent(s) == s.subrange(label_end(s), s.len() as int),
        s.len() > 0 ==> label_end(s) > 0,
        forall|k: int| 0 <= k < label_end(s) - 1 ==> s[k] != '.',
        label_end(s) > 0 && label_end(s) < s.len() ==> s[label_end(s) - 1] == '.',
        label_end(s) > 0 && s[label_end(s) - 1] != '.' ==> label_end(s) == s.len(),
    decreases s.len(),
{
    if s.len() > 0 && s[0] != '.' {
        let t = s.drop_first();
        lemma_parent_is_suffix(t);
        assert(s.subrange(label_end(s), s.len() as int) =~= t.subrange(
            label_end(t),
            t.len() as int,
        ));
        assert forall|k: int| 0 <= k < label_end(s) - 1 implies s[k] != '.' by {
            if k > 0 {
                assert(s[k] == t[k - 1]);
            }
        }
    } else if s.len() > 0 {
        assert(s.subrange(1, s.len() as int) =~= s.drop_first());
    } else {
        assert(s.subrange(0, 0) =~= s);
    }
}

/// A copy of `v[from..]`.
fn tail_of(v: &Vec<char>, from: usize) -> (r: Vec<char>)
    requires
        from <= v@.len(),
    ensures
        r@ == v@.subrange(from as int, v@.len() as int),
{
    let mut r: Vec<char> = Vec::new();
    let mut i: usize = from;
    while i < v.len()
        invariant
            from <= i <= v@.len(),
            r@ == v@.subrange(from as int, i as int),
        decreases v@.len() - i,
    {
        r.push(v[i]);
        i = i + 1;
        proof {
            assert(r@ =~= v@.subrange(from as int, i as int));
        }
    }
    r
}

/// The characters of `v` without a final dot.
pub fn trim_dot(v: &Vec<char>) -> (r: Vec<char>)
    ensures
        r@ == trimmed(v@),
{
    let n = v.len();
    if n > 0 && v[n - 1] == '.' {
        let mut r: Vec<char> = Vec::new();
        let mut i: usize = 0;
        while i < n - 1
            invariant
                n == v@.len(),
                n > 0,
                i <= n - 1,
                r@ == v@.subrange(0, i as int),
            decreases n - 1 - i,
        {
            r.push(v[i]);
            i = i + 1;
            proof {
                assert(r@ =~= v@.subrange(0, i as int));
            }
        }
        proof {
            assert(r@ =~= v@.drop_last());
        }
        r
    } else {
        v.clone()
    }
}

/// The parent of a name given by its characters.
pub fn parent_chars(v: &Vec<char>) -> (r: Vec<char>)
    ensures
        r@ == parent(v@),
{
    proof {
        lemma_parent_is_suffix(v@);
    }
    let mut i: usize = 0;
    while i < v.len()
        invariant
            0 <= i <= v@.len(),
            i <= label_end(v@),
            forall|k: int| 0 <= k < i ==> v@[k] != '.',
        decreases v@.len() - i,
    {
        if v[i] == '.' {
            proof {
                assert(i < label_end(v@)) by {
                    lemma_parent_is_suffix(v@);
                }
                lemma_parent_is_suffix(v@);
                assert(label_end(v@) == i + 1) by {
                    if label_end(v@) > i + 1 {
                        assert(v@[i as int] != '.');
                    }
                }
            }
            return tail_of(v, i + 1);
        }
        proof {
            lemma_parent_is_suffix(v@);
            if i > 0 {
                assert(v@[i - 1] != '.');
            }
        }
        i = i + 1;
    }
    proof {
        lemma_parent_is_suffix(v@);
        assert(label_end(v@) == v@.len()) by {
            if label_end(v@) < v@.len() {
                assert(v@[label_end(v@) - 1] == '.');
            }
        }
    }
    tail_of(v, i)
}

/// Whether the folded suffix of `d` of the same length as `z` equals `z`.
fn suffix_matches(z: &Vec<char>, d: &Vec<char>) -> (r: bool)
    requires
        z@.len() <= d@.len(),
    ensures
        r == (folded(z@) == folded(d@.subrange(d@.len() - z@.len(), d@.len() as int))),
{
    let tail = tail_of(d, d.len() - z.len());
    same_folded(z.as_slice(), tail.as_slice())
}

/// Whether the name `z` is `d` itself or one of its ancestors.
pub fn zone_contains(z: &Vec<char>, d: &Vec<char>) -> (r: bool)
    ensures
        r == is_zone_of(z@, d@),
{
    let zt = trim_dot(z);
    let dt = trim_dot(d);
    if zt.len() == 0 {
        return true;
    }
    if same_folded(zt.as_slice(), dt.as_slice()) {
        return true;
    }
    if zt.len() < dt.len() && dt[dt.len() - zt.len() - 1] == '.' {
        suffix_matches(&zt, &dt)
    } else {
        false
    }
}

impl Domain {
    /// The characters of the name.
    pub fn chars(&self) -> (r: Vec<char>)
        ensures
            r@ == self@,
    {
        chars_of(self.0.as_str())
    }

    /// Whether `self` is `other` itself or one of its ancestors.
    pub fn is_zone_of(&self, other: &Domain) -> (r: bool)
        ensures
            r == is_zone_of(self@, other@),
    {
        zone_contains(&self.chars(), &other.chars())
    }

    /// Whether the name can be updated: see [`valid_name`].
    pub fn is_valid(&self) -> (r: bool)
        ensures
            r == valid_name(self@),
    {
        let t = trim_dot(&self.chars());
        if t.len() == 0 || t.len() > 253 {
            return false;
        }
        let f = split_fields(&t, '.');
        let mut i: usize = 0;
        while i < f.len()
            invariant
                t@ == trimmed(self@),
                f@.len() == fields(t@, '.').len(),
                forall|k: int| 0 <= k < f@.len() ==> (#[trigger] f@[k])@ == fields(t@, '.')[k],
                0 <= i <= f@.len(),
                forall|k: int| 0 <= k < i ==> label_ok(#[trigger] fields(t@, '.')[k]),
            decreases f@.len() - i,
        {
            if !check_label(&f[i]) {
                assert(f@[i as int]@ == fields(t@, '.')[i as int]);
                return false;
            }
            assert(f@[i as int]@ == fields(t@, '.')[i as int]);
            i = i + 1;
        }
        true
    }

    /// Whether both denote the same name.
    pub fn same_as(&self, other: &Domain) -> (r: bool)
        ensures
            r == same_name(self@, other@),
    {
        let a = trim_dot(&self.chars());
        let b = trim_dot(&other.chars());
        same_folded(a.as_slice(), b.as_slice())
    }
}

/// Whether a character may stand in a label, at its start or further on:
/// ASCII letters and digits, `_`, and `-` but not first.
pub open spec fn label_char_ok(c: char, first: bool) -> bool {
    ||| ('a' <= c && c <= 'z')
    ||| ('A' <= c && c <= 'Z')
    ||| ('0' <= c && c <= '9')
    ||| c == '_'
    ||| (c == '-' && !first)
}

/// Whether the character at position `i` of a label is allowed there.
pub open spec fn label_char_at(l: Seq<char>, i: int) -> bool {
    label_char_ok(l[i], i == 0)
}

/// A label of one to 63 allowed characters.
pub open spec fn label_ok(l: Seq<char>) -> bool {
    &&& 1 <= l.len() <= 63
    &&& forall|i: int| 0 <= i < l.len() ==> #[trigger] label_char_at(l, i)
}

/// A name that can be updated: not the root, at most 253 characters
/// without the final dot, and made of valid labels.
pub open spec fn valid_name(s: Seq<char>) -> bool {
    let t = trimmed(s);
    &&& 0 < t.len() <= 253
    &&& forall|i: int| 0 <= i < fields(t, '.').len() ==> label_ok(#[trigger] fields(t, '.')[i])
}

/// Whether the label is valid.
fn check_label(l: &Vec<char>) -> (r: bool)
    ensures
        r == label_ok(l@),
{
    if l.len() < 1 || l.len() > 63 {
        return false;
    }
    let mut i: usize = 0;
    while i < l.len()
        invariant
            0 <= i <= l@.len(),
            forall|k: int| 0 <= k < i ==> #[trigger] label_char_at(l@, k),
        decreases l@.len() - i,
    {
        let c = l[i];
        let ok = ('a' <= c && c <= 'z') || ('A' <= c && c <= 'Z') || ('0' <= c && c <= '9') || c
            == '_' || (c == '-' && i != 0);
        if !ok {
            assert(!label_char_at(l@, i as int));
            return false;
        }
        i = i + 1;
    }
    true
}

/// The verdict of bcrypt on a password and a stored hash: whether they match,
/// or `None` where the stored hash is malformed.
pub uninterp spec fn bcrypt_verdict(plain: Seq<char>, hash: Seq<char>) -> Option<bool>;

/// Relies on `bcrypt::verify`: its verdict on the password and the stored
/// hash, with an error turned into `None`.
#[verifier::external_body]
fn bcrypt_verify(plain: &str, hash: &str) -> (r: Option<bool>)
    ensures
        r == bcrypt_verdict(plain@, hash@),
{
    bcrypt::verify(plain, hash).ok()
}

/// Relies on `bcrypt::hash` at the default cost: a hash under a fresh random
/// salt, which `bcrypt::verify` accepts for the same password; `None` where
/// no random salt could be drawn.
#[verifier::external_body]
fn bcrypt_hash(plain: &str) -> (r: Option<String>)
    ensures
        r matches Some(h) ==> bcrypt_verdict(plain@, h@) == Some(true),
{
    bcrypt::hash(plain, bcrypt::DEFAULT_COST).ok()
}

/// A salted bcrypt hash of a password, with its salt stored alongside.
///
/// Two hashes of one password differ in their salts: compare a password
/// with [`Hash::is`], never two hashes with each other.
#[derive(Clone, Debug, PartialEq, Eq)]
pub struct Hash(String);

impl View for Hash {
    type V = Seq<char>;

    closed spec fn view(&self) -> Seq<char> {
        self.0@
    }
}

impl Hash {
    /// Hashes a password under a fresh salt; `None` where no salt could be drawn.
    pub fn new(plain: &str) -> (r: Option<Hash>)
        ensures
            r matches Some(h) ==> bcrypt_verdict(plain@, h@) == Some(true),
    {
        match bcrypt_hash(plain) {
            Some(h) => Some(Hash(h)),
            None => None,
        }
    }

    /// A hash as it was stored earlier.
    pub fn from_stored(stored: String) -> (r: Hash)
        ensures
            r@ == stored@,
    {
        Hash(stored)
    }

    /// The stored form of the hash.
    pub fn stored(&self) -> (r: &str)
        ensures
            r@ == self@,
    {
        self.0.as_str()
    }

    /// Whether `self` is a hash of the given password. A malformed hash
    /// matches no password.
    pub fn is(&self, plain: &str) -> (r: bool)
        ensures
            r == (bcrypt_verdict(plain@, self@) == Some(true)),
    {
        match bcrypt_verify(plain, self.0.as_str()) {
            Some(b) => b,
            None => false,
        }
    }
}

} // verus!
