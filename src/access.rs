//! The access gate: who is who, and who may update which name.

use vstd::prelude::*;
use crate::config::{name_key, User, Users};
use crate::types::{bcrypt_verdict, Domain};

verus! {

/// Whether the table holds the user and the password matches the user's hash.
pub open spec fn authenticated(users: Map<Seq<char>, User>, user: Seq<char>, pw: Seq<char>) -> bool {
    users.contains_key(user) && bcrypt_verdict(pw, users[user].pw@) == Some(true)
}

/// Whether the table holds the user and the name is among the user's names.
pub open spec fn authorized(users: Map<Seq<char>, User>, user: Seq<char>, name: Seq<char>) -> bool {
    users.contains_key(user) && users[user].domains@.contains(name_key(name))
}

/// An unknown user and a known user with a wrong password are turned away
/// alike: neither authenticates.
pub proof fn unknown_user_like_wrong_password(users: Map<Seq<char>, User>, stranger: Seq<char>, user: Seq<char>, pw: Seq<char>, wrong: Seq<char>)
    requires
        !users.contains_key(stranger),
        users.contains_key(user),
        bcrypt_verdict(wrong, users[user].pw@) != Some(true),
    ensures
        !authenticated(users, stranger, pw),
        !authenticated(users, user, wrong),
{
}

/// A well-formed hash of no password in use. An unknown user's password is
/// checked against it, so that an unknown user and a wrong password cost
/// the same work.
const DECOY_HASH: &'static str = "$2y$12$L6Bc/AlTQHyd9liGgGEZyOFLPHNgyxeEPfgYfBCVxJ7JIlwxyVU3u";

impl Users {
    /// Whether the user exists and the password is the user's. An unknown
    /// user and a wrong password both give `false`, after the same work.
    pub fn authenticate(&self, user: &str, pw: &str) -> (r: bool)
        requires
            self.wf(),
        ensures
            r == authenticated(self@, user@, pw@),
    {
        match self.get(user) {
            Some(u) => u.pw.is(pw),
            None => {
                let decoy = crate::types::Hash::from_stored(DECOY_HASH.to_owned());
                let _ = decoy.is(pw);
                false
            },
        }
    }

    /// Whether the user exists and may update the name. An unknown user may
    /// update nothing.
    pub fn authorize(&self, user: &str, name: &Domain) -> (r: bool)
        requires
            self.wf(),
        ensures
            r == authorized(self@, user@, name@),
    {
        match self.get(user) {
            Some(u) => {
                proof {
                    self.lemma_users_wf(user@);
                }
                u.domains.contains(name)
            },
            None => false,
        }
    }
}

} // verus!
