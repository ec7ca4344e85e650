//! The client behind a request.

use vstd::prelude::*;
use crate::creds::{base64_decoded, basic_token, pair_of_bytes, Credentials};

verus! {

/// The user name and password that a request presents.
#[derive(Clone, Debug)]
pub struct User {
    pub user: String,
    pub password: String,
}

impl User {
    /// The client of an `Authorization` header value: Basic credentials.
    pub fn from_header(h: &str) -> (r: Option<User>)
        ensures
            match r {
                Some(u) => {
                    &&& basic_token(h@) is Some
                    &&& base64_decoded(basic_token(h@)->0) is Some
                    &&& pair_of_bytes(base64_decoded(basic_token(h@)->0)->0) == Some((u.user@, u.password@))
                },
                None => {
                    ||| basic_token(h@) is None
                    ||| base64_decoded(basic_token(h@)->0) is None
                    ||| pair_of_bytes(base64_decoded(basic_token(h@)->0)->0) is None
                },
            },
    {
        match Credentials::from_header(h) {
            Some(c) => Some(User { user: c.user, password: c.pw }),
            None => None,
        }
    }
}

} // verus!
