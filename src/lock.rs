//! The lock that keeps a second server off the same configuration.
//!
//! The file itself is created and removed at the edge of the program; the
//! library holds the guard, which is released exactly once.

use vstd::prelude::*;

verus! {

/// The exclusive handle of a lock file that exists. It cannot be cloned.
#[derive(Debug)]
pub struct Lock {
    path: String,
}

impl View for Lock {
    type V = Seq<char>;

    closed spec fn view(&self) -> Seq<char> {
        self.path@
    }
}

impl Lock {
    /// The guard of a lock file just created at `path`.
    pub fn held(path: String) -> (r: Lock)
        ensures
            r@ == path@,
    {
        Lock { path }
    }

    /// The path of the lock file.
    pub fn path(&self) -> (r: &str)
        ensures
            r@ == self@,
    {
        self.path.as_str()
    }

    /// Gives up the guard; the path returned is the file to remove.
    pub fn release(self) -> (r: String)
        ensures
            r@ == self@,
    {
        self.path
    }
}

/// The ways in which handling the lock file fails, each with its path.
#[derive(Clone, Debug)]
pub enum Error {
    Create(String),
    Write(String),
    Remove(String),
    SetupSigintHandler,
}

} // verus!
