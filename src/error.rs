//! The errors that end the program.

use vstd::prelude::*;

verus! {

/// An error of the configuration file or of the lock file.
#[derive(Clone, Debug)]
pub enum Error {
    Config(crate::config::Error),
    Lock(crate::lock::Error),
}

impl From<crate::config::Error> for Error {
    fn from(err: crate::config::Error) -> (r: Error)
        ensures
            r == Error::Config(err),
    {
        Error::Config(err)
    }
}

impl vstd::std_specs::convert::FromSpecImpl<crate::config::Error> for Error {
    open spec fn obeys_from_spec() -> bool {
        true
    }

    open spec fn from_spec(err: crate::config::Error) -> Error {
        Error::Config(err)
    }
}

impl From<crate::lock::Error> for Error {
    fn from(err: crate::lock::Error) -> (r: Error)
        ensures
            r == Error::Lock(err),
    {
        Error::Lock(err)
    }
}

impl vstd::std_specs::convert::FromSpecImpl<crate::lock::Error> for Error {
    open spec fn obeys_from_spec() -> bool {
        true
    }

    open spec fn from_spec(err: crate::lock::Error) -> Error {
        Error::Lock(err)
    }
}

} // verus!
