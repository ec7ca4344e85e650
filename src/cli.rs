//! The command-line options of the server.

use vstd::prelude::*;

verus! {

/// Where the configuration file and the lock file are.
#[derive(Clone, Debug)]
pub struct Opt {
    pub config: String,
    pub lock: String,
}

} // verus!
