//! Zone discovery: the walk from a name towards the root until a server
//! reports the SOA record that owns it.
//!
//! The walk is a state machine: the caller sends the query that a step asks
//! for and hands the reply to the next step.

use vstd::prelude::*;
use crate::text::string_of;
use crate::types::{is_root, is_zone_of, parent, parent_chars, trim_dot, trimmed, Domain};

verus! {

/// How many times one query is sent before the walk gives up on a timeout.
pub const MAX_ATTEMPTS: u32 = 3;

/// The wait in milliseconds before the next try after `timeouts` timeouts in
/// a row: 100 ms, doubled for each further timeout, at most 1.6 s.
pub open spec fn backoff_spec(timeouts: u32) -> u64 {
    if timeouts == 0 {
        0
    } else if timeouts == 1 {
        100
    } else if timeouts == 2 {
        200
    } else if timeouts == 3 {
        400
    } else if timeouts == 4 {
        800
    } else {
        1600
    }
}

/// The wait before the next try after `timeouts` timeouts in a row.
pub fn backoff_millis(timeouts: u32) -> (r: u64)
    ensures
        r == backoff_spec(timeouts),
{
    let mut r: u64 = 0;
    if timeouts > 0 {
        r = 100;
        let mut i: u32 = 1;
        while i < timeouts && i < 5
            invariant
                1 <= i <= 5,
                i <= timeouts,
                r == backoff_spec(i),
            decreases 5 - i,
        {
            r = r * 2;
            i = i + 1;
        }
    }
    r
}

/// The ways in which a DNS operation fails.
#[derive(Clone, Copy, Debug, PartialEq, Eq, Structural)]
pub enum DnsError {
    /// Every attempt of an SOA query timed out.
    Query,
    /// No SOA record was found up to and including the root.
    NoZoneFound,
    /// The server named an SOA owner that does not contain the name.
    ZoneMismatch,
    /// The server refused to delete the record set, with this response code.
    RecordDelete(u16),
    /// The server refused to create the record, with this response code.
    RecordCreate(u16),
    /// Every attempt of an update message timed out.
    Transport,
}

/// What the server answered to an SOA query.
#[derive(Clone, Debug)]
pub enum SoaReply {
    /// An SOA record, in the answer or authority section, owned by this name.
    Found(Domain),
    /// No SOA record in the reply.
    Missing,
    /// No reply within the time allowed.
    Timeout,
}

/// What the walk asks for next.
#[derive(Clone, Debug)]
pub enum ZoneStep {
    /// Send an SOA query for this name.
    Query(Domain),
    /// The walk ended: this is the zone.
    Zone(Domain),
    /// The walk ended without a zone.
    Failed(DnsError),
}

/// The state of one zone discovery.
pub struct ZoneSearch {
    /// The name whose zone is sought.
    pub target: Vec<char>,
    /// The name queried last.
    pub candidate: Vec<char>,
    /// How many times the last query timed out.
    pub attempts: u32,
    /// Whether the walk has ended.
    pub done: bool,
}

impl ZoneSearch {
    /// The search is well formed: retries stay below the limit.
    pub open spec fn wf(&self) -> bool {
        self.attempts < MAX_ATTEMPTS
    }

    /// A bound on the number of queries still to come.
    pub open spec fn measure(&self) -> nat {
        (self.candidate@.len() * MAX_ATTEMPTS + (MAX_ATTEMPTS - self.attempts)) as nat
    }

    /// Starts the walk at the name itself.
    pub fn new(name: &Domain) -> (r: ZoneSearch)
        ensures
            r.wf(),
            r.target@ == name@,
            r.candidate@ == name@,
            r.attempts == 0,
            !r.done,
    {
        let target = name.chars();
        let candidate = name.chars();
        ZoneSearch { target, candidate, attempts: 0, done: false }
    }

    /// The name to query now.
    pub fn candidate(&self) -> (r: Domain)
        ensures
            r@ == self.candidate@,
    {
        Domain(string_of(self.candidate.as_slice()))
    }

    /// Takes the reply to the last query and says what to do next.
    ///
    /// An SOA owner is accepted only where it contains the name sought; a
    /// miss moves one label up, and a miss at the root ends the walk.
    pub fn step(&mut self, reply: SoaReply) -> (r: ZoneStep)
        requires
            old(self).wf(),
            !old(self).done,
        ensures
            final(self).wf(),
            final(self).target@ == old(self).target@,
            match reply {
                SoaReply::Found(z) => {
                    &&& final(self).done
                    &&& if is_zone_of(z@, old(self).target@) {
                        r == ZoneStep::Zone(z)
                    } else {
                        r == ZoneStep::Failed(DnsError::ZoneMismatch)
                    }
                },
                SoaReply::Missing => if is_root(old(self).candidate@) {
                    final(self).done && r == ZoneStep::Failed(DnsError::NoZoneFound)
                } else {
                    &&& !final(self).done
                    &&& final(self).candidate@ == parent(trimmed(old(self).candidate@))
                    &&& final(self).attempts == 0
                    &&& r is Query
                    &&& r->Query_0@ == final(self).candidate@
                },
                SoaReply::Timeout => if old(self).attempts + 1 < MAX_ATTEMPTS {
                    &&& !final(self).done
                    &&& final(self).candidate@ == old(self).candidate@
                    &&& final(self).attempts == old(self).attempts + 1
                    &&& r is Query
                    &&& r->Query_0@ == old(self).candidate@
                } else {
                    final(self).done && r == ZoneStep::Failed(DnsError::Query)
                },
            },
            r is Query ==> final(self).measure() < old(self).measure(),
    {
        match reply {
            SoaReply::Found(z) => {
                self.done = true;
                let owner = z.chars();
                if crate::types::zone_contains(&owner, &self.target) {
                    ZoneStep::Zone(z)
                } else {
                    ZoneStep::Failed(DnsError::ZoneMismatch)
                }
            },
            SoaReply::Missing => {
                let t = trim_dot(&self.candidate);
                if t.len() == 0 {
                    self.done = true;
                    ZoneStep::Failed(DnsError::NoZoneFound)
                } else {
                    let p = parent_chars(&t);
                    proof {
                        crate::types::lemma_parent_is_suffix(t@);
                        assert(p@.len() < t@.len());
                        assert(t@.len() <= old(self).candidate@.len());
                        let a = p@.len();
                        let b = old(self).candidate@.len();
                        assert(a * MAX_ATTEMPTS + MAX_ATTEMPTS < b * MAX_ATTEMPTS + 1) by (nonlinear_arith)
                            requires
                                a < b,
                                MAX_ATTEMPTS == 3,
                        ;
                    }
                    self.candidate = p;
                    self.attempts = 0;
                    ZoneStep::Query(self.candidate())
                }
            },
            SoaReply::Timeout => {
                if self.attempts + 1 < MAX_ATTEMPTS {
                    self.attempts = self.attempts + 1;
                    ZoneStep::Query(self.candidate())
                } else {
                    self.done = true;
                    ZoneStep::Failed(DnsError::Query)
                }
            },
        }
    }
}

} // verus!
