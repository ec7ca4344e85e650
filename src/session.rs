//! The DNS half of an update request: find the zone once, then replace the
//! record of each address family in turn, then sum up.
//!
//! The session decides; its caller sends what it asks for and hands back
//! what the server answered.

use vstd::prelude::*;
use crate::coordinator::{aggregate, overall, Outcome};
use crate::types::{is_root, is_zone_of, parent, trimmed, Domain};
use crate::update::{
    copy_domain, create_op, delete_op, AddressRecord, ReplaceStep, Replacement, UpdateOp, UpdateReply,
    NO_ERROR,
};
use crate::zone::{DnsError, SoaReply, ZoneSearch, ZoneStep, MAX_ATTEMPTS};

verus! {

/// Where a session stands.
#[derive(Clone, Copy, Debug, PartialEq, Eq, Structural)]
pub enum Stage {
    /// Looking for the zone of the name.
    Resolving,
    /// Replacing the record at `index`.
    Replacing,
    /// Ended.
    Finished,
}

/// What the server answered to the last message of a session.
#[derive(Clone, Debug)]
pub enum SessionEvent {
    Soa(SoaReply),
    Update(UpdateReply),
}

/// What a session asks for next.
#[derive(Debug)]
pub enum SessionAction {
    /// Send an SOA query for this name.
    QuerySoa(Domain),
    /// Send this update message.
    Send(UpdateOp),
    /// The request ended with this outcome.
    Finish(Outcome),
}

/// The state of the DNS half of one update request.
pub struct UpdateSession {
    pub stage: Stage,
    pub search: ZoneSearch,
    pub zone: Domain,
    pub records: Vec<AddressRecord>,
    pub index: usize,
    pub run: Option<Replacement>,
    pub results: Vec<Result<(), DnsError>>,
}

/// A replacement ended with `result`: the result is kept, and the session
/// sends the delete of the next record, or ends with the overall outcome
/// once every record had its turn.
pub open spec fn moves_on(
    before: UpdateSession,
    after: UpdateSession,
    r: SessionAction,
    result: Result<(), DnsError>,
) -> bool {
    &&& after.results@ == before.results@.push(result)
    &&& after.index == before.index + 1
    &&& after.zone == before.zone
    &&& if after.index < before.records@.len() {
        &&& after.stage == Stage::Replacing
        &&& r == SessionAction::Send(delete_op(before.zone, before.records@[after.index as int]))
    } else {
        &&& after.stage == Stage::Finished
        &&& r == SessionAction::Finish(overall(after.results@))
    }
}

/// The effect of an SOA reply while the zone is sought. An owner that
/// contains the name becomes the zone and the first record's delete is
/// sent; an owner that does not, a miss at the root, or a query that timed
/// out too often ends the request as a resolution failure; a miss elsewhere
/// moves one label up; a timeout resends the query.
pub open spec fn resolves(before: UpdateSession, after: UpdateSession, r: SessionAction, reply: SoaReply) -> bool {
    let s = before.search;
    match reply {
        SoaReply::Found(z) => if is_zone_of(z@, s.target@) {
            &&& after.stage == Stage::Replacing
            &&& after.zone == z
            &&& after.index == 0
            &&& after.results@ == before.results@
            &&& r == SessionAction::Send(delete_op(z, before.records@[0]))
        } else {
            after.stage == Stage::Finished && r == SessionAction::Finish(Outcome::ResolutionFailed)
        },
        SoaReply::Missing => if is_root(s.candidate@) {
            after.stage == Stage::Finished && r == SessionAction::Finish(Outcome::ResolutionFailed)
        } else {
            &&& after.stage == Stage::Resolving
            &&& after.search.candidate@ == parent(trimmed(s.candidate@))
            &&& after.search.attempts == 0
            &&& r is QuerySoa
            &&& r->QuerySoa_0@ == after.search.candidate@
        },
        SoaReply::Timeout => if s.attempts + 1 < MAX_ATTEMPTS {
            &&& after.stage == Stage::Resolving
            &&& after.search.candidate@ == s.candidate@
            &&& after.search.attempts == s.attempts + 1
            &&& r is QuerySoa
            &&& r->QuerySoa_0@ == s.candidate@
        } else {
            after.stage == Stage::Finished && r == SessionAction::Finish(Outcome::ResolutionFailed)
        },
    }
}

/// The effect of an answer to an update message, as the replacement under
/// way takes it: an error code ends the replacement with that error, a
/// success of the delete sends the create, a success of the create ends the
/// replacement as applied, and a timeout resends or, too often, ends it with
/// a transport error.
pub open spec fn replaces(before: UpdateSession, after: UpdateSession, r: SessionAction, reply: UpdateReply) -> bool {
    let rr = before.run->Some_0;
    let kept = after.stage == Stage::Replacing && after.index == before.index && after.results@
        == before.results@ && after.zone == before.zone;
    match reply {
        UpdateReply::Response(c) => if c != NO_ERROR {
            moves_on(
                before,
                after,
                r,
                Err(
                    if rr.creating {
                        DnsError::RecordCreate(c)
                    } else {
                        DnsError::RecordDelete(c)
                    },
                ),
            )
        } else if rr.creating {
            moves_on(before, after, r, Ok(()))
        } else {
            &&& kept
            &&& (after.run matches Some(n) && n.creating && n.attempts == 0 && n.zone == rr.zone
                && n.record == rr.record)
            &&& r == SessionAction::Send(create_op(rr.zone, rr.record))
        },
        UpdateReply::Timeout => if rr.attempts + 1 < MAX_ATTEMPTS {
            &&& kept
            &&& (after.run matches Some(n) && n.creating == rr.creating && n.attempts == rr.attempts + 1
                && n.zone == rr.zone && n.record == rr.record)
            &&& r == SessionAction::Send(rr.current_op())
        } else {
            moves_on(before, after, r, Err(DnsError::Transport))
        },
    }
}

impl UpdateSession {
    /// Between two replacements: the zone is found and the record at `index`
    /// is next.
    pub open spec fn between_records(&self) -> bool {
        &&& forall|i: int| 0 <= i < self.records@.len() ==> (#[trigger] self.records@[i]).wf()
        &&& self.results@.len() == self.index
        &&& self.index < self.records@.len()
        &&& self.stage == Stage::Replacing
        &&& is_zone_of(self.zone@, self.search.target@)
    }

    /// The session is well formed for its stage.
    pub open spec fn wf(&self) -> bool {
        &&& forall|i: int| 0 <= i < self.records@.len() ==> (#[trigger] self.records@[i]).wf()
        &&& self.results@.len() == self.index
        &&& self.index <= self.records@.len()
        &&& match self.stage {
            Stage::Resolving => {
                &&& self.search.wf()
                &&& !self.search.done
                &&& self.index == 0
                &&& self.records@.len() > 0
            },
            Stage::Replacing => {
                &&& self.index < self.records@.len()
                &&& is_zone_of(self.zone@, self.search.target@)
                &&& self.run matches Some(rr) && {
                    &&& rr.wf()
                    &&& !rr.done
                    &&& rr.zone == self.zone
                    &&& rr.record == self.records@[self.index as int]
                }
            },
            Stage::Finished => true,
        }
    }

    /// Whether the session waits on the answer to an update message.
    pub open spec fn awaits_update(&self) -> bool {
        self.stage == Stage::Replacing
    }

    /// Starts a session for the name and the records to write, all of that
    /// name. With no record to write it ends at once as applied.
    pub fn start(domain: &Domain, records: Vec<AddressRecord>) -> (r: (UpdateSession, SessionAction))
        requires
            forall|i: int| 0 <= i < records@.len() ==> (#[trigger] records@[i]).wf(),
        ensures
            r.0.wf(),
            r.0.search.target@ == domain@,
            r.0.records@ == records@,
            records@.len() == 0 ==> r.0.stage == Stage::Finished && r.1 == SessionAction::Finish(
                Outcome::Applied,
            ),
            records@.len() > 0 ==> r.0.stage == Stage::Resolving && r.1 is QuerySoa
                && r.1->QuerySoa_0@ == domain@,
    {
        let search = ZoneSearch::new(domain);
        let first = search.candidate();
        let stage = if records.len() == 0 {
            Stage::Finished
        } else {
            Stage::Resolving
        };
        let s = UpdateSession {
            stage,
            search,
            zone: copy_domain(domain),
            records,
            index: 0,
            run: None,
            results: Vec::new(),
        };
        if s.records.len() == 0 {
            (s, SessionAction::Finish(Outcome::Applied))
        } else {
            (s, SessionAction::QuerySoa(first))
        }
    }

    /// Starts the replacement of the record at `index`.
    fn begin_replacement(&mut self) -> (r: SessionAction)
        requires
            old(self).index < old(self).records@.len(),
            old(self).records@[old(self).index as int].wf(),
        ensures
            final(self).run matches Some(rr) && {
                &&& rr.wf()
                &&& !rr.done
                &&& !rr.creating
                &&& rr.attempts == 0
                &&& rr.zone == old(self).zone
                &&& rr.record == old(self).records@[old(self).index as int]
                &&& r == SessionAction::Send(rr.current_op())
            },
            final(self).stage == old(self).stage,
            final(self).search == old(self).search,
            final(self).zone == old(self).zone,
            final(self).records == old(self).records,
            final(self).index == old(self).index,
            final(self).results == old(self).results,
    {
        let record = self.records[self.index].duplicate();
        let run = Replacement::new(copy_domain(&self.zone), record);
        let msg = run.message();
        self.run = Some(run);
        SessionAction::Send(msg)
    }

    /// Records how the replacement under way ended and moves on to the next
    /// record, or ends the session once every record had its turn.
    fn record_result(&mut self, result: Result<(), DnsError>) -> (r: SessionAction)
        requires
            old(self).between_records(),
        ensures
            final(self).wf(),
            final(self).records == old(self).records,
            final(self).zone == old(self).zone,
            final(self).search.target@ == old(self).search.target@,
            moves_on(*old(self), *final(self), r, result),
            final(self).stage == Stage::Finished ==> final(self).results@.len() == final(self).records@.len(),
            final(self).stage != Stage::Finished ==> {
                &&& final(self).stage == Stage::Replacing
                &&& (final(self).run matches Some(rr) && r == SessionAction::Send(rr.current_op()))
            },
    {
        let n = self.records.len();
        assert(self.index < n);
        self.results.push(result);
        self.index = self.index + 1;
        if self.index < self.records.len() {
            self.begin_replacement()
        } else {
            self.stage = Stage::Finished;
            self.run = None;
            SessionAction::Finish(aggregate(&self.results))
        }
    }

    /// Takes the server's answer to the last message and says what to do
    /// next. The zone is accepted only where it contains the name; each
    /// record is replaced on its own, and a failure of one leaves the others
    /// as they ended. The session ends with the outcome of the first failure,
    /// or as applied.
    pub fn step(&mut self, event: SessionEvent) -> (r: SessionAction)
        requires
            old(self).wf(),
            old(self).stage != Stage::Finished,
            old(self).awaits_update() <==> event is Update,
        ensures
            final(self).wf(),
            final(self).records == old(self).records,
            final(self).search.target@ == old(self).search.target@,
            r is QuerySoa ==> final(self).stage == Stage::Resolving,
            r is Send ==> {
                &&& final(self).stage == Stage::Replacing
                &&& is_zone_of(final(self).zone@, final(self).search.target@)
                &&& (final(self).run matches Some(rr) && r == SessionAction::Send(rr.current_op()))
            },
            r is Finish <==> final(self).stage == Stage::Finished,
            old(self).stage == Stage::Resolving && r is Finish ==> r == SessionAction::Finish(
                Outcome::ResolutionFailed,
            ),
            old(self).stage == Stage::Replacing && r is Finish ==> {
                &&& final(self).results@.len() == final(self).records@.len()
                &&& r == SessionAction::Finish(overall(final(self).results@))
            },
            match event {
                SessionEvent::Soa(reply) => resolves(*old(self), *final(self), r, reply),
                SessionEvent::Update(reply) => replaces(*old(self), *final(self), r, reply),
            },
    {
        match event {
            SessionEvent::Soa(reply) => {
                match self.search.step(reply) {
                    ZoneStep::Query(n) => SessionAction::QuerySoa(n),
                    ZoneStep::Zone(z) => {
                        self.zone = z;
                        self.stage = Stage::Replacing;
                        self.begin_replacement()
                    },
                    ZoneStep::Failed(e) => {
                        self.stage = Stage::Finished;
                        proof {
                            assert(e == DnsError::Query || e == DnsError::NoZoneFound || e
                                == DnsError::ZoneMismatch);
                        }
                        SessionAction::Finish(Outcome::of_error(e))
                    },
                }
            },
            SessionEvent::Update(reply) => {
                let mut run = match self.run.take() {
                    Some(rr) => rr,
                    None => {
                        self.stage = Stage::Finished;
                        return SessionAction::Finish(Outcome::ProtocolFailed);
                    },
                };
                match run.step(reply) {
                    ReplaceStep::Send(op) => {
                        self.run = Some(run);
                        SessionAction::Send(op)
                    },
                    ReplaceStep::Applied => {
                        self.run = Some(run);
                        self.record_result(Ok(()))
                    },
                    ReplaceStep::Failed(e) => {
                        self.run = Some(run);
                        self.record_result(Err(e))
                    },
                }
            },
        }
    }
}

} // verus!
