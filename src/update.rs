//! Replacing an address record: the record set of the name and type is
//! deleted, then the one new record is created.

use vstd::prelude::*;
use crate::text::folded;
use crate::types::{trimmed, Domain};
use crate::zone::{DnsError, MAX_ATTEMPTS};

verus! {

/// The record types that hold an address.
#[derive(Clone, Copy, Debug, PartialEq, Eq, Structural)]
pub enum RecordType {
    A,
    AAAA,
}

/// An IP address: an IPv4 address as its 32 bits, an IPv6 address as its 128 bits.
#[derive(Clone, Copy, Debug, PartialEq, Eq, Structural)]
pub enum Address {
    V4(u32),
    V6(u128),
}

/// The record type that holds an address of this family.
pub open spec fn type_of(a: Address) -> RecordType {
    match a {
        Address::V4(_) => RecordType::A,
        Address::V6(_) => RecordType::AAAA,
    }
}

impl Address {
    /// The record type that holds this address.
    pub fn record_type(&self) -> (r: RecordType)
        ensures
            r == type_of(*self),
    {
        match self {
            Address::V4(_) => RecordType::A,
            Address::V6(_) => RecordType::AAAA,
        }
    }
}

/// An address record whose type agrees with its address.
#[derive(Debug)]
pub struct AddressRecord {
    pub name: Domain,
    pub rtype: RecordType,
    pub ttl: u32,
    pub address: Address,
}

impl AddressRecord {
    /// The type agrees with the address family.
    pub open spec fn wf(&self) -> bool {
        self.rtype == type_of(self.address)
    }

    /// Builds a record, or `None` where the type and the address family disagree.
    pub fn new(name: Domain, rtype: RecordType, ttl: u32, address: Address) -> (r: Option<
        AddressRecord,
    >)
        ensures
            rtype == type_of(address) <==> r is Some,
            r matches Some(rec) ==> rec.wf() && rec.name == name && rec.rtype == rtype && rec.ttl
                == ttl && rec.address == address,
    {
        if address.record_type() == rtype {
            Some(AddressRecord { name, rtype, ttl, address })
        } else {
            None
        }
    }
}

impl AddressRecord {
    /// A copy of the record.
    pub fn duplicate(&self) -> (r: AddressRecord)
        ensures
            r == *self,
    {
        AddressRecord {
            name: copy_domain(&self.name),
            rtype: self.rtype,
            ttl: self.ttl,
            address: self.address,
        }
    }
}

/// One dynamic update message sent to a zone's server.
#[derive(Debug)]
pub enum UpdateOp {
    /// Delete every record of this name and type, whatever its data.
    DeleteRrset { zone: Domain, name: Domain, rtype: RecordType },
    /// Add this record.
    Create { zone: Domain, name: Domain, rtype: RecordType, ttl: u32, address: Address },
}

/// Identifies a record set: the folded name and the type.
pub type RrsetKey = (Seq<u32>, RecordType);

/// The key of the record set of a name and a type.
pub open spec fn key_of(name: Seq<char>, t: RecordType) -> RrsetKey {
    (folded(trimmed(name)), t)
}

/// The address record sets of a zone, as far as these updates see them.
pub type ZoneData = Map<RrsetKey, Set<Address>>;

/// The effect of one update message on the zone's data.
pub open spec fn apply_op(s: ZoneData, op: UpdateOp) -> ZoneData {
    match op {
        UpdateOp::DeleteRrset { name, rtype, .. } => s.remove(key_of(name@, rtype)),
        UpdateOp::Create { name, rtype, address, .. } => {
            let k = key_of(name@, rtype);
            if s.contains_key(k) {
                s.insert(k, s[k].insert(address))
            } else {
                s.insert(k, set![address])
            }
        },
    }
}

/// The effect of a sequence of update messages, in order.
pub open spec fn apply_ops(s: ZoneData, ops: Seq<UpdateOp>) -> ZoneData
    decreases ops.len(),
{
    if ops.len() == 0 {
        s
    } else {
        apply_ops(apply_op(s, ops[0]), ops.drop_first())
    }
}

/// The delete message of a replacement.
pub open spec fn delete_op(zone: Domain, rec: AddressRecord) -> UpdateOp {
    UpdateOp::DeleteRrset { zone, name: rec.name, rtype: rec.rtype }
}

/// The create message of a replacement.
pub open spec fn create_op(zone: Domain, rec: AddressRecord) -> UpdateOp {
    UpdateOp::Create {
        zone,
        name: rec.name,
        rtype: rec.rtype,
        ttl: rec.ttl,
        address: rec.address,
    }
}

/// The messages of a replacement: delete the record set, then create the record.
pub open spec fn replace_plan(zone: Domain, rec: AddressRecord) -> Seq<UpdateOp> {
    seq![delete_op(zone, rec), create_op(zone, rec)]
}

/// A full replacement leaves exactly the new address in the record set and
/// changes no other record set.
pub proof fn replace_result(s: ZoneData, zone: Domain, rec: AddressRecord)
    ensures
        apply_ops(s, replace_plan(zone, rec)) == s.insert(
            key_of(rec.name@, rec.rtype),
            set![rec.address],
        ),
{
    let p = replace_plan(zone, rec);
    let k = key_of(rec.name@, rec.rtype);
    assert(p.drop_first().drop_first() =~= Seq::<UpdateOp>::empty());
    assert(p.drop_first()[0] == create_op(zone, rec));
    let s1 = apply_op(s, p[0]);
    let s2 = apply_op(s1, p.drop_first()[0]);
    assert(apply_ops(s2, p.drop_first().drop_first()) == s2);
    assert(apply_ops(s1, p.drop_first()) == s2);
    assert(apply_ops(s, p) == s2);
    assert(s1 == s.remove(k));
    assert(apply_ops(s, p) =~= s.insert(k, set![rec.address]));
}

/// Replacing twice in a row leaves the same record sets as replacing once.
pub proof fn replace_idempotent(s: ZoneData, zone: Domain, rec: AddressRecord)
    ensures
        apply_ops(apply_ops(s, replace_plan(zone, rec)), replace_plan(zone, rec)) == apply_ops(
            s,
            replace_plan(zone, rec),
        ),
{
    let k = key_of(rec.name@, rec.rtype);
    replace_result(s, zone, rec);
    replace_result(apply_ops(s, replace_plan(zone, rec)), zone, rec);
    assert(s.insert(k, set![rec.address]).insert(k, set![rec.address]) =~= s.insert(
        k,
        set![rec.address],
    ));
}

/// A replacement retried after its delete went through, and its create
/// failed or never ran, ends as a single successful replacement does.
pub proof fn replace_retry_converges(s: ZoneData, zone: Domain, rec: AddressRecord)
    ensures
        apply_ops(apply_op(s, delete_op(zone, rec)), replace_plan(zone, rec)) == apply_ops(
            s,
            replace_plan(zone, rec),
        ),
{
    let k = key_of(rec.name@, rec.rtype);
    replace_result(s, zone, rec);
    replace_result(apply_op(s, delete_op(zone, rec)), zone, rec);
    assert(s.remove(k).insert(k, set![rec.address]) =~= s.insert(k, set![rec.address]));
}

/// The response code of a successful update.
pub const NO_ERROR: u16 = 0;

/// What the server answered to an update message.
#[derive(Clone, Copy, Debug, PartialEq, Eq, Structural)]
pub enum UpdateReply {
    /// A response with this response code.
    Response(u16),
    /// No response within the time allowed.
    Timeout,
}

/// What a replacement asks for next.
#[derive(Debug)]
pub enum ReplaceStep {
    /// Send this message.
    Send(UpdateOp),
    /// Both messages went through: the record is in place.
    Applied,
    /// The replacement ended with this error.
    Failed(DnsError),
}

/// A copy of a name.
pub(crate) fn copy_domain(d: &Domain) -> (r: Domain)
    ensures
        r == *d,
{
    Domain(d.0.clone())
}

/// The state of one replacement of an address record.
#[derive(Debug)]
pub struct Replacement {
    /// The zone whose server receives the messages.
    pub zone: Domain,
    /// The record that is to stand alone in its record set.
    pub record: AddressRecord,
    /// Whether the delete went through and the create is under way.
    pub creating: bool,
    /// How many times the message under way timed out.
    pub attempts: u32,
    /// Whether the replacement has ended.
    pub done: bool,
}

impl Replacement {
    /// The replacement is well formed: the record agrees with its type, and
    /// retries stay below the limit.
    pub open spec fn wf(&self) -> bool {
        self.record.wf() && self.attempts < MAX_ATTEMPTS
    }

    /// The message under way.
    pub open spec fn current_op(&self) -> UpdateOp {
        if self.creating {
            create_op(self.zone, self.record)
        } else {
            delete_op(self.zone, self.record)
        }
    }

    /// Starts a replacement with its delete message.
    pub fn new(zone: Domain, record: AddressRecord) -> (r: Replacement)
        requires
            record.wf(),
        ensures
            r.wf(),
            r.zone == zone,
            r.record == record,
            !r.creating,
            r.attempts == 0,
            !r.done,
            r.current_op() == replace_plan(zone, record)[0],
    {
        Replacement { zone, record, creating: false, attempts: 0, done: false }
    }

    /// The message to send now.
    pub fn message(&self) -> (r: UpdateOp)
        ensures
            r == self.current_op(),
    {
        let zone = copy_domain(&self.zone);
        let name = copy_domain(&self.record.name);
        if self.creating {
            UpdateOp::Create {
                zone,
                name,
                rtype: self.record.rtype,
                ttl: self.record.ttl,
                address: self.record.address,
            }
        } else {
            UpdateOp::DeleteRrset { zone, name, rtype: self.record.rtype }
        }
    }

    /// Takes the server's answer to the message under way and says what to
    /// do next. A timeout resends the same message a bounded number of times;
    /// an error response is not retried.
    pub fn step(&mut self, reply: UpdateReply) -> (r: ReplaceStep)
        requires
            old(self).wf(),
            !old(self).done,
        ensures
            final(self).wf(),
            final(self).zone == old(self).zone,
            final(self).record == old(self).record,
            match reply {
                UpdateReply::Response(c) => if c != NO_ERROR {
                    &&& final(self).done
                    &&& r == ReplaceStep::Failed(
                        if old(self).creating {
                            DnsError::RecordCreate(c)
                        } else {
                            DnsError::RecordDelete(c)
                        },
                    )
                } else if old(self).creating {
                    final(self).done && r == ReplaceStep::Applied
                } else {
                    &&& !final(self).done
                    &&& final(self).creating
                    &&& final(self).attempts == 0
                    &&& r == ReplaceStep::Send(create_op(old(self).zone, old(self).record))
                },
                UpdateReply::Timeout => if old(self).attempts + 1 < MAX_ATTEMPTS {
                    &&& !final(self).done
                    &&& final(self).creating == old(self).creating
                    &&& final(self).attempts == old(self).attempts + 1
                    &&& r == ReplaceStep::Send(old(self).current_op())
                } else {
                    final(self).done && r == ReplaceStep::Failed(DnsError::Transport)
                },
            },
    {
        match reply {
            UpdateReply::Response(c) => {
                if c != NO_ERROR {
                    self.done = true;
                    if self.creating {
                        ReplaceStep::Failed(DnsError::RecordCreate(c))
                    } else {
                        ReplaceStep::Failed(DnsError::RecordDelete(c))
                    }
                } else if self.creating {
                    self.done = true;
                    ReplaceStep::Applied
                } else {
                    self.creating = true;
                    self.attempts = 0;
                    ReplaceStep::Send(self.message())
                }
            },
            UpdateReply::Timeout => {
                if self.attempts + 1 < MAX_ATTEMPTS {
                    self.attempts = self.attempts + 1;
                    ReplaceStep::Send(self.message())
                } else {
                    self.done = true;
                    ReplaceStep::Failed(DnsError::Transport)
                }
            },
        }
    }
}

} // verus!
