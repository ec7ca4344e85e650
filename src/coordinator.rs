//! The update request as a whole: validation, then authentication, then
//! authorization, then one replacement per address family.

use vstd::prelude::*;
use crate::access::{authenticated, authorized};
use crate::addr::{ipv4_of, ipv6_of, parse_ipv4, parse_ipv6};
use crate::config::{User, Users};
use crate::creds::Credentials;
use crate::types::{valid_name, Domain};
use crate::update::{type_of, Address, AddressRecord};
use crate::zone::DnsError;

verus! {

/// How an update request ended.
#[derive(Clone, Copy, Debug, PartialEq, Eq, Structural)]
pub enum Outcome {
    /// Every requested record is in place.
    Applied,
    /// No credentials, an unknown user or a wrong password.
    AuthenticationFailed,
    /// The user may not update the name.
    AuthorizationFailed,
    /// A missing or malformed address.
    ValidationFailed,
    /// The zone of the name could not be found.
    ResolutionFailed,
    /// The zone's server refused a delete or a create.
    ProtocolFailed,
    /// The zone's server did not answer an update in time.
    TransportFailed,
}

/// The HTTP status that reports an outcome.
pub open spec fn status_of(o: Outcome) -> u16 {
    match o {
        Outcome::Applied => 200,
        Outcome::AuthenticationFailed => 401,
        Outcome::AuthorizationFailed => 403,
        Outcome::ValidationFailed => 400,
        Outcome::ResolutionFailed => 502,
        Outcome::ProtocolFailed => 502,
        Outcome::TransportFailed => 504,
    }
}

/// The outcome that reports a DNS error.
pub open spec fn error_outcome(e: DnsError) -> Outcome {
    match e {
        DnsError::Query | DnsError::NoZoneFound | DnsError::ZoneMismatch => Outcome::ResolutionFailed,
        DnsError::RecordDelete(_) | DnsError::RecordCreate(_) => Outcome::ProtocolFailed,
        DnsError::Transport => Outcome::TransportFailed,
    }
}

impl Outcome {
    /// The HTTP status that reports the outcome.
    pub fn status(&self) -> (r: u16)
        ensures
            r == status_of(*self),
    {
        match self {
            Outcome::Applied => 200,
            Outcome::AuthenticationFailed => 401,
            Outcome::AuthorizationFailed => 403,
            Outcome::ValidationFailed => 400,
            Outcome::ResolutionFailed => 502,
            Outcome::ProtocolFailed => 502,
            Outcome::TransportFailed => 504,
        }
    }

    /// The outcome that reports a DNS error.
    pub fn of_error(e: DnsError) -> (r: Outcome)
        ensures
            r == error_outcome(e),
    {
        match e {
            DnsError::Query | DnsError::NoZoneFound | DnsError::ZoneMismatch => Outcome::ResolutionFailed,
            DnsError::RecordDelete(_) | DnsError::RecordCreate(_) => Outcome::ProtocolFailed,
            DnsError::Transport => Outcome::TransportFailed,
        }
    }
}

/// A request to point a name at new addresses.
#[derive(Clone, Debug)]
pub struct UpdateRequest {
    /// The name to update.
    pub domain: Domain,
    /// The new IPv4 address, as the client wrote it.
    pub ipv4: Option<String>,
    /// The new IPv6 address, as the client wrote it.
    pub ipv6: Option<String>,
}

/// The addresses of one optional field: none where it is absent, `None`
/// where it does not read as an address of its family.
pub open spec fn field_addresses(text: Option<String>, v6: bool) -> Option<Seq<Address>> {
    match text {
        None => Some(Seq::empty()),
        Some(t) => if v6 {
            match ipv6_of(t@) {
                Some(a) => Some(seq![Address::V6(a)]),
                None => None,
            }
        } else {
            match ipv4_of(t@) {
                Some(a) => Some(seq![Address::V4(a)]),
                None => None,
            }
        },
    }
}

/// The addresses a request asks for, IPv4 first; `None` where it is not
/// valid: a name that cannot be updated, no address given, or one that does
/// not read as its family.
pub open spec fn requested(req: UpdateRequest) -> Option<Seq<Address>> {
    match (field_addresses(req.ipv4, false), field_addresses(req.ipv6, true)) {
        (Some(a), Some(b)) => if a.len() + b.len() > 0 && valid_name(req.domain@) {
            Some(a + b)
        } else {
            None
        },
        _ => None,
    }
}

/// The decision on a request, before any DNS traffic: the addresses to
/// write, or the outcome that ends it. Validation comes first, then
/// authentication, and authorization only for an authenticated user.
pub open spec fn decide(users: Map<Seq<char>, User>, creds: Option<Credentials>, req: UpdateRequest) -> Result<Seq<Address>, Outcome> {
    match requested(req) {
        None => Err(Outcome::ValidationFailed),
        Some(addrs) => match creds {
            None => Err(Outcome::AuthenticationFailed),
            Some(c) => if !authenticated(users, c.user@, c.pw@) {
                Err(Outcome::AuthenticationFailed)
            } else if !authorized(users, c.user@, req.domain@) {
                Err(Outcome::AuthorizationFailed)
            } else {
                Ok(addrs)
            },
        },
    }
}

/// A malformed or missing address ends a request as a validation failure,
/// whoever sent it: no record is planned, so no DNS message is sent.
pub proof fn validation_precedes_access(users: Map<Seq<char>, User>, creds: Option<Credentials>, req: UpdateRequest)
    requires
        requested(req) is None,
    ensures
        decide(users, creds, req) == Err::<Seq<Address>, Outcome>(Outcome::ValidationFailed),
{
}

/// Where the credentials do not authenticate, the decision does not depend
/// on anyone's authorized names: two tables that agree on users and
/// passwords decide alike.
pub proof fn authorization_unused_without_authentication(
    u1: Map<Seq<char>, User>,
    u2: Map<Seq<char>, User>,
    creds: Option<Credentials>,
    req: UpdateRequest,
)
    requires
        u1.dom() == u2.dom(),
        forall|k: Seq<char>| u1.contains_key(k) ==> u1[k].pw == u2[k].pw,
        match creds {
            None => true,
            Some(c) => !authenticated(u1, c.user@, c.pw@),
        },
    ensures
        decide(u1, creds, req) == decide(u2, creds, req),
        requested(req) is Some ==> decide(u1, creds, req) == Err::<Seq<Address>, Outcome>(Outcome::AuthenticationFailed),
{
    match creds {
        None => {},
        Some(c) => {
            if u1.contains_key(c.user@) {
                assert(u2.contains_key(c.user@));
            } else {
                assert(!u2.contains_key(c.user@));
            }
        },
    }
}

/// The addresses of one optional field, read by its family's parser.
fn read_field(text: &Option<String>, v6: bool) -> (r: Option<Vec<Address>>)
    ensures
        match field_addresses(*text, v6) {
            Some(a) => r is Some && r->Some_0@ == a,
            None => r is None,
        },
{
    match text {
        None => {
            let r: Vec<Address> = Vec::new();
            assert(r@ =~= Seq::<Address>::empty());
            Some(r)
        },
        Some(t) => {
            let a = if v6 {
                match parse_ipv6(t.as_str()) {
                    Some(x) => Address::V6(x),
                    None => return None,
                }
            } else {
                match parse_ipv4(t.as_str()) {
                    Some(x) => Address::V4(x),
                    None => return None,
                }
            };
            let mut r: Vec<Address> = Vec::new();
            r.push(a);
            assert(r@ =~= seq![a]);
            Some(r)
        },
    }
}

/// Decides on a request before any DNS traffic: the records to write, one
/// per address given (IPv4 first), each with the name of the request and
/// the given TTL; or the outcome that ends the request.
pub fn screen(users: &Users, creds: &Option<Credentials>, req: &UpdateRequest, ttl: u32) -> (r: Result<Vec<AddressRecord>, Outcome>)
    requires
        users.wf(),
    ensures
        match decide(users@, *creds, *req) {
            Err(o) => r == Err::<Vec<AddressRecord>, Outcome>(o),
            Ok(addrs) => {
                &&& r is Ok
                &&& r->Ok_0@.len() == addrs.len()
                &&& forall|i: int| 0 <= i < addrs.len() ==> {
                    let rec = #[trigger] r->Ok_0@[i];
                    &&& rec.wf()
                    &&& rec.name@ == req.domain@
                    &&& rec.ttl == ttl
                    &&& rec.address == addrs[i]
                    &&& rec.rtype == type_of(addrs[i])
                }
            },
        },
{
    let a = match read_field(&req.ipv4, false) {
        Some(a) => a,
        None => return Err(Outcome::ValidationFailed),
    };
    let b = match read_field(&req.ipv6, true) {
        Some(b) => b,
        None => return Err(Outcome::ValidationFailed),
    };
    if a.len() == 0 && b.len() == 0 {
        return Err(Outcome::ValidationFailed);
    }
    if !req.domain.is_valid() {
        return Err(Outcome::ValidationFailed);
    }
    let c = match creds {
        Some(c) => c,
        None => return Err(Outcome::AuthenticationFailed),
    };
    if !users.authenticate(c.user.as_str(), c.pw.as_str()) {
        return Err(Outcome::AuthenticationFailed);
    }
    if !users.authorize(c.user.as_str(), &req.domain) {
        return Err(Outcome::AuthorizationFailed);
    }
    let ghost addrs = a@ + b@;
    let mut records: Vec<AddressRecord> = Vec::new();
    let mut i: usize = 0;
    while i < a.len() + b.len()
        invariant
            a@.len() + b@.len() < usize::MAX,
            addrs == a@ + b@,
            0 <= i <= addrs.len(),
            records@.len() == i,
            forall|k: int| 0 <= k < i ==> {
                let rec = #[trigger] records@[k];
                &&& rec.wf()
                &&& rec.name@ == req.domain@
                &&& rec.ttl == ttl
                &&& rec.address == addrs[k]
                &&& rec.rtype == type_of(addrs[k])
            },
        decreases addrs.len() - i,
    {
        let address = if i < a.len() {
            a[i]
        } else {
            b[i - a.len()]
        };
        let rtype = address.record_type();
        let name = Domain(req.domain.0.clone());
        records.push(AddressRecord { name, rtype, ttl, address });
        i = i + 1;
    }
    Ok(records)
}

/// The outcome of a request whose replacements ended with these results:
/// the first failure decides, and all must succeed for `Applied`.
pub open spec fn overall(results: Seq<Result<(), DnsError>>) -> Outcome
    decreases results.len(),
{
    if results.len() == 0 {
        Outcome::Applied
    } else {
        match results[0] {
            Err(e) => error_outcome(e),
            Ok(()) => overall(results.drop_first()),
        }
    }
}

/// A request is applied exactly when every one of its replacements
/// succeeded; otherwise the first failure names the outcome.
pub proof fn applied_iff_all_succeeded(results: Seq<Result<(), DnsError>>)
    ensures
        overall(results) == Outcome::Applied <==> forall|i: int|
            0 <= i < results.len() ==> (#[trigger] results[i]) is Ok,
        (exists|i: int| 0 <= i < results.len() && (#[trigger] results[i]) is Err) ==> overall(results)
            != Outcome::Applied,
    decreases results.len(),
{
    if results.len() > 0 {
        let t = results.drop_first();
        applied_iff_all_succeeded(t);
        assert forall|i: int| 0 < i < results.len() implies results[i] == t[i - 1] by {}
        match results[0] {
            Err(e) => {
                assert(error_outcome(e) != Outcome::Applied);
            },
            Ok(()) => {
                if forall|i: int| 0 <= i < t.len() ==> (#[trigger] t[i]) is Ok {
                    assert forall|i: int| 0 <= i < results.len() implies (#[trigger] results[i]) is Ok by {
                        if i > 0 {
                            assert(t[i - 1] is Ok);
                        }
                    }
                }
            },
        }
    }
}

/// Sums up the results of the replacements of one request. A family that
/// succeeded stays in place when a sibling family fails.
pub fn aggregate(results: &Vec<Result<(), DnsError>>) -> (r: Outcome)
    ensures
        r == overall(results@),
        r == Outcome::Applied <==> forall|i: int| 0 <= i < results@.len() ==> (#[trigger] results@[i]) is Ok,
{
    let mut i: usize = results.len();
    let mut acc = Outcome::Applied;
    proof {
        assert(results@.skip(i as int) =~= Seq::<Result<(), DnsError>>::empty());
    }
    while i > 0
        invariant
            0 <= i <= results@.len(),
            acc == overall(results@.skip(i as int)),
            acc == Outcome::Applied <==> forall|k: int| i <= k < results@.len() ==> (#[trigger] results@[k]) is Ok,
        decreases i,
    {
        i = i - 1;
        proof {
            assert(results@.skip(i as int).drop_first() =~= results@.skip(i + 1));
            assert(results@.skip(i as int)[0] == results@[i as int]);
        }
        match &results[i] {
            Err(e) => {
                acc = Outcome::of_error(*e);
                proof {
                    assert(error_outcome(*e) != Outcome::Applied);
                }
            },
            Ok(()) => {},
        }
    }
    proof {
        assert(results@.skip(0) =~= results@);
    }
    acc
}

} // verus!
