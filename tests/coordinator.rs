use dynonym::config::Users;
use dynonym::coordinator::{aggregate, screen, Outcome, UpdateRequest};
use dynonym::creds::Credentials;
use dynonym::http::{bad_request, challenge, forbidden, unauthorized};
use dynonym::types::Domain;
use dynonym::session::{SessionAction, SessionEvent, UpdateSession};
use dynonym::update::{Address, AddressRecord, RecordType, UpdateOp, UpdateReply};
use dynonym::zone::{DnsError, SoaReply};

fn d(s: &str) -> Domain {
    Domain(s.to_string())
}

fn alice_table() -> Users {
    let mut users = Users::new();
    users.add("alice", "secret").unwrap();
    users.grant("alice", d("home.example.org")).unwrap();
    users
}

fn request(domain: &str, ipv4: Option<&str>, ipv6: Option<&str>) -> UpdateRequest {
    UpdateRequest {
        domain: d(domain),
        ipv4: ipv4.map(|s| s.to_string()),
        ipv6: ipv6.map(|s| s.to_string()),
    }
}

/// A zone server that counts every message it is sent.
struct Server {
    zone: String,
    records: Vec<(String, RecordType, Address)>,
    calls: usize,
}

impl Server {
    fn soa(&mut self, name: &Domain) -> SoaReply {
        self.calls += 1;
        if name.0 == self.zone {
            SoaReply::Found(d(&self.zone))
        } else {
            SoaReply::Missing
        }
    }

    fn send(&mut self, op: &UpdateOp) -> UpdateReply {
        self.calls += 1;
        match op {
            UpdateOp::DeleteRrset { name, rtype, .. } => {
                self.records.retain(|(n, t, _)| !(n == &name.0 && t == rtype))
            }
            UpdateOp::Create { name, rtype, address, .. } => {
                self.records.push((name.0.clone(), *rtype, *address))
            }
        }
        UpdateReply::Response(0)
    }

    fn query(&self, name: &str, rtype: RecordType) -> Vec<Address> {
        self.records.iter().filter(|(n, t, _)| n == name && *t == rtype).map(|(_, _, a)| *a).collect()
    }
}

/// Runs a whole request against the server and returns the HTTP status.
fn handle(server: &mut Server, users: &Users, header: &str, req: &UpdateRequest) -> u16 {
    let creds = Credentials::from_header(header);
    let records = match screen(users, &creds, req, 60) {
        Ok(records) => records,
        Err(outcome) => return outcome.status(),
    };
    let (mut session, mut action) = UpdateSession::start(&req.domain, records);
    loop {
        action = match action {
            SessionAction::QuerySoa(name) => session.step(SessionEvent::Soa(server.soa(&name))),
            SessionAction::Send(op) => session.step(SessionEvent::Update(server.send(&op))),
            SessionAction::Finish(outcome) => return outcome.status(),
        };
    }
}

fn server() -> Server {
    Server { zone: "example.org".to_string(), records: Vec::new(), calls: 0 }
}

#[test]
fn scenario_correct_credentials_apply() {
    let users = alice_table();
    let mut s = server();
    let req = request("home.example.org", Some("1.2.3.4"), None);
    assert_eq!(handle(&mut s, &users, "Basic YWxpY2U6c2VjcmV0", &req), 200);
    assert_eq!(s.query("home.example.org", RecordType::A), vec![Address::V4(16909060)]);
}

#[test]
fn scenario_wrong_password_is_401_with_challenge() {
    let users = alice_table();
    let mut s = server();
    let req = request("home.example.org", Some("1.2.3.4"), None);
    assert_eq!(handle(&mut s, &users, "Basic YWxpY2U6d3JvbmctcGFzc3dvcmQ=", &req), 401);
    assert_eq!(challenge(), "Basic realm=\"dynonym\"");
    assert_eq!(unauthorized(), "401 Unauthorized");
    assert_eq!(s.calls, 0);
}

#[test]
fn scenario_unauthorized_name_is_403() {
    let users = alice_table();
    let mut s = server();
    let req = request("other.example.org", Some("1.2.3.4"), None);
    assert_eq!(handle(&mut s, &users, "Basic YWxpY2U6c2VjcmV0", &req), 403);
    assert_eq!(forbidden(), "403 Forbidden");
    assert_eq!(s.calls, 0);
}

#[test]
fn scenario_malformed_address_is_400_without_dns() {
    let users = alice_table();
    let mut s = server();
    let req = request("home.example.org", Some("not-an-ip"), None);
    assert_eq!(handle(&mut s, &users, "Basic YWxpY2U6c2VjcmV0", &req), 400);
    assert_eq!(bad_request(), "400 Bad Request");
    assert_eq!(s.calls, 0);
}

#[test]
fn ipv6_literal_in_ipv4_field_fails_validation() {
    let users = alice_table();
    let creds = Credentials::from_header("Basic YWxpY2U6c2VjcmV0");
    let req = request("home.example.org", Some("::1"), None);
    assert!(matches!(screen(&users, &creds, &req, 60), Err(Outcome::ValidationFailed)));
    let req = request("home.example.org", None, Some("1.2.3.4"));
    assert!(matches!(screen(&users, &creds, &req, 60), Err(Outcome::ValidationFailed)));
}

#[test]
fn validation_comes_before_authentication() {
    let users = alice_table();
    let req = request("home.example.org", Some("1.2.3.400"), None);
    assert!(matches!(screen(&users, &None, &req, 60), Err(Outcome::ValidationFailed)));
    let none = request("home.example.org", None, None);
    assert!(matches!(screen(&users, &None, &none, 60), Err(Outcome::ValidationFailed)));
}

#[test]
fn unknown_user_and_wrong_password_look_alike() {
    let users = alice_table();
    assert!(!users.authenticate("ghost", "x"));
    assert!(!users.authenticate("alice", "wrong-password"));
    assert!(users.authenticate("alice", "secret"));
    let req = request("home.example.org", Some("1.2.3.4"), None);
    let ghost = Credentials::from_header("Basic Z2hvc3Q6eA==");
    let wrong = Credentials::from_header("Basic YWxpY2U6d3JvbmctcGFzc3dvcmQ=");
    assert!(matches!(screen(&users, &ghost, &req, 60), Err(Outcome::AuthenticationFailed)));
    assert!(matches!(screen(&users, &wrong, &req, 60), Err(Outcome::AuthenticationFailed)));
}

#[test]
fn failed_authentication_never_reports_authorization() {
    let users = alice_table();
    let req = request("other.example.org", Some("1.2.3.4"), None);
    let wrong = Credentials::from_header("Basic YWxpY2U6d3JvbmctcGFzc3dvcmQ=");
    assert!(matches!(screen(&users, &wrong, &req, 60), Err(Outcome::AuthenticationFailed)));
    assert!(matches!(screen(&users, &None, &req, 60), Err(Outcome::AuthenticationFailed)));
}

#[test]
fn authorization_is_exact_name() {
    let users = alice_table();
    assert!(users.authorize("alice", &d("home.example.org")));
    assert!(users.authorize("alice", &d("HOME.example.org.")));
    assert!(!users.authorize("alice", &d("www.home.example.org")));
    assert!(!users.authorize("alice", &d("example.org")));
    assert!(!users.authorize("ghost", &d("home.example.org")));
}

#[test]
fn both_families_give_two_records() {
    let users = alice_table();
    let creds = Credentials::from_header("Basic YWxpY2U6c2VjcmV0");
    let req = request("home.example.org", Some("1.2.3.4"), Some("2001:db8::1"));
    let records: Vec<AddressRecord> = screen(&users, &creds, &req, 300).unwrap();
    assert_eq!(records.len(), 2);
    assert_eq!(records[0].rtype, RecordType::A);
    assert_eq!(records[0].address, Address::V4(16909060));
    assert_eq!(records[1].rtype, RecordType::AAAA);
    assert_eq!(records[1].address, Address::V6(42540766411282592856903984951653826561));
    assert_eq!(records[1].ttl, 300);
    assert_eq!(records[1].name.0, "home.example.org");
}

#[test]
fn both_families_applied_end_to_end() {
    let users = alice_table();
    let mut s = server();
    let req = request("home.example.org", Some("1.2.3.4"), Some("::1"));
    assert_eq!(handle(&mut s, &users, "Basic YWxpY2U6c2VjcmV0", &req), 200);
    assert_eq!(s.query("home.example.org", RecordType::A), vec![Address::V4(16909060)]);
    assert_eq!(s.query("home.example.org", RecordType::AAAA), vec![Address::V6(1)]);
}

#[test]
fn aggregate_first_failure_decides() {
    assert_eq!(aggregate(&vec![]), Outcome::Applied);
    assert_eq!(aggregate(&vec![Ok(()), Ok(())]), Outcome::Applied);
    assert_eq!(aggregate(&vec![Ok(()), Err(DnsError::RecordCreate(2))]), Outcome::ProtocolFailed);
    assert_eq!(aggregate(&vec![Err(DnsError::Transport), Err(DnsError::RecordDelete(2))]), Outcome::TransportFailed);
    assert_eq!(aggregate(&vec![Err(DnsError::NoZoneFound)]), Outcome::ResolutionFailed);
}

#[test]
fn outcome_statuses() {
    assert_eq!(Outcome::Applied.status(), 200);
    assert_eq!(Outcome::AuthenticationFailed.status(), 401);
    assert_eq!(Outcome::AuthorizationFailed.status(), 403);
    assert_eq!(Outcome::ValidationFailed.status(), 400);
    assert_eq!(Outcome::ResolutionFailed.status(), 502);
    assert_eq!(Outcome::ProtocolFailed.status(), 502);
    assert_eq!(Outcome::TransportFailed.status(), 504);
    assert_eq!(Outcome::of_error(DnsError::ZoneMismatch), Outcome::ResolutionFailed);
}

#[test]
fn session_resolves_once_then_replaces_each_family() {
    let users = alice_table();
    let mut s = Server { zone: "example.org".to_string(), records: Vec::new(), calls: 0 };
    let req = request("home.example.org", Some("1.2.3.4"), Some("::1"));
    assert_eq!(handle(&mut s, &users, "Basic YWxpY2U6c2VjcmV0", &req), 200);
    assert_eq!(s.calls, 2 + 2 + 2);
}

#[test]
fn session_keeps_applied_family_when_sibling_fails() {
    let rec4 = AddressRecord::new(d("home.example.org"), RecordType::A, 60, Address::V4(1)).unwrap();
    let rec6 = AddressRecord::new(d("home.example.org"), RecordType::AAAA, 60, Address::V6(1)).unwrap();
    let (mut session, action) = UpdateSession::start(&d("home.example.org"), vec![rec4, rec6]);
    assert!(matches!(action, SessionAction::QuerySoa(_)));
    let a = session.step(SessionEvent::Soa(SoaReply::Found(d("example.org"))));
    assert!(matches!(a, SessionAction::Send(UpdateOp::DeleteRrset { rtype: RecordType::A, .. })));
    let a = session.step(SessionEvent::Update(UpdateReply::Response(0)));
    assert!(matches!(a, SessionAction::Send(UpdateOp::Create { rtype: RecordType::A, .. })));
    let a = session.step(SessionEvent::Update(UpdateReply::Response(0)));
    assert!(matches!(a, SessionAction::Send(UpdateOp::DeleteRrset { rtype: RecordType::AAAA, .. })));
    let a = session.step(SessionEvent::Update(UpdateReply::Response(5)));
    match a {
        SessionAction::Finish(o) => assert_eq!(o, Outcome::ProtocolFailed),
        _ => panic!("session did not end"),
    }
    assert_eq!(session.results, vec![Ok(()), Err(DnsError::RecordDelete(5))]);
}

#[test]
fn session_without_zone_is_resolution_failure() {
    let users = alice_table();
    let mut s = Server { zone: "nowhere".to_string(), records: Vec::new(), calls: 0 };
    let req = request("home.example.org", Some("1.2.3.4"), None);
    assert_eq!(handle(&mut s, &users, "Basic YWxpY2U6c2VjcmV0", &req), 502);
    assert!(s.records.is_empty());
}

#[test]
fn session_with_no_records_is_applied_at_once() {
    let (_, action) = UpdateSession::start(&d("x.org"), Vec::new());
    assert!(matches!(action, SessionAction::Finish(Outcome::Applied)));
}

#[test]
fn invalid_name_fails_validation() {
    let users = alice_table();
    let creds = Credentials::from_header("Basic YWxpY2U6c2VjcmV0");
    let req = request("home example.org", Some("1.2.3.4"), None);
    assert!(matches!(screen(&users, &creds, &req, 60), Err(Outcome::ValidationFailed)));
    let root = request(".", Some("1.2.3.4"), None);
    assert!(matches!(screen(&users, &creds, &root, 60), Err(Outcome::ValidationFailed)));
}

#[test]
fn session_owner_outside_name_sends_nothing() {
    let rec = AddressRecord::new(d("home.example.org"), RecordType::A, 60, Address::V4(1)).unwrap();
    let (mut session, _) = UpdateSession::start(&d("home.example.org"), vec![rec]);
    let a = session.step(SessionEvent::Soa(SoaReply::Found(d("other.org"))));
    assert!(matches!(a, SessionAction::Finish(Outcome::ResolutionFailed)));
    assert!(session.results.is_empty());
}

#[test]
fn session_walks_up_on_miss() {
    let rec = AddressRecord::new(d("home.example.org"), RecordType::A, 60, Address::V4(1)).unwrap();
    let (mut session, _) = UpdateSession::start(&d("home.example.org"), vec![rec]);
    match session.step(SessionEvent::Soa(SoaReply::Missing)) {
        SessionAction::QuerySoa(n) => assert_eq!(n.0, "example.org"),
        _ => panic!("miss did not move up"),
    }
}
