use dynonym::types::Domain;
use dynonym::update::{
    Address, AddressRecord, RecordType, ReplaceStep, Replacement, UpdateOp, UpdateReply,
};
use dynonym::zone::{DnsError, SoaReply, ZoneSearch, ZoneStep};

fn d(s: &str) -> Domain {
    Domain(s.to_string())
}

/// A server that owns the SOA records of `zones` and keeps address records.
struct FakeServer {
    zones: Vec<String>,
    records: Vec<(String, RecordType, Address)>,
    queries: Vec<String>,
    messages: usize,
}

impl FakeServer {
    fn new(zones: &[&str]) -> FakeServer {
        FakeServer {
            zones: zones.iter().map(|z| z.to_string()).collect(),
            records: Vec::new(),
            queries: Vec::new(),
            messages: 0,
        }
    }

    fn soa(&mut self, name: &Domain) -> SoaReply {
        self.queries.push(name.0.clone());
        let key = name.0.trim_end_matches('.').to_lowercase();
        if self.zones.contains(&key) {
            SoaReply::Found(Domain(key))
        } else {
            SoaReply::Missing
        }
    }

    fn apply(&mut self, op: &UpdateOp) -> UpdateReply {
        self.messages += 1;
        match op {
            UpdateOp::DeleteRrset { name, rtype, .. } => {
                self.records.retain(|(n, t, _)| !(n == &name.0 && t == rtype));
            }
            UpdateOp::Create { name, rtype, address, .. } => {
                if !self.records.iter().any(|(n, t, a)| n == &name.0 && t == rtype && a == address) {
                    self.records.push((name.0.clone(), *rtype, *address));
                }
            }
        }
        UpdateReply::Response(0)
    }

    fn addresses(&self, name: &str, rtype: RecordType) -> Vec<Address> {
        self.records.iter().filter(|(n, t, _)| n == name && *t == rtype).map(|(_, _, a)| *a).collect()
    }
}

fn resolve(server: &mut FakeServer, name: &str) -> Result<Domain, DnsError> {
    let mut search = ZoneSearch::new(&d(name));
    let mut query = search.candidate();
    loop {
        let reply = server.soa(&query);
        match search.step(reply) {
            ZoneStep::Query(next) => query = next,
            ZoneStep::Zone(z) => return Ok(z),
            ZoneStep::Failed(e) => return Err(e),
        }
    }
}

fn replace(server: &mut FakeServer, zone: Domain, record: AddressRecord) -> Result<(), DnsError> {
    let mut run = Replacement::new(zone, record);
    let mut op = run.message();
    loop {
        let reply = server.apply(&op);
        match run.step(reply) {
            ReplaceStep::Send(next) => op = next,
            ReplaceStep::Applied => return Ok(()),
            ReplaceStep::Failed(e) => return Err(e),
        }
    }
}

fn a_record(name: &str, v4: u32) -> AddressRecord {
    AddressRecord::new(d(name), RecordType::A, 60, Address::V4(v4)).unwrap()
}

#[test]
fn zone_walk_strips_labels_until_soa() {
    let mut server = FakeServer::new(&["example.org"]);
    let zone = resolve(&mut server, "a.b.c.example.org").unwrap();
    assert_eq!(zone.0, "example.org");
    assert_eq!(
        server.queries,
        vec!["a.b.c.example.org", "b.c.example.org", "c.example.org", "example.org"]
    );
}

#[test]
fn zone_walk_accepts_the_name_itself() {
    let mut server = FakeServer::new(&["home.example.org", "example.org"]);
    let zone = resolve(&mut server, "home.example.org").unwrap();
    assert_eq!(zone.0, "home.example.org");
    assert_eq!(server.queries.len(), 1);
}

#[test]
fn zone_walk_reaches_root_then_fails() {
    let mut server = FakeServer::new(&[]);
    assert!(matches!(resolve(&mut server, "a.example"), Err(DnsError::NoZoneFound)));
    assert_eq!(server.queries, vec!["a.example", "example", ""]);
}

#[test]
fn zone_walk_rejects_owner_outside_name() {
    let mut search = ZoneSearch::new(&d("home.example.org"));
    match search.step(SoaReply::Found(d("other.org"))) {
        ZoneStep::Failed(e) => assert_eq!(e, DnsError::ZoneMismatch),
        _ => panic!("owner outside the name was accepted"),
    }
    let mut search = ZoneSearch::new(&d("home.example.org"));
    match search.step(SoaReply::Found(d("www.home.example.org"))) {
        ZoneStep::Failed(e) => assert_eq!(e, DnsError::ZoneMismatch),
        _ => panic!("descendant owner was accepted"),
    }
}

#[test]
fn zone_walk_retries_timeouts_a_bounded_number_of_times() {
    let mut search = ZoneSearch::new(&d("example.org"));
    match search.step(SoaReply::Timeout) {
        ZoneStep::Query(q) => assert_eq!(q.0, "example.org"),
        _ => panic!("first timeout was not retried"),
    }
    match search.step(SoaReply::Timeout) {
        ZoneStep::Query(q) => assert_eq!(q.0, "example.org"),
        _ => panic!("second timeout was not retried"),
    }
    match search.step(SoaReply::Timeout) {
        ZoneStep::Failed(e) => assert_eq!(e, DnsError::Query),
        _ => panic!("timeouts were retried without bound"),
    }
}

#[test]
fn zone_walk_timeout_then_answer() {
    let mut search = ZoneSearch::new(&d("home.example.org"));
    assert!(matches!(search.step(SoaReply::Timeout), ZoneStep::Query(_)));
    match search.step(SoaReply::Found(d("example.org"))) {
        ZoneStep::Zone(z) => assert_eq!(z.0, "example.org"),
        _ => panic!("zone not accepted"),
    }
}

#[test]
fn record_type_must_match_address() {
    assert!(AddressRecord::new(d("x.org"), RecordType::A, 60, Address::V6(1)).is_none());
    assert!(AddressRecord::new(d("x.org"), RecordType::AAAA, 60, Address::V4(1)).is_none());
    assert!(AddressRecord::new(d("x.org"), RecordType::AAAA, 60, Address::V6(1)).is_some());
}

#[test]
fn replace_deletes_then_creates() {
    let mut run = Replacement::new(d("example.org"), a_record("home.example.org", 16909060));
    match run.message() {
        UpdateOp::DeleteRrset { zone, name, rtype } => {
            assert_eq!(zone.0, "example.org");
            assert_eq!(name.0, "home.example.org");
            assert_eq!(rtype, RecordType::A);
        }
        _ => panic!("first message is not the delete"),
    }
    match run.step(UpdateReply::Response(0)) {
        ReplaceStep::Send(UpdateOp::Create { zone, name, rtype, ttl, address }) => {
            assert_eq!(zone.0, "example.org");
            assert_eq!(name.0, "home.example.org");
            assert_eq!(rtype, RecordType::A);
            assert_eq!(ttl, 60);
            assert_eq!(address, Address::V4(16909060));
        }
        _ => panic!("second message is not the create"),
    }
    assert!(matches!(run.step(UpdateReply::Response(0)), ReplaceStep::Applied));
}

#[test]
fn replace_reports_the_failing_phase() {
    let mut run = Replacement::new(d("example.org"), a_record("home.example.org", 1));
    match run.step(UpdateReply::Response(5)) {
        ReplaceStep::Failed(e) => assert_eq!(e, DnsError::RecordDelete(5)),
        _ => panic!("refused delete not reported"),
    }
    let mut run = Replacement::new(d("example.org"), a_record("home.example.org", 1));
    assert!(matches!(run.step(UpdateReply::Response(0)), ReplaceStep::Send(_)));
    match run.step(UpdateReply::Response(9)) {
        ReplaceStep::Failed(e) => assert_eq!(e, DnsError::RecordCreate(9)),
        _ => panic!("refused create not reported"),
    }
}

#[test]
fn replace_gives_up_after_timeouts() {
    let mut run = Replacement::new(d("example.org"), a_record("home.example.org", 1));
    assert!(matches!(run.step(UpdateReply::Timeout), ReplaceStep::Send(UpdateOp::DeleteRrset { .. })));
    assert!(matches!(run.step(UpdateReply::Timeout), ReplaceStep::Send(UpdateOp::DeleteRrset { .. })));
    match run.step(UpdateReply::Timeout) {
        ReplaceStep::Failed(e) => assert_eq!(e, DnsError::Transport),
        _ => panic!("timeouts retried without bound"),
    }
}

#[test]
fn replace_clears_stale_addresses() {
    let mut server = FakeServer::new(&["example.org"]);
    server.records.push(("home.example.org".to_string(), RecordType::A, Address::V4(7)));
    server.records.push(("home.example.org".to_string(), RecordType::A, Address::V4(8)));
    server.records.push(("home.example.org".to_string(), RecordType::AAAA, Address::V6(9)));
    replace(&mut server, d("example.org"), a_record("home.example.org", 16909060)).unwrap();
    assert_eq!(server.addresses("home.example.org", RecordType::A), vec![Address::V4(16909060)]);
    assert_eq!(server.addresses("home.example.org", RecordType::AAAA), vec![Address::V6(9)]);
}

#[test]
fn replace_twice_same_as_once() {
    let mut once = FakeServer::new(&["example.org"]);
    once.records.push(("home.example.org".to_string(), RecordType::A, Address::V4(7)));
    replace(&mut once, d("example.org"), a_record("home.example.org", 16909060)).unwrap();

    let mut twice = FakeServer::new(&["example.org"]);
    twice.records.push(("home.example.org".to_string(), RecordType::A, Address::V4(7)));
    replace(&mut twice, d("example.org"), a_record("home.example.org", 16909060)).unwrap();
    replace(&mut twice, d("example.org"), a_record("home.example.org", 16909060)).unwrap();

    assert_eq!(once.records, twice.records);
}
