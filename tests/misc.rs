use dynonym::http::query_param;
use dynonym::zone::backoff_millis;
use dynonym::exclusion::Exclusion;
use dynonym::types::Domain;
use dynonym::update::RecordType;
use dynonym::error::Error;
use dynonym::http::{bad_gateway, gateway_timeout, internal_server_error, not_found, not_implemented};
use dynonym::lock::Lock;

#[test]
fn error_bodies() {
    assert_eq!(not_found(), "404 Not Found");
    assert_eq!(internal_server_error(), "500 Internal Server Error");
    assert_eq!(not_implemented(), "501 Not Implemented");
    assert_eq!(bad_gateway(), "502 Bad Gateway");
    assert_eq!(gateway_timeout(), "504 Gateway Timeout");
}

#[test]
fn lock_release_hands_back_path() {
    let lock = Lock::held("dynonym.lock".to_string());
    assert_eq!(lock.path(), "dynonym.lock");
    assert_eq!(lock.release(), "dynonym.lock");
}

#[test]
fn errors_convert() {
    let e: Error = dynonym::lock::Error::SetupSigintHandler.into();
    assert!(matches!(e, Error::Lock(dynonym::lock::Error::SetupSigintHandler)));
    let c: Error = dynonym::config::Error::Open("x".to_string()).into();
    assert!(matches!(c, Error::Config(dynonym::config::Error::Open(_))));
}

#[test]
fn exclusion_claim_and_release() {
    let home = Domain("home.example.org".to_string());
    let mut table = Exclusion::new();
    assert!(table.claim(&home, RecordType::A));
    assert!(!table.claim(&Domain("HOME.example.org.".to_string()), RecordType::A));
    assert!(table.claim(&home, RecordType::AAAA));
    assert!(table.is_held(&home, RecordType::A));
    table.release(&home, RecordType::A);
    assert!(!table.is_held(&home, RecordType::A));
    assert!(table.is_held(&home, RecordType::AAAA));
    assert!(table.claim(&home, RecordType::A));
}

#[test]
fn query_param_values() {
    let q = "domain=home.example.org&ipv4=1.2.3.4&flag&ipv4=5.6.7.8&x=a=b";
    assert_eq!(query_param(q, "domain"), Some("home.example.org".to_string()));
    assert_eq!(query_param(q, "ipv4"), Some("5.6.7.8".to_string()));
    assert_eq!(query_param(q, "flag"), Some(String::new()));
    assert_eq!(query_param(q, "x"), Some("a=b".to_string()));
    assert_eq!(query_param(q, "ipv6"), None);
    assert_eq!(query_param("", "domain"), None);
}

#[test]
fn backoff_doubles_then_stops() {
    assert_eq!(backoff_millis(0), 0);
    assert_eq!(backoff_millis(1), 100);
    assert_eq!(backoff_millis(2), 200);
    assert_eq!(backoff_millis(4), 800);
    assert_eq!(backoff_millis(5), 1600);
    assert_eq!(backoff_millis(u32::MAX), 1600);
}
