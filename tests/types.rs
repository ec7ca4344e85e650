use dynonym::types::Domain;

#[test]
fn hash_eq() {
    let h = dynonym::types::Hash::new("foo").unwrap();
    assert!(h.is("foo"));
}

#[test]
fn hash_ne() {
    let h = dynonym::types::Hash::new("foo").unwrap();
    assert!(!h.is("bar"));
}

#[test]
fn hash_salt() {
    let h1 = dynonym::types::Hash::new("foo").unwrap();
    let h2 = dynonym::types::Hash::new("foo").unwrap();
    assert!(h1 != h2);
}

#[test]
fn hash_malformed_matches_nothing() {
    let h = dynonym::types::Hash::from_stored("not a hash".to_string());
    assert!(!h.is("not a hash"));
    assert!(!h.is(""));
}

#[test]
fn hash_stored_round_trip() {
    let h = dynonym::types::Hash::new("foo").unwrap();
    let again = dynonym::types::Hash::from_stored(h.stored().to_string());
    assert!(again.is("foo"));
    assert!(h.stored() != "foo");
}

fn d(s: &str) -> Domain {
    Domain(s.to_string())
}

#[test]
fn zone_of_self_ancestor_and_root() {
    assert!(d("example.org").is_zone_of(&d("example.org")));
    assert!(d("example.org").is_zone_of(&d("a.b.example.org")));
    assert!(d("Example.Org.").is_zone_of(&d("home.example.org")));
    assert!(d("").is_zone_of(&d("home.example.org")));
    assert!(d(".").is_zone_of(&d("home.example.org")));
    assert!(!d("ample.org").is_zone_of(&d("example.org")));
    assert!(!d("home.example.org").is_zone_of(&d("example.org")));
    assert!(!d("other.org").is_zone_of(&d("example.org")));
}

#[test]
fn same_name_ignores_case_and_final_dot() {
    assert!(d("Home.Example.org.").same_as(&d("home.example.ORG")));
    assert!(!d("home.example.org").same_as(&d("example.org")));
}

#[test]
fn valid_names() {
    assert!(d("home.example.org").is_valid());
    assert!(d("Home-1.example.org.").is_valid());
    assert!(d("_srv.example.org").is_valid());
    assert!(!d("").is_valid());
    assert!(!d(".").is_valid());
    assert!(!d("bad name.org").is_valid());
    assert!(!d("a..b").is_valid());
    assert!(!d("-a.org").is_valid());
    assert!(!d("ä.org").is_valid());
    assert!(!d(&format!("{}.org", "a".repeat(64))).is_valid());
    assert!(d(&format!("{}.org", "a".repeat(63))).is_valid());
}
