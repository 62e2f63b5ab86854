use jitstreamer::registry::{Backend, DeserializedClient, PairPotential, RegistryError};

fn empty_backend(subnet: &str) -> Backend {
    Backend::load(
        Vec::new(),
        subnet.to_string(),
        "database.json".to_string(),
        "plist_storage".to_string(),
        "dmg_files".to_string(),
        None,
    )
}

#[test]
fn register_then_lookup_finds_udid() {
    let mut b = empty_backend("0.0.0.0/0");
    assert!(b.register_client("10.0.0.7".to_string(), "UDID-7".to_string()).is_ok());
    let client = b.get_by_ip("10.0.0.7").expect("registered device should be found");
    assert_eq!(client.udid, "UDID-7");
    assert_eq!(client.ip, "10.0.0.7");
    assert_eq!(client.pairing_file, "plist_storage/UDID-7.plist");
    assert_eq!(client.dmg_path, "dmg_files");
}

#[test]
fn reregistering_same_ip_is_rejected_without_duplicates() {
    let mut b = empty_backend("0.0.0.0/0");
    assert!(b.register_client("10.0.0.7".to_string(), "UDID-7".to_string()).is_ok());
    let r = b.register_client("10.0.0.7".to_string(), "UDID-8".to_string());
    assert!(matches!(r, Err(RegistryError::AlreadyRegistered)));
    assert_eq!(b.deserialized_clients.len(), 1);
}

#[test]
fn reregistering_same_udid_is_rejected_without_duplicates() {
    let mut b = empty_backend("0.0.0.0/0");
    assert!(b.register_client("10.0.0.7".to_string(), "UDID-7".to_string()).is_ok());
    let r = b.register_client("10.0.0.8".to_string(), "UDID-7".to_string());
    assert!(matches!(r, Err(RegistryError::AlreadyRegistered)));
    assert_eq!(b.deserialized_clients.len(), 1);
}

#[test]
fn unregister_then_lookup_returns_none() {
    let mut b = empty_backend("0.0.0.0/0");
    b.register_client("10.0.0.7".to_string(), "UDID-7".to_string()).unwrap();
    let udid = b.unregister_client("10.0.0.7".to_string()).unwrap();
    assert_eq!(udid, "UDID-7");
    assert!(b.get_by_ip("10.0.0.7").is_none());
}

#[test]
fn unregister_unknown_ip_is_not_found_without_side_effects() {
    let mut b = empty_backend("0.0.0.0/0");
    b.register_client("10.0.0.7".to_string(), "UDID-7".to_string()).unwrap();
    let r = b.unregister_client("10.9.9.9".to_string());
    assert!(matches!(r, Err(RegistryError::NotFound)));
    assert_eq!(b.deserialized_clients.len(), 1);
    assert!(b.get_by_ip("10.0.0.7").is_some());
}

#[test]
fn end_to_end_register_lookup_unregister() {
    let mut b = empty_backend("0.0.0.0/0");
    assert!(b.register_client("10.0.0.5".to_string(), "ABC123".to_string()).is_ok());
    let client = b.get_by_ip("10.0.0.5").expect("lookup should succeed after register");
    assert_eq!(client.udid, "ABC123");
    b.unregister_client("10.0.0.5".to_string()).unwrap();
    assert!(b.get_by_ip("10.0.0.5").is_none());
    assert!(matches!(
        b.unregister_client("10.0.0.5".to_string()),
        Err(RegistryError::NotFound)
    ));
}

#[test]
fn lookup_by_udid_finds_record() {
    let mut b = empty_backend("0.0.0.0/0");
    b.register_client("10.0.0.7".to_string(), "UDID-7".to_string()).unwrap();
    let client = b._get_by_udid("UDID-7").expect("device should be found by udid");
    assert_eq!(client.ip, "10.0.0.7");
    assert!(b._get_by_udid("UDID-8").is_none());
}

#[test]
fn pairing_code_lifecycle() {
    let mut b = empty_backend("0.0.0.0/0");
    let code = b.potential_pair("10.0.0.9:5000".to_string());
    assert!((10000..65535).contains(&code));
    assert_eq!(b.check_code(code), Some("10.0.0.9:5000".to_string()));
    b.remove_code(code);
    assert_eq!(b.check_code(code), None);
}

#[test]
fn pairing_code_collision_resolves_to_first() {
    // Collisions across live attempts are a known limitation: the first
    // attempt with the code wins, and removal consumes every attempt
    // carrying the code.
    let mut b = empty_backend("0.0.0.0/0");
    b.pair_potential.push(PairPotential { ip: "10.0.0.1".to_string(), code: 23456 });
    b.pair_potential.push(PairPotential { ip: "10.0.0.2".to_string(), code: 23456 });
    assert_eq!(b.check_code(23456), Some("10.0.0.1".to_string()));
    b.remove_code(23456);
    assert_eq!(b.check_code(23456), None);
    assert_eq!(b.pair_potential.len(), 0);
}

#[test]
fn load_drops_records_that_repeat_a_key() {
    let records = vec![
        DeserializedClient { ip: "10.0.0.1".to_string(), udid: "A".to_string(), last_seen: 1 },
        DeserializedClient { ip: "10.0.0.1".to_string(), udid: "B".to_string(), last_seen: 2 },
        DeserializedClient { ip: "10.0.0.2".to_string(), udid: "A".to_string(), last_seen: 3 },
        DeserializedClient { ip: "10.0.0.3".to_string(), udid: "C".to_string(), last_seen: 4 },
    ];
    let b = Backend::load(
        records,
        "0.0.0.0/0".to_string(),
        "db.json".to_string(),
        "plists".to_string(),
        "dmgs".to_string(),
        Some("127.0.0.1:27015".to_string()),
    );
    assert_eq!(b.deserialized_clients.len(), 2);
    assert_eq!(b.deserialized_clients[0].udid, "A");
    assert_eq!(b.deserialized_clients[1].udid, "C");
}

#[test]
fn pairing_file_path_joins_storage_and_udid() {
    let b = empty_backend("0.0.0.0/0");
    assert_eq!(b.pairing_file_path("XYZ"), "plist_storage/XYZ.plist");
}

#[test]
fn prefered_app_matches_known_names() {
    let known = vec!["DolphiniOS".to_string(), "UTM".to_string()];
    assert!(Backend::prefered_app("UTM SE", &known));
    assert!(Backend::prefered_app("DolphiniOS Beta", &known));
    assert!(!Backend::prefered_app("Some Game", &known));
    assert!(!Backend::prefered_app("", &known));
}
