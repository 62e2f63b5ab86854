use jitstreamer::apps::{filter_apps, str_contains, AppEntry};
use jitstreamer::netmuxd::RawPacket;
use jitstreamer::packets::uptime_seconds;
use jitstreamer::provision::{mirror_event, ProvisionEvent};
use jitstreamer::registry::DeserializedClient;
use jitstreamer::storage::{decode_registry, encode_registry};

#[test]
fn raw_packet_wire_layout_is_little_endian_with_16_byte_header() {
    let payload = vec![0xAAu8, 0xBB];
    let packet = RawPacket::new(payload, 1, 69, 69);
    assert_eq!(packet.size, 18);
    let bytes = packet.to_bytes();
    assert_eq!(
        bytes,
        vec![
            18, 0, 0, 0, // size, including the header itself
            1, 0, 0, 0, // version
            69, 0, 0, 0, // message
            69, 0, 0, 0, // tag
            0xAA, 0xBB, // payload
        ]
    );
}

#[test]
fn raw_packet_empty_payload_is_header_only() {
    let packet = RawPacket::new(Vec::new(), 2, 3, 4);
    assert_eq!(packet.size, 16);
    assert_eq!(packet.to_bytes().len(), 16);
}

#[test]
fn str_contains_finds_substrings() {
    assert!(str_contains("com.apple.calculator", "com.apple"));
    assert!(str_contains("abc", ""));
    assert!(str_contains("abc", "abc"));
    assert!(!str_contains("ab", "abc"));
    assert!(!str_contains("com.example.app", "com.apple"));
    assert!(str_contains("xxabyxaby", "aby"));
}

#[test]
fn filter_apps_drops_vendor_and_splits_known() {
    let entries = vec![
        AppEntry {
            name: "Calculator".to_string(),
            bundle_id: "com.apple.calculator".to_string(),
        },
        AppEntry { name: "UTM SE".to_string(), bundle_id: "com.utmapp.UTM-SE".to_string() },
        AppEntry { name: "Notes Clone".to_string(), bundle_id: "org.example.notes".to_string() },
    ];
    let known = vec!["UTM".to_string()];
    let (preferred, others) = filter_apps(entries, &known);
    assert_eq!(preferred.len(), 1);
    assert_eq!(preferred[0].name, "UTM SE");
    assert_eq!(others.len(), 1);
    assert_eq!(others[0].name, "Notes Clone");
}

#[test]
fn uptime_is_elapsed_seconds_and_never_underflows() {
    assert_eq!(uptime_seconds(1000, 400), 600);
    assert_eq!(uptime_seconds(400, 400), 0);
    assert_eq!(uptime_seconds(399, 400), 0);
}

#[test]
fn registry_encoding_is_exact_json() {
    assert_eq!(encode_registry(&Vec::new()), "[]");
    let records = vec![
        DeserializedClient { ip: "10.0.0.5".to_string(), udid: "ABC123".to_string(), last_seen: 0 },
        DeserializedClient {
            ip: "10.0.0.6".to_string(),
            udid: "X\"Y\\Z\n".to_string(),
            last_seen: 1650000000,
        },
    ];
    assert_eq!(
        encode_registry(&records),
        "[{\"ip\":\"10.0.0.5\",\"udid\":\"ABC123\",\"last_seen\":0},{\"ip\":\"10.0.0.6\",\"udid\":\"X\\\"Y\\\\Z\\u000A\",\"last_seen\":1650000000}]"
    );
}

#[test]
fn registry_encoding_round_trips_through_a_json_parser() {
    let records = vec![DeserializedClient {
        ip: "10.0.0.5".to_string(),
        udid: "A\"B\\C".to_string(),
        last_seen: 42,
    }];
    let text = encode_registry(&records);
    let parsed: serde_json::Value = serde_json::from_str(&text).unwrap();
    assert_eq!(parsed[0]["ip"], "10.0.0.5");
    assert_eq!(parsed[0]["udid"], "A\"B\\C");
    assert_eq!(parsed[0]["last_seen"], 42);
}

#[test]
fn registry_decoding_round_trips_and_degrades_to_empty() {
    let records = vec![
        DeserializedClient { ip: "10.0.0.5".to_string(), udid: "ABC123".to_string(), last_seen: 7 },
        DeserializedClient {
            ip: "10.0.0.6".to_string(),
            udid: "A\"B\\C".to_string(),
            last_seen: 1650000000,
        },
    ];
    let decoded = decode_registry(&encode_registry(&records));
    assert_eq!(decoded.len(), 2);
    assert_eq!(decoded[0].ip, "10.0.0.5");
    assert_eq!(decoded[0].udid, "ABC123");
    assert_eq!(decoded[0].last_seen, 7);
    assert_eq!(decoded[1].udid, "A\"B\\C");
    assert_eq!(decoded[1].last_seen, 1650000000);
    assert_eq!(decode_registry("[]").len(), 0);
    // One exact document, written out by hand.
    let by_hand = "[{\"ip\":\"10.0.0.9\",\"udid\":\"X\",\"last_seen\":3}]";
    let decoded = decode_registry(by_hand);
    assert_eq!(decoded.len(), 1);
    assert_eq!(decoded[0].ip, "10.0.0.9");
    assert_eq!(decoded[0].udid, "X");
    assert_eq!(decoded[0].last_seen, 3);
    // Anything the registry grammar does not cover degrades silently to an
    // empty registry: junk, other shapes, stray whitespace, reordered keys,
    // leading zeros, trailing text.
    assert_eq!(decode_registry("").len(), 0);
    assert_eq!(decode_registry("not json").len(), 0);
    assert_eq!(decode_registry("{\"ip\": \"10.0.0.9\"}").len(), 0);
    assert_eq!(decode_registry("[{\"ip\": \"10.0.0.9\"}]").len(), 0);
    assert_eq!(decode_registry("[{\"udid\":\"X\",\"ip\":\"10.0.0.9\",\"last_seen\":3}]").len(), 0);
    assert_eq!(decode_registry("[ {\"ip\":\"10.0.0.9\",\"udid\":\"X\",\"last_seen\":3} ]").len(), 0);
    assert_eq!(decode_registry("[{\"ip\":\"10.0.0.9\",\"udid\":\"X\",\"last_seen\":03}]").len(), 0);
    assert_eq!(decode_registry("[{\"ip\":\"10.0.0.9\",\"udid\":\"X\",\"last_seen\":3}] ").len(), 0);
    // A record whose text holds a control character encodes as a hex escape,
    // which the narrow registry grammar does not read back.
    let control = vec![DeserializedClient {
        ip: "10.0.0.5".to_string(),
        udid: "A\nB".to_string(),
        last_seen: 1,
    }];
    assert_eq!(decode_registry(&encode_registry(&control)).len(), 0);
}

#[test]
fn version_index_lookup_reads_the_url() {
    let index = "{\"14.2\": \"http://mirror.example/14.2.zip\", \"15.0\": \"http://mirror.example/15.0.zip\"}";
    match mirror_event(Some(index), "14.2") {
        ProvisionEvent::VersionListed { url } => {
            assert_eq!(url, "http://mirror.example/14.2.zip");
        }
        _ => panic!("a listed version should come back with its URL"),
    }
    assert!(matches!(mirror_event(Some(index), "13.1"), ProvisionEvent::VersionNotListed));
    assert!(matches!(mirror_event(Some("not json"), "14.2"), ProvisionEvent::VersionNotListed));
    assert!(matches!(
        mirror_event(Some("{\"14.2\": 7}"), "14.2"),
        ProvisionEvent::VersionNotListed
    ));
    assert!(matches!(mirror_event(None, "14.2"), ProvisionEvent::MirrorUnreachable));
}
