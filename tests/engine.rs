use emtt::bridge::{display_name, hops_away, should_forward, BROADCAST};
use emtt::lines::{parse_handle_received, parse_nodeinfo, parse_text_message, range_test, MetadataLine};
use emtt::tables::NodeInfo;
use emtt::{handle_datagram, handle_line, Dispatch, EnvelopeError, NodeDirectory, PendingTable, Policy, TextOutcome};

fn meta_line(id: &str, to: &str, ch: &str, extra: &str) -> String {
    format!(
        "handleReceived(REMOTE) (id=0x{} fr=0x1234abcd to=0x{}, WantAck=0, HopLim=3 Ch=0x{} encrypted rxSNR=6.25 rxRSSI=-41 hopStart=5{} Portnum=1 priority=64)",
        id, to, ch, extra
    )
}

fn text_line(from: &str, id: &str, body: &str) -> String {
    format!("Received text msg from=0x{}, id=0x{}, msg={}", from, id, body)
}

fn broadcast_policy() -> Policy {
    Policy { channel: Some(3), dm: true }
}

#[test]
fn nodeinfo_line_is_read() {
    let l = parse_nodeinfo("[Router] Update changed=2 user Alice Base/AB1, id=0x1a2b3c4d, channel=0").unwrap();
    assert_eq!(l.id, 0x1a2b3c4d);
    assert_eq!(l.longname, "Alice Base");
    assert_eq!(l.shortname, "AB1");
}

#[test]
fn nodeinfo_splits_at_last_slash() {
    let l = parse_nodeinfo("Update changed=1 user a/b/c, id=0xff, channel=1").unwrap();
    assert_eq!(l.longname, "a/b");
    assert_eq!(l.shortname, "c");
}

#[test]
fn nodeinfo_rejects_overflowing_id() {
    assert!(parse_nodeinfo("Update changed=1 user a/b, id=0x123456789, channel=1").is_none());
    assert!(parse_nodeinfo("Update changed=1 user a/b, id=0x12, channel=").is_none());
    assert!(parse_nodeinfo("Update changed= user a/b, id=0x12, channel=1").is_none());
}

#[test]
fn metadata_line_is_read() {
    match parse_handle_received(&meta_line("00000abc", "ffffffff", "3", "")) {
        Some(MetadataLine::Text { id, relayed, radio }) => {
            assert_eq!(id, 0xabc);
            assert!(!relayed);
            assert_eq!(radio.to, BROADCAST);
            assert_eq!(radio.ch, 3);
            assert_eq!(radio.snr.as_deref(), Some("6.25"));
            assert_eq!(radio.rssi, Some(-41));
            assert_eq!(radio.hop_limit, Some(3));
            assert_eq!(radio.hop_start, Some(5));
            assert_eq!(radio.origin, Some(0x1234abcd));
        }
        _ => panic!("expected a text packet"),
    }
}

#[test]
fn metadata_spaced_equals_and_defaults() {
    match parse_handle_received("handleReceived(LOCAL) (id = 0x10, Portnum=1)") {
        Some(MetadataLine::Text { id, radio, .. }) => {
            assert_eq!(id, 0x10);
            assert_eq!(radio.to, 0);
            assert_eq!(radio.ch, 0);
            assert_eq!(radio.snr, None);
            assert_eq!(radio.hop_start, None);
        }
        _ => panic!("expected a text packet"),
    }
}

#[test]
fn metadata_other_port() {
    assert!(matches!(
        parse_handle_received("handleReceived(REMOTE) (id=0x10 Portnum=67)"),
        Some(MetadataLine::OtherPort)
    ));
    assert!(matches!(parse_handle_received("handleReceived(REMOTE) (id=0x10)"), Some(MetadataLine::OtherPort)));
}

#[test]
fn metadata_without_id_is_no_match() {
    assert!(parse_handle_received("handleReceived(REMOTE) (Portnum=1 to=0x5)").is_none());
    assert!(parse_handle_received("handleReceived(REMOTE) (id=0xzz Portnum=1)").is_none());
    assert!(parse_handle_received("handleReceived() (id=0x1 Portnum=1)").is_none());
    assert!(parse_handle_received("handleReceived(R) (id=0x1 Portnum=1) trailing").is_none());
}

#[test]
fn metadata_via_mqtt_is_relayed() {
    match parse_handle_received(&meta_line("20", "ffffffff", "3", " via=MQTT")) {
        Some(MetadataLine::Text { relayed, .. }) => assert!(relayed),
        _ => panic!("expected a text packet"),
    }
}

#[test]
fn text_line_is_read() {
    let l = parse_text_message(&text_line("a1b2", "ff", "hello, world")).unwrap();
    assert_eq!(l.from, 0xa1b2);
    assert_eq!(l.id, 0xff);
    assert_eq!(l.text, "hello, world");
    assert!(parse_text_message("Received text msg from=0x1, id=0x2, msg=").is_none());
}

#[test]
fn range_test_heartbeats() {
    assert!(range_test("seq 42"));
    assert!(range_test("  seq 7 "));
    assert!(!range_test("seq "));
    assert!(!range_test("seq 4a"));
    assert!(!range_test("sequence 1"));
}

#[test]
fn matched_pair_is_forwarded_once() {
    let mut pending = PendingTable::new();
    let mut nodes = NodeDirectory::new();
    let policy = broadcast_policy();
    let r1 = handle_line(&mut pending, &mut nodes, &policy, "radio0_abc", &meta_line("64", "ffffffff", "3", ""), 1000);
    assert!(matches!(r1, Dispatch::Observed { id: 0x64, relayed: false }));
    let r2 = handle_line(&mut pending, &mut nodes, &policy, "radio0_abc", &text_line("1234abcd", "64", "hi"), 1180);
    match r2 {
        Dispatch::Text { from, packet, text, outcome: TextOutcome::Forward(m) } => {
            assert_eq!(from, 0x1234abcd);
            assert_eq!(packet, 0x64);
            assert_eq!(text, "hi");
            assert_eq!(m.from, "0x1234abcd");
            assert_eq!(m.via, "radio0_abc");
            assert_eq!(m.text, "hi");
            assert_eq!(m.hops_away, Some(2));
            assert_eq!(m.rssi, Some(-41));
        }
        _ => panic!("expected a notification"),
    }
    let r3 = handle_line(&mut pending, &mut nodes, &policy, "radio0_abc", &text_line("1234abcd", "64", "hi"), 1181);
    assert!(matches!(r3, Dispatch::Text { outcome: TextOutcome::NoPacket, .. }));
}

#[test]
fn hops_saturate_at_zero() {
    assert_eq!(hops_away(Some(2), Some(5)), Some(0));
    assert_eq!(hops_away(Some(7), Some(3)), Some(4));
    assert_eq!(hops_away(None, Some(3)), None);
    assert_eq!(hops_away(Some(3), None), None);
}

#[test]
fn stale_entry_is_dropped_and_removed() {
    let mut pending = PendingTable::new();
    let mut nodes = NodeDirectory::new();
    let policy = broadcast_policy();
    handle_line(&mut pending, &mut nodes, &policy, "if0", &meta_line("65", "ffffffff", "3", ""), 1000);
    handle_line(&mut pending, &mut nodes, &policy, "if1", &meta_line("65", "ffffffff", "3", ""), 1100);
    let r = handle_line(&mut pending, &mut nodes, &policy, "if0", &text_line("1", "65", "late"), 1181);
    assert!(matches!(r, Dispatch::Text { outcome: TextOutcome::Stale, .. }));
    let again = handle_line(&mut pending, &mut nodes, &policy, "if0", &text_line("1", "65", "late"), 1182);
    assert!(matches!(again, Dispatch::Text { outcome: TextOutcome::NoSighting, .. }));
    let other = handle_line(&mut pending, &mut nodes, &policy, "if1", &text_line("1", "65", "ok"), 1200);
    assert!(matches!(other, Dispatch::Text { outcome: TextOutcome::Forward(_), .. }));
}

#[test]
fn relayed_packet_is_not_forwarded() {
    let mut pending = PendingTable::new();
    let mut nodes = NodeDirectory::new();
    let policy = broadcast_policy();
    handle_line(&mut pending, &mut nodes, &policy, "if0", &meta_line("66", "ffffffff", "3", " via=MQTT"), 10);
    let r = handle_line(&mut pending, &mut nodes, &policy, "if0", &text_line("2", "66", "loop"), 20);
    assert!(matches!(r, Dispatch::Text { outcome: TextOutcome::Relayed, .. }));
}

#[test]
fn relayed_packet_blocks_nodeinfo() {
    let mut pending = PendingTable::new();
    let mut nodes = NodeDirectory::new();
    let policy = broadcast_policy();
    handle_line(&mut pending, &mut nodes, &policy, "if0", &meta_line("00000067", "ffffffff", "3", " via=MQTT"), 10);
    let r = handle_line(&mut pending, &mut nodes, &policy, "if0", "Update changed=1 user Far Node/FN, id=0x67, channel=0", 11);
    assert!(matches!(r, Dispatch::NodeInfo { id: 0x67, stored: false }));
    assert!(nodes.get(0x67).is_none());
    let r2 = handle_line(&mut pending, &mut nodes, &policy, "if0", "Update changed=1 user Near/NR, id=0x68, channel=0", 12);
    assert!(matches!(r2, Dispatch::NodeInfo { id: 0x68, stored: true }));
    assert_eq!(nodes.get(0x68).unwrap().longname, "Near");
}

#[test]
fn broadcast_policy_scenarios() {
    assert!(should_forward(&Policy { channel: Some(3), dm: false }, BROADCAST, 3));
    assert!(!should_forward(&Policy { channel: None, dm: true }, BROADCAST, 3));
    assert!(!should_forward(&Policy { channel: Some(2), dm: true }, BROADCAST, 3));
}

#[test]
fn direct_message_policy_scenarios() {
    assert!(should_forward(&Policy { channel: None, dm: true }, 0x5, 0));
    assert!(!should_forward(&Policy { channel: None, dm: false }, 0x5, 0));
    assert!(!should_forward(&Policy { channel: Some(1), dm: true }, 0x5, 1));
    assert!(!should_forward(&Policy { channel: Some(1), dm: false }, 0x5, 1));
}

#[test]
fn filtered_by_policy_end_to_end() {
    let mut pending = PendingTable::new();
    let mut nodes = NodeDirectory::new();
    let policy = Policy { channel: None, dm: true };
    handle_line(&mut pending, &mut nodes, &policy, "if0", &meta_line("70", "ffffffff", "3", ""), 10);
    let r = handle_line(&mut pending, &mut nodes, &policy, "if0", &text_line("2", "70", "x"), 11);
    assert!(matches!(r, Dispatch::Text { outcome: TextOutcome::Filtered { to: BROADCAST, ch: 3 }, .. }));
    handle_line(&mut pending, &mut nodes, &policy, "if0", &meta_line("71", "00000005", "0", ""), 10);
    let r2 = handle_line(&mut pending, &mut nodes, &policy, "if0", &text_line("2", "71", "dm"), 11);
    assert!(matches!(r2, Dispatch::Text { outcome: TextOutcome::Forward(_), .. }));
}

#[test]
fn heartbeat_is_dropped_with_valid_metadata() {
    let mut pending = PendingTable::new();
    let mut nodes = NodeDirectory::new();
    let policy = broadcast_policy();
    handle_line(&mut pending, &mut nodes, &policy, "if0", &meta_line("72", "ffffffff", "3", ""), 10);
    let r = handle_line(&mut pending, &mut nodes, &policy, "if0", &text_line("2", "72", "seq 42"), 11);
    assert!(matches!(r, Dispatch::Text { outcome: TextOutcome::RangeTest, .. }));
    let r2 = handle_line(&mut pending, &mut nodes, &policy, "if0", &text_line("2", "72", "after"), 12);
    assert!(matches!(r2, Dispatch::Text { outcome: TextOutcome::Forward(_), .. }));
}

#[test]
fn sweep_without_stale_changes_nothing() {
    let mut pending = PendingTable::new();
    let mut nodes = NodeDirectory::new();
    let policy = broadcast_policy();
    handle_line(&mut pending, &mut nodes, &policy, "if0", &meta_line("73", "ffffffff", "3", ""), 100);
    handle_line(&mut pending, &mut nodes, &policy, "if1", &meta_line("74", "ffffffff", "3", ""), 200);
    handle_line(&mut pending, &mut nodes, &policy, "if0", "Update changed=1 user Base/B, id=0x9, channel=0", 200);
    pending.sweep(280);
    assert_eq!(nodes.get(9).unwrap().shortname, "B");
    let r = handle_line(&mut pending, &mut nodes, &policy, "if0", &text_line("2", "73", "a"), 280);
    assert!(matches!(r, Dispatch::Text { outcome: TextOutcome::Forward(_), .. }));
    let r2 = handle_line(&mut pending, &mut nodes, &policy, "if1", &text_line("2", "74", "b"), 280);
    assert!(matches!(r2, Dispatch::Text { outcome: TextOutcome::Forward(_), .. }));
}

#[test]
fn sweep_drops_stale_entries() {
    let mut pending = PendingTable::new();
    let mut nodes = NodeDirectory::new();
    let policy = broadcast_policy();
    handle_line(&mut pending, &mut nodes, &policy, "if0", &meta_line("75", "ffffffff", "3", ""), 100);
    handle_line(&mut pending, &mut nodes, &policy, "if1", &meta_line("75", "ffffffff", "3", ""), 250);
    pending.sweep(281);
    let r = handle_line(&mut pending, &mut nodes, &policy, "if0", &text_line("2", "75", "a"), 100);
    assert!(matches!(r, Dispatch::Text { outcome: TextOutcome::NoSighting, .. }));
    pending.sweep(431);
    let r2 = handle_line(&mut pending, &mut nodes, &policy, "if1", &text_line("2", "75", "b"), 100);
    assert!(matches!(r2, Dispatch::Text { outcome: TextOutcome::NoPacket, .. }));
}

#[test]
fn local_sender_name() {
    let nodes = NodeDirectory::new();
    assert_eq!(display_name(0, "radio0_abc", &nodes), "radio0 (Local)");
    assert_eq!(display_name(0, "radio0", &nodes), "radio0 (Local)");
    assert_eq!(display_name(0, "a_b_c", &nodes), "a (Local)");
}

#[test]
fn sender_name_from_directory_or_hex() {
    let mut nodes = NodeDirectory::new();
    nodes.insert(0xabcd, NodeInfo { shortname: "AB".to_string(), longname: "Alpha Base".to_string() });
    assert_eq!(display_name(0xabcd, "if0", &nodes), "Alpha Base");
    assert_eq!(display_name(0xbeef, "if0", &nodes), "0x0000beef");
    assert_eq!(display_name(0xFFFFFFFF, "if0", &nodes), "0xffffffff");
}

#[test]
fn unmatched_line() {
    let mut pending = PendingTable::new();
    let mut nodes = NodeDirectory::new();
    let r = handle_line(&mut pending, &mut nodes, &broadcast_policy(), "if0", "Lora RX ok", 1);
    assert!(matches!(r, Dispatch::Unmatched));
}

#[test]
fn datagram_goes_through_envelope_and_engine() {
    let mut pending = PendingTable::new();
    let mut nodes = NodeDirectory::new();
    let policy = broadcast_policy();
    let line = format!("<14>1 2024-05-01T10:00:00Z radio0_abc meshtasticd - - - {}\n", meta_line("80", "ffffffff", "3", ""));
    let line = line.replacen(" - - - ", " - - -: ", 1);
    match handle_datagram(&mut pending, &mut nodes, &policy, &line, 50) {
        Ok((ident, Dispatch::Observed { id, relayed })) => {
            assert_eq!(ident, "radio0_abc");
            assert_eq!(id, 0x80);
            assert!(!relayed);
        }
        _ => panic!("expected an observation"),
    }
    let text = format!("- radio0_abc x: {}", text_line("0", "80", "from here"));
    match handle_datagram(&mut pending, &mut nodes, &policy, &text, 60) {
        Ok((_, Dispatch::Text { outcome: TextOutcome::Forward(m), .. })) => assert_eq!(m.from, "radio0 (Local)"),
        _ => panic!("expected a notification"),
    }
    assert!(matches!(
        handle_datagram(&mut pending, &mut nodes, &policy, "no-envelope", 70),
        Err(EnvelopeError::MissingTimestamp)
    ));
}

#[test]
fn nodeinfo_long_name_reaches_last_fitting_id() {
    let l = parse_nodeinfo("Update changed=1 user A/B, id=0x7, channel=1 Q/S, id=0x5, channel=2").unwrap();
    assert_eq!(l.id, 5);
    assert_eq!(l.longname, "A/B, id=0x7, channel=1 Q");
    assert_eq!(l.shortname, "S");
}

#[test]
fn nodeinfo_overflowing_last_id_is_no_match() {
    assert!(parse_nodeinfo("Update changed=1 user A/B, id=0x7, channel=1 Q/S, id=0x123456789, channel=2").is_none());
}

#[test]
fn nodeinfo_found_after_unparsable_start() {
    let l = parse_nodeinfo("Update changed=x Update changed=2 user L/S, id=0x9, channel=0").unwrap();
    assert_eq!(l.id, 9);
    assert_eq!(l.longname, "L");
    assert_eq!(l.shortname, "S");
}

#[test]
fn relayed_packet_blocks_nodeinfo_with_embedded_id() {
    let mut pending = PendingTable::new();
    let mut nodes = NodeDirectory::new();
    let policy = broadcast_policy();
    handle_line(&mut pending, &mut nodes, &policy, "if0", &meta_line("5", "ffffffff", "3", " via=MQTT"), 10);
    let line = "Update changed=1 user A/B, id=0x7, channel=1 Q/S, id=0x5, channel=2";
    let r = handle_line(&mut pending, &mut nodes, &policy, "if0", line, 11);
    assert!(matches!(r, Dispatch::NodeInfo { id: 5, stored: false }));
    assert!(nodes.get(7).is_none());
    assert!(nodes.get(5).is_none());
}

#[test]
fn text_line_found_after_unparsable_start() {
    let l = parse_text_message("Received text msg from=0xzz Received text msg from=0x3, id=0x4, msg=hey").unwrap();
    assert_eq!(l.from, 3);
    assert_eq!(l.id, 4);
    assert_eq!(l.text, "hey");
    assert!(parse_text_message("Received text msg from=0x1, id=0x2, msg=\nnext").is_none());
}
