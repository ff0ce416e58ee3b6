//! Parser scenarios: exact records from known dumps, fail-fast on
//! malformed blocks, and the collector and registry decisions.

use remote_facts::{
    find_session_index, require_session, ChannelEvent, ConcreteCommand, ExecutionFailure,
    IpAddress, OutputCollector, ParseReason, V4Addr, V6Addr, CIDR, MAC,
};

#[test]
fn modern_tool_scenario_exact_records() {
    // Two blocks: loopback, then eth0; the parsed fact holds exactly two
    // records in that order with those exact fields.
    let output = [
        "1: lo: <LOOPBACK,UP,LOWER_UP> mtu 65536 qdisc noqueue state UNKNOWN group default qlen 1000",
        "     link/loopback 00:00:00:00:00:00 brd 00:00:00:00:00:00",
        "     inet 127.0.0.1/8 scope host lo",
        "2: eth0@if12: <BROADCAST,MULTICAST,UP,LOWER_UP> mtu 1500 qdisc noqueue state UP group default qlen 1000",
        "    link/ether bc:24:11:8c:3e:4b brd ff:ff:ff:ff:ff:ff link-netnsid 0",
        "    inet 192.168.0.3/24 brd 192.168.0.255 scope global eth0",
    ]
    .join("\n");
    assert!(ConcreteCommand::IpUtility
        .parse_detection_output("ip utility, iproute2-6.1.0"));
    let records = ConcreteCommand::IpUtility
        .parse_execution_output(output.as_str())
        .unwrap();
    assert_eq!(records.len(), 2);
    assert_eq!(records[0].name, "lo");
    assert_eq!(records[0].status, "UNKNOWN");
    assert_eq!(records[0].mac, MAC::try_from("00:00:00:00:00:00").unwrap());
    assert_eq!(
        records[0].cidr,
        CIDR(IpAddress::V4(V4Addr { o0: 127, o1: 0, o2: 0, o3: 1 }), 8)
    );
    assert_eq!(records[1].name, "eth0");
    assert_eq!(records[1].status, "UP");
    assert_eq!(records[1].mac, MAC::try_from("bc:24:11:8c:3e:4b").unwrap());
    assert_eq!(
        records[1].cidr,
        CIDR(IpAddress::V4(V4Addr { o0: 192, o1: 168, o2: 0, o3: 3 }), 24)
    );
}

#[test]
fn legacy_tool_scenario_status_and_prefix() {
    // Bracketed flags resolve to the first flag; the dotted-decimal mask
    // 255.255.0.0 resolves to prefix length 16.
    assert!(ConcreteCommand::IfConfig.parse_detection_output("Iface  MTU    RX-OK"));
    let output = [
        "br0: flags=4163<UP,BROADCAST,RUNNING,MULTICAST>  mtu 1500",
        "   inet 172.22.0.1  netmask 255.255.0.0  broadcast 172.22.255.255",
        "   ether 02:42:7c:8b:fb:54  txqueuelen 0  (Ethernet)",
        "",
        "br1: flags=4099<UP,BROADCAST,MULTICAST>  mtu 1500",
        "   inet 172.19.0.1  netmask 255.255.0.0  broadcast 172.19.255.255",
        "   ether 02:42:bb:47:77:14  txqueuelen 0  (Ethernet)",
    ]
    .join("\n");
    let records = ConcreteCommand::IfConfig
        .parse_execution_output(output.as_str())
        .unwrap();
    assert_eq!(records.len(), 2);
    assert_eq!(records[0].status, "UP");
    assert_eq!(records[1].status, "UP");
    assert_eq!(records[0].cidr.1, 16);
    assert_eq!(
        records[0].cidr.0,
        IpAddress::V4(V4Addr { o0: 172, o1: 22, o2: 0, o3: 1 })
    );
}

#[test]
fn malformed_block_fails_whole_parse() {
    // A block missing its inet/inet6 line fails the whole parse with a
    // failure naming the offending block text; no partial record survives.
    let output = [
        "1: lo: <LOOPBACK,UP,LOWER_UP> mtu 65536 state UNKNOWN",
        "     link/loopback 00:00:00:00:00:00 brd 00:00:00:00:00:00",
        "     inet 127.0.0.1/8 scope host lo",
        "2: eth0: <BROADCAST,MULTICAST,UP,LOWER_UP> mtu 1500 state UP",
        "    link/ether bc:24:11:8c:3e:4b brd ff:ff:ff:ff:ff:ff",
    ]
    .join("\n");
    let err = ConcreteCommand::IpUtility
        .parse_execution_output(output.as_str())
        .unwrap_err();
    assert_eq!(err.reason, ParseReason::MissingAddress);
    assert!(err.offending_text.starts_with("eth0:"));
    assert!(err.offending_text.contains("link/ether"));
}

#[test]
fn legacy_block_missing_address_fails() {
    let output = [
        "br0: flags=4163<UP,BROADCAST>  mtu 1500",
        "   ether 02:42:7c:8b:fb:54  txqueuelen 0  (Ethernet)",
    ]
    .join("\n");
    let err = ConcreteCommand::IfConfig
        .parse_execution_output(output.as_str())
        .unwrap_err();
    assert_eq!(err.reason, ParseReason::MissingAddress);
    assert!(err.offending_text.starts_with("br0:"));
}

#[test]
fn invalid_hardware_address_fails() {
    let output = [
        "1: lo: <LOOPBACK> mtu 65536 state UNKNOWN",
        "     link/loopback zz:00:00:00:00:00 brd 00:00:00:00:00:00",
        "     inet 127.0.0.1/8 scope host lo",
    ]
    .join("\n");
    let err = ConcreteCommand::IpUtility
        .parse_execution_output(output.as_str())
        .unwrap_err();
    assert_eq!(err.reason, ParseReason::InvalidMac);
    assert_eq!(err.offending_text, "zz:00:00:00:00:00");
}

#[test]
fn missing_state_fails() {
    let output = [
        "1: lo: <LOOPBACK> mtu 65536",
        "     link/loopback 00:00:00:00:00:00 brd 00:00:00:00:00:00",
        "     inet 127.0.0.1/8 scope host lo",
    ]
    .join("\n");
    let err = ConcreteCommand::IpUtility
        .parse_execution_output(output.as_str())
        .unwrap_err();
    assert_eq!(err.reason, ParseReason::MissingState);
}

#[test]
fn ipv6_only_block_parses() {
    let output = [
        "1: tun0: <POINTOPOINT> mtu 1400 state UNKNOWN",
        "     link/none ab:cd:ef:01:23:45 brd 00:00:00:00:00:00",
        "     inet6 fe80::be24:11ff:fe8c:3e4b/64 scope link",
    ]
    .join("\n");
    let records = ConcreteCommand::IpUtility
        .parse_execution_output(output.as_str())
        .unwrap();
    assert_eq!(records.len(), 1);
    assert_eq!(
        records[0].cidr,
        CIDR(
            IpAddress::V6(V6Addr {
                g0: 0xfe80,
                g1: 0,
                g2: 0,
                g3: 0,
                g4: 0xbe24,
                g5: 0x11ff,
                g6: 0xfe8c,
                g7: 0x3e4b,
            }),
            64
        )
    );
}

#[test]
fn collector_concatenates_chunks_in_order() {
    let mut collector = OutputCollector::new("uname".to_string());
    assert!(collector.on_event(ChannelEvent::Data(b"Lin".to_vec())).is_none());
    assert!(collector.on_event(ChannelEvent::Other).is_none());
    assert!(collector.on_event(ChannelEvent::Data(b"ux\n".to_vec())).is_none());
    let done = collector.on_event(ChannelEvent::ExitStatus(0)).unwrap();
    assert_eq!(done.unwrap(), "Linux\n");
}

#[test]
fn collector_decodes_multibyte_text() {
    let mut collector = OutputCollector::new("cat motd".to_string());
    collector.on_event(ChannelEvent::Data(vec![0xc3, 0xa9, 0x21]));
    let done = collector.on_event(ChannelEvent::ExitStatus(0)).unwrap();
    assert_eq!(done.unwrap(), "\u{e9}!");
}

#[test]
fn collector_rejects_invalid_text() {
    let mut collector = OutputCollector::new("cat blob".to_string());
    collector.on_event(ChannelEvent::Data(vec![0xff, 0xfe]));
    let done = collector.on_event(ChannelEvent::ExitStatus(0)).unwrap();
    assert_eq!(done.unwrap_err(), ExecutionFailure::Undecodable);
}

#[test]
fn collector_reports_non_zero_exit() {
    let mut collector = OutputCollector::new("false".to_string());
    let done = collector.on_event(ChannelEvent::ExitStatus(2)).unwrap();
    match done.unwrap_err() {
        ExecutionFailure::NonZeroExit { command, code } => {
            assert_eq!(command, "false");
            assert_eq!(code, 2);
        }
        other => panic!("expected NonZeroExit, got {:?}", other),
    }
}

#[test]
fn collector_reports_premature_close() {
    let mut collector = OutputCollector::new("sleep 1".to_string());
    collector.on_event(ChannelEvent::Data(b"partial".to_vec()));
    let done = collector.on_event(ChannelEvent::Closed).unwrap();
    assert_eq!(done.unwrap_err(), ExecutionFailure::ChannelClosedPrematurely);
}

#[test]
fn absent_session_fails_cleanly() {
    // A request against a session identifier absent from the registry
    // fails with a clear message instead of panicking or hanging.
    let ids: Vec<usize> = vec![11, 42, 7];
    let found = find_session_index(&ids, 5);
    assert!(found.is_none());
    let err = require_session(found).unwrap_err();
    assert_eq!(err.message, "session not found");
    let hit = find_session_index(&ids, 42);
    assert_eq!(hit, Some(1));
    assert_eq!(require_session(hit).unwrap(), 1);
}
