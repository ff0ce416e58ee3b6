//! Session metadata, command values, and the remaining parse failures.

use remote_facts::{
    CommandString, ConcreteCommand, Host, Interface, IpAddress, ParseReason, SessionInfo,
    V4Addr, CIDR, MAC,
};

#[test]
fn command_string_flavors_read_the_same() {
    let fixed = CommandString::Static("ip a");
    assert_eq!(fixed.as_str(), "ip a");
    let built = CommandString::Dynamic(format!("ping {}", "10.0.0.1"));
    assert_eq!(built.as_str(), "ping 10.0.0.1");
}

#[test]
fn host_round_trips_into_pair() {
    let host = Host::new("192.168.0.40".to_string(), 22);
    assert_eq!(host.address, "192.168.0.40");
    assert_eq!(host.port, 22);
    let (address, port) = host.into_pair();
    assert_eq!(address, "192.168.0.40");
    assert_eq!(port, 22);
}

#[test]
fn session_info_keeps_user_and_endpoint() {
    let info = SessionInfo::new("root".to_string(), ("10.1.1.1".to_string(), 2222));
    assert_eq!(info.user, "root");
    assert_eq!(info.addrs, ("10.1.1.1".to_string(), 2222));
}

#[test]
fn interface_new_assembles_all_fields() {
    let mac = MAC::try_from("02:42:bb:47:77:14").unwrap();
    let cidr = CIDR(IpAddress::V4(V4Addr { o0: 10, o1: 0, o2: 0, o3: 7 }), 24);
    let record = Interface::new("eth0".to_string(), mac, cidr, "UP".to_string());
    assert_eq!(record.name, "eth0");
    assert_eq!(record.mac, mac);
    assert_eq!(record.cidr, cidr);
    assert_eq!(record.status, "UP");
}

#[test]
fn legacy_parse_failures_name_the_missing_field() {
    // No bracketed flag list with a comma: the status is missing.
    let no_status = [
        "lo: flags=73<UP>  mtu 65536",
        "   inet 127.0.0.1  netmask 255.0.0.0",
        "   ether 00:00:00:00:00:00",
    ]
    .join("\n");
    let err = ConcreteCommand::IfConfig
        .parse_execution_output(no_status.as_str())
        .unwrap_err();
    assert_eq!(err.reason, ParseReason::MissingStatus);

    // No netmask: the mask is missing even though an address is present.
    let no_mask = [
        "lo: flags=73<UP,LOOPBACK>  mtu 65536",
        "   inet 127.0.0.1",
        "   ether 00:00:00:00:00:00",
    ]
    .join("\n");
    let err = ConcreteCommand::IfConfig
        .parse_execution_output(no_mask.as_str())
        .unwrap_err();
    assert_eq!(err.reason, ParseReason::MissingMask);

    // A block starting with whitespace has no leading name token.
    let no_name = "   inet 127.0.0.1  netmask 255.0.0.0";
    let err = ConcreteCommand::IfConfig
        .parse_execution_output(no_name)
        .unwrap_err();
    assert_eq!(err.reason, ParseReason::MissingName);
}

#[test]
fn legacy_invalid_address_is_reported() {
    let output = [
        "lo: flags=73<UP,LOOPBACK>  mtu 65536",
        "   inet 127.0.0.999  netmask 255.0.0.0",
        "   ether 00:00:00:00:00:00",
    ]
    .join("\n");
    let err = ConcreteCommand::IfConfig
        .parse_execution_output(output.as_str())
        .unwrap_err();
    assert_eq!(err.reason, ParseReason::InvalidAddress);
    assert_eq!(err.offending_text, "127.0.0.999");
}

#[test]
fn detection_predicates_check_their_markers() {
    assert!(ConcreteCommand::IpUtility.parse_detection_output("ip utility, iproute2-6.1.0"));
    assert!(!ConcreteCommand::IpUtility.parse_detection_output("iproute2 something else"));
    assert!(ConcreteCommand::IfConfig.parse_detection_output("Iface  MTU"));
    assert!(!ConcreteCommand::IfConfig.parse_detection_output("command not found"));
}

#[test]
fn commands_are_the_documented_probes() {
    assert_eq!(ConcreteCommand::IpUtility.detection_command().as_str(), "ip -V");
    assert_eq!(ConcreteCommand::IpUtility.execution_command().as_str(), "ip a");
    assert_eq!(
        ConcreteCommand::IfConfig.detection_command().as_str(),
        "ifconfig -s lo"
    );
    assert_eq!(ConcreteCommand::IfConfig.execution_command().as_str(), "ifconfig");
}
