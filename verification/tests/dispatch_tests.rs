//! Dispatch discipline: first matching implementation wins, detections stop
//! at the selection, and no execution command is issued without one.

use remote_facts::{
    resolve_and_run, CommandExecutor, ConcreteCommand, DispatchFailure, FactKind, ListInterfaces,
    TableCommandExecutor, VirtualCommand, MAC,
};

fn table(entries: &[(&str, &str)]) -> TableCommandExecutor {
    let v: Vec<(String, String)> = entries
        .iter()
        .map(|(k, o)| (k.to_string(), o.to_string()))
        .collect();
    TableCommandExecutor::new(v)
}

fn ip_dump() -> String {
    [
        "1: lo: <LOOPBACK,UP,LOWER_UP> mtu 65536 qdisc noqueue state UNKNOWN group default qlen 1000",
        "     link/loopback 00:00:00:00:00:00 brd 00:00:00:00:00:00",
        "     inet 127.0.0.1/8 scope host lo",
        "        valid_lft forever preferred_lft forever",
        "     inet6 ::1/128 scope host noprefixroute",
        "        valid_lft forever preferred_lft forever",
        "2: eth0@if12: <BROADCAST,MULTICAST,UP,LOWER_UP> mtu 1500 qdisc noqueue state UP group default qlen 1000",
        "    link/ether bc:24:11:8c:3e:4b brd ff:ff:ff:ff:ff:ff link-netnsid 0",
        "    inet 192.168.0.3/24 brd 192.168.0.255 scope global eth0",
        "        valid_lft forever preferred_lft forever",
        "    inet6 fe80::be24:11ff:fe8c:3e4b/64 scope link",
        "        valid_lft forever preferred_lft forever",
    ]
    .join("\n")
}

#[test]
fn test_list_interfaces_ip() {
    let output = ip_dump();
    let mut executor = table(&[
        ("ip -V", "ip utility, iproute2-6.1.0, libbpf 1.1.0\n"),
        ("ip a", output.as_str()),
    ]);
    let catalog = vec![ConcreteCommand::IpUtility];
    let interfaces = resolve_and_run(FactKind::InterfaceInventory, &catalog, &mut executor);
    assert!(interfaces.is_ok(), "{:?}", interfaces.err());
    let interfaces = interfaces.unwrap();
    assert_eq!(interfaces.len(), 2);
    assert_eq!(interfaces[0].name, "lo");
    assert_eq!(interfaces[0].mac, MAC::try_from("00:00:00:00:00:00").unwrap());
    assert_eq!(interfaces[0].status, "UNKNOWN");
    assert_eq!(interfaces[1].name, "eth0");
    assert_eq!(interfaces[1].mac, MAC::try_from("bc:24:11:8c:3e:4b").unwrap());
    assert_eq!(interfaces[1].status, "UP");
}

#[test]
fn test_list_interfaces_ifconfig() {
    let output2 = [
        "br-2a665e4dbc69: flags=4163<UP,BROADCAST,RUNNING,MULTICAST>  mtu 1500",
        "   inet 172.22.0.1  netmask 255.255.0.0  broadcast 172.22.255.255",
        "   inet6 fe80::42:7cff:fe8b:fb54  prefixlen 64  scopeid 0x20<link>",
        "   ether 02:42:7c:8b:fb:54  txqueuelen 0  (Ethernet)",
        "   RX packets 22315  bytes 12240619 (11.6 MiB)",
        "   RX errors 0  dropped 0  overruns 0  frame 0",
        "   TX packets 22992  bytes 11010560 (10.5 MiB)",
        "   TX errors 0  dropped 0 overruns 0  carrier 0  collisions 0",
        "",
        "br-569c181e089f: flags=4099<UP,BROADCAST,MULTICAST>  mtu 1500",
        "   inet 172.19.0.1  netmask 255.255.0.0  broadcast 172.19.255.255",
        "   ether 02:42:bb:47:77:14  txqueuelen 0  (Ethernet)",
        "   RX packets 0  bytes 0 (0.0 B)",
        "   RX errors 0  dropped 0  overruns 0  frame 0",
        "   TX packets 0  bytes 0 (0.0 B)",
        "   TX errors 0  dropped 0 overruns 0  carrier 0  collisions 0",
    ]
    .join("\n");

    let output1 = [
        "Iface  MTU    RX-OK RX-ERR RX-DRP RX-OVR    TX-OK TX-ERR TX-DRP TX-OVR Flg",
        "lo    65536  0     0     0      0       0     0     0     0     LRU",
    ]
    .join("\n");

    let mut executor = table(&[
        ("ifconfig -s lo", output1.as_str()),
        ("ifconfig", output2.as_str()),
    ]);
    let catalog = vec![ConcreteCommand::IfConfig];
    let interfaces = resolve_and_run(FactKind::InterfaceInventory, &catalog, &mut executor)
        .unwrap();
    assert_eq!(interfaces.len(), 2);
    assert_eq!(interfaces[0].name, "br-2a665e4dbc69");
    assert_eq!(interfaces[0].mac, MAC::try_from("02:42:7c:8b:fb:54").unwrap());
    assert_eq!(interfaces[0].status, "UP");
    assert_eq!(interfaces[1].name, "br-569c181e089f");
    assert_eq!(interfaces[1].mac, MAC::try_from("02:42:bb:47:77:14").unwrap());
    assert_eq!(interfaces[1].status, "UP");
}

#[test]
fn first_matching_implementation_wins() {
    // Both detections would match; the first catalog entry must be selected,
    // no detection issued past it, and only its execution command run.
    let output = ip_dump();
    let mut executor = table(&[
        ("ip -V", "ip utility, iproute2-6.1.0"),
        ("ifconfig -s lo", "Iface  MTU"),
        ("ip a", output.as_str()),
        ("ifconfig", "br0: flags=4163<UP,X>"),
    ]);
    let cmd = ListInterfaces;
    let interfaces = cmd.execute(&mut executor).unwrap();
    assert_eq!(interfaces.len(), 2);
    assert_eq!(interfaces[0].name, "lo");
    let issued: Vec<&str> = executor.issued_commands().iter().map(|s| s.as_str()).collect();
    assert_eq!(issued, vec!["ip -V", "ip a"]);
}

#[test]
fn exhausted_catalog_issues_no_execution() {
    // Every detection fails (empty table): the dispatch reports that no
    // implementation applies and only the probes were issued.
    let mut executor = table(&[]);
    let cmd = ListInterfaces;
    let result = cmd.execute(&mut executor);
    match result {
        Err(DispatchFailure::NoApplicableImplementation { fact_kind }) => {
            assert_eq!(fact_kind, FactKind::InterfaceInventory);
        }
        other => panic!("expected NoApplicableImplementation, got {:?}", other),
    }
    let issued: Vec<&str> = executor.issued_commands().iter().map(|s| s.as_str()).collect();
    assert_eq!(issued, vec!["ip -V", "ifconfig -s lo"]);
}

#[test]
fn detection_predicate_false_moves_on() {
    // The first probe succeeds but its output does not name the tool: the
    // dispatcher moves to the next implementation.
    let output2 = [
        "eth1: flags=4163<UP,BROADCAST>  mtu 1500",
        "   inet 10.0.0.2  netmask 255.255.255.0",
        "   ether 02:42:bb:47:77:14  txqueuelen 0  (Ethernet)",
    ]
    .join("\n");
    let mut executor = table(&[
        ("ip -V", "no such tool"),
        ("ifconfig -s lo", "Iface  MTU"),
        ("ifconfig", output2.as_str()),
    ]);
    let cmd = ListInterfaces;
    let interfaces = cmd.execute(&mut executor).unwrap();
    assert_eq!(interfaces.len(), 1);
    assert_eq!(interfaces[0].name, "eth1");
    assert_eq!(interfaces[0].cidr.1, 24);
    let issued: Vec<&str> = executor.issued_commands().iter().map(|s| s.as_str()).collect();
    assert_eq!(issued, vec!["ip -V", "ifconfig -s lo", "ifconfig"]);
}

#[test]
fn no_fallback_after_selection() {
    // The modern tool is selected but its output is malformed: the parse
    // failure is final, and the legacy implementation is never consulted.
    let mut executor = table(&[
        ("ip -V", "ip utility, iproute2-6.1.0"),
        ("ifconfig -s lo", "Iface  MTU"),
        ("ip a", "1: lo: no state or addresses here"),
        ("ifconfig", "would parse, but must never run"),
    ]);
    let cmd = ListInterfaces;
    let result = cmd.execute(&mut executor);
    assert!(matches!(result, Err(DispatchFailure::Parse(_))));
    let issued: Vec<&str> = executor.issued_commands().iter().map(|s| s.as_str()).collect();
    assert_eq!(issued, vec!["ip -V", "ip a"]);
}

#[test]
fn execution_failure_propagates() {
    // Detection succeeds but the execution command fails: the failure is
    // surfaced verbatim, not swallowed.
    let mut executor = table(&[("ip -V", "ip utility, iproute2-6.1.0")]);
    let cmd = ListInterfaces;
    let result = cmd.execute(&mut executor);
    match result {
        Err(DispatchFailure::Execution(remote_facts::ExecutionFailure::NonZeroExit {
            command,
            code,
        })) => {
            assert_eq!(command, "ip a");
            assert_eq!(code, 127);
        }
        other => panic!("expected NonZeroExit, got {:?}", other),
    }
}

#[test]
fn unknown_command_fails_with_non_zero_exit() {
    let mut executor = table(&[]);
    let result = executor.execute("uname -a");
    match result {
        Err(remote_facts::ExecutionFailure::NonZeroExit { command, code }) => {
            assert_eq!(command, "uname -a");
            assert_eq!(code, 127);
        }
        other => panic!("expected NonZeroExit, got {:?}", other),
    }
}
