//! Address values: hardware-address round trips, prefix-from-mask
//! popcounts, and the `address/prefix` form.

use remote_facts::{IpAddress, V4Addr, V6Addr, CIDR, MAC};

#[test]
fn mac_format_parse_round_trips() {
    // Formatting and re-parsing yields the identical bytes.
    let samples = [
        "00:00:00:00:00:00",
        "bc:24:11:8c:3e:4b",
        "ff:ff:ff:ff:ff:ff",
        "01:23:45:67:89:ab",
    ];
    for text in samples {
        let mac = MAC::try_from(text).unwrap();
        let formatted = mac.format();
        assert_eq!(formatted, *text);
        assert_eq!(MAC::try_from(formatted.as_str()).unwrap(), mac);
    }
}

#[test]
fn mac_parsing_normalizes_case_and_width() {
    let upper = MAC::try_from("BC:24:11:8C:3E:4B").unwrap();
    assert_eq!(upper, MAC::try_from("bc:24:11:8c:3e:4b").unwrap());
    assert_eq!(upper.format(), "bc:24:11:8c:3e:4b");
    let short = MAC::try_from("0:1:2:a:b:c").unwrap();
    assert_eq!(short.format(), "00:01:02:0a:0b:0c");
}

#[test]
fn mac_parsing_rejects_malformed_text() {
    assert!(MAC::try_from("").is_none());
    assert!(MAC::try_from("aa:bb:cc:dd:ee").is_none());
    assert!(MAC::try_from("aa:bb:cc:dd:ee:ff:11").is_none());
    assert!(MAC::try_from("aa:bb:cc:dd:ee:ff:").is_none());
    assert!(MAC::try_from("aa::cc:dd:ee:ff").is_none());
    assert!(MAC::try_from("aa:bb:cc:dd:ee:fg").is_none());
    assert!(MAC::try_from("aaa:bb:cc:dd:ee:ff").is_none());
}

#[test]
fn prefix_length_equals_mask_popcount() {
    let ip = IpAddress::V4(V4Addr { o0: 10, o1: 0, o2: 0, o3: 1 });
    assert_eq!(CIDR::new(ip, V4Addr { o0: 255, o1: 255, o2: 0, o3: 0 }).1, 16);
    assert_eq!(
        CIDR::new(ip, V4Addr { o0: 255, o1: 255, o2: 255, o3: 255 }).1,
        32
    );
    assert_eq!(CIDR::new(ip, V4Addr { o0: 0, o1: 0, o2: 0, o3: 0 }).1, 0);
    assert_eq!(
        CIDR::new(ip, V4Addr { o0: 255, o1: 255, o2: 255, o3: 0 }).1,
        24
    );
    // The derivation is a popcount even for a non-contiguous mask.
    assert_eq!(CIDR::new(ip, V4Addr { o0: 255, o1: 0, o2: 255, o3: 0 }).1, 16);
}

#[test]
fn cidr_parses_both_families() {
    assert_eq!(
        CIDR::try_from("127.0.0.1/8").unwrap(),
        CIDR(IpAddress::V4(V4Addr { o0: 127, o1: 0, o2: 0, o3: 1 }), 8)
    );
    assert_eq!(
        CIDR::try_from("::1/128").unwrap(),
        CIDR(
            IpAddress::V6(V6Addr { g0: 0, g1: 0, g2: 0, g3: 0, g4: 0, g5: 0, g6: 0, g7: 1 }),
            128
        )
    );
}

#[test]
fn cidr_rejects_out_of_range_prefixes() {
    assert!(CIDR::try_from("10.0.0.1/33").is_none());
    assert!(CIDR::try_from("::1/129").is_none());
    assert!(CIDR::try_from("10.0.0.1/32").is_some());
    assert!(CIDR::try_from("::1/0").is_some());
}

#[test]
fn cidr_rejects_malformed_text() {
    assert!(CIDR::try_from("10.0.0.1").is_none());
    assert!(CIDR::try_from("10.0.0.1/8/9").is_none());
    assert!(CIDR::try_from("999.0.0.1/8").is_none());
    assert!(CIDR::try_from("10.0.0/8").is_none());
    assert!(CIDR::try_from("1::2::3/64").is_none());
    assert!(CIDR::try_from("12345::1/64").is_none());
    assert!(CIDR::try_from("1:2:3:4:5:6:7/64").is_none());
    assert!(CIDR::try_from("010.0.0.1/8").is_none());
}

#[test]
fn ipv6_gap_fills_with_zero_groups() {
    let full = CIDR::try_from("1:2:3:4:5:6:7:8/64").unwrap();
    assert_eq!(
        full.0,
        IpAddress::V6(V6Addr { g0: 1, g1: 2, g2: 3, g3: 4, g4: 5, g5: 6, g6: 7, g7: 8 })
    );
    let gap = CIDR::try_from("fe80::1/10").unwrap();
    assert_eq!(
        gap.0,
        IpAddress::V6(V6Addr { g0: 0xfe80, g1: 0, g2: 0, g3: 0, g4: 0, g5: 0, g6: 0, g7: 1 })
    );
}

#[test]
fn mac_groups_parse_as_base_16_bytes() {
    // Leading zeros, a leading plus sign, and long zero-padded groups are
    // accepted as a base-16 byte parse accepts them; values above a byte
    // are not.
    let padded = MAC::try_from("001:02:0ff:04:05:06").unwrap();
    assert_eq!(padded, MAC::try_from("1:2:ff:4:5:6").unwrap());
    assert_eq!(padded.format(), "01:02:ff:04:05:06");
    let plus = MAC::try_from("+1f:00:00:00:00:00").unwrap();
    assert_eq!(plus, MAC::try_from("1f:0:0:0:0:0").unwrap());
    assert!(MAC::try_from("1ff:00:00:00:00:00").is_none());
    assert!(MAC::try_from("++1:00:00:00:00:00").is_none());
    assert!(MAC::try_from("+:00:00:00:00:00").is_none());
}

#[test]
fn prefix_accepts_a_leading_plus_sign() {
    assert_eq!(
        CIDR::try_from("10.0.0.1/+8").unwrap(),
        CIDR::try_from("10.0.0.1/8").unwrap()
    );
    assert_eq!(CIDR::try_from("10.0.0.1/+008").unwrap().1, 8);
    assert!(CIDR::try_from("10.0.0.1/+33").is_none());
    assert!(CIDR::try_from("10.0.0.1/++8").is_none());
    assert!(CIDR::try_from("10.0.0.1/+").is_none());
}

#[test]
fn ipv6_accepts_an_embedded_dotted_quad() {
    let mapped = CIDR::try_from("::ffff:192.168.0.3/24").unwrap();
    assert_eq!(
        mapped.0,
        IpAddress::V6(V6Addr {
            g0: 0,
            g1: 0,
            g2: 0,
            g3: 0,
            g4: 0,
            g5: 0xffff,
            g6: 0xc0a8,
            g7: 0x0003,
        })
    );
    let full = CIDR::try_from("1:2:3:4:5:6:7.8.9.10/64").unwrap();
    assert_eq!(
        full.0,
        IpAddress::V6(V6Addr { g0: 1, g1: 2, g2: 3, g3: 4, g4: 5, g5: 6, g6: 0x0708, g7: 0x090a })
    );
    // The quad must end the address and be well formed.
    assert!(CIDR::try_from("1.2.3.4::/10").is_none());
    assert!(CIDR::try_from("::ffff:1.2.3/24").is_none());
    assert!(CIDR::try_from("::ffff:1.2.3.999/24").is_none());
    assert!(CIDR::try_from("1:2:3:4:5:6:7:7.8.9.10/64").is_none());
}

#[test]
fn cidr_format_parse_round_trips() {
    let v4 = CIDR::try_from("192.168.0.3/24").unwrap();
    assert_eq!(v4.format(), "192.168.0.3/24");
    assert_eq!(CIDR::try_from(v4.format().as_str()).unwrap(), v4);
    let v6 = CIDR::try_from("fe80::be24:11ff:fe8c:3e4b/64").unwrap();
    assert_eq!(v6.format(), "fe80:0:0:0:be24:11ff:fe8c:3e4b/64");
    assert_eq!(CIDR::try_from(v6.format().as_str()).unwrap(), v6);
    let zero = CIDR::try_from("0.0.0.0/0").unwrap();
    assert_eq!(zero.format(), "0.0.0.0/0");
    assert_eq!(CIDR::try_from(zero.format().as_str()).unwrap(), zero);
}
