use ipstuff::{
    InvalidMaskedIp, InvalidMaskedIpv4, InvalidMaskedIpv6, InvalidNetworkV4, InvalidNetworkV6,
    IpAddr, Ipv4Addr, Ipv4Mask, Ipv6Addr, Ipv6Mask, MaskedIp, MaskedIpv4, MaskedIpv6, NetworkV4,
    NetworkV6, Notation,
};

#[test]
fn parse_masked_ipv4_strings() {
    const TEN_ONE_8: &str = "10.0.0.1/8";
    const TEN_TWO_24: &str = "10.0.0.2/24";
    const TEN_FOUR_12: &str = "10.0.0.4 255.240.0.0";
    const TEN_FIVE_32: &str = "10.0.0.5 255.255.255.255";

    let net: MaskedIpv4 = MaskedIpv4::from_str(TEN_ONE_8).unwrap();
    assert_eq!(net.format(Notation::Address), "10.0.0.1 255.0.0.0");
    let net: MaskedIpv4 = MaskedIpv4::from_str(TEN_TWO_24).unwrap();
    assert_eq!(net.format(Notation::Address), "10.0.0.2 255.255.255.0");
    let net: MaskedIpv4 = MaskedIpv4::from_str(TEN_FOUR_12).unwrap();
    assert_eq!(net.format(Notation::Prefix), "10.0.0.4/12");
    let net: MaskedIpv4 = MaskedIpv4::from_str(TEN_FIVE_32).unwrap();
    assert_eq!(net.format(Notation::Prefix), "10.0.0.5/32");
}

#[test]
fn parse_masked_ipv6_strings() {
    const FE80_ONE_10: &str = "fe80::1/10";
    const LOCALHOST_128: &str = "::/128";
    const FFFF_AAAA_16: &str = "ffff::aaaa/16";

    let net: MaskedIpv6 = MaskedIpv6::from_str(FE80_ONE_10).unwrap();
    assert_eq!(net.format(Notation::Prefix), FE80_ONE_10);
    assert_eq!(net.mask.len(), 10);
    let net: MaskedIpv6 = MaskedIpv6::from_str(LOCALHOST_128).unwrap();
    assert_eq!(net.format(Notation::Prefix), LOCALHOST_128);
    assert_eq!(net.mask.len(), 128);
    let net: MaskedIpv6 = MaskedIpv6::from_str(FFFF_AAAA_16).unwrap();
    assert_eq!(net.format(Notation::Prefix), FFFF_AAAA_16);
    assert_eq!(net.mask.len(), 16);
}

#[test]
fn masked_ipv4_contains() {
    const TEN_FOUR_12: &str = "10.0.0.4 255.240.0.0";
    let net: MaskedIpv4 = MaskedIpv4::from_str(TEN_FOUR_12).unwrap();
    assert!(net.contains(Ipv4Addr::new(10, 0, 0, 0)));
    assert!(net.contains(Ipv4Addr::new(10, 0, 0, 1)));
    assert!(net.contains(Ipv4Addr::new(10, 1, 0, 1)));
    assert!(net.contains(Ipv4Addr::new(10, 15, 255, 255)));
    assert!(!net.contains(Ipv4Addr::new(10, 16, 0, 0)));
}

#[test]
fn masked_ipv6_contains() {
    const FE80_ONE_10: &str = "fe80::1/10";
    let net: MaskedIpv6 = MaskedIpv6::from_str(FE80_ONE_10).unwrap();
    assert!(net.contains(Ipv6Addr::from_str("FE80:B::").unwrap()));
    assert!(net.contains(Ipv6Addr::from_str("FE80::").unwrap()));
    assert!(net.contains(Ipv6Addr::from_str("fe90::").unwrap()));
    assert!(net.contains(Ipv6Addr::from_str("FEB0::").unwrap()));
    assert!(!net.contains(Ipv6Addr::from_str("fe7f::").unwrap()));
    assert!(!net.contains(Ipv6Addr::from_str("fec0::").unwrap()));
}

#[test]
fn invalid_maskedv4_cidr() {
    assert!(MaskedIpv4::from_cidr_str("192.168.1.1/24/24").is_none());
    assert!(MaskedIpv4::from_cidr_str("8.8.8./32").is_none());
    assert!(MaskedIpv4::from_cidr_str("a/32").is_none());
    assert!(MaskedIpv4::from_cidr_str("192.168.1.1 255.255.255.0").is_none());
    assert!(MaskedIpv4::from_cidr_str("192.168.1.1/33").is_none());
    assert!(MaskedIpv4::from_cidr_str("192.256.1.1/32").is_none());
}

#[test]
fn invalid_maskedv6_cidr() {
    assert!(MaskedIpv6::from_cidr_str("fe80::1/129").is_none());
    assert!(MaskedIpv6::from_cidr_str("192.168.1.1/32").is_none());
    assert!(MaskedIpv6::from_cidr_str("abcd::/0.").is_none());
    assert!(MaskedIpv6::from_cidr_str("::/128/128").is_none());
}

#[test]
fn invalid_maskedv4_network() {
    assert!(MaskedIpv4::from_network_str("192.168.1.1255.255.255.255").is_none());
    assert!(MaskedIpv4::from_network_str("192.168.1.1\t255.255.255.255").is_none());
    assert!(MaskedIpv4::from_network_str("192.168.1.1  255.255.255.255").is_none());
    assert!(MaskedIpv4::from_network_str("192.168.1. 1 255.255.255.255").is_none());
    assert!(MaskedIpv4::from_network_str("192.168.1.1 255.255.255.255 ").is_none());
    assert!(MaskedIpv4::from_network_str("192.168.1.1 255.255.255").is_none());
}

#[test]
fn rejected_texts_fail_in_every_reader() {
    for text in ["192.168.1.1/24/24", "192.168.1.1/33", "192.256.1.1/32"] {
        assert!(MaskedIpv4::from_cidr_str(text).is_none(), "{:?}", text);
        assert_eq!(MaskedIpv4::from_str(text), Err(InvalidMaskedIpv4), "{:?}", text);
        assert_eq!(NetworkV4::from_str(text), Err(InvalidNetworkV4), "{:?}", text);
        assert!(MaskedIp::from_cidr_str(text).is_none(), "{:?}", text);
    }
    assert!(MaskedIpv6::from_cidr_str("fe80::1/129").is_none());
    assert_eq!(MaskedIpv6::from_str("fe80::1/129"), Err(InvalidMaskedIpv6));
    assert_eq!(NetworkV6::from_str("fe80::1/129"), Err(InvalidNetworkV6));
    assert!(MaskedIp::from_cidr_str("fe80::1/129").is_none());
    for text in [
        "", "/", " ", "10.0.0.1", "10.0.0.1/", "/8", "10.0.0.1 ", " 10.0.0.1/8", "10.0.0.1/8 ",
        "10.0.0.1 /8", "10.0.0.1/ 8", "10.0.0.1/255.0.0.0", "10.0.0.1 8", "10.0.0.1 255.0.255.0",
        "10.0.0.1\u{a0}255.0.0.0", "10.0.0.1/8\n", "１０.0.0.1/8",
    ] {
        assert_eq!(MaskedIpv4::from_str(text), Err(InvalidMaskedIpv4), "{:?}", text);
    }
    for text in ["", "::", "::/", "::/129", ":: ", ":: ffff:0:ffff::", "::1/8/8", "1.2.3.4/8"] {
        assert_eq!(MaskedIpv6::from_str(text), Err(InvalidMaskedIpv6), "{:?}", text);
    }
}

#[test]
fn network_strings_take_the_mask_as_an_address_only() {
    assert!(MaskedIpv4::from_network_str("10.0.0.1 /8").is_none());
    assert!(MaskedIpv4::from_network_str("10.0.0.1/8").is_none());
    assert_eq!(
        MaskedIpv4::from_network_str("10.0.0.1 255.0.0.0"),
        MaskedIpv4::cidr(Ipv4Addr::new(10, 0, 0, 1), 8)
    );
}

#[test]
fn masked_constructors() {
    let ip = Ipv4Addr::new(192, 168, 1, 77);
    let mask = Ipv4Mask::new(24).unwrap();
    let masked = MaskedIpv4::new(ip, mask);
    assert_eq!(masked.ip, ip);
    assert_eq!(masked.mask, mask);
    assert_eq!(MaskedIpv4::cidr(ip, 24), Some(masked));
    assert_eq!(MaskedIpv4::cidr(ip, 32).unwrap().mask.len(), 32);
    assert_eq!(MaskedIpv4::cidr(ip, 33), None);
    let ip6 = Ipv6Addr::new(0xfe80, 0, 0, 0, 0, 0, 0, 1);
    assert_eq!(MaskedIpv6::cidr(ip6, 128).unwrap().mask.len(), 128);
    assert_eq!(MaskedIpv6::cidr(ip6, 129), None);
    assert_eq!(MaskedIpv6::cidr(ip6, 10), Some(MaskedIpv6::new(ip6, Ipv6Mask::new(10).unwrap())));
}

#[test]
fn network_and_broadcast_addresses() {
    let masked = MaskedIpv4::cidr(Ipv4Addr::new(192, 168, 1, 77), 24).unwrap();
    assert_eq!(masked.network_address(), Ipv4Addr::new(192, 168, 1, 0));
    assert_eq!(masked.broadcast_address(), Ipv4Addr::new(192, 168, 1, 255));
    assert_eq!(masked.network(), MaskedIpv4::cidr(Ipv4Addr::new(192, 168, 1, 0), 24).unwrap());
    assert!(!masked.is_network_address());
    assert!(!masked.is_broadcast_address());
    assert!(masked.network().is_network_address());
    assert!(MaskedIpv4::cidr(masked.broadcast_address(), 24).unwrap().is_broadcast_address());
    assert_eq!(masked.network_bits(), 24);
    assert_eq!(masked.host_bits(), 8);

    let odd = MaskedIpv4::cidr(Ipv4Addr::new(10, 77, 200, 9), 13).unwrap();
    assert_eq!(odd.network_address(), Ipv4Addr::new(10, 72, 0, 0));
    assert_eq!(odd.broadcast_address(), Ipv4Addr::new(10, 79, 255, 255));

    let v6 = MaskedIpv6::cidr(Ipv6Addr::new(0xfe80, 1, 2, 3, 4, 5, 6, 7), 48).unwrap();
    assert_eq!(v6.network_address(), Ipv6Addr::new(0xfe80, 1, 2, 0, 0, 0, 0, 0));
    assert_eq!(v6.network().ip, Ipv6Addr::new(0xfe80, 1, 2, 0, 0, 0, 0, 0));
    assert!(v6.network().is_network_address());
    assert!(!v6.is_network_address());
    assert_eq!(v6.network_bits(), 48);
    assert_eq!(v6.host_bits(), 80);
}

#[test]
fn point_masks_have_neither_network_nor_broadcast_address() {
    for len in [31u8, 32] {
        for last in [0u8, 1, 254, 255] {
            let masked = MaskedIpv4::cidr(Ipv4Addr::new(10, 0, 0, last), len).unwrap();
            assert!(!masked.is_network_address());
            assert!(!masked.is_broadcast_address());
        }
    }
    assert!(MaskedIpv4::cidr(Ipv4Addr::new(10, 0, 0, 0), 30).unwrap().is_network_address());
    assert!(MaskedIpv4::cidr(Ipv4Addr::new(10, 0, 0, 3), 30).unwrap().is_broadcast_address());
    assert!(MaskedIpv4::cidr(Ipv4Addr::new(0, 0, 0, 0), 0).unwrap().is_network_address());
    assert!(MaskedIpv4::cidr(Ipv4Addr::new(255, 255, 255, 255), 0).unwrap().is_broadcast_address());
    for len in [127u8, 128] {
        let masked = MaskedIpv6::cidr(Ipv6Addr::new(0xfe80, 0, 0, 0, 0, 0, 0, 0), len).unwrap();
        assert!(!masked.is_network_address());
    }
    assert!(MaskedIpv6::cidr(Ipv6Addr::new(0xfe80, 0, 0, 0, 0, 0, 0, 0), 126).unwrap().is_network_address());
}

#[test]
fn host_counts() {
    let at = |len: u8| MaskedIpv4::cidr(Ipv4Addr::new(10, 0, 0, 0), len).unwrap();
    assert_eq!(at(32).host_count(), 1);
    assert_eq!(at(31).host_count(), 2);
    assert_eq!(at(30).host_count(), 2);
    assert_eq!(at(29).host_count(), 6);
    assert_eq!(at(24).host_count(), 254);
    assert_eq!(at(16).host_count(), 65534);
    assert_eq!(at(8).host_count(), 16_777_214);
    assert_eq!(at(0).host_count_u64(), 4_294_967_294);
    assert_eq!(at(0).host_count() as u64, 4_294_967_294);
    for len in 0..=32u8 {
        let want: u64 = match 32 - len {
            0 => 1,
            1 => 2,
            bits => (1u64 << bits) - 2,
        };
        assert_eq!(at(len).host_count_u64(), want);
        assert_eq!(at(len).host_count() as u64, want);
        assert_eq!(MaskedIp::V4(at(len)).host_count(), want as u128);
    }
    let at6 = |len: u8| MaskedIpv6::cidr(Ipv6Addr::new(0xfe80, 0, 0, 0, 0, 0, 0, 0), len).unwrap();
    assert_eq!(at6(128).host_count(), 1);
    assert_eq!(at6(127).host_count(), 2);
    assert_eq!(at6(126).host_count(), 2);
    assert_eq!(at6(64).host_count(), (1u128 << 64) - 2);
    assert_eq!(at6(1).host_count(), (1u128 << 127) - 2);
    assert_eq!(at6(0).host_count(), u128::MAX - 1);
    assert_eq!(MaskedIp::V6(at6(64)).host_count(), (1u128 << 64) - 2);
}

#[test]
fn network_counts() {
    let net = MaskedIpv4::cidr(Ipv4Addr::new(10, 0, 0, 0), 24).unwrap();
    assert_eq!(net.network_count(23), 0);
    assert_eq!(net.network_count(0), 0);
    assert_eq!(net.network_count(24), 1);
    assert_eq!(net.network_count(25), 2);
    assert_eq!(net.network_count(26), 4);
    assert_eq!(net.network_count(32), 256);
    assert_eq!(net.network_count_u64(32), 256);
    assert_eq!(net.network_count_u64(23), 0);
    let all = MaskedIpv4::cidr(Ipv4Addr::new(0, 0, 0, 0), 0).unwrap();
    assert_eq!(all.network_count_u64(32), 1u64 << 32);
    assert_eq!(all.network_count_u64(0), 1);
    assert_eq!(MaskedIp::V4(all).network_count(32), 1u128 << 32);
    let v6 = MaskedIpv6::cidr(Ipv6Addr::new(0x2001, 0xdb8, 0, 0, 0, 0, 0, 0), 48).unwrap();
    assert_eq!(v6.network_count(47), 0);
    assert_eq!(v6.network_count(48), 1);
    assert_eq!(v6.network_count(64), 65536);
    assert_eq!(v6.network_count(128), 1u128 << 80);
    assert_eq!(MaskedIp::V6(v6).network_count(64), 65536);
    let all6 = MaskedIpv6::cidr(Ipv6Addr::new(0, 0, 0, 0, 0, 0, 0, 0), 0).unwrap();
    assert_eq!(all6.network_count(127), 1u128 << 127);
    let one6 = MaskedIpv6::cidr(Ipv6Addr::new(0, 0, 0, 0, 0, 0, 0, 0), 1).unwrap();
    assert_eq!(one6.network_count(128), 1u128 << 127);
}

#[test]
fn containment_holds_the_edges_of_the_network() {
    let net = MaskedIpv4::from_cidr_str("10.0.0.4/12").unwrap();
    assert!(net.contains(net.network_address()));
    assert!(net.contains(net.broadcast_address()));
    assert!(net.contains(Ipv4Addr::new(10, 0, 0, 0)));
    assert!(net.contains(Ipv4Addr::new(10, 15, 255, 255)));
    assert!(!net.contains(Ipv4Addr::new(10, 16, 0, 0)));
    assert!(!net.contains(Ipv4Addr::new(9, 255, 255, 255)));
    let everything = MaskedIpv4::from_cidr_str("1.2.3.4/0").unwrap();
    assert!(everything.contains(Ipv4Addr::new(255, 255, 255, 255)));
    let single = MaskedIpv4::from_cidr_str("1.2.3.4/32").unwrap();
    assert!(single.contains(Ipv4Addr::new(1, 2, 3, 4)));
    assert!(!single.contains(Ipv4Addr::new(1, 2, 3, 5)));
}

#[test]
fn the_union_never_mixes_families() {
    let v4 = MaskedIp::from_cidr_str("10.0.0.4/12").unwrap();
    let v6 = MaskedIp::from_cidr_str("fe80::1/10").unwrap();
    assert_eq!(v4, MaskedIp::V4(MaskedIpv4::cidr(Ipv4Addr::new(10, 0, 0, 4), 12).unwrap()));
    assert_eq!(
        v6,
        MaskedIp::V6(MaskedIpv6::cidr(Ipv6Addr::new(0xfe80, 0, 0, 0, 0, 0, 0, 1), 10).unwrap())
    );
    assert!(v4 != v6);
    assert!(v4.contains(IpAddr::V4(Ipv4Addr::new(10, 1, 0, 1))));
    assert!(!v4.contains(IpAddr::V4(Ipv4Addr::new(10, 16, 0, 0))));
    assert!(!v4.contains(IpAddr::V6(Ipv6Addr::new(0, 0, 0, 0, 0, 0, 0x0a01, 1))));
    assert!(v6.contains(IpAddr::V6(Ipv6Addr::new(0xfe90, 0, 0, 0, 0, 0, 0, 0))));
    assert!(!v6.contains(IpAddr::V6(Ipv6Addr::new(0xfec0, 0, 0, 0, 0, 0, 0, 0))));
    assert!(!v6.contains(IpAddr::V4(Ipv4Addr::new(254, 128, 0, 0))));
    assert_eq!(v4.to_cidr_string(), "10.0.0.4/12");
    assert_eq!(v6.to_cidr_string(), "fe80::1/10");
    assert_eq!(v4.network_address(), IpAddr::V4(Ipv4Addr::new(10, 0, 0, 0)));
    assert_eq!(v6.network_address(), IpAddr::V6(Ipv6Addr::new(0xfe80, 0, 0, 0, 0, 0, 0, 0)));
    assert_eq!(v4.network().to_cidr_string(), "10.0.0.0/12");
    assert_eq!(v6.network().to_cidr_string(), "fe80::/10");
    assert_eq!(v4.network_bits(), 12);
    assert_eq!(v4.host_bits(), 20);
    assert_eq!(v6.network_bits(), 10);
    assert_eq!(v6.host_bits(), 118);
    assert!(!v4.is_network_address());
    assert!(v4.network().is_network_address());
    assert!(v6.network().is_network_address());
    assert!(!v4.is_broadcast_address());
    assert!(MaskedIp::from_cidr_str("10.15.255.255/12").unwrap().is_broadcast_address());
    assert!(!MaskedIp::from_cidr_str("ffff:ffff:ffff:ffff:ffff:ffff:ffff:ffff/10").unwrap().is_broadcast_address());
    assert!(MaskedIp::from_cidr_str("10.0.0.4/33").is_none());
    assert!(MaskedIp::from_cidr_str("::1/33").is_some());
    assert!(MaskedIp::from_cidr_str("10.0.0.4").is_none());
    assert_eq!(InvalidMaskedIp.message(), "invalid masked IP");
}

#[test]
fn cidr_and_network_strings() {
    let masked = MaskedIpv4::cidr(Ipv4Addr::new(192, 168, 1, 1), 24).unwrap();
    assert_eq!(masked.to_cidr_string(), "192.168.1.1/24");
    assert_eq!(masked.to_network_string(), "192.168.1.1 255.255.255.0");
    assert_eq!(MaskedIpv4::from_cidr_str("192.168.1.1/24"), Some(masked));
    assert_eq!(MaskedIpv4::from_network_str("192.168.1.1 255.255.255.0"), Some(masked));
    let v6 = MaskedIpv6::cidr(Ipv6Addr::new(0xfe80, 0, 0, 0, 0, 0, 0, 0), 10).unwrap();
    assert_eq!(v6.to_cidr_str(), "fe80::/10");
    assert_eq!(v6.format(Notation::Address), "fe80:: ffc0::");
    assert_eq!(MaskedIpv6::from_cidr_str("fe80::/10"), Some(v6));
    assert_eq!(MaskedIpv6::from_str("fe80:: ffc0::"), Ok(v6));
    assert_eq!(MaskedIpv6::from_str("fe80::/10"), Ok(v6));
}

#[test]
fn networks_are_canonical() {
    let net = NetworkV4::new(Ipv4Addr::new(192, 168, 1, 77), Ipv4Mask::new(24).unwrap());
    assert_eq!(net.ip(), Ipv4Addr::new(192, 168, 1, 0));
    assert_eq!(net.mask().len(), 24);
    assert_eq!(NetworkV4::cidr(Ipv4Addr::new(192, 168, 1, 1), 24), Some(net));
    assert_eq!(NetworkV4::cidr(Ipv4Addr::new(192, 168, 1, 1), 33), None);
    assert_eq!(MaskedIpv4::cidr(Ipv4Addr::new(192, 168, 1, 200), 24).unwrap().to_network(), net);
    assert_eq!(net.to_masked(), MaskedIpv4::cidr(Ipv4Addr::new(192, 168, 1, 0), 24).unwrap());
    let net6 = NetworkV6::new(Ipv6Addr::new(0xfe80, 1, 2, 3, 4, 5, 6, 7), Ipv6Mask::new(20).unwrap());
    assert_eq!(net6.ip(), Ipv6Addr::new(0xfe80, 0, 0, 0, 0, 0, 0, 0));
    assert_eq!(net6.mask().len(), 20);
    assert_eq!(NetworkV6::cidr(Ipv6Addr::new(0xfe80, 0x0abc, 0, 0, 0, 0, 0, 0), 20), Some(net6));
    assert_eq!(NetworkV6::cidr(Ipv6Addr::new(0xfe80, 0, 0, 0, 0, 0, 0, 0), 129), None);
    assert_eq!(
        MaskedIpv6::cidr(Ipv6Addr::new(0xfe80, 0x0fff, 9, 9, 9, 9, 9, 9), 20).unwrap().to_network(),
        net6
    );
}

#[test]
fn network_text_round_trips_in_both_notations() {
    let ips = [
        Ipv4Addr::new(0, 0, 0, 0),
        Ipv4Addr::new(255, 255, 255, 255),
        Ipv4Addr::new(192, 168, 1, 77),
        Ipv4Addr::new(10, 100, 9, 0),
        Ipv4Addr::new(1, 20, 255, 200),
    ];
    for ip in ips {
        for len in 0..=32u8 {
            let net = NetworkV4::cidr(ip, len).unwrap();
            let masked = MaskedIpv4::cidr(ip, len).unwrap();
            for notation in [Notation::Address, Notation::Prefix] {
                assert_eq!(NetworkV4::from_str(&net.format(notation)), Ok(net));
                assert_eq!(MaskedIpv4::from_str(&masked.format(notation)), Ok(masked));
            }
            assert_eq!(MaskedIpv4::from_cidr_str(&masked.to_cidr_string()), Some(masked));
            assert_eq!(MaskedIpv4::from_network_str(&masked.to_network_string()), Some(masked));
        }
    }
    let ips6 = [
        Ipv6Addr::new(0, 0, 0, 0, 0, 0, 0, 0),
        Ipv6Addr::new(0, 0, 0, 0, 0, 0, 0, 1),
        Ipv6Addr::new(0xffff, 0xffff, 0xffff, 0xffff, 0xffff, 0xffff, 0xffff, 0xffff),
        Ipv6Addr::new(0xfe80, 0, 0, 0, 0x1234, 0, 0, 1),
        Ipv6Addr::new(0, 0, 0, 0, 0, 0xffff, 0xc0a8, 0x0101),
        Ipv6Addr::new(1, 0, 0, 2, 0, 0, 0, 3),
        Ipv6Addr::new(1, 0, 2, 0, 3, 0, 4, 0),
        Ipv6Addr::new(0, 0, 1, 0, 0, 1, 0, 0),
        Ipv6Addr::new(0x2001, 0xdb8, 0, 0, 0, 0, 0, 0),
    ];
    for ip in ips6 {
        for len in 0..=128u8 {
            let net = NetworkV6::cidr(ip, len).unwrap();
            let masked = MaskedIpv6::cidr(ip, len).unwrap();
            for notation in [Notation::Address, Notation::Prefix] {
                assert_eq!(NetworkV6::from_str(&net.format(notation)), Ok(net));
                assert_eq!(MaskedIpv6::from_str(&masked.format(notation)), Ok(masked));
            }
            assert_eq!(MaskedIpv6::from_cidr_str(&masked.to_cidr_str()), Some(masked));
        }
    }
}

#[test]
fn networks_read_any_address_of_the_network() {
    let net = NetworkV4::cidr(Ipv4Addr::new(192, 168, 1, 0), 24).unwrap();
    assert_eq!(NetworkV4::from_str("192.168.1.0 255.255.255.0"), Ok(net));
    assert_eq!(NetworkV4::from_str("192.168.1.0/24"), Ok(net));
    assert_eq!(NetworkV4::from_str("192.168.1.1/24"), Ok(net));
    assert_eq!(net.format(Notation::Prefix), "192.168.1.0/24");
    assert_eq!(net.format(Notation::Address), "192.168.1.0 255.255.255.0");
    let net6 = NetworkV6::cidr(Ipv6Addr::new(0xfe80, 0, 0, 0, 0, 0, 0, 0), 10).unwrap();
    assert_eq!(NetworkV6::from_str("febf::1/10"), Ok(net6));
    assert_eq!(net6.format(Notation::Prefix), "fe80::/10");
    assert_eq!(net6.format(Notation::Address), "fe80:: ffc0::");
}

#[test]
fn masked_error_messages() {
    assert_eq!(InvalidMaskedIpv4.message(), "invalid masked IPv4");
    assert_eq!(InvalidMaskedIpv6.message(), "invalid masked IPv6");
    assert_eq!(InvalidNetworkV4.message(), "invalid IPv4 network");
    assert_eq!(InvalidNetworkV6.message(), "invalid IPv6 network");
}

#[test]
fn the_union_reads_either_family_in_either_notation() {
    let v4 = MaskedIp::V4(MaskedIpv4::cidr(Ipv4Addr::new(10, 0, 0, 4), 12).unwrap());
    let v6 = MaskedIp::V6(MaskedIpv6::cidr(Ipv6Addr::new(0xfe80, 0, 0, 0, 0, 0, 0, 1), 10).unwrap());
    assert_eq!(MaskedIp::from_str("10.0.0.4/12"), Ok(v4));
    assert_eq!(MaskedIp::from_str("10.0.0.4 255.240.0.0"), Ok(v4));
    assert_eq!(MaskedIp::from_str("fe80::1/10"), Ok(v6));
    assert_eq!(MaskedIp::from_str("fe80::1 ffc0::"), Ok(v6));
    assert_eq!(v4.format(Notation::Address), "10.0.0.4 255.240.0.0");
    assert_eq!(v4.format(Notation::Prefix), "10.0.0.4/12");
    assert_eq!(v6.format(Notation::Address), "fe80::1 ffc0::");
    assert_eq!(v6.format(Notation::Prefix), "fe80::1/10");
    for masked in [v4, v6] {
        for notation in [Notation::Address, Notation::Prefix] {
            assert_eq!(MaskedIp::from_str(&masked.format(notation)), Ok(masked));
        }
        assert_eq!(MaskedIp::from_cidr_str(&masked.to_cidr_string()), Some(masked));
    }
    for text in [
        "", "10.0.0.4", "fe80::1", "10.0.0.4/33", "fe80::1/129", "10.0.0.4 ffc0::",
        "fe80::1 255.240.0.0", "10.0.0.4/12/12", "::ffff:10.0.0.4 255.240.0.0",
    ] {
        assert_eq!(MaskedIp::from_str(text), Err(InvalidMaskedIp), "{:?}", text);
    }
    assert_eq!(
        MaskedIp::from_str("::ffff:10.0.0.4/100"),
        Ok(MaskedIp::V6(
            MaskedIpv6::cidr(Ipv6Addr::new(0, 0, 0, 0, 0, 0xffff, 0x0a00, 4), 100).unwrap()
        ))
    );
}
