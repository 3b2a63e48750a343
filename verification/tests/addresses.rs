use ipstuff::{AddrParseError, IpAddr, Ipv4Addr, Ipv6Addr};

#[test]
fn ipv4_octets_and_bits() {
    let ip = Ipv4Addr::new(192, 168, 1, 77);
    assert_eq!(ip.octets(), [192, 168, 1, 77]);
    assert_eq!(ip.as_octets(), &[192, 168, 1, 77]);
    assert_eq!(Ipv4Addr::from_octets([192, 168, 1, 77]), ip);
    assert_eq!(ip.to_bits(), 0xC0A8_014D);
    assert_eq!(Ipv4Addr::from_bits(0xC0A8_014D), ip);
    assert_eq!(Ipv4Addr::localhost(), Ipv4Addr::new(127, 0, 0, 1));
    assert_eq!(Ipv4Addr::unspecified(), Ipv4Addr::new(0, 0, 0, 0));
    assert_eq!(Ipv4Addr::BITS, 32);
    assert!(Ipv4Addr::new(1, 2, 3, 4) < Ipv4Addr::new(1, 2, 4, 0));
    assert!(Ipv4Addr::new(2, 0, 0, 0) > Ipv4Addr::new(1, 255, 255, 255));
}

#[test]
fn ipv6_octets_segments_and_bits() {
    let ip = Ipv6Addr::new(0xfe80, 0, 0, 0, 0x0102, 0x0304, 0x0506, 0x0708);
    assert_eq!(ip.segments(), [0xfe80, 0, 0, 0, 0x0102, 0x0304, 0x0506, 0x0708]);
    assert_eq!(ip.octets(), [0xfe, 0x80, 0, 0, 0, 0, 0, 0, 1, 2, 3, 4, 5, 6, 7, 8]);
    assert_eq!(ip.as_octets(), &ip.octets());
    assert_eq!(Ipv6Addr::from_octets(ip.octets()), ip);
    assert_eq!(Ipv6Addr::from_segments(ip.segments()), ip);
    assert_eq!(ip.to_bits(), 0xfe80_0000_0000_0000_0102_0304_0506_0708);
    assert_eq!(Ipv6Addr::from_bits(0xfe80_0000_0000_0000_0102_0304_0506_0708), ip);
    assert_eq!(Ipv6Addr::localhost(), Ipv6Addr::new(0, 0, 0, 0, 0, 0, 0, 1));
    assert_eq!(Ipv6Addr::unspecified(), Ipv6Addr::new(0, 0, 0, 0, 0, 0, 0, 0));
    assert_eq!(Ipv6Addr::BITS, 128);
    assert!(Ipv6Addr::new(0, 0, 0, 0, 0, 0, 0, 1) < Ipv6Addr::new(0, 0, 0, 0, 0, 0, 1, 0));
    assert!(IpAddr::V4(Ipv4Addr::new(255, 255, 255, 255)) < IpAddr::V6(Ipv6Addr::unspecified()));
}

#[test]
fn ipv4_classes() {
    assert!(Ipv4Addr::new(0, 0, 0, 0).is_unspecified());
    assert!(!Ipv4Addr::new(0, 0, 0, 1).is_unspecified());
    assert!(Ipv4Addr::new(127, 0, 0, 1).is_loopback());
    assert!(Ipv4Addr::new(127, 255, 255, 255).is_loopback());
    assert!(!Ipv4Addr::new(128, 0, 0, 1).is_loopback());
    assert!(Ipv4Addr::new(10, 0, 0, 1).is_private());
    assert!(Ipv4Addr::new(172, 16, 0, 1).is_private());
    assert!(Ipv4Addr::new(172, 31, 255, 255).is_private());
    assert!(!Ipv4Addr::new(172, 32, 0, 0).is_private());
    assert!(!Ipv4Addr::new(172, 15, 0, 0).is_private());
    assert!(Ipv4Addr::new(192, 168, 0, 1).is_private());
    assert!(!Ipv4Addr::new(192, 169, 0, 1).is_private());
    assert!(Ipv4Addr::new(169, 254, 0, 1).is_link_local());
    assert!(!Ipv4Addr::new(169, 255, 0, 1).is_link_local());
    assert!(Ipv4Addr::new(224, 0, 0, 1).is_multicast());
    assert!(Ipv4Addr::new(239, 255, 255, 255).is_multicast());
    assert!(!Ipv4Addr::new(240, 0, 0, 0).is_multicast());
    assert!(!Ipv4Addr::new(223, 255, 255, 255).is_multicast());
    assert!(Ipv4Addr::new(255, 255, 255, 255).is_broadcast());
    assert!(!Ipv4Addr::new(255, 255, 255, 254).is_broadcast());
    assert!(Ipv4Addr::new(192, 0, 2, 1).is_documentation());
    assert!(Ipv4Addr::new(198, 51, 100, 1).is_documentation());
    assert!(Ipv4Addr::new(203, 0, 113, 1).is_documentation());
    assert!(!Ipv4Addr::new(203, 0, 114, 1).is_documentation());
    assert!(Ipv4Addr::new(100, 64, 0, 0).is_shared());
    assert!(Ipv4Addr::new(100, 127, 255, 255).is_shared());
    assert!(!Ipv4Addr::new(100, 128, 0, 0).is_shared());
    assert!(!Ipv4Addr::new(100, 63, 0, 0).is_shared());
    assert!(Ipv4Addr::new(198, 18, 0, 0).is_benchmarking());
    assert!(Ipv4Addr::new(198, 19, 255, 255).is_benchmarking());
    assert!(!Ipv4Addr::new(198, 20, 0, 0).is_benchmarking());
    assert!(Ipv4Addr::new(240, 0, 0, 0).is_reserved());
    assert!(Ipv4Addr::new(255, 255, 255, 254).is_reserved());
    assert!(!Ipv4Addr::new(255, 255, 255, 255).is_reserved());
    assert!(!Ipv4Addr::new(239, 0, 0, 0).is_reserved());
}

#[test]
fn ipv6_classes() {
    assert!(Ipv6Addr::new(0, 0, 0, 0, 0, 0, 0, 0).is_unspecified());
    assert!(!Ipv6Addr::new(0, 0, 0, 0, 0, 0, 0, 1).is_unspecified());
    assert!(Ipv6Addr::new(0, 0, 0, 0, 0, 0, 0, 1).is_loopback());
    assert!(!Ipv6Addr::new(0, 0, 0, 0, 0, 0, 0, 2).is_loopback());
    assert!(!Ipv6Addr::new(1, 0, 0, 0, 0, 0, 0, 1).is_loopback());
    assert!(Ipv6Addr::new(0xff02, 0, 0, 0, 0, 0, 0, 1).is_multicast());
    assert!(!Ipv6Addr::new(0xfe02, 0, 0, 0, 0, 0, 0, 1).is_multicast());
    assert!(Ipv6Addr::new(0xfe02, 0, 0, 0, 0, 0, 0, 1).is_unicast());
    assert!(!Ipv6Addr::new(0xff02, 0, 0, 0, 0, 0, 0, 1).is_unicast());
    assert!(Ipv6Addr::new(0xfe80, 0, 0, 0, 0, 0, 0, 1).is_unicast_link_local());
    assert!(Ipv6Addr::new(0xfebf, 0xffff, 0, 0, 0, 0, 0, 1).is_unicast_link_local());
    assert!(!Ipv6Addr::new(0xfec0, 0, 0, 0, 0, 0, 0, 1).is_unicast_link_local());
    assert!(!Ipv6Addr::new(0xfe7f, 0, 0, 0, 0, 0, 0, 1).is_unicast_link_local());
    assert!(Ipv6Addr::new(0x2001, 2, 0, 9, 9, 9, 9, 9).is_benchmarking());
    assert!(!Ipv6Addr::new(0x2001, 2, 1, 0, 0, 0, 0, 0).is_benchmarking());
    assert!(Ipv6Addr::new(0, 0, 0, 0, 0, 0xffff, 0xc000, 0x0201).is_ipv4_mapped());
    assert!(!Ipv6Addr::new(0, 0, 0, 0, 0, 0xfffe, 0xc000, 0x0201).is_ipv4_mapped());
    assert!(!Ipv6Addr::new(0, 0, 0, 0, 1, 0xffff, 0xc000, 0x0201).is_ipv4_mapped());
}

#[test]
fn conversions_between_the_families() {
    let v4 = Ipv4Addr::new(192, 0, 2, 1);
    let mapped = Ipv6Addr::new(0, 0, 0, 0, 0, 0xffff, 0xc000, 0x0201);
    let compatible = Ipv6Addr::new(0, 0, 0, 0, 0, 0, 0xc000, 0x0201);
    assert_eq!(v4.to_ipv6_mapped(), mapped);
    assert_eq!(v4.to_ipv6_compatible(), compatible);
    assert_eq!(mapped.to_ipv4_mapped(), Some(v4));
    assert_eq!(compatible.to_ipv4_mapped(), None);
    assert_eq!(mapped.to_ipv4(), Some(v4));
    assert_eq!(compatible.to_ipv4(), Some(v4));
    assert_eq!(Ipv6Addr::localhost().to_ipv4(), Some(Ipv4Addr::new(0, 0, 0, 1)));
    assert_eq!(Ipv6Addr::new(0xfe80, 0, 0, 0, 0, 0, 0xc000, 0x0201).to_ipv4(), None);
    assert_eq!(Ipv6Addr::new(0, 0, 0, 0, 0, 0xff, 0xc000, 0x0201).to_ipv4(), None);
    assert_eq!(mapped.to_canonical(), IpAddr::V4(v4));
    assert_eq!(compatible.to_canonical(), IpAddr::V6(compatible));
}

#[test]
fn ipv4_text() {
    assert_eq!(Ipv4Addr::from_str("192.168.1.1"), Ok(Ipv4Addr::new(192, 168, 1, 1)));
    assert_eq!(Ipv4Addr::from_str("0.0.0.0"), Ok(Ipv4Addr::new(0, 0, 0, 0)));
    assert_eq!(Ipv4Addr::from_str("255.255.255.255"), Ok(Ipv4Addr::new(255, 255, 255, 255)));
    assert_eq!(Ipv4Addr::parse_ascii(b"10.20.30.40"), Ok(Ipv4Addr::new(10, 20, 30, 40)));
    assert_eq!(Ipv4Addr::new(192, 168, 1, 1).to_string(), "192.168.1.1");
    assert_eq!(Ipv4Addr::new(0, 10, 100, 255).to_string(), "0.10.100.255");
    for text in [
        "", ".", "...", "1", "1.2.3", "1.2.3.", ".1.2.3", "1.2.3.4.", "1.2.3.4.5", "1..2.3",
        "256.1.1.1", "1.1.1.256", "1.1.1.1000", "01.1.1.1", "1.1.1.00", "1.1.1.-1", "1.1.1.+1",
        "1.1.1.1 ", " 1.1.1.1", "1.1.1.a", "1,1,1,1", "::1", "0x1.1.1.1", "1.1.1.１",
    ] {
        assert_eq!(Ipv4Addr::from_str(text), Err(AddrParseError), "{:?}", text);
    }
}

#[test]
fn ipv6_text_is_read() {
    let cases: [(&str, [u16; 8]); 22] = [
        ("::", [0, 0, 0, 0, 0, 0, 0, 0]),
        ("::1", [0, 0, 0, 0, 0, 0, 0, 1]),
        ("1::", [1, 0, 0, 0, 0, 0, 0, 0]),
        ("fe80::1", [0xfe80, 0, 0, 0, 0, 0, 0, 1]),
        ("FE80::ABCD", [0xfe80, 0, 0, 0, 0, 0, 0, 0xabcd]),
        ("1:2:3:4:5:6:7:8", [1, 2, 3, 4, 5, 6, 7, 8]),
        ("0001:0002:0003:0004:0005:0006:0007:0008", [1, 2, 3, 4, 5, 6, 7, 8]),
        ("1:2:3:4:5:6:7::", [1, 2, 3, 4, 5, 6, 7, 0]),
        ("::2:3:4:5:6:7:8", [0, 2, 3, 4, 5, 6, 7, 8]),
        ("1::3:4:5:6:7:8", [1, 0, 3, 4, 5, 6, 7, 8]),
        ("1:2:3::6:7:8", [1, 2, 3, 0, 0, 6, 7, 8]),
        ("::ffff:192.0.2.1", [0, 0, 0, 0, 0, 0xffff, 0xc000, 0x0201]),
        ("::192.0.2.1", [0, 0, 0, 0, 0, 0, 0xc000, 0x0201]),
        ("1:2:3:4:5:6:192.0.2.1", [1, 2, 3, 4, 5, 6, 0xc000, 0x0201]),
        ("1:2:3:4:5::192.0.2.1", [1, 2, 3, 4, 5, 0, 0xc000, 0x0201]),
        ("::1:2:3:4:5:192.0.2.1", [0, 1, 2, 3, 4, 5, 0xc000, 0x0201]),
        ("64:ff9b::255.255.255.255", [0x64, 0xff9b, 0, 0, 0, 0, 0xffff, 0xffff]),
        ("0:0:0:0:0:0:0:0", [0, 0, 0, 0, 0, 0, 0, 0]),
        ("ffff:ffff:ffff:ffff:ffff:ffff:ffff:ffff", [0xffff; 8]),
        ("a:b:c:d:e:f:0:1", [0xa, 0xb, 0xc, 0xd, 0xe, 0xf, 0, 1]),
        ("::0", [0, 0, 0, 0, 0, 0, 0, 0]),
        ("0::0", [0, 0, 0, 0, 0, 0, 0, 0]),
    ];
    for (text, segments) in cases {
        assert_eq!(
            Ipv6Addr::from_str(text),
            Ok(Ipv6Addr::from_segments(segments)),
            "{:?}",
            text
        );
        assert_eq!(Ipv6Addr::parse_ascii(text.as_bytes()), Ok(Ipv6Addr::from_segments(segments)));
    }
}

#[test]
fn ipv6_text_is_refused() {
    for text in [
        "", ":", ":::", "::::", "1", "1:2", "1:2:3:4:5:6:7", "1:2:3:4:5:6:7:8:9", "1:2:3:4:5:6:7:8::",
        "::1:2:3:4:5:6:7:8", "1::2::3", "1:::2", ":1::", "::1:", ":1", "1:", "12345::", "::12345",
        "g::", "::g", "1:2:3:4:5:6:7:", ":1:2:3:4:5:6:7", "1.2.3.4", "1.2.3.4::", "::1.2.3.4:5",
        "::1.2.3", "::1.2.3.4.5", "::01.2.3.4", "::256.1.1.1", "1:2:3:4:5:6:7:1.2.3.4",
        "1:2:3:4:5:6::1.2.3.4", "1:2:3:4:5:1.2.3.4", "::1.2.3.4 ", " ::1", "::1 ", "fe80::1%eth0",
        "[::1]", "::ffff:1.2.3.4:", "0x1::", "-1::", "+1::", "::１",
    ] {
        assert_eq!(Ipv6Addr::from_str(text), Err(AddrParseError), "{:?}", text);
    }
}

#[test]
fn ipv6_text_is_written() {
    let cases: [([u16; 8], &str); 18] = [
        ([0, 0, 0, 0, 0, 0, 0, 0], "::"),
        ([0, 0, 0, 0, 0, 0, 0, 1], "::1"),
        ([1, 0, 0, 0, 0, 0, 0, 0], "1::"),
        ([0xfe80, 0, 0, 0, 0, 0, 0, 1], "fe80::1"),
        ([1, 2, 3, 4, 5, 6, 7, 8], "1:2:3:4:5:6:7:8"),
        ([0xABCD, 0x0EF0, 0x0012, 0x0003, 0, 0xFFFF, 0x1000, 0x0100], "abcd:ef0:12:3:0:ffff:1000:100"),
        ([1, 0, 2, 3, 4, 5, 6, 7], "1:0:2:3:4:5:6:7"),
        ([1, 0, 0, 2, 0, 0, 0, 3], "1:0:0:2::3"),
        ([1, 0, 0, 0, 2, 0, 0, 0], "1::2:0:0:0"),
        ([0, 0, 1, 0, 0, 1, 0, 0], "::1:0:0:1:0:0"),
        ([1, 0, 0, 1, 0, 0, 0, 0], "1:0:0:1::"),
        ([0, 1, 0, 1, 0, 1, 0, 1], "0:1:0:1:0:1:0:1"),
        ([1, 2, 3, 4, 5, 6, 0, 0], "1:2:3:4:5:6::"),
        ([0, 0, 3, 4, 5, 6, 7, 8], "::3:4:5:6:7:8"),
        ([0, 0, 0, 0, 0, 0xffff, 0xc000, 0x0201], "::ffff:192.0.2.1"),
        ([0, 0, 0, 0, 0, 0xffff, 0, 0], "::ffff:0.0.0.0"),
        ([0, 0, 0, 0, 0, 0, 0xc000, 0x0201], "::c000:201"),
        ([0, 0, 0, 0, 0, 0xfffe, 0xc000, 0x0201], "::fffe:c000:201"),
    ];
    for (segments, text) in cases {
        let ip = Ipv6Addr::from_segments(segments);
        assert_eq!(ip.to_string(), text);
        assert_eq!(Ipv6Addr::from_str(text), Ok(ip));
    }
}

#[test]
fn either_family_text() {
    assert_eq!(IpAddr::from_str("10.0.0.1"), Ok(IpAddr::V4(Ipv4Addr::new(10, 0, 0, 1))));
    assert_eq!(
        IpAddr::from_str("::ffff:10.0.0.1"),
        Ok(IpAddr::V6(Ipv6Addr::new(0, 0, 0, 0, 0, 0xffff, 0x0a00, 1)))
    );
    assert_eq!(IpAddr::parse_ascii(b"fe80::"), Ok(IpAddr::V6(Ipv6Addr::new(0xfe80, 0, 0, 0, 0, 0, 0, 0))));
    assert_eq!(IpAddr::from_str("10.0.0"), Err(AddrParseError));
    assert_eq!(IpAddr::from_str(""), Err(AddrParseError));
    assert_eq!(IpAddr::V4(Ipv4Addr::new(10, 0, 0, 1)).to_string(), "10.0.0.1");
    assert_eq!(IpAddr::V6(Ipv6Addr::new(0xfe80, 0, 0, 0, 0, 0, 0, 0)).to_string(), "fe80::");
    assert_eq!(AddrParseError.message(), "invalid IP address syntax");
}

#[test]
fn an_ipv4_address_has_one_text_only() {
    let mut x: u32 = 0x1234_5678;
    for _ in 0..500 {
        x = x.wrapping_mul(1_664_525).wrapping_add(1_013_904_223);
        let ip = Ipv4Addr::from_bits(x);
        let text = ip.to_string();
        assert_eq!(Ipv4Addr::from_str(&text), Ok(ip));
        let [a, b, c, d] = ip.octets();
        assert_eq!(text, format!("{}.{}.{}.{}", a, b, c, d));
        let padded = format!("{:03}.{}.{}.{}", a, b, c, d);
        assert_eq!(Ipv4Addr::from_str(&padded).is_ok(), padded == text);
    }
}

#[test]
fn ipv6_text_round_trips() {
    let mut x: u64 = 0x9E37_79B9_7F4A_7C15;
    for round in 0..3000 {
        let mut segments = [0u16; 8];
        for segment in segments.iter_mut() {
            x ^= x << 13;
            x ^= x >> 7;
            x ^= x << 17;
            *segment = match x % 5 {
                0 | 1 => 0,
                2 => (x >> 16) as u16 & 0xff,
                3 => 0xffff,
                _ => (x >> 16) as u16,
            };
        }
        if round % 7 == 0 {
            segments[0] = 0;
            segments[1] = 0;
            segments[2] = 0;
            segments[3] = 0;
            segments[4] = 0;
            segments[5] = 0xffff;
        }
        let ip = Ipv6Addr::from_segments(segments);
        let text = ip.to_string();
        assert_eq!(Ipv6Addr::from_str(&text), Ok(ip), "{:?}", text);
        assert_eq!(Ipv6Addr::from_str(&text.to_uppercase()), Ok(ip), "{:?}", text);
        assert!(!text.contains(":::"));
        assert!(text.matches("::").count() <= 1);
        assert!(Ipv4Addr::from_str(&text).is_err());
    }
}
