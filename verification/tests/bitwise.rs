use ipstuff::{IpBitwiseExt, IpBitwiseNotExt, Ipv4Addr, Ipv4Mask, Ipv6Addr, Ipv6Mask};

#[test]
fn ipbitwise_bitand_ipv4() {
    let ip = Ipv4Addr::new(0x77, 255, 255, 255);
    assert_eq!(ip.bitand(0xF8_00_FF_00), Ipv4Addr::new(0x70, 0, 255, 0));
    assert_eq!(ip.bitand([0xF8, 0, 255, 0]), Ipv4Addr::new(0x70, 0, 255, 0));
    assert_eq!(ip.bitand(Ipv4Addr::new(0xF8, 0, 255, 0)), Ipv4Addr::new(0x70, 0, 255, 0));
}

#[test]
fn ipbitwise_bitor_ipv4() {
    let ip = Ipv4Addr::new(0x77, 0xFF, 0x80, 0x33);
    assert_eq!(ip.bitor(0x80_00_0F_78), Ipv4Addr::new(0xF7, 0xFF, 0x8F, 0x7B));
    assert_eq!(ip.bitor([0x80, 0x00, 0x0F, 0x78]), Ipv4Addr::new(0xF7, 0xFF, 0x8F, 0x7B));
    assert_eq!(ip.bitor(Ipv4Addr::new(0x80, 0x00, 0x0F, 0x78)), Ipv4Addr::new(0xF7, 0xFF, 0x8F, 0x7B));
}

#[test]
fn bitand_ipv4() {
    let ip = Ipv4Addr::new(0x77, 255, 255, 255);
    assert_eq!(ip.bitand(0xF8_00_FF_00), Ipv4Addr::new(0x70, 0, 255, 0));
    assert_eq!(ip.bitand([0xF8, 0, 255, 0]), Ipv4Addr::new(0x70, 0, 255, 0));
    assert_eq!(
        ip.bitand(Ipv4Addr::new(0xF8, 0, 255, 0)),
        Ipv4Addr::new(0x70, 0, 255, 0)
    );
    assert_eq!(
        ip.bitand(Ipv4Mask::new(24).unwrap()),
        Ipv4Addr::new(0x77, 0xFF, 0xFF, 0)
    );
}

#[test]
fn bitor_ipv4() {
    let ip = Ipv4Addr::new(0x77, 0xFF, 0x80, 0x33);
    assert_eq!(
        ip.bitor(0x80_00_0F_78),
        Ipv4Addr::new(0xF7, 0xFF, 0x8F, 0x7B)
    );
    assert_eq!(
        ip.bitor([0x80, 0x00, 0x0F, 0x78]),
        Ipv4Addr::new(0xF7, 0xFF, 0x8F, 0x7B)
    );
    assert_eq!(
        ip.bitor(Ipv4Addr::new(0x80, 0x00, 0x0F, 0x78)),
        Ipv4Addr::new(0xF7, 0xFF, 0x8F, 0x7B)
    );
    assert_eq!(
        ip.bitor(Ipv4Mask::new(24).unwrap()),
        Ipv4Addr::new(255, 255, 255, 0x33)
    );
}

#[test]
fn bitxor_ipv4() {
    let ip = Ipv4Addr::new(0x77, 0xFF, 0x80, 0x33);
    assert_eq!(
        ip.bitxor(0xA0_F0_83_78),
        Ipv4Addr::new(0xD7, 0x0F, 0x03, 0x4B)
    );
    assert_eq!(
        ip.bitxor([0xA0, 0xF0, 0x83, 0x78]),
        Ipv4Addr::new(0xD7, 0x0F, 0x03, 0x4B)
    );
    assert_eq!(
        ip.bitxor(Ipv4Addr::new(0xA0, 0xF0, 0x83, 0x78)),
        Ipv4Addr::new(0xD7, 0x0F, 0x03, 0x4B)
    );
    assert_eq!(
        ip.bitxor(Ipv4Mask::new(24).unwrap()),
        Ipv4Addr::new(0x88, 00, 0x7F, 0x33)
    );
}

#[test]
fn bitnot_ipv4() {
    let ip = Ipv4Addr::new(0x77, 0xFF, 0x80, 0x33);
    assert_eq!(ip.bitnot(), Ipv4Addr::new(0x88, 0x00, 0x7F, 0xCC));
}

#[test]
fn bitand_ipv6() {
    let ip = Ipv6Addr::from_str("F9::1").unwrap();
    assert_eq!(
        ip.bitand(0xFFFF_FFFF_FFFF_FFFF_F000_0000_0000_0000),
        Ipv6Addr::from_str("F9::").unwrap()
    );
    assert_eq!(
        ip.bitand([255, 255, 255, 255, 255, 255, 255, 255, 240, 0, 0, 0, 0, 0, 0, 0]),
        Ipv6Addr::from_str("F9::").unwrap()
    );
    assert_eq!(
        ip.bitand([0xFFFF, 0xFFFF, 0xFFFF, 0xFFFF, 0xF000, 0, 0, 0]),
        Ipv6Addr::from_str("F9::").unwrap()
    );
    assert_eq!(
        ip.bitand(Ipv6Mask::new(68).unwrap()),
        Ipv6Addr::from_str("F9::").unwrap()
    );
}

#[test]
fn bitor_ipv6() {
    let ip = Ipv6Addr::from_str("F9::1").unwrap();
    assert_eq!(
        ip.bitor(0xFFFF_FFFF_FFFF_FFFF_F000_0000_0000_0000),
        Ipv6Addr::from_str("FFFF:FFFF:FFFF:FFFF:F000::1").unwrap()
    );
    assert_eq!(
        ip.bitor([255, 255, 255, 255, 255, 255, 255, 255, 240, 0, 0, 0, 0, 0, 0, 0]),
        Ipv6Addr::from_str("FFFF:FFFF:FFFF:FFFF:F000::1").unwrap()
    );
    assert_eq!(
        ip.bitor([0xFFFF, 0xFFFF, 0xFFFF, 0xFFFF, 0xF000, 0, 0, 0]),
        Ipv6Addr::from_str("FFFF:FFFF:FFFF:FFFF:F000::1").unwrap()
    );
    assert_eq!(
        ip.bitor(Ipv6Mask::new(68).unwrap()),
        Ipv6Addr::from_str("FFFF:FFFF:FFFF:FFFF:F000::1").unwrap()
    );
}

#[test]
fn bitxor_ipv6() {
    let ip = Ipv6Addr::from_str("F9::1").unwrap();
    assert_eq!(
        ip.bitxor(0xFFFF_FFFF_FFFF_FFFF_F000_0000_0000_0000),
        Ipv6Addr::from_str("FF06:FFFF:FFFF:FFFF:F000::1").unwrap()
    );
    assert_eq!(
        ip.bitxor([255, 255, 255, 255, 255, 255, 255, 255, 240, 0, 0, 0, 0, 0, 0, 0]),
        Ipv6Addr::from_str("FF06:FFFF:FFFF:FFFF:F000::1").unwrap()
    );
    assert_eq!(
        ip.bitxor([0xFFFF, 0xFFFF, 0xFFFF, 0xFFFF, 0xF000, 0, 0, 0]),
        Ipv6Addr::from_str("FF06:FFFF:FFFF:FFFF:F000::1").unwrap()
    );
    assert_eq!(
        ip.bitxor(Ipv6Mask::new(68).unwrap()),
        Ipv6Addr::from_str("FF06:FFFF:FFFF:FFFF:F000::1").unwrap()
    );
}

#[test]
fn bitnot_ipv6() {
    let ip = Ipv6Addr::new(0xFE80, 0, 0, 0, 0, 0xFFFF, 0x00FF, 1);
    assert_eq!(
        ip.bitnot(),
        Ipv6Addr::new(0x017F, 0xFFFF, 0xFFFF, 0xFFFF, 0xFFFF, 0, 0xFF00, 0xFFFE)
    );
    assert_eq!(ip.bitnot().bitnot(), ip);
}

#[test]
fn numbers_are_taken_most_significant_byte_first() {
    let ip = Ipv4Addr::new(1, 2, 3, 4);
    assert_eq!(ip.to_bits(), 0x01020304);
    assert_eq!(Ipv4Addr::from_bits(0x01020304), ip);
    assert_eq!(ip.bitand(0xFF00_0000), Ipv4Addr::new(1, 0, 0, 0));
    assert_eq!(ip.bitand(0x0000_00FF), Ipv4Addr::new(0, 0, 0, 4));
    let ip6 = Ipv6Addr::new(0x0102, 0x0304, 0x0506, 0x0708, 0x090A, 0x0B0C, 0x0D0E, 0x0F10);
    assert_eq!(ip6.to_bits(), 0x0102_0304_0506_0708_090A_0B0C_0D0E_0F10);
    assert_eq!(Ipv6Addr::from_bits(0x0102_0304_0506_0708_090A_0B0C_0D0E_0F10), ip6);
    assert_eq!(ip6.octets(), [1, 2, 3, 4, 5, 6, 7, 8, 9, 10, 11, 12, 13, 14, 15, 16]);
    assert_eq!(ip6.segments(), [0x0102, 0x0304, 0x0506, 0x0708, 0x090A, 0x0B0C, 0x0D0E, 0x0F10]);
    assert_eq!(
        ip6.bitand(0xFFu128 << 120),
        Ipv6Addr::new(0x0100, 0, 0, 0, 0, 0, 0, 0)
    );
    assert_eq!(Ipv4Mask::new(9).unwrap().as_u32(), 0xFF80_0000);
    assert_eq!(Ipv6Mask::new(9).unwrap().as_u128(), 0xFF80u128 << 112);
}

#[test]
fn operators_on_addresses() {
    let ip = Ipv4Addr::new(0x77, 0xFF, 0x80, 0x33);
    let mask = Ipv4Mask::new(24).unwrap();
    assert_eq!(ip & mask, Ipv4Addr::new(0x77, 0xFF, 0x80, 0));
    assert_eq!(ip | mask, Ipv4Addr::new(255, 255, 255, 0x33));
    assert_eq!(ip ^ mask, Ipv4Addr::new(0x88, 0, 0x7F, 0x33));
    assert_eq!(ip & [0xF0, 0x0F, 0xFF, 0], Ipv4Addr::new(0x70, 0x0F, 0x80, 0));
    assert_eq!(ip | [0xF0, 0x0F, 0xFF, 0], Ipv4Addr::new(0xF7, 0xFF, 0xFF, 0x33));
    assert_eq!(ip ^ [0xF0, 0x0F, 0xFF, 0], Ipv4Addr::new(0x87, 0xF0, 0x7F, 0x33));
    assert_eq!(ip & 0xF00F_FF00u32, Ipv4Addr::new(0x70, 0x0F, 0x80, 0));
    assert_eq!(ip | 0xF00F_FF00u32, Ipv4Addr::new(0xF7, 0xFF, 0xFF, 0x33));
    assert_eq!(ip ^ 0xF00F_FF00u32, Ipv4Addr::new(0x87, 0xF0, 0x7F, 0x33));
    assert_eq!(ip & Ipv4Addr::new(0xF0, 0x0F, 0xFF, 0), Ipv4Addr::new(0x70, 0x0F, 0x80, 0));
    assert_eq!(ip | Ipv4Addr::new(0xF0, 0x0F, 0xFF, 0), Ipv4Addr::new(0xF7, 0xFF, 0xFF, 0x33));
    assert_eq!(ip ^ Ipv4Addr::new(0xF0, 0x0F, 0xFF, 0), Ipv4Addr::new(0x87, 0xF0, 0x7F, 0x33));
    assert_eq!(!ip, Ipv4Addr::new(0x88, 0x00, 0x7F, 0xCC));
    assert_eq!(ip | !mask, Ipv4Addr::new(0x77, 0xFF, 0x80, 0xFF));

    let ip6 = Ipv6Addr::new(0xF9, 0, 0, 0, 0, 0, 0, 1);
    let mask6 = Ipv6Mask::new(68).unwrap();
    let high = Ipv6Addr::new(0xFFFF, 0xFFFF, 0xFFFF, 0xFFFF, 0xF000, 0, 0, 0);
    assert_eq!(ip6 & mask6, Ipv6Addr::new(0xF9, 0, 0, 0, 0, 0, 0, 0));
    assert_eq!(ip6 | mask6, Ipv6Addr::new(0xFFFF, 0xFFFF, 0xFFFF, 0xFFFF, 0xF000, 0, 0, 1));
    assert_eq!(ip6 ^ mask6, Ipv6Addr::new(0xFF06, 0xFFFF, 0xFFFF, 0xFFFF, 0xF000, 0, 0, 1));
    assert_eq!(ip6 & high, ip6 & mask6);
    assert_eq!(ip6 | high, ip6 | mask6);
    assert_eq!(ip6 ^ high, ip6 ^ mask6);
    assert_eq!(ip6 & high.octets(), ip6 & mask6);
    assert_eq!(ip6 | high.octets(), ip6 | mask6);
    assert_eq!(ip6 ^ high.octets(), ip6 ^ mask6);
    assert_eq!(ip6 & high.segments(), ip6 & mask6);
    assert_eq!(ip6 | high.segments(), ip6 | mask6);
    assert_eq!(ip6 ^ high.segments(), ip6 ^ mask6);
    assert_eq!(ip6 & high.to_bits(), ip6 & mask6);
    assert_eq!(ip6 | high.to_bits(), ip6 | mask6);
    assert_eq!(ip6 ^ high.to_bits(), ip6 ^ mask6);
    assert_eq!(!ip6, Ipv6Addr::new(0xFF06, 0xFFFF, 0xFFFF, 0xFFFF, 0xFFFF, 0xFFFF, 0xFFFF, 0xFFFE));
}

#[test]
fn combining_as_bytes_is_combining_as_numbers() {
    let mut x: u32 = 0x9E37_79B9;
    let mut y: u32 = 0x7F4A_7C15;
    for _ in 0..200 {
        x = x.wrapping_mul(1_664_525).wrapping_add(1_013_904_223);
        y = y.wrapping_mul(22_695_477).wrapping_add(1);
        let ip = Ipv4Addr::from_bits(x);
        assert_eq!(ip.bitand(y).to_bits(), x & y);
        assert_eq!(ip.bitor(y).to_bits(), x | y);
        assert_eq!(ip.bitxor(y).to_bits(), x ^ y);
        assert_eq!(ip.bitnot().to_bits(), !x);
        assert_eq!((ip & Ipv4Addr::from_bits(y)).to_bits(), x & y);
        let wide_x = ((x as u128) << 96) | ((y as u128) << 40) | x as u128;
        let wide_y = ((y as u128) << 80) | ((x as u128) << 17) | y as u128;
        let ip6 = Ipv6Addr::from_bits(wide_x);
        assert_eq!(ip6.bitand(wide_y).to_bits(), wide_x & wide_y);
        assert_eq!(ip6.bitor(wide_y).to_bits(), wide_x | wide_y);
        assert_eq!(ip6.bitxor(wide_y).to_bits(), wide_x ^ wide_y);
        assert_eq!(ip6.bitnot().to_bits(), !wide_x);
    }
}
