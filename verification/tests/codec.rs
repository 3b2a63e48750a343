use ipstuff::{
    InvalidIpv4Mask, InvalidIpv6Mask, InvalidMaskedIpv4, InvalidMaskedIpv6, InvalidNetworkV4,
    InvalidNetworkV6, IpBitwiseExt, Ipv4Addr, Ipv4Mask, Ipv6Addr, Ipv6Mask, MaskedIpv4, MaskedIpv6,
    NetworkV4, NetworkV6, Notation,
};

#[test]
fn serde_maskv4_human_readable() {
    let mask: Ipv4Mask = Ipv4Mask::from_str("255.255.255.0").unwrap();
    let mask2: Ipv4Mask = Ipv4Mask::from_str("/24").unwrap();
    assert_eq!(mask.len(), 24);
    assert_eq!(mask, mask2);
    assert_eq!(mask.format(Notation::Prefix), "/24");
    assert_eq!(mask.format(Notation::Address), "255.255.255.0");
}

#[test]
fn serde_maskv4_non_human_readable() {
    for len in 0..=32 {
        let mask: Ipv4Mask = Ipv4Mask::decode(&[len]).unwrap();
        assert_eq!(mask.len(), len);
        assert_eq!(mask.encode(), &[len]);
    }
    Ipv4Mask::decode(&[33]).unwrap_err();
}

#[test]
fn serde_maskv6_human_readable() {
    let mask: Ipv6Mask = Ipv6Mask::from_str("ffff:ff80::").unwrap();
    let mask2: Ipv6Mask = Ipv6Mask::from_str("/25").unwrap();
    assert_eq!(mask.len(), 25);
    assert_eq!(mask, mask2);
    assert_eq!(mask.format(Notation::Prefix), "/25");
    assert_eq!(mask.format(Notation::Address), "ffff:ff80::");
}

#[test]
fn serde_maskv6_non_human_readable() {
    for len in 0..=128 {
        let mask: Ipv6Mask = Ipv6Mask::decode(&[len]).unwrap();
        assert_eq!(mask.len(), len);
        assert_eq!(mask.encode(), &[len]);
    }
    Ipv6Mask::decode(&[129]).unwrap_err();
}

#[test]
fn serde_maskedv4_human_readable() {
    let masked: MaskedIpv4 = MaskedIpv4::from_str("192.168.1.1 255.255.255.0").unwrap();
    let masked2: MaskedIpv4 = MaskedIpv4::from_str("192.168.1.1/24").unwrap();
    assert_eq!(
        masked,
        MaskedIpv4::cidr(Ipv4Addr::new(192, 168, 1, 1), 24).unwrap()
    );
    assert_eq!(masked, masked2);
    assert_eq!(masked.format(Notation::Prefix), "192.168.1.1/24");
    assert_eq!(masked.format(Notation::Address), "192.168.1.1 255.255.255.0");
}

#[test]
fn serde_maskedv4_non_human_readable() {
    for len in 0..=32 {
        let mask = Ipv4Mask::new(len).unwrap();
        let ip = Ipv4Addr::new(10, 1, 2, 3);
        let masked = MaskedIpv4::new(ip, mask);
        let bytes = masked.encode();
        assert_eq!(bytes.len(), 5);
        assert_eq!(len, bytes[0]);
        assert_eq!(&ip.octets()[..], &bytes[1..]);
        let masked2 = MaskedIpv4::decode(&bytes).unwrap();
        assert_eq!(masked, masked2);
    }
}

#[test]
fn serde_maskedv6_human_readable() {
    let masked: MaskedIpv6 = MaskedIpv6::from_str("fe80:: ffc0::").unwrap();
    let masked2: MaskedIpv6 = MaskedIpv6::from_str("fe80::/10").unwrap();
    assert_eq!(
        masked,
        MaskedIpv6::cidr(Ipv6Addr::new(0xfe80, 0, 0, 0, 0, 0, 0, 0), 10).unwrap()
    );
    assert_eq!(masked, masked2);
    assert_eq!(masked.format(Notation::Prefix), "fe80::/10");
    assert_eq!(masked.format(Notation::Address), "fe80:: ffc0::");
}

#[test]
fn serde_maskedv6_non_human_readable() {
    for len in 0..=32 {
        let mask = Ipv6Mask::new(len).unwrap();
        let ip = Ipv6Addr::new(0xfe80, 0, 0, 0, 0, 1, 2, 3);
        let masked = MaskedIpv6::new(ip, mask);
        let bytes = masked.encode();
        assert_eq!(bytes.len(), 17);
        assert_eq!(len, bytes[0]);
        assert_eq!(&ip.octets()[..], &bytes[1..]);
        let masked2 = MaskedIpv6::decode(&bytes).unwrap();
        assert_eq!(masked, masked2);
    }
}

#[test]
fn serde_networkv4_human_readable() {
    let net: NetworkV4 = NetworkV4::from_str("192.168.1.0 255.255.255.0").unwrap();
    let net2: NetworkV4 = NetworkV4::from_str("192.168.1.0/24").unwrap();
    assert_eq!(
        net,
        NetworkV4::cidr(Ipv4Addr::new(192, 168, 1, 1), 24).unwrap()
    );
    assert_eq!(net, net2);
    assert_eq!(net.format(Notation::Prefix), "192.168.1.0/24");
    assert_eq!(net.format(Notation::Address), "192.168.1.0 255.255.255.0");
}

#[test]
fn serde_networkv4_non_human_readable() {
    let ip = Ipv4Addr::new(1, 2, 3, 4);
    for len in 0..=32 {
        let mask = Ipv4Mask::new(len).unwrap();
        let net = NetworkV4::new(ip, mask);
        let bytes = net.encode();
        assert_eq!(bytes[0], len);
        assert_eq!(bytes.len() - 1, (len as usize + 7) / 8);
        for (i, b) in bytes[1..].iter().copied().enumerate() {
            assert_eq!(b, ip.bitand(mask).octets()[i]);
        }
        let net2 = NetworkV4::decode(&bytes).unwrap();
        assert_eq!(net, net2);
    }
}

#[test]
fn networkv6_encoding_is_minimal() {
    let ip = Ipv6Addr::new(0x0102, 0x0304, 0x0506, 0x0708, 0x090A, 0x0B0C, 0x0D0E, 0x0FFF);
    for len in 0..=128u8 {
        let mask = Ipv6Mask::new(len).unwrap();
        let net = NetworkV6::new(ip, mask);
        let bytes = net.encode();
        assert_eq!(bytes[0], len);
        assert_eq!(bytes.len(), 1 + (len as usize + 7) / 8);
        assert_eq!(&bytes[1..], &ip.bitand(mask).octets()[..bytes.len() - 1]);
        assert_eq!(NetworkV6::decode(&bytes), Ok(net));
    }
}

#[test]
fn exact_encodings() {
    assert_eq!(Ipv4Mask::new(0).unwrap().encode(), [0]);
    assert_eq!(Ipv4Mask::new(32).unwrap().encode(), [32]);
    assert_eq!(Ipv6Mask::new(128).unwrap().encode(), [128]);
    let masked = MaskedIpv4::cidr(Ipv4Addr::new(10, 1, 2, 3), 9).unwrap();
    assert_eq!(masked.encode(), [9, 10, 1, 2, 3]);
    let net = masked.to_network();
    assert_eq!(net.encode(), [9, 10, 0]);
    assert_eq!(NetworkV4::cidr(Ipv4Addr::new(10, 1, 2, 3), 0).unwrap().encode(), [0]);
    assert_eq!(NetworkV4::cidr(Ipv4Addr::new(10, 1, 2, 3), 1).unwrap().encode(), [1, 0]);
    assert_eq!(NetworkV4::cidr(Ipv4Addr::new(10, 1, 2, 3), 8).unwrap().encode(), [8, 10]);
    assert_eq!(NetworkV4::cidr(Ipv4Addr::new(10, 1, 2, 3), 16).unwrap().encode(), [16, 10, 1]);
    assert_eq!(NetworkV4::cidr(Ipv4Addr::new(10, 1, 2, 3), 17).unwrap().encode(), [17, 10, 1, 0]);
    assert_eq!(NetworkV4::cidr(Ipv4Addr::new(10, 1, 2, 3), 25).unwrap().encode(), [25, 10, 1, 2, 0]);
    assert_eq!(NetworkV4::cidr(Ipv4Addr::new(10, 1, 2, 3), 32).unwrap().encode(), [32, 10, 1, 2, 3]);
    let net6 = NetworkV6::cidr(Ipv6Addr::new(0xfe80, 0xffff, 0, 0, 0, 0, 0, 1), 10).unwrap();
    assert_eq!(net6.encode(), [10, 0xfe, 0x80]);
    let masked6 = MaskedIpv6::cidr(Ipv6Addr::new(0xfe80, 0, 0, 0, 0, 0, 0, 1), 10).unwrap();
    assert_eq!(
        masked6.encode(),
        [10, 0xfe, 0x80, 0, 0, 0, 0, 0, 0, 0, 0, 0, 0, 0, 0, 0, 1]
    );
}

#[test]
fn decoding_clears_host_bits_and_fills_with_zeros() {
    assert_eq!(
        NetworkV4::decode(&[9, 10, 255]),
        Ok(NetworkV4::cidr(Ipv4Addr::new(10, 128, 0, 0), 9).unwrap())
    );
    assert_eq!(
        NetworkV4::decode(&[0]),
        Ok(NetworkV4::cidr(Ipv4Addr::new(0, 0, 0, 0), 0).unwrap())
    );
    assert_eq!(
        NetworkV6::decode(&[3, 0xff]),
        Ok(NetworkV6::cidr(Ipv6Addr::new(0xe000, 0, 0, 0, 0, 0, 0, 0), 3).unwrap())
    );
}

#[test]
fn encodings_that_are_refused() {
    for bytes in [&[][..], &[33], &[255], &[0, 0], &[24, 1]] {
        assert_eq!(Ipv4Mask::decode(bytes), Err(InvalidIpv4Mask), "{:?}", bytes);
    }
    for bytes in [&[][..], &[129], &[255], &[0, 0]] {
        assert_eq!(Ipv6Mask::decode(bytes), Err(InvalidIpv6Mask), "{:?}", bytes);
    }
    for bytes in [&[][..], &[24], &[24, 1, 2, 3], &[24, 1, 2, 3, 4, 5], &[33, 1, 2, 3, 4]] {
        assert_eq!(MaskedIpv4::decode(bytes), Err(InvalidMaskedIpv4), "{:?}", bytes);
    }
    assert_eq!(MaskedIpv6::decode(&[10, 1, 2, 3, 4]), Err(InvalidMaskedIpv6));
    assert_eq!(MaskedIpv6::decode(&[129, 0, 0, 0, 0, 0, 0, 0, 0, 0, 0, 0, 0, 0, 0, 0, 0]), Err(InvalidMaskedIpv6));
    for bytes in [&[][..], &[33, 1, 2, 3, 4], &[24, 1, 2], &[24, 1, 2, 3, 4], &[0, 0], &[1], &[32, 1, 2, 3]] {
        assert_eq!(NetworkV4::decode(bytes), Err(InvalidNetworkV4), "{:?}", bytes);
    }
    for bytes in [&[][..], &[129], &[8], &[8, 1, 2], &[0, 0]] {
        assert_eq!(NetworkV6::decode(bytes), Err(InvalidNetworkV6), "{:?}", bytes);
    }
}
