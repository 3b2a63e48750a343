//! Validated value types for IPv4 and IPv6 addresses, prefix masks and
//! address-and-mask pairs, with their bitwise algebra, their text notations and
//! their compact binary encodings.
//!
//! Every type is an immutable value. A mask is always a prefix mask, and a
//! network's address always has its host bits clear; the functions that build
//! such values either check what they are given or canonicalize it.

pub mod addrs;
pub mod bits;
pub mod mask;
pub mod masked;
pub mod network;
pub mod operators;
pub mod ops;
pub mod prefix;
pub mod text;
pub mod wire;

pub use addrs::{AddrParseError, IpAddr, Ipv4Addr, Ipv6Addr};
pub use mask::{InvalidIpv4Mask, InvalidIpv6Mask, Ipv4Mask, Ipv6Mask};
pub use masked::{
    InvalidMaskedIp, InvalidMaskedIpv4, InvalidMaskedIpv6, MaskedIp, MaskedIpv4, MaskedIpv6,
};
pub use network::{InvalidNetworkV4, InvalidNetworkV6, NetworkV4, NetworkV6};
pub use ops::{IpBitwiseExt, IpBitwiseNotExt};
pub use text::notation::Notation;
