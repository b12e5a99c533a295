//! Verified IPv6 address handling for GNRC network interfaces: a fixed-width
//! address value, a bounded list of the addresses of an interface, and the
//! parsing of `address%interface` notation.

pub mod error;
pub mod ipv6;
pub mod led;
pub mod split;
