use riot_wrappers::ipv6::IPv6Addr;
use riot_wrappers::led::LED;
use riot_wrappers::split::{address_text, find_separator, parse_interface, split_ipv6_address, SplitError};

const LINK_LOCAL: [u8; 16] = [0xfe, 0x80, 0, 0, 0, 0, 0, 0, 0, 0, 0, 0, 0, 0, 0, 1];

fn link_local() -> Option<IPv6Addr> {
    Some(IPv6Addr::from_octets(LINK_LOCAL))
}

#[test]
fn split_address_and_interface() {
    let input = "fe80::1%42";
    assert_eq!(address_text(input), b"fe80::1");
    let (addr, iface) = split_ipv6_address(input, link_local()).unwrap();
    assert_eq!(addr.debug_string(), "fe80:0000:0000:0000:0000:0000:0000:0001");
    assert_eq!(iface, Some(42));
}

#[test]
fn split_address_without_interface() {
    let input = "fe80::1";
    assert_eq!(address_text(input), b"fe80::1");
    let (addr, iface) = split_ipv6_address(input, link_local()).unwrap();
    assert_eq!(*addr.raw(), LINK_LOCAL);
    assert_eq!(iface, None);
}

#[test]
fn split_without_address() {
    assert_eq!(address_text("%42"), b"");
    let r = split_ipv6_address("%42", None);
    assert_eq!(r.err(), Some(SplitError::NoAddress));
    assert_eq!(SplitError::NoAddress.reason(), "No address");
    let r = split_ipv6_address("", link_local());
    assert_eq!(r.err(), Some(SplitError::NoAddress));
}

#[test]
fn split_non_numeric_interface() {
    let r = split_ipv6_address("fe80::1%abc", link_local());
    assert_eq!(r.err(), Some(SplitError::NonNumericInterface));
    assert_eq!(
        SplitError::NonNumericInterface.reason(),
        "Non-numeric interface identifier"
    );
}

#[test]
fn split_unparsable_address() {
    let input = "not-an-address%1";
    assert_eq!(address_text(input), b"not-an-address");
    let r = split_ipv6_address(input, None);
    assert_eq!(r.err(), Some(SplitError::UnparsableAddress));
    assert_eq!(SplitError::UnparsableAddress.reason(), "Unparsable address");
}

#[test]
fn unparsable_address_comes_before_bad_interface() {
    let r = split_ipv6_address("zz%abc", None);
    assert_eq!(r.err(), Some(SplitError::UnparsableAddress));
}

#[test]
fn split_on_first_separator_only() {
    let input = "fe80::1%4%2";
    assert_eq!(address_text(input), b"fe80::1");
    let r = split_ipv6_address(input, link_local());
    assert_eq!(r.err(), Some(SplitError::NonNumericInterface));
}

#[test]
fn empty_interface_is_not_numeric() {
    let r = split_ipv6_address("fe80::1%", link_local());
    assert_eq!(r.err(), Some(SplitError::NonNumericInterface));
}

#[test]
fn separator_position() {
    assert_eq!(find_separator(b"ab%c%d"), Some(2));
    assert_eq!(find_separator(b"%"), Some(0));
    assert_eq!(find_separator(b"abc"), None);
    assert_eq!(find_separator(b""), None);
}

#[test]
fn interface_numbers() {
    assert_eq!(parse_interface(b"42"), Some(42));
    assert_eq!(parse_interface(b"0"), Some(0));
    assert_eq!(parse_interface(b"+7"), Some(7));
    assert_eq!(parse_interface(b"007"), Some(7));
    assert_eq!(parse_interface(b"32767"), Some(32767));
    assert_eq!(parse_interface(b"32768"), None);
    assert_eq!(parse_interface(b"999999999999"), None);
    assert_eq!(parse_interface(b""), None);
    assert_eq!(parse_interface(b"+"), None);
    assert_eq!(parse_interface(b"-1"), None);
    assert_eq!(parse_interface(b"abc"), None);
    assert_eq!(parse_interface(b"4%2"), None);
    assert_eq!(parse_interface(b"12 "), None);
}

#[test]
fn led_numbers() {
    assert_eq!(LED::<0>::new().number(), 0);
    assert_eq!(LED::<7>::new().number(), 7);
}
