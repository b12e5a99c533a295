//! Parsing of the compound notation `address%interface`.

use vstd::prelude::*;

use crate::ipv6::IPv6Addr;
use vstd::string::StringSliceAdditionalSpecFns;

verus! {

/// The ASCII code of `%`.
pub const SEPARATOR: u8 = 37;

/// Why a compound address could not be split.
#[derive(Debug, Clone, Copy, PartialEq, Eq, Structural)]
pub enum SplitError {
    /// Nothing stands before the separator.
    NoAddress,
    /// The part before the separator is not an address.
    UnparsableAddress,
    /// The part after the separator is not an interface number.
    NonNumericInterface,
}

impl SplitError {
    /// A short human-readable reason.
    pub fn reason(&self) -> (r: &'static str)
        ensures
            *self == SplitError::NoAddress ==> r@ == "No address"@,
            *self == SplitError::UnparsableAddress ==> r@ == "Unparsable address"@,
            *self == SplitError::NonNumericInterface ==> r@ == "Non-numeric interface identifier"@,
    {
        match self {
            SplitError::NoAddress => "No address",
            SplitError::UnparsableAddress => "Unparsable address",
            SplitError::NonNumericInterface => "Non-numeric interface identifier",
        }
    }
}

/// The position of the first `%` in `s`, if there is one.
pub open spec fn separator(s: Seq<u8>) -> Option<int>
    decreases s.len(),
{
    if s.len() == 0 {
        None
    } else {
        match separator(s.drop_last()) {
            Some(p) => Some(p),
            None => if s.last() == SEPARATOR {
                Some(s.len() - 1)
            } else {
                None
            },
        }
    }
}

/// The text before the first `%`, or all of `s` when there is none.
pub open spec fn address_part(s: Seq<u8>) -> Seq<u8> {
    match separator(s) {
        Some(p) => s.take(p),
        None => s,
    }
}

/// The text after the first `%`, if there is one.
pub open spec fn interface_part(s: Seq<u8>) -> Option<Seq<u8>> {
    match separator(s) {
        Some(p) => Some(s.skip(p + 1)),
        None => None,
    }
}

pub open spec fn is_digit(c: u8) -> bool {
    48 <= c <= 57
}

pub open spec fn all_digits(s: Seq<u8>) -> bool {
    forall|i: int| 0 <= i < s.len() ==> is_digit(#[trigger] s[i])
}

/// The number that the decimal digits `s` denote.
pub open spec fn decimal_value(s: Seq<u8>) -> int
    decreases s.len(),
{
    if s.len() == 0 {
        0
    } else {
        decimal_value(s.drop_last()) * 10 + (s.last() - 48)
    }
}

/// The digits of an interface number, after an optional leading `+`.
pub open spec fn unsigned_digits(s: Seq<u8>) -> Seq<u8> {
    if s.len() > 0 && s[0] == 43 {
        s.drop_first()
    } else {
        s
    }
}

/// The interface number that `s` denotes: an optional `+` and one or more
/// decimal digits whose value fits the interface identifier type.
pub open spec fn interface_value(s: Seq<u8>) -> Option<i16> {
    let d = unsigned_digits(s);
    if d.len() > 0 && all_digits(d) && decimal_value(d) <= i16::MAX {
        Some(decimal_value(d) as i16)
    } else {
        None
    }
}

proof fn lemma_decimal_prefix(s: Seq<u8>, k: int)
    requires
        all_digits(s),
        0 <= k <= s.len(),
    ensures
        0 <= decimal_value(s.take(k)) <= decimal_value(s),
    decreases s.len(),
{
    if s.len() > 0 {
        let t = s.drop_last();
        assert(all_digits(t)) by {
            assert forall|i: int| 0 <= i < t.len() implies is_digit(#[trigger] t[i]) by {
                assert(t[i] == s[i]);
            }
        }
        assert(is_digit(s[s.len() - 1]));
        if k == s.len() {
            assert(s.take(k) =~= s);
            lemma_decimal_prefix(t, t.len() as int);
            assert(t.take(t.len() as int) =~= t);
        } else {
            assert(s.take(k) =~= t.take(k));
            lemma_decimal_prefix(t, k);
            lemma_decimal_prefix(t, t.len() as int);
            assert(t.take(t.len() as int) =~= t);
        }
    }
}

proof fn lemma_separator_is_first(s: Seq<u8>)
    ensures
        separator(s) matches Some(p) ==> 0 <= p < s.len() && s[p] == SEPARATOR && forall|i: int|
            0 <= i < p ==> s[i] != SEPARATOR,
        separator(s) is None ==> forall|i: int| 0 <= i < s.len() ==> s[i] != SEPARATOR,
    decreases s.len(),
{
    if s.len() > 0 {
        lemma_separator_is_first(s.drop_last());
        assert forall|i: int| 0 <= i < s.len() - 1 implies s[i] == s.drop_last()[i] by {}
    }
}

/// Splitting happens at the first `%`: the address text holds no `%`, and
/// where there is an interface text, the input is the address text, the `%`
/// and the interface text, in this order.
pub proof fn lemma_split_at_first_separator(s: Seq<u8>)
    ensures
        forall|i: int| 0 <= i < address_part(s).len() ==> address_part(s)[i] != SEPARATOR,
        interface_part(s) matches Some(t) ==> s == address_part(s) + seq![SEPARATOR] + t,
        interface_part(s) is None ==> address_part(s) == s,
{
    lemma_separator_is_first(s);
    if let Some(p) = separator(s) {
        assert(s =~= s.take(p) + seq![SEPARATOR] + s.skip(p + 1));
    }
}

proof fn lemma_separator_of_prefix(s: Seq<u8>, k: int)
    requires
        0 <= k <= s.len(),
        separator(s.take(k)) is Some,
    ensures
        separator(s) == separator(s.take(k)),
    decreases s.len(),
{
    if k == s.len() {
        assert(s.take(k) =~= s);
    } else {
        assert(s.drop_last().take(k) =~= s.take(k));
        lemma_separator_of_prefix(s.drop_last(), k);
    }
}

/// Finds the first `%` in `s`.
pub fn find_separator(s: &[u8]) -> (r: Option<usize>)
    ensures
        r matches Some(p) ==> separator(s@) == Some(p as int),
        r is None ==> separator(s@) is None,
        r matches Some(p) ==> p < s@.len(),
{
    proof {
        lemma_separator_is_first(s@);
    }
    let mut i: usize = 0;
    while i < s.len()
        invariant
            i <= s@.len(),
            separator(s@.take(i as int)) is None,
        decreases s@.len() - i,
    {
        assert(s@.take(i + 1).drop_last() =~= s@.take(i as int));
        if s[i] == SEPARATOR {
            proof {
                lemma_separator_of_prefix(s@, i + 1);
            }
            return Some(i);
        }
        i = i + 1;
    }
    assert(s@.take(i as int) =~= s@);
    None
}

/// Reads an interface number: an optional `+` followed by decimal digits
/// whose value is at most `i16::MAX`.
pub fn parse_interface(s: &[u8]) -> (r: Option<i16>)
    ensures
        r == interface_value(s@),
{
    // an optional leading `+`
    let start: usize = if s.len() > 0 && s[0] == 43 {
        1
    } else {
        0
    };
    let ghost d = unsigned_digits(s@);
    assert(d =~= s@.skip(start as int));
    if start == s.len() {
        assert(d.len() == 0);
        return None;
    }
    let mut value: u32 = 0;
    let mut i: usize = start;
    while i < s.len()
        invariant
            start <= i <= s@.len(),
            d == unsigned_digits(s@),
            d =~= s@.skip(start as int),
            all_digits(d.take(i - start)),
            value == decimal_value(d.take(i - start)),
            value <= i16::MAX,
        decreases s@.len() - i,
    {
        let c = s[i];
        if c < 48 || c > 57 {
            // not an ASCII digit
            assert(!is_digit(d[i - start]));
            return None;
        }
        let ghost k = i - start;
        assert(d.take(k + 1).drop_last() =~= d.take(k));
        assert(d.take(k + 1).last() == c);
        assert(all_digits(d.take(k + 1))) by {
            assert forall|j: int| 0 <= j < k + 1 implies is_digit(#[trigger] d.take(k + 1)[j]) by {
                if j < k {
                    assert(d.take(k + 1)[j] == d.take(k)[j]);
                }
            }
        }
        let next: u32 = value * 10 + (c - 48) as u32;
        if next > 32767 {
            proof {
                if all_digits(d) {
                    lemma_decimal_prefix(d, k + 1);
                }
            }
            return None;
        }
        value = next;
        i = i + 1;
    }
    assert(d.take(i - start) =~= d);
    Some(value as i16)
}

/// Splits `input` at its first `%` into an address and an optional interface
/// number, where `address` is what the address parser made of the text
/// before the `%` (see [`address_text`]).
///
/// Fails with `NoAddress` when that text is empty, with `UnparsableAddress`
/// when the parser rejected it, and with `NonNumericInterface` when the text
/// after the `%` is not an interface number.
pub fn split_ipv6_address(input: &str, address: Option<IPv6Addr>) -> (r: Result<
    (IPv6Addr, Option<i16>),
    SplitError,
>)
    ensures
        address_part(input.spec_bytes()).len() == 0 ==> r == Err::<(IPv6Addr, Option<i16>), SplitError>(SplitError::NoAddress),
        address_part(input.spec_bytes()).len() > 0 && address is None ==> r == Err::<(IPv6Addr, Option<i16>), SplitError>(SplitError::UnparsableAddress),
        address_part(input.spec_bytes()).len() > 0 && address is Some ==> match interface_part(input.spec_bytes()) {
            None => r == Ok::<(IPv6Addr, Option<i16>), SplitError>((address->Some_0, None)),
            Some(t) => match interface_value(t) {
                Some(v) => r == Ok::<(IPv6Addr, Option<i16>), SplitError>((address->Some_0, Some(v))),
                None => r == Err::<(IPv6Addr, Option<i16>), SplitError>(SplitError::NonNumericInterface),
            },
        },
{
    let bytes = input.as_bytes();
    let sep = find_separator(bytes);
    let left_len: usize = match sep {
        Some(p) => p,
        None => bytes.len(),
    };
    if left_len == 0 {
        return Err(SplitError::NoAddress);
    }
    let addr = match address {
        Some(a) => a,
        None => {
            return Err(SplitError::UnparsableAddress);
        },
    };
    match sep {
        None => Ok((addr, None)),
        Some(p) => {
            let n: usize = bytes.len();
            let rest = &bytes[p + 1..n];
            match parse_interface(rest) {
                Some(v) => Ok((addr, Some(v))),
                None => Err(SplitError::NonNumericInterface),
            }
        },
    }
}

/// The text before the first `%` of `input`: what the address parser is
/// given before [`split_ipv6_address`] is called.
pub fn address_text(input: &str) -> (r: &[u8])
    ensures
        r@ == address_part(input.spec_bytes()),
{
    let bytes = input.as_bytes();
    match find_separator(bytes) {
        Some(p) => &bytes[0..p],
        None => bytes,
    }
}

} // verus!
