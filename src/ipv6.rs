//! IPv6 addresses as handled by GNRC: the address value, the bounded list that
//! an interface query fills, and the parsing of textual addresses.

use vstd::prelude::*;

use crate::error::NumericError;
use vstd::std_specs::cmp::PartialEqSpec;

verus! {

/// Number of bytes in one address.
pub const ADDRESS_BYTES: usize = 16;

/// Longest plain textual address: 32 hex digits and 7 colons.
pub const MAX_ADDRESS_TEXT: usize = 39;

/// An IPv6 address: sixteen bytes in network byte order.
#[derive(Clone, Copy)]
pub struct IPv6Addr {
    inner: [u8; 16],
}

impl View for IPv6Addr {
    type V = Seq<u8>;

    closed spec fn view(&self) -> Seq<u8> {
        self.inner@
    }
}

/// The ASCII code of the lowercase hex digit for `n < 16`.
pub open spec fn hex_digit(n: int) -> u8 {
    if n < 10 {
        (48 + n) as u8
    } else {
        (87 + n) as u8
    }
}

/// The `j`-th hex digit (most significant nibble first) of `bytes`.
pub open spec fn nibble_digit(bytes: Seq<u8>, j: int) -> u8 {
    if j % 2 == 0 {
        hex_digit(bytes[j / 2] as int / 16)
    } else {
        hex_digit(bytes[j / 2] as int % 16)
    }
}

/// The fixed-width text of an address, as ASCII codes: eight groups of four
/// lowercase hex digits separated by colons, without any zero compression.
pub open spec fn debug_bytes(bytes: Seq<u8>) -> Seq<u8> {
    Seq::new(
        39,
        |i: int|
            if i % 5 == 4 {
                58u8
            } else {
                nibble_digit(bytes, 4 * (i / 5) + i % 5)
            },
    )
}

/// The fixed-width text of an address, as characters.
pub open spec fn debug_text(bytes: Seq<u8>) -> Seq<char> {
    debug_bytes(bytes).map_values(|c: u8| c as char)
}

/// A lowercase hex digit or a colon.
pub open spec fn is_debug_char(c: char) -> bool {
    ('0' <= c <= '9') || ('a' <= c <= 'f') || c == ':'
}

/// Relies on `String::from_utf8`, which turns valid UTF-8 into a `String`;
/// ASCII bytes are valid UTF-8, one character per byte.
#[verifier::external_body]
fn ascii_to_string(bytes: Vec<u8>) -> (r: String)
    requires
        forall|i: int| 0 <= i < bytes@.len() ==> bytes@[i] < 128,
    ensures
        r@ == bytes@.map_values(|c: u8| c as char),
{
    match String::from_utf8(bytes) {
        Ok(s) => s,
        Err(_) => String::new(),
    }
}

fn hex_digit_exec(n: u8) -> (r: u8)
    requires
        n < 16,
    ensures
        r == hex_digit(n as int),
{
    if n < 10 {
        48 + n
    } else {
        87 + n
    }
}

#[verifier::external_type_specification]
#[verifier::external_body]
pub struct ExNalIpv6Addr(embedded_nal::Ipv6Addr);

/// The sixteen bytes that an `embedded_nal` address holds, in network order.
pub uninterp spec fn nal_octets(a: embedded_nal::Ipv6Addr) -> Seq<u8>;

/// Relies on `From<[u8; 16]>` for `embedded_nal::Ipv6Addr` (no_std_net),
/// which stores the sixteen bytes as they are.
#[verifier::external_body]
fn nal_from_octets(octets: [u8; 16]) -> (r: embedded_nal::Ipv6Addr)
    ensures
        nal_octets(r) == octets@,
{
    embedded_nal::Ipv6Addr::from(octets)
}

/// Relies on `embedded_nal::Ipv6Addr::octets` (no_std_net), which returns the
/// sixteen stored bytes.
#[verifier::external_body]
fn nal_octets_of(a: &embedded_nal::Ipv6Addr) -> (r: [u8; 16])
    ensures
        r@ == nal_octets(*a),
{
    a.octets()
}

impl IPv6Addr {
    /// Converts from the `embedded_nal` address type, byte for byte.
    pub fn from_nal(a: embedded_nal::Ipv6Addr) -> (r: Self)
        ensures
            r@ == nal_octets(a),
    {
        IPv6Addr { inner: nal_octets_of(&a) }
    }

    /// Converts to the `embedded_nal` address type, byte for byte.
    pub fn to_nal(&self) -> (r: embedded_nal::Ipv6Addr)
        ensures
            nal_octets(r) == self@,
    {
        nal_from_octets(self.inner)
    }

    /// The null-terminated copy of `text` that the platform's conversion
    /// routine reads: `None` when `text` is longer than 39 bytes, which no
    /// plain textual address is; otherwise `text` followed by zero bytes.
    pub fn conversion_input(text: &[u8]) -> (r: Option<[u8; 40]>)
        ensures
            r is None <==> text@.len() > MAX_ADDRESS_TEXT,
            r matches Some(buf) ==> buf@ == text@ + Seq::new((40 - text@.len()) as nat, |i: int| 0u8),
    {
        if text.len() > MAX_ADDRESS_TEXT {
            return None;
        }
        let mut buf: [u8; 40] = [0u8; 40];
        let mut i: usize = 0;
        while i < text.len()
            invariant
                text@.len() <= 39,
                i <= text@.len(),
                buf@.len() == 40,
                forall|k: int| 0 <= k < i ==> buf@[k] == text@[k],
                forall|k: int| i <= k < 40 ==> buf@[k] == 0u8,
            decreases text@.len() - i,
        {
            buf[i] = text[i];
            i = i + 1;
        }
        assert(buf@ =~= text@ + Seq::new((40 - text@.len()) as nat, |i: int| 0u8));
        Some(buf)
    }

    /// The sixteen bytes of the address.
    pub fn raw(&self) -> (r: &[u8; 16])
        ensures
            r@ == self@,
    {
        &self.inner
    }

    /// Copies the sixteen bytes of an address out of `raw`.
    pub fn clone_from_ptr(raw: &[u8; 16]) -> (r: Self)
        ensures
            r@ == raw@,
    {
        IPv6Addr { inner: *raw }
    }

    /// Builds an address from its sixteen bytes.
    pub fn from_octets(octets: [u8; 16]) -> (r: Self)
        ensures
            r@ == octets@,
    {
        IPv6Addr { inner: octets }
    }

    /// The address as text, for debugging: eight groups of four lowercase hex
    /// digits separated by colons, e.g. `fe80:0000:0000:0000:0000:0000:0000:0001`.
    pub fn debug_string(&self) -> (r: String)
        ensures
            r@ == debug_text(self@),
    {
        let mut out: Vec<u8> = Vec::new();
        let mut i: usize = 0;
        while i < 39
            invariant
                i <= 39,
                self@.len() == 16,
                out@ == debug_bytes(self@).subrange(0, i as int),
            decreases 39 - i,
        {
            let c: u8;
            if i % 5 == 4 {
                c = 58;
            } else {
                let j: usize = 4 * (i / 5) + i % 5;
                let b: u8 = self.inner[j / 2];
                if j % 2 == 0 {
                    c = hex_digit_exec(b / 16);
                } else {
                    c = hex_digit_exec(b % 16);
                }
            }
            out.push(c);
            proof {
                assert(out@ =~= debug_bytes(self@).subrange(0, i + 1));
            }
            i = i + 1;
        }
        proof {
            assert(out@ =~= debug_bytes(self@));
        }
        ascii_to_string(out)
    }
}

impl PartialEq for IPv6Addr {
    fn eq(&self, other: &IPv6Addr) -> (r: bool) {
        let mut i: usize = 0;
        while i < 16
            invariant
                i <= 16,
                self@.len() == 16,
                other@.len() == 16,
                self@.subrange(0, i as int) =~= other@.subrange(0, i as int),
            decreases 16 - i,
        {
            if self.inner[i] != other.inner[i] {
                return false;
            }
            proof {
                assert(self@.subrange(0, i + 1) =~= other@.subrange(0, i + 1));
            }
            i = i + 1;
        }
        assert(self@ =~= self@.subrange(0, 16));
        assert(other@ =~= other@.subrange(0, 16));
        true
    }
}

impl vstd::std_specs::cmp::PartialEqSpecImpl for IPv6Addr {
    open spec fn obeys_eq_spec() -> bool {
        true
    }

    open spec fn eq_spec(&self, other: &IPv6Addr) -> bool {
        self@ == other@
    }
}

impl Eq for IPv6Addr {
}

/// The debug text of every address has exactly 39 characters, each a
/// lowercase hex digit or a colon, with a colon after every four digits.
pub proof fn lemma_debug_text_shape(a: IPv6Addr)
    ensures
        debug_text(a@).len() == 39,
        forall|i: int| 0 <= i < 39 ==> is_debug_char(#[trigger] debug_text(a@)[i]),
        forall|i: int| 0 <= i < 39 ==> (#[trigger] debug_text(a@)[i] == ':' <==> i % 5 == 4),
{
    assert forall|i: int| 0 <= i < 39 implies is_debug_char(#[trigger] debug_text(a@)[i]) && (
    debug_text(a@)[i] == ':' <==> i % 5 == 4) by {
        if i % 5 != 4 {
            let j = 4 * (i / 5) + i % 5;
            assert(0 <= j < 32);
            let b = a@[j / 2];
            assert(b as int / 16 < 16);
        }
    }
}

/// Two addresses are equal exactly when all sixteen of their bytes agree, so
/// addresses built from the same bytes by any constructor are equal, and a
/// difference in any single byte makes them unequal.
pub proof fn lemma_eq_is_byte_exact(a: IPv6Addr, b: IPv6Addr)
    ensures
        a.eq_spec(&b) <==> (forall|i: int| 0 <= i < 16 ==> a@[i] == b@[i]),
        a@.len() == 16,
        b@.len() == 16,
{
    if forall|i: int| 0 <= i < 16 ==> a@[i] == b@[i] {
        assert(a@ =~= b@);
    }
}

/// The addresses of one interface: `MAX` slots of which only the first `len`
/// hold addresses that the interface reported.
pub struct IPv6AddrList<const MAX: usize> {
    addresses: [IPv6Addr; MAX],
    len: usize,
}

impl<const MAX: usize> View for IPv6AddrList<MAX> {
    type V = Seq<IPv6Addr>;

    /// The reported addresses, in the order of the query.
    closed spec fn view(&self) -> Seq<IPv6Addr> {
        self.addresses@.subrange(0, self.len as int)
    }
}

/// The addresses that a query reports in the first `count` records of `raw`.
pub open spec fn reported(raw: Seq<[u8; 16]>, count: int) -> Seq<Seq<u8>> {
    Seq::new(count as nat, |i: int| raw[i]@)
}

impl<const MAX: usize> IPv6AddrList<MAX> {
    /// Only slots within the capacity are claimed to hold addresses.
    #[verifier::type_invariant]
    closed spec fn wf(&self) -> bool {
        self.len <= MAX
    }

    /// The byte contents of the listed addresses.
    pub open spec fn contents(&self) -> Seq<Seq<u8>> {
        Seq::new(self@.len(), |i: int| self@[i]@)
    }

    /// Builds the list from the records that an interface query wrote into
    /// `raw` and the status it returned: a negative status is the query's
    /// error; otherwise `written` bytes hold `written / 16` whole addresses.
    pub fn ipv6_addrs(raw: &[[u8; 16]; MAX], written: isize) -> (r: Result<Self, NumericError>)
        requires
            written >= 0 ==> written / 16 <= MAX,
        ensures
            written < 0 <==> r is Err,
            written < 0 ==> r == Err::<Self, NumericError>(NumericError { number: written }),
            written == 0 ==> r is Ok && r->Ok_0@.len() == 0,
            r is Ok ==> r->Ok_0@.len() <= MAX && r->Ok_0@.len() == written / 16
                && r->Ok_0.contents()
                == reported(raw@, written / 16),
    {
        if written < 0 {
            return Err(NumericError { number: written });
        }
        let len: usize = (written as usize) / ADDRESS_BYTES;
        let mut addresses: [IPv6Addr; MAX] = [IPv6Addr { inner: [0u8; 16] }; MAX];
        let mut i: usize = 0;
        while i < len
            invariant
                len <= MAX,
                i <= len,
                len == written / 16,
                addresses@.len() == MAX,
                forall|k: int| 0 <= k < i ==> addresses@[k]@ == raw@[k]@,
            decreases len - i,
        {
            addresses[i] = IPv6Addr { inner: raw[i] };
            i = i + 1;
        }
        let list = IPv6AddrList { addresses, len };
        assert(list.contents() =~= reported(raw@, written / 16));
        Ok(list)
    }

    /// The number of listed addresses.
    pub fn len(&self) -> (r: usize)
        ensures
            r == self@.len(),
            r <= MAX,
    {
        proof {
            use_type_invariant(self);
        }
        self.len
    }

    /// The listed addresses, in the order of the query; the slots after them
    /// are never exposed.
    pub fn addresses(&self) -> (r: &[IPv6Addr])
        ensures
            r@ == self@,
    {
        proof {
            use_type_invariant(self);
        }
        &self.addresses[0..self.len]
    }

    /// The address at `index`, if it is listed.
    pub fn get(&self, index: usize) -> (r: Option<IPv6Addr>)
        ensures
            index < self@.len() ==> r == Some(self@[index as int]),
            index >= self@.len() ==> r is None,
    {
        proof {
            use_type_invariant(self);
        }
        if index < self.len {
            Some(self.addresses[index])
        } else {
            None
        }
    }
}

} // verus!
