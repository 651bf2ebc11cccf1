//! Chain addresses: the typed form used by the parameter structures, the
//! protocol-tagged byte form used by the binary envelope, and the canonical
//! display string used by the JSON surface.
//!
//! Parsing and formatting of the display string are delegated to the
//! `fvm_shared` address codec; this module states their contracts and keeps
//! the byte form under a validity invariant of its own.

use vstd::prelude::*;

verus! {

/// Spec view of an address: the network its text form names, and its
/// protocol-tagged byte form (protocol byte followed by the raw payload).
pub struct AddrView {
    pub testnet: bool,
    pub bytes: Seq<u8>,
}

/// `s[j]` is the first byte without the varint continuation bit.
pub open spec fn clear_at(s: Seq<u8>, j: int) -> bool {
    &&& 0 <= j < s.len()
    &&& s[j] < 0x80
    &&& forall|i: int| 0 <= i < j ==> s[i] >= 0x80
}

/// `s` is exactly one minimally encoded unsigned varint of a 64-bit value.
/// A ten-byte varint holds bits beyond the sixty-third in its last byte, so
/// there that byte must be exactly one.
pub open spec fn uvarint_ok(s: Seq<u8>) -> bool {
    &&& 1 <= s.len() <= 10
    &&& clear_at(s, s.len() - 1)
    &&& (s.len() > 1 ==> s[s.len() - 1] != 0)
    &&& (s.len() == 10 ==> s[9] == 1)
}

/// `s` is a varint namespace followed by a subaddress of at most 54 bytes.
pub open spec fn delegated_ok(s: Seq<u8>) -> bool {
    exists|j: int|
        {
            &&& clear_at(s, j)
            &&& j <= 9
            &&& (j > 0 ==> s[j] != 0)
            &&& (j == 9 ==> s[9] == 1)
            &&& s.len() - (j + 1) <= 54
        }
}

/// The protocol-tagged byte forms that the address codec can format:
/// a known protocol byte followed by a payload of the shape that protocol
/// demands (varint actor id, 20-byte hash, 48-byte key, or namespace plus
/// subaddress).
pub open spec fn valid_addr_bytes(s: Seq<u8>) -> bool {
    &&& s.len() >= 2
    &&& if s[0] == 0u8 {
        uvarint_ok(s.skip(1))
    } else if s[0] == 1u8 || s[0] == 2u8 {
        s.len() == 21
    } else if s[0] == 3u8 {
        s.len() == 49
    } else if s[0] == 4u8 {
        delegated_ok(s.skip(1))
    } else {
        false
    }
}

/// Every valid byte form is short: one protocol byte and at most 64 payload bytes.
pub proof fn lemma_valid_addr_bytes_len(s: Seq<u8>)
    requires
        valid_addr_bytes(s),
    ensures
        2 <= s.len() <= 65,
{
    if s[0] == 4u8 {
        let j = choose|j: int|
            {
                &&& clear_at(s.skip(1), j)
                &&& j <= 9
                &&& (j > 0 ==> s.skip(1)[j] != 0)
                &&& s.skip(1).len() - (j + 1) <= 54
            };
        assert(s.skip(1).len() <= j + 1 + 54);
    }
}

/// What `fvm_shared`'s address parser returns on a given display string for a
/// given network prefix: the byte form of the parsed address, or nothing when
/// the string is rejected.
pub uninterp spec fn parsed_addr_bytes(testnet: bool, s: Seq<char>) -> Option<Seq<u8>>;

/// The network-independent part of the display string that `fvm_shared`
/// formats for a given byte form: everything after the one-character network
/// prefix.
pub uninterp spec fn addr_text_suffix(bytes: Seq<u8>) -> Seq<char>;

/// The lowercase alphanumeric characters that address text is drawn from
/// after the network prefix.
pub open spec fn addr_char(c: char) -> bool {
    ('a' <= c && c <= 'z') || ('0' <= c && c <= '9')
}

/// The error type of the `fvm_shared` address codec, opaque here; the
/// decoding functions map it to [`AddressFormatError`].
#[verifier::external_type_specification]
#[verifier::external_body]
pub struct ExFvmAddressError(fvm_shared::address::Error);

/// Relies on `fvm_shared::address::Network::parse_address` and
/// `Address::to_bytes`: parsing is a pure function of the network and the
/// string, and the byte form of any parsed address is a well-formed
/// protocol-tagged encoding.
#[verifier::external_body]
fn fvm_parse_address(testnet: bool, s: &Vec<char>) -> (r: Result<
    Vec<u8>,
    fvm_shared::address::Error,
>)
    ensures
        match r {
            Ok(b) => parsed_addr_bytes(testnet, s@) == Some(b@) && valid_addr_bytes(b@),
            Err(_) => parsed_addr_bytes(testnet, s@) is None,
        },
{
    let text: String = s.iter().collect();
    let network = if testnet {
        fvm_shared::address::Network::Testnet
    } else {
        fvm_shared::address::Network::Mainnet
    };
    match network.parse_address(&text) {
        Ok(a) => Ok(a.to_bytes()),
        Err(e) => Err(e),
    }
}

/// Relies on `fvm_shared::address::Address::from_bytes` and its `Display`
/// impl: a well-formed byte form always formats, only the first character of
/// the result depends on the ambient network, the rest is lowercase
/// alphanumeric, and parsing the result with either prefix recovers exactly
/// the input bytes.
#[verifier::external_body]
fn fvm_format_address(bytes: &Vec<u8>) -> (r: Vec<char>)
    requires
        valid_addr_bytes(bytes@),
    ensures
        r@.len() >= 2,
        r@.skip(1) == addr_text_suffix(bytes@),
        parsed_addr_bytes(true, seq!['t'].add(r@.skip(1))) == Some(bytes@),
        parsed_addr_bytes(false, seq!['f'].add(r@.skip(1))) == Some(bytes@),
        forall|i: int| 1 <= i < r@.len() ==> addr_char(r@[i]),
{
    let a = fvm_shared::address::Address::from_bytes(bytes.as_slice()).unwrap();
    a.to_string().chars().collect()
}

/// The address display string could not be parsed.
#[derive(Debug, Clone, Copy, PartialEq, Eq, Structural)]
pub struct AddressFormatError;

/// A chain address: the network its canonical text form names, and its
/// protocol-tagged byte form. Valid instances satisfy [`Address::wf`]; the
/// decoding functions of this crate only ever build valid instances.
#[derive(Debug, Clone)]
pub struct Address {
    pub testnet: bool,
    pub bytes: Vec<u8>,
}

impl View for Address {
    type V = AddrView;

    open spec fn view(&self) -> AddrView {
        AddrView { testnet: self.testnet, bytes: self.bytes@ }
    }
}

impl Address {
    /// The byte form is a well-formed protocol-tagged encoding.
    pub open spec fn wf(&self) -> bool {
        valid_addr_bytes(self.bytes@)
    }
}

/// Decide [`valid_addr_bytes`] on a concrete byte form.
pub fn check_addr_bytes(v: &Vec<u8>) -> (r: bool)
    ensures
        r == valid_addr_bytes(v@),
{
    if v.len() < 2 {
        return false;
    }
    let p = v[0];
    if p == 1 || p == 2 {
        return v.len() == 21;
    }
    if p == 3 {
        return v.len() == 49;
    }
    if p != 0 && p != 4 {
        return false;
    }
    // scan the payload for the first byte without the continuation bit
    let mut i: usize = 1;
    while i < v.len() && v[i] >= 0x80
        invariant
            1 <= i <= v@.len(),
            forall|k: int| 1 <= k < i ==> v@[k] >= 0x80,
        decreases v@.len() - i,
    {
        i = i + 1;
    }
    let ghost s = v@.skip(1);
    proof {
        assert(forall|k: int| 0 <= k < s.len() ==> s[k] == v@[k + 1]);
    }
    if i == v.len() {
        // no terminating byte anywhere in the payload
        proof {
            assert(forall|j: int| 0 <= j < s.len() ==> s[j] >= 0x80);
            assert(!uvarint_ok(s));
            assert(forall|j: int| !clear_at(s, j));
            assert(!delegated_ok(s));
        }
        return false;
    }
    // v[i] is the first clear byte; in payload coordinates that is j = i - 1
    let ghost j = i - 1;
    proof {
        assert(clear_at(s, j));
        // the first clear byte is the only candidate split point
        assert(forall|j2: int| clear_at(s, j2) ==> j2 == j) by {
            assert forall|j2: int| clear_at(s, j2) implies j2 == j by {
                if j2 < j {
                    assert(s[j2] >= 0x80);
                } else if j2 > j {
                    assert(s[j] >= 0x80);
                }
            }
        }
    }
    if p == 0 {
        let ok = i == v.len() - 1 && v.len() <= 11 && (v.len() == 2 || v[v.len() - 1] != 0) && (
        v.len() != 11 || v[10] == 1);
        proof {
            if ok {
                assert(uvarint_ok(s));
            } else {
                assert(!uvarint_ok(s)) by {
                    if uvarint_ok(s) {
                        assert(clear_at(s, s.len() - 1));
                    }
                }
            }
        }
        ok
    } else {
        let ok = i <= 10 && (i == 1 || v[i] != 0) && (i != 10 || v[10] == 1) && v.len() - (i + 1)
            <= 54;
        proof {
            if ok {
                assert(delegated_ok(s)) by {
                    assert(clear_at(s, j) && j <= 9 && (j > 0 ==> s[j] != 0) && (j == 9 ==> s[9]
                        == 1) && s.len() - (j + 1) <= 54);
                }
            } else {
                assert(!delegated_ok(s));
            }
        }
        ok
    }
}

/// Compare two byte vectors.
pub fn bytes_eq(a: &Vec<u8>, b: &Vec<u8>) -> (r: bool)
    ensures
        r == (a@ == b@),
{
    if a.len() != b.len() {
        return false;
    }
    let mut i: usize = 0;
    while i < a.len()
        invariant
            i <= a@.len(),
            a@.len() == b@.len(),
            forall|k: int| 0 <= k < i ==> a@[k] == b@[k],
        decreases a@.len() - i,
    {
        if a[i] != b[i] {
            return false;
        }
        i = i + 1;
    }
    proof {
        assert(a@ =~= b@);
    }
    true
}

impl PartialEq for Address {
    fn eq(&self, o: &Address) -> (r: bool) {
        self.testnet == o.testnet && bytes_eq(&self.bytes, &o.bytes)
    }
}

impl vstd::std_specs::cmp::PartialEqSpecImpl for Address {
    open spec fn obeys_eq_spec() -> bool {
        true
    }

    open spec fn eq_spec(&self, o: &Address) -> bool {
        self.testnet == o.testnet && self.bytes@ == o.bytes@
    }
}

/// The canonical display string of an address: its network prefix followed by
/// the network-independent suffix that the delegated codec formats.
pub open spec fn spec_address_text(a: AddrView) -> Seq<char> {
    seq![if a.testnet { 't' } else { 'f' }].add(addr_text_suffix(a.bytes))
}

/// What decoding a display string yields: the network named by the first
/// character, and the bytes the delegated parser returns, or nothing when the
/// prefix is unknown or the parser rejects the string.
pub open spec fn spec_decode_address(s: Seq<char>) -> Option<AddrView> {
    if s.len() > 0 && (s[0] == 'f' || s[0] == 't') {
        match parsed_addr_bytes(s[0] == 't', s) {
            Some(b) => Some(AddrView { testnet: s[0] == 't', bytes: b }),
            None => None,
        }
    } else {
        None
    }
}

/// Parse a canonical display string into an address.
///
/// Returns `Ok` exactly when the string has a known network prefix and the
/// delegated parser accepts it; the resulting address is well formed.
pub fn decode_address(s: &Vec<char>) -> (r: Result<Address, AddressFormatError>)
    ensures
        match r {
            Ok(a) => a.wf() && spec_decode_address(s@) == Some(a@),
            Err(_) => spec_decode_address(s@) is None,
        },
{
    if s.len() == 0 {
        return Err(AddressFormatError);
    }
    let c = s[0];
    if c != 'f' && c != 't' {
        return Err(AddressFormatError);
    }
    let testnet = c == 't';
    match fvm_parse_address(testnet, s) {
        Ok(b) => Ok(Address { testnet, bytes: b }),
        Err(_) => Err(AddressFormatError),
    }
}

/// Produce the canonical display string for an address. Total on well-formed
/// addresses.
pub fn encode_address(a: &Address) -> (r: Vec<char>)
    requires
        a.wf(),
    ensures
        r@ == spec_address_text(a@),
        spec_decode_address(r@) == Some(a@),
        r@.len() >= 2,
        forall|i: int| 1 <= i < r@.len() ==> addr_char(#[trigger] r@[i]),
{
    let formatted = fvm_format_address(&a.bytes);
    let mut out: Vec<char> = Vec::new();
    let prefix = if a.testnet {
        't'
    } else {
        'f'
    };
    out.push(prefix);
    let mut i: usize = 1;
    while i < formatted.len()
        invariant
            1 <= i <= formatted@.len(),
            out@ == seq![prefix].add(formatted@.subrange(1, i as int)),
        decreases formatted@.len() - i,
    {
        let ch = formatted[i];
        out.push(ch);
        i = i + 1;
    }
    proof {
        assert(formatted@.subrange(1, formatted@.len() as int) == formatted@.skip(1));
        assert(out@ == seq![prefix].add(addr_text_suffix(a.bytes@)));
        assert(out@.skip(1) == addr_text_suffix(a.bytes@));
        if a.testnet {
            assert(seq!['t'].add(out@.skip(1)) == out@);
        } else {
            assert(seq!['f'].add(out@.skip(1)) == out@);
        }
        assert(out@[0] == prefix);
    }
    out
}

} // verus!
