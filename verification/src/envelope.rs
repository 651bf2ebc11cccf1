//! The binary envelope: a positional encoding of one parameter variant,
//! fields in declaration order, no name, tag or length prefix. A variant is
//! written as a tuple — a small array holding the byte form of each field —
//! so the envelope alone is not self-describing: the variant tag travels out
//! of band, and so does the network an embedded address belongs to, since the
//! byte form of an address carries no network.

use vstd::prelude::*;
use crate::address::{Address, AddrView, valid_addr_bytes, lemma_valid_addr_bytes_len};
use crate::params::{
    AddSignerParams, ChangeNumApprovalsThresholdParams, ParamsAPI, ParamsView, VariantTag,
    params_wf, spec_tag_of,
};

verus! {

/// Binary decoding failed: the envelope ends before the variant's fields do,
/// or a field's bytes do not form a valid value of its declared type.
#[derive(Debug, Clone, Copy, PartialEq, Eq, Structural)]
pub enum EnvelopeError {
    TruncatedEnvelope,
    MalformedField,
}

/// The canonical head-plus-argument encoding of an unsigned 64-bit integer:
/// the shortest of the five fixed forms that fits the value.
pub open spec fn spec_uint_bytes(n: u64) -> Seq<u8> {
    if n < 24 {
        seq![n as u8]
    } else if n < 0x100 {
        seq![0x18u8, n as u8]
    } else if n < 0x10000 {
        seq![0x19u8, (n / 0x100) as u8, (n % 0x100) as u8]
    } else if n < 0x100000000 {
        seq![
            0x1au8,
            (n / 0x1000000) as u8,
            ((n / 0x10000) % 0x100) as u8,
            ((n / 0x100) % 0x100) as u8,
            (n % 0x100) as u8,
        ]
    } else {
        seq![
            0x1bu8,
            (n / 0x100000000000000) as u8,
            ((n / 0x1000000000000) % 0x100) as u8,
            ((n / 0x10000000000) % 0x100) as u8,
            ((n / 0x100000000) % 0x100) as u8,
            ((n / 0x1000000) % 0x100) as u8,
            ((n / 0x10000) % 0x100) as u8,
            ((n / 0x100) % 0x100) as u8,
            (n % 0x100) as u8,
        ]
    }
}

/// The head of a byte-string field of `n` bytes (meaningful for `n < 0x100`).
pub open spec fn spec_bytestr_head(n: int) -> Seq<u8> {
    if n < 24 {
        seq![(0x40 + n) as u8]
    } else {
        seq![0x58u8, n as u8]
    }
}

/// The envelope of one parameter variant: its fields in declaration order
/// inside a fixed-size tuple.
pub open spec fn spec_encode_envelope(p: ParamsView) -> Seq<u8> {
    match p {
        ParamsView::AddSigner { signer, increase } => seq![0x82u8].add(
            spec_bytestr_head(signer.bytes.len() as int),
        ).add(signer.bytes).add(seq![if increase { 0xf5u8 } else { 0xf4u8 }]),
        ParamsView::Threshold { new_threshold } => seq![0x81u8].add(
            spec_uint_bytes(new_threshold),
        ),
    }
}

/// Decoding of the tail of an add-signer envelope: the address bytes start at
/// `start` with length `n`, then one boolean byte, then nothing.
pub open spec fn spec_decode_add_tail(b: Seq<u8>, start: int, n: int, testnet: bool) -> Result<
    ParamsView,
    EnvelopeError,
> {
    if b.len() < start + n {
        Err(EnvelopeError::TruncatedEnvelope)
    } else {
        let ab = b.subrange(start, start + n);
        if !valid_addr_bytes(ab) {
            Err(EnvelopeError::MalformedField)
        } else if b.len() == start + n {
            Err(EnvelopeError::TruncatedEnvelope)
        } else if b[start + n] != 0xf4 && b[start + n] != 0xf5 {
            Err(EnvelopeError::MalformedField)
        } else if b.len() != start + n + 1 {
            Err(EnvelopeError::MalformedField)
        } else {
            Ok(
                ParamsView::AddSigner {
                    signer: AddrView { testnet, bytes: ab },
                    increase: b[start + n] == 0xf5,
                },
            )
        }
    }
}

/// Decoding of an add-signer envelope: a two-tuple of a byte-string field
/// (the address bytes, which must be a well-formed protocol-tagged encoding)
/// and a boolean field.
pub open spec fn spec_decode_add(b: Seq<u8>, testnet: bool) -> Result<ParamsView, EnvelopeError> {
    if b.len() == 0 {
        Err(EnvelopeError::TruncatedEnvelope)
    } else if b[0] != 0x82 {
        Err(EnvelopeError::MalformedField)
    } else if b.len() < 2 {
        Err(EnvelopeError::TruncatedEnvelope)
    } else if 0x40 <= b[1] && b[1] < 0x58 {
        spec_decode_add_tail(b, 2, b[1] - 0x40, testnet)
    } else if b[1] == 0x58 {
        if b.len() < 3 {
            Err(EnvelopeError::TruncatedEnvelope)
        } else if b[2] < 24 {
            Err(EnvelopeError::MalformedField)
        } else {
            spec_decode_add_tail(b, 3, b[2] as int, testnet)
        }
    } else {
        Err(EnvelopeError::MalformedField)
    }
}

/// Decoding of a threshold envelope: a one-tuple holding an unsigned 64-bit
/// integer in its shortest head-plus-argument form, and nothing after it.
pub open spec fn spec_decode_threshold(b: Seq<u8>) -> Result<ParamsView, EnvelopeError> {
    if b.len() == 0 {
        Err(EnvelopeError::TruncatedEnvelope)
    } else if b[0] != 0x81 {
        Err(EnvelopeError::MalformedField)
    } else if b.len() < 2 {
        Err(EnvelopeError::TruncatedEnvelope)
    } else if b[1] < 24 {
        if b.len() != 2 {
            Err(EnvelopeError::MalformedField)
        } else {
            Ok(ParamsView::Threshold { new_threshold: b[1] as u64 })
        }
    } else if b[1] == 0x18 {
        if b.len() < 3 {
            Err(EnvelopeError::TruncatedEnvelope)
        } else if b[2] < 24 {
            Err(EnvelopeError::MalformedField)
        } else if b.len() != 3 {
            Err(EnvelopeError::MalformedField)
        } else {
            Ok(ParamsView::Threshold { new_threshold: b[2] as u64 })
        }
    } else if b[1] == 0x19 {
        if b.len() < 4 {
            Err(EnvelopeError::TruncatedEnvelope)
        } else if b[2] == 0 {
            Err(EnvelopeError::MalformedField)
        } else if b.len() != 4 {
            Err(EnvelopeError::MalformedField)
        } else {
            Ok(
                ParamsView::Threshold {
                    new_threshold: ((b[2] as u64) * 0x100 + (b[3] as u64)) as u64,
                },
            )
        }
    } else if b[1] == 0x1a {
        if b.len() < 6 {
            Err(EnvelopeError::TruncatedEnvelope)
        } else if b[2] == 0 && b[3] == 0 {
            Err(EnvelopeError::MalformedField)
        } else if b.len() != 6 {
            Err(EnvelopeError::MalformedField)
        } else {
            Ok(
                ParamsView::Threshold {
                    new_threshold: ((b[2] as u64) * 0x1000000 + (b[3] as u64) * 0x10000 + (
                    b[4] as u64) * 0x100 + (b[5] as u64)) as u64,
                },
            )
        }
    } else if b[1] == 0x1b {
        if b.len() < 10 {
            Err(EnvelopeError::TruncatedEnvelope)
        } else if b[2] == 0 && b[3] == 0 && b[4] == 0 && b[5] == 0 {
            Err(EnvelopeError::MalformedField)
        } else if b.len() != 10 {
            Err(EnvelopeError::MalformedField)
        } else {
            Ok(
                ParamsView::Threshold {
                    new_threshold: ((b[2] as u64) * 0x100000000000000 + (b[3] as u64)
                        * 0x1000000000000 + (b[4] as u64) * 0x10000000000 + (b[5] as u64)
                        * 0x100000000 + (b[6] as u64) * 0x1000000 + (b[7] as u64) * 0x10000 + (
                    b[8] as u64) * 0x100 + (b[9] as u64)) as u64,
                },
            )
        }
    } else {
        Err(EnvelopeError::MalformedField)
    }
}

/// Decoding of an envelope as the variant the out-of-band `tag` names, with
/// `testnet` saying which network an embedded address belongs to.
pub open spec fn spec_decode_envelope(b: Seq<u8>, tag: VariantTag, testnet: bool) -> Result<
    ParamsView,
    EnvelopeError,
> {
    match tag {
        VariantTag::AddSigner => spec_decode_add(b, testnet),
        VariantTag::ChangeNumApprovalsThreshold => spec_decode_threshold(b),
    }
}

/// The network an envelope's embedded address belongs to, for the variants
/// that embed one; immaterial for the others.
pub open spec fn spec_net_of(p: ParamsView) -> bool {
    match p {
        ParamsView::AddSigner { signer, .. } => signer.testnet,
        ParamsView::Threshold { .. } => false,
    }
}

/// Round trip, binary: decoding an encoded envelope — as the variant's own
/// tag, with the network of its embedded address supplied out of band —
/// yields exactly the encoded value, for every well-formed variant value.
pub proof fn lemma_binary_round_trip(p: ParamsView, testnet: bool)
    requires
        params_wf(p),
        testnet == spec_net_of(p),
    ensures
        spec_decode_envelope(spec_encode_envelope(p), spec_tag_of(p), testnet) == Ok::<
            ParamsView,
            EnvelopeError,
        >(p),
{
    let b = spec_encode_envelope(p);
    match p {
        ParamsView::AddSigner { signer, increase } => {
            lemma_valid_addr_bytes_len(signer.bytes);
            let l = signer.bytes.len() as int;
            let head = spec_bytestr_head(l);
            let start = 1 + head.len() as int;
            assert(b.len() == start + l + 1);
            assert(b[0] == 0x82);
            if l < 24 {
                assert(b[1] == (0x40 + l) as u8);
                assert(0x40 <= b[1] && b[1] < 0x58);
                assert(b[1] - 0x40 == l);
            } else {
                assert(b[1] == 0x58);
                assert(b[2] == l as u8);
                assert(b[2] as int == l);
                assert(b[2] >= 24);
            }
            assert(b.subrange(start, start + l) =~= signer.bytes);
            assert(b[start + l] == (if increase {
                0xf5u8
            } else {
                0xf4u8
            }));
            assert(spec_decode_add_tail(b, start, l, testnet) == Ok::<
                ParamsView,
                EnvelopeError,
            >(p));
        },
        ParamsView::Threshold { new_threshold } => {
            let n = new_threshold;
            let u = spec_uint_bytes(n);
            assert(b.len() == 1 + u.len());
            assert(b[0] == 0x81);
            assert(forall|i: int| 0 <= i < u.len() ==> b[i + 1] == u[i]);
            if n < 24 {
                assert(b[1] == n as u8);
            } else if n < 0x100 {
                assert(b[1] == 0x18 && b[2] == n as u8);
            } else if n < 0x10000 {
                assert(b[2] == (n / 0x100) as u8 && b[3] == (n % 0x100) as u8);
                assert(n / 0x100 >= 1);
                assert((b[2] as u64) * 0x100 + (b[3] as u64) == n);
            } else if n < 0x100000000 {
                assert(b[2] == (n / 0x1000000) as u8 && b[3] == ((n / 0x10000) % 0x100) as u8
                    && b[4] == ((n / 0x100) % 0x100) as u8 && b[5] == (n % 0x100) as u8);
                assert(!(b[2] == 0 && b[3] == 0)) by {
                    if n / 0x1000000 == 0 && (n / 0x10000) % 0x100 == 0 {
                        assert(n / 0x10000 < 0x100);
                        assert(n / 0x10000 == 0);
                        assert(n < 0x10000);
                    }
                }
                assert((b[2] as u64) * 0x1000000 + (b[3] as u64) * 0x10000 + (b[4] as u64) * 0x100
                    + (b[5] as u64) == n) by {
                    lemma_u64_digits_4(n);
                }
            } else {
                assert(b[2] == (n / 0x100000000000000) as u8 && b[3] == ((n / 0x1000000000000)
                    % 0x100) as u8 && b[4] == ((n / 0x10000000000) % 0x100) as u8 && b[5] == ((n
                    / 0x100000000) % 0x100) as u8 && b[6] == ((n / 0x1000000) % 0x100) as u8 && b[7]
                    == ((n / 0x10000) % 0x100) as u8 && b[8] == ((n / 0x100) % 0x100) as u8 && b[9]
                    == (n % 0x100) as u8);
                assert(!(b[2] == 0 && b[3] == 0 && b[4] == 0 && b[5] == 0)) by {
                    if n / 0x100000000000000 == 0 && (n / 0x1000000000000) % 0x100 == 0 && (n
                        / 0x10000000000) % 0x100 == 0 && (n / 0x100000000) % 0x100 == 0 {
                        assert(n / 0x1000000000000 < 0x100);
                        assert(n / 0x1000000000000 == 0);
                        assert(n / 0x10000000000 < 0x100);
                        assert(n / 0x10000000000 == 0);
                        assert(n / 0x100000000 < 0x100);
                        assert(n / 0x100000000 == 0);
                        assert(n < 0x100000000);
                    }
                }
                assert((b[2] as u64) * 0x100000000000000 + (b[3] as u64) * 0x1000000000000 + (
                b[4] as u64) * 0x10000000000 + (b[5] as u64) * 0x100000000 + (b[6] as u64)
                    * 0x1000000 + (b[7] as u64) * 0x10000 + (b[8] as u64) * 0x100 + (b[9] as u64)
                    == n) by {
                    lemma_u64_digits_8(n);
                }
            }
        },
    }
}

/// Reassembling a 32-bit value from its four base-256 digits gives it back.
proof fn lemma_u64_digits_4(n: u64)
    requires
        n < 0x100000000,
    ensures
        (n / 0x1000000) * 0x1000000 + ((n / 0x10000) % 0x100) * 0x10000 + ((n / 0x100) % 0x100)
            * 0x100 + n % 0x100 == n,
{
    assert((n / 0x1000000) * 0x1000000 + ((n / 0x10000) % 0x100) * 0x10000 + ((n / 0x100) % 0x100)
        * 0x100 + n % 0x100 == n) by (bit_vector)
        requires
            n < 0x100000000,
    ;
}

/// Reassembling a 64-bit value from its eight base-256 digits gives it back.
proof fn lemma_u64_digits_8(n: u64)
    ensures
        (n / 0x100000000000000) * 0x100000000000000 + ((n / 0x1000000000000) % 0x100)
            * 0x1000000000000 + ((n / 0x10000000000) % 0x100) * 0x10000000000 + ((n / 0x100000000)
            % 0x100) * 0x100000000 + ((n / 0x1000000) % 0x100) * 0x1000000 + ((n / 0x10000) % 0x100)
            * 0x10000 + ((n / 0x100) % 0x100) * 0x100 + n % 0x100 == n,
{
    assert((n / 0x100000000000000) * 0x100000000000000 + ((n / 0x1000000000000) % 0x100)
        * 0x1000000000000 + ((n / 0x10000000000) % 0x100) * 0x10000000000 + ((n / 0x100000000)
        % 0x100) * 0x100000000 + ((n / 0x1000000) % 0x100) * 0x1000000 + ((n / 0x10000) % 0x100)
        * 0x10000 + ((n / 0x100) % 0x100) * 0x100 + n % 0x100 == n) by (bit_vector);
}

/// Append the shortest head-plus-argument form of `n`.
fn push_uint_bytes(out: &mut Vec<u8>, n: u64)
    ensures
        final(out)@ == old(out)@.add(spec_uint_bytes(n)),
{
    if n < 24 {
        out.push(n as u8);
    } else if n < 0x100 {
        out.push(0x18u8);
        out.push(n as u8);
    } else if n < 0x10000 {
        out.push(0x19u8);
        out.push((n / 0x100) as u8);
        out.push((n % 0x100) as u8);
    } else if n < 0x100000000 {
        out.push(0x1au8);
        out.push((n / 0x1000000) as u8);
        out.push(((n / 0x10000) % 0x100) as u8);
        out.push(((n / 0x100) % 0x100) as u8);
        out.push((n % 0x100) as u8);
    } else {
        out.push(0x1bu8);
        out.push((n / 0x100000000000000) as u8);
        out.push(((n / 0x1000000000000) % 0x100) as u8);
        out.push(((n / 0x10000000000) % 0x100) as u8);
        out.push(((n / 0x100000000) % 0x100) as u8);
        out.push(((n / 0x1000000) % 0x100) as u8);
        out.push(((n / 0x10000) % 0x100) as u8);
        out.push(((n / 0x100) % 0x100) as u8);
        out.push((n % 0x100) as u8);
    }
    proof {
        assert(out@ =~= old(out)@.add(spec_uint_bytes(n)));
    }
}

/// Encode one parameter variant into its binary envelope. Total on
/// well-formed values.
pub fn binary_encode(p: &ParamsAPI) -> (r: Vec<u8>)
    requires
        p.wf(),
    ensures
        r@ == spec_encode_envelope(p@),
{
    let mut out: Vec<u8> = Vec::new();
    match p {
        ParamsAPI::AddSignerParamsAPI(a) => {
            proof {
                lemma_valid_addr_bytes_len(a.signer.bytes@);
            }
            out.push(0x82u8);
            let n = a.signer.bytes.len();
            if n < 24 {
                out.push(0x40u8 + n as u8);
            } else {
                out.push(0x58u8);
                out.push(n as u8);
            }
            let ghost before_addr = out@;
            let mut i: usize = 0;
            while i < a.signer.bytes.len()
                invariant
                    i <= a.signer.bytes@.len(),
                    out@ == before_addr.add(a.signer.bytes@.subrange(0, i as int)),
                decreases a.signer.bytes@.len() - i,
            {
                let byte = a.signer.bytes[i];
                out.push(byte);
                i = i + 1;
            }
            out.push(if a.increase {
                0xf5u8
            } else {
                0xf4u8
            });
            proof {
                assert(a.signer.bytes@.subrange(0, a.signer.bytes@.len() as int) =~= a
                    .signer
                    .bytes@);
                assert(out@ =~= spec_encode_envelope(p@));
            }
        },
        ParamsAPI::ChangeNumApprovalsThresholdParamsAPI(t) => {
            out.push(0x81u8);
            push_uint_bytes(&mut out, t.new_threshold);
            proof {
                assert(out@ =~= spec_encode_envelope(p@));
            }
        },
    }
    out
}

/// Round trip, binary, executable: encoding a well-formed variant value and
/// decoding the envelope with the value's own tag and network always
/// succeeds and yields an equal value.
pub fn binary_round_trip(p: &ParamsAPI) -> (r: Result<ParamsAPI, EnvelopeError>)
    requires
        p.wf(),
    ensures
        r matches Ok(q) && q@ == p@ && q.wf(),
{
    let env = binary_encode(p);
    let tag = p.tag();
    let testnet = match p {
        ParamsAPI::AddSignerParamsAPI(a) => a.signer.testnet,
        ParamsAPI::ChangeNumApprovalsThresholdParamsAPI(_) => false,
    };
    proof {
        lemma_binary_round_trip(p@, testnet);
    }
    binary_decode(&env, tag, testnet)
}

/// The lowercase character of one hexadecimal digit value.
pub open spec fn hex_digit(d: u8) -> char {
    if d < 10 {
        ((48 + d) as char)
    } else {
        ((87 + d) as u8) as char
    }
}

/// The lowercase hexadecimal text of a byte sequence: two digits per byte,
/// high digit first.
pub open spec fn spec_hex(b: Seq<u8>) -> Seq<char>
    decreases b.len(),
{
    if b.len() == 0 {
        Seq::<char>::empty()
    } else {
        spec_hex(b.drop_last()).push(hex_digit(b.last() / 16)).push(hex_digit(b.last() % 16))
    }
}

/// The lowercase character of one hexadecimal digit value.
fn hex_digit_char(d: u8) -> (r: char)
    requires
        d < 16,
    ensures
        r == hex_digit(d),
{
    if d < 10 {
        (48 + d) as char
    } else {
        (87 + d) as char
    }
}

/// The lowercase hexadecimal text of an envelope (or of any byte sequence).
pub fn envelope_hex(b: &Vec<u8>) -> (r: Vec<char>)
    ensures
        r@ == spec_hex(b@),
{
    let mut out: Vec<char> = Vec::new();
    let mut i: usize = 0;
    proof {
        assert(b@.take(0) =~= Seq::<u8>::empty());
    }
    while i < b.len()
        invariant
            i <= b@.len(),
            out@ == spec_hex(b@.take(i as int)),
        decreases b@.len() - i,
    {
        let byte = b[i];
        out.push(hex_digit_char(byte / 16));
        out.push(hex_digit_char(byte % 16));
        proof {
            assert(b@.take(i as int + 1).drop_last() =~= b@.take(i as int));
            assert(b@.take(i as int + 1).last() == b@[i as int]);
        }
        i = i + 1;
    }
    proof {
        assert(b@.take(b@.len() as int) =~= b@);
    }
    out
}

/// Read `u64` byte `i` of the envelope.
fn byte_at(b: &Vec<u8>, i: usize) -> (r: u64)
    requires
        i < b@.len(),
    ensures
        r == b@[i as int] as u64,
        r < 0x100,
{
    b[i] as u64
}

/// Decode the envelope of the variant `tag` names. `testnet` supplies, out of
/// band, the network of any embedded address. Fails with
/// `TruncatedEnvelope` when fewer bytes are present than the variant
/// requires, and with `MalformedField` when a field's bytes do not form a
/// valid value of its declared type or bytes trail the last field.
pub fn binary_decode(b: &Vec<u8>, tag: VariantTag, testnet: bool) -> (r: Result<
    ParamsAPI,
    EnvelopeError,
>)
    ensures
        match r {
            Ok(p) => spec_decode_envelope(b@, tag, testnet) == Ok::<ParamsView, EnvelopeError>(p@)
                && p.wf(),
            Err(e) => spec_decode_envelope(b@, tag, testnet) == Err::<ParamsView, EnvelopeError>(
                e,
            ),
        },
{
    match tag {
        VariantTag::AddSigner => decode_add(b, testnet),
        VariantTag::ChangeNumApprovalsThreshold => decode_threshold(b),
    }
}

/// Decode an add-signer envelope.
fn decode_add(b: &Vec<u8>, testnet: bool) -> (r: Result<ParamsAPI, EnvelopeError>)
    ensures
        match r {
            Ok(p) => spec_decode_add(b@, testnet) == Ok::<ParamsView, EnvelopeError>(p@) && p.wf(),
            Err(e) => spec_decode_add(b@, testnet) == Err::<ParamsView, EnvelopeError>(e),
        },
{
    if b.len() == 0 {
        return Err(EnvelopeError::TruncatedEnvelope);
    }
    if b[0] != 0x82 {
        return Err(EnvelopeError::MalformedField);
    }
    if b.len() < 2 {
        return Err(EnvelopeError::TruncatedEnvelope);
    }
    let h = b[1];
    let header: (usize, usize) = if 0x40 <= h && h < 0x58 {
        (2, (h - 0x40) as usize)
    } else if h == 0x58 {
        if b.len() < 3 {
            return Err(EnvelopeError::TruncatedEnvelope);
        }
        if b[2] < 24 {
            return Err(EnvelopeError::MalformedField);
        }
        (3, b[2] as usize)
    } else {
        return Err(EnvelopeError::MalformedField);
    };
    let start: usize = header.0;
    let n: usize = header.1;
    if b.len() < start + n {
        return Err(EnvelopeError::TruncatedEnvelope);
    }
    let end: usize = start + n;
    let mut ab: Vec<u8> = Vec::new();
    let mut i: usize = start;
    while i < end
        invariant
            start <= i <= end,
            end == start + n,
            end <= b@.len(),
            ab@ == b@.subrange(start as int, i as int),
        decreases end - i,
    {
        let byte = b[i];
        ab.push(byte);
        proof {
            assert(start as int <= i as int);
            assert(i as int + 1 <= b@.len());
            let lhs = b@.subrange(start as int, i as int + 1);
            let rhs = b@.subrange(start as int, i as int).push(b@[i as int]);
            assert(lhs.len() == i + 1 - start);
            assert(rhs.len() == i + 1 - start);
            assert forall|k: int| 0 <= k < lhs.len() implies lhs[k] == rhs[k] by {
                if k < i as int - start as int {
                    assert(rhs[k] == b@[start as int + k]);
                }
            }
            assert(lhs =~= rhs);
        }
        i = i + 1;
    }
    if !crate::address::check_addr_bytes(&ab) {
        return Err(EnvelopeError::MalformedField);
    }
    if b.len() == start + n {
        return Err(EnvelopeError::TruncatedEnvelope);
    }
    let x = b[start + n];
    if x != 0xf4 && x != 0xf5 {
        return Err(EnvelopeError::MalformedField);
    }
    if b.len() != start + n + 1 {
        return Err(EnvelopeError::MalformedField);
    }
    let signer = Address { testnet, bytes: ab };
    Ok(ParamsAPI::AddSignerParamsAPI(AddSignerParams { signer, increase: x == 0xf5 }))
}

/// Decode a threshold envelope.
fn decode_threshold(b: &Vec<u8>) -> (r: Result<ParamsAPI, EnvelopeError>)
    ensures
        match r {
            Ok(p) => spec_decode_threshold(b@) == Ok::<ParamsView, EnvelopeError>(p@) && p.wf(),
            Err(e) => spec_decode_threshold(b@) == Err::<ParamsView, EnvelopeError>(e),
        },
{
    if b.len() == 0 {
        return Err(EnvelopeError::TruncatedEnvelope);
    }
    if b[0] != 0x81 {
        return Err(EnvelopeError::MalformedField);
    }
    if b.len() < 2 {
        return Err(EnvelopeError::TruncatedEnvelope);
    }
    let m = b[1];
    let parsed: (u64, usize) = if m < 24 {
        (m as u64, 2)
    } else if m == 0x18 {
        if b.len() < 3 {
            return Err(EnvelopeError::TruncatedEnvelope);
        }
        if b[2] < 24 {
            return Err(EnvelopeError::MalformedField);
        }
        (b[2] as u64, 3)
    } else if m == 0x19 {
        if b.len() < 4 {
            return Err(EnvelopeError::TruncatedEnvelope);
        }
        if b[2] == 0 {
            return Err(EnvelopeError::MalformedField);
        }
        (byte_at(b, 2) * 0x100 + byte_at(b, 3), 4)
    } else if m == 0x1a {
        if b.len() < 6 {
            return Err(EnvelopeError::TruncatedEnvelope);
        }
        if b[2] == 0 && b[3] == 0 {
            return Err(EnvelopeError::MalformedField);
        }
        (
            byte_at(b, 2) * 0x1000000 + byte_at(b, 3) * 0x10000 + byte_at(b, 4) * 0x100 + byte_at(
                b,
                5,
            ),
            6,
        )
    } else if m == 0x1b {
        if b.len() < 10 {
            return Err(EnvelopeError::TruncatedEnvelope);
        }
        if b[2] == 0 && b[3] == 0 && b[4] == 0 && b[5] == 0 {
            return Err(EnvelopeError::MalformedField);
        }
        (
            byte_at(b, 2) * 0x100000000000000 + byte_at(b, 3) * 0x1000000000000 + byte_at(b, 4)
                * 0x10000000000 + byte_at(b, 5) * 0x100000000 + byte_at(b, 6) * 0x1000000
                + byte_at(b, 7) * 0x10000 + byte_at(b, 8) * 0x100 + byte_at(b, 9),
            10,
        )
    } else {
        return Err(EnvelopeError::MalformedField);
    };
    let val: u64 = parsed.0;
    let want_len: usize = parsed.1;
    if b.len() != want_len {
        return Err(EnvelopeError::MalformedField);
    }
    Ok(
        ParamsAPI::ChangeNumApprovalsThresholdParamsAPI(
            ChangeNumApprovalsThresholdParams { new_threshold: val },
        ),
    )
}

} // verus!
