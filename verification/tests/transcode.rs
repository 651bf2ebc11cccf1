use msig_params::address::{decode_address, encode_address, Address};
use msig_params::envelope::{
    binary_decode, binary_encode, binary_round_trip, envelope_hex, EnvelopeError,
};
use msig_params::params::{
    AddSignerParams, ChangeNumApprovalsThresholdParams, ParamsAPI, VariantTag,
};
use msig_params::transcode::{json_decode_params, json_encode_params, json_round_trip,
    DecodeParamsError};

fn chars(s: &str) -> Vec<char> {
    s.chars().collect()
}

fn string_of(v: &[char]) -> String {
    v.iter().collect()
}

fn t01_add_signer(increase: bool) -> ParamsAPI {
    ParamsAPI::AddSignerParamsAPI(AddSignerParams {
        signer: Address {
            testnet: true,
            bytes: vec![0x00, 0x01],
        },
        increase,
    })
}

fn threshold(n: u64) -> ParamsAPI {
    ParamsAPI::ChangeNumApprovalsThresholdParamsAPI(ChangeNumApprovalsThresholdParams {
        new_threshold: n,
    })
}

#[test]
fn decodes_concrete_add_signer() {
    let input = chars(r#"{ "signer": "t01", "increase": true }"#);
    let got = json_decode_params(&input).expect("decode should succeed");
    assert_eq!(got, t01_add_signer(true));
}

#[test]
fn binary_encoding_matches_pinned_hex() {
    let p = t01_add_signer(true);
    let env = binary_encode(&p);
    assert_eq!(env, vec![0x82, 0x42, 0x00, 0x01, 0xf5]);
    assert_eq!(string_of(&envelope_hex(&env)), "82420001f5");
}

#[test]
fn binary_decoding_pinned_bytes_reproduces_struct() {
    let env = vec![0x82u8, 0x42, 0x00, 0x01, 0xf5];
    let got = binary_decode(&env, VariantTag::AddSigner, true).expect("decode should succeed");
    assert_eq!(got, t01_add_signer(true));
}

#[test]
fn reencoded_json_is_semantically_equal() {
    let input = r#"{ "signer": "t01", "increase": true }"#;
    let p = json_decode_params(&chars(input)).expect("decode should succeed");
    let out = string_of(&json_encode_params(&p));
    let a: serde_json::Value = serde_json::from_str(input).expect("input is JSON");
    let b: serde_json::Value = serde_json::from_str(&out).expect("output is JSON");
    assert_eq!(a, b);
}

#[test]
fn binary_round_trips_each_variant() {
    for p in [t01_add_signer(true), t01_add_signer(false), threshold(7)] {
        let got = binary_round_trip(&p).expect("round trip should succeed");
        assert_eq!(got, p);
    }
}

#[test]
fn json_round_trips_each_variant() {
    for p in [t01_add_signer(true), t01_add_signer(false), threshold(7)] {
        let got = json_round_trip(&p).expect("round trip should succeed");
        assert_eq!(got, p);
    }
}

#[test]
fn first_match_wins_selects_add_signer() {
    let input = chars(r#"{"signer": "t01", "increase": true}"#);
    let got = json_decode_params(&input).expect("decode should succeed");
    assert!(matches!(got, ParamsAPI::AddSignerParamsAPI(_)));
}

#[test]
fn unknown_fields_are_rejected_with_their_names() {
    let input = chars(r#"{"foo": 1}"#);
    match json_decode_params(&input) {
        Err(DecodeParamsError::NoMatchingVariant(names)) => {
            assert_eq!(names, vec![chars("foo")]);
        }
        other => panic!("expected NoMatchingVariant, got {:?}", other),
    }
}

#[test]
fn invalid_address_is_an_address_error() {
    let input = chars(r#"{"signer": "not-an-address", "increase": true}"#);
    assert!(matches!(
        json_decode_params(&input),
        Err(DecodeParamsError::AddressFormat)
    ));
}

#[test]
fn invalid_address_with_known_prefix_is_an_address_error() {
    let input = chars(r#"{"signer": "t9zz", "increase": false}"#);
    assert!(matches!(
        json_decode_params(&input),
        Err(DecodeParamsError::AddressFormat)
    ));
}

#[test]
fn threshold_boundaries_round_trip() {
    for n in [0u64, 1, 23, 24, 255, 256, 65535, 65536, u64::MAX - 1, u64::MAX] {
        let p = threshold(n);
        assert_eq!(binary_round_trip(&p).expect("binary"), p);
        assert_eq!(json_round_trip(&p).expect("json"), p);
    }
    let zero = json_decode_params(&chars(r#"{"new_threshold": 0}"#)).expect("decode zero");
    assert_eq!(zero, threshold(0));
    let big = json_decode_params(&chars(r#"{"new_threshold": 18446744073709551615}"#))
        .expect("decode max");
    assert_eq!(big, threshold(u64::MAX));
}

#[test]
fn threshold_binary_encodings_are_pinned() {
    assert_eq!(binary_encode(&threshold(0)), vec![0x81, 0x00]);
    assert_eq!(binary_encode(&threshold(23)), vec![0x81, 0x17]);
    assert_eq!(binary_encode(&threshold(24)), vec![0x81, 0x18, 0x18]);
    assert_eq!(binary_encode(&threshold(256)), vec![0x81, 0x19, 0x01, 0x00]);
    assert_eq!(
        binary_encode(&threshold(u64::MAX)),
        vec![0x81, 0x1b, 0xff, 0xff, 0xff, 0xff, 0xff, 0xff, 0xff, 0xff]
    );
}

#[test]
fn truncated_envelopes_are_reported() {
    let truncated = vec![0x82u8, 0x42, 0x00];
    assert_eq!(
        binary_decode(&truncated, VariantTag::AddSigner, true),
        Err(EnvelopeError::TruncatedEnvelope)
    );
    let empty: Vec<u8> = vec![];
    assert_eq!(
        binary_decode(&empty, VariantTag::ChangeNumApprovalsThreshold, false),
        Err(EnvelopeError::TruncatedEnvelope)
    );
}

#[test]
fn malformed_fields_are_reported() {
    // an unknown protocol byte inside the address field
    let bad_protocol = vec![0x82u8, 0x42, 0x09, 0x01, 0xf5];
    assert_eq!(
        binary_decode(&bad_protocol, VariantTag::AddSigner, true),
        Err(EnvelopeError::MalformedField)
    );
    // a non-minimal integer encoding
    let non_minimal = vec![0x81u8, 0x18, 0x05];
    assert_eq!(
        binary_decode(&non_minimal, VariantTag::ChangeNumApprovalsThreshold, false),
        Err(EnvelopeError::MalformedField)
    );
    // trailing bytes after the boolean field
    let trailing = vec![0x82u8, 0x42, 0x00, 0x01, 0xf5, 0x00];
    assert_eq!(
        binary_decode(&trailing, VariantTag::AddSigner, true),
        Err(EnvelopeError::MalformedField)
    );
}

#[test]
fn non_object_json_is_a_syntax_error() {
    for bad in ["[1, 2]", "", "{\"a\": }", "{\"a\": 01}", "{\"a\": -}", "true"] {
        assert!(matches!(
            json_decode_params(&chars(bad)),
            Err(DecodeParamsError::JsonSyntax)
        ));
    }
}

#[test]
fn numbers_outside_u64_match_no_schema() {
    // well-formed JSON numbers the threshold field cannot hold fail the
    // candidate, not the whole parse
    for bad in [
        r#"{"new_threshold": -1}"#,
        r#"{"new_threshold": 18446744073709551616}"#,
    ] {
        match json_decode_params(&chars(bad)) {
            Err(DecodeParamsError::NoMatchingVariant(names)) => {
                assert_eq!(names, vec![chars("new_threshold")]);
            }
            other => panic!("expected NoMatchingVariant, got {:?}", other),
        }
    }
}

#[test]
fn address_text_round_trips_both_networks() {
    for text in ["t01", "f01", "t0", "f0101"] {
        let parsed = decode_address(&chars(text));
        if let Ok(a) = parsed {
            let out = string_of(&encode_address(&a));
            let back = decode_address(&chars(&out)).expect("reparse should succeed");
            assert_eq!(back, a);
        }
    }
    let a = decode_address(&chars("t01")).expect("t01 parses");
    assert_eq!(string_of(&encode_address(&a)), "t01");
    assert!(a.testnet);
    assert_eq!(a.bytes, vec![0x00, 0x01]);
    let b = decode_address(&chars("f01")).expect("f01 parses");
    assert_eq!(string_of(&encode_address(&b)), "f01");
    assert!(!b.testnet);
}

#[test]
fn key_addresses_round_trip_through_json() {
    // a mainnet secp256k1 key address: exercises the base32 and checksum path
    let input = chars(r#"{"signer": "f15ihq5ibzwki2b4ep2f46avlkrqzhpqgtga7pdrq", "increase": true}"#);
    let p = json_decode_params(&input).expect("decode should succeed");
    match &p {
        ParamsAPI::AddSignerParamsAPI(a) => {
            assert!(!a.signer.testnet);
            assert_eq!(a.signer.bytes.len(), 21);
            assert_eq!(a.signer.bytes[0], 0x01);
            assert_eq!(
                string_of(&encode_address(&a.signer)),
                "f15ihq5ibzwki2b4ep2f46avlkrqzhpqgtga7pdrq"
            );
        }
        other => panic!("expected an add-signer variant, got {:?}", other),
    }
    assert_eq!(json_round_trip(&p).expect("round trip"), p);
    assert_eq!(binary_round_trip(&p).expect("round trip"), p);
}

#[test]
fn a_repeated_schema_field_fails_the_candidate() {
    // a duplicated required field is ambiguous: the candidate fails, and with
    // no other schema matching the whole decode reports the present names once
    let input = chars(r#"{"new_threshold": 1, "new_threshold": 2}"#);
    match json_decode_params(&input) {
        Err(DecodeParamsError::NoMatchingVariant(names)) => {
            assert_eq!(names, vec![chars("new_threshold")]);
        }
        other => panic!("expected NoMatchingVariant, got {:?}", other),
    }
    let input = chars(r#"{"signer": "t01", "signer": "t01", "increase": true}"#);
    match json_decode_params(&input) {
        Err(DecodeParamsError::NoMatchingVariant(names)) => {
            assert_eq!(names, vec![chars("signer"), chars("increase")]);
        }
        other => panic!("expected NoMatchingVariant, got {:?}", other),
    }
}

#[test]
fn a_failed_address_falls_through_to_the_next_candidate() {
    // the add-signer shape matches but its address does not parse; the
    // threshold schema is tried next and succeeds
    let input = chars(r#"{"signer": "zz", "increase": true, "new_threshold": 5}"#);
    let got = json_decode_params(&input).expect("decode should fall through");
    assert_eq!(got, threshold(5));
}

#[test]
fn string_escapes_are_understood() {
    let input = chars(r#"{"foo": "a\"b\\c\n"}"#);
    match json_decode_params(&input) {
        Err(DecodeParamsError::NoMatchingVariant(names)) => {
            assert_eq!(names, vec![chars("foo")]);
        }
        other => panic!("expected NoMatchingVariant, got {:?}", other),
    }
    // an unknown escape is a syntax error
    assert!(matches!(
        json_decode_params(&chars(r#"{"foo": "a\qb"}"#)),
        Err(DecodeParamsError::JsonSyntax)
    ));
}

#[test]
fn present_field_names_are_a_set() {
    let input = chars(r#"{"foo": 1, "bar": 2, "foo": 3}"#);
    match json_decode_params(&input) {
        Err(DecodeParamsError::NoMatchingVariant(names)) => {
            assert_eq!(names, vec![chars("foo"), chars("bar")]);
        }
        other => panic!("expected NoMatchingVariant, got {:?}", other),
    }
}

#[test]
fn extra_fields_do_not_block_a_matching_schema() {
    let input = chars(r#"{"signer": "t01", "increase": false, "other": null}"#);
    let got = json_decode_params(&input).expect("decode should succeed");
    assert_eq!(got, t01_add_signer(false));
}
