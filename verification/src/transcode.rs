//! Mapping between the JSON surface and the typed parameter variants: the
//! untagged variant resolution (an ordered trial of each variant's schema,
//! first match wins), and the JSON encoder for a concrete variant.

use vstd::prelude::*;
use crate::address::{
    AddressFormatError, decode_address, encode_address, spec_address_text, spec_decode_address,
};
use crate::json::{
    Fields, FieldsView, JTok, JVal, JsonValue, TSt, base_step, clone_chars, digit_val,
    fields_view, is_digit, is_word_char, is_ws, jval_of_tok, lemma_tok_run_append,
    lemma_tok_run_snoc, num_token, parse_json_object, parse_pairs, parse_tokens, spec_parse_json,
    spec_tokens, tok_finish, tok_run, tok_step, word_token,
};
use crate::params::{
    AddSignerParams, ChangeNumApprovalsThresholdParams, ParamsAPI, ParamsView, params_wf,
};

verus! {

/// The key of the signer field of the add-signer variant.
pub open spec fn signer_key() -> Seq<char> {
    seq!['s', 'i', 'g', 'n', 'e', 'r']
}

/// The key of the increase field of the add-signer variant.
pub open spec fn increase_key() -> Seq<char> {
    seq!['i', 'n', 'c', 'r', 'e', 'a', 's', 'e']
}

/// The key of the threshold field of the change-threshold variant.
pub open spec fn threshold_key() -> Seq<char> {
    seq!['n', 'e', 'w', '_', 't', 'h', 'r', 'e', 's', 'h', 'o', 'l', 'd']
}

/// The value bound to `name` in a parsed object; on repeated keys the last
/// occurrence wins.
pub open spec fn lookup_field(f: FieldsView, name: Seq<char>) -> Option<JVal>
    decreases f.len(),
{
    if f.len() == 0 {
        None
    } else if f.last().0 == name {
        Some(f.last().1)
    } else {
        lookup_field(f.drop_last(), name)
    }
}

/// The spec view of a list of names.
pub open spec fn names_view(ns: Seq<Vec<char>>) -> Seq<Seq<char>> {
    ns.map_values(|v: Vec<char>| v@)
}

/// How many fields of the object are named `name`.
pub open spec fn field_count(f: FieldsView, name: Seq<char>) -> nat
    decreases f.len(),
{
    if f.len() == 0 {
        0
    } else {
        field_count(f.drop_last(), name) + if f.last().0 == name {
            1nat
        } else {
            0nat
        }
    }
}

/// The value bound to `name` when the object binds it exactly once. A
/// candidate schema reads a field only through an unambiguous binding: a
/// repeated key fails the candidate, as the structural decoder of the host
/// convention rejects duplicate fields.
pub open spec fn binding(f: FieldsView, name: Seq<char>) -> Option<JVal> {
    if field_count(f, name) == 1 {
        lookup_field(f, name)
    } else {
        None
    }
}

/// The set of field names present in a parsed object: each distinct name
/// once, in order of first appearance.
pub open spec fn field_names(f: FieldsView) -> Seq<Seq<char>>
    decreases f.len(),
{
    if f.len() == 0 {
        Seq::<Seq<char>>::empty()
    } else {
        let rest = field_names(f.drop_last());
        if rest.contains(f.last().0) {
            rest
        } else {
            rest.push(f.last().0)
        }
    }
}

/// The add-signer schema matches: a string `signer` and a boolean `increase`,
/// each bound exactly once.
pub open spec fn shape_add_signer(f: FieldsView) -> bool {
    &&& binding(f, signer_key()) matches Some(JVal::Str(_))
    &&& binding(f, increase_key()) matches Some(JVal::Bool(_))
}

/// The change-threshold schema matches: an unsigned integer `new_threshold`
/// bound exactly once.
pub open spec fn shape_threshold(f: FieldsView) -> bool {
    binding(f, threshold_key()) matches Some(JVal::UInt(_))
}

/// What decoding the JSON surface yields.
pub enum DecodeOutcome {
    /// One variant's schema matched and every field interpreted.
    Resolved(ParamsView),
    /// The text is not one object of the surface grammar.
    Syntax,
    /// The add-signer shape matched but its address does not parse, and no
    /// later candidate matched either.
    BadAddress,
    /// No variant's schema matched; the names of the fields present.
    NoMatch(Seq<Seq<char>>),
}

/// Resolution once the add-signer candidate has failed: try the
/// change-threshold schema; when it fails too, report an address error if the
/// add-signer shape had matched and only its address failed to parse, else
/// report the present field names.
pub open spec fn spec_resolve_later(f: FieldsView, addr_failed: bool) -> DecodeOutcome {
    match binding(f, threshold_key()) {
        Some(JVal::UInt(n)) => DecodeOutcome::Resolved(ParamsView::Threshold { new_threshold: n }),
        _ => if addr_failed {
            DecodeOutcome::BadAddress
        } else {
            DecodeOutcome::NoMatch(field_names(f))
        },
    }
}

/// Resolution of an untagged object: try each variant's schema in declaration
/// order and take the first that succeeds — later candidates are then never
/// tried, and no ambiguity check is made. A candidate fails, and the next is
/// tried, when a required field is missing, of the wrong kind, or bound more
/// than once, and also when every field is shaped right but the signer string
/// does not parse as an address; that address error is reported only when no
/// later candidate succeeds either.
pub open spec fn spec_resolve(f: FieldsView) -> DecodeOutcome {
    match (binding(f, signer_key()), binding(f, increase_key())) {
        (Some(JVal::Str(s)), Some(JVal::Bool(inc))) => match spec_decode_address(s) {
            Some(a) => DecodeOutcome::Resolved(ParamsView::AddSigner { signer: a, increase: inc }),
            None => spec_resolve_later(f, true),
        },
        _ => spec_resolve_later(f, false),
    }
}

/// What decoding a whole JSON text yields.
pub open spec fn spec_json_decode(s: Seq<char>) -> DecodeOutcome {
    match spec_parse_json(s) {
        Some(f) => spec_resolve(f),
        None => DecodeOutcome::Syntax,
    }
}

/// First-match-wins determinism: an object on which the add-signer candidate
/// succeeds — its shape matches and its signer string parses as an address —
/// resolves to the add-signer variant, whether or not the change-threshold
/// schema would also match: later candidates are never tried after a success.
pub proof fn lemma_first_match_wins(f: FieldsView)
    requires
        shape_add_signer(f),
        binding(f, signer_key()) matches Some(JVal::Str(s)) && spec_decode_address(s) is Some,
    ensures
        spec_resolve(f) matches DecodeOutcome::Resolved(p) && p is AddSigner,
{
}

/// JSON decoding failed: the reason, mirroring [`DecodeOutcome`].
#[derive(Debug, Clone)]
pub enum DecodeParamsError {
    JsonSyntax,
    AddressFormat,
    NoMatchingVariant(Vec<Vec<char>>),
}

/// Compare two character vectors.
pub fn chars_eq(a: &Vec<char>, b: &Vec<char>) -> (r: bool)
    ensures
        r == (a@ == b@),
{
    if a.len() != b.len() {
        return false;
    }
    let mut i: usize = 0;
    while i < a.len()
        invariant
            i <= a@.len(),
            a@.len() == b@.len(),
            forall|k: int| 0 <= k < i ==> a@[k] == b@[k],
        decreases a@.len() - i,
    {
        if a[i] != b[i] {
            return false;
        }
        i = i + 1;
    }
    proof {
        assert(a@ =~= b@);
    }
    true
}

/// Find the unique binding of `name`: scan every field, counting the matches
/// and keeping the last; a name bound other than exactly once has no binding.
fn exec_binding(f: &Fields, name: &Vec<char>) -> (r: Option<usize>)
    ensures
        match r {
            Some(i) => i < f@.len() && binding(fields_view(f@), name@) == Some(
                fields_view(f@)[i as int].1,
            ) && fields_view(f@)[i as int].1 == f@[i as int].1@,
            None => binding(fields_view(f@), name@) is None,
        },
{
    let ghost fv = fields_view(f@);
    let mut count: usize = 0;
    let mut idx: usize = 0;
    let mut i: usize = 0;
    proof {
        assert(fv.take(0) =~= Seq::<(Seq<char>, JVal)>::empty());
    }
    while i < f.len()
        invariant
            i <= f@.len(),
            fv == fields_view(f@),
            count <= i,
            count == field_count(fv.take(i as int), name@),
            count > 0 ==> idx < i && lookup_field(fv.take(i as int), name@) == Some(
                fv[idx as int].1,
            ),
            count == 0 ==> lookup_field(fv.take(i as int), name@) is None,
        decreases f@.len() - i,
    {
        let hit = chars_eq(&f[i].0, name);
        proof {
            assert(fv.take(i as int + 1).last() == fv[i as int]);
            assert(fv[i as int].0 == f@[i as int].0@);
            assert(fv.take(i as int + 1).drop_last() =~= fv.take(i as int));
        }
        if hit {
            count = count + 1;
            idx = i;
        }
        i = i + 1;
    }
    proof {
        assert(fv.take(f@.len() as int) =~= fv);
    }
    if count == 1 {
        proof {
            assert(fields_view(f@)[idx as int].1 == f@[idx as int].1@);
        }
        Some(idx)
    } else {
        None
    }
}

/// Whether `name` is among the collected names.
fn contains_name(names: &Vec<Vec<char>>, name: &Vec<char>) -> (r: bool)
    ensures
        r == names_view(names@).contains(name@),
{
    let mut i: usize = 0;
    while i < names.len()
        invariant
            i <= names@.len(),
            forall|k: int| 0 <= k < i ==> names_view(names@)[k] != name@,
        decreases names@.len() - i,
    {
        let hit = chars_eq(&names[i], name);
        proof {
            assert(names_view(names@)[i as int] == names@[i as int]@);
        }
        if hit {
            proof {
                assert(names_view(names@)[i as int] == name@);
            }
            return true;
        }
        i = i + 1;
    }
    proof {
        assert(!names_view(names@).contains(name@)) by {
            if names_view(names@).contains(name@) {
                let k = choose|k: int|
                    0 <= k < names_view(names@).len() && names_view(names@)[k] == name@;
                assert(names_view(names@)[k] != name@);
            }
        }
    }
    false
}

/// Build the signer key.
fn key_signer() -> (r: Vec<char>)
    ensures
        r@ == signer_key(),
{
    let mut v: Vec<char> = Vec::new();
    v.push('s');
    v.push('i');
    v.push('g');
    v.push('n');
    v.push('e');
    v.push('r');
    proof {
        assert(v@ =~= signer_key());
    }
    v
}

/// Build the increase key.
fn key_increase() -> (r: Vec<char>)
    ensures
        r@ == increase_key(),
{
    let mut v: Vec<char> = Vec::new();
    v.push('i');
    v.push('n');
    v.push('c');
    v.push('r');
    v.push('e');
    v.push('a');
    v.push('s');
    v.push('e');
    proof {
        assert(v@ =~= increase_key());
    }
    v
}

/// Build the threshold key.
fn key_threshold() -> (r: Vec<char>)
    ensures
        r@ == threshold_key(),
{
    let mut v: Vec<char> = Vec::new();
    v.push('n');
    v.push('e');
    v.push('w');
    v.push('_');
    v.push('t');
    v.push('h');
    v.push('r');
    v.push('e');
    v.push('s');
    v.push('h');
    v.push('o');
    v.push('l');
    v.push('d');
    proof {
        assert(v@ =~= threshold_key());
    }
    v
}

/// Resolve a parsed object to the variant whose schema it matches, first
/// match wins; report the present field names when none matches.
pub fn resolve_fields(f: &Fields) -> (r: Result<ParamsAPI, DecodeParamsError>)
    ensures
        match r {
            Ok(p) => spec_resolve(fields_view(f@)) == DecodeOutcome::Resolved(p@) && p.wf(),
            Err(DecodeParamsError::AddressFormat) => spec_resolve(fields_view(f@))
                == DecodeOutcome::BadAddress,
            Err(DecodeParamsError::NoMatchingVariant(names)) => spec_resolve(fields_view(f@))
                == DecodeOutcome::NoMatch(names_view(names@)),
            Err(DecodeParamsError::JsonSyntax) => false,
        },
{
    let ghost fv = fields_view(f@);
    let ks = key_signer();
    let ki = key_increase();
    let signer_idx = exec_binding(f, &ks);
    let increase_idx = exec_binding(f, &ki);
    let addr_failed: bool = match (signer_idx, increase_idx) {
        (Some(si), Some(ii)) => {
            let signer_str: Option<&Vec<char>> = match &f[si].1 {
                JsonValue::Str(s) => Some(s),
                _ => None,
            };
            let increase_val: Option<bool> = match &f[ii].1 {
                JsonValue::Bool(b) => Some(*b),
                _ => None,
            };
            match (signer_str, increase_val) {
                (Some(s), Some(inc)) => match decode_address(s) {
                    Ok(a) => {
                        return Ok(
                            ParamsAPI::AddSignerParamsAPI(
                                AddSignerParams { signer: a, increase: inc },
                            ),
                        );
                    },
                    Err(AddressFormatError) => true,
                },
                _ => false,
            }
        },
        _ => false,
    };
    let kt = key_threshold();
    match exec_binding(f, &kt) {
        Some(ti) => {
            match &f[ti].1 {
                JsonValue::UInt(n) => {
                    return Ok(
                        ParamsAPI::ChangeNumApprovalsThresholdParamsAPI(
                            ChangeNumApprovalsThresholdParams { new_threshold: *n },
                        ),
                    );
                },
                _ => {},
            }
        },
        None => {},
    }
    if addr_failed {
        return Err(DecodeParamsError::AddressFormat);
    }
    let mut names: Vec<Vec<char>> = Vec::new();
    let mut i: usize = 0;
    proof {
        assert(fv.take(0) =~= Seq::<(Seq<char>, JVal)>::empty());
    }
    while i < f.len()
        invariant
            i <= f@.len(),
            fv == fields_view(f@),
            names_view(names@) == field_names(fv.take(i as int)),
        decreases f@.len() - i,
    {
        proof {
            assert(fv.take(i as int + 1).last() == fv[i as int]);
            assert(fv[i as int].0 == f@[i as int].0@);
            assert(fv.take(i as int + 1).drop_last() =~= fv.take(i as int));
        }
        let seen = contains_name(&names, &f[i].0);
        if !seen {
            let name = clone_chars(&f[i].0);
            let ghost namev = name@;
            let ghost oldlen = names@.len();
            names.push(name);
            proof {
                assert(names@.len() == oldlen + 1);
                assert(names@[oldlen as int]@ == namev);
                assert(names_view(names@)[oldlen as int] == namev);
                assert(names_view(names@) =~= field_names(fv.take(i as int)).push(
                    fv[i as int].0,
                ));
            }
        }
        i = i + 1;
    }
    proof {
        assert(fv.take(f@.len() as int) =~= fv);
    }
    Err(DecodeParamsError::NoMatchingVariant(names))
}

/// Decode a JSON text to the parameter variant its shape names: parse the
/// surface grammar, then resolve the untagged object, first success wins.
/// Fails with `JsonSyntax` on text outside the grammar; with
/// `AddressFormat` when the add-signer shape matched, its address did not
/// parse, and no later candidate matched; and with `NoMatchingVariant`,
/// carrying the set of present field names, when no schema matches at all.
pub fn json_decode_params(s: &Vec<char>) -> (r: Result<ParamsAPI, DecodeParamsError>)
    ensures
        match r {
            Ok(p) => spec_json_decode(s@) == DecodeOutcome::Resolved(p@) && p.wf(),
            Err(DecodeParamsError::JsonSyntax) => spec_json_decode(s@) == DecodeOutcome::Syntax,
            Err(DecodeParamsError::AddressFormat) => spec_json_decode(s@)
                == DecodeOutcome::BadAddress,
            Err(DecodeParamsError::NoMatchingVariant(names)) => spec_json_decode(s@)
                == DecodeOutcome::NoMatch(names_view(names@)),
        },
{
    match parse_json_object(s) {
        Ok(f) => resolve_fields(&f),
        Err(_) => Err(DecodeParamsError::JsonSyntax),
    }
}

/// The character of one decimal digit value.
pub open spec fn digit_char(d: u64) -> char {
    ((48 + d) as u8) as char
}

/// The decimal text of an unsigned value, most significant digit first.
pub open spec fn dec_text(n: u64) -> Seq<char>
    decreases n,
{
    if n < 10 {
        seq![digit_char(n)]
    } else {
        dec_text((n / 10) as u64).push(digit_char(n % 10))
    }
}

/// A string value in its quotes.
pub open spec fn quoted(s: Seq<char>) -> Seq<char> {
    seq!['"'].add(s).add(seq!['"'])
}

/// The text of a boolean value.
pub open spec fn bool_text(b: bool) -> Seq<char> {
    if b {
        seq!['t', 'r', 'u', 'e']
    } else {
        seq!['f', 'a', 'l', 's', 'e']
    }
}

/// The JSON text of one parameter variant: exactly that variant's field
/// layout, unwrapped and untagged, fields in declaration order.
pub open spec fn spec_json_encode(p: ParamsView) -> Seq<char> {
    match p {
        ParamsView::AddSigner { signer, increase } => seq!['{'].add(quoted(signer_key())).add(
            seq![':'],
        ).add(quoted(spec_address_text(signer))).add(seq![',']).add(quoted(increase_key())).add(
            seq![':'],
        ).add(bool_text(increase)).add(seq!['}']),
        ParamsView::Threshold { new_threshold } => seq!['{'].add(quoted(threshold_key())).add(
            seq![':'],
        ).add(dec_text(new_threshold)).add(seq!['}']),
    }
}

/// Append every character of `s`.
fn push_all(out: &mut Vec<char>, s: &Vec<char>)
    ensures
        final(out)@ == old(out)@.add(s@),
{
    let mut i: usize = 0;
    while i < s.len()
        invariant
            i <= s@.len(),
            out@ == old(out)@.add(s@.take(i as int)),
        decreases s@.len() - i,
    {
        let c = s[i];
        out.push(c);
        proof {
            assert(old(out)@.add(s@.take(i as int)).push(c) =~= old(out)@.add(
                s@.take(i as int + 1),
            ));
        }
        i = i + 1;
    }
    proof {
        assert(s@.take(s@.len() as int) =~= s@);
    }
}

/// The decimal text of an unsigned value.
fn dec_chars(n: u64) -> (r: Vec<char>)
    ensures
        r@ == dec_text(n),
    decreases n,
{
    if n < 10 {
        let d: u8 = n as u8;
        let mut v: Vec<char> = Vec::new();
        v.push((48 + d) as char);
        proof {
            assert(v@ =~= seq![digit_char(n)]);
        }
        v
    } else {
        let mut v = dec_chars(n / 10);
        let d: u8 = (n % 10) as u8;
        v.push((48 + d) as char);
        v
    }
}

/// Encode one parameter variant as JSON text: that variant's field layout
/// exactly, with the signer field as the address's canonical display string.
/// Total on well-formed values.
pub fn json_encode_params(p: &ParamsAPI) -> (r: Vec<char>)
    requires
        p.wf(),
    ensures
        r@ == spec_json_encode(p@),
        p@ matches ParamsView::AddSigner { signer, .. } ==> spec_decode_address(
            spec_address_text(signer),
        ) == Some(signer),
        p@ matches ParamsView::AddSigner { signer, .. } ==> no_quote_or_escape(
            spec_address_text(signer),
        ),
{
    let mut out: Vec<char> = Vec::new();
    match p {
        ParamsAPI::AddSignerParamsAPI(a) => {
            let atext = encode_address(&a.signer);
            proof {
                assert forall|i: int|
                    0 <= i < atext@.len() implies atext@[i] != '"' && atext@[i] != '\\' by {
                    if i >= 1 {
                        assert(crate::address::addr_char(atext@[i]));
                    }
                }
            }
            out.push('{');
            out.push('"');
            let ks = key_signer();
            push_all(&mut out, &ks);
            out.push('"');
            out.push(':');
            out.push('"');
            push_all(&mut out, &atext);
            out.push('"');
            out.push(',');
            out.push('"');
            let ki = key_increase();
            push_all(&mut out, &ki);
            out.push('"');
            out.push(':');
            if a.increase {
                out.push('t');
                out.push('r');
                out.push('u');
                out.push('e');
            } else {
                out.push('f');
                out.push('a');
                out.push('l');
                out.push('s');
                out.push('e');
            }
            out.push('}');
            proof {
                assert(out@ =~= spec_json_encode(p@));
            }
        },
        ParamsAPI::ChangeNumApprovalsThresholdParamsAPI(t) => {
            out.push('{');
            out.push('"');
            let kt = key_threshold();
            push_all(&mut out, &kt);
            out.push('"');
            out.push(':');
            let dt = dec_chars(t.new_threshold);
            push_all(&mut out, &dt);
            out.push('}');
            proof {
                assert(out@ =~= spec_json_encode(p@));
            }
        },
    }
    out
}

/// No character of `s` ends a JSON string or starts an escape.
pub open spec fn no_quote_or_escape(s: Seq<char>) -> bool {
    forall|i: int| 0 <= i < s.len() ==> s[i] != '"' && s[i] != '\\'
}

/// Inside a string, clean characters only accumulate.
proof fn lemma_run_str(acc: Seq<char>, s: Seq<char>)
    requires
        no_quote_or_escape(s),
    ensures
        tok_run(TSt::InStr(acc), s) == Some((TSt::InStr(acc.add(s)), Seq::<JTok>::empty())),
    decreases s.len(),
{
    if s.len() == 0 {
        assert(acc.add(s) =~= acc);
    } else {
        let c = s[0];
        assert(c != '"' && c != '\\');
        assert(no_quote_or_escape(s.skip(1))) by {
            assert(forall|i: int| 0 <= i < s.skip(1).len() ==> s.skip(1)[i] == s[i + 1]);
        }
        lemma_run_str(acc.push(c), s.skip(1));
        assert(acc.push(c).add(s.skip(1)) =~= acc.add(s));
        assert(Seq::<JTok>::empty().add(Seq::<JTok>::empty()) =~= Seq::<JTok>::empty());
    }
}

/// A quoted clean string lexes to one string token.
proof fn lemma_run_quoted(s: Seq<char>)
    requires
        no_quote_or_escape(s),
    ensures
        tok_run(TSt::Base, quoted(s)) == Some((TSt::Base, seq![JTok::StrTok(s)])),
{
    let open = seq!['"'];
    let mid = open.add(s);
    assert(quoted(s) =~= mid.push('"'));
    assert(open[0] == '"');
    assert(open.skip(1) =~= Seq::<char>::empty());
    let st_in = TSt::InStr(Seq::<char>::empty());
    assert(tok_run(TSt::Base, open) == Some((st_in, Seq::<JTok>::empty()))) by {
        assert(tok_run(st_in, open.skip(1)) == Some((st_in, Seq::<JTok>::empty())));
        assert(Seq::<JTok>::empty().add(Seq::<JTok>::empty()) =~= Seq::<JTok>::empty());
    }
    lemma_tok_run_append(TSt::Base, open, s);
    lemma_run_str(Seq::<char>::empty(), s);
    assert(Seq::<char>::empty().add(s) =~= s);
    assert(Seq::<JTok>::empty().add(Seq::<JTok>::empty()) =~= Seq::<JTok>::empty());
    assert(tok_run(TSt::Base, mid) == Some((TSt::InStr(s), Seq::<JTok>::empty())));
    lemma_tok_run_snoc(TSt::Base, mid, '"');
    assert(tok_step(TSt::InStr(s), '"') == Some((TSt::Base, seq![JTok::StrTok(s)])));
    assert(Seq::<JTok>::empty().add(seq![JTok::StrTok(s)]) =~= seq![JTok::StrTok(s)]);
}

/// Decimal text lexes to a pending number run holding exactly its value.
proof fn lemma_run_dec(n: u64)
    ensures
        tok_run(TSt::Base, dec_text(n)) == Some(
            (
                TSt::InNum { val: n, ok: true, lz: n == 0, multi: n >= 10, neg: false, any: true },
                Seq::<JTok>::empty(),
            ),
        ),
    decreases n,
{
    if n < 10 {
        let c = digit_char(n);
        assert('0' <= c && c <= '9');
        assert(digit_val(c) == n);
        assert((c == '0') == (n == 0));
        assert(base_step(c) == Some(
            (
                TSt::InNum { val: n, ok: true, lz: n == 0, multi: false, neg: false, any: true },
                Seq::<JTok>::empty(),
            ),
        ));
        assert(dec_text(n) == seq![c]);
        assert(seq![c][0] == c);
        assert(seq![c].skip(1) =~= Seq::<char>::empty());
        let st1 = TSt::InNum { val: n, ok: true, lz: n == 0, multi: false, neg: false, any: true };
        assert(tok_run(st1, seq![c].skip(1)) == Some((st1, Seq::<JTok>::empty())));
        assert(Seq::<JTok>::empty().add(Seq::<JTok>::empty()) =~= Seq::<JTok>::empty());
        assert(tok_run(TSt::Base, dec_text(n)) == Some((st1, Seq::<JTok>::empty())));
    } else {
        let m = (n / 10) as u64;
        let d = n % 10;
        let c = digit_char(d);
        lemma_run_dec(m);
        assert(dec_text(n) == dec_text(m).push(c));
        lemma_tok_run_snoc(TSt::Base, dec_text(m), c);
        assert('0' <= c && c <= '9');
        assert(digit_val(c) == d);
        assert((m as int) * 10 + d == n);
        assert(m >= 1);
        let st1 = TSt::InNum { val: m, ok: true, lz: false, multi: m >= 10, neg: false, any: true };
        assert(tok_step(st1, c) == Some(
            (
                TSt::InNum { val: n, ok: true, lz: false, multi: true, neg: false, any: true },
                Seq::<JTok>::empty(),
            ),
        ));
        assert(Seq::<JTok>::empty().add(Seq::<JTok>::empty()) =~= Seq::<JTok>::empty());
    }
}

/// All characters of `s` are word characters.
pub open spec fn all_word_chars(s: Seq<char>) -> bool {
    forall|i: int| 0 <= i < s.len() ==> is_word_char(s[i])
}

/// Inside a word run, word characters only accumulate.
proof fn lemma_run_word_chars(acc: Seq<char>, s: Seq<char>)
    requires
        all_word_chars(s),
    ensures
        tok_run(TSt::InWord(acc), s) == Some((TSt::InWord(acc.add(s)), Seq::<JTok>::empty())),
    decreases s.len(),
{
    if s.len() == 0 {
        assert(acc.add(s) =~= acc);
    } else {
        let c = s[0];
        assert(is_word_char(c));
        assert(all_word_chars(s.skip(1))) by {
            assert(forall|i: int| 0 <= i < s.skip(1).len() ==> s.skip(1)[i] == s[i + 1]);
        }
        lemma_run_word_chars(acc.push(c), s.skip(1));
        assert(acc.push(c).add(s.skip(1)) =~= acc.add(s));
        assert(Seq::<JTok>::empty().add(Seq::<JTok>::empty()) =~= Seq::<JTok>::empty());
    }
}

/// A word lexes to a pending word run holding exactly its characters.
proof fn lemma_run_word(w: Seq<char>)
    requires
        w.len() >= 1,
        all_word_chars(w),
    ensures
        tok_run(TSt::Base, w) == Some((TSt::InWord(w), Seq::<JTok>::empty())),
{
    let c = w[0];
    assert(is_word_char(c));
    assert(!is_ws(c) && c != '{' && c != '}' && c != ':' && c != ',' && c != '"' && !is_digit(c));
    assert(base_step(c) == Some((TSt::InWord(seq![c]), Seq::<JTok>::empty())));
    assert(all_word_chars(w.skip(1))) by {
        assert(forall|i: int| 0 <= i < w.skip(1).len() ==> w.skip(1)[i] == w[i + 1]);
    }
    lemma_run_word_chars(seq![c], w.skip(1));
    assert(seq![c].add(w.skip(1)) =~= w);
    assert(Seq::<JTok>::empty().add(Seq::<JTok>::empty()) =~= Seq::<JTok>::empty());
}

/// A single punctuation character lexes to its token from the base state.
proof fn lemma_run_punct(c: char, t: JTok)
    requires
        base_step(c) == Some((TSt::Base, seq![t])),
    ensures
        tok_run(TSt::Base, seq![c]) == Some((TSt::Base, seq![t])),
{
    assert(seq![c][0] == c);
    assert(seq![c].skip(1) =~= Seq::<char>::empty());
    assert(tok_run(TSt::Base, seq![c].skip(1)) == Some((TSt::Base, Seq::<JTok>::empty())));
    assert(seq![t].add(Seq::<JTok>::empty()) =~= seq![t]);
}

/// Tokens and parse of the add-signer encoding.
#[verifier::rlimit(50)]
proof fn lemma_decode_of_encoding_add(signer: crate::address::AddrView, increase: bool)
    requires
        no_quote_or_escape(spec_address_text(signer)),
    ensures
        spec_parse_json(spec_json_encode(ParamsView::AddSigner { signer, increase })) == Some(
            seq![
                (signer_key(), JVal::Str(spec_address_text(signer))),
                (increase_key(), JVal::Bool(increase)),
            ],
        ),
{
    let p = ParamsView::AddSigner { signer, increase };
    let text = spec_json_encode(p);
    let sk = signer_key();
    let ik = increase_key();
    assert(no_quote_or_escape(sk));
    assert(no_quote_or_escape(ik));
    let atext = spec_address_text(signer);
    let bt = bool_text(increase);
    let open = seq!['{'];
    let s1 = open.add(quoted(sk));
    let s2 = s1.add(seq![':']);
    let s3 = s2.add(quoted(atext));
    let s4 = s3.add(seq![',']);
    let s5 = s4.add(quoted(ik));
    let s6 = s5.add(seq![':']);
    let closing = bt.push('}');
    assert(text =~= s6.add(closing));
    assert(base_step('{') == Some((TSt::Base, seq![JTok::LBrace])));
    lemma_run_punct('{', JTok::LBrace);
    assert(open == seq!['{']);
    lemma_run_punct(':', JTok::Colon);
    lemma_run_punct(',', JTok::Comma);
    // the closing word and brace
    assert(bt.len() >= 1);
    assert(all_word_chars(bt)) by {
        if increase {
            assert(is_word_char(bt[0]) && is_word_char(bt[1]) && is_word_char(bt[2])
                && is_word_char(bt[3]));
        } else {
            assert(is_word_char(bt[0]) && is_word_char(bt[1]) && is_word_char(bt[2])
                && is_word_char(bt[3]) && is_word_char(bt[4]));
        }
    }
    lemma_run_word(bt);
    lemma_tok_run_snoc(TSt::Base, bt, '}');
    let booltok = if increase {
        JTok::TrueTok
    } else {
        JTok::FalseTok
    };
    assert(word_token(bt) == Some(booltok));
    assert(tok_step(TSt::InWord(bt), '}') == Some(
        (TSt::Base, seq![booltok].add(seq![JTok::RBrace])),
    ));
    assert(tok_run(TSt::Base, closing) == Some((TSt::Base, seq![booltok, JTok::RBrace]))) by {
        assert(Seq::<JTok>::empty().add(seq![booltok].add(seq![JTok::RBrace])) =~= seq![
            booltok,
            JTok::RBrace,
        ]);
    }
    // assemble the run over the whole text
    lemma_run_quoted(sk);
    lemma_run_quoted(atext);
    lemma_run_quoted(ik);
    lemma_tok_run_append(TSt::Base, open, quoted(sk));
    lemma_tok_run_append(TSt::Base, s1, seq![':']);
    lemma_tok_run_append(TSt::Base, s2, quoted(atext));
    lemma_tok_run_append(TSt::Base, s3, seq![',']);
    lemma_tok_run_append(TSt::Base, s4, quoted(ik));
    lemma_tok_run_append(TSt::Base, s5, seq![':']);
    lemma_tok_run_append(TSt::Base, s6, closing);
    let ts = seq![
        JTok::LBrace,
        JTok::StrTok(sk),
        JTok::Colon,
        JTok::StrTok(atext),
        JTok::Comma,
        JTok::StrTok(ik),
        JTok::Colon,
        booltok,
        JTok::RBrace,
    ];
    assert(tok_run(TSt::Base, text) matches Some((st, ts2)) && st == TSt::Base && ts2 =~= ts);
    assert(spec_tokens(text) == Some(ts)) by {
        assert(tok_finish(TSt::Base) == Some(Seq::<JTok>::empty()));
        assert(ts.add(Seq::<JTok>::empty()) =~= ts);
    }
    // parse the token list
    assert(jval_of_tok(ts[7]) == Some(JVal::Bool(increase)));
    assert(parse_pairs(ts, 5) == Some(seq![(ik, JVal::Bool(increase))]));
    assert(parse_pairs(ts, 1) == Some(
        seq![(sk, JVal::Str(atext))].add(seq![(ik, JVal::Bool(increase))]),
    ));
    let fields = seq![(sk, JVal::Str(atext)), (ik, JVal::Bool(increase))];
    assert(seq![(sk, JVal::Str(atext))].add(seq![(ik, JVal::Bool(increase))]) =~= fields);
    assert(parse_tokens(ts) == Some(fields));
}

/// Tokens and parse of the change-threshold encoding.
#[verifier::rlimit(50)]
proof fn lemma_decode_of_encoding_thr(n: u64)
    ensures
        spec_parse_json(spec_json_encode(ParamsView::Threshold { new_threshold: n })) == Some(
            seq![(threshold_key(), JVal::UInt(n))],
        ),
{
    let p = ParamsView::Threshold { new_threshold: n };
    let text = spec_json_encode(p);
    let tk = threshold_key();
    assert(no_quote_or_escape(tk));
    let open = seq!['{'];
    let s1 = open.add(quoted(tk));
    let s2 = s1.add(seq![':']);
    let closing = dec_text(n).push('}');
    assert(text =~= s2.add(closing));
    lemma_run_punct('{', JTok::LBrace);
    lemma_run_punct(':', JTok::Colon);
    lemma_run_dec(n);
    lemma_tok_run_snoc(TSt::Base, dec_text(n), '}');
    let stn = TSt::InNum { val: n, ok: true, lz: n == 0, multi: n >= 10, neg: false, any: true };
    assert(num_token(n, true, n == 0, n >= 10, false, true) == Some(JTok::UIntTok(n)));
    assert(tok_step(stn, '}') == Some(
        (TSt::Base, seq![JTok::UIntTok(n)].add(seq![JTok::RBrace])),
    ));
    assert(tok_run(TSt::Base, closing) == Some(
        (TSt::Base, seq![JTok::UIntTok(n), JTok::RBrace]),
    )) by {
        assert(Seq::<JTok>::empty().add(seq![JTok::UIntTok(n)].add(seq![JTok::RBrace])) =~= seq![
            JTok::UIntTok(n),
            JTok::RBrace,
        ]);
    }
    lemma_run_quoted(tk);
    lemma_tok_run_append(TSt::Base, open, quoted(tk));
    lemma_tok_run_append(TSt::Base, s1, seq![':']);
    lemma_tok_run_append(TSt::Base, s2, closing);
    let ts = seq![JTok::LBrace, JTok::StrTok(tk), JTok::Colon, JTok::UIntTok(n), JTok::RBrace];
    assert(tok_run(TSt::Base, text) matches Some((st, ts2)) && st == TSt::Base && ts2 =~= ts);
    assert(spec_tokens(text) == Some(ts)) by {
        assert(tok_finish(TSt::Base) == Some(Seq::<JTok>::empty()));
        assert(ts.add(Seq::<JTok>::empty()) =~= ts);
    }
    assert(jval_of_tok(ts[3]) == Some(JVal::UInt(n)));
    assert(parse_pairs(ts, 1) == Some(seq![(tk, JVal::UInt(n))]));
    assert(parse_tokens(ts) == Some(seq![(tk, JVal::UInt(n))]));
}

/// Round trip, JSON, at the level of text: parsing and resolving the JSON
/// encoding of any well-formed variant value yields exactly that value, given
/// that the address codec inverts on the embedded display string (which the
/// codec's contract supplies at every call).
pub proof fn lemma_decode_of_encoding(p: ParamsView)
    requires
        params_wf(p),
        p matches ParamsView::AddSigner { signer, .. } ==> spec_decode_address(
            spec_address_text(signer),
        ) == Some(signer) && no_quote_or_escape(spec_address_text(signer)),
    ensures
        spec_json_decode(spec_json_encode(p)) == DecodeOutcome::Resolved(p),
{
    let sk = signer_key();
    let ik = increase_key();
    let tk = threshold_key();
    match p {
        ParamsView::AddSigner { signer, increase } => {
            lemma_decode_of_encoding_add(signer, increase);
            let atext = spec_address_text(signer);
            let fields = seq![(sk, JVal::Str(atext)), (ik, JVal::Bool(increase))];
            assert(ik != sk) by {
                assert(ik.len() != sk.len());
            }
            assert(fields.last() == (ik, JVal::Bool(increase)));
            let f1 = seq![(sk, JVal::Str(atext))];
            assert(fields.drop_last() =~= f1);
            assert(f1.drop_last() =~= Seq::<(Seq<char>, JVal)>::empty());
            assert(f1.last() == (sk, JVal::Str(atext)));
            assert(lookup_field(f1, sk) == Some(JVal::Str(atext)));
            assert(fields.last().0 == ik);
            assert(lookup_field(fields, sk) == Some(JVal::Str(atext)));
            assert(lookup_field(fields, ik) == Some(JVal::Bool(increase)));
            assert(field_count(Seq::<(Seq<char>, JVal)>::empty(), sk) == 0);
            assert(field_count(f1, sk) == 1);
            assert(field_count(fields, sk) == 1);
            assert(field_count(Seq::<(Seq<char>, JVal)>::empty(), ik) == 0);
            assert(field_count(f1, ik) == 0);
            assert(field_count(fields, ik) == 1);
            assert(binding(fields, sk) == Some(JVal::Str(atext)));
            assert(binding(fields, ik) == Some(JVal::Bool(increase)));
            assert(spec_resolve(fields) == DecodeOutcome::Resolved(p));
        },
        ParamsView::Threshold { new_threshold } => {
            let n = new_threshold;
            lemma_decode_of_encoding_thr(n);
            let fields = seq![(tk, JVal::UInt(n))];
            assert(tk != sk) by {
                assert(tk.len() != sk.len());
            }
            assert(tk != ik) by {
                assert(tk.len() != ik.len());
            }
            assert(fields.last() == (tk, JVal::UInt(n)));
            assert(fields.drop_last() =~= Seq::<(Seq<char>, JVal)>::empty());
            assert(field_count(Seq::<(Seq<char>, JVal)>::empty(), sk) == 0);
            assert(field_count(fields, sk) == 0);
            assert(binding(fields, sk) is None);
            assert(field_count(Seq::<(Seq<char>, JVal)>::empty(), tk) == 0);
            assert(field_count(fields, tk) == 1);
            assert(lookup_field(fields, tk) == Some(JVal::UInt(n)));
            assert(binding(fields, tk) == Some(JVal::UInt(n)));
            assert(spec_resolve_later(fields, false) == DecodeOutcome::Resolved(p));
            assert(spec_resolve(fields) == DecodeOutcome::Resolved(p));
        },
    }
}

/// Round trip, JSON: decoding the JSON encoding of a well-formed variant
/// value always succeeds and yields an equal value.
pub fn json_round_trip(p: &ParamsAPI) -> (r: Result<ParamsAPI, DecodeParamsError>)
    requires
        p.wf(),
    ensures
        r matches Ok(q) && q@ == p@ && q.wf(),
{
    let text = json_encode_params(p);
    proof {
        lemma_decode_of_encoding(p@);
    }
    json_decode_params(&text)
}

} // verus!
