//! The JSON surface of the parameter format: a flat object of string keys
//! whose values are strings (with the eight two-character escapes), booleans,
//! integers or null. That closed grammar is this library's own external
//! format, so both directions are defined here, over characters, with a
//! specification-level twin for each executable step.

use vstd::prelude::*;

verus! {

/// Spec model of one JSON value of the parameter surface.
pub enum JVal {
    Null,
    Bool(bool),
    UInt(u64),
    /// A well-formed JSON number outside the unsigned 64-bit range: negative,
    /// or too large. It matches no schema, but its field is present.
    BadNum,
    Str(Seq<char>),
}

/// One JSON value of the parameter surface.
#[derive(Debug, Clone)]
pub enum JsonValue {
    Null,
    Bool(bool),
    UInt(u64),
    /// A well-formed JSON number outside the unsigned 64-bit range.
    BadNum,
    Str(Vec<char>),
}

impl View for JsonValue {
    type V = JVal;

    open spec fn view(&self) -> JVal {
        match self {
            JsonValue::Null => JVal::Null,
            JsonValue::Bool(b) => JVal::Bool(*b),
            JsonValue::UInt(n) => JVal::UInt(*n),
            JsonValue::BadNum => JVal::BadNum,
            JsonValue::Str(s) => JVal::Str(s@),
        }
    }
}

/// The spec view of a parsed object: its fields in source order.
pub type FieldsView = Seq<(Seq<char>, JVal)>;

/// The fields of a parsed object, in source order.
pub type Fields = Vec<(Vec<char>, JsonValue)>;

/// The spec view of a concrete field list.
pub open spec fn fields_view(f: Seq<(Vec<char>, JsonValue)>) -> FieldsView {
    f.map_values(|p: (Vec<char>, JsonValue)| (p.0@, p.1@))
}

/// Spec model of one token of the surface grammar.
pub enum JTok {
    LBrace,
    RBrace,
    Colon,
    Comma,
    StrTok(Seq<char>),
    UIntTok(u64),
    BadNumTok,
    TrueTok,
    FalseTok,
    NullTok,
}

/// One token of the surface grammar.
#[derive(Debug)]
pub enum TokE {
    LBrace,
    RBrace,
    Colon,
    Comma,
    StrTok(Vec<char>),
    UIntTok(u64),
    BadNumTok,
    TrueTok,
    FalseTok,
    NullTok,
}

impl View for TokE {
    type V = JTok;

    open spec fn view(&self) -> JTok {
        match self {
            TokE::LBrace => JTok::LBrace,
            TokE::RBrace => JTok::RBrace,
            TokE::Colon => JTok::Colon,
            TokE::Comma => JTok::Comma,
            TokE::StrTok(s) => JTok::StrTok(s@),
            TokE::UIntTok(n) => JTok::UIntTok(*n),
            TokE::BadNumTok => JTok::BadNumTok,
            TokE::TrueTok => JTok::TrueTok,
            TokE::FalseTok => JTok::FalseTok,
            TokE::NullTok => JTok::NullTok,
        }
    }
}

/// The spec view of a concrete token list.
pub open spec fn toks_view(ts: Seq<TokE>) -> Seq<JTok> {
    ts.map_values(|t: TokE| t@)
}

/// Spec model of the tokenizer state between two characters.
pub enum TSt {
    Base,
    InStr(Seq<char>),
    InStrEsc(Seq<char>),
    InNum { val: u64, ok: bool, lz: bool, multi: bool, neg: bool, any: bool },
    InWord(Seq<char>),
}

/// The character a two-character escape sequence denotes, if the second
/// character is one of the eight escapable ones.
pub open spec fn unescape(c: char) -> Option<char> {
    if c == '"' {
        Some('"')
    } else if c == '\\' {
        Some('\\')
    } else if c == '/' {
        Some('/')
    } else if c == 'b' {
        Some('\u{8}')
    } else if c == 'f' {
        Some('\u{c}')
    } else if c == 'n' {
        Some('\n')
    } else if c == 'r' {
        Some('\r')
    } else if c == 't' {
        Some('\t')
    } else {
        None
    }
}

/// JSON insignificant whitespace.
pub open spec fn is_ws(c: char) -> bool {
    c == ' ' || c == '\n' || c == '\t' || c == '\r'
}

/// An ASCII decimal digit.
pub open spec fn is_digit(c: char) -> bool {
    '0' <= c && c <= '9'
}

/// The value of an ASCII decimal digit.
pub open spec fn digit_val(c: char) -> u64 {
    (c as u64 - '0' as u64) as u64
}

/// A lowercase ASCII letter, the alphabet of the word literals.
pub open spec fn is_word_char(c: char) -> bool {
    'a' <= c && c <= 'z'
}

/// The token a finished number run denotes. A run without a digit, or with a
/// redundant leading zero, is not a number at all; a negative or overflowing
/// run is a well-formed number outside the unsigned 64-bit range.
pub open spec fn num_token(val: u64, ok: bool, lz: bool, multi: bool, neg: bool, any: bool) -> Option<JTok> {
    if !any || (lz && multi) {
        None
    } else if neg || !ok {
        Some(JTok::BadNumTok)
    } else {
        Some(JTok::UIntTok(val))
    }
}

/// The token a finished word run denotes, if it is one of the three literals.
pub open spec fn word_token(w: Seq<char>) -> Option<JTok> {
    if w == seq!['t', 'r', 'u', 'e'] {
        Some(JTok::TrueTok)
    } else if w == seq!['f', 'a', 'l', 's', 'e'] {
        Some(JTok::FalseTok)
    } else if w == seq!['n', 'u', 'l', 'l'] {
        Some(JTok::NullTok)
    } else {
        None
    }
}

/// One character seen from the base state: emit a punctuation token, open a
/// string, start a number or word run, or skip whitespace.
pub open spec fn base_step(c: char) -> Option<(TSt, Seq<JTok>)> {
    if is_ws(c) {
        Some((TSt::Base, Seq::<JTok>::empty()))
    } else if c == '{' {
        Some((TSt::Base, seq![JTok::LBrace]))
    } else if c == '}' {
        Some((TSt::Base, seq![JTok::RBrace]))
    } else if c == ':' {
        Some((TSt::Base, seq![JTok::Colon]))
    } else if c == ',' {
        Some((TSt::Base, seq![JTok::Comma]))
    } else if c == '"' {
        Some((TSt::InStr(Seq::<char>::empty()), Seq::<JTok>::empty()))
    } else if is_digit(c) {
        Some(
            (
                TSt::InNum {
                    val: digit_val(c),
                    ok: true,
                    lz: c == '0',
                    multi: false,
                    neg: false,
                    any: true,
                },
                Seq::<JTok>::empty(),
            ),
        )
    } else if c == '-' {
        Some(
            (
                TSt::InNum { val: 0, ok: true, lz: false, multi: false, neg: true, any: false },
                Seq::<JTok>::empty(),
            ),
        )
    } else if is_word_char(c) {
        Some((TSt::InWord(seq![c]), Seq::<JTok>::empty()))
    } else {
        None
    }
}

/// One step of the tokenizer: the next state and the tokens the character
/// completes. `None` rejects the text.
pub open spec fn tok_step(st: TSt, c: char) -> Option<(TSt, Seq<JTok>)> {
    match st {
        TSt::Base => base_step(c),
        TSt::InStr(a) => if c == '"' {
            Some((TSt::Base, seq![JTok::StrTok(a)]))
        } else if c == '\\' {
            Some((TSt::InStrEsc(a), Seq::<JTok>::empty()))
        } else {
            Some((TSt::InStr(a.push(c)), Seq::<JTok>::empty()))
        },
        TSt::InStrEsc(a) => match unescape(c) {
            Some(u) => Some((TSt::InStr(a.push(u)), Seq::<JTok>::empty())),
            None => None,
        },
        TSt::InNum { val, ok, lz, multi, neg, any } => if is_digit(c) {
            let ok2 = ok && (val as int) * 10 + digit_val(c) <= u64::MAX;
            let val2: u64 = if ok2 {
                ((val as int) * 10 + digit_val(c)) as u64
            } else {
                0
            };
            Some(
                (
                    TSt::InNum {
                        val: val2,
                        ok: ok2,
                        lz: if any {
                            lz
                        } else {
                            c == '0'
                        },
                        multi: any,
                        neg,
                        any: true,
                    },
                    Seq::<JTok>::empty(),
                ),
            )
        } else {
            match num_token(val, ok, lz, multi, neg, any) {
                Some(t) => match base_step(c) {
                    Some((st2, ts)) => Some((st2, seq![t].add(ts))),
                    None => None,
                },
                None => None,
            }
        },
        TSt::InWord(w) => if is_word_char(c) {
            Some((TSt::InWord(w.push(c)), Seq::<JTok>::empty()))
        } else {
            match word_token(w) {
                Some(t) => match base_step(c) {
                    Some((st2, ts)) => Some((st2, seq![t].add(ts))),
                    None => None,
                },
                None => None,
            }
        },
    }
}

/// Run the tokenizer over `s` from state `st`: the final state and every
/// token emitted on the way.
pub open spec fn tok_run(st: TSt, s: Seq<char>) -> Option<(TSt, Seq<JTok>)>
    decreases s.len(),
{
    if s.len() == 0 {
        Some((st, Seq::<JTok>::empty()))
    } else {
        match tok_step(st, s[0]) {
            Some((st1, ts1)) => match tok_run(st1, s.skip(1)) {
                Some((st2, ts2)) => Some((st2, ts1.add(ts2))),
                None => None,
            },
            None => None,
        }
    }
}

/// The tokens emitted at end of text by the final state: a pending number or
/// word run is closed, an open string rejects the text.
pub open spec fn tok_finish(st: TSt) -> Option<Seq<JTok>> {
    match st {
        TSt::Base => Some(Seq::<JTok>::empty()),
        TSt::InStr(_) => None,
        TSt::InStrEsc(_) => None,
        TSt::InNum { val, ok, lz, multi, neg, any } => match num_token(
            val,
            ok,
            lz,
            multi,
            neg,
            any,
        ) {
            Some(t) => Some(seq![t]),
            None => None,
        },
        TSt::InWord(w) => match word_token(w) {
            Some(t) => Some(seq![t]),
            None => None,
        },
    }
}

/// The token list of a whole text, or `None` when the text is not in the
/// surface grammar's lexical form.
pub open spec fn spec_tokens(s: Seq<char>) -> Option<Seq<JTok>> {
    match tok_run(TSt::Base, s) {
        Some((st, ts)) => match tok_finish(st) {
            Some(te) => Some(ts.add(te)),
            None => None,
        },
        None => None,
    }
}

/// Running over `a.add(b)` runs over `a`, then over `b` from where `a` left
/// off.
pub proof fn lemma_tok_run_append(st: TSt, a: Seq<char>, b: Seq<char>)
    ensures
        tok_run(st, a.add(b)) == match tok_run(st, a) {
            Some((st1, ts1)) => match tok_run(st1, b) {
                Some((st2, ts2)) => Some((st2, ts1.add(ts2))),
                None => None,
            },
            None => None,
        },
    decreases a.len(),
{
    if a.len() == 0 {
        assert(a.add(b) =~= b);
        match tok_run(st, b) {
            Some((st2, ts2)) => {
                assert(Seq::<JTok>::empty().add(ts2) =~= ts2);
            },
            None => {},
        }
    } else {
        assert(a.add(b)[0] == a[0]);
        assert(a.add(b).skip(1) =~= a.skip(1).add(b));
        match tok_step(st, a[0]) {
            Some((st1, ts1)) => {
                lemma_tok_run_append(st1, a.skip(1), b);
                match tok_run(st1, a.skip(1)) {
                    Some((stm, tsm)) => {
                        match tok_run(stm, b) {
                            Some((st2, ts2)) => {
                                assert(ts1.add(tsm).add(ts2) =~= ts1.add(tsm.add(ts2)));
                            },
                            None => {},
                        }
                    },
                    None => {},
                }
            },
            None => {},
        }
    }
}

/// Extending the text by one character extends the run by one step.
pub proof fn lemma_tok_run_snoc(st: TSt, a: Seq<char>, c: char)
    ensures
        tok_run(st, a.push(c)) == match tok_run(st, a) {
            Some((st1, ts1)) => match tok_step(st1, c) {
                Some((st2, ts2)) => Some((st2, ts1.add(ts2))),
                None => None,
            },
            None => None,
        },
{
    assert(a.push(c) =~= a.add(seq![c]));
    lemma_tok_run_append(st, a, seq![c]);
    match tok_run(st, a) {
        Some((st1, ts1)) => {
            assert(seq![c].len() == 1);
            assert(seq![c][0] == c);
            assert(seq![c].skip(1) =~= Seq::<char>::empty());
            match tok_step(st1, c) {
                Some((st2, ts2)) => {
                    assert(tok_run(st2, seq![c].skip(1)) == Some(
                        (st2, Seq::<JTok>::empty()),
                    ));
                    assert(tok_run(st1, seq![c]) == Some((st2, ts2.add(Seq::<JTok>::empty()))));
                    assert(ts2.add(Seq::<JTok>::empty()) =~= ts2);
                },
                None => {},
            }
        },
        None => {},
    }
}

/// Appending one token commutes with taking views.
proof fn lemma_toks_view_push(ts: Seq<TokE>, t: TokE)
    ensures
        toks_view(ts.push(t)) == toks_view(ts).push(t@),
{
    assert(toks_view(ts.push(t)) =~= toks_view(ts).push(t@));
}

/// The tokenizer state between two characters.
#[derive(Debug)]
pub enum TokSt {
    Base,
    InStr(Vec<char>),
    InStrEsc(Vec<char>),
    InNum { val: u64, ok: bool, lz: bool, multi: bool, neg: bool, any: bool },
    InWord(Vec<char>),
}

impl View for TokSt {
    type V = TSt;

    open spec fn view(&self) -> TSt {
        match self {
            TokSt::Base => TSt::Base,
            TokSt::InStr(a) => TSt::InStr(a@),
            TokSt::InStrEsc(a) => TSt::InStrEsc(a@),
            TokSt::InNum { val, ok, lz, multi, neg, any } => TSt::InNum {
                val: *val,
                ok: *ok,
                lz: *lz,
                multi: *multi,
                neg: *neg,
                any: *any,
            },
            TokSt::InWord(w) => TSt::InWord(w@),
        }
    }
}

/// One character seen from the base state.
fn exec_base(c: char, out: &mut Vec<TokE>) -> (r: Option<TokSt>)
    ensures
        match (r, base_step(c)) {
            (Some(r2), Some((st2, ts))) => r2@ == st2 && toks_view(final(out)@) == toks_view(
                old(out)@,
            ).add(ts),
            (None, None) => final(out)@ == old(out)@,
            _ => false,
        },
{
    if c == ' ' || c == '\n' || c == '\t' || c == '\r' {
        proof {
            assert(toks_view(out@).add(Seq::<JTok>::empty()) =~= toks_view(out@));
        }
        Some(TokSt::Base)
    } else if c == '{' {
        out.push(TokE::LBrace);
        proof {
            lemma_toks_view_push(old(out)@, TokE::LBrace);
            assert(toks_view(old(out)@).push(JTok::LBrace) =~= toks_view(old(out)@).add(
                seq![JTok::LBrace],
            ));
        }
        Some(TokSt::Base)
    } else if c == '}' {
        out.push(TokE::RBrace);
        proof {
            lemma_toks_view_push(old(out)@, TokE::RBrace);
            assert(toks_view(old(out)@).push(JTok::RBrace) =~= toks_view(old(out)@).add(
                seq![JTok::RBrace],
            ));
        }
        Some(TokSt::Base)
    } else if c == ':' {
        out.push(TokE::Colon);
        proof {
            lemma_toks_view_push(old(out)@, TokE::Colon);
            assert(toks_view(old(out)@).push(JTok::Colon) =~= toks_view(old(out)@).add(
                seq![JTok::Colon],
            ));
        }
        Some(TokSt::Base)
    } else if c == ',' {
        out.push(TokE::Comma);
        proof {
            lemma_toks_view_push(old(out)@, TokE::Comma);
            assert(toks_view(old(out)@).push(JTok::Comma) =~= toks_view(old(out)@).add(
                seq![JTok::Comma],
            ));
        }
        Some(TokSt::Base)
    } else if c == '"' {
        let acc: Vec<char> = Vec::new();
        proof {
            assert(toks_view(out@).add(Seq::<JTok>::empty()) =~= toks_view(out@));
            assert(acc@ =~= Seq::<char>::empty());
        }
        Some(TokSt::InStr(acc))
    } else if '0' <= c && c <= '9' {
        let d: u64 = (c as u32 as u64) - 48;
        proof {
            assert(d == digit_val(c));
            assert(toks_view(out@).add(Seq::<JTok>::empty()) =~= toks_view(out@));
        }
        Some(TokSt::InNum { val: d, ok: true, lz: c == '0', multi: false, neg: false, any: true })
    } else if c == '-' {
        proof {
            assert(toks_view(out@).add(Seq::<JTok>::empty()) =~= toks_view(out@));
        }
        Some(TokSt::InNum { val: 0, ok: true, lz: false, multi: false, neg: true, any: false })
    } else if 'a' <= c && c <= 'z' {
        let mut w: Vec<char> = Vec::new();
        w.push(c);
        proof {
            assert(w@ =~= seq![c]);
            assert(toks_view(out@).add(Seq::<JTok>::empty()) =~= toks_view(out@));
        }
        Some(TokSt::InWord(w))
    } else {
        None
    }
}

/// The token a finished word run denotes.
fn exec_word_token(w: &Vec<char>) -> (r: Option<TokE>)
    ensures
        match (r, word_token(w@)) {
            (Some(t), Some(ts)) => t@ == ts,
            (None, None) => true,
            _ => false,
        },
{
    if w.len() == 4 && w[0] == 't' && w[1] == 'r' && w[2] == 'u' && w[3] == 'e' {
        proof {
            assert(w@ =~= seq!['t', 'r', 'u', 'e']);
        }
        Some(TokE::TrueTok)
    } else if w.len() == 5 && w[0] == 'f' && w[1] == 'a' && w[2] == 'l' && w[3] == 's' && w[4]
        == 'e' {
        proof {
            assert(w@ =~= seq!['f', 'a', 'l', 's', 'e']);
        }
        Some(TokE::FalseTok)
    } else if w.len() == 4 && w[0] == 'n' && w[1] == 'u' && w[2] == 'l' && w[3] == 'l' {
        proof {
            assert(w@ =~= seq!['n', 'u', 'l', 'l']);
        }
        Some(TokE::NullTok)
    } else {
        proof {
            if w@ == seq!['t', 'r', 'u', 'e'] {
                assert(w@.len() == 4 && w@[0] == 't' && w@[1] == 'r' && w@[2] == 'u' && w@[3]
                    == 'e');
            }
            if w@ == seq!['f', 'a', 'l', 's', 'e'] {
                assert(w@.len() == 5 && w@[0] == 'f' && w@[1] == 'a' && w@[2] == 'l' && w@[3] == 's'
                    && w@[4] == 'e');
            }
            if w@ == seq!['n', 'u', 'l', 'l'] {
                assert(w@.len() == 4 && w@[0] == 'n' && w@[1] == 'u' && w@[2] == 'l' && w@[3]
                    == 'l');
            }
        }
        None
    }
}

/// One step of the tokenizer.
fn exec_step(st: TokSt, c: char, out: &mut Vec<TokE>) -> (r: Option<TokSt>)
    ensures
        match (r, tok_step(st@, c)) {
            (Some(r2), Some((st2, ts))) => r2@ == st2 && toks_view(final(out)@) == toks_view(
                old(out)@,
            ).add(ts),
            (None, None) => true,
            _ => false,
        },
{
    match st {
        TokSt::Base => exec_base(c, out),
        TokSt::InStr(mut a) => {
            if c == '"' {
                let ghost av = a@;
                out.push(TokE::StrTok(a));
                proof {
                    lemma_toks_view_push(old(out)@, TokE::StrTok(a));
                    assert(toks_view(old(out)@).push(JTok::StrTok(av)) =~= toks_view(
                        old(out)@,
                    ).add(seq![JTok::StrTok(av)]));
                }
                Some(TokSt::Base)
            } else if c == '\\' {
                proof {
                    assert(toks_view(out@).add(Seq::<JTok>::empty()) =~= toks_view(out@));
                }
                Some(TokSt::InStrEsc(a))
            } else {
                a.push(c);
                proof {
                    assert(toks_view(out@).add(Seq::<JTok>::empty()) =~= toks_view(out@));
                }
                Some(TokSt::InStr(a))
            }
        },
        TokSt::InStrEsc(mut a) => {
            let u: char = if c == '"' {
                '"'
            } else if c == '\\' {
                '\\'
            } else if c == '/' {
                '/'
            } else if c == 'b' {
                '\u{8}'
            } else if c == 'f' {
                '\u{c}'
            } else if c == 'n' {
                '\n'
            } else if c == 'r' {
                '\r'
            } else if c == 't' {
                '\t'
            } else {
                return None;
            };
            a.push(u);
            proof {
                assert(toks_view(out@).add(Seq::<JTok>::empty()) =~= toks_view(out@));
            }
            Some(TokSt::InStr(a))
        },
        TokSt::InNum { val, ok, lz, multi, neg, any } => {
            if '0' <= c && c <= '9' {
                let d: u64 = (c as u32 as u64) - 48;
                proof {
                    assert(d == digit_val(c));
                }
                let stepped: (u64, bool) = if ok {
                    match val.checked_mul(10) {
                        Some(x) => match x.checked_add(d) {
                            Some(y) => (y, true),
                            None => (0u64, false),
                        },
                        None => (0u64, false),
                    }
                } else {
                    (0u64, false)
                };
                proof {
                    assert(toks_view(out@).add(Seq::<JTok>::empty()) =~= toks_view(out@));
                }
                Some(
                    TokSt::InNum {
                        val: stepped.0,
                        ok: stepped.1,
                        lz: if any {
                            lz
                        } else {
                            c == '0'
                        },
                        multi: any,
                        neg,
                        any: true,
                    },
                )
            } else {
                if !any || (lz && multi) {
                    return None;
                }
                let t = if neg || !ok {
                    TokE::BadNumTok
                } else {
                    TokE::UIntTok(val)
                };
                let ghost tv = t@;
                out.push(t);
                proof {
                    lemma_toks_view_push(old(out)@, t);
                }
                let r = exec_base(c, out);
                proof {
                    match (&r, base_step(c)) {
                        (Some(r2), Some((st2, ts))) => {
                            assert(toks_view(out@) =~= toks_view(old(out)@).add(seq![tv].add(ts)));
                        },
                        _ => {},
                    }
                }
                r
            }
        },
        TokSt::InWord(w) => {
            if 'a' <= c && c <= 'z' {
                let mut w2 = w;
                w2.push(c);
                proof {
                    assert(toks_view(out@).add(Seq::<JTok>::empty()) =~= toks_view(out@));
                }
                Some(TokSt::InWord(w2))
            } else {
                let t = match exec_word_token(&w) {
                    Some(t) => t,
                    None => {
                        return None;
                    },
                };
                let ghost tv = t@;
                out.push(t);
                proof {
                    lemma_toks_view_push(old(out)@, t);
                }
                let r = exec_base(c, out);
                proof {
                    match (&r, base_step(c)) {
                        (Some(r2), Some((st2, ts))) => {
                            assert(toks_view(out@) =~= toks_view(old(out)@).add(seq![tv].add(ts)));
                        },
                        _ => {},
                    }
                }
                r
            }
        },
    }
}

/// Close the final state at end of text.
fn exec_finish(st: TokSt, out: &mut Vec<TokE>) -> (r: bool)
    ensures
        match tok_finish(st@) {
            Some(te) => r && toks_view(final(out)@) == toks_view(old(out)@).add(te),
            None => !r,
        },
{
    match st {
        TokSt::Base => {
            proof {
                assert(toks_view(out@).add(Seq::<JTok>::empty()) =~= toks_view(out@));
            }
            true
        },
        TokSt::InStr(_) => false,
        TokSt::InStrEsc(_) => false,
        TokSt::InNum { val, ok, lz, multi, neg, any } => {
            if !any || (lz && multi) {
                false
            } else {
                let t = if neg || !ok {
                    TokE::BadNumTok
                } else {
                    TokE::UIntTok(val)
                };
                let ghost tv = t@;
                out.push(t);
                proof {
                    lemma_toks_view_push(old(out)@, t);
                    assert(toks_view(old(out)@).push(tv) =~= toks_view(old(out)@).add(seq![tv]));
                }
                true
            }
        },
        TokSt::InWord(w) => {
            match exec_word_token(&w) {
                Some(t) => {
                    let ghost tv = t@;
                    out.push(t);
                    proof {
                        lemma_toks_view_push(old(out)@, t);
                        assert(toks_view(old(out)@).push(tv) =~= toks_view(old(out)@).add(
                            seq![tv],
                        ));
                    }
                    true
                },
                None => false,
            }
        },
    }
}

/// Tokenize a whole text, or reject it when it is not in the surface
/// grammar's lexical form.
fn tokenize(s: &Vec<char>) -> (r: Option<Vec<TokE>>)
    ensures
        match r {
            Some(ts) => spec_tokens(s@) == Some(toks_view(ts@)),
            None => spec_tokens(s@) is None,
        },
{
    let mut out: Vec<TokE> = Vec::new();
    let mut st = TokSt::Base;
    let mut i: usize = 0;
    proof {
        assert(s@.take(0) =~= Seq::<char>::empty());
    }
    while i < s.len()
        invariant
            i <= s@.len(),
            tok_run(TSt::Base, s@.take(i as int)) == Some((st@, toks_view(out@))),
        decreases s@.len() - i,
    {
        let c = s[i];
        proof {
            lemma_tok_run_snoc(TSt::Base, s@.take(i as int), c);
            assert(s@.take(i as int).push(c) =~= s@.take(i as int + 1));
        }
        match exec_step(st, c, &mut out) {
            Some(st2) => {
                st = st2;
            },
            None => {
                proof {
                    assert(tok_run(TSt::Base, s@.take(i as int + 1)) is None);
                    lemma_tok_run_append(TSt::Base, s@.take(i as int + 1), s@.skip(i as int + 1));
                    assert(s@.take(i as int + 1).add(s@.skip(i as int + 1)) =~= s@);
                }
                return None;
            },
        }
        i = i + 1;
    }
    proof {
        assert(s@.take(s@.len() as int) =~= s@);
    }
    if exec_finish(st, &mut out) {
        Some(out)
    } else {
        None
    }
}

/// The value a single token denotes, if any.
pub open spec fn jval_of_tok(t: JTok) -> Option<JVal> {
    match t {
        JTok::StrTok(s) => Some(JVal::Str(s)),
        JTok::UIntTok(n) => Some(JVal::UInt(n)),
        JTok::BadNumTok => Some(JVal::BadNum),
        JTok::TrueTok => Some(JVal::Bool(true)),
        JTok::FalseTok => Some(JVal::Bool(false)),
        JTok::NullTok => Some(JVal::Null),
        _ => None,
    }
}

/// Parse the fields of an object from token position `k` on: `key : value`
/// followed by a comma and more fields, or by the closing brace ending the
/// token list.
pub open spec fn parse_pairs(ts: Seq<JTok>, k: int) -> Option<FieldsView>
    decreases ts.len() - k,
{
    if ts.len() < k + 4 || k < 0 {
        None
    } else {
        match ts[k] {
            JTok::StrTok(key) => if ts[k + 1] != JTok::Colon {
                None
            } else {
                match jval_of_tok(ts[k + 2]) {
                    Some(v) => if ts[k + 3] == JTok::RBrace {
                        if ts.len() == k + 4 {
                            Some(seq![(key, v)])
                        } else {
                            None
                        }
                    } else if ts[k + 3] == JTok::Comma {
                        match parse_pairs(ts, k + 4) {
                            Some(rest) => Some(seq![(key, v)].add(rest)),
                            None => None,
                        }
                    } else {
                        None
                    },
                    None => None,
                }
            },
            _ => None,
        }
    }
}

/// Parse a whole token list as one object.
pub open spec fn parse_tokens(ts: Seq<JTok>) -> Option<FieldsView> {
    if ts.len() < 2 {
        None
    } else if ts[0] != JTok::LBrace {
        None
    } else if ts.len() == 2 && ts[1] == JTok::RBrace {
        Some(Seq::<(Seq<char>, JVal)>::empty())
    } else {
        parse_pairs(ts, 1)
    }
}

/// What parsing a text yields: the object's fields in source order, or
/// nothing when the text is not one object of the surface grammar.
pub open spec fn spec_parse_json(s: Seq<char>) -> Option<FieldsView> {
    match spec_tokens(s) {
        Some(ts) => parse_tokens(ts),
        None => None,
    }
}

/// Copy a character vector.
pub fn clone_chars(v: &Vec<char>) -> (r: Vec<char>)
    ensures
        r@ == v@,
{
    let mut out: Vec<char> = Vec::new();
    let mut i: usize = 0;
    while i < v.len()
        invariant
            i <= v@.len(),
            out@ == v@.take(i as int),
        decreases v@.len() - i,
    {
        let c = v[i];
        out.push(c);
        proof {
            assert(v@.take(i as int + 1) =~= v@.take(i as int).push(c));
        }
        i = i + 1;
    }
    proof {
        assert(v@.take(v@.len() as int) =~= v@);
    }
    out
}

/// The value a single token denotes.
fn exec_jval_of(t: &TokE) -> (r: Option<JsonValue>)
    ensures
        match (r, jval_of_tok(t@)) {
            (Some(v), Some(vs)) => v@ == vs,
            (None, None) => true,
            _ => false,
        },
{
    match t {
        TokE::StrTok(s) => Some(JsonValue::Str(clone_chars(s))),
        TokE::UIntTok(n) => Some(JsonValue::UInt(*n)),
        TokE::BadNumTok => Some(JsonValue::BadNum),
        TokE::TrueTok => Some(JsonValue::Bool(true)),
        TokE::FalseTok => Some(JsonValue::Bool(false)),
        TokE::NullTok => Some(JsonValue::Null),
        _ => None,
    }
}

/// Parse the fields of an object from token position `k` on.
fn exec_parse_pairs(ts: &Vec<TokE>, k: usize) -> (r: Option<Fields>)
    ensures
        match r {
            Some(f) => parse_pairs(toks_view(ts@), k as int) == Some(fields_view(f@)),
            None => parse_pairs(toks_view(ts@), k as int) is None,
        },
    decreases ts@.len() - k,
{
    let ghost tsv = toks_view(ts@);
    if ts.len() < 4 || k > ts.len() - 4 {
        return None;
    }
    let key: Vec<char> = match &ts[k] {
        TokE::StrTok(s) => clone_chars(s),
        _ => {
            return None;
        },
    };
    match &ts[k + 1] {
        TokE::Colon => {},
        _ => {
            return None;
        },
    }
    let v: JsonValue = match exec_jval_of(&ts[k + 2]) {
        Some(v) => v,
        None => {
            return None;
        },
    };
    let closing_here = match &ts[k + 3] {
        TokE::RBrace => true,
        TokE::Comma => false,
        _ => {
            return None;
        },
    };
    let ghost keyv = key@;
    let ghost vv = v@;
    let mut out: Fields = Vec::new();
    out.push((key, v));
    proof {
        assert(fields_view(out@) =~= seq![(keyv, vv)]);
    }
    if closing_here {
        if ts.len() == k + 4 {
            proof {
                assert(parse_pairs(tsv, k as int) == Some(seq![(keyv, vv)]));
            }
            Some(out)
        } else {
            None
        }
    } else {
        match exec_parse_pairs(ts, k + 4) {
            Some(mut rest) => {
                let ghost restv = fields_view(rest@);
                out.append(&mut rest);
                proof {
                    assert(fields_view(out@) =~= seq![(keyv, vv)].add(restv));
                }
                Some(out)
            },
            None => None,
        }
    }
}

/// The text is not one object of the surface grammar.
#[derive(Debug, Clone, Copy, PartialEq, Eq, Structural)]
pub struct JsonSyntaxError;

/// Parse a text as one object of the parameter surface grammar: a flat JSON
/// object whose values are strings (two-character escapes understood,
/// `\u` escapes not), booleans, integers or null. Returns the fields in
/// source order; fails exactly on text outside that grammar.
pub fn parse_json_object(s: &Vec<char>) -> (r: Result<Fields, JsonSyntaxError>)
    ensures
        match r {
            Ok(f) => spec_parse_json(s@) == Some(fields_view(f@)),
            Err(_) => spec_parse_json(s@) is None,
        },
{
    let ts = match tokenize(s) {
        Some(ts) => ts,
        None => {
            return Err(JsonSyntaxError);
        },
    };
    let ghost tsv = toks_view(ts@);
    if ts.len() < 2 {
        return Err(JsonSyntaxError);
    }
    match &ts[0] {
        TokE::LBrace => {},
        _ => {
            return Err(JsonSyntaxError);
        },
    }
    let second_rbrace = match &ts[1] {
        TokE::RBrace => true,
        _ => false,
    };
    if ts.len() == 2 && second_rbrace {
        proof {
            assert(fields_view(Seq::<(Vec<char>, JsonValue)>::empty()) =~= Seq::<
                (Seq<char>, JVal),
            >::empty());
        }
        return Ok(Vec::new());
    }
    proof {
        if tsv.len() == 2 && tsv[1] == JTok::RBrace {
            assert(second_rbrace);
        }
    }
    match exec_parse_pairs(&ts, 1) {
        Some(f) => Ok(f),
        None => Err(JsonSyntaxError),
    }
}

} // verus!
