//! The codec for the persisted document: a compact JSON rendering of
//! the document, and a parser that accepts exactly that rendering.
//!
//! The serializer is specified byte for byte by the `ser_*` spec
//! functions; the parser is specified by the `p_*` spec functions,
//! which consume a prefix of the input and hand back the rest.
//! Parsing a serialized document yields the document back
//! (`lemma_parse_ser_app_data`), which is what makes a save/load/save
//! cycle produce byte-identical content.
//!
//! String content is emitted verbatim, except for the quote and the
//! backslash, which are escaped with a backslash.

use vstd::prelude::*;
use vstd::seq_lib::lemma_concat_associative;
use vstd::string::StringSliceAdditionalSpecFns;
use crate::document::{Header, HeaderV, Parameter, ParameterV, Api, ApiV, Collection, CollectionV,
    AppData, AppDataV, DocumentError, headers_view, parameters_view, apis_view, collections_view};
use crate::executor::slice_eq;

verus! {

/// The quote byte, `"`.
pub const QUOTE: u8 = 34;

/// The backslash byte, `\`.
pub const BACKSLASH: u8 = 92;

/// The comma byte, `,`.
pub const COMMA: u8 = 44;

/// The opening-bracket byte, `[`.
pub const LBRACKET: u8 = 91;

/// The closing-bracket byte, `]`.
pub const RBRACKET: u8 = 93;

/// The opening-brace byte, `{`.
pub const LBRACE: u8 = 123;

/// The closing-brace byte, `}`.
pub const RBRACE: u8 = 125;

/// The bytes of a literal piece of the rendering.
pub open spec fn lit(s: &str) -> Seq<u8> {
    s.spec_bytes()
}

/// Consume the exact literal `l` from the front of `s`.
pub open spec fn p_lit(s: Seq<u8>, l: Seq<u8>) -> Option<Seq<u8>> {
    if l.len() <= s.len() && s.take(l.len() as int) == l {
        Some(s.skip(l.len() as int))
    } else {
        None
    }
}

/// Consuming a literal that stands at the front succeeds.
pub proof fn lemma_p_lit(l: Seq<u8>, rest: Seq<u8>)
    ensures
        p_lit(l + rest, l) == Some(rest),
{
    assert((l + rest).take(l.len() as int) =~= l);
    assert((l + rest).skip(l.len() as int) =~= rest);
}

/// How one content byte is rendered inside a string.
pub open spec fn esc_byte(b: u8) -> Seq<u8> {
    if b == QUOTE {
        seq![BACKSLASH, QUOTE]
    } else if b == BACKSLASH {
        seq![BACKSLASH, BACKSLASH]
    } else {
        seq![b]
    }
}

/// How string content is rendered: each byte in order.
pub open spec fn esc(s: Seq<u8>) -> Seq<u8>
    decreases s.len(),
{
    if s.len() == 0 {
        Seq::empty()
    } else {
        esc_byte(s[0]) + esc(s.drop_first())
    }
}

/// A string: quote, escaped content, quote.
pub open spec fn ser_string(s: Seq<u8>) -> Seq<u8> {
    seq![QUOTE] + esc(s) + seq![QUOTE]
}

/// Rendering one more byte extends the escaped content at the end.
pub proof fn lemma_esc_snoc(s: Seq<u8>, b: u8)
    ensures
        esc(s.push(b)) == esc(s) + esc_byte(b),
    decreases s.len(),
{
    if s.len() == 0 {
        reveal_with_fuel(esc, 3);
        assert(s.push(b) =~= seq![b]);
        assert(seq![b].drop_first() =~= Seq::<u8>::empty());
        assert(esc(s.push(b)) =~= esc(s) + esc_byte(b));
    } else {
        assert(s.push(b)[0] == s[0]);
        assert(s.push(b).drop_first() =~= s.drop_first().push(b));
        lemma_esc_snoc(s.drop_first(), b);
        assert(esc(s.push(b)) =~= esc(s) + esc_byte(b));
    }
}

/// Parse string content up to and including the closing quote; hand
/// back the content and the rest of the input.  Accepts exactly what
/// `esc` emits: a backslash introduces an escaped quote or backslash,
/// a bare quote ends the string, anything else stands for itself.
pub open spec fn p_string_body(s: Seq<u8>) -> Option<(Seq<u8>, Seq<u8>)>
    decreases s.len(),
{
    if s.len() == 0 {
        None
    } else if s[0] == QUOTE {
        Some((Seq::empty(), s.drop_first()))
    } else if s[0] == BACKSLASH {
        if s.len() >= 2 && (s[1] == QUOTE || s[1] == BACKSLASH) {
            match p_string_body(s.skip(2)) {
                Some(tr) => Some((seq![s[1]] + tr.0, tr.1)),
                None => None,
            }
        } else {
            None
        }
    } else {
        match p_string_body(s.drop_first()) {
            Some(tr) => Some((seq![s[0]] + tr.0, tr.1)),
            None => None,
        }
    }
}

/// A string: a quote, then content up to the closing quote.
pub open spec fn p_string(s: Seq<u8>) -> Option<(Seq<u8>, Seq<u8>)> {
    if s.len() > 0 && s[0] == QUOTE {
        p_string_body(s.drop_first())
    } else {
        None
    }
}

/// Parsing rendered content followed by a closing quote yields the
/// content back.
pub proof fn lemma_p_string_body_esc(v: Seq<u8>, rest: Seq<u8>)
    ensures
        p_string_body(esc(v) + seq![QUOTE] + rest) == Some((v, rest)),
    decreases v.len(),
{
    let s = esc(v) + seq![QUOTE] + rest;
    if v.len() == 0 {
        assert(s =~= seq![QUOTE] + rest);
        assert(s[0] == QUOTE);
        assert(s.drop_first() =~= rest);
    } else {
        let b = v[0];
        lemma_p_string_body_esc(v.drop_first(), rest);
        let s2 = esc(v.drop_first()) + seq![QUOTE] + rest;
        if b == QUOTE || b == BACKSLASH {
            assert(s =~= seq![BACKSLASH, b] + s2);
            assert(s[0] == BACKSLASH && s[1] == b);
            assert(s.skip(2) =~= s2);
            assert(seq![b] + (v.drop_first()) =~= v);
        } else {
            assert(s =~= seq![b] + s2);
            assert(s[0] == b);
            assert(s.drop_first() =~= s2);
            assert(seq![b] + (v.drop_first()) =~= v);
        }
    }
}

/// Parsing a rendered string yields the string back.
pub proof fn lemma_p_string_ser(v: Seq<u8>, rest: Seq<u8>)
    ensures
        p_string(ser_string(v) + rest) == Some((v, rest)),
{
    let s = ser_string(v) + rest;
    assert(s[0] == QUOTE);
    assert(s.drop_first() =~= esc(v) + seq![QUOTE] + rest);
    lemma_p_string_body_esc(v, rest);
}

/// Append the bytes of `s` to `out`.
pub fn write_slice(out: &mut Vec<u8>, s: &[u8])
    ensures
        final(out)@ == old(out)@ + s@,
{
    let mut i: usize = 0;
    while i < s.len()
        invariant
            i <= s@.len(),
            out@ == old(out)@ + s@.take(i as int),
        decreases s@.len() - i,
    {
        out.push(s[i]);
        proof {
            assert(s@.take(i + 1 as int) =~= s@.take(i as int).push(s@[i as int]));
            assert(out@ =~= old(out)@ + s@.take(i + 1 as int));
        }
        i = i + 1;
    }
    proof {
        assert(s@.take(s@.len() as int) =~= s@);
    }
}

/// Append the rendering of the string `s` to `out`.
pub fn write_string(out: &mut Vec<u8>, s: &Vec<u8>)
    ensures
        final(out)@ == old(out)@ + ser_string(s@),
{
    out.push(QUOTE);
    let ghost base = out@;
    let mut i: usize = 0;
    while i < s.len()
        invariant
            i <= s@.len(),
            out@ == base + esc(s@.take(i as int)),
            base == old(out)@ + seq![QUOTE],
        decreases s@.len() - i,
    {
        let b = s[i];
        if b == QUOTE || b == BACKSLASH {
            out.push(BACKSLASH);
            out.push(b);
        } else {
            out.push(b);
        }
        proof {
            assert(s@.take(i + 1 as int) =~= s@.take(i as int).push(s@[i as int]));
            lemma_esc_snoc(s@.take(i as int), s@[i as int]);
            assert(out@ =~= base + esc(s@.take(i + 1 as int)));
        }
        i = i + 1;
    }
    out.push(QUOTE);
    proof {
        assert(s@.take(s@.len() as int) =~= s@);
        assert(out@ =~= old(out)@ + ser_string(s@));
    }
}

/// Parse a rendered string in `s` starting at `i`, executably.
pub fn parse_string(s: &[u8], i: usize) -> (r: Option<(Vec<u8>, usize)>)
    requires
        i <= s@.len(),
    ensures
        match r {
            Some(vj) => i < vj.1 <= s@.len() && p_string(s@.skip(i as int)) == Some(
                (vj.0@, s@.skip(vj.1 as int)),
            ),
            None => p_string(s@.skip(i as int)) is None,
        },
{
    if i >= s.len() || s[i] != QUOTE {
        return None;
    }
    let mut acc: Vec<u8> = Vec::new();
    let mut cur: usize = i + 1;
    proof {
        assert(s@.skip(i as int)[0] == s@[i as int]);
        assert(s@.skip(i as int).drop_first() =~= s@.skip(i + 1 as int));
        let rec = p_string_body(s@.skip(i + 1 as int));
        if rec is Some {
            assert(Seq::<u8>::empty() + rec.unwrap().0 =~= rec.unwrap().0);
        }
    }
    loop
        invariant
            i + 1 <= cur <= s@.len(),
            p_string(s@.skip(i as int)) == (match p_string_body(s@.skip(cur as int)) {
                Some(tr) => Some((acc@ + tr.0, tr.1)),
                None => None,
            }),
        decreases s@.len() - cur,
    {
        let ghost tail = s@.skip(cur as int);
        if cur >= s.len() {
            return None;
        }
        proof {
            assert(tail[0] == s@[cur as int]);
        }
        let b = s[cur];
        if b == QUOTE {
            proof {
                assert(tail.drop_first() =~= s@.skip(cur + 1 as int));
                assert(acc@ + Seq::<u8>::empty() =~= acc@);
            }
            return Some((acc, cur + 1));
        } else if b == BACKSLASH {
            if cur + 1 >= s.len() {
                proof {
                    assert(tail.len() < 2);
                }
                return None;
            }
            proof {
                assert(tail[1] == s@[cur + 1 as int]);
            }
            let e = s[cur + 1];
            if e == QUOTE || e == BACKSLASH {
                let ghost acc0 = acc@;
                acc.push(e);
                proof {
                    assert(tail.skip(2) =~= s@.skip(cur + 2 as int));
                    let rec = p_string_body(s@.skip(cur + 2 as int));
                    if rec is Some {
                        assert(acc0.push(e) + rec.unwrap().0 =~= acc0 + (seq![e] + rec.unwrap().0));
                    }
                }
                cur = cur + 2;
            } else {
                return None;
            }
        } else {
            let ghost acc0 = acc@;
            acc.push(b);
            proof {
                assert(tail.drop_first() =~= s@.skip(cur + 1 as int));
                let rec = p_string_body(s@.skip(cur + 1 as int));
                if rec is Some {
                    assert(acc0.push(b) + rec.unwrap().0 =~= acc0 + (seq![b] + rec.unwrap().0));
                }
            }
            cur = cur + 1;
        }
    }
}

/// A header object.
#[verifier::opaque]
pub open spec fn ser_header(h: HeaderV) -> Seq<u8> {
    seq![LBRACE] + lit("\"key\":") + ser_string(h.key) + lit(",\"value\":") + ser_string(h.value)
        + seq![RBRACE]
}

#[verifier::opaque]
pub open spec fn p_header(s: Seq<u8>) -> Option<(HeaderV, Seq<u8>)> {
    if s.len() > 0 && s[0] == LBRACE {
        match p_lit(s.drop_first(), lit("\"key\":")) {
            Some(s1) => match p_string(s1) {
                Some(kr) => match p_lit(kr.1, lit(",\"value\":")) {
                    Some(s2) => match p_string(s2) {
                        Some(vr) => if vr.1.len() > 0 && vr.1[0] == RBRACE {
                            Some((HeaderV { key: kr.0, value: vr.0 }, vr.1.drop_first()))
                        } else {
                            None
                        },
                        None => None,
                    },
                    None => None,
                },
                None => None,
            },
            None => None,
        }
    } else {
        None
    }
}

pub proof fn lemma_p_header_ser(h: HeaderV, rest: Seq<u8>)
    ensures
        p_header(ser_header(h) + rest) == Some((h, rest)),
{
    reveal(ser_header);
    reveal(p_header);
    let s = ser_header(h) + rest;
    let t4 = seq![RBRACE] + rest;
    let t3 = ser_string(h.value) + t4;
    let t2 = lit(",\"value\":") + t3;
    let t1 = ser_string(h.key) + t2;
    let t0 = lit("\"key\":") + t1;
    assert(s =~= seq![LBRACE] + t0);
    assert(s[0] == LBRACE);
    assert(s.drop_first() =~= t0);
    lemma_p_lit(lit("\"key\":"), t1);
    lemma_p_string_ser(h.key, t2);
    lemma_p_lit(lit(",\"value\":"), t3);
    lemma_p_string_ser(h.value, t4);
    assert(t4[0] == RBRACE);
    assert(t4.drop_first() =~= rest);
    assert((HeaderV { key: h.key, value: h.value }) =~= h);
}

/// A rendered header starts with an opening brace.
pub proof fn lemma_ser_header_first(h: HeaderV)
    ensures
        ser_header(h).len() > 0,
        ser_header(h)[0] == LBRACE,
{
    reveal(ser_header);
}

/// A parameter object.
#[verifier::opaque]
pub open spec fn ser_parameter(p: ParameterV) -> Seq<u8> {
    seq![LBRACE] + lit("\"parameter_type\":") + ser_string(p.parameter_type) + lit(",\"key\":")
        + ser_string(p.key) + lit(",\"value\":") + ser_string(p.value) + seq![RBRACE]
}

#[verifier::opaque]
pub open spec fn p_parameter(s: Seq<u8>) -> Option<(ParameterV, Seq<u8>)> {
    if s.len() > 0 && s[0] == LBRACE {
        match p_lit(s.drop_first(), lit("\"parameter_type\":")) {
            Some(s1) => match p_string(s1) {
                Some(tr) => match p_lit(tr.1, lit(",\"key\":")) {
                    Some(s2) => match p_string(s2) {
                        Some(kr) => match p_lit(kr.1, lit(",\"value\":")) {
                            Some(s3) => match p_string(s3) {
                                Some(vr) => if vr.1.len() > 0 && vr.1[0] == RBRACE {
                                    Some(
                                        (
                                            ParameterV {
                                                parameter_type: tr.0,
                                                key: kr.0,
                                                value: vr.0,
                                            },
                                            vr.1.drop_first(),
                                        ),
                                    )
                                } else {
                                    None
                                },
                                None => None,
                            },
                            None => None,
                        },
                        None => None,
                    },
                    None => None,
                },
                None => None,
            },
            None => None,
        }
    } else {
        None
    }
}

pub proof fn lemma_p_parameter_ser(p: ParameterV, rest: Seq<u8>)
    ensures
        p_parameter(ser_parameter(p) + rest) == Some((p, rest)),
{
    reveal(ser_parameter);
    reveal(p_parameter);
    let s = ser_parameter(p) + rest;
    let t6 = seq![RBRACE] + rest;
    let t5 = ser_string(p.value) + t6;
    let t4 = lit(",\"value\":") + t5;
    let t3 = ser_string(p.key) + t4;
    let t2 = lit(",\"key\":") + t3;
    let t1 = ser_string(p.parameter_type) + t2;
    let t0 = lit("\"parameter_type\":") + t1;
    assert(s =~= seq![LBRACE] + t0);
    assert(s[0] == LBRACE);
    assert(s.drop_first() =~= t0);
    lemma_p_lit(lit("\"parameter_type\":"), t1);
    lemma_p_string_ser(p.parameter_type, t2);
    lemma_p_lit(lit(",\"key\":"), t3);
    lemma_p_string_ser(p.key, t4);
    lemma_p_lit(lit(",\"value\":"), t5);
    lemma_p_string_ser(p.value, t6);
    assert(t6[0] == RBRACE);
    assert(t6.drop_first() =~= rest);
    assert((ParameterV { parameter_type: p.parameter_type, key: p.key, value: p.value }) =~= p);
}

/// A rendered parameter starts with an opening brace.
pub proof fn lemma_ser_parameter_first(p: ParameterV)
    ensures
        ser_parameter(p).len() > 0,
        ser_parameter(p)[0] == LBRACE,
{
    reveal(ser_parameter);
}

/// The elements of a header list after the first: `,` element, ended by `]`.
pub open spec fn ser_headers_rest(hs: Seq<HeaderV>) -> Seq<u8>
    decreases hs.len(),
{
    if hs.len() == 0 {
        Seq::empty()
    } else {
        seq![COMMA] + ser_header(hs[0]) + ser_headers_rest(hs.drop_first())
    }
}

/// A header list.
pub open spec fn ser_headers(hs: Seq<HeaderV>) -> Seq<u8> {
    if hs.len() == 0 {
        seq![LBRACKET, RBRACKET]
    } else {
        seq![LBRACKET] + ser_header(hs[0]) + ser_headers_rest(hs.drop_first()) + seq![RBRACKET]
    }
}

pub proof fn lemma_ser_headers_rest_snoc(hs: Seq<HeaderV>, h: HeaderV)
    ensures
        ser_headers_rest(hs.push(h)) == ser_headers_rest(hs) + seq![COMMA] + ser_header(h),
    decreases hs.len(),
{
    if hs.len() == 0 {
        assert(hs.push(h) =~= seq![h]);
        assert(seq![h].drop_first() =~= Seq::<HeaderV>::empty());
        reveal_with_fuel(ser_headers_rest, 3);
        assert(ser_headers_rest(hs.push(h)) =~= ser_headers_rest(hs) + seq![COMMA] + ser_header(h));
    } else {
        assert(hs.push(h)[0] == hs[0]);
        assert(hs.push(h).drop_first() =~= hs.drop_first().push(h));
        lemma_ser_headers_rest_snoc(hs.drop_first(), h);
        assert(ser_headers_rest(hs.push(h)) =~= ser_headers_rest(hs) + seq![COMMA] + ser_header(h));
    }
}

pub open spec fn p_headers_rest(s: Seq<u8>) -> Option<(Seq<HeaderV>, Seq<u8>)>
    decreases s.len(),
{
    if s.len() == 0 {
        None
    } else if s[0] == RBRACKET {
        Some((Seq::empty(), s.drop_first()))
    } else if s[0] == COMMA {
        match p_header(s.drop_first()) {
            Some(hr) => if hr.1.len() < s.len() {
                match p_headers_rest(hr.1) {
                    Some(tl) => Some((seq![hr.0] + tl.0, tl.1)),
                    None => None,
                }
            } else {
                None
            },
            None => None,
        }
    } else {
        None
    }
}

pub open spec fn p_headers(s: Seq<u8>) -> Option<(Seq<HeaderV>, Seq<u8>)> {
    if s.len() >= 2 && s[0] == LBRACKET && s[1] == RBRACKET {
        Some((Seq::empty(), s.skip(2)))
    } else if s.len() > 0 && s[0] == LBRACKET {
        match p_header(s.drop_first()) {
            Some(hr) => match p_headers_rest(hr.1) {
                Some(tl) => Some((seq![hr.0] + tl.0, tl.1)),
                None => None,
            },
            None => None,
        }
    } else {
        None
    }
}

pub proof fn lemma_p_headers_rest_ser(hs: Seq<HeaderV>, rest: Seq<u8>)
    ensures
        p_headers_rest(ser_headers_rest(hs) + seq![RBRACKET] + rest) == Some((hs, rest)),
    decreases hs.len(),
{
    let s = ser_headers_rest(hs) + seq![RBRACKET] + rest;
    if hs.len() == 0 {
        assert(s =~= seq![RBRACKET] + rest);
        assert(s[0] == RBRACKET);
        assert(s.drop_first() =~= rest);
        assert(hs =~= Seq::<HeaderV>::empty());
    } else {
        let t1 = ser_headers_rest(hs.drop_first()) + seq![RBRACKET] + rest;
        let t0 = ser_header(hs[0]) + t1;
        assert(s =~= seq![COMMA] + t0);
        assert(s[0] == COMMA);
        assert(s[0] != RBRACKET);
        assert(s.drop_first() =~= t0);
        lemma_p_header_ser(hs[0], t1);
        lemma_p_headers_rest_ser(hs.drop_first(), rest);
        assert(t1.len() < s.len());
        assert(seq![hs[0]] + hs.drop_first() =~= hs);
    }
}

pub proof fn lemma_p_headers_ser(hs: Seq<HeaderV>, rest: Seq<u8>)
    ensures
        p_headers(ser_headers(hs) + rest) == Some((hs, rest)),
{
    let s = ser_headers(hs) + rest;
    if hs.len() == 0 {
        assert(s =~= seq![LBRACKET, RBRACKET] + rest);
        assert(s[0] == LBRACKET && s[1] == RBRACKET);
        assert(s.skip(2) =~= rest);
        assert(hs =~= Seq::<HeaderV>::empty());
    } else {
        let t1 = ser_headers_rest(hs.drop_first()) + seq![RBRACKET] + rest;
        let t0 = ser_header(hs[0]) + t1;
        assert(s =~= seq![LBRACKET] + t0);
        assert(s[0] == LBRACKET);
        lemma_ser_header_first(hs[0]);
        assert(s[1] == ser_header(hs[0])[0]);
        assert(s[1] == LBRACE);
        assert(s[1] != RBRACKET);
        assert(s.drop_first() =~= t0);
        lemma_p_header_ser(hs[0], t1);
        lemma_p_headers_rest_ser(hs.drop_first(), rest);
        assert(seq![hs[0]] + hs.drop_first() =~= hs);
    }
}

/// The elements of a parameter list after the first.
pub open spec fn ser_parameters_rest(ps: Seq<ParameterV>) -> Seq<u8>
    decreases ps.len(),
{
    if ps.len() == 0 {
        Seq::empty()
    } else {
        seq![COMMA] + ser_parameter(ps[0]) + ser_parameters_rest(ps.drop_first())
    }
}

/// A parameter list.
pub open spec fn ser_parameters(ps: Seq<ParameterV>) -> Seq<u8> {
    if ps.len() == 0 {
        seq![LBRACKET, RBRACKET]
    } else {
        seq![LBRACKET] + ser_parameter(ps[0]) + ser_parameters_rest(ps.drop_first())
            + seq![RBRACKET]
    }
}

pub proof fn lemma_ser_parameters_rest_snoc(ps: Seq<ParameterV>, p: ParameterV)
    ensures
        ser_parameters_rest(ps.push(p)) == ser_parameters_rest(ps) + seq![COMMA] + ser_parameter(p),
    decreases ps.len(),
{
    if ps.len() == 0 {
        assert(ps.push(p) =~= seq![p]);
        assert(seq![p].drop_first() =~= Seq::<ParameterV>::empty());
        reveal_with_fuel(ser_parameters_rest, 3);
        assert(ser_parameters_rest(ps.push(p)) =~= ser_parameters_rest(ps) + seq![COMMA]
            + ser_parameter(p));
    } else {
        assert(ps.push(p)[0] == ps[0]);
        assert(ps.push(p).drop_first() =~= ps.drop_first().push(p));
        lemma_ser_parameters_rest_snoc(ps.drop_first(), p);
        assert(ser_parameters_rest(ps.push(p)) =~= ser_parameters_rest(ps) + seq![COMMA]
            + ser_parameter(p));
    }
}

pub open spec fn p_parameters_rest(s: Seq<u8>) -> Option<(Seq<ParameterV>, Seq<u8>)>
    decreases s.len(),
{
    if s.len() == 0 {
        None
    } else if s[0] == RBRACKET {
        Some((Seq::empty(), s.drop_first()))
    } else if s[0] == COMMA {
        match p_parameter(s.drop_first()) {
            Some(pr) => if pr.1.len() < s.len() {
                match p_parameters_rest(pr.1) {
                    Some(tl) => Some((seq![pr.0] + tl.0, tl.1)),
                    None => None,
                }
            } else {
                None
            },
            None => None,
        }
    } else {
        None
    }
}

pub open spec fn p_parameters(s: Seq<u8>) -> Option<(Seq<ParameterV>, Seq<u8>)> {
    if s.len() >= 2 && s[0] == LBRACKET && s[1] == RBRACKET {
        Some((Seq::empty(), s.skip(2)))
    } else if s.len() > 0 && s[0] == LBRACKET {
        match p_parameter(s.drop_first()) {
            Some(pr) => match p_parameters_rest(pr.1) {
                Some(tl) => Some((seq![pr.0] + tl.0, tl.1)),
                None => None,
            },
            None => None,
        }
    } else {
        None
    }
}

#[verifier::rlimit(50)]
pub proof fn lemma_p_parameters_rest_ser(ps: Seq<ParameterV>, rest: Seq<u8>)
    ensures
        p_parameters_rest(ser_parameters_rest(ps) + seq![RBRACKET] + rest) == Some((ps, rest)),
    decreases ps.len(),
{
    let s = ser_parameters_rest(ps) + seq![RBRACKET] + rest;
    if ps.len() == 0 {
        assert(s =~= seq![RBRACKET] + rest);
        assert(s[0] == RBRACKET);
        assert(s.drop_first() =~= rest);
        assert(ps =~= Seq::<ParameterV>::empty());
    } else {
        let t1 = ser_parameters_rest(ps.drop_first()) + seq![RBRACKET] + rest;
        let t0 = ser_parameter(ps[0]) + t1;
        assert(s =~= seq![COMMA] + t0);
        assert(s[0] == COMMA);
        assert(s[0] != RBRACKET);
        assert(s.drop_first() =~= t0);
        lemma_p_parameter_ser(ps[0], t1);
        lemma_p_parameters_rest_ser(ps.drop_first(), rest);
        assert(t1.len() < s.len());
        assert(seq![ps[0]] + ps.drop_first() =~= ps);
    }
}

#[verifier::rlimit(50)]
pub proof fn lemma_p_parameters_ser(ps: Seq<ParameterV>, rest: Seq<u8>)
    ensures
        p_parameters(ser_parameters(ps) + rest) == Some((ps, rest)),
{
    let s = ser_parameters(ps) + rest;
    if ps.len() == 0 {
        assert(s =~= seq![LBRACKET, RBRACKET] + rest);
        assert(s[0] == LBRACKET && s[1] == RBRACKET);
        assert(s.skip(2) =~= rest);
        assert(ps =~= Seq::<ParameterV>::empty());
    } else {
        let t1 = ser_parameters_rest(ps.drop_first()) + seq![RBRACKET] + rest;
        let t0 = ser_parameter(ps[0]) + t1;
        assert(s =~= seq![LBRACKET] + t0);
        assert(s[0] == LBRACKET);
        lemma_ser_parameter_first(ps[0]);
        assert(s[1] == ser_parameter(ps[0])[0]);
        assert(s[1] == LBRACE);
        assert(s[1] != RBRACKET);
        assert(s.drop_first() =~= t0);
        lemma_p_parameter_ser(ps[0], t1);
        lemma_p_parameters_rest_ser(ps.drop_first(), rest);
        assert(seq![ps[0]] + ps.drop_first() =~= ps);
    }
}

/// A saved-request object.
#[verifier::opaque]
pub open spec fn ser_api(a: ApiV) -> Seq<u8> {
    seq![LBRACE] + lit("\"id\":") + ser_string(a.id) + lit(",\"name\":") + ser_string(a.name)
        + lit(",\"method\":") + ser_string(a.method) + lit(",\"url\":") + ser_string(a.url)
        + lit(",\"headers\":") + ser_headers(a.headers) + lit(",\"parameters\":")
        + ser_parameters(a.parameters) + lit(",\"body\":") + ser_string(a.body) + seq![RBRACE]
}

#[verifier::opaque]
pub open spec fn p_api(s: Seq<u8>) -> Option<(ApiV, Seq<u8>)> {
    if s.len() > 0 && s[0] == LBRACE {
        match p_lit(s.drop_first(), lit("\"id\":")) {
            Some(s1) => match p_string(s1) {
                Some(idr) => match p_lit(idr.1, lit(",\"name\":")) {
                    Some(s2) => match p_string(s2) {
                        Some(nr) => match p_lit(nr.1, lit(",\"method\":")) {
                            Some(s3) => match p_string(s3) {
                                Some(mr) => match p_lit(mr.1, lit(",\"url\":")) {
                                    Some(s4) => match p_string(s4) {
                                        Some(ur) => match p_lit(ur.1, lit(",\"headers\":")) {
                                            Some(s5) => match p_headers(s5) {
                                                Some(hr) => match p_lit(
                                                    hr.1,
                                                    lit(",\"parameters\":"),
                                                ) {
                                                    Some(s6) => match p_parameters(s6) {
                                                        Some(pr) => match p_lit(
                                                            pr.1,
                                                            lit(",\"body\":"),
                                                        ) {
                                                            Some(s7) => match p_string(s7) {
                                                                Some(br) => if br.1.len() > 0
                                                                    && br.1[0] == RBRACE {
                                                                    Some(
                                                                        (
                                                                            ApiV {
                                                                                id: idr.0,
                                                                                name: nr.0,
                                                                                method: mr.0,
                                                                                url: ur.0,
                                                                                headers: hr.0,
                                                                                parameters: pr.0,
                                                                                body: br.0,
                                                                            },
                                                                            br.1.drop_first(),
                                                                        ),
                                                                    )
                                                                } else {
                                                                    None
                                                                },
                                                                None => None,
                                                            },
                                                            None => None,
                                                        },
                                                        None => None,
                                                    },
                                                    None => None,
                                                },
                                                None => None,
                                            },
                                            None => None,
                                        },
                                        None => None,
                                    },
                                    None => None,
                                },
                                None => None,
                            },
                            None => None,
                        },
                        None => None,
                    },
                    None => None,
                },
                None => None,
            },
            None => None,
        }
    } else {
        None
    }
}

#[verifier::rlimit(100)]
pub proof fn lemma_p_api_ser(a: ApiV, rest: Seq<u8>)
    ensures
        p_api(ser_api(a) + rest) == Some((a, rest)),
{
    let s = ser_api(a) + rest;
    let t14 = seq![RBRACE] + rest;
    let t13 = ser_string(a.body) + t14;
    let t12 = lit(",\"body\":") + t13;
    let t11 = ser_parameters(a.parameters) + t12;
    let t10 = lit(",\"parameters\":") + t11;
    let t9 = ser_headers(a.headers) + t10;
    let t8 = lit(",\"headers\":") + t9;
    let t7 = ser_string(a.url) + t8;
    let t6 = lit(",\"url\":") + t7;
    let t5 = ser_string(a.method) + t6;
    let t4 = lit(",\"method\":") + t5;
    let t3 = ser_string(a.name) + t4;
    let t2 = lit(",\"name\":") + t3;
    let t1 = ser_string(a.id) + t2;
    let t0 = lit("\"id\":") + t1;
    let l1 = seq![LBRACE] + lit("\"id\":");
    let l2 = l1 + ser_string(a.id);
    let l3 = l2 + lit(",\"name\":");
    let l4 = l3 + ser_string(a.name);
    let l5 = l4 + lit(",\"method\":");
    let l6 = l5 + ser_string(a.method);
    let l7 = l6 + lit(",\"url\":");
    let l8 = l7 + ser_string(a.url);
    let l9 = l8 + lit(",\"headers\":");
    let l10 = l9 + ser_headers(a.headers);
    let l11 = l10 + lit(",\"parameters\":");
    let l12 = l11 + ser_parameters(a.parameters);
    let l13 = l12 + lit(",\"body\":");
    let l14 = l13 + ser_string(a.body);
    assert(ser_api(a) == l14 + seq![RBRACE]) by {
        reveal(ser_api);
    }
    lemma_concat_associative(l14, seq![RBRACE], rest);
    lemma_concat_associative(l13, ser_string(a.body), t14);
    lemma_concat_associative(l12, lit(",\"body\":"), t13);
    lemma_concat_associative(l11, ser_parameters(a.parameters), t12);
    lemma_concat_associative(l10, lit(",\"parameters\":"), t11);
    lemma_concat_associative(l9, ser_headers(a.headers), t10);
    lemma_concat_associative(l8, lit(",\"headers\":"), t9);
    lemma_concat_associative(l7, ser_string(a.url), t8);
    lemma_concat_associative(l6, lit(",\"url\":"), t7);
    lemma_concat_associative(l5, ser_string(a.method), t6);
    lemma_concat_associative(l4, lit(",\"method\":"), t5);
    lemma_concat_associative(l3, ser_string(a.name), t4);
    lemma_concat_associative(l2, lit(",\"name\":"), t3);
    lemma_concat_associative(l1, ser_string(a.id), t2);
    lemma_concat_associative(seq![LBRACE], lit("\"id\":"), t1);
    assert(s == seq![LBRACE] + t0);
    assert(s[0] == LBRACE);
    assert(s.drop_first() =~= t0);
    lemma_p_lit(lit("\"id\":"), t1);
    lemma_p_string_ser(a.id, t2);
    lemma_p_lit(lit(",\"name\":"), t3);
    lemma_p_string_ser(a.name, t4);
    lemma_p_lit(lit(",\"method\":"), t5);
    lemma_p_string_ser(a.method, t6);
    lemma_p_lit(lit(",\"url\":"), t7);
    lemma_p_string_ser(a.url, t8);
    lemma_p_lit(lit(",\"headers\":"), t9);
    lemma_p_headers_ser(a.headers, t10);
    lemma_p_lit(lit(",\"parameters\":"), t11);
    lemma_p_parameters_ser(a.parameters, t12);
    lemma_p_lit(lit(",\"body\":"), t13);
    lemma_p_string_ser(a.body, t14);
    assert(t14[0] == RBRACE);
    assert(t14.drop_first() =~= rest);
    let apv = ApiV {
        id: a.id,
        name: a.name,
        method: a.method,
        url: a.url,
        headers: a.headers,
        parameters: a.parameters,
        body: a.body,
    };
    assert(p_api(s) == Some((apv, rest))) by {
        reveal(p_api);
    }
    assert(apv =~= a);
}

/// A rendered saved request starts with an opening brace.
pub proof fn lemma_ser_api_first(a: ApiV)
    ensures
        ser_api(a).len() > 0,
        ser_api(a)[0] == LBRACE,
{
    reveal(ser_api);
}

/// The elements of a saved-request list after the first.
pub open spec fn ser_apis_rest(avs: Seq<ApiV>) -> Seq<u8>
    decreases avs.len(),
{
    if avs.len() == 0 {
        Seq::empty()
    } else {
        seq![COMMA] + ser_api(avs[0]) + ser_apis_rest(avs.drop_first())
    }
}

/// A saved-request list.
pub open spec fn ser_apis(avs: Seq<ApiV>) -> Seq<u8> {
    if avs.len() == 0 {
        seq![LBRACKET, RBRACKET]
    } else {
        seq![LBRACKET] + ser_api(avs[0]) + ser_apis_rest(avs.drop_first()) + seq![RBRACKET]
    }
}

pub proof fn lemma_ser_apis_rest_snoc(avs: Seq<ApiV>, a: ApiV)
    ensures
        ser_apis_rest(avs.push(a)) == ser_apis_rest(avs) + seq![COMMA] + ser_api(a),
    decreases avs.len(),
{
    if avs.len() == 0 {
        assert(avs.push(a) =~= seq![a]);
        assert(seq![a].drop_first() =~= Seq::<ApiV>::empty());
        reveal_with_fuel(ser_apis_rest, 3);
        assert(ser_apis_rest(avs.push(a)) =~= ser_apis_rest(avs) + seq![COMMA] + ser_api(a));
    } else {
        assert(avs.push(a)[0] == avs[0]);
        assert(avs.push(a).drop_first() =~= avs.drop_first().push(a));
        lemma_ser_apis_rest_snoc(avs.drop_first(), a);
        assert(ser_apis_rest(avs.push(a)) =~= ser_apis_rest(avs) + seq![COMMA] + ser_api(a));
    }
}

pub open spec fn p_apis_rest(s: Seq<u8>) -> Option<(Seq<ApiV>, Seq<u8>)>
    decreases s.len(),
{
    if s.len() == 0 {
        None
    } else if s[0] == RBRACKET {
        Some((Seq::empty(), s.drop_first()))
    } else if s[0] == COMMA {
        match p_api(s.drop_first()) {
            Some(ar) => if ar.1.len() < s.len() {
                match p_apis_rest(ar.1) {
                    Some(tl) => Some((seq![ar.0] + tl.0, tl.1)),
                    None => None,
                }
            } else {
                None
            },
            None => None,
        }
    } else {
        None
    }
}

pub open spec fn p_apis(s: Seq<u8>) -> Option<(Seq<ApiV>, Seq<u8>)> {
    if s.len() >= 2 && s[0] == LBRACKET && s[1] == RBRACKET {
        Some((Seq::empty(), s.skip(2)))
    } else if s.len() > 0 && s[0] == LBRACKET {
        match p_api(s.drop_first()) {
            Some(ar) => match p_apis_rest(ar.1) {
                Some(tl) => Some((seq![ar.0] + tl.0, tl.1)),
                None => None,
            },
            None => None,
        }
    } else {
        None
    }
}

#[verifier::rlimit(100)]
pub proof fn lemma_p_apis_rest_ser(avs: Seq<ApiV>, rest: Seq<u8>)
    ensures
        p_apis_rest(ser_apis_rest(avs) + seq![RBRACKET] + rest) == Some((avs, rest)),
    decreases avs.len(),
{
    let s = ser_apis_rest(avs) + seq![RBRACKET] + rest;
    if avs.len() == 0 {
        assert(s =~= seq![RBRACKET] + rest);
        assert(s[0] == RBRACKET);
        assert(s.drop_first() =~= rest);
        assert(avs =~= Seq::<ApiV>::empty());
    } else {
        let t1 = ser_apis_rest(avs.drop_first()) + seq![RBRACKET] + rest;
        let t0 = ser_api(avs[0]) + t1;
        assert(s =~= seq![COMMA] + t0);
        assert(s[0] == COMMA);
        assert(s[0] != RBRACKET);
        assert(s.drop_first() =~= t0);
        lemma_p_api_ser(avs[0], t1);
        lemma_p_apis_rest_ser(avs.drop_first(), rest);
        assert(t1.len() < s.len());
        assert(seq![avs[0]] + avs.drop_first() =~= avs);
    }
}

#[verifier::rlimit(100)]
pub proof fn lemma_p_apis_ser(avs: Seq<ApiV>, rest: Seq<u8>)
    ensures
        p_apis(ser_apis(avs) + rest) == Some((avs, rest)),
{
    let s = ser_apis(avs) + rest;
    if avs.len() == 0 {
        assert(s =~= seq![LBRACKET, RBRACKET] + rest);
        assert(s[0] == LBRACKET && s[1] == RBRACKET);
        assert(s.skip(2) =~= rest);
        assert(avs =~= Seq::<ApiV>::empty());
    } else {
        let t1 = ser_apis_rest(avs.drop_first()) + seq![RBRACKET] + rest;
        let t0 = ser_api(avs[0]) + t1;
        assert(s =~= seq![LBRACKET] + t0);
        assert(s[0] == LBRACKET);
        lemma_ser_api_first(avs[0]);
        assert(s[1] == ser_api(avs[0])[0]);
        assert(s[1] == LBRACE);
        assert(s[1] != RBRACKET);
        assert(s.drop_first() =~= t0);
        lemma_p_api_ser(avs[0], t1);
        lemma_p_apis_rest_ser(avs.drop_first(), rest);
        assert(seq![avs[0]] + avs.drop_first() =~= avs);
    }
}

/// A collection object.
#[verifier::opaque]
pub open spec fn ser_collection(c: CollectionV) -> Seq<u8> {
    seq![LBRACE] + lit("\"id\":") + ser_string(c.id) + lit(",\"name\":") + ser_string(c.name)
        + lit(",\"apis\":") + ser_apis(c.apis) + seq![RBRACE]
}

#[verifier::opaque]
pub open spec fn p_collection(s: Seq<u8>) -> Option<(CollectionV, Seq<u8>)> {
    if s.len() > 0 && s[0] == LBRACE {
        match p_lit(s.drop_first(), lit("\"id\":")) {
            Some(s1) => match p_string(s1) {
                Some(idr) => match p_lit(idr.1, lit(",\"name\":")) {
                    Some(s2) => match p_string(s2) {
                        Some(nr) => match p_lit(nr.1, lit(",\"apis\":")) {
                            Some(s3) => match p_apis(s3) {
                                Some(ar) => if ar.1.len() > 0 && ar.1[0] == RBRACE {
                                    Some(
                                        (
                                            CollectionV { id: idr.0, name: nr.0, apis: ar.0 },
                                            ar.1.drop_first(),
                                        ),
                                    )
                                } else {
                                    None
                                },
                                None => None,
                            },
                            None => None,
                        },
                        None => None,
                    },
                    None => None,
                },
                None => None,
            },
            None => None,
        }
    } else {
        None
    }
}

#[verifier::rlimit(100)]
pub proof fn lemma_p_collection_ser(c: CollectionV, rest: Seq<u8>)
    ensures
        p_collection(ser_collection(c) + rest) == Some((c, rest)),
{
    reveal(ser_collection);
    reveal(p_collection);
    let s = ser_collection(c) + rest;
    let t6 = seq![RBRACE] + rest;
    let t5 = ser_apis(c.apis) + t6;
    let t4 = lit(",\"apis\":") + t5;
    let t3 = ser_string(c.name) + t4;
    let t2 = lit(",\"name\":") + t3;
    let t1 = ser_string(c.id) + t2;
    let t0 = lit("\"id\":") + t1;
    assert(s =~= seq![LBRACE] + t0);
    assert(s[0] == LBRACE);
    assert(s.drop_first() =~= t0);
    lemma_p_lit(lit("\"id\":"), t1);
    lemma_p_string_ser(c.id, t2);
    lemma_p_lit(lit(",\"name\":"), t3);
    lemma_p_string_ser(c.name, t4);
    lemma_p_lit(lit(",\"apis\":"), t5);
    lemma_p_apis_ser(c.apis, t6);
    assert(t6[0] == RBRACE);
    assert(t6.drop_first() =~= rest);
    assert((CollectionV { id: c.id, name: c.name, apis: c.apis }) =~= c);
}

/// A rendered collection starts with an opening brace.
pub proof fn lemma_ser_collection_first(c: CollectionV)
    ensures
        ser_collection(c).len() > 0,
        ser_collection(c)[0] == LBRACE,
{
    reveal(ser_collection);
}

/// The elements of a collection list after the first.
pub open spec fn ser_collections_rest(cs: Seq<CollectionV>) -> Seq<u8>
    decreases cs.len(),
{
    if cs.len() == 0 {
        Seq::empty()
    } else {
        seq![COMMA] + ser_collection(cs[0]) + ser_collections_rest(cs.drop_first())
    }
}

/// A collection list.
pub open spec fn ser_collections(cs: Seq<CollectionV>) -> Seq<u8> {
    if cs.len() == 0 {
        seq![LBRACKET, RBRACKET]
    } else {
        seq![LBRACKET] + ser_collection(cs[0]) + ser_collections_rest(cs.drop_first())
            + seq![RBRACKET]
    }
}

pub proof fn lemma_ser_collections_rest_snoc(cs: Seq<CollectionV>, c: CollectionV)
    ensures
        ser_collections_rest(cs.push(c)) == ser_collections_rest(cs) + seq![COMMA]
            + ser_collection(c),
    decreases cs.len(),
{
    if cs.len() == 0 {
        assert(cs.push(c) =~= seq![c]);
        assert(seq![c].drop_first() =~= Seq::<CollectionV>::empty());
        reveal_with_fuel(ser_collections_rest, 3);
        assert(ser_collections_rest(cs.push(c)) =~= ser_collections_rest(cs) + seq![COMMA]
            + ser_collection(c));
    } else {
        assert(cs.push(c)[0] == cs[0]);
        assert(cs.push(c).drop_first() =~= cs.drop_first().push(c));
        lemma_ser_collections_rest_snoc(cs.drop_first(), c);
        assert(ser_collections_rest(cs.push(c)) =~= ser_collections_rest(cs) + seq![COMMA]
            + ser_collection(c));
    }
}

pub open spec fn p_collections_rest(s: Seq<u8>) -> Option<(Seq<CollectionV>, Seq<u8>)>
    decreases s.len(),
{
    if s.len() == 0 {
        None
    } else if s[0] == RBRACKET {
        Some((Seq::empty(), s.drop_first()))
    } else if s[0] == COMMA {
        match p_collection(s.drop_first()) {
            Some(cr) => if cr.1.len() < s.len() {
                match p_collections_rest(cr.1) {
                    Some(tl) => Some((seq![cr.0] + tl.0, tl.1)),
                    None => None,
                }
            } else {
                None
            },
            None => None,
        }
    } else {
        None
    }
}

pub open spec fn p_collections(s: Seq<u8>) -> Option<(Seq<CollectionV>, Seq<u8>)> {
    if s.len() >= 2 && s[0] == LBRACKET && s[1] == RBRACKET {
        Some((Seq::empty(), s.skip(2)))
    } else if s.len() > 0 && s[0] == LBRACKET {
        match p_collection(s.drop_first()) {
            Some(cr) => match p_collections_rest(cr.1) {
                Some(tl) => Some((seq![cr.0] + tl.0, tl.1)),
                None => None,
            },
            None => None,
        }
    } else {
        None
    }
}

#[verifier::rlimit(100)]
pub proof fn lemma_p_collections_rest_ser(cs: Seq<CollectionV>, rest: Seq<u8>)
    ensures
        p_collections_rest(ser_collections_rest(cs) + seq![RBRACKET] + rest) == Some((cs, rest)),
    decreases cs.len(),
{
    let s = ser_collections_rest(cs) + seq![RBRACKET] + rest;
    if cs.len() == 0 {
        assert(s =~= seq![RBRACKET] + rest);
        assert(s[0] == RBRACKET);
        assert(s.drop_first() =~= rest);
        assert(cs =~= Seq::<CollectionV>::empty());
    } else {
        let t1 = ser_collections_rest(cs.drop_first()) + seq![RBRACKET] + rest;
        let t0 = ser_collection(cs[0]) + t1;
        assert(s =~= seq![COMMA] + t0);
        assert(s[0] == COMMA);
        assert(s[0] != RBRACKET);
        assert(s.drop_first() =~= t0);
        lemma_p_collection_ser(cs[0], t1);
        lemma_p_collections_rest_ser(cs.drop_first(), rest);
        assert(t1.len() < s.len());
        assert(seq![cs[0]] + cs.drop_first() =~= cs);
    }
}

#[verifier::rlimit(100)]
pub proof fn lemma_p_collections_ser(cs: Seq<CollectionV>, rest: Seq<u8>)
    ensures
        p_collections(ser_collections(cs) + rest) == Some((cs, rest)),
{
    let s = ser_collections(cs) + rest;
    if cs.len() == 0 {
        assert(s =~= seq![LBRACKET, RBRACKET] + rest);
        assert(s[0] == LBRACKET && s[1] == RBRACKET);
        assert(s.skip(2) =~= rest);
        assert(cs =~= Seq::<CollectionV>::empty());
    } else {
        let t1 = ser_collections_rest(cs.drop_first()) + seq![RBRACKET] + rest;
        let t0 = ser_collection(cs[0]) + t1;
        assert(s =~= seq![LBRACKET] + t0);
        assert(s[0] == LBRACKET);
        lemma_ser_collection_first(cs[0]);
        assert(s[1] == ser_collection(cs[0])[0]);
        assert(s[1] == LBRACE);
        assert(s[1] != RBRACKET);
        assert(s.drop_first() =~= t0);
        lemma_p_collection_ser(cs[0], t1);
        lemma_p_collections_rest_ser(cs.drop_first(), rest);
        assert(seq![cs[0]] + cs.drop_first() =~= cs);
    }
}

/// The whole document object.
pub open spec fn ser_app_data(d: AppDataV) -> Seq<u8> {
    seq![LBRACE] + lit("\"collections\":") + ser_collections(d.collections) + lit(",\"apis\":")
        + ser_apis(d.apis) + seq![RBRACE]
}

pub open spec fn p_app_data(s: Seq<u8>) -> Option<(AppDataV, Seq<u8>)> {
    if s.len() > 0 && s[0] == LBRACE {
        match p_lit(s.drop_first(), lit("\"collections\":")) {
            Some(s1) => match p_collections(s1) {
                Some(cr) => match p_lit(cr.1, lit(",\"apis\":")) {
                    Some(s2) => match p_apis(s2) {
                        Some(ar) => if ar.1.len() > 0 && ar.1[0] == RBRACE {
                            Some(
                                (
                                    AppDataV { collections: cr.0, apis: ar.0 },
                                    ar.1.drop_first(),
                                ),
                            )
                        } else {
                            None
                        },
                        None => None,
                    },
                    None => None,
                },
                None => None,
            },
            None => None,
        }
    } else {
        None
    }
}

#[verifier::rlimit(100)]
pub proof fn lemma_p_app_data_ser(d: AppDataV, rest: Seq<u8>)
    ensures
        p_app_data(ser_app_data(d) + rest) == Some((d, rest)),
{
    let s = ser_app_data(d) + rest;
    let t4 = seq![RBRACE] + rest;
    let t3 = ser_apis(d.apis) + t4;
    let t2 = lit(",\"apis\":") + t3;
    let t1 = ser_collections(d.collections) + t2;
    let t0 = lit("\"collections\":") + t1;
    assert(s =~= seq![LBRACE] + t0);
    assert(s[0] == LBRACE);
    assert(s.drop_first() =~= t0);
    lemma_p_lit(lit("\"collections\":"), t1);
    lemma_p_collections_ser(d.collections, t2);
    lemma_p_lit(lit(",\"apis\":"), t3);
    lemma_p_apis_ser(d.apis, t4);
    assert(t4[0] == RBRACE);
    assert(t4.drop_first() =~= rest);
    assert((AppDataV { collections: d.collections, apis: d.apis }) =~= d);
}

/// Parse a whole input as one document: the document object with
/// nothing after it.
pub open spec fn parse_document(s: Seq<u8>) -> Option<AppDataV> {
    match p_app_data(s) {
        Some(dr) => if dr.1.len() == 0 {
            Some(dr.0)
        } else {
            None
        },
        None => None,
    }
}

/// Round trip: parsing a serialized document yields the document back.
/// With the contracts of `to_json` and `from_json` this is what makes a
/// save/load/save cycle reproduce the persisted bytes exactly.
pub proof fn lemma_parse_ser_app_data(d: AppDataV)
    ensures
        parse_document(ser_app_data(d)) == Some(d),
{
    lemma_p_app_data_ser(d, Seq::empty());
    assert(ser_app_data(d) + Seq::<u8>::empty() =~= ser_app_data(d));
}


/// Parse the exact literal `l` at position `i`, executably.
pub fn parse_lit(s: &[u8], i: usize, l: &[u8]) -> (r: Option<usize>)
    requires
        i <= s@.len(),
    ensures
        match r {
            Some(j) => i <= j <= s@.len() && p_lit(s@.skip(i as int), l@) == Some(
                s@.skip(j as int),
            ),
            None => p_lit(s@.skip(i as int), l@) is None,
        },
{
    if s.len() - i < l.len() {
        return None;
    }
    let sub = &s[i..i + l.len()];
    let ghost tail = s@.skip(i as int);
    proof {
        assert(tail.take(l@.len() as int) =~= s@.subrange(i as int, i + l@.len()));
    }
    if slice_eq(sub, l) {
        proof {
            assert(tail.skip(l@.len() as int) =~= s@.skip(i + l@.len()));
        }
        Some(i + l.len())
    } else {
        None
    }
}

/// Append the rendering of one header to `out`.
pub fn write_header(out: &mut Vec<u8>, h: &Header)
    ensures
        final(out)@ == old(out)@ + ser_header(h@),
{
    let mut tmp: Vec<u8> = Vec::new();
    tmp.push(LBRACE);
    write_slice(&mut tmp, "\"key\":".as_bytes());
    write_string(&mut tmp, &h.key);
    write_slice(&mut tmp, ",\"value\":".as_bytes());
    write_string(&mut tmp, &h.value);
    let ghost before = tmp@;
    tmp.push(RBRACE);
    proof {
        assert(Seq::<u8>::empty().push(LBRACE) =~= seq![LBRACE]);
        assert(Seq::<u8>::empty() + seq![LBRACE] =~= seq![LBRACE]);
        assert(before.push(RBRACE) =~= before + seq![RBRACE]);
        assert(tmp@ == ser_header(h@)) by {
            reveal(ser_header);
        }
    }
    write_slice(out, tmp.as_slice());
}

/// Append the rendering of one parameter to `out`.
pub fn write_parameter(out: &mut Vec<u8>, p: &Parameter)
    ensures
        final(out)@ == old(out)@ + ser_parameter(p@),
{
    let mut tmp: Vec<u8> = Vec::new();
    tmp.push(LBRACE);
    write_slice(&mut tmp, "\"parameter_type\":".as_bytes());
    write_string(&mut tmp, &p.parameter_type);
    write_slice(&mut tmp, ",\"key\":".as_bytes());
    write_string(&mut tmp, &p.key);
    write_slice(&mut tmp, ",\"value\":".as_bytes());
    write_string(&mut tmp, &p.value);
    let ghost before = tmp@;
    tmp.push(RBRACE);
    proof {
        assert(Seq::<u8>::empty().push(LBRACE) =~= seq![LBRACE]);
        assert(Seq::<u8>::empty() + seq![LBRACE] =~= seq![LBRACE]);
        assert(before.push(RBRACE) =~= before + seq![RBRACE]);
        assert(tmp@ == ser_parameter(p@)) by {
            reveal(ser_parameter);
        }
    }
    write_slice(out, tmp.as_slice());
}

/// Append the rendering of a header list to `out`.
pub fn write_headers(out: &mut Vec<u8>, hs: &Vec<Header>)
    ensures
        final(out)@ == old(out)@ + ser_headers(headers_view(hs@)),
{
    let ghost v = headers_view(hs@);
    if hs.len() == 0 {
        out.push(LBRACKET);
        out.push(RBRACKET);
        proof {
            assert(out@ =~= old(out)@ + seq![LBRACKET, RBRACKET]);
        }
        return;
    }
    let mut tmp: Vec<u8> = Vec::new();
    tmp.push(LBRACKET);
    write_header(&mut tmp, &hs[0]);
    proof {
        assert(v[0] == hs@[0]@);
        assert(Seq::<u8>::empty().push(LBRACKET) =~= seq![LBRACKET]);
        assert(tmp@ == seq![LBRACKET] + ser_header(v[0]) + ser_headers_rest(v.subrange(1, 1))) by {
            assert(v.subrange(1, 1) =~= Seq::<HeaderV>::empty());
            assert(ser_headers_rest(v.subrange(1, 1)) =~= Seq::<u8>::empty());
            assert(seq![LBRACKET] + ser_header(v[0]) + Seq::<u8>::empty() =~= seq![LBRACKET]
                + ser_header(v[0]));
        }
    }
    let mut i: usize = 1;
    while i < hs.len()
        invariant
            1 <= i <= hs@.len(),
            v == headers_view(hs@),
            v.len() == hs@.len(),
            tmp@ == seq![LBRACKET] + ser_header(v[0]) + ser_headers_rest(v.subrange(1, i as int)),
        decreases hs@.len() - i,
    {
        let ghost pre = v.subrange(1, i as int);
        tmp.push(COMMA);
        write_header(&mut tmp, &hs[i]);
        proof {
            assert(v[i as int] == hs@[i as int]@);
            assert(v.subrange(1, i + 1 as int) =~= pre.push(v[i as int]));
            lemma_ser_headers_rest_snoc(pre, v[i as int]);
            assert((seq![LBRACKET] + ser_header(v[0]) + ser_headers_rest(pre)).push(COMMA)
                =~= seq![LBRACKET] + ser_header(v[0]) + ser_headers_rest(pre) + seq![COMMA]);
            assert(tmp@ =~= seq![LBRACKET] + ser_header(v[0]) + ser_headers_rest(
                v.subrange(1, i + 1 as int),
            ));
        }
        i = i + 1;
    }
    let ghost before = tmp@;
    tmp.push(RBRACKET);
    proof {
        assert(v.subrange(1, v.len() as int) =~= v.drop_first());
        assert(before.push(RBRACKET) =~= before + seq![RBRACKET]);
        assert(tmp@ == ser_headers(v));
    }
    write_slice(out, tmp.as_slice());
}

/// Append the rendering of a parameter list to `out`.
pub fn write_parameters(out: &mut Vec<u8>, ps: &Vec<Parameter>)
    ensures
        final(out)@ == old(out)@ + ser_parameters(parameters_view(ps@)),
{
    let ghost v = parameters_view(ps@);
    if ps.len() == 0 {
        out.push(LBRACKET);
        out.push(RBRACKET);
        proof {
            assert(out@ =~= old(out)@ + seq![LBRACKET, RBRACKET]);
        }
        return;
    }
    let mut tmp: Vec<u8> = Vec::new();
    tmp.push(LBRACKET);
    write_parameter(&mut tmp, &ps[0]);
    proof {
        assert(v[0] == ps@[0]@);
        assert(Seq::<u8>::empty().push(LBRACKET) =~= seq![LBRACKET]);
        assert(tmp@ == seq![LBRACKET] + ser_parameter(v[0]) + ser_parameters_rest(
            v.subrange(1, 1),
        )) by {
            assert(v.subrange(1, 1) =~= Seq::<ParameterV>::empty());
            assert(ser_parameters_rest(v.subrange(1, 1)) =~= Seq::<u8>::empty());
            assert(seq![LBRACKET] + ser_parameter(v[0]) + Seq::<u8>::empty() =~= seq![LBRACKET]
                + ser_parameter(v[0]));
        }
    }
    let mut i: usize = 1;
    while i < ps.len()
        invariant
            1 <= i <= ps@.len(),
            v == parameters_view(ps@),
            v.len() == ps@.len(),
            tmp@ == seq![LBRACKET] + ser_parameter(v[0]) + ser_parameters_rest(
                v.subrange(1, i as int),
            ),
        decreases ps@.len() - i,
    {
        let ghost pre = v.subrange(1, i as int);
        tmp.push(COMMA);
        write_parameter(&mut tmp, &ps[i]);
        proof {
            assert(v[i as int] == ps@[i as int]@);
            assert(v.subrange(1, i + 1 as int) =~= pre.push(v[i as int]));
            lemma_ser_parameters_rest_snoc(pre, v[i as int]);
            assert((seq![LBRACKET] + ser_parameter(v[0]) + ser_parameters_rest(pre)).push(COMMA)
                =~= seq![LBRACKET] + ser_parameter(v[0]) + ser_parameters_rest(pre) + seq![COMMA]);
            assert(tmp@ =~= seq![LBRACKET] + ser_parameter(v[0]) + ser_parameters_rest(
                v.subrange(1, i + 1 as int),
            ));
        }
        i = i + 1;
    }
    let ghost before = tmp@;
    tmp.push(RBRACKET);
    proof {
        assert(v.subrange(1, v.len() as int) =~= v.drop_first());
        assert(before.push(RBRACKET) =~= before + seq![RBRACKET]);
        assert(tmp@ == ser_parameters(v));
    }
    write_slice(out, tmp.as_slice());
}

/// Append the rendering of one saved request to `out`.
pub fn write_api(out: &mut Vec<u8>, a: &Api)
    ensures
        final(out)@ == old(out)@ + ser_api(a@),
{
    let mut tmp: Vec<u8> = Vec::new();
    tmp.push(LBRACE);
    write_slice(&mut tmp, "\"id\":".as_bytes());
    write_string(&mut tmp, &a.id);
    write_slice(&mut tmp, ",\"name\":".as_bytes());
    write_string(&mut tmp, &a.name);
    write_slice(&mut tmp, ",\"method\":".as_bytes());
    write_string(&mut tmp, &a.method);
    write_slice(&mut tmp, ",\"url\":".as_bytes());
    write_string(&mut tmp, &a.url);
    write_slice(&mut tmp, ",\"headers\":".as_bytes());
    write_headers(&mut tmp, &a.headers);
    write_slice(&mut tmp, ",\"parameters\":".as_bytes());
    write_parameters(&mut tmp, &a.parameters);
    write_slice(&mut tmp, ",\"body\":".as_bytes());
    write_string(&mut tmp, &a.body);
    let ghost before = tmp@;
    tmp.push(RBRACE);
    proof {
        assert(Seq::<u8>::empty().push(LBRACE) =~= seq![LBRACE]);
        assert(Seq::<u8>::empty() + seq![LBRACE] =~= seq![LBRACE]);
        assert(before.push(RBRACE) =~= before + seq![RBRACE]);
        assert(tmp@ == ser_api(a@)) by {
            reveal(ser_api);
        }
    }
    write_slice(out, tmp.as_slice());
}

/// Append the rendering of a saved-request list to `out`.
pub fn write_apis(out: &mut Vec<u8>, avs: &Vec<Api>)
    ensures
        final(out)@ == old(out)@ + ser_apis(apis_view(avs@)),
{
    let ghost v = apis_view(avs@);
    if avs.len() == 0 {
        out.push(LBRACKET);
        out.push(RBRACKET);
        proof {
            assert(out@ =~= old(out)@ + seq![LBRACKET, RBRACKET]);
        }
        return;
    }
    let mut tmp: Vec<u8> = Vec::new();
    tmp.push(LBRACKET);
    write_api(&mut tmp, &avs[0]);
    proof {
        assert(v[0] == avs@[0]@);
        assert(Seq::<u8>::empty().push(LBRACKET) =~= seq![LBRACKET]);
        assert(tmp@ == seq![LBRACKET] + ser_api(v[0]) + ser_apis_rest(v.subrange(1, 1))) by {
            assert(v.subrange(1, 1) =~= Seq::<ApiV>::empty());
            assert(ser_apis_rest(v.subrange(1, 1)) =~= Seq::<u8>::empty());
            assert(seq![LBRACKET] + ser_api(v[0]) + Seq::<u8>::empty() =~= seq![LBRACKET]
                + ser_api(v[0]));
        }
    }
    let mut i: usize = 1;
    while i < avs.len()
        invariant
            1 <= i <= avs@.len(),
            v == apis_view(avs@),
            v.len() == avs@.len(),
            tmp@ == seq![LBRACKET] + ser_api(v[0]) + ser_apis_rest(v.subrange(1, i as int)),
        decreases avs@.len() - i,
    {
        let ghost pre = v.subrange(1, i as int);
        tmp.push(COMMA);
        write_api(&mut tmp, &avs[i]);
        proof {
            assert(v[i as int] == avs@[i as int]@);
            assert(v.subrange(1, i + 1 as int) =~= pre.push(v[i as int]));
            lemma_ser_apis_rest_snoc(pre, v[i as int]);
            assert((seq![LBRACKET] + ser_api(v[0]) + ser_apis_rest(pre)).push(COMMA)
                =~= seq![LBRACKET] + ser_api(v[0]) + ser_apis_rest(pre) + seq![COMMA]);
            assert(tmp@ =~= seq![LBRACKET] + ser_api(v[0]) + ser_apis_rest(
                v.subrange(1, i + 1 as int),
            ));
        }
        i = i + 1;
    }
    let ghost before = tmp@;
    tmp.push(RBRACKET);
    proof {
        assert(v.subrange(1, v.len() as int) =~= v.drop_first());
        assert(before.push(RBRACKET) =~= before + seq![RBRACKET]);
        assert(tmp@ == ser_apis(v));
    }
    write_slice(out, tmp.as_slice());
}

/// Append the rendering of one collection to `out`.
pub fn write_collection(out: &mut Vec<u8>, c: &Collection)
    ensures
        final(out)@ == old(out)@ + ser_collection(c@),
{
    let mut tmp: Vec<u8> = Vec::new();
    tmp.push(LBRACE);
    write_slice(&mut tmp, "\"id\":".as_bytes());
    write_string(&mut tmp, &c.id);
    write_slice(&mut tmp, ",\"name\":".as_bytes());
    write_string(&mut tmp, &c.name);
    write_slice(&mut tmp, ",\"apis\":".as_bytes());
    write_apis(&mut tmp, &c.apis);
    let ghost before = tmp@;
    tmp.push(RBRACE);
    proof {
        assert(Seq::<u8>::empty().push(LBRACE) =~= seq![LBRACE]);
        assert(Seq::<u8>::empty() + seq![LBRACE] =~= seq![LBRACE]);
        assert(before.push(RBRACE) =~= before + seq![RBRACE]);
        assert(tmp@ == ser_collection(c@)) by {
            reveal(ser_collection);
        }
    }
    write_slice(out, tmp.as_slice());
}

/// Append the rendering of a collection list to `out`.
pub fn write_collections(out: &mut Vec<u8>, cs: &Vec<Collection>)
    ensures
        final(out)@ == old(out)@ + ser_collections(collections_view(cs@)),
{
    let ghost v = collections_view(cs@);
    if cs.len() == 0 {
        out.push(LBRACKET);
        out.push(RBRACKET);
        proof {
            assert(out@ =~= old(out)@ + seq![LBRACKET, RBRACKET]);
        }
        return;
    }
    let mut tmp: Vec<u8> = Vec::new();
    tmp.push(LBRACKET);
    write_collection(&mut tmp, &cs[0]);
    proof {
        assert(v[0] == cs@[0]@);
        assert(Seq::<u8>::empty().push(LBRACKET) =~= seq![LBRACKET]);
        assert(tmp@ == seq![LBRACKET] + ser_collection(v[0]) + ser_collections_rest(
            v.subrange(1, 1),
        )) by {
            assert(v.subrange(1, 1) =~= Seq::<CollectionV>::empty());
            assert(ser_collections_rest(v.subrange(1, 1)) =~= Seq::<u8>::empty());
            assert(seq![LBRACKET] + ser_collection(v[0]) + Seq::<u8>::empty() =~= seq![LBRACKET]
                + ser_collection(v[0]));
        }
    }
    let mut i: usize = 1;
    while i < cs.len()
        invariant
            1 <= i <= cs@.len(),
            v == collections_view(cs@),
            v.len() == cs@.len(),
            tmp@ == seq![LBRACKET] + ser_collection(v[0]) + ser_collections_rest(
                v.subrange(1, i as int),
            ),
        decreases cs@.len() - i,
    {
        let ghost pre = v.subrange(1, i as int);
        tmp.push(COMMA);
        write_collection(&mut tmp, &cs[i]);
        proof {
            assert(v[i as int] == cs@[i as int]@);
            assert(v.subrange(1, i + 1 as int) =~= pre.push(v[i as int]));
            lemma_ser_collections_rest_snoc(pre, v[i as int]);
            assert((seq![LBRACKET] + ser_collection(v[0]) + ser_collections_rest(pre)).push(COMMA)
                =~= seq![LBRACKET] + ser_collection(v[0]) + ser_collections_rest(pre)
                + seq![COMMA]);
            assert(tmp@ =~= seq![LBRACKET] + ser_collection(v[0]) + ser_collections_rest(
                v.subrange(1, i + 1 as int),
            ));
        }
        i = i + 1;
    }
    let ghost before = tmp@;
    tmp.push(RBRACKET);
    proof {
        assert(v.subrange(1, v.len() as int) =~= v.drop_first());
        assert(before.push(RBRACKET) =~= before + seq![RBRACKET]);
        assert(tmp@ == ser_collections(v));
    }
    write_slice(out, tmp.as_slice());
}

/// Render the whole document for persistence.  What this returns is
/// exactly what `from_json` and `load_document` accept, and parses
/// back to the same document (`lemma_parse_ser_app_data`).
pub fn save_document(d: &AppData) -> (out: Vec<u8>)
    ensures
        out@ == ser_app_data(d@),
{
    let mut tmp: Vec<u8> = Vec::new();
    tmp.push(LBRACE);
    write_slice(&mut tmp, "\"collections\":".as_bytes());
    write_collections(&mut tmp, &d.collections);
    write_slice(&mut tmp, ",\"apis\":".as_bytes());
    write_apis(&mut tmp, &d.apis);
    let ghost before = tmp@;
    tmp.push(RBRACE);
    proof {
        assert(Seq::<u8>::empty().push(LBRACE) =~= seq![LBRACE]);
        assert(Seq::<u8>::empty() + seq![LBRACE] =~= seq![LBRACE]);
        assert(before.push(RBRACE) =~= before + seq![RBRACE]);
        assert(tmp@ == ser_app_data(d@));
    }
    tmp
}


/// Parse one header object at position `i`, executably.
pub fn parse_header(s: &[u8], i: usize) -> (r: Option<(Header, usize)>)
    requires
        i <= s@.len(),
    ensures
        match r {
            Some(hj) => i < hj.1 <= s@.len() && p_header(s@.skip(i as int)) == Some(
                (hj.0@, s@.skip(hj.1 as int)),
            ),
            None => p_header(s@.skip(i as int)) is None,
        },
{
    proof {
        reveal(p_header);
    }
    let ghost t = s@.skip(i as int);
    if i >= s.len() || s[i] != LBRACE {
        return None;
    }
    proof {
        assert(t[0] == s@[i as int]);
        assert(t.drop_first() =~= s@.skip(i + 1 as int));
    }
    let j0 = match parse_lit(s, i + 1, "\"key\":".as_bytes()) {
        Some(j) => j,
        None => {
            return None;
        },
    };
    let key = match parse_string(s, j0) {
        Some(x) => x,
        None => {
            return None;
        },
    };
    let j1 = match parse_lit(s, key.1, ",\"value\":".as_bytes()) {
        Some(j) => j,
        None => {
            return None;
        },
    };
    let value = match parse_string(s, j1) {
        Some(x) => x,
        None => {
            return None;
        },
    };
    let j2 = value.1;
    if j2 >= s.len() || s[j2] != RBRACE {
        proof {
            if j2 < s.len() {
                assert(s@.skip(j2 as int)[0] == s@[j2 as int]);
            }
        }
        return None;
    }
    proof {
        assert(s@.skip(j2 as int)[0] == s@[j2 as int]);
        assert(s@.skip(j2 as int).drop_first() =~= s@.skip(j2 + 1 as int));
        assert((Header { key: key.0, value: value.0 })@ =~= (HeaderV {
            key: key.0@,
            value: value.0@,
        }));
    }
    Some((Header { key: key.0, value: value.0 }, j2 + 1))
}

/// Parse one parameter object at position `i`, executably.
pub fn parse_parameter(s: &[u8], i: usize) -> (r: Option<(Parameter, usize)>)
    requires
        i <= s@.len(),
    ensures
        match r {
            Some(pj) => i < pj.1 <= s@.len() && p_parameter(s@.skip(i as int)) == Some(
                (pj.0@, s@.skip(pj.1 as int)),
            ),
            None => p_parameter(s@.skip(i as int)) is None,
        },
{
    proof {
        reveal(p_parameter);
    }
    let ghost t = s@.skip(i as int);
    if i >= s.len() || s[i] != LBRACE {
        return None;
    }
    proof {
        assert(t[0] == s@[i as int]);
        assert(t.drop_first() =~= s@.skip(i + 1 as int));
    }
    let j0 = match parse_lit(s, i + 1, "\"parameter_type\":".as_bytes()) {
        Some(j) => j,
        None => {
            return None;
        },
    };
    let ptype = match parse_string(s, j0) {
        Some(x) => x,
        None => {
            return None;
        },
    };
    let j1 = match parse_lit(s, ptype.1, ",\"key\":".as_bytes()) {
        Some(j) => j,
        None => {
            return None;
        },
    };
    let key = match parse_string(s, j1) {
        Some(x) => x,
        None => {
            return None;
        },
    };
    let j2 = match parse_lit(s, key.1, ",\"value\":".as_bytes()) {
        Some(j) => j,
        None => {
            return None;
        },
    };
    let value = match parse_string(s, j2) {
        Some(x) => x,
        None => {
            return None;
        },
    };
    let j3 = value.1;
    if j3 >= s.len() || s[j3] != RBRACE {
        proof {
            if j3 < s.len() {
                assert(s@.skip(j3 as int)[0] == s@[j3 as int]);
            }
        }
        return None;
    }
    proof {
        assert(s@.skip(j3 as int)[0] == s@[j3 as int]);
        assert(s@.skip(j3 as int).drop_first() =~= s@.skip(j3 + 1 as int));
        assert((Parameter { parameter_type: ptype.0, key: key.0, value: value.0 })@
            =~= (ParameterV { parameter_type: ptype.0@, key: key.0@, value: value.0@ }));
    }
    Some((Parameter { parameter_type: ptype.0, key: key.0, value: value.0 }, j3 + 1))
}

/// Parse a header list at position `i`, executably.
pub fn parse_headers(s: &[u8], i: usize) -> (r: Option<(Vec<Header>, usize)>)
    requires
        i <= s@.len(),
    ensures
        match r {
            Some(vj) => i < vj.1 <= s@.len() && p_headers(s@.skip(i as int)) == Some(
                (headers_view(vj.0@), s@.skip(vj.1 as int)),
            ),
            None => p_headers(s@.skip(i as int)) is None,
        },
{
    let ghost t = s@.skip(i as int);
    if i >= s.len() || s[i] != LBRACKET {
        return None;
    }
    proof {
        assert(t[0] == s@[i as int]);
    }
    if i + 1 < s.len() && s[i + 1] == RBRACKET {
        let out: Vec<Header> = Vec::new();
        proof {
            assert(t[1] == s@[i + 1 as int]);
            assert(t.skip(2) =~= s@.skip(i + 2 as int));
            assert(headers_view(out@) =~= Seq::<HeaderV>::empty());
        }
        return Some((out, i + 2));
    }
    proof {
        if i + 1 < s.len() {
            assert(t[1] == s@[i + 1 as int]);
        }
        assert(t.drop_first() =~= s@.skip(i + 1 as int));
    }
    let first = match parse_header(s, i + 1) {
        Some(x) => x,
        None => {
            return None;
        },
    };
    let mut acc: Vec<Header> = Vec::new();
    acc.push(first.0);
    let mut cur: usize = first.1;
    proof {
        assert(headers_view(acc@) =~= seq![first.0@]);
    }
    loop
        invariant
            i < cur <= s@.len(),
            t == s@.skip(i as int),
            p_headers(t) == (match p_headers_rest(s@.skip(cur as int)) {
                Some(tl) => Some((headers_view(acc@) + tl.0, tl.1)),
                None => None,
            }),
        decreases s@.len() - cur,
    {
        let ghost tc = s@.skip(cur as int);
        if cur >= s.len() {
            return None;
        }
        proof {
            assert(tc[0] == s@[cur as int]);
        }
        let b = s[cur];
        if b == RBRACKET {
            proof {
                assert(tc.drop_first() =~= s@.skip(cur + 1 as int));
                assert(headers_view(acc@) + Seq::<HeaderV>::empty() =~= headers_view(acc@));
            }
            return Some((acc, cur + 1));
        } else if b == COMMA {
            proof {
                assert(tc.drop_first() =~= s@.skip(cur + 1 as int));
            }
            let nxt = match parse_header(s, cur + 1) {
                Some(x) => x,
                None => {
                    return None;
                },
            };
            let ghost acc0 = acc@;
            acc.push(nxt.0);
            proof {
                let rec = p_headers_rest(s@.skip(nxt.1 as int));
                assert(headers_view(acc@) =~= headers_view(acc0).push(nxt.0@));
                if rec is Some {
                    assert(headers_view(acc0).push(nxt.0@) + rec.unwrap().0 =~= headers_view(acc0)
                        + (seq![nxt.0@] + rec.unwrap().0));
                }
            }
            cur = nxt.1;
        } else {
            return None;
        }
    }
}

/// Parse a parameter list at position `i`, executably.
pub fn parse_parameters(s: &[u8], i: usize) -> (r: Option<(Vec<Parameter>, usize)>)
    requires
        i <= s@.len(),
    ensures
        match r {
            Some(vj) => i < vj.1 <= s@.len() && p_parameters(s@.skip(i as int)) == Some(
                (parameters_view(vj.0@), s@.skip(vj.1 as int)),
            ),
            None => p_parameters(s@.skip(i as int)) is None,
        },
{
    let ghost t = s@.skip(i as int);
    if i >= s.len() || s[i] != LBRACKET {
        return None;
    }
    proof {
        assert(t[0] == s@[i as int]);
    }
    if i + 1 < s.len() && s[i + 1] == RBRACKET {
        let out: Vec<Parameter> = Vec::new();
        proof {
            assert(t[1] == s@[i + 1 as int]);
            assert(t.skip(2) =~= s@.skip(i + 2 as int));
            assert(parameters_view(out@) =~= Seq::<ParameterV>::empty());
        }
        return Some((out, i + 2));
    }
    proof {
        if i + 1 < s.len() {
            assert(t[1] == s@[i + 1 as int]);
        }
        assert(t.drop_first() =~= s@.skip(i + 1 as int));
    }
    let first = match parse_parameter(s, i + 1) {
        Some(x) => x,
        None => {
            return None;
        },
    };
    let mut acc: Vec<Parameter> = Vec::new();
    acc.push(first.0);
    let mut cur: usize = first.1;
    proof {
        assert(parameters_view(acc@) =~= seq![first.0@]);
    }
    loop
        invariant
            i < cur <= s@.len(),
            t == s@.skip(i as int),
            p_parameters(t) == (match p_parameters_rest(s@.skip(cur as int)) {
                Some(tl) => Some((parameters_view(acc@) + tl.0, tl.1)),
                None => None,
            }),
        decreases s@.len() - cur,
    {
        let ghost tc = s@.skip(cur as int);
        if cur >= s.len() {
            return None;
        }
        proof {
            assert(tc[0] == s@[cur as int]);
        }
        let b = s[cur];
        if b == RBRACKET {
            proof {
                assert(tc.drop_first() =~= s@.skip(cur + 1 as int));
                assert(parameters_view(acc@) + Seq::<ParameterV>::empty() =~= parameters_view(
                    acc@,
                ));
            }
            return Some((acc, cur + 1));
        } else if b == COMMA {
            proof {
                assert(tc.drop_first() =~= s@.skip(cur + 1 as int));
            }
            let nxt = match parse_parameter(s, cur + 1) {
                Some(x) => x,
                None => {
                    return None;
                },
            };
            let ghost acc0 = acc@;
            acc.push(nxt.0);
            proof {
                let rec = p_parameters_rest(s@.skip(nxt.1 as int));
                assert(parameters_view(acc@) =~= parameters_view(acc0).push(nxt.0@));
                if rec is Some {
                    assert(parameters_view(acc0).push(nxt.0@) + rec.unwrap().0 =~= parameters_view(
                        acc0,
                    ) + (seq![nxt.0@] + rec.unwrap().0));
                }
            }
            cur = nxt.1;
        } else {
            return None;
        }
    }
}

/// Parse one saved-request object at position `i`, executably.
#[verifier::rlimit(100)]
pub fn parse_api(s: &[u8], i: usize) -> (r: Option<(Api, usize)>)
    requires
        i <= s@.len(),
    ensures
        match r {
            Some(aj) => i < aj.1 <= s@.len() && p_api(s@.skip(i as int)) == Some(
                (aj.0@, s@.skip(aj.1 as int)),
            ),
            None => p_api(s@.skip(i as int)) is None,
        },
{
    proof {
        reveal(p_api);
    }
    let ghost t = s@.skip(i as int);
    if i >= s.len() || s[i] != LBRACE {
        return None;
    }
    proof {
        assert(t[0] == s@[i as int]);
        assert(t.drop_first() =~= s@.skip(i + 1 as int));
    }
    let j0 = match parse_lit(s, i + 1, "\"id\":".as_bytes()) {
        Some(j) => j,
        None => {
            return None;
        },
    };
    let id = match parse_string(s, j0) {
        Some(x) => x,
        None => {
            return None;
        },
    };
    let j1 = match parse_lit(s, id.1, ",\"name\":".as_bytes()) {
        Some(j) => j,
        None => {
            return None;
        },
    };
    let name = match parse_string(s, j1) {
        Some(x) => x,
        None => {
            return None;
        },
    };
    let j2 = match parse_lit(s, name.1, ",\"method\":".as_bytes()) {
        Some(j) => j,
        None => {
            return None;
        },
    };
    let method = match parse_string(s, j2) {
        Some(x) => x,
        None => {
            return None;
        },
    };
    let j3 = match parse_lit(s, method.1, ",\"url\":".as_bytes()) {
        Some(j) => j,
        None => {
            return None;
        },
    };
    let url = match parse_string(s, j3) {
        Some(x) => x,
        None => {
            return None;
        },
    };
    let j4 = match parse_lit(s, url.1, ",\"headers\":".as_bytes()) {
        Some(j) => j,
        None => {
            return None;
        },
    };
    let headers = match parse_headers(s, j4) {
        Some(x) => x,
        None => {
            return None;
        },
    };
    let j5 = match parse_lit(s, headers.1, ",\"parameters\":".as_bytes()) {
        Some(j) => j,
        None => {
            return None;
        },
    };
    let parameters = match parse_parameters(s, j5) {
        Some(x) => x,
        None => {
            return None;
        },
    };
    let j6 = match parse_lit(s, parameters.1, ",\"body\":".as_bytes()) {
        Some(j) => j,
        None => {
            return None;
        },
    };
    let body = match parse_string(s, j6) {
        Some(x) => x,
        None => {
            return None;
        },
    };
    let j7 = body.1;
    if j7 >= s.len() || s[j7] != RBRACE {
        proof {
            if j7 < s.len() {
                assert(s@.skip(j7 as int)[0] == s@[j7 as int]);
            }
        }
        return None;
    }
    let api = Api {
        id: id.0,
        name: name.0,
        method: method.0,
        url: url.0,
        headers: headers.0,
        parameters: parameters.0,
        body: body.0,
    };
    proof {
        assert(s@.skip(j7 as int)[0] == s@[j7 as int]);
        assert(s@.skip(j7 as int).drop_first() =~= s@.skip(j7 + 1 as int));
        assert(api@ =~= (ApiV {
            id: id.0@,
            name: name.0@,
            method: method.0@,
            url: url.0@,
            headers: headers_view(headers.0@),
            parameters: parameters_view(parameters.0@),
            body: body.0@,
        }));
    }
    Some((api, j7 + 1))
}

/// Parse a saved-request list at position `i`, executably.
pub fn parse_apis(s: &[u8], i: usize) -> (r: Option<(Vec<Api>, usize)>)
    requires
        i <= s@.len(),
    ensures
        match r {
            Some(vj) => i < vj.1 <= s@.len() && p_apis(s@.skip(i as int)) == Some(
                (apis_view(vj.0@), s@.skip(vj.1 as int)),
            ),
            None => p_apis(s@.skip(i as int)) is None,
        },
{
    let ghost t = s@.skip(i as int);
    if i >= s.len() || s[i] != LBRACKET {
        return None;
    }
    proof {
        assert(t[0] == s@[i as int]);
    }
    if i + 1 < s.len() && s[i + 1] == RBRACKET {
        let out: Vec<Api> = Vec::new();
        proof {
            assert(t[1] == s@[i + 1 as int]);
            assert(t.skip(2) =~= s@.skip(i + 2 as int));
            assert(apis_view(out@) =~= Seq::<ApiV>::empty());
        }
        return Some((out, i + 2));
    }
    proof {
        if i + 1 < s.len() {
            assert(t[1] == s@[i + 1 as int]);
        }
        assert(t.drop_first() =~= s@.skip(i + 1 as int));
    }
    let first = match parse_api(s, i + 1) {
        Some(x) => x,
        None => {
            return None;
        },
    };
    let mut acc: Vec<Api> = Vec::new();
    acc.push(first.0);
    let mut cur: usize = first.1;
    proof {
        assert(apis_view(acc@) =~= seq![first.0@]);
    }
    loop
        invariant
            i < cur <= s@.len(),
            t == s@.skip(i as int),
            p_apis(t) == (match p_apis_rest(s@.skip(cur as int)) {
                Some(tl) => Some((apis_view(acc@) + tl.0, tl.1)),
                None => None,
            }),
        decreases s@.len() - cur,
    {
        let ghost tc = s@.skip(cur as int);
        if cur >= s.len() {
            return None;
        }
        proof {
            assert(tc[0] == s@[cur as int]);
        }
        let b = s[cur];
        if b == RBRACKET {
            proof {
                assert(tc.drop_first() =~= s@.skip(cur + 1 as int));
                assert(apis_view(acc@) + Seq::<ApiV>::empty() =~= apis_view(acc@));
            }
            return Some((acc, cur + 1));
        } else if b == COMMA {
            proof {
                assert(tc.drop_first() =~= s@.skip(cur + 1 as int));
            }
            let nxt = match parse_api(s, cur + 1) {
                Some(x) => x,
                None => {
                    return None;
                },
            };
            let ghost acc0 = acc@;
            acc.push(nxt.0);
            proof {
                let rec = p_apis_rest(s@.skip(nxt.1 as int));
                assert(apis_view(acc@) =~= apis_view(acc0).push(nxt.0@));
                if rec is Some {
                    assert(apis_view(acc0).push(nxt.0@) + rec.unwrap().0 =~= apis_view(acc0)
                        + (seq![nxt.0@] + rec.unwrap().0));
                }
            }
            cur = nxt.1;
        } else {
            return None;
        }
    }
}

/// Parse one collection object at position `i`, executably.
pub fn parse_collection(s: &[u8], i: usize) -> (r: Option<(Collection, usize)>)
    requires
        i <= s@.len(),
    ensures
        match r {
            Some(cj) => i < cj.1 <= s@.len() && p_collection(s@.skip(i as int)) == Some(
                (cj.0@, s@.skip(cj.1 as int)),
            ),
            None => p_collection(s@.skip(i as int)) is None,
        },
{
    proof {
        reveal(p_collection);
    }
    let ghost t = s@.skip(i as int);
    if i >= s.len() || s[i] != LBRACE {
        return None;
    }
    proof {
        assert(t[0] == s@[i as int]);
        assert(t.drop_first() =~= s@.skip(i + 1 as int));
    }
    let j0 = match parse_lit(s, i + 1, "\"id\":".as_bytes()) {
        Some(j) => j,
        None => {
            return None;
        },
    };
    let id = match parse_string(s, j0) {
        Some(x) => x,
        None => {
            return None;
        },
    };
    let j1 = match parse_lit(s, id.1, ",\"name\":".as_bytes()) {
        Some(j) => j,
        None => {
            return None;
        },
    };
    let name = match parse_string(s, j1) {
        Some(x) => x,
        None => {
            return None;
        },
    };
    let j2 = match parse_lit(s, name.1, ",\"apis\":".as_bytes()) {
        Some(j) => j,
        None => {
            return None;
        },
    };
    let apis = match parse_apis(s, j2) {
        Some(x) => x,
        None => {
            return None;
        },
    };
    let j3 = apis.1;
    if j3 >= s.len() || s[j3] != RBRACE {
        proof {
            if j3 < s.len() {
                assert(s@.skip(j3 as int)[0] == s@[j3 as int]);
            }
        }
        return None;
    }
    let coll = Collection { id: id.0, name: name.0, apis: apis.0 };
    proof {
        assert(s@.skip(j3 as int)[0] == s@[j3 as int]);
        assert(s@.skip(j3 as int).drop_first() =~= s@.skip(j3 + 1 as int));
        assert(coll@ =~= (CollectionV {
            id: id.0@,
            name: name.0@,
            apis: apis_view(apis.0@),
        }));
    }
    Some((coll, j3 + 1))
}

/// Parse a collection list at position `i`, executably.
pub fn parse_collections(s: &[u8], i: usize) -> (r: Option<(Vec<Collection>, usize)>)
    requires
        i <= s@.len(),
    ensures
        match r {
            Some(vj) => i < vj.1 <= s@.len() && p_collections(s@.skip(i as int)) == Some(
                (collections_view(vj.0@), s@.skip(vj.1 as int)),
            ),
            None => p_collections(s@.skip(i as int)) is None,
        },
{
    let ghost t = s@.skip(i as int);
    if i >= s.len() || s[i] != LBRACKET {
        return None;
    }
    proof {
        assert(t[0] == s@[i as int]);
    }
    if i + 1 < s.len() && s[i + 1] == RBRACKET {
        let out: Vec<Collection> = Vec::new();
        proof {
            assert(t[1] == s@[i + 1 as int]);
            assert(t.skip(2) =~= s@.skip(i + 2 as int));
            assert(collections_view(out@) =~= Seq::<CollectionV>::empty());
        }
        return Some((out, i + 2));
    }
    proof {
        if i + 1 < s.len() {
            assert(t[1] == s@[i + 1 as int]);
        }
        assert(t.drop_first() =~= s@.skip(i + 1 as int));
    }
    let first = match parse_collection(s, i + 1) {
        Some(x) => x,
        None => {
            return None;
        },
    };
    let mut acc: Vec<Collection> = Vec::new();
    acc.push(first.0);
    let mut cur: usize = first.1;
    proof {
        assert(collections_view(acc@) =~= seq![first.0@]);
    }
    loop
        invariant
            i < cur <= s@.len(),
            t == s@.skip(i as int),
            p_collections(t) == (match p_collections_rest(s@.skip(cur as int)) {
                Some(tl) => Some((collections_view(acc@) + tl.0, tl.1)),
                None => None,
            }),
        decreases s@.len() - cur,
    {
        let ghost tc = s@.skip(cur as int);
        if cur >= s.len() {
            return None;
        }
        proof {
            assert(tc[0] == s@[cur as int]);
        }
        let b = s[cur];
        if b == RBRACKET {
            proof {
                assert(tc.drop_first() =~= s@.skip(cur + 1 as int));
                assert(collections_view(acc@) + Seq::<CollectionV>::empty() =~= collections_view(
                    acc@,
                ));
            }
            return Some((acc, cur + 1));
        } else if b == COMMA {
            proof {
                assert(tc.drop_first() =~= s@.skip(cur + 1 as int));
            }
            let nxt = match parse_collection(s, cur + 1) {
                Some(x) => x,
                None => {
                    return None;
                },
            };
            let ghost acc0 = acc@;
            acc.push(nxt.0);
            proof {
                let rec = p_collections_rest(s@.skip(nxt.1 as int));
                assert(collections_view(acc@) =~= collections_view(acc0).push(nxt.0@));
                if rec is Some {
                    assert(collections_view(acc0).push(nxt.0@) + rec.unwrap().0
                        =~= collections_view(acc0) + (seq![nxt.0@] + rec.unwrap().0));
                }
            }
            cur = nxt.1;
        } else {
            return None;
        }
    }
}

/// Parse the document object at position `i`, executably.
pub fn parse_app_data(s: &[u8], i: usize) -> (r: Option<(AppData, usize)>)
    requires
        i <= s@.len(),
    ensures
        match r {
            Some(dj) => i < dj.1 <= s@.len() && p_app_data(s@.skip(i as int)) == Some(
                (dj.0@, s@.skip(dj.1 as int)),
            ),
            None => p_app_data(s@.skip(i as int)) is None,
        },
{
    let ghost t = s@.skip(i as int);
    if i >= s.len() || s[i] != LBRACE {
        return None;
    }
    proof {
        assert(t[0] == s@[i as int]);
        assert(t.drop_first() =~= s@.skip(i + 1 as int));
    }
    let j0 = match parse_lit(s, i + 1, "\"collections\":".as_bytes()) {
        Some(j) => j,
        None => {
            return None;
        },
    };
    let collections = match parse_collections(s, j0) {
        Some(x) => x,
        None => {
            return None;
        },
    };
    let j1 = match parse_lit(s, collections.1, ",\"apis\":".as_bytes()) {
        Some(j) => j,
        None => {
            return None;
        },
    };
    let apis = match parse_apis(s, j1) {
        Some(x) => x,
        None => {
            return None;
        },
    };
    let j2 = apis.1;
    if j2 >= s.len() || s[j2] != RBRACE {
        proof {
            if j2 < s.len() {
                assert(s@.skip(j2 as int)[0] == s@[j2 as int]);
            }
        }
        return None;
    }
    let doc = AppData { collections: collections.0, apis: apis.0 };
    proof {
        assert(s@.skip(j2 as int)[0] == s@[j2 as int]);
        assert(s@.skip(j2 as int).drop_first() =~= s@.skip(j2 + 1 as int));
        assert(doc@ =~= (AppDataV {
            collections: collections_view(collections.0@),
            apis: apis_view(apis.0@),
        }));
    }
    Some((doc, j2 + 1))
}

/// Parse a whole input as one document, executably.
pub fn from_json(s: &[u8]) -> (r: Option<AppData>)
    ensures
        match r {
            Some(d) => parse_document(s@) == Some(d@),
            None => parse_document(s@) is None,
        },
{
    proof {
        assert(s@.skip(0) =~= s@);
    }
    match parse_app_data(s, 0) {
        Some(dj) => {
            if dj.1 == s.len() {
                proof {
                    assert(s@.skip(dj.1 as int).len() == 0);
                }
                Some(dj.0)
            } else {
                proof {
                    assert(s@.skip(dj.1 as int).len() > 0);
                }
                None
            }
        },
        None => None,
    }
}

/// Load the persisted document.  A missing file (`None`) is not an
/// error: it yields the empty document.  Bytes that do not parse as a
/// document fail with `Malformed`.
pub fn load_document(contents: Option<&Vec<u8>>) -> (r: Result<AppData, DocumentError>)
    ensures
        match contents {
            None => r matches Ok(d) && d@.collections.len() == 0 && d@.apis.len() == 0,
            Some(bytes) => match parse_document(bytes@) {
                Some(dv) => r matches Ok(d) && d@ == dv,
                None => r == Err::<AppData, DocumentError>(DocumentError::Malformed),
            },
        },
{
    match contents {
        None => Ok(crate::document::empty_document()),
        Some(bytes) => match from_json(bytes.as_slice()) {
            Some(d) => Ok(d),
            None => Err(DocumentError::Malformed),
        },
    }
}

} // verus!
