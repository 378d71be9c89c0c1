//! The tokenizer: a state machine that classifies what follows the cursor and
//! hands it to the recognizer of that production.
use vstd::prelude::*;
use vstd::string::StringSliceAdditionalSpecFns;
use crate::error::{Error, StreamError};
use crate::stream::{
    chars_end, has_prefix_at, lemma_chars_end_bounds, lemma_lit_end_bounds, lemma_name_end_bounds,
    lemma_run_end_bounds, lemma_run_end_stop, lit_end, run_end, text_pos_at, ByteClass, Stream,
};
use crate::strspan::StrSpan;
use crate::xmlchar::{is_letter_byte, is_space_byte, is_xml_letter, is_xml_space};
use crate::{
    error_pos, has_byte, has_double_dash, opt_id_in, opt_span_in, span_in, ElementEnd,
    EntityDefinition, ExternalId, Token, TokenType,
};

verus! {

/// `-->`
pub open spec fn comment_close() -> Seq<u8> {
    seq![0x2Du8, 0x2D, 0x3E]
}

/// `]]>`
pub open spec fn cdata_close() -> Seq<u8> {
    seq![0x5Du8, 0x5D, 0x3E]
}

/// The UTF-8 byte-order mark.
pub open spec fn byte_order_mark() -> Seq<u8> {
    seq![0xEFu8, 0xBB, 0xBF]
}

/// `<!--`
pub open spec fn comment_open() -> Seq<u8> {
    seq![0x3Cu8, 0x21, 0x2D, 0x2D]
}

/// `/>`
pub open spec fn empty_close() -> Seq<u8> {
    seq![0x2Fu8, 0x3E]
}

/// At `p` stands `<` followed by a byte that opens no other markup: an
/// element's start tag begins there.
pub open spec fn start_tag_at(s: Seq<u8>, p: int, e: int) -> bool {
    0 <= p && p + 1 < e && e <= s.len() && s[p] == 0x3C && s[p + 1] != 0x3F && s[p + 1] != 0x21
        && s[p + 1] != 0x2F
}

/// `?>`
pub open spec fn pi_close() -> Seq<u8> {
    seq![0x3Fu8, 0x3E]
}

/// `?xml `
pub open spec fn decl_open() -> Seq<u8> {
    seq![0x3Fu8, 0x78, 0x6D, 0x6C, 0x20]
}

/// At `p` a processing instruction's target is followed by content that
/// `?>` closes.
#[verifier::opaque]
pub open spec fn pi_ok(s: Seq<u8>, p: int, e: int) -> bool {
    match crate::stream::name_end(s, p, e) {
        Some(j) => {
            let q = run_end(s, j, e, ByteClass::Space);
            has_prefix_at(s, chars_end(s, q, e, pi_close()), e, pi_close())
        },
        None => false,
    }
}

/// `<?xml `
pub open spec fn xml_decl_open() -> Seq<u8> {
    seq![0x3Cu8, 0x3F, 0x78, 0x6D, 0x6C, 0x20]
}

/// `version`
pub open spec fn version_kw() -> Seq<u8> {
    seq![0x76u8, 0x65, 0x72, 0x73, 0x69, 0x6F, 0x6E]
}

/// `encoding`
pub open spec fn encoding_kw() -> Seq<u8> {
    seq![0x65u8, 0x6E, 0x63, 0x6F, 0x64, 0x69, 0x6E, 0x67]
}

/// `standalone`
pub open spec fn standalone_kw() -> Seq<u8> {
    seq![0x73u8, 0x74, 0x61, 0x6E, 0x64, 0x61, 0x6C, 0x6F, 0x6E, 0x65]
}

/// A quote stands at `p`.
pub open spec fn quote_at(s: Seq<u8>, p: int, e: int) -> bool {
    0 <= p < e && e <= s.len() && (s[p] == 0x22 || s[p] == 0x27)
}

/// End of the `Eq` production at `p`, if it stands there.
pub open spec fn eq_end(s: Seq<u8>, p: int, e: int) -> Option<int> {
    let a = run_end(s, p, e, ByteClass::Space);
    if a < e && s[a] == 0x3D {
        Some(run_end(s, a + 1, e, ByteClass::Space))
    } else {
        None
    }
}

/// End of `S? 'version' Eq quote '1.' digits quote` at `p`, with the
/// range of the version number.
#[verifier::opaque]
pub open spec fn version_end(s: Seq<u8>, p: int, e: int) -> Option<(int, int, int)> {
    let a = run_end(s, p, e, ByteClass::Space);
    if has_prefix_at(s, a, e, version_kw()) {
        match eq_end(s, a + 7, e) {
            Some(b) => if quote_at(s, b, e) && has_prefix_at(s, b + 1, e, seq![0x31u8, 0x2E]) {
                let d = run_end(s, b + 3, e, ByteClass::Digit);
                if quote_at(s, d, e) {
                    Some((d + 1, b + 1, d))
                } else {
                    None
                }
            } else {
                None
            },
            None => None,
        }
    } else {
        None
    }
}

/// End of the optional `S? 'encoding' Eq quote EncName quote` at `p`, where
/// `EncName` is a letter followed by letters, digits, `.`, `-` and `_`;
/// with the range of the name where the keyword stands.
#[verifier::opaque]
pub open spec fn encoding_end(s: Seq<u8>, p: int, e: int) -> Option<(int, Option<(int, int)>)> {
    let a = run_end(s, p, e, ByteClass::Space);
    if !has_prefix_at(s, a, e, encoding_kw()) {
        Some((a, None))
    } else {
        match eq_end(s, a + 8, e) {
            Some(b) => if quote_at(s, b, e) && b + 1 < e && is_letter_byte(s[b + 1]) {
                let n = run_end(s, b + 1, e, ByteClass::EncName);
                if quote_at(s, n, e) {
                    Some((n + 1, Some((b + 1, n))))
                } else {
                    None
                }
            } else {
                None
            },
            None => None,
        }
    }
}

/// End of the optional `S? 'standalone' Eq quote ('yes' | 'no') quote` at `p`,
/// with the flag it gives: `yes` is true, `no` false, absent none.
#[verifier::opaque]
pub open spec fn standalone_end(s: Seq<u8>, p: int, e: int) -> Option<(int, Option<bool>)> {
    let a = run_end(s, p, e, ByteClass::Space);
    if !has_prefix_at(s, a, e, standalone_kw()) {
        Some((a, None))
    } else {
        match eq_end(s, a + 10, e) {
            Some(b) => if quote_at(s, b, e) {
                match crate::stream::name_end(s, b + 1, e) {
                    Some(j) => if (s.subrange(b + 1, j) == seq![0x79u8, 0x65, 0x73] || s.subrange(
                        b + 1,
                        j,
                    ) == seq![0x6Eu8, 0x6F]) && quote_at(s, j, e) {
                        Some((j + 1, Some(s.subrange(b + 1, j) == seq![0x79u8, 0x65, 0x73])))
                    } else {
                        None
                    },
                    None => None,
                }
            } else {
                None
            },
            None => None,
        }
    }
}

/// `t` is the declaration token that `d`, a result of `decl_end`, describes,
/// read from `src` and ending at `fin`.
#[verifier::opaque]
pub open spec fn decl_is<'a>(
    t: Token<'a>,
    src: &'a str,
    d: Option<(int, (int, int), Option<(int, int)>, Option<bool>)>,
    fin: int,
) -> bool {
    let (w, v, enc, flag) = d->Some_0;
    &&& d is Some && fin == w
    &&& t matches Token::Declaration(ver, en, sa) && ver.covers(src, v.0, v.1) && sa == flag && (
    en is Some <==> enc is Some) && (en matches Some(x) ==> x.covers(
        src,
        enc->Some_0.0,
        enc->Some_0.1,
    ))
}

/// At `p` stand the `standalone` keyword, `=` and a quote, then a name that
/// is neither `yes` nor `no`.
pub open spec fn standalone_bad(s: Seq<u8>, p: int, e: int) -> bool {
    let a = run_end(s, p, e, ByteClass::Space);
    let b = eq_end(s, a + 10, e)->Some_0;
    let j = crate::stream::name_end(s, b + 1, e)->Some_0;
    &&& has_prefix_at(s, a, e, standalone_kw())
    &&& eq_end(s, a + 10, e) is Some
    &&& quote_at(s, b, e)
    &&& crate::stream::name_end(s, b + 1, e) is Some
    &&& s.subrange(b + 1, j) != seq![0x79u8, 0x65, 0x73]
    &&& s.subrange(b + 1, j) != seq![0x6Eu8, 0x6F]
}

/// End of an XML declaration whose `<?xml ` ends at `p`, with the version
/// range, the encoding range and the standalone flag.
#[verifier::opaque]
pub open spec fn decl_end(s: Seq<u8>, p: int, e: int) -> Option<(int, (int, int), Option<(int, int)>, Option<bool>)> {
    match version_end(s, p, e) {
        Some((v, v0, v1)) => match encoding_end(s, v, e) {
            Some((w, enc)) => match standalone_end(s, w, e) {
                Some((x, flag)) => {
                    let y = run_end(s, x, e, ByteClass::Space);
                    if has_prefix_at(s, y, e, pi_close()) {
                        Some((y + 2, (v0, v1), enc, flag))
                    } else {
                        None
                    }
                },
                None => None,
            },
            None => None,
        },
        None => None,
    }
}

/// `SYSTEM`
pub open spec fn system_kw() -> Seq<u8> {
    seq![0x53u8, 0x59, 0x53, 0x54, 0x45, 0x4D]
}

/// `PUBLIC`
pub open spec fn public_kw() -> Seq<u8> {
    seq![0x50u8, 0x55, 0x42, 0x4C, 0x49, 0x43]
}

/// End of the quoted literal that starts at `p`, if one does.
#[verifier::opaque]
pub open spec fn literal_end(s: Seq<u8>, p: int, e: int) -> Option<int> {
    if 0 <= p < e && (s[p] == 0x22 || s[p] == 0x27) {
        let k = run_end(s, p + 1, e, ByteClass::Not(s[p]));
        if k < e {
            Some(k + 1)
        } else {
            None
        }
    } else {
        None
    }
}

/// End of the literal that follows required whitespace at `p`, if any.
#[verifier::opaque]
pub open spec fn spaced_literal_end(s: Seq<u8>, p: int, e: int) -> Option<int> {
    if 0 <= p < e && is_space_byte(s[p]) {
        literal_end(s, run_end(s, p, e, ByteClass::Space), e)
    } else {
        None
    }
}

/// End of the external id at `p`: `p` itself where no keyword stands, none
/// where a keyword stands and what follows is malformed.
#[verifier::opaque]
pub open spec fn ext_id_end(s: Seq<u8>, p: int, e: int) -> Option<int> {
    if has_prefix_at(s, p, e, system_kw()) {
        spaced_literal_end(s, p + 6, e)
    } else if has_prefix_at(s, p, e, public_kw()) {
        match spaced_literal_end(s, p + 6, e) {
            Some(b) => spaced_literal_end(s, b, e),
            None => None,
        }
    } else {
        Some(p)
    }
}

/// `<!ENTITY`
pub open spec fn entity_open() -> Seq<u8> {
    seq![0x3Cu8, 0x21, 0x45, 0x4E, 0x54, 0x49, 0x54, 0x59]
}

/// `]>`
pub open spec fn dtd_close() -> Seq<u8> {
    seq![0x5Du8, 0x3E]
}

/// `NDATA`
pub open spec fn ndata_kw() -> Seq<u8> {
    seq![0x4Eu8, 0x44, 0x41, 0x54, 0x41]
}

/// End of the entity definition at `p`: a quoted value, or an external id
/// that, for a general entity, may be followed by `S 'NDATA' S Name`.
#[verifier::opaque]
pub open spec fn entity_def_end(s: Seq<u8>, p: int, e: int, is_ge: bool) -> Option<int> {
    if quote_at(s, p, e) {
        literal_end(s, p, e)
    } else if has_prefix_at(s, p, e, system_kw()) || has_prefix_at(s, p, e, public_kw()) {
        match ext_id_end(s, p, e) {
            Some(c) => if is_ge {
                let d = run_end(s, c, e, ByteClass::Space);
                if has_prefix_at(s, d, e, ndata_kw()) {
                    if d + 5 < e && is_space_byte(s[d + 5]) {
                        crate::stream::name_end(s, run_end(s, d + 5, e, ByteClass::Space), e)
                    } else {
                        None
                    }
                } else {
                    Some(d)
                }
            } else {
                Some(c)
            },
            None => None,
        }
    } else {
        None
    }
}

/// End of an entity declaration from its name at `n` on: name, whitespace,
/// definition, optional whitespace, `>`.
#[verifier::opaque]
pub open spec fn entity_rest_end(s: Seq<u8>, n: int, e: int, is_ge: bool) -> Option<int> {
    match crate::stream::name_end(s, n, e) {
        Some(j) => if j < e && is_space_byte(s[j]) {
            match entity_def_end(s, run_end(s, j, e, ByteClass::Space), e, is_ge) {
                Some(d) => {
                    let f = run_end(s, d, e, ByteClass::Space);
                    if f < e && s[f] == 0x3E {
                        Some(f + 1)
                    } else {
                        None
                    }
                },
                None => None,
            }
        } else {
            None
        },
        None => None,
    }
}

/// End of an entity declaration whose `<!ENTITY` ends at `p`; a `%` after
/// the keyword marks a parameter entity.
#[verifier::opaque]
pub open spec fn entity_decl_end(s: Seq<u8>, p: int, e: int) -> Option<int> {
    if 0 <= p < e && is_space_byte(s[p]) {
        let a = run_end(s, p, e, ByteClass::Space);
        if a < e && s[a] == 0x25 {
            if a + 1 < e && is_space_byte(s[a + 1]) {
                entity_rest_end(s, run_end(s, a + 1, e, ByteClass::Space), e, false)
            } else {
                None
            }
        } else {
            entity_rest_end(s, a, e, true)
        }
    } else {
        None
    }
}

/// End of the DOCTYPE head whose keyword ends at `p`: whitespace, a name, an
/// optional external id, then `[` or `>`.
#[verifier::opaque]
pub open spec fn doctype_end(s: Seq<u8>, p: int, e: int) -> Option<int> {
    if 0 <= p < e && is_space_byte(s[p]) {
        match crate::stream::name_end(s, run_end(s, p, e, ByteClass::Space), e) {
            Some(j) => match ext_id_end(s, run_end(s, j, e, ByteClass::Space), e) {
                Some(c) => {
                    let d = run_end(s, c, e, ByteClass::Space);
                    if d < e && (s[d] == 0x5B || s[d] == 0x3E) {
                        Some(d + 1)
                    } else {
                        None
                    }
                },
                None => None,
            },
            None => None,
        }
    } else {
        None
    }
}

/// End of the `Name Eq quote value quote S?` that starts at `p`, where the
/// value holds no `<`.
#[verifier::opaque]
pub open spec fn attribute_end(s: Seq<u8>, p: int, e: int) -> Option<int> {
    match crate::stream::name_end(s, p, e) {
        Some(j) => {
            let a = run_end(s, j, e, ByteClass::Space);
            let b = run_end(s, a + 1, e, ByteClass::Space);
            if a < e && s[a] == 0x3D && b < e && (s[b] == 0x22 || s[b] == 0x27) {
                let k = run_end(s, b + 1, e, ByteClass::Not(s[b]));
                if k < e && !has_byte(s.subrange(b + 1, k), 0x3C) {
                    Some(run_end(s, k + 1, e, ByteClass::Space))
                } else {
                    None
                }
            } else {
                None
            }
        },
        None => None,
    }
}

/// At `p` an end tag's name is closed by optional whitespace and `>`.
#[verifier::opaque]
pub open spec fn end_tag_ok(s: Seq<u8>, p: int, e: int) -> bool {
    match crate::stream::name_end(s, p, e) {
        Some(j) => {
            let q = run_end(s, j, e, ByteClass::Space);
            q < e && s[q] == 0x3E
        },
        None => false,
    }
}

/// The comment body that starts at `p` is closed by `-->` and holds no `--`.
#[verifier::opaque]
pub open spec fn comment_ok(s: Seq<u8>, p: int, e: int) -> bool {
    let j = chars_end(s, p, e, comment_close());
    !has_double_dash(s.subrange(p, j)) && has_prefix_at(s, j, e, comment_close())
}

/// `<![CDATA[`
pub open spec fn cdata_open() -> Seq<u8> {
    seq![0x3Cu8, 0x21, 0x5B, 0x43, 0x44, 0x41, 0x54, 0x41, 0x5B]
}

/// `<!DOCTYPE`
pub open spec fn doctype_open() -> Seq<u8> {
    seq![0x3Cu8, 0x21, 0x44, 0x4F, 0x43, 0x54, 0x59, 0x50, 0x45]
}

/// End of a declaration body from `i` on, just past the first `>` outside
/// quotes; `quote` is the quote that is open at `i`, if any.
pub open spec fn decl_skip_end(s: Seq<u8>, i: int, e: int, quote: Option<u8>) -> Option<int>
    decreases e - i,
{
    if i < 0 || i >= e || e > s.len() {
        None
    } else {
        match quote {
            Some(q) => if s[i] == q {
                decl_skip_end(s, i + 1, e, None)
            } else {
                decl_skip_end(s, i + 1, e, Some(q))
            },
            None => if s[i] == 0x3E {
                Some(i + 1)
            } else if s[i] == 0x22 || s[i] == 0x27 {
                decl_skip_end(s, i + 1, e, Some(s[i]))
            } else {
                decl_skip_end(s, i + 1, e, None)
            },
        }
    }
}

/// `a` covers the text of the quoted literal that starts at `i`.
pub open spec fn lit_is<'a>(a: StrSpan<'a>, src: &'a str, i: int, e: int) -> bool {
    a.covers(src, i + 1, literal_end(src.spec_bytes(), i, e)->Some_0 - 1)
}

/// `id` is the external id that starts at `p`: `SYSTEM` with its literal,
/// `PUBLIC` with both, or none where neither keyword stands.
pub open spec fn ext_id_is<'a>(id: Option<ExternalId<'a>>, src: &'a str, p: int, e: int) -> bool {
    let s = src.spec_bytes();
    let i1 = run_end(s, p + 6, e, ByteClass::Space);
    if has_prefix_at(s, p, e, system_kw()) {
        id matches Some(ExternalId::System(a)) && lit_is(a, src, i1, e)
    } else if has_prefix_at(s, p, e, public_kw()) {
        let i2 = run_end(s, literal_end(s, i1, e)->Some_0, e, ByteClass::Space);
        id matches Some(ExternalId::Public(a, b)) && lit_is(a, src, i1, e) && lit_is(b, src, i2, e)
    } else {
        id is None
    }
}

/// `t` is the processing instruction whose target starts at `p`, ending at
/// `fin`: the target, then the content, absent where empty.
#[verifier::opaque]
pub open spec fn pi_is<'a>(t: Token<'a>, src: &'a str, p: int, e: int, fin: int) -> bool {
    let s = src.spec_bytes();
    let j = crate::stream::name_end(s, p, e)->Some_0;
    let q = run_end(s, j, e, ByteClass::Space);
    let c = chars_end(s, q, e, pi_close());
    &&& fin == c + 2
    &&& t matches Token::ProcessingInstruction(tg, ct) && tg.covers(src, p, j) && (ct is None
        <==> q == c) && (ct matches Some(x) ==> x.covers(src, q, c))
}

/// `t` is the DOCTYPE token whose head follows the keyword at `p`: its name
/// and external id.
#[verifier::opaque]
pub open spec fn doctype_is<'a>(t: Token<'a>, src: &'a str, p: int, e: int) -> bool {
    let s = src.spec_bytes();
    let a = run_end(s, p, e, ByteClass::Space);
    let j = crate::stream::name_end(s, a, e)->Some_0;
    let c = run_end(s, j, e, ByteClass::Space);
    match t {
        Token::DtdStart(n, id) => n.covers(src, a, j) && ext_id_is(id, src, c, e),
        Token::EmptyDtd(n, id) => n.covers(src, a, j) && ext_id_is(id, src, c, e),
        _ => false,
    }
}

/// `t` is the entity declaration that follows the keyword at `p`: its name
/// and its definition.
#[verifier::opaque]
pub open spec fn entity_is<'a>(t: Token<'a>, src: &'a str, p: int, e: int) -> bool {
    let s = src.spec_bytes();
    let a = run_end(s, p, e, ByteClass::Space);
    let n = if a < e && s[a] == 0x25 {
        run_end(s, a + 1, e, ByteClass::Space)
    } else {
        a
    };
    let j = crate::stream::name_end(s, n, e)->Some_0;
    let d = run_end(s, j, e, ByteClass::Space);
    match t {
        Token::EntityDeclaration(nm, EntityDefinition::EntityValue(v)) => nm.covers(src, n, j)
            && quote_at(s, d, e) && lit_is(v, src, d, e),
        Token::EntityDeclaration(nm, EntityDefinition::ExternalId(id)) => nm.covers(src, n, j)
            && !quote_at(s, d, e) && ext_id_is(Some(id), src, d, e),
        _ => false,
    }
}

/// `pr` and `lo` are the prefix and local part of the name `[p, j)` of
/// `text`: split at its first `:`, or an empty prefix at `p` where it has none.
pub open spec fn qname_is<'a>(pr: StrSpan<'a>, lo: StrSpan<'a>, text: &'a str, p: int, j: int) -> bool {
    let c = run_end(text.spec_bytes(), p, j, ByteClass::Not(0x3A));
    if c < j {
        pr.covers(text, p, c) && lo.covers(text, c + 1, j)
    } else {
        pr.covers(text, p, p) && lo.covers(text, p, j)
    }
}

/// Offset just after the opening quote of the value of the attribute whose
/// name starts at `q`.
pub open spec fn attr_value_start(s: Seq<u8>, q: int, e: int) -> int {
    let j = crate::stream::name_end(s, q, e)->Some_0;
    run_end(s, run_end(s, j, e, ByteClass::Space) + 1, e, ByteClass::Space) + 1
}

/// The attribute that starts at `q` has a name, `=` and an opening quote,
/// and its value holds a `<`.
pub open spec fn attr_value_has_lt(s: Seq<u8>, q: int, e: int) -> bool {
    let j = crate::stream::name_end(s, q, e)->Some_0;
    let a = run_end(s, j, e, ByteClass::Space);
    let v = attr_value_start(s, q, e);
    &&& crate::stream::name_end(s, q, e) is Some
    &&& a < e && s[a] == 0x3D
    &&& quote_at(s, v - 1, e)
    &&& has_byte(s.subrange(v, attr_value_end(s, q, e)), 0x3C)
}

/// Offset of the closing quote of that value.
pub open spec fn attr_value_end(s: Seq<u8>, q: int, e: int) -> int {
    let v = attr_value_start(s, q, e);
    run_end(s, v, e, ByteClass::Not(s[v - 1]))
}

/// The lexical context of the tokenizer.
#[derive(Clone, Copy, PartialEq, Eq, Debug, Structural)]
pub enum State {
    /// Before the DOCTYPE and the root element.
    Start,
    /// Inside the DOCTYPE's internal subset.
    Dtd,
    /// After the DOCTYPE, before the root element.
    AfterDtd,
    /// Element content.
    Elements,
    /// Inside a start tag.
    Attributes,
    /// After the root element.
    AfterElements,
    /// Done: nothing more is produced.
    End,
}

/// `b` is `a` moved forward over the same input.
pub open spec fn forward<'a>(a: &Stream<'a>, b: &Stream<'a>) -> bool {
    a.moved(b, b.pos_spec()) && a.pos_spec() <= b.pos_spec()
}

/// Every byte of `t` is whitespace.
pub open spec fn all_spaces(t: Seq<u8>) -> bool {
    forall|k: int| 0 <= k < t.len() ==> is_space_byte(t[k])
}

/// The depth after an element end token.
pub open spec fn depth_after(depth: int, e: ElementEnd) -> int {
    match e {
        ElementEnd::Open => depth + 1,
        ElementEnd::Close(_, _) => if depth > 0 {
            depth - 1
        } else {
            0
        },
        ElementEnd::Empty => depth,
    }
}

/// The context after a token, from the context, depth and mode before it and
/// the depth after it.
pub open spec fn state_after(st: State, depth: int, fragment: bool, t: Token) -> State {
    match t {
        Token::ElementStart(_, _) => State::Attributes,
        Token::ElementEnd(_) => if depth == 0 && !fragment {
            State::AfterElements
        } else {
            State::Elements
        },
        Token::DtdStart(_, _) => State::Dtd,
        Token::EmptyDtd(_, _) => State::AfterDtd,
        Token::DtdEnd => State::AfterDtd,
        _ => st,
    }
}

/// Whether context `st` admits token `t`.
pub open spec fn allowed_in(st: State, t: Token) -> bool {
    match st {
        State::Start => t is Declaration || t is Comment || t is ProcessingInstruction
            || t is DtdStart || t is EmptyDtd || t is ElementStart,
        State::Dtd => t is EntityDeclaration || t is Comment || t is ProcessingInstruction
            || t is DtdEnd,
        State::AfterDtd => t is Comment || t is ProcessingInstruction || t is ElementStart,
        State::Elements => t is ElementStart || t matches Token::ElementEnd(ElementEnd::Close(_, _))
            || t is Cdata || t is ProcessingInstruction || t is Comment || t is Text
            || t is Whitespaces,
        State::Attributes => t is Attribute || t matches Token::ElementEnd(ElementEnd::Open)
            || t matches Token::ElementEnd(ElementEnd::Empty),
        State::AfterElements => t is Comment || t is ProcessingInstruction,
        State::End => false,
    }
}

/// The token type that the bytes at `p` announce in context `st`, with the
/// offset after the markup that announces it; none where the input ends
/// before the type is known.
#[verifier::opaque]
pub open spec fn classify(s: Seq<u8>, p: int, e: int, st: State) -> Option<(TokenType, int)> {
    if !(0 <= p < e && e <= s.len()) {
        None
    } else if s[p] == 0x3C {
        if p + 1 >= e {
            None
        } else if s[p + 1] == 0x3F {
            if has_prefix_at(s, p + 1, e, decl_open()) {
                Some((TokenType::XMLDecl, p + 6))
            } else {
                Some((TokenType::PI, p + 2))
            }
        } else if s[p + 1] == 0x21 {
            if p + 2 >= e {
                None
            } else if s[p + 2] == 0x2D && has_prefix_at(s, p + 2, e, seq![0x2Du8, 0x2D]) {
                Some((TokenType::Comment, p + 4))
            } else if s[p + 2] == 0x44 && has_prefix_at(
                s,
                p + 2,
                e,
                seq![0x44u8, 0x4F, 0x43, 0x54, 0x59, 0x50, 0x45],
            ) {
                Some((TokenType::DoctypeDecl, p + 9))
            } else if s[p + 2] == 0x45
                && has_prefix_at(s, p + 2, e, seq![0x45u8, 0x4C, 0x45, 0x4D, 0x45, 0x4E, 0x54]) {
                Some((TokenType::ElementDecl, p + 9))
            } else if s[p + 2] == 0x41
                && has_prefix_at(s, p + 2, e, seq![0x41u8, 0x54, 0x54, 0x4C, 0x49, 0x53, 0x54]) {
                Some((TokenType::AttlistDecl, p + 9))
            } else if s[p + 2] == 0x45
                && has_prefix_at(s, p + 2, e, seq![0x45u8, 0x4E, 0x54, 0x49, 0x54, 0x59]) {
                Some((TokenType::EntityDecl, p + 8))
            } else if s[p + 2] == 0x4E && has_prefix_at(
                s,
                p + 2,
                e,
                seq![0x4Eu8, 0x4F, 0x54, 0x41, 0x54, 0x49, 0x4F, 0x4E],
            ) {
                Some((TokenType::NotationDecl, p + 10))
            } else if s[p + 2] == 0x5B && has_prefix_at(
                s,
                p + 2,
                e,
                seq![0x5Bu8, 0x43, 0x44, 0x41, 0x54, 0x41, 0x5B],
            ) {
                Some((TokenType::CDSect, p + 9))
            } else {
                Some((TokenType::Unknown, p + 2))
            }
        } else if s[p + 1] == 0x2F {
            Some((TokenType::ElementClose, p + 2))
        } else {
            Some((TokenType::ElementStart, p + 1))
        }
    } else if s[p] == 0x5D && has_prefix_at(s, p, e, dtd_close()) {
        Some((TokenType::DoctypeEnd, p + 2))
    } else {
        match st {
            State::Start | State::AfterDtd | State::AfterElements | State::Dtd => if is_space_byte(
                s[p],
            ) {
                Some((TokenType::Whitespace, p))
            } else {
                Some((TokenType::Unknown, p))
            },
            State::Elements => Some((TokenType::CharData, p)),
            _ => Some((TokenType::Unknown, p)),
        }
    }
}

/// Whether context `st` takes a token of type `tt`; an XML declaration only
/// at the start of the input.
pub open spec fn admits(st: State, tt: TokenType, at_start: bool) -> bool {
    match st {
        State::Start => (tt == TokenType::XMLDecl && at_start) || tt == TokenType::Comment || tt
            == TokenType::PI || tt == TokenType::DoctypeDecl || tt == TokenType::ElementStart || tt
            == TokenType::Whitespace,
        State::Dtd => tt == TokenType::ElementDecl || tt == TokenType::NotationDecl || tt
            == TokenType::AttlistDecl || tt == TokenType::EntityDecl || tt == TokenType::Comment
            || tt == TokenType::PI || tt == TokenType::DoctypeEnd || tt == TokenType::Whitespace,
        State::AfterDtd => tt == TokenType::Comment || tt == TokenType::PI || tt
            == TokenType::ElementStart || tt == TokenType::Whitespace,
        State::Elements => tt == TokenType::ElementStart || tt == TokenType::ElementClose || tt
            == TokenType::CDSect || tt == TokenType::PI || tt == TokenType::Comment || tt
            == TokenType::CharData,
        State::AfterElements => tt == TokenType::Comment || tt == TokenType::PI || tt
            == TokenType::Whitespace,
        _ => false,
    }
}

fn admitted(st: State, tt: TokenType, at_start: bool) -> (r: bool)
    ensures
        r == admits(st, tt, at_start),
{
    match st {
        State::Start => match tt {
            TokenType::XMLDecl => at_start,
            TokenType::Comment | TokenType::PI | TokenType::DoctypeDecl | TokenType::ElementStart
            | TokenType::Whitespace => true,
            _ => false,
        },
        State::Dtd => match tt {
            TokenType::ElementDecl | TokenType::NotationDecl | TokenType::AttlistDecl
            | TokenType::EntityDecl | TokenType::Comment | TokenType::PI | TokenType::DoctypeEnd
            | TokenType::Whitespace => true,
            _ => false,
        },
        State::AfterDtd => match tt {
            TokenType::Comment | TokenType::PI | TokenType::ElementStart | TokenType::Whitespace => true,
            _ => false,
        },
        State::Elements => match tt {
            TokenType::ElementStart | TokenType::ElementClose | TokenType::CDSect | TokenType::PI
            | TokenType::Comment | TokenType::CharData => true,
            _ => false,
        },
        State::AfterElements => match tt {
            TokenType::Comment | TokenType::PI | TokenType::Whitespace => true,
            _ => false,
        },
        _ => false,
    }
}

/// At `p` the input announces no token that context `st` takes.
#[verifier::opaque]
pub open spec fn rejected_at(s: Seq<u8>, p: int, e: int, st: State, at_start: bool) -> bool {
    st != State::Attributes && st != State::End && 0 <= p <= e && match classify(s, p, e, st) {
        Some((tt, _)) => !admits(st, tt, at_start),
        None => true,
    }
}

/// The error for what `rejected_at` describes.
#[verifier::opaque]
pub open spec fn rejection(s: Seq<u8>, p: int, e: int, st: State) -> Error {
    match classify(s, p, e, st) {
        Some((TokenType::Unknown, _)) => Error::UnknownToken(text_pos_at(s, p)),
        Some((tt, _)) => Error::UnexpectedToken(tt, text_pos_at(s, p)),
        None => Error::UnknownToken(text_pos_at(s, p)),
    }
}

/// Where the cursor at `p` ends after a discarded declaration whose keyword
/// ends at `n`: whitespace, then everything up to the next unquoted `>`.
pub open spec fn decl_body_end(s: Seq<u8>, n: int, e: int) -> Option<int> {
    if 0 <= n < e && is_space_byte(s[n]) {
        decl_skip_end(s, run_end(s, n, e, ByteClass::Space), e, None)
    } else {
        None
    }
}

/// Where the next token starts when a pull begins at `p` in context `st`,
/// over the range that begins at `start`: whitespace (outside element content),
/// a byte-order mark at the range's start and discarded DTD declarations are
/// passed over. `Ok(None)`: nothing but those remains. `Ok(Some((t, at)))`:
/// the token starts at `t`, and `at` tells whether the pass that reached it
/// began at the range's start. `Err((tt, t))`: the declaration of type `tt`
/// at `t` is malformed.
pub open spec fn settle(s: Seq<u8>, p: int, e: int, st: State, start: int) -> Result<
    Option<(int, bool)>,
    (TokenType, int),
>
    decreases e - p,
{
    if p < 0 || p >= e || e > s.len() {
        Ok(None)
    } else {
        let t = if p == start && has_prefix_at(s, p, e, byte_order_mark()) {
            p + 3
        } else {
            p
        };
        match classify(s, t, e, st) {
            Some((tt, n)) => if tt == TokenType::Whitespace {
                let q = run_end(s, t, e, ByteClass::Space);
                if p < q <= e {
                    settle(s, q, e, st, start)
                } else {
                    Ok(Some((t, p == start)))
                }
            } else if st == State::Dtd && (tt == TokenType::ElementDecl || tt
                == TokenType::AttlistDecl || tt == TokenType::NotationDecl) {
                match decl_body_end(s, n, e) {
                    Some(m) => if p < m <= e {
                        settle(s, m, e, st, start)
                    } else {
                        Ok(Some((t, p == start)))
                    },
                    None => Err((tt, t)),
                }
            } else {
                Ok(Some((t, p == start)))
            },
            None => Ok(Some((t, p == start))),
        }
    }
}

/// What one pull yields from a cursor at `p` in context `st`, over the range
/// `[start, e)` of `src`; `r` is the result and `fin` the cursor after it.
pub open spec fn pull_result<'a>(
    src: &'a str,
    st: State,
    start: int,
    p: int,
    e: int,
    r: Option<Result<Token<'a>, Error>>,
    fin: int,
) -> bool {
    let b = src.spec_bytes();
    if st == State::End {
        r is None
    } else if st == State::Attributes {
        p < e ==> produces(src, st, false, p, e, r, fin)
    } else {
        match settle(b, p, e, st, start) {
            Ok(None) => r is None && fin == e,
            Ok(Some((t, at))) => produces(src, st, at, t, e, r, fin),
            Err((tt, t)) => r == Some(
                Err::<Token<'a>, Error>(Error::UnexpectedToken(tt, text_pos_at(b, t))),
            ),
        }
    }
}

/// `r` is an `InvalidToken` error of type `tt` placed at offset `p`.
pub open spec fn invalid_at<'a>(r: Option<Result<Token<'a>, Error>>, tt: TokenType, b: Seq<u8>, p: int) -> bool {
    r matches Some(Err(Error::InvalidToken(k, ps, _))) && k == tt && ps == text_pos_at(b, p)
}

/// What a pull yields where a token starts at `p`, in context `st`; `at_start`
/// tells whether the pull began at the start of the range. In a start tag `p`
/// is the cursor before the whitespace that precedes an attribute or the tag's
/// end. `r` is the result and `fin` the cursor after it.
pub open spec fn produces<'a>(
    src: &'a str,
    st: State,
    at_start: bool,
    p: int,
    e: int,
    r: Option<Result<Token<'a>, Error>>,
    fin: int,
) -> bool {
    let b = src.spec_bytes();
    let j = chars_end(b, p + 4, e, comment_close());
    let q = run_end(b, p, e, ByteClass::Space);
    let cd = lit_end(b, p + 9, e, cdata_close());
    let nm = crate::stream::name_end(b, p + 1, e);
    let cl = crate::stream::name_end(b, p + 2, e);
    let an = crate::stream::name_end(b, q, e);
    // Comments, in every context but a start tag.
    &&& st != State::Attributes && st != State::End && has_prefix_at(b, p, e, comment_open()) ==> {
        &&& comment_ok(b, p + 4, e) ==> (r matches Some(Ok(Token::Comment(c))) && c.covers(
            src,
            p + 4,
            j,
        ) && fin == j + 3)
        &&& !comment_ok(b, p + 4, e) ==> r == Some(
            Err::<Token<'a>, Error>(
                Error::InvalidToken(TokenType::Comment, text_pos_at(b, p), None),
            ),
        )
    }
    // Start tags where an element may begin; after the root they are refused.
    &&& (st == State::Start || st == State::AfterDtd || st == State::Elements) && start_tag_at(
        b,
        p,
        e,
    ) ==> {
        &&& nm is Some ==> (r matches Some(Ok(Token::ElementStart(pr, lo))) && qname_is(
            pr,
            lo,
            src,
            p + 1,
            nm->Some_0,
        ) && fin == nm->Some_0)
        &&& nm is None ==> r == Some(
            Err::<Token<'a>, Error>(
                Error::InvalidToken(
                    TokenType::ElementStart,
                    text_pos_at(b, p),
                    Some(StreamError::InvalidName),
                ),
            ),
        )
    }
    &&& st == State::AfterElements && start_tag_at(b, p, e) ==> r == Some(
        Err::<Token<'a>, Error>(Error::UnexpectedToken(TokenType::ElementStart, text_pos_at(b, p))),
    )
    // End tags.
    &&& st == State::Elements && p + 1 < e && b[p] == 0x3C && b[p + 1] == 0x2F ==> {
        &&& end_tag_ok(b, p + 2, e) ==> (r matches Some(
            Ok(Token::ElementEnd(ElementEnd::Close(pr, lo))),
        ) && qname_is(pr, lo, src, p + 2, cl->Some_0) && fin == run_end(
            b,
            cl->Some_0,
            e,
            ByteClass::Space,
        ) + 1)
        &&& !end_tag_ok(b, p + 2, e) ==> invalid_at(r, TokenType::ElementClose, b, p)
    }
    // CDATA sections.
    &&& st == State::Elements && has_prefix_at(b, p, e, cdata_open()) ==> {
        &&& has_prefix_at(b, cd, e, cdata_close()) ==> (r matches Some(Ok(Token::Cdata(c)))
            && c.covers(src, p + 9, cd) && fin == cd + 3)
        &&& !has_prefix_at(b, cd, e, cdata_close()) ==> invalid_at(r, TokenType::CDSect, b, p)
    }
    // Character data.
    &&& st == State::Elements && p < e && b[p] != 0x3C && !has_prefix_at(b, p, e, dtd_close()) ==> (
    r matches Some(Ok(t))
        && fin == run_end(b, p, e, ByteClass::Not(0x3C)) && match t {
        Token::Whitespaces(x) => all_spaces(x@) && x.covers(src, p, fin),
        Token::Text(x) => !all_spaces(x@) && x.covers(src, p, fin),
        _ => false,
    })
    // Processing instructions.
    &&& st != State::Attributes && st != State::End && p + 1 < e && b[p] == 0x3C && b[p + 1]
        == 0x3F && !has_prefix_at(b, p + 1, e, decl_open()) ==> {
        &&& pi_ok(b, p + 2, e) ==> (r matches Some(Ok(t)) && pi_is(t, src, p + 2, e, fin))
        &&& !pi_ok(b, p + 2, e) ==> invalid_at(r, TokenType::PI, b, p)
    }
    // The XML declaration, only as the very first construct.
    &&& st == State::Start && at_start && has_prefix_at(b, p, e, xml_decl_open()) ==> {
        &&& decl_end(b, p + 6, e) is Some ==> (r matches Some(Ok(t)) && decl_is(
            t,
            src,
            decl_end(b, p + 6, e),
            fin,
        ))
        &&& decl_end(b, p + 6, e) is None ==> invalid_at(r, TokenType::XMLDecl, b, p)
    }
    &&& st == State::Start && !at_start && has_prefix_at(b, p, e, xml_decl_open()) ==> r == Some(
        Err::<Token<'a>, Error>(Error::UnexpectedToken(TokenType::XMLDecl, text_pos_at(b, p))),
    )
    // The DOCTYPE head.
    &&& st == State::Start && has_prefix_at(b, p, e, doctype_open()) ==> {
        &&& doctype_end(b, p + 9, e) is Some ==> (r matches Some(Ok(t)) && doctype_is(
            t,
            src,
            p + 9,
            e,
        ) && fin == doctype_end(b, p + 9, e)->Some_0)
        &&& doctype_end(b, p + 9, e) is None ==> invalid_at(r, TokenType::DoctypeDecl, b, p)
    }
    // Entity declarations and the end of the DTD.
    &&& st == State::Dtd && has_prefix_at(b, p, e, entity_open()) ==> {
        &&& entity_decl_end(b, p + 8, e) is Some ==> (r matches Some(Ok(t)) && entity_is(
            t,
            src,
            p + 8,
            e,
        ) && fin == entity_decl_end(b, p + 8, e)->Some_0)
        &&& entity_decl_end(b, p + 8, e) is None ==> invalid_at(r, TokenType::EntityDecl, b, p)
    }
    &&& st == State::Dtd && has_prefix_at(b, p, e, dtd_close()) ==> (r matches Some(
        Ok(Token::DtdEnd),
    ) && fin == p + 2)
    // Whatever the context does not take.
    &&& rejected_at(b, p, e, st, at_start) ==> r == Some(
        Err::<Token<'a>, Error>(rejection(b, p, e, st)),
    )
    // Inside a start tag.
    &&& st == State::Attributes && q < e && b[q] == 0x3E ==> (r matches Some(
        Ok(Token::ElementEnd(ElementEnd::Open)),
    )) && fin == q + 1
    &&& st == State::Attributes && has_prefix_at(b, q, e, empty_close()) ==> (r matches Some(
        Ok(Token::ElementEnd(ElementEnd::Empty)),
    )) && fin == q + 2
    &&& st == State::Attributes && q < e && b[q] == 0x2F && !has_prefix_at(b, q, e, empty_close())
        ==> invalid_at(r, TokenType::Attribute, b, q)
    &&& st == State::Attributes && !(q < e && (b[q] == 0x2F || b[q] == 0x3E)) ==> {
        &&& attribute_end(b, q, e) is Some ==> (r matches Some(Ok(Token::Attribute((pr, lo), v)))
            && qname_is(pr, lo, src, q, an->Some_0) && v.covers(
            src,
            attr_value_start(b, q, e),
            attr_value_end(b, q, e),
        ) && fin == attribute_end(b, q, e)->Some_0)
        &&& attribute_end(b, q, e) is None ==> invalid_at(r, TokenType::Attribute, b, q)
        &&& attr_value_has_lt(b, q, e) ==> r == Some(
            Err::<Token<'a>, Error>(
                Error::InvalidToken(
                    TokenType::Attribute,
                    text_pos_at(b, q),
                    Some(StreamError::InvalidAttributeValue),
                ),
            ),
        )
    }
}

/// Tokenizer for the XML structure.
pub struct Tokenizer<'a> {
    stream: Stream<'a>,
    state: State,
    depth: usize,
    fragment_parsing: bool,
}

fn bytes_eq(a: &[u8], b: &[u8]) -> (r: bool)
    ensures
        r == (a@ == b@),
{
    if a.len() != b.len() {
        return false;
    }
    let mut i: usize = 0;
    while i < a.len()
        invariant
            a@.len() == b@.len(),
            0 <= i <= a@.len(),
            forall|k: int| 0 <= k < i ==> a@[k] == b@[k],
        decreases a.len() - i,
    {
        if a[i] != b[i] {
            return false;
        }
        i = i + 1;
    }
    assert(a@ =~= b@);
    true
}

fn contains_byte(a: &[u8], b: u8) -> (r: bool)
    ensures
        r == has_byte(a@, b),
{
    let mut i: usize = 0;
    while i < a.len()
        invariant
            0 <= i <= a@.len(),
            forall|k: int| 0 <= k < i ==> a@[k] != b,
        decreases a.len() - i,
    {
        if a[i] == b {
            return true;
        }
        i = i + 1;
    }
    false
}

fn contains_double_dash(a: &[u8]) -> (r: bool)
    ensures
        r == has_double_dash(a@),
{
    let n = a.len();
    if n < 2 {
        return false;
    }
    let mut i: usize = 0;
    while i < n - 1
        invariant
            n == a@.len(),
            n >= 2,
            0 <= i <= n - 1,
            forall|k: int| 0 <= k < i && k + 1 < a@.len() ==> !(#[trigger] a@[k] == 0x2D
                && a@[k + 1] == 0x2D),
        decreases n - i,
    {
        if a[i] == 0x2D && a[i + 1] == 0x2D {
            return true;
        }
        i = i + 1;
    }
    false
}

fn only_spaces(a: &[u8]) -> (r: bool)
    ensures
        r == all_spaces(a@),
{
    let mut i: usize = 0;
    while i < a.len()
        invariant
            0 <= i <= a@.len(),
            forall|k: int| 0 <= k < i ==> is_space_byte(a@[k]),
        decreases a.len() - i,
    {
        if !is_xml_space(a[i]) {
            return false;
        }
        i = i + 1;
    }
    true
}

impl<'a> Tokenizer<'a> {
    /// The text being tokenized.
    pub closed spec fn src(&self) -> &'a str {
        self.stream.src()
    }

    /// The current offset.
    pub closed spec fn pos_spec(&self) -> int {
        self.stream.pos_spec()
    }

    /// Offset where the tokenized range ends.
    pub closed spec fn end_spec(&self) -> int {
        self.stream.end_spec()
    }

    /// Offset where the tokenized range begins.
    pub closed spec fn start_spec(&self) -> int {
        self.stream.start_spec()
    }

    /// The current lexical context.
    pub closed spec fn state_spec(&self) -> State {
        self.state
    }

    /// The number of open elements.
    pub closed spec fn depth_spec(&self) -> int {
        self.depth as int
    }

    /// Whether the input is read as element content.
    pub closed spec fn fragment_spec(&self) -> bool {
        self.fragment_parsing
    }

    /// The cursor is sound and the depth is bounded by what was read.
    pub closed spec fn wf(&self) -> bool {
        self.stream.wf() && self.depth <= self.stream.pos_spec() - self.stream.start_spec()
    }

    /// A tokenizer over the whole of `text`.
    pub fn from_str(text: &'a str) -> (r: Tokenizer<'a>)
        requires
            text.spec_bytes().len() < usize::MAX,
        ensures
            r.wf(),
            r.src() == text,
            r.start_spec() == 0,
            r.pos_spec() == 0,
            r.end_spec() == text.spec_bytes().len(),
            r.state_spec() == State::Start,
            r.depth_spec() == 0,
            !r.fragment_spec(),
    {
        Self::from_span(StrSpan::from_str(text))
    }

    /// A tokenizer over the range of `span`.
    pub fn from_span(span: StrSpan<'a>) -> (r: Tokenizer<'a>)
        requires
            span.wf(),
            span.source().spec_bytes().len() < usize::MAX,
        ensures
            r.wf(),
            r.src() == span.source(),
            r.start_spec() == span.start_spec(),
            r.pos_spec() == span.start_spec(),
            r.end_spec() == span.end_spec(),
            r.state_spec() == State::Start,
            r.depth_spec() == 0,
            !r.fragment_spec(),
    {
        Tokenizer {
            stream: Stream::from_span(span),
            state: State::Start,
            depth: 0,
            fragment_parsing: false,
        }
    }

    /// Reads the input as the content of a root element: no prologue, any
    /// number of top-level elements.
    pub fn enable_fragment_mode(&mut self)
        requires
            old(self).wf(),
        ensures
            final(self).wf(),
            final(self).state_spec() == State::Elements,
            final(self).fragment_spec(),
            final(self).src() == old(self).src(),
            final(self).start_spec() == old(self).start_spec(),
            final(self).pos_spec() == old(self).pos_spec(),
            final(self).end_spec() == old(self).end_spec(),
            final(self).depth_spec() == old(self).depth_spec(),
    {
        self.state = State::Elements;
        self.fragment_parsing = true;
    }

    /// Produces the next token, `None` once the input is exhausted. An error
    /// ends the sequence: afterwards nothing more is produced.
    pub fn next(&mut self) -> (r: Option<Result<Token<'a>, Error>>)
        requires
            old(self).wf(),
        ensures
            final(self).wf(),
            final(self).src() == old(self).src(),
            final(self).start_spec() == old(self).start_spec(),
            final(self).end_spec() == old(self).end_spec(),
            // The cursor only moves forward.
            old(self).pos_spec() <= final(self).pos_spec(),
            final(self).fragment_spec() == old(self).fragment_spec(),
            // Exhaustion and errors end the sequence.
            old(self).state_spec() == State::End || old(self).pos_spec() >= old(self).end_spec()
                ==> r.is_none(),
            r.is_none() ==> final(self).state_spec() == State::End
                && final(self).depth_spec() == old(self).depth_spec(),
            r matches Some(Err(_)) ==> final(self).state_spec() == State::End
                && final(self).pos_spec() == final(self).end_spec(),
            // A token's spans lie in the text it was read from; the context and
            // the depth follow the token.
            r matches Some(Ok(t)) ==> {
                &&& t.spans_in(old(self).src(), old(self).pos_spec(), final(self).pos_spec())
                &&& final(self).pos_spec() > old(self).pos_spec()
                &&& allowed_in(old(self).state_spec(), t)
                &&& final(self).depth_spec() == match t {
                    Token::ElementEnd(e) => depth_after(old(self).depth_spec(), e),
                    _ => old(self).depth_spec(),
                }
                &&& final(self).state_spec() == state_after(
                    old(self).state_spec(),
                    final(self).depth_spec(),
                    old(self).fragment_spec(),
                    t,
                )
            },
            r matches Some(Ok(Token::Comment(c))) ==> !has_double_dash(c@),
            r matches Some(Ok(Token::Attribute(_, v))) ==> !has_byte(v@, 0x3C),
            // In fragment mode no token closes the document.
            old(self).fragment_spec() && old(self).state_spec() != State::AfterElements
                ==> final(self).state_spec() != State::AfterElements,
            // What the pull yields: see `settle` and `produces`.
            pull_result(
                old(self).src(),
                old(self).state_spec(),
                old(self).start_spec(),
                old(self).pos_spec(),
                old(self).end_spec(),
                r,
                final(self).pos_spec(),
            ),
    {
        proof {
            reveal(rejected_at);
        }
        if self.stream.at_end() {
            self.state = State::End;
            return None;
        }
        if let State::End = self.state {
            return None;
        }
        let t = Self::parse_next_impl(&mut self.stream, self.state);
        match t {
            Some(Ok(tok)) => {
                match tok {
                    Token::ElementStart(_, _) => {
                        self.state = State::Attributes;
                    },
                    Token::ElementEnd(end) => {
                        match end {
                            ElementEnd::Open => {
                                self.depth = self.depth + 1;
                            },
                            ElementEnd::Close(_, _) => {
                                if self.depth > 0 {
                                    self.depth = self.depth - 1;
                                }
                            },
                            ElementEnd::Empty => {},
                        }
                        if self.depth == 0 && !self.fragment_parsing {
                            self.state = State::AfterElements;
                        } else {
                            self.state = State::Elements;
                        }
                    },
                    Token::DtdStart(_, _) => {
                        self.state = State::Dtd;
                    },
                    Token::EmptyDtd(_, _) | Token::DtdEnd => {
                        self.state = State::AfterDtd;
                    },
                    _ => {},
                }
            },
            Some(Err(_)) => {
                self.stream.jump_to_end();
                self.state = State::End;
            },
            None => {
                self.state = State::End;
            },
        }
        t
    }

    /// Classifies what follows the cursor, consuming the markup that tells it.
    fn parse_token_type(s: &mut Stream<'a>, state: State) -> (r: Result<TokenType, StreamError>)
        requires
            old(s).wf(),
        ensures
            forward(old(s), final(s)),
            match classify(old(s).s(), old(s).pos_spec(), old(s).end_spec(), state) {
                Some((t, n)) => r == Ok::<TokenType, StreamError>(t) && final(s).pos_spec() == n,
                None => r == Err::<TokenType, StreamError>(StreamError::UnexpectedEndOfStream),
            },
            r matches Ok(TokenType::Whitespace) ==> *final(s) == *old(s) && old(s).pos_spec()
                < old(s).end_spec() && is_space_byte(old(s).s()[old(s).pos_spec()]),
            r matches Ok(TokenType::CharData) ==> *final(s) == *old(s) && old(s).pos_spec()
                < old(s).end_spec() && old(s).s()[old(s).pos_spec()] != 0x3C,
            r matches Ok(t) ==> (t != TokenType::Whitespace && t != TokenType::CharData && t
                != TokenType::Unknown ==> final(s).pos_spec() > old(s).pos_spec()),
            has_prefix_at(old(s).s(), old(s).pos_spec(), old(s).end_spec(), doctype_open()) ==> r
                == Ok::<TokenType, StreamError>(TokenType::DoctypeDecl) && final(s).pos_spec() == old(
                s).pos_spec() + 9,
            has_prefix_at(old(s).s(), old(s).pos_spec(), old(s).end_spec(), comment_open()) ==> r
                == Ok::<TokenType, StreamError>(TokenType::Comment) && final(s).pos_spec() == old(
                s).pos_spec() + 4,
            has_prefix_at(old(s).s(), old(s).pos_spec(), old(s).end_spec(), cdata_open()) ==> r
                == Ok::<TokenType, StreamError>(TokenType::CDSect) && final(s).pos_spec() == old(
                s).pos_spec() + 9,
            old(s).pos_spec() + 1 < old(s).end_spec() && old(s).s()[old(s).pos_spec()] == 0x3C && old(
                s).s()[old(s).pos_spec() + 1] == 0x2F ==> r == Ok::<TokenType, StreamError>(
                TokenType::ElementClose,
            ) && final(s).pos_spec() == old(s).pos_spec() + 2,
            old(s).pos_spec() + 1 < old(s).end_spec() && old(s).s()[old(s).pos_spec()] == 0x3C && old(
                s).s()[old(s).pos_spec() + 1] == 0x3F && !has_prefix_at(
                old(s).s(),
                old(s).pos_spec() + 1,
                old(s).end_spec(),
                decl_open(),
            ) ==> r == Ok::<TokenType, StreamError>(TokenType::PI) && final(s).pos_spec() == old(
                s).pos_spec() + 2,
            has_prefix_at(old(s).s(), old(s).pos_spec(), old(s).end_spec(), xml_decl_open()) ==> r
                == Ok::<TokenType, StreamError>(TokenType::XMLDecl) && final(s).pos_spec() == old(
                s).pos_spec() + 6,
            has_prefix_at(old(s).s(), old(s).pos_spec(), old(s).end_spec(), entity_open()) ==> r
                == Ok::<TokenType, StreamError>(TokenType::EntityDecl) && final(s).pos_spec() == old(
                s).pos_spec() + 8,
            has_prefix_at(old(s).s(), old(s).pos_spec(), old(s).end_spec(), dtd_close()) ==> r
                == Ok::<TokenType, StreamError>(TokenType::DoctypeEnd) && final(s).pos_spec() == old(
                s).pos_spec() + 2,
            state != State::Elements && old(s).pos_spec() < old(s).end_spec() && old(s).s()[old(
                s).pos_spec()] != 0x3C && old(s).s()[old(s).pos_spec()] != 0x5D && !is_space_byte(
                old(s).s()[old(s).pos_spec()],
            ) ==> r == Ok::<TokenType, StreamError>(TokenType::Unknown),
            start_tag_at(old(s).s(), old(s).pos_spec(), old(s).end_spec()) ==> r == Ok::<
                TokenType,
                StreamError,
            >(TokenType::ElementStart) && final(s).pos_spec() == old(s).pos_spec() + 1,
            state == State::Elements && old(s).pos_spec() < old(s).end_spec() && old(s).s()[old(
                s).pos_spec()] != 0x3C && !has_prefix_at(
                old(s).s(),
                old(s).pos_spec(),
                old(s).end_spec(),
                dtd_close(),
            ) ==> r == Ok::<
                TokenType,
                StreamError,
            >(TokenType::CharData),
    {
        let ghost p = s.pos_spec();
        proof {
            reveal(classify);
            if has_prefix_at(s.s(), p, s.end_spec(), doctype_open()) {
                let w = s.s().subrange(p, p + 9);
                assert(w[0] == 0x3C && w[1] == 0x21 && w[2] == 0x44);
                assert(s.s().subrange(p + 2, p + 9) =~= seq![0x44u8, 0x4F, 0x43, 0x54, 0x59, 0x50, 0x45]);
            }
            if has_prefix_at(s.s(), p, s.end_spec(), cdata_open()) {
                let w = s.s().subrange(p, p + 9);
                assert(w[0] == 0x3C && w[1] == 0x21 && w[2] == 0x5B);
                assert(s.s().subrange(p + 2, p + 9) =~= seq![0x5Bu8, 0x43, 0x44, 0x41, 0x54, 0x41, 0x5B]);
            }
            if has_prefix_at(s.s(), p, s.end_spec(), xml_decl_open()) {
                let w = s.s().subrange(p, p + 6);
                assert(w[0] == 0x3C && w[1] == 0x3F);
                assert(s.s().subrange(p + 1, p + 6) =~= decl_open());
            }
            if has_prefix_at(s.s(), p, s.end_spec(), entity_open()) {
                let w = s.s().subrange(p, p + 8);
                assert(w[0] == 0x3C && w[1] == 0x21 && w[2] == 0x45 && w[3] == 0x4E);
                assert(s.s().subrange(p + 2, p + 8) =~= seq![0x45u8, 0x4E, 0x54, 0x49, 0x54, 0x59]);
                assert(s.s()[p + 3] == w[3]);
            }
            if has_prefix_at(s.s(), p, s.end_spec(), dtd_close()) {
                assert(s.s().subrange(p, p + 2)[0] == s.s()[p]);
            }
            if has_prefix_at(s.s(), p, s.end_spec(), comment_open()) {
                let w = s.s().subrange(p, p + 4);
                assert(w[0] == 0x3C && w[1] == 0x21 && w[2] == 0x2D);
                assert(s.s().subrange(p + 2, p + 4) =~= seq![0x2Du8, 0x2D]);
            }
        }
        let c1 = s.curr_byte()?;
        if c1 == 0x3C {
            s.advance(1);
            let c2 = s.curr_byte()?;
            if c2 == 0x3F {
                if {
                    let lit: &[u8] = &[0x3F, 0x78, 0x6D, 0x6C, 0x20];
                    assert(lit@ =~= decl_open());
                    s.starts_with(lit)
                } {
                    s.advance(5);
                    Ok(TokenType::XMLDecl)
                } else {
                    s.advance(1);
                    Ok(TokenType::PI)
                }
            } else if c2 == 0x21 {
                s.advance(1);
                let c3 = s.curr_byte()?;
                if c3 == 0x2D && {
                    let lit: &[u8] = &[0x2D, 0x2D];
                    assert(lit@ =~= seq![0x2Du8, 0x2D]);
                    s.starts_with(lit)
                } {
                    s.advance(2);
                    Ok(TokenType::Comment)
                } else if c3 == 0x44 && {
                    let lit: &[u8] = &[0x44, 0x4F, 0x43, 0x54, 0x59, 0x50, 0x45];
                    assert(lit@ =~= seq![0x44u8, 0x4F, 0x43, 0x54, 0x59, 0x50, 0x45]);
                    s.starts_with(lit)
                } {
                    s.advance(7);
                    Ok(TokenType::DoctypeDecl)
                } else if c3 == 0x45 && {
                    let lit: &[u8] = &[0x45, 0x4C, 0x45, 0x4D, 0x45, 0x4E, 0x54];
                    assert(lit@ =~= seq![0x45u8, 0x4C, 0x45, 0x4D, 0x45, 0x4E, 0x54]);
                    s.starts_with(lit)
                } {
                    s.advance(7);
                    Ok(TokenType::ElementDecl)
                } else if c3 == 0x41 && {
                    let lit: &[u8] = &[0x41, 0x54, 0x54, 0x4C, 0x49, 0x53, 0x54];
                    assert(lit@ =~= seq![0x41u8, 0x54, 0x54, 0x4C, 0x49, 0x53, 0x54]);
                    s.starts_with(lit)
                } {
                    s.advance(7);
                    Ok(TokenType::AttlistDecl)
                } else if c3 == 0x45 && {
                    let lit: &[u8] = &[0x45, 0x4E, 0x54, 0x49, 0x54, 0x59];
                    assert(lit@ =~= seq![0x45u8, 0x4E, 0x54, 0x49, 0x54, 0x59]);
                    s.starts_with(lit)
                } {
                    s.advance(6);
                    Ok(TokenType::EntityDecl)
                } else if c3 == 0x4E && {
                    let lit: &[u8] = &[0x4E, 0x4F, 0x54, 0x41, 0x54, 0x49, 0x4F, 0x4E];
                    assert(lit@ =~= seq![0x4Eu8, 0x4F, 0x54, 0x41, 0x54, 0x49, 0x4F, 0x4E]);
                    s.starts_with(lit)
                } {
                    s.advance(8);
                    Ok(TokenType::NotationDecl)
                } else if c3 == 0x5B && {
                    let lit: &[u8] = &[0x5B, 0x43, 0x44, 0x41, 0x54, 0x41, 0x5B];
                    assert(lit@ =~= seq![0x5Bu8, 0x43, 0x44, 0x41, 0x54, 0x41, 0x5B]);
                    s.starts_with(lit)
                } {
                    s.advance(7);
                    Ok(TokenType::CDSect)
                } else {
                    Ok(TokenType::Unknown)
                }
            } else if c2 == 0x2F {
                s.advance(1);
                Ok(TokenType::ElementClose)
            } else {
                Ok(TokenType::ElementStart)
            }
        } else if c1 == 0x5D && {
            let lit: &[u8] = &[0x5D, 0x3E];
            assert(lit@ =~= dtd_close());
            s.starts_with(lit)
        } {
            s.advance(2);
            Ok(TokenType::DoctypeEnd)
        } else {
            match state {
                State::Start | State::AfterDtd | State::AfterElements | State::Dtd => {
                    if s.starts_with_space() {
                        Ok(TokenType::Whitespace)
                    } else {
                        Ok(TokenType::Unknown)
                    }
                },
                State::Elements => Ok(TokenType::CharData),
                _ => Ok(TokenType::Unknown),
            }
        }
    }
    /// `S? 'version' Eq quote '1.' digits quote`
    fn parse_version_info(s: &mut Stream<'a>) -> (r: Result<StrSpan<'a>, StreamError>)
        requires
            old(s).wf(),
        ensures
            forward(old(s), final(s)),
            r matches Ok(v) ==> span_in(v, old(s).src(), old(s).pos_spec(), final(s).pos_spec())
                && v@.len() >= 2 && v@[0] == 0x31 && v@[1] == 0x2E,
            r.is_ok() <==> version_end(old(s).s(), old(s).pos_spec(), old(s).end_spec()) is Some,
            r matches Ok(v) ==> ({
                let (w, v0, v1) = version_end(old(s).s(), old(s).pos_spec(), old(s).end_spec())->Some_0;
                final(s).pos_spec() == w && v.covers(old(s).src(), v0, v1)
            }),
    {
        proof {
            reveal(version_end);
        }
        s.skip_spaces();
        let kw: &[u8] = &[0x76, 0x65, 0x72, 0x73, 0x69, 0x6F, 0x6E];
        assert(kw@ =~= version_kw());
        s.skip_string(kw)?;
        s.consume_eq()?;
        s.consume_quote()?;
        let start = s.pos();
        let one_dot: &[u8] = &[0x31, 0x2E];
        assert(one_dot@ =~= seq![0x31u8, 0x2E]);
        s.skip_string(one_dot)?;
        proof {
            assert(s.s().subrange(start as int, start + 2) == seq![0x31u8, 0x2E]);
            assert(s.s()[start as int] == s.s().subrange(start as int, start + 2)[0]);
            assert(s.s()[start + 1] == s.s().subrange(start as int, start + 2)[1]);
        }
        s.consume_class(ByteClass::Digit);
        let ver = s.slice_back(start);
        s.consume_quote()?;
        Ok(ver)
    }

    /// `S? 'encoding' Eq quote EncName quote`, absent where the keyword is.
    fn parse_encoding_decl(s: &mut Stream<'a>) -> (r: Result<Option<StrSpan<'a>>, StreamError>)
        requires
            old(s).wf(),
        ensures
            forward(old(s), final(s)),
            r matches Ok(e) ==> opt_span_in(e, old(s).src(), old(s).pos_spec(), final(s).pos_spec()),
            r.is_ok() <==> encoding_end(old(s).s(), old(s).pos_spec(), old(s).end_spec()) is Some,
            r matches Ok(n) ==> ({
                let (w, range) = encoding_end(old(s).s(), old(s).pos_spec(), old(s).end_spec())->Some_0;
                &&& final(s).pos_spec() == w
                &&& (n is Some <==> range is Some)
                &&& n matches Some(x) ==> x.covers(old(s).src(), range->Some_0.0, range->Some_0.1)
            }),
    {
        proof {
            reveal(encoding_end);
        }
        s.skip_spaces();
        let kw: &[u8] = &[0x65, 0x6E, 0x63, 0x6F, 0x64, 0x69, 0x6E, 0x67];
        assert(kw@ =~= encoding_kw());
        if s.skip_string(kw).is_err() {
            return Ok(None);
        }
        s.consume_eq()?;
        s.consume_quote()?;
        match s.get_curr_byte() {
            Some(c) => {
                if !is_xml_letter(c) {
                    return Err(StreamError::InvalidName);
                }
            },
            None => {
                return Err(StreamError::UnexpectedEndOfStream);
            },
        }
        let name = s.consume_class(ByteClass::EncName);
        s.consume_quote()?;
        Ok(Some(name))
    }

    /// `S? 'standalone' Eq quote ('yes' | 'no') quote`, absent where the
    /// keyword is.
    fn parse_standalone(s: &mut Stream<'a>) -> (r: Result<Option<bool>, StreamError>)
        requires
            old(s).wf(),
        ensures
            forward(old(s), final(s)),
            r.is_ok() <==> standalone_end(old(s).s(), old(s).pos_spec(), old(s).end_spec()) is Some,
            r matches Ok(f) ==> ({
                let (w, flag) = standalone_end(old(s).s(), old(s).pos_spec(), old(s).end_spec())->Some_0;
                final(s).pos_spec() == w && f == flag
            }),
            standalone_bad(old(s).s(), old(s).pos_spec(), old(s).end_spec()) ==> r matches Err(
                StreamError::InvalidString(_, _),
            ),
    {
        proof {
            reveal(standalone_end);
        }
        s.skip_spaces();
        let kw: &[u8] = &[0x73, 0x74, 0x61, 0x6E, 0x64, 0x61, 0x6C, 0x6F, 0x6E, 0x65];
        assert(kw@ =~= standalone_kw());
        if s.skip_string(kw).is_err() {
            return Ok(None);
        }
        s.consume_eq()?;
        s.consume_quote()?;
        let start = s.pos();
        let value = s.consume_name()?;
        let v = value.as_bytes();
        let yes: &[u8] = &[0x79, 0x65, 0x73];
        let no: &[u8] = &[0x6E, 0x6F];
        assert(yes@ =~= seq![0x79u8, 0x65, 0x73]);
        assert(no@ =~= seq![0x6Eu8, 0x6F]);
        let flag = if bytes_eq(v, yes) {
            true
        } else if bytes_eq(v, no) {
            false
        } else {
            let mut values: Vec<Vec<u8>> = Vec::new();
            values.push(vstd::slice::slice_to_vec(v));
            values.push(vec![0x79, 0x65, 0x73]);
            values.push(vec![0x6E, 0x6F]);
            let pos = s.gen_text_pos_from(start);
            return Err(StreamError::InvalidString(values, pos));
        };
        s.consume_quote()?;
        Ok(Some(flag))
    }

    /// The rest of `<?xml ... ?>`, after `<?xml `.
    fn parse_declaration(s: &mut Stream<'a>) -> (r: Result<Token<'a>, StreamError>)
        requires
            old(s).wf(),
        ensures
            forward(old(s), final(s)),
            r matches Ok(t) ==> t is Declaration && t.spans_in(
                old(s).src(),
                old(s).pos_spec(),
                final(s).pos_spec(),
            ),
            r.is_ok() <==> decl_end(old(s).s(), old(s).pos_spec(), old(s).end_spec()) is Some,
            r matches Ok(t) ==> decl_is(
                t,
                old(s).src(),
                decl_end(old(s).s(), old(s).pos_spec(), old(s).end_spec()),
                final(s).pos_spec(),
            ),
    {
        proof {
            reveal(decl_end);
            reveal(decl_is);
        }
        let version = Self::parse_version_info(s)?;
        let encoding = Self::parse_encoding_decl(s)?;
        let standalone = Self::parse_standalone(s)?;
        s.skip_spaces();
        let close: &[u8] = &[0x3F, 0x3E];
        assert(close@ =~= pi_close());
        s.skip_string(close)?;
        Ok(Token::Declaration(version, encoding, standalone))
    }

    /// The rest of `<!-- text -->`, after `<!--`: the characters up to `-->`,
    /// which must hold no `--` and be followed by `-->`.
    fn parse_comment(s: &mut Stream<'a>) -> (r: Option<Token<'a>>)
        requires
            old(s).wf(),
        ensures
            forward(old(s), final(s)),
            ({
                let p = old(s).pos_spec();
                let j = chars_end(old(s).s(), p, old(s).end_spec(), comment_close());
                &&& r.is_some() <==> (!has_double_dash(old(s).s().subrange(p, j))
                    && has_prefix_at(old(s).s(), j, old(s).end_spec(), comment_close()))
                &&& r matches Some(t) ==> t matches Token::Comment(c) && c.covers(
                    old(s).src(),
                    p,
                    j,
                ) && final(s).pos_spec() == j + 3
            }),
    {
        let close: &[u8] = &[0x2D, 0x2D, 0x3E];
        assert(close@ =~= comment_close());
        let text = s.consume_chars_until(close);
        if contains_double_dash(text.as_bytes()) {
            return None;
        }
        if s.skip_string(close).is_err() {
            return None;
        }
        Some(Token::Comment(text))
    }

    /// The rest of `<?target content?>`, after `<?`. Empty content is absent.
    fn parse_pi(s: &mut Stream<'a>) -> (r: Result<Token<'a>, StreamError>)
        requires
            old(s).wf(),
        ensures
            forward(old(s), final(s)),
            r matches Ok(t) ==> t matches Token::ProcessingInstruction(_, c) && (c matches Some(
                x,
            ) ==> x@.len() > 0) && t.spans_in(
                old(s).src(),
                old(s).pos_spec(),
                final(s).pos_spec(),
            ),            r.is_ok() <==> pi_ok(old(s).s(), old(s).pos_spec(), old(s).end_spec()),
            r matches Ok(t)
                ==> pi_is(t, old(s).src(), old(s).pos_spec(), old(s).end_spec(), final(s).pos_spec()),
    {
        proof {
            reveal(pi_is);
            reveal(pi_ok);
        }
        let close: &[u8] = &[0x3F, 0x3E];
        assert(close@ =~= pi_close());
        let target = s.consume_name()?;
        s.skip_spaces();
        let content = s.consume_chars_until(close);
        let content = if !content.is_empty() {
            Some(content)
        } else {
            None
        };
        s.skip_string(close)?;
        Ok(Token::ProcessingInstruction(target, content))
    }

    /// `quote literal quote`, with the same quote at both ends.
    fn parse_literal(s: &mut Stream<'a>) -> (r: Result<StrSpan<'a>, StreamError>)
        requires
            old(s).wf(),
        ensures
            forward(old(s), final(s)),
            r matches Ok(v) ==> span_in(v, old(s).src(), old(s).pos_spec(), final(s).pos_spec()),
            r.is_ok() <==> literal_end(old(s).s(), old(s).pos_spec(), old(s).end_spec()) is Some,
            r matches Ok(v) ==> lit_is(v, old(s).src(), old(s).pos_spec(), old(s).end_spec()),
            r.is_ok() ==> final(s).pos_spec() == literal_end(
                old(s).s(),
                old(s).pos_spec(),
                old(s).end_spec(),
            )->Some_0,
    {
        proof {
            reveal(literal_end);
            if s.pos_spec() < s.end_spec() {
                let q = s.s()[s.pos_spec()];
                lemma_run_end_bounds(s.s(), s.pos_spec() + 1, s.end_spec(), ByteClass::Not(q));
                lemma_run_end_stop(s.s(), s.pos_spec() + 1, s.end_spec(), ByteClass::Not(q));
            }
        }
        let quote = s.consume_quote()?;
        let value = s.consume_class(ByteClass::Not(quote));
        s.consume_byte(quote)?;
        Ok(value)
    }

    /// `'SYSTEM' S literal | 'PUBLIC' S literal S literal`, absent where
    /// neither keyword stands.
    fn parse_external_id(s: &mut Stream<'a>) -> (r: Result<Option<ExternalId<'a>>, StreamError>)
        requires
            old(s).wf(),
        ensures
            forward(old(s), final(s)),
            r matches Ok(id) ==> opt_id_in(id, old(s).src(), old(s).pos_spec(), final(s).pos_spec()),
            r.is_ok() <==> ext_id_end(old(s).s(), old(s).pos_spec(), old(s).end_spec()) is Some,
            r matches Ok(id) ==> ext_id_is(id, old(s).src(), old(s).pos_spec(), old(s).end_spec()),
            !has_prefix_at(old(s).s(), old(s).pos_spec(), old(s).end_spec(), system_kw())
                && !has_prefix_at(old(s).s(), old(s).pos_spec(), old(s).end_spec(), public_kw())
                ==> r == Ok::<Option<ExternalId<'a>>, StreamError>(None),
            r matches Ok(id) ==> (id is Some <==> (has_prefix_at(
                old(s).s(),
                old(s).pos_spec(),
                old(s).end_spec(),
                system_kw(),
            ) || has_prefix_at(old(s).s(), old(s).pos_spec(), old(s).end_spec(), public_kw()))),
            r.is_ok() ==> final(s).pos_spec() == ext_id_end(
                old(s).s(),
                old(s).pos_spec(),
                old(s).end_spec(),
            )->Some_0,
    {
        proof {
            reveal(ext_id_end);
            reveal(spaced_literal_end);
        }
        let system: &[u8] = &[0x53, 0x59, 0x53, 0x54, 0x45, 0x4D];
        let public: &[u8] = &[0x50, 0x55, 0x42, 0x4C, 0x49, 0x43];
        assert(system@ =~= system_kw());
        assert(public@ =~= public_kw());
        let is_system = s.starts_with(system);
        if !is_system && !s.starts_with(public) {
            return Ok(None);
        }
        s.advance(6);
        s.consume_spaces()?;
        let literal1 = Self::parse_literal(s)?;
        if is_system {
            return Ok(Some(ExternalId::System(literal1)));
        }
        s.consume_spaces()?;
        let literal2 = Self::parse_literal(s)?;
        Ok(Some(ExternalId::Public(literal1, literal2)))
    }

    /// The rest of `<!DOCTYPE name id? [` or `<!DOCTYPE name id? >`, after
    /// `<!DOCTYPE`.
    fn parse_doctype(s: &mut Stream<'a>) -> (r: Result<Token<'a>, StreamError>)
        requires
            old(s).wf(),
        ensures
            forward(old(s), final(s)),
            r matches Ok(t) ==> (t is DtdStart || t is EmptyDtd) && t.spans_in(
                old(s).src(),
                old(s).pos_spec(),
                final(s).pos_spec(),
            ),            r.is_ok()
                <==> doctype_end(old(s).s(), old(s).pos_spec(), old(s).end_spec()) is Some,
            r.is_ok() ==> final(s).pos_spec() == doctype_end(
                old(s).s(),
                old(s).pos_spec(),
                old(s).end_spec(),
            )->Some_0,
            r matches Ok(t) ==> (t is DtdStart <==> old(s).s()[final(s).pos_spec() - 1] == 0x5B),
            r matches Ok(t) ==> doctype_is(t, old(s).src(), old(s).pos_spec(), old(s).end_spec()),
    {
        proof {
            reveal(doctype_end);
            reveal(doctype_is);
        }
        s.consume_spaces()?;
        let name = s.consume_name()?;
        s.skip_spaces();
        let id = Self::parse_external_id(s)?;
        s.skip_spaces();
        let c = s.consume_either(0x5B, 0x3E)?;
        if c == 0x5B {
            Ok(Token::DtdStart(name, id))
        } else {
            Ok(Token::EmptyDtd(name, id))
        }
    }

    /// The rest of `<!ENTITY`: an optional `%`, the name, the definition and
    /// `>`.
    fn parse_entity_decl(s: &mut Stream<'a>) -> (r: Result<Token<'a>, StreamError>)
        requires
            old(s).wf(),
        ensures
            forward(old(s), final(s)),
            r matches Ok(t) ==> t is EntityDeclaration && t.spans_in(
                old(s).src(),
                old(s).pos_spec(),
                final(s).pos_spec(),
            ),
            r.is_ok() <==> entity_decl_end(old(s).s(), old(s).pos_spec(), old(s).end_spec()) is Some,
            r matches Ok(t) ==> entity_is(t, old(s).src(), old(s).pos_spec(), old(s).end_spec()),
            r.is_ok() ==> final(s).pos_spec() == entity_decl_end(
                old(s).s(),
                old(s).pos_spec(),
                old(s).end_spec(),
            )->Some_0,
    {
        proof {
            reveal(entity_decl_end);
            reveal(entity_rest_end);
            reveal(entity_is);
        }
        s.consume_spaces()?;
        let is_ge = if s.curr_byte()? == 0x25 {
            s.consume_byte(0x25)?;
            s.consume_spaces()?;
            false
        } else {
            true
        };
        let name = s.consume_name()?;
        s.consume_spaces()?;
        let def = Self::parse_entity_def(s, is_ge)?;
        s.skip_spaces();
        s.consume_byte(0x3E)?;
        Ok(Token::EntityDeclaration(name, def))
    }

    /// A quoted value, or an external id; for a general entity, an `NDATA`
    /// name after the id is skipped.
    fn parse_entity_def(s: &mut Stream<'a>, is_ge: bool) -> (r: Result<
        EntityDefinition<'a>,
        StreamError,
    >)
        requires
            old(s).wf(),
        ensures
            forward(old(s), final(s)),
            r matches Ok(d) ==> match d {
                EntityDefinition::EntityValue(v) => span_in(
                    v,
                    old(s).src(),
                    old(s).pos_spec(),
                    final(s).pos_spec(),
                ),
                EntityDefinition::ExternalId(id) => id.spans_in(
                    old(s).src(),
                    old(s).pos_spec(),
                    final(s).pos_spec(),
                ),
            },
            r.is_ok() <==> entity_def_end(old(s).s(), old(s).pos_spec(), old(s).end_spec(), is_ge) is Some,
            r matches Ok(d) ==> match d {
                EntityDefinition::EntityValue(v) => quote_at(old(s).s(), old(s).pos_spec(), old(s).end_spec())
                    && lit_is(v, old(s).src(), old(s).pos_spec(), old(s).end_spec()),
                EntityDefinition::ExternalId(id) => !quote_at(old(s).s(), old(s).pos_spec(), old(s).end_spec())
                    && ext_id_is(Some(id), old(s).src(), old(s).pos_spec(), old(s).end_spec()),
            },
            r.is_ok() ==> final(s).pos_spec() == entity_def_end(
                old(s).s(),
                old(s).pos_spec(),
                old(s).end_spec(), is_ge,
            )->Some_0,
            ({
                let b = old(s).s();
                let p = old(s).pos_spec();
                let e = old(s).end_spec();
                &&& p >= e ==> r == Err::<EntityDefinition<'a>, StreamError>(
                    StreamError::UnexpectedEndOfStream,
                )
                &&& p < e && (b[p] == 0x53 || b[p] == 0x50) && !has_prefix_at(b, p, e, system_kw())
                    && !has_prefix_at(b, p, e, public_kw()) ==> r == Err::<
                    EntityDefinition<'a>,
                    StreamError,
                >(StreamError::InvalidExternalID)
                &&& p < e && b[p] != 0x22 && b[p] != 0x27 && b[p] != 0x53 && b[p] != 0x50 ==> r matches Err(
                    StreamError::InvalidChar(_, _),
                )
            }),
    {
        proof {
            reveal(entity_def_end);
            let p = s.pos_spec();
            if has_prefix_at(s.s(), p, s.end_spec(), system_kw()) {
                assert(s.s().subrange(p, p + 6)[0] == s.s()[p]);
            }
            if has_prefix_at(s.s(), p, s.end_spec(), public_kw()) {
                assert(s.s().subrange(p, p + 6)[0] == s.s()[p]);
            }
        }
        let c = s.curr_byte()?;
        if c == 0x22 || c == 0x27 {
            let value = Self::parse_literal(s)?;
            Ok(EntityDefinition::EntityValue(value))
        } else if c == 0x53 || c == 0x50 {
            match Self::parse_external_id(s)? {
                Some(id) => {
                    if is_ge {
                        s.skip_spaces();
                        let ndata: &[u8] = &[0x4E, 0x44, 0x41, 0x54, 0x41];
                        assert(ndata@ =~= ndata_kw());
                        if s.starts_with(ndata) {
                            s.skip_string(ndata)?;
                            s.consume_spaces()?;
                            s.consume_name()?;
                        }
                    }
                    Ok(EntityDefinition::ExternalId(id))
                },
                None => Err(StreamError::InvalidExternalID),
            }
        } else {
            let pos = s.gen_text_pos();
            Err(StreamError::InvalidChar(vec![c, 0x22, 0x27, 0x53, 0x50], pos))
        }
    }

    /// The rest of an element, attribute-list or notation declaration:
    /// whitespace, then anything up to and including the next `>` that no
    /// quotes enclose.
    fn consume_decl(s: &mut Stream<'a>) -> (r: Result<(), StreamError>)
        requires
            old(s).wf(),
        ensures
            forward(old(s), final(s)),
            r.is_ok() <==> (old(s).pos_spec() < old(s).end_spec() && is_space_byte(
                old(s).s()[old(s).pos_spec()],
            ) && decl_skip_end(
                old(s).s(),
                run_end(old(s).s(), old(s).pos_spec(), old(s).end_spec(), ByteClass::Space),
                old(s).end_spec(),
                None,
            ) is Some),
            r.is_ok() ==> final(s).pos_spec() == decl_skip_end(
                old(s).s(),
                run_end(old(s).s(), old(s).pos_spec(), old(s).end_spec(), ByteClass::Space),
                old(s).end_spec(),
                None,
            )->Some_0,
    {
        let ghost s0 = *s;
        s.consume_spaces()?;
        let ghost p1 = s.pos_spec();
        let mut quote: Option<u8> = None;
        loop
            invariant
                s0 == *old(s),
                s0.pos_spec() < s0.end_spec() && is_space_byte(s0.s()[s0.pos_spec()]),
                p1 == run_end(s0.s(), s0.pos_spec(), s0.end_spec(), ByteClass::Space),
                old(s).moved(s, s.pos_spec()),
                old(s).pos_spec() <= p1 <= s.pos_spec() <= s.end_spec(),
                decl_skip_end(s.s(), p1, s.end_spec(), None) == decl_skip_end(
                    s.s(),
                    s.pos_spec(),
                    s.end_spec(),
                    quote,
                ),
            decreases s.end_spec() - s.pos_spec(),
        {
            let c = match s.get_curr_byte() {
                Some(c) => c,
                None => {
                    return Err(StreamError::UnexpectedEndOfStream);
                },
            };
            s.advance(1);
            match quote {
                Some(q) => {
                    if c == q {
                        quote = None;
                    }
                },
                None => {
                    if c == 0x3E {
                        return Ok(());
                    } else if c == 0x22 || c == 0x27 {
                        quote = Some(c);
                    }
                },
            }
        }
    }

    /// The rest of `<![CDATA[text]]>`, after `<![CDATA[`: everything up to
    /// the first `]]>`.
    fn parse_cdata(s: &mut Stream<'a>) -> (r: Result<Token<'a>, StreamError>)
        requires
            old(s).wf(),
        ensures
            forward(old(s), final(s)),
            ({
                let p = old(s).pos_spec();
                let j = lit_end(old(s).s(), p, old(s).end_spec(), cdata_close());
                &&& r.is_ok() <==> has_prefix_at(old(s).s(), j, old(s).end_spec(), cdata_close())
                &&& r matches Ok(t) ==> t matches Token::Cdata(c) && c.covers(old(s).src(), p, j)
                    && final(s).pos_spec() == j + 3
            }),
    {
        let close: &[u8] = &[0x5D, 0x5D, 0x3E];
        assert(close@ =~= cdata_close());
        let text = s.consume_until_lit(close);
        s.skip_string(close)?;
        Ok(Token::Cdata(text))
    }

    /// The rest of `<prefix:local`, after `<`.
    fn parse_element_start(s: &mut Stream<'a>) -> (r: Result<Token<'a>, StreamError>)
        requires
            old(s).wf(),
        ensures
            forward(old(s), final(s)),
            r matches Ok(t) ==> t is ElementStart && t.spans_in(
                old(s).src(),
                old(s).pos_spec(),
                final(s).pos_spec(),
            ),
            r.is_ok() <==> crate::stream::name_end(old(s).s(), old(s).pos_spec(), old(s).end_spec()) is Some,
            r.is_err() ==> r == Err::<Token<'a>, StreamError>(StreamError::InvalidName),
            r matches Ok(Token::ElementStart(pr, lo)) ==> qname_is(
                pr,
                lo,
                old(s).src(),
                old(s).pos_spec(),
                crate::stream::name_end(old(s).s(), old(s).pos_spec(), old(s).end_spec())->Some_0,
            ),
            r.is_ok() ==> final(s).pos_spec() == crate::stream::name_end(
                old(s).s(),
                old(s).pos_spec(),
                old(s).end_spec(),
            )->Some_0,
    {
        let (prefix, local) = s.consume_qname()?;
        Ok(Token::ElementStart(prefix, local))
    }

    /// The rest of `</prefix:local S? >`, after `</`.
    fn parse_close_element(s: &mut Stream<'a>) -> (r: Result<Token<'a>, StreamError>)
        requires
            old(s).wf(),
        ensures
            forward(old(s), final(s)),
            r matches Ok(t) ==> t matches Token::ElementEnd(ElementEnd::Close(_, _)) && t.spans_in(
                old(s).src(),
                old(s).pos_spec(),
                final(s).pos_spec(),
            ),            r.is_ok() <==> end_tag_ok(old(s).s(), old(s).pos_spec(), old(s).end_spec()),
            r matches Ok(Token::ElementEnd(ElementEnd::Close(pr, lo))) ==> ({
                let j = crate::stream::name_end(old(s).s(), old(s).pos_spec(), old(s).end_spec())->Some_0;
                &&& qname_is(pr, lo, old(s).src(), old(s).pos_spec(), j)
                &&& final(s).pos_spec() == run_end(old(s).s(), j, old(s).end_spec(), ByteClass::Space) + 1
            }),
    {
        proof {
            reveal(end_tag_ok);
            lemma_name_end_bounds(s.s(), s.pos_spec(), s.end_spec());
        }
        let (prefix, local) = s.consume_qname()?;
        s.skip_spaces();
        s.consume_byte(0x3E)?;
        Ok(Token::ElementEnd(ElementEnd::Close(prefix, local)))
    }

    /// Inside a start tag: `/>`, `>`, or `Name Eq quote value quote`, where
    /// the value holds no `<`.
    fn parse_attribute(s: &mut Stream<'a>) -> (r: Result<Token<'a>, StreamError>)
        requires
            old(s).wf(),
        ensures
            forward(old(s), final(s)),
            r matches Ok(t) ==> final(s).pos_spec() > old(s).pos_spec() && t.spans_in(
                old(s).src(),
                old(s).pos_spec(),
                final(s).pos_spec(),
            ) && (t is Attribute || t matches Token::ElementEnd(ElementEnd::Open)
                || t matches Token::ElementEnd(ElementEnd::Empty)),
            ({
                let q = run_end(old(s).s(), old(s).pos_spec(), old(s).end_spec(), ByteClass::Space);
                !(q < old(s).end_spec() && (old(s).s()[q] == 0x2F || old(s).s()[q] == 0x3E))
                    && attr_value_has_lt(old(s).s(), q, old(s).end_spec()) ==> r == Err::<
                    Token<'a>,
                    StreamError,
                >(StreamError::InvalidAttributeValue)
            }),
            r matches Ok(Token::Attribute(_, v)) ==> !has_byte(v@, 0x3C),
            ({
                let q = run_end(old(s).s(), old(s).pos_spec(), old(s).end_spec(), ByteClass::Space);
                &&& q < old(s).end_spec() && old(s).s()[q] == 0x2F ==> (r.is_ok() <==> has_prefix_at(
                    old(s).s(),
                    q,
                    old(s).end_spec(),
                    empty_close(),
                ))
                &&& !(q < old(s).end_spec() && (old(s).s()[q] == 0x2F || old(s).s()[q] == 0x3E))
                    ==> (r.is_ok() <==> attribute_end(old(s).s(), q, old(s).end_spec()) is Some) && (
                r matches Ok(t) ==> t is Attribute) && (r matches Ok(Token::Attribute((pr, lo), v))
                ==> qname_is(
                    pr,
                    lo,
                    old(s).src(),
                    q,
                    crate::stream::name_end(old(s).s(), q, old(s).end_spec())->Some_0,
                ) && v.covers(
                    old(s).src(),
                    attr_value_start(old(s).s(), q, old(s).end_spec()),
                    attr_value_end(old(s).s(), q, old(s).end_spec()),
                )) && (
                r.is_ok() ==> final(s).pos_spec() == attribute_end(
                    old(s).s(),
                    q,
                    old(s).end_spec(),
                )->Some_0)
                &&& q < old(s).end_spec() && old(s).s()[q] == 0x3E ==> (r matches Ok(
                    Token::ElementEnd(ElementEnd::Open),
                )) && final(s).pos_spec() == q + 1
                &&& has_prefix_at(old(s).s(), q, old(s).end_spec(), empty_close()) ==> (r matches Ok(
                    Token::ElementEnd(ElementEnd::Empty),
                )) && final(s).pos_spec() == q + 2
            }),
    {
        s.skip_spaces();
        proof {
            let q = s.pos_spec();
            if has_prefix_at(s.s(), q, s.end_spec(), empty_close()) {
                let w = s.s().subrange(q, q + 2);
                assert(w[0] == 0x2F && w[1] == 0x3E);
            }
        }
        match s.get_curr_byte() {
            Some(c) => {
                if c == 0x2F {
                    let ghost q = s.pos_spec();
                    s.advance(1);
                    s.consume_byte(0x3E)?;
                    assert(s.s().subrange(q, q + 2) =~= empty_close());
                    return Ok(Token::ElementEnd(ElementEnd::Empty));
                } else if c == 0x3E {
                    s.advance(1);
                    return Ok(Token::ElementEnd(ElementEnd::Open));
                }
            },
            None => {},
        }
        proof {
            reveal(attribute_end);
            lemma_name_end_bounds(s.s(), s.pos_spec(), s.end_spec());
        }
        let (prefix, name) = s.consume_qname()?;
        s.consume_eq()?;
        let quote = s.consume_quote()?;
        proof {
            lemma_run_end_bounds(s.s(), s.pos_spec(), s.end_spec(), ByteClass::Not(quote));
            lemma_run_end_stop(s.s(), s.pos_spec(), s.end_spec(), ByteClass::Not(quote));
        }
        let value = s.consume_class(ByteClass::Not(quote));
        if contains_byte(value.as_bytes(), 0x3C) {
            return Err(StreamError::InvalidAttributeValue);
        }
        s.consume_byte(quote)?;
        s.skip_spaces();
        Ok(Token::Attribute((prefix, name), value))
    }

    /// Character data up to the next `<`: whitespace only, or text.
    fn parse_text(s: &mut Stream<'a>) -> (r: Token<'a>)
        requires
            old(s).wf(),
            old(s).pos_spec() < old(s).end_spec(),
            old(s).s()[old(s).pos_spec()] != 0x3C,
        ensures
            forward(old(s), final(s)),
            final(s).pos_spec() == run_end(
                old(s).s(),
                old(s).pos_spec(),
                old(s).end_spec(),
                ByteClass::Not(0x3C),
            ),
            final(s).pos_spec() > old(s).pos_spec(),
            match r {
                Token::Whitespaces(t) => all_spaces(t@) && t.covers(
                    old(s).src(),
                    old(s).pos_spec(),
                    final(s).pos_spec(),
                ),
                Token::Text(t) => !all_spaces(t@) && t.covers(
                    old(s).src(),
                    old(s).pos_spec(),
                    final(s).pos_spec(),
                ),
                _ => false,
            },
    {
        proof {
            lemma_run_end_bounds(s.s(), s.pos_spec() + 1, s.end_spec(), ByteClass::Not(0x3C));
        }
        let text = s.consume_class(ByteClass::Not(0x3C));
        if only_spaces(text.as_bytes()) {
            Token::Whitespaces(text)
        } else {
            Token::Text(text)
        }
    }

    /// The error for a recognizer of `tt` that failed with `e`, placed at the
    /// token's start.
    fn at_token(s: &Stream<'a>, tt: TokenType, start: usize, r: Result<Token<'a>, StreamError>) -> (out:
        Result<Token<'a>, Error>)
        requires
            s.wf(),
            start <= s.end_spec(),
        ensures
            r matches Ok(t) ==> out == Ok::<Token<'a>, Error>(t),
            r matches Err(e) ==> out == Err::<Token<'a>, Error>(
                Error::InvalidToken(tt, text_pos_at(s.s(), start as int), Some(e)),
            ),
    {
        match r {
            Ok(t) => Ok(t),
            Err(e) => Err(Error::InvalidToken(tt, s.gen_text_pos_from(start), Some(e))),
        }
    }

    /// The error for a token of type `tt` where none of that type may stand.
    fn not_allowed(s: &Stream<'a>, tt: TokenType, start: usize) -> (out: Option<
        Result<Token<'a>, Error>,
    >)
        requires
            s.wf(),
            start <= s.end_spec(),
        ensures
            out matches Some(Err(e)) && error_pos(e) == text_pos_at(s.s(), start as int),
            tt != TokenType::Unknown ==> out == Some(
                Err::<Token<'a>, Error>(
                    Error::UnexpectedToken(tt, text_pos_at(s.s(), start as int)),
                ),
            ),
            tt == TokenType::Unknown ==> out == Some(
                Err::<Token<'a>, Error>(Error::UnknownToken(text_pos_at(s.s(), start as int))),
            ),
    {
        let pos = s.gen_text_pos_from(start);
        match tt {
            TokenType::Unknown => Some(Err(Error::UnknownToken(pos))),
            _ => Some(Err(Error::UnexpectedToken(tt, pos))),
        }
    }

    /// Produces the next token for context `state`.
    fn parse_next_impl(s: &mut Stream<'a>, state: State) -> (r: Option<Result<Token<'a>, Error>>)
        requires
            old(s).wf(),
        ensures
            forward(old(s), final(s)),
            r matches Some(Ok(t)) ==> final(s).pos_spec() > old(s).pos_spec() && t.spans_in(
                old(s).src(),
                old(s).pos_spec(),
                final(s).pos_spec(),
            ) && allowed_in(state, t),
            r matches Some(Ok(Token::Comment(c))) ==> !has_double_dash(c@),
            r matches Some(Ok(Token::Attribute(_, v))) ==> !has_byte(v@, 0x3C),
            pull_result(
                old(s).src(),
                state,
                old(s).start_spec(),
                old(s).pos_spec(),
                old(s).end_spec(),
                r,
                final(s).pos_spec(),
            ),
    {
        match state {
            State::Attributes => Self::parse_in_tag(s),
            State::End => None,
            _ => Self::parse_markup(s, state),
        }
    }

    /// Produces the next token inside a start tag: an attribute, `>` or `/>`.
    fn parse_in_tag(s: &mut Stream<'a>) -> (r: Option<Result<Token<'a>, Error>>)
        requires
            old(s).wf(),
        ensures
            forward(old(s), final(s)),
            r.is_none() ==> final(s).pos_spec() >= final(s).end_spec(),
            r matches Some(Ok(t)) ==> final(s).pos_spec() > old(s).pos_spec() && t.spans_in(
                old(s).src(),
                old(s).pos_spec(),
                final(s).pos_spec(),
            ) && allowed_in(State::Attributes, t),
            r matches Some(Ok(Token::Attribute(_, v))) ==> !has_byte(v@, 0x3C),
            old(s).pos_spec() < old(s).end_spec() ==> produces(
                old(s).src(),
                State::Attributes,
                false,
                old(s).pos_spec(),
                old(s).end_spec(),
                r,
                final(s).pos_spec(),
            ),
    {
        proof {
            assert(!rejected_at(s.s(), s.pos_spec(), s.end_spec(), State::Attributes, false)) by {
                reveal(rejected_at);
            }
        }
        if s.at_end() {
            return None;
        }
        let ghost q = run_end(s.s(), s.pos_spec(), s.end_spec(), ByteClass::Space);
        proof {
            lemma_run_end_bounds(s.s(), s.pos_spec(), s.end_spec(), ByteClass::Space);
            lemma_run_end_stop(s.s(), s.pos_spec(), s.end_spec(), ByteClass::Space);
        }
        s.skip_spaces();
        assert(run_end(s.s(), q, s.end_spec(), ByteClass::Space) == q);
        let tok_start = s.pos();
        let r = Self::parse_attribute(s);
        Some(Self::at_token(s, TokenType::Attribute, tok_start, r))
    }

    /// Produces the next token in every context but a start tag's, passing
    /// over whitespace, a byte-order mark at the range's start and the
    /// declarations that are not represented.
    #[verifier::rlimit(100)]
    #[verifier::spinoff_prover]
    fn parse_markup(s: &mut Stream<'a>, state: State) -> (r: Option<Result<Token<'a>, Error>>)
        requires
            old(s).wf(),
            state != State::Attributes,
            state != State::End,
        ensures
            forward(old(s), final(s)),
            r matches Some(Ok(t)) ==> final(s).pos_spec() > old(s).pos_spec() && t.spans_in(
                old(s).src(),
                old(s).pos_spec(),
                final(s).pos_spec(),
            ) && allowed_in(state, t),
            r matches Some(Ok(Token::Comment(c))) ==> !has_double_dash(c@),
            r matches Some(Ok(Token::Attribute(_, v))) ==> !has_byte(v@, 0x3C),
            pull_result(
                old(s).src(),
                state,
                old(s).start_spec(),
                old(s).pos_spec(),
                old(s).end_spec(),
                r,
                final(s).pos_spec(),
            ),
    {
        let ghost s0 = *s;
        loop
            invariant
                s0.wf(),
                s0 == *old(s),
                forward(&s0, s),
                state != State::End,
                state != State::Attributes,
                settle(s0.s(), s0.pos_spec(), s0.end_spec(), state, s0.start_spec()) == settle(
                    s.s(),
                    s.pos_spec(),
                    s.end_spec(),
                    state,
                    s.start_spec(),
                ),
            decreases s.end_spec() - s.pos_spec(),
        {
            if s.at_end() {
                return None;
            }
            let start = s.pos();
            let at_start = start == s.range_start();
            let bom: &[u8] = &[0xEF, 0xBB, 0xBF];
            assert(bom@ =~= byte_order_mark());
            if at_start && s.starts_with(bom) {
                s.advance(3);
            }
            let tok_start = s.pos();
            proof {
                if has_prefix_at(s.s(), s.pos_spec(), s.end_spec(), comment_open()) {
                    assert(s.s().subrange(s.pos_spec(), s.pos_spec() + 4)[0] == s.s()[s.pos_spec()]);
                }
            }
            match Self::step(s, state, at_start, tok_start) {
                Some(x) => {
                    return x;
                },
                None => {},
            }
        }
    }

    /// Reads the token that starts at the cursor, in context `state`; `None`
    /// where what stands there is passed over (whitespace, a discarded
    /// declaration).
    #[verifier::rlimit(100)]
    #[verifier::spinoff_prover]
    fn step(s: &mut Stream<'a>, state: State, at_start: bool, tok_start: usize) -> (r: Option<
        Option<Result<Token<'a>, Error>>,
    >)
        requires
            old(s).wf(),
            state != State::Attributes,
            state != State::End,
            tok_start == old(s).pos_spec(),
        ensures
            forward(old(s), final(s)),
            r matches Some(Some(Ok(t))) ==> final(s).pos_spec() > old(s).pos_spec() && t.spans_in(
                old(s).src(),
                old(s).pos_spec(),
                final(s).pos_spec(),
            ) && allowed_in(state, t),
            r matches Some(Some(Ok(Token::Comment(c)))) ==> !has_double_dash(c@),
            r matches Some(Some(Ok(Token::Attribute(_, v)))) ==> !has_byte(v@, 0x3C),
            ({
                let b = old(s).s();
                let t = old(s).pos_spec();
                let e = old(s).end_spec();
                match classify(b, t, e, state) {
                    Some((tt, n)) => if tt == TokenType::Whitespace {
                        r is None && final(s).pos_spec() == run_end(b, t, e, ByteClass::Space)
                            && final(s).pos_spec() > t
                    } else if state == State::Dtd && (tt == TokenType::ElementDecl || tt
                        == TokenType::AttlistDecl || tt == TokenType::NotationDecl) {
                        match decl_body_end(b, n, e) {
                            Some(m) => r is None && final(s).pos_spec() == m && m > t,
                            None => r == Some(
                                Some(
                                    Err::<Token<'a>, Error>(
                                        Error::UnexpectedToken(tt, text_pos_at(b, t)),
                                    ),
                                ),
                            ),
                        }
                    } else {
                        r matches Some(x)
                            && produces(old(s).src(), state, at_start, t, e, x, final(s).pos_spec())
                    },
                    None => r matches Some(x) && produces(
                        old(s).src(),
                        state,
                        at_start,
                        t,
                        e,
                        x,
                        final(s).pos_spec(),
                    ),
                }
            }),
    {
        let ghost before = *s;
        let token_type = match Self::parse_token_type(s, state) {
            Ok(v) => v,
            Err(_) => {
                let pos = s.gen_text_pos_from(tok_start);
                proof {
                    assert(rejected_at(before.s(), tok_start as int, before.end_spec(), state, at_start)) by {
                        reveal(rejected_at);
                    }
                    assert(rejection(before.s(), tok_start as int, before.end_spec(), state)
                        == Error::UnknownToken(pos)) by {
                        reveal(rejection);
                    }
                }
                return Some(Some(Err(Error::UnknownToken(pos))));
            },
        };
        if !admitted(state, token_type, at_start) {
            let r = Self::not_allowed(s, token_type, tok_start);
            proof {
                assert(rejected_at(before.s(), tok_start as int, before.end_spec(), state, at_start)) by {
                    reveal(rejected_at);
                }
                assert(r == Some(
                    Err::<Token<'a>, Error>(
                        rejection(before.s(), tok_start as int, before.end_spec(), state),
                    ),
                )) by {
                    reveal(rejection);
                }
            }
            return Some(r);
        }
        proof {
            assert(!rejected_at(before.s(), tok_start as int, before.end_spec(), state, at_start)) by {
                reveal(rejected_at);
            }
            if s.pos_spec() < s.end_spec() {
                lemma_run_end_bounds(s.s(), s.pos_spec() + 1, s.end_spec(), ByteClass::Space);
            }
        }
        match state {
            State::Start => {
                match token_type {
                    TokenType::XMLDecl => {
                        if at_start {
                            let r = Self::parse_declaration(s);
                            return Some(Some(Self::at_token(s, TokenType::XMLDecl, tok_start, r)));
                        }
                        return Some(Self::not_allowed(s, token_type, tok_start));
                    },
                    TokenType::Comment => {
                        return Some(Self::comment_token(s, tok_start));
                    },
                    TokenType::PI => {
                        let r = Self::parse_pi(s);
                        return Some(Some(Self::at_token(s, TokenType::PI, tok_start, r)));
                    },
                    TokenType::DoctypeDecl => {
                        let r = Self::parse_doctype(s);
                        return Some(Some(Self::at_token(s, TokenType::DoctypeDecl, tok_start, r)));
                    },
                    TokenType::ElementStart => {
                        let r = Self::parse_element_start(s);
                        return Some(Some(Self::at_token(s, TokenType::ElementStart, tok_start, r)));
                    },
                    TokenType::Whitespace => {
                        s.skip_spaces();
                        return None;
                    },
                    _ => {
                        return Some(Self::not_allowed(s, token_type, tok_start));
                    },
                }
            },
            State::Dtd => {
                match token_type {
                    TokenType::ElementDecl | TokenType::NotationDecl | TokenType::AttlistDecl => {
                        if Self::consume_decl(s).is_err() {
                            return Some(Self::not_allowed(s, token_type, tok_start));
                        }
                        return None;
                    },
                    TokenType::EntityDecl => {
                        let r = Self::parse_entity_decl(s);
                        return Some(Some(Self::at_token(s, TokenType::EntityDecl, tok_start, r)));
                    },
                    TokenType::Comment => {
                        return Some(Self::comment_token(s, tok_start));
                    },
                    TokenType::PI => {
                        let r = Self::parse_pi(s);
                        return Some(Some(Self::at_token(s, TokenType::PI, tok_start, r)));
                    },
                    TokenType::DoctypeEnd => {
                        return Some(Some(Ok(Token::DtdEnd)));
                    },
                    TokenType::Whitespace => {
                        s.skip_spaces();
                        return None;
                    },
                    _ => {
                        return Some(Self::not_allowed(s, token_type, tok_start));
                    },
                }
            },
            State::AfterDtd => {
                match token_type {
                    TokenType::Comment => {
                        return Some(Self::comment_token(s, tok_start));
                    },
                    TokenType::PI => {
                        let r = Self::parse_pi(s);
                        return Some(Some(Self::at_token(s, TokenType::PI, tok_start, r)));
                    },
                    TokenType::ElementStart => {
                        let r = Self::parse_element_start(s);
                        return Some(Some(Self::at_token(s, TokenType::ElementStart, tok_start, r)));
                    },
                    TokenType::Whitespace => {
                        s.skip_spaces();
                        return None;
                    },
                    _ => {
                        return Some(Self::not_allowed(s, token_type, tok_start));
                    },
                }
            },
            State::Elements => {
                match token_type {
                    TokenType::ElementStart => {
                        let r = Self::parse_element_start(s);
                        return Some(Some(Self::at_token(s, TokenType::ElementStart, tok_start, r)));
                    },
                    TokenType::ElementClose => {
                        let r = Self::parse_close_element(s);
                        return Some(Some(Self::at_token(s, TokenType::ElementClose, tok_start, r)));
                    },
                    TokenType::CDSect => {
                        let r = Self::parse_cdata(s);
                        return Some(Some(Self::at_token(s, TokenType::CDSect, tok_start, r)));
                    },
                    TokenType::PI => {
                        let r = Self::parse_pi(s);
                        return Some(Some(Self::at_token(s, TokenType::PI, tok_start, r)));
                    },
                    TokenType::Comment => {
                        return Some(Self::comment_token(s, tok_start));
                    },
                    TokenType::CharData => {
                        return Some(Some(Ok(Self::parse_text(s))));
                    },
                    _ => {
                        return Some(Self::not_allowed(s, token_type, tok_start));
                    },
                }
            },
            State::AfterElements => {
                match token_type {
                    TokenType::Comment => {
                        return Some(Self::comment_token(s, tok_start));
                    },
                    TokenType::PI => {
                        let r = Self::parse_pi(s);
                        return Some(Some(Self::at_token(s, TokenType::PI, tok_start, r)));
                    },
                    TokenType::Whitespace => {
                        s.skip_spaces();
                        return None;
                    },
                    _ => {
                        return Some(Self::not_allowed(s, token_type, tok_start));
                    },
                }
            },
            State::Attributes | State::End => {
                return None;
            },
        }
    }

    /// A comment after `<!--`, with its failure placed at the token's start.
    fn comment_token(s: &mut Stream<'a>, start: usize) -> (r: Option<Result<Token<'a>, Error>>)
        requires
            old(s).wf(),
            start <= old(s).pos_spec(),
        ensures
            forward(old(s), final(s)),
            r matches Some(Ok(t)) ==> t is Comment && t.spans_in(
                old(s).src(),
                old(s).pos_spec(),
                final(s).pos_spec(),
            ),
            r matches Some(Ok(Token::Comment(c))) ==> !has_double_dash(c@),
            r matches Some(Err(e)) ==> e == Error::InvalidToken(
                TokenType::Comment,
                text_pos_at(old(s).s(), start as int),
                None,
            ),
            r.is_some(),
            ({
                let p = old(s).pos_spec();
                let j = chars_end(old(s).s(), p, old(s).end_spec(), comment_close());
                &&& (r matches Some(Ok(_))) <==> comment_ok(old(s).s(), p, old(s).end_spec())
                &&& r matches Some(Ok(t)) ==> t matches Token::Comment(c) && c.covers(
                    old(s).src(),
                    p,
                    j,
                ) && final(s).pos_spec() == j + 3
            }),
    {
        let ghost p = s.pos_spec();
        proof {
            reveal(comment_ok);
            lemma_chars_end_bounds(s.s(), p, s.end_spec(), comment_close());
        }
        match Self::parse_comment(s) {
            Some(t) => {
                proof {
                    if let Token::Comment(c) = t {
                        assert(c@ == s.s().subrange(c.start_spec(), c.end_spec()));
                    }
                }
                Some(Ok(t))
            },
            None => Some(Err(Error::InvalidToken(TokenType::Comment, s.gen_text_pos_from(start), None))),
        }
    }

}

} // verus!
