//! A pull-based, allocation-free XML 1.0 tokenizer whose tokens carry byte
//! spans into the caller's buffer.
use vstd::prelude::*;
use vstd::string::StringSliceAdditionalSpecFns;

pub mod error;
pub mod stream;
pub mod strspan;
pub mod tokenizer;
pub mod xmlchar;

pub use error::{Error, StreamError, TextPos};
pub use strspan::StrSpan;
pub use tokenizer::{State, Tokenizer};

verus! {

/// The kinds of token, as named in errors.
#[derive(Clone, Copy, PartialEq, Eq, Debug)]
pub enum TokenType {
    XMLDecl,
    Comment,
    PI,
    DoctypeDecl,
    ElementDecl,
    AttlistDecl,
    EntityDecl,
    NotationDecl,
    DoctypeEnd,
    ElementStart,
    ElementClose,
    Attribute,
    CDSect,
    Whitespace,
    CharData,
    Unknown,
}

/// The readable name of a token type.
pub open spec fn token_type_name(t: TokenType) -> Seq<char> {
    match t {
        TokenType::XMLDecl => "Declaration"@,
        TokenType::Comment => "Comment"@,
        TokenType::PI => "Processing Instruction"@,
        TokenType::DoctypeDecl => "Doctype Declaration"@,
        TokenType::ElementDecl => "Doctype Element Declaration"@,
        TokenType::AttlistDecl => "Doctype Attributes Declaration"@,
        TokenType::EntityDecl => "Doctype Entity Declaration"@,
        TokenType::NotationDecl => "Doctype Notation Declaration"@,
        TokenType::DoctypeEnd => "Doctype End"@,
        TokenType::ElementStart => "Element Start"@,
        TokenType::ElementClose => "Element Close"@,
        TokenType::Attribute => "Attribute"@,
        TokenType::CDSect => "CDATA"@,
        TokenType::Whitespace => "Whitespace"@,
        TokenType::CharData => "Character data"@,
        TokenType::Unknown => "Unknown"@,
    }
}

impl TokenType {
    /// The readable name of the token type, as used in messages.
    pub fn as_str(&self) -> (r: &'static str)
        ensures
            r@ == token_type_name(*self),
    {
        match self {
            TokenType::XMLDecl => "Declaration",
            TokenType::Comment => "Comment",
            TokenType::PI => "Processing Instruction",
            TokenType::DoctypeDecl => "Doctype Declaration",
            TokenType::ElementDecl => "Doctype Element Declaration",
            TokenType::AttlistDecl => "Doctype Attributes Declaration",
            TokenType::EntityDecl => "Doctype Entity Declaration",
            TokenType::NotationDecl => "Doctype Notation Declaration",
            TokenType::DoctypeEnd => "Doctype End",
            TokenType::ElementStart => "Element Start",
            TokenType::ElementClose => "Element Close",
            TokenType::Attribute => "Attribute",
            TokenType::CDSect => "CDATA",
            TokenType::Whitespace => "Whitespace",
            TokenType::CharData => "Character data",
            TokenType::Unknown => "Unknown",
        }
    }
}

/// A span of `text` that lies inside `[lo, hi]`.
pub open spec fn span_in<'a>(sp: StrSpan<'a>, text: &'a str, lo: int, hi: int) -> bool {
    sp.wf() && sp.source() == text && lo <= sp.start_spec() && sp.end_spec() <= hi
}

/// Two `-` in a row.
pub open spec fn has_double_dash(t: Seq<u8>) -> bool {
    exists|k: int| 0 <= k && k + 1 < t.len() && #[trigger] t[k] == 0x2D && t[k + 1] == 0x2D
}

/// The byte `b` occurs in `t`.
pub open spec fn has_byte(t: Seq<u8>, b: u8) -> bool {
    exists|k: int| 0 <= k < t.len() && t[k] == b
}

/// An XML token. Every payload is a span of the input.
#[derive(Clone, Copy, PartialEq, Debug)]
pub enum Token<'a> {
    /// `<?xml version="1.0" encoding="UTF-8" standalone="yes"?>`: version,
    /// encoding and standalone.
    Declaration(StrSpan<'a>, Option<StrSpan<'a>>, Option<bool>),
    /// `<?target content?>`: target and content, absent where empty.
    ProcessingInstruction(StrSpan<'a>, Option<StrSpan<'a>>),
    /// `<!-- text -->`: the text between the delimiters.
    Comment(StrSpan<'a>),
    /// `<!DOCTYPE name [`: name and external id.
    DtdStart(StrSpan<'a>, Option<ExternalId<'a>>),
    /// `<!DOCTYPE name>`: name and external id.
    EmptyDtd(StrSpan<'a>, Option<ExternalId<'a>>),
    /// `<!ENTITY name "value">`: name and definition.
    EntityDeclaration(StrSpan<'a>, EntityDefinition<'a>),
    /// `]>`
    DtdEnd,
    /// `<prefix:local`: prefix and local part of the element's name.
    ElementStart(StrSpan<'a>, StrSpan<'a>),
    /// `prefix:local="value"`: the qualified name and the value.
    Attribute((StrSpan<'a>, StrSpan<'a>), StrSpan<'a>),
    /// The end of an element's start tag, or an end tag.
    ElementEnd(ElementEnd<'a>),
    /// Character data between markup.
    Text(StrSpan<'a>),
    /// Character data made of whitespace only.
    Whitespaces(StrSpan<'a>),
    /// `<![CDATA[text]]>`: the text.
    Cdata(StrSpan<'a>),
}

/// How an element's tag ends.
#[derive(Clone, Copy, PartialEq, Debug)]
pub enum ElementEnd<'a> {
    /// `>`
    Open,
    /// `</prefix:local>`
    Close(StrSpan<'a>, StrSpan<'a>),
    /// `/>`
    Empty,
}

/// The `ExternalID` production.
#[derive(Clone, Copy, PartialEq, Debug)]
pub enum ExternalId<'a> {
    /// `SYSTEM "literal"`
    System(StrSpan<'a>),
    /// `PUBLIC "pubid" "literal"`
    Public(StrSpan<'a>, StrSpan<'a>),
}

/// The `EntityDef` production.
#[derive(Clone, Copy, PartialEq, Debug)]
pub enum EntityDefinition<'a> {
    /// A quoted value.
    EntityValue(StrSpan<'a>),
    /// A reference to external content.
    ExternalId(ExternalId<'a>),
}

impl<'a> ExternalId<'a> {
    /// Its spans are spans of `text` inside `[lo, hi]`.
    pub open spec fn spans_in(&self, text: &'a str, lo: int, hi: int) -> bool {
        match *self {
            ExternalId::System(a) => span_in(a, text, lo, hi),
            ExternalId::Public(a, b) => span_in(a, text, lo, hi) && span_in(b, text, lo, hi),
        }
    }
}

/// An optional span is a span of `text` inside `[lo, hi]`, where present.
pub open spec fn opt_span_in<'a>(sp: Option<StrSpan<'a>>, text: &'a str, lo: int, hi: int) -> bool {
    sp matches Some(a) ==> span_in(a, text, lo, hi)
}

/// An optional external id has its spans in `text` inside `[lo, hi]`.
pub open spec fn opt_id_in<'a>(id: Option<ExternalId<'a>>, text: &'a str, lo: int, hi: int) -> bool {
    id matches Some(a) ==> a.spans_in(text, lo, hi)
}

impl<'a> Token<'a> {
    /// Every span of the token is a span of `text` inside `[lo, hi]`.
    pub open spec fn spans_in(&self, text: &'a str, lo: int, hi: int) -> bool {
        match *self {
            Token::Declaration(v, e, _) => span_in(v, text, lo, hi) && opt_span_in(e, text, lo, hi),
            Token::ProcessingInstruction(t, c) => span_in(t, text, lo, hi) && opt_span_in(
                c,
                text,
                lo,
                hi,
            ),
            Token::Comment(t) => span_in(t, text, lo, hi),
            Token::DtdStart(n, id) => span_in(n, text, lo, hi) && opt_id_in(id, text, lo, hi),
            Token::EmptyDtd(n, id) => span_in(n, text, lo, hi) && opt_id_in(id, text, lo, hi),
            Token::EntityDeclaration(n, d) => span_in(n, text, lo, hi) && match d {
                EntityDefinition::EntityValue(v) => span_in(v, text, lo, hi),
                EntityDefinition::ExternalId(id) => id.spans_in(text, lo, hi),
            },
            Token::DtdEnd => true,
            Token::ElementStart(p, l) => span_in(p, text, lo, hi) && span_in(l, text, lo, hi),
            Token::Attribute((p, l), v) => span_in(p, text, lo, hi) && span_in(l, text, lo, hi)
                && span_in(v, text, lo, hi),
            Token::ElementEnd(ElementEnd::Close(p, l)) => span_in(p, text, lo, hi) && span_in(
                l,
                text,
                lo,
                hi,
            ),
            Token::ElementEnd(_) => true,
            Token::Text(t) => span_in(t, text, lo, hi),
            Token::Whitespaces(t) => span_in(t, text, lo, hi),
            Token::Cdata(t) => span_in(t, text, lo, hi),
        }
    }
}

/// A span of the input reads exactly the input's bytes over its range, and
/// that range lies where the span was found.
pub proof fn lemma_span_fidelity<'a>(sp: StrSpan<'a>, text: &'a str, lo: int, hi: int)
    requires
        span_in(sp, text, lo, hi),
    ensures
        sp@ == text.spec_bytes().subrange(sp.start_spec(), sp.end_spec()),
        lo <= sp.start_spec() <= sp.end_spec() <= hi,
{
}

/// The position an error reports.
pub open spec fn error_pos(e: Error) -> TextPos {
    match e {
        Error::InvalidToken(_, p, _) => p,
        Error::UnexpectedToken(_, p) => p,
        Error::UnknownToken(p) => p,
    }
}

} // verus!
