//! A forward-only cursor over the bytes of a text, with the scanning
//! operations the XML grammar needs.
use vstd::prelude::*;
use vstd::string::StringSliceAdditionalSpecFns;
use crate::error::{StreamError, TextPos};
use crate::strspan::StrSpan;
use crate::xmlchar::{
    is_digit_byte, is_letter_byte, is_name_char_spec, is_name_start_spec, is_space_byte,
    is_xml_char_spec, is_xml_char, is_xml_digit, is_xml_letter, is_xml_name_char,
    is_xml_name_start, is_xml_space,
};

verus! {

/// `lit` stands in `s` at offset `i`, and ends no later than `end`.
pub open spec fn has_prefix_at(s: Seq<u8>, i: int, end: int, lit: Seq<u8>) -> bool {
    0 <= i && i + lit.len() <= end && end <= s.len() && s.subrange(i, i + lit.len()) == lit
}

/// A UTF-8 continuation byte.
pub open spec fn is_cont(b: u8) -> bool {
    0x80 <= b && b < 0xC0
}

/// The code point encoded at offset `i`, with its length in bytes, where a
/// well-formed encoding ends before `end`.
pub open spec fn decode_at(s: Seq<u8>, i: int, end: int) -> Option<(u32, int)> {
    if i < 0 || i >= end || end > s.len() {
        None
    } else if s[i] < 0x80 {
        Some((s[i] as u32, 1))
    } else if 0xC0 <= s[i] < 0xE0 && i + 1 < end && is_cont(s[i + 1]) {
        Some((((s[i] - 0xC0) * 64 + (s[i + 1] - 0x80)) as u32, 2))
    } else if 0xE0 <= s[i] < 0xF0 && i + 2 < end && is_cont(s[i + 1]) && is_cont(s[i + 2]) {
        Some((((s[i] - 0xE0) * 4096 + (s[i + 1] - 0x80) * 64 + (s[i + 2] - 0x80)) as u32, 3))
    } else if 0xF0 <= s[i] < 0xF8 && i + 3 < end && is_cont(s[i + 1]) && is_cont(s[i + 2])
        && is_cont(s[i + 3]) {
        Some(
            (((s[i] - 0xF0) * 262144 + (s[i + 1] - 0x80) * 4096 + (s[i + 2] - 0x80) * 64 + (s[i
                + 3] - 0x80)) as u32, 4),
        )
    } else {
        None
    }
}

/// The sets of bytes that the cursor can skip a run of.
#[derive(Clone, Copy, PartialEq, Eq, Debug)]
pub enum ByteClass {
    /// XML whitespace.
    Space,
    /// ASCII digits.
    Digit,
    /// Letters, digits, `.`, `-` and `_`.
    EncName,
    /// Every byte but the one given.
    Not(u8),
}

/// Whether `c` belongs to class `k`.
pub open spec fn in_class(k: ByteClass, c: u8) -> bool {
    match k {
        ByteClass::Space => is_space_byte(c),
        ByteClass::Digit => is_digit_byte(c),
        ByteClass::EncName => is_letter_byte(c) || is_digit_byte(c) || c == 0x2E || c == 0x2D || c
            == 0x5F,
        ByteClass::Not(b) => c != b,
    }
}

fn class_has(k: ByteClass, c: u8) -> (r: bool)
    ensures
        r == in_class(k, c),
{
    match k {
        ByteClass::Space => is_xml_space(c),
        ByteClass::Digit => is_xml_digit(c),
        ByteClass::EncName => is_xml_letter(c) || is_xml_digit(c) || c == 0x2E || c == 0x2D || c
            == 0x5F,
        ByteClass::Not(b) => c != b,
    }
}

/// End of the run of bytes of class `k` that starts at `i`.
pub open spec fn run_end(s: Seq<u8>, i: int, end: int, k: ByteClass) -> int
    decreases end - i,
{
    if 0 <= i < end && i < s.len() && in_class(k, s[i]) {
        run_end(s, i + 1, end, k)
    } else {
        i
    }
}

/// The first offset from `i` on at which `lit` stands, or `end`.
pub open spec fn lit_end(s: Seq<u8>, i: int, end: int, lit: Seq<u8>) -> int
    decreases end - i,
{
    if i < end && !has_prefix_at(s, i, end, lit) {
        lit_end(s, i + 1, end, lit)
    } else {
        i
    }
}

/// End of the run of XML characters from `i` that stops where `lit` stands.
pub open spec fn chars_end(s: Seq<u8>, i: int, end: int, lit: Seq<u8>) -> int
    decreases end - i,
{
    if i >= end || has_prefix_at(s, i, end, lit) {
        i
    } else {
        match decode_at(s, i, end) {
            Some((c, n)) => if is_xml_char_spec(c) && n > 0 {
                chars_end(s, i + n, end, lit)
            } else {
                i
            },
            None => i,
        }
    }
}

/// End of the run of name characters that starts at `i`.
pub open spec fn name_rest(s: Seq<u8>, i: int, end: int) -> int
    decreases end - i,
{
    match decode_at(s, i, end) {
        Some((c, n)) => if is_name_char_spec(c) && n > 0 {
            name_rest(s, i + n, end)
        } else {
            i
        },
        None => i,
    }
}

/// End of the XML `Name` that starts at `i`, if one does.
pub open spec fn name_end(s: Seq<u8>, i: int, end: int) -> Option<int> {
    match decode_at(s, i, end) {
        Some((c, n)) => if is_name_start_spec(c) {
            Some(name_rest(s, i + n, end))
        } else {
            None
        },
        None => None,
    }
}

/// Line feeds among the first `n` bytes.
pub open spec fn newlines_before(s: Seq<u8>, n: int) -> int
    decreases n,
{
    if n <= 0 {
        0
    } else {
        newlines_before(s, n - 1) + if s[n - 1] == 0x0A {
            1int
        } else {
            0int
        }
    }
}

/// The 1-based column, in characters, of offset `n`.
pub open spec fn column_at(s: Seq<u8>, n: int) -> int
    decreases n,
{
    if n <= 0 {
        1
    } else if s[n - 1] == 0x0A {
        1
    } else if is_cont(s[n - 1]) {
        column_at(s, n - 1)
    } else {
        column_at(s, n - 1) + 1
    }
}

/// A run of a byte class ends between its start and the range's end.
pub proof fn lemma_run_end_bounds(s: Seq<u8>, i: int, end: int, k: ByteClass)
    requires
        0 <= i <= end,
    ensures
        i <= run_end(s, i, end, k) <= end,
    decreases end - i,
{
    if 0 <= i < end && i < s.len() && in_class(k, s[i]) {
        lemma_run_end_bounds(s, i + 1, end, k);
    }
}

/// A run of a byte class that stops before the range's end stops at a byte
/// outside the class.
pub proof fn lemma_run_end_stop(s: Seq<u8>, i: int, end: int, k: ByteClass)
    requires
        0 <= i <= end <= s.len(),
    ensures
        run_end(s, i, end, k) < end ==> !in_class(k, s[run_end(s, i, end, k)]),
    decreases end - i,
{
    if 0 <= i < end && i < s.len() && in_class(k, s[i]) {
        lemma_run_end_stop(s, i + 1, end, k);
    }
}

/// The search for a literal ends between its start and the range's end.
pub proof fn lemma_lit_end_bounds(s: Seq<u8>, i: int, end: int, lit: Seq<u8>)
    requires
        0 <= i <= end,
    ensures
        i <= lit_end(s, i, end, lit) <= end,
    decreases end - i,
{
    if i < end && !has_prefix_at(s, i, end, lit) {
        lemma_lit_end_bounds(s, i + 1, end, lit);
    }
}

/// A run of characters ends between its start and the range's end.
pub proof fn lemma_chars_end_bounds(s: Seq<u8>, i: int, end: int, lit: Seq<u8>)
    requires
        0 <= i <= end <= s.len(),
    ensures
        i <= chars_end(s, i, end, lit) <= end,
    decreases end - i,
{
    if !(i >= end || has_prefix_at(s, i, end, lit)) {
        match decode_at(s, i, end) {
            Some((c, n)) => if is_xml_char_spec(c) && n > 0 {
                lemma_chars_end_bounds(s, i + n, end, lit);
            },
            None => {},
        }
    }
}

/// A run of name characters ends between its start and the range's end.
pub proof fn lemma_name_rest_bounds(s: Seq<u8>, i: int, end: int)
    requires
        0 <= i <= end <= s.len(),
    ensures
        i <= name_rest(s, i, end) <= end,
    decreases end - i,
{
    match decode_at(s, i, end) {
        Some((c, n)) => if is_name_char_spec(c) && n > 0 {
            lemma_name_rest_bounds(s, i + n, end);
        },
        None => {},
    }
}

/// A name ends after its start and no later than the range's end.
pub proof fn lemma_name_end_bounds(s: Seq<u8>, i: int, end: int)
    requires
        0 <= i <= end <= s.len(),
    ensures
        name_end(s, i, end) matches Some(j) ==> i < j <= end,
{
    match decode_at(s, i, end) {
        Some((c, n)) => if is_name_start_spec(c) {
            lemma_name_rest_bounds(s, i + n, end);
        },
        None => {},
    }
}

/// Line and column of offset `n`.
pub open spec fn text_pos_at(s: Seq<u8>, n: int) -> TextPos {
    TextPos { row: (1 + newlines_before(s, n)) as usize, col: column_at(s, n) as usize }
}

/// A cursor over the bytes `[start, end)` of a text.
#[derive(Clone, Copy)]
pub struct Stream<'a> {
    text: &'a str,
    bytes: &'a [u8],
    pos: usize,
    start: usize,
    end: usize,
}

impl<'a> Stream<'a> {
    /// The whole text.
    pub closed spec fn src(&self) -> &'a str {
        self.text
    }

    /// The current offset.
    pub closed spec fn pos_spec(&self) -> int {
        self.pos as int
    }

    /// Offset where the scanned range begins.
    pub closed spec fn start_spec(&self) -> int {
        self.start as int
    }

    /// Offset where the scanned range ends.
    pub closed spec fn end_spec(&self) -> int {
        self.end as int
    }

    /// The byte slice is the text's bytes.
    pub closed spec fn bytes_ok(&self) -> bool {
        self.bytes@ == self.text.spec_bytes()
    }

    /// The bytes of the whole text.
    pub open spec fn s(&self) -> Seq<u8> {
        self.src().spec_bytes()
    }

    /// Offsets are in order and inside the text, whose length leaves room to
    /// count lines.
    pub open spec fn wf(&self) -> bool {
        &&& self.bytes_ok()
        &&& 0 <= self.start_spec() <= self.pos_spec() <= self.end_spec() <= self.s().len()
        &&& self.s().len() < usize::MAX
    }

    /// `other` scans the same range of the same text.
    pub open spec fn same_input(&self, other: &Stream<'a>) -> bool {
        self.src() == other.src() && self.start_spec() == other.start_spec() && self.end_spec()
            == other.end_spec()
    }

    /// `other` is `self` moved to offset `p`.
    pub open spec fn moved(&self, other: &Stream<'a>, p: int) -> bool {
        other.wf() && self.same_input(other) && other.pos_spec() == p
    }

    /// A cursor at the start of `span`.
    pub fn from_span(span: StrSpan<'a>) -> (r: Stream<'a>)
        requires
            span.wf(),
            span.source().spec_bytes().len() < usize::MAX,
        ensures
            r.wf(),
            r.src() == span.source(),
            r.start_spec() == span.start_spec(),
            r.pos_spec() == span.start_spec(),
            r.end_spec() == span.end_spec(),
    {
        let text = span.full_str();
        let bytes = text.as_bytes();
        Stream { text, bytes, pos: span.start(), start: span.start(), end: span.end() }
    }

    /// The current offset.
    pub fn pos(&self) -> (r: usize)
        ensures
            r == self.pos_spec(),
    {
        self.pos
    }

    /// Offset where the scanned range begins.
    pub fn range_start(&self) -> (r: usize)
        ensures
            r == self.start_spec(),
    {
        self.start
    }

    /// Whether nothing is left to scan.
    pub fn at_end(&self) -> (r: bool)
        requires
            self.wf(),
        ensures
            r == (self.pos_spec() >= self.end_spec()),
    {
        self.pos >= self.end
    }

    /// The byte at the cursor.
    pub fn curr_byte(&self) -> (r: Result<u8, StreamError>)
        requires
            self.wf(),
        ensures
            self.pos_spec() < self.end_spec() ==> r == Ok::<u8, StreamError>(
                self.s()[self.pos_spec()],
            ),
            self.pos_spec() >= self.end_spec() ==> r == Err::<u8, StreamError>(
                StreamError::UnexpectedEndOfStream,
            ),
    {
        if self.pos < self.end {
            Ok(self.bytes[self.pos])
        } else {
            Err(StreamError::UnexpectedEndOfStream)
        }
    }

    /// The byte at the cursor, if any.
    pub fn get_curr_byte(&self) -> (r: Option<u8>)
        requires
            self.wf(),
        ensures
            self.pos_spec() < self.end_spec() ==> r == Some(self.s()[self.pos_spec()]),
            self.pos_spec() >= self.end_spec() ==> r.is_none(),
    {
        if self.pos < self.end {
            Some(self.bytes[self.pos])
        } else {
            None
        }
    }

    /// Moves the cursor `n` bytes on.
    pub fn advance(&mut self, n: usize)
        requires
            old(self).wf(),
            old(self).pos_spec() + n <= old(self).end_spec(),
        ensures
            old(self).moved(final(self), old(self).pos_spec() + n),
    {
        self.pos = self.pos + n;
    }

    /// Moves the cursor to the end of the range.
    pub fn jump_to_end(&mut self)
        requires
            old(self).wf(),
        ensures
            old(self).moved(final(self), old(self).end_spec()),
    {
        self.pos = self.end;
    }

    /// Whether `lit` stands at the cursor.
    pub fn starts_with(&self, lit: &[u8]) -> (r: bool)
        requires
            self.wf(),
        ensures
            r == has_prefix_at(self.s(), self.pos_spec(), self.end_spec(), lit@),
    {
        let n = lit.len();
        if n > self.end - self.pos {
            return false;
        }
        let mut i: usize = 0;
        while i < n
            invariant
                self.wf(),
                n == lit@.len(),
                self.pos + n <= self.end,
                0 <= i <= n,
                forall|k: int| 0 <= k < i ==> self.s()[self.pos + k] == lit@[k],
            decreases n - i,
        {
            if self.bytes[self.pos + i] != lit[i] {
                assert(self.s().subrange(self.pos as int, self.pos + n)[i as int] != lit@[i as int]);
                return false;
            }
            i = i + 1;
        }
        assert(self.s().subrange(self.pos as int, self.pos + n) =~= lit@);
        true
    }

    /// Whether whitespace stands at the cursor.
    pub fn starts_with_space(&self) -> (r: bool)
        requires
            self.wf(),
        ensures
            r == (self.pos_spec() < self.end_spec() && is_space_byte(self.s()[self.pos_spec()])),
    {
        self.pos < self.end && is_xml_space(self.bytes[self.pos])
    }

    /// Skips the run of bytes of class `k` and returns it.
    pub fn consume_class(&mut self, k: ByteClass) -> (r: StrSpan<'a>)
        requires
            old(self).wf(),
        ensures
            old(self).moved(
                final(self),
                run_end(old(self).s(), old(self).pos_spec(), old(self).end_spec(), k),
            ),
            old(self).pos_spec() <= final(self).pos_spec(),
            r.covers(old(self).src(), old(self).pos_spec(), final(self).pos_spec()),
    {
        proof {
            lemma_run_end_bounds(self.s(), self.pos_spec(), self.end_spec(), k);
        }
        let p0 = self.pos;
        while self.pos < self.end && class_has(k, self.bytes[self.pos])
            invariant
                old(self).moved(self, self.pos_spec()),
                p0 <= self.pos <= self.end,
                run_end(self.s(), p0 as int, self.end as int, k) == run_end(
                    self.s(),
                    self.pos as int,
                    self.end as int,
                    k,
                ),
            decreases self.end - self.pos,
        {
            self.pos = self.pos + 1;
        }
        StrSpan::new(self.text, p0, self.pos)
    }

    /// Skips whitespace.
    pub fn skip_spaces(&mut self)
        requires
            old(self).wf(),
        ensures
            old(self).moved(
                final(self),
                run_end(old(self).s(), old(self).pos_spec(), old(self).end_spec(), ByteClass::Space),
            ),
            old(self).pos_spec() <= final(self).pos_spec(),
    {
        let _ = self.consume_class(ByteClass::Space);
    }

    /// Skips whitespace, of which there must be at least one byte.
    pub fn consume_spaces(&mut self) -> (r: Result<(), StreamError>)
        requires
            old(self).wf(),
        ensures
            old(self).pos_spec() >= old(self).end_spec() ==> r == Err::<(), StreamError>(
                StreamError::UnexpectedEndOfStream,
            ),
            r.is_ok() <==> (old(self).pos_spec() < old(self).end_spec() && is_space_byte(
                old(self).s()[old(self).pos_spec()],
            )),
            r.is_ok() ==> old(self).moved(
                final(self),
                run_end(old(self).s(), old(self).pos_spec(), old(self).end_spec(), ByteClass::Space),
            ),
            r.is_err() ==> *final(self) == *old(self),
            r.is_ok() ==> old(self).pos_spec() < final(self).pos_spec(),
    {
        if self.pos >= self.end {
            return Err(StreamError::UnexpectedEndOfStream);
        }
        let c = self.bytes[self.pos];
        proof {
            lemma_run_end_bounds(self.s(), self.pos_spec() + 1, self.end_spec(), ByteClass::Space);
        }
        if !is_xml_space(c) {
            let p = self.gen_text_pos();
            return Err(StreamError::InvalidSpace(c, p));
        }
        self.skip_spaces();
        Ok(())
    }

    /// Skips `lit`, which must stand at the cursor.
    pub fn skip_string(&mut self, lit: &[u8]) -> (r: Result<(), StreamError>)
        requires
            old(self).wf(),
        ensures
            r.is_ok() <==> has_prefix_at(
                old(self).s(),
                old(self).pos_spec(),
                old(self).end_spec(),
                lit@,
            ),
            r.is_ok() ==> old(self).moved(final(self), old(self).pos_spec() + lit@.len()),
            r.is_err() ==> *final(self) == *old(self),
    {
        if !self.starts_with(lit) {
            let p = self.gen_text_pos();
            let mut expected: Vec<Vec<u8>> = Vec::new();
            expected.push(vstd::slice::slice_to_vec(lit));
            return Err(StreamError::InvalidString(expected, p));
        }
        self.pos = self.pos + lit.len();
        Ok(())
    }

    /// Skips the byte `c`, which must stand at the cursor.
    pub fn consume_byte(&mut self, c: u8) -> (r: Result<(), StreamError>)
        requires
            old(self).wf(),
        ensures
            old(self).pos_spec() >= old(self).end_spec() ==> r == Err::<(), StreamError>(
                StreamError::UnexpectedEndOfStream,
            ),
            r.is_ok() <==> (old(self).pos_spec() < old(self).end_spec()
                && old(self).s()[old(self).pos_spec()] == c),
            r.is_ok() ==> old(self).moved(final(self), old(self).pos_spec() + 1),
            r.is_err() ==> *final(self) == *old(self),
    {
        if self.pos >= self.end {
            return Err(StreamError::UnexpectedEndOfStream);
        }
        let b = self.bytes[self.pos];
        if b != c {
            let p = self.gen_text_pos();
            return Err(StreamError::InvalidChar(vec![b, c], p));
        }
        self.pos = self.pos + 1;
        Ok(())
    }

    /// Skips one of the bytes `a` and `b`, which must stand at the cursor,
    /// and returns it.
    pub fn consume_either(&mut self, a: u8, b: u8) -> (r: Result<u8, StreamError>)
        requires
            old(self).wf(),
        ensures
            old(self).pos_spec() >= old(self).end_spec() ==> r == Err::<u8, StreamError>(
                StreamError::UnexpectedEndOfStream,
            ),
            r.is_ok() <==> (old(self).pos_spec() < old(self).end_spec()
                && (old(self).s()[old(self).pos_spec()] == a || old(self).s()[old(self).pos_spec()] == b)),
            r.is_ok() ==> r == Ok::<u8, StreamError>(old(self).s()[old(self).pos_spec()])
                && old(self).moved(final(self), old(self).pos_spec() + 1),
            r.is_err() ==> *final(self) == *old(self),
    {
        if self.pos >= self.end {
            return Err(StreamError::UnexpectedEndOfStream);
        }
        let c = self.bytes[self.pos];
        if c != a && c != b {
            let p = self.gen_text_pos();
            return Err(StreamError::InvalidChar(vec![c, a, b], p));
        }
        self.pos = self.pos + 1;
        Ok(c)
    }

    /// Skips a quote, `"` or `'`, and returns it.
    pub fn consume_quote(&mut self) -> (r: Result<u8, StreamError>)
        requires
            old(self).wf(),
        ensures
            old(self).pos_spec() >= old(self).end_spec() ==> r == Err::<u8, StreamError>(
                StreamError::UnexpectedEndOfStream,
            ),
            r.is_ok() <==> (old(self).pos_spec() < old(self).end_spec()
                && (old(self).s()[old(self).pos_spec()] == 0x22
                    || old(self).s()[old(self).pos_spec()] == 0x27)),
            r.is_ok() ==> r == Ok::<u8, StreamError>(old(self).s()[old(self).pos_spec()])
                && old(self).moved(final(self), old(self).pos_spec() + 1),
            r.is_err() ==> *final(self) == *old(self),
    {
        self.consume_either(0x22, 0x27)
    }

    /// The `Eq` production: optional whitespace, `=`, optional whitespace.
    pub fn consume_eq(&mut self) -> (r: Result<(), StreamError>)
        requires
            old(self).wf(),
        ensures
            ({
                let a = run_end(
                    old(self).s(),
                    old(self).pos_spec(),
                    old(self).end_spec(),
                    ByteClass::Space,
                );
                &&& r.is_ok() <==> (a < old(self).end_spec() && old(self).s()[a] == 0x3D)
                &&& r.is_ok() ==> old(self).moved(
                    final(self),
                    run_end(old(self).s(), a + 1, old(self).end_spec(), ByteClass::Space),
                )
            }),
            old(self).moved(final(self), final(self).pos_spec()),
            old(self).pos_spec() <= final(self).pos_spec(),
    {
        proof {
            lemma_run_end_bounds(self.s(), self.pos_spec(), self.end_spec(), ByteClass::Space);
        }
        self.skip_spaces();
        self.consume_byte(0x3D)?;
        proof {
            lemma_run_end_bounds(self.s(), self.pos_spec(), self.end_spec(), ByteClass::Space);
        }
        self.skip_spaces();
        Ok(())
    }

    /// The code point at the cursor and its length in bytes.
    pub fn curr_char(&self) -> (r: Option<(u32, usize)>)
        requires
            self.wf(),
        ensures
            match decode_at(self.s(), self.pos_spec(), self.end_spec()) {
                Some((c, n)) => r == Some((c, n as usize)),
                None => r.is_none(),
            },
    {
        if self.pos >= self.end {
            return None;
        }
        let p = self.pos;
        let b0 = self.bytes[p];
        if b0 < 0x80 {
            return Some((b0 as u32, 1));
        }
        let rest = self.end - p;
        if b0 >= 0xC0 && b0 < 0xE0 && rest > 1 {
            let b1 = self.bytes[p + 1];
            if b1 >= 0x80 && b1 < 0xC0 {
                return Some((((b0 - 0xC0) as u32) * 64 + ((b1 - 0x80) as u32), 2));
            }
            return None;
        }
        if b0 >= 0xE0 && b0 < 0xF0 && rest > 2 {
            let b1 = self.bytes[p + 1];
            let b2 = self.bytes[p + 2];
            if b1 >= 0x80 && b1 < 0xC0 && b2 >= 0x80 && b2 < 0xC0 {
                return Some(
                    (((b0 - 0xE0) as u32) * 4096 + ((b1 - 0x80) as u32) * 64 + ((b2
                        - 0x80) as u32), 3),
                );
            }
            return None;
        }
        if b0 >= 0xF0 && b0 < 0xF8 && rest > 3 {
            let b1 = self.bytes[p + 1];
            let b2 = self.bytes[p + 2];
            let b3 = self.bytes[p + 3];
            if b1 >= 0x80 && b1 < 0xC0 && b2 >= 0x80 && b2 < 0xC0 && b3 >= 0x80 && b3 < 0xC0 {
                return Some(
                    (((b0 - 0xF0) as u32) * 262144 + ((b1 - 0x80) as u32) * 4096 + ((b2
                        - 0x80) as u32) * 64 + ((b3 - 0x80) as u32), 4),
                );
            }
            return None;
        }
        None
    }

    /// Skips XML characters up to where `lit` stands, and returns them.
    pub fn consume_chars_until(&mut self, lit: &[u8]) -> (r: StrSpan<'a>)
        requires
            old(self).wf(),
        ensures
            old(self).moved(
                final(self),
                chars_end(old(self).s(), old(self).pos_spec(), old(self).end_spec(), lit@),
            ),
            r.covers(old(self).src(), old(self).pos_spec(), final(self).pos_spec()),
            old(self).pos_spec() <= final(self).pos_spec(),
    {
        proof {
            lemma_chars_end_bounds(self.s(), self.pos_spec(), self.end_spec(), lit@);
        }
        let p0 = self.pos;
        loop
            invariant
                old(self).moved(self, self.pos_spec()),
                p0 <= self.pos <= self.end,
                chars_end(self.s(), p0 as int, self.end as int, lit@) == chars_end(
                    self.s(),
                    self.pos as int,
                    self.end as int,
                    lit@,
                ),
            ensures
                old(self).moved(self, self.pos_spec()),
                p0 <= self.pos <= self.end,
                chars_end(self.s(), p0 as int, self.end as int, lit@) == self.pos,
            decreases self.end - self.pos,
        {
            if self.pos >= self.end || self.starts_with(lit) {
                break;
            }
            match self.curr_char() {
                Some((c, n)) => {
                    if is_xml_char(c) {
                        self.pos = self.pos + n;
                    } else {
                        break;
                    }
                },
                None => {
                    break;
                },
            }
        }
        StrSpan::new(self.text, p0, self.pos)
    }

    /// Skips bytes up to where `lit` stands, and returns them.
    pub fn consume_until_lit(&mut self, lit: &[u8]) -> (r: StrSpan<'a>)
        requires
            old(self).wf(),
        ensures
            old(self).moved(
                final(self),
                lit_end(old(self).s(), old(self).pos_spec(), old(self).end_spec(), lit@),
            ),
            r.covers(old(self).src(), old(self).pos_spec(), final(self).pos_spec()),
            old(self).pos_spec() <= final(self).pos_spec(),
    {
        proof {
            lemma_lit_end_bounds(self.s(), self.pos_spec(), self.end_spec(), lit@);
        }
        let p0 = self.pos;
        while self.pos < self.end && !self.starts_with(lit)
            invariant
                old(self).moved(self, self.pos_spec()),
                p0 <= self.pos <= self.end,
                lit_end(self.s(), p0 as int, self.end as int, lit@) == lit_end(
                    self.s(),
                    self.pos as int,
                    self.end as int,
                    lit@,
                ),
            decreases self.end - self.pos,
        {
            self.pos = self.pos + 1;
        }
        StrSpan::new(self.text, p0, self.pos)
    }

    /// The `Name` production.
    pub fn consume_name(&mut self) -> (r: Result<StrSpan<'a>, StreamError>)
        requires
            old(self).wf(),
        ensures
            match name_end(old(self).s(), old(self).pos_spec(), old(self).end_spec()) {
                Some(j) => r.is_ok() && old(self).moved(final(self), j) && r.unwrap().covers(
                    old(self).src(),
                    old(self).pos_spec(),
                    j,
                ),
                None => r == Err::<StrSpan<'a>, StreamError>(StreamError::InvalidName)
                    && *final(self) == *old(self),
            },
            r.is_ok() ==> old(self).pos_spec() < final(self).pos_spec(),
    {
        proof {
            lemma_name_end_bounds(self.s(), self.pos_spec(), self.end_spec());
        }
        let p0 = self.pos;
        match self.curr_char() {
            Some((c, n)) => {
                if !is_xml_name_start(c) {
                    return Err(StreamError::InvalidName);
                }
                self.pos = self.pos + n;
            },
            None => {
                return Err(StreamError::InvalidName);
            },
        }
        let p1 = self.pos;
        loop
            invariant
                old(self).moved(self, self.pos_spec()),
                p1 <= self.pos <= self.end,
                name_rest(self.s(), p1 as int, self.end as int) == name_rest(
                    self.s(),
                    self.pos as int,
                    self.end as int,
                ),
            ensures
                old(self).moved(self, self.pos_spec()),
                p1 <= self.pos <= self.end,
                name_rest(self.s(), p1 as int, self.end as int) == self.pos,
            decreases self.end - self.pos,
        {
            match self.curr_char() {
                Some((c, n)) => {
                    if is_xml_name_char(c) {
                        self.pos = self.pos + n;
                    } else {
                        break;
                    }
                },
                None => {
                    break;
                },
            }
        }
        Ok(StrSpan::new(self.text, p0, self.pos))
    }

    /// A `Name` split at its first `:` into prefix and local part; without a
    /// colon the prefix is empty and placed at the name's start.
    pub fn consume_qname(&mut self) -> (r: Result<(StrSpan<'a>, StrSpan<'a>), StreamError>)
        requires
            old(self).wf(),
        ensures
            match name_end(old(self).s(), old(self).pos_spec(), old(self).end_spec()) {
                Some(j) => {
                    let p = old(self).pos_spec();
                    let c = run_end(old(self).s(), p, j, ByteClass::Not(0x3A));
                    &&& r.is_ok()
                    &&& old(self).moved(final(self), j)
                    &&& p < j && p <= c <= j
                    &&& c < j ==> r.unwrap().0.covers(old(self).src(), p, c)
                        && r.unwrap().1.covers(old(self).src(), c + 1, j)
                    &&& c >= j ==> r.unwrap().0.covers(old(self).src(), p, p)
                        && r.unwrap().1.covers(old(self).src(), p, j)
                },
                None => r == Err::<(StrSpan<'a>, StrSpan<'a>), StreamError>(
                    StreamError::InvalidName,
                ) && *final(self) == *old(self),
            },
    {
        let name = self.consume_name()?;
        let p = name.start();
        let j = name.end();
        proof {
            lemma_run_end_bounds(self.s(), p as int, j as int, ByteClass::Not(0x3A));
        }
        let mut c: usize = p;
        while c < j && self.bytes[c] != 0x3A
            invariant
                self.wf(),
                p <= c <= j <= self.end,
                run_end(self.s(), p as int, j as int, ByteClass::Not(0x3A)) == run_end(
                    self.s(),
                    c as int,
                    j as int,
                    ByteClass::Not(0x3A),
                ),
            decreases j - c,
        {
            c = c + 1;
        }
        if c < j {
            Ok((StrSpan::new(self.text, p, c), StrSpan::new(self.text, c + 1, j)))
        } else {
            Ok((StrSpan::new(self.text, p, p), name))
        }
    }

    /// The span from `start` to the cursor.
    pub fn slice_back(&self, start: usize) -> (r: StrSpan<'a>)
        requires
            self.wf(),
            start <= self.pos_spec(),
        ensures
            r.covers(self.src(), start as int, self.pos_spec()),
    {
        StrSpan::new(self.text, start, self.pos)
    }

    /// Line and column of the cursor.
    pub fn gen_text_pos(&self) -> (r: TextPos)
        requires
            self.wf(),
        ensures
            r == text_pos_at(self.s(), self.pos_spec()),
    {
        self.gen_text_pos_from(self.pos)
    }

    /// Line and column of offset `off`, taken no further than the end of the
    /// range.
    pub fn gen_text_pos_from(&self, off: usize) -> (r: TextPos)
        requires
            self.wf(),
        ensures
            r == text_pos_at(
                self.s(),
                if off <= self.end_spec() {
                    off as int
                } else {
                    self.end_spec()
                },
            ),
    {
        let n = if off <= self.end {
            off
        } else {
            self.end
        };
        let mut row: usize = 1;
        let mut col: usize = 1;
        let mut k: usize = 0;
        while k < n
            invariant
                self.wf(),
                n <= self.end,
                0 <= k <= n,
                row == 1 + newlines_before(self.s(), k as int),
                col == column_at(self.s(), k as int),
                1 <= row <= k + 1,
                1 <= col <= k + 1,
            decreases n - k,
        {
            let b = self.bytes[k];
            if b == 0x0A {
                row = row + 1;
                col = 1;
            } else if !(b >= 0x80 && b < 0xC0) {
                col = col + 1;
            }
            k = k + 1;
        }
        TextPos { row, col }
    }
}

} // verus!
