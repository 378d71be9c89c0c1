//! A non-owning reference to a byte range of the input text.
use vstd::prelude::*;
use vstd::string::StringSliceAdditionalSpecFns;
use vstd::utf8::is_char_boundary;

verus! {

/// A byte range `[start, end)` of a borrowed text.
#[derive(Clone, Copy, PartialEq, Eq, Debug)]
pub struct StrSpan<'a> {
    text: &'a str,
    start: usize,
    end: usize,
}

impl<'a> StrSpan<'a> {
    /// The whole text that the span points into.
    pub closed spec fn source(&self) -> &'a str {
        self.text
    }

    /// Offset of the first byte of the span in its source.
    pub closed spec fn start_spec(&self) -> int {
        self.start as int
    }

    /// Offset one past the last byte of the span in its source.
    pub closed spec fn end_spec(&self) -> int {
        self.end as int
    }

    /// The offsets lie inside the source, in order.
    pub open spec fn wf(&self) -> bool {
        0 <= self.start_spec() <= self.end_spec() <= self.source().spec_bytes().len()
    }

    /// The span is `[a, b)` of `text`.
    pub open spec fn covers(&self, text: &'a str, a: int, b: int) -> bool {
        self.wf() && self.source() == text && self.start_spec() == a && self.end_spec() == b
    }

    /// The bytes the span covers.
    pub open spec fn view(&self) -> Seq<u8> {
        self.source().spec_bytes().subrange(self.start_spec(), self.end_spec())
    }

    /// A span over `[start, end)` of `text`.
    pub fn new(text: &'a str, start: usize, end: usize) -> (r: StrSpan<'a>)
        requires
            start <= end <= text.spec_bytes().len(),
        ensures
            r.wf(),
            r.source() == text,
            r.start_spec() == start,
            r.end_spec() == end,
    {
        StrSpan { text, start, end }
    }

    /// A span over the whole of `text`.
    pub fn from_str(text: &'a str) -> (r: StrSpan<'a>)
        ensures
            r.wf(),
            r.source() == text,
            r.start_spec() == 0,
            r.end_spec() == text.spec_bytes().len(),
            r@ == text.spec_bytes(),
    {
        let n = text.as_bytes().len();
        let r = StrSpan { text, start: 0, end: n };
        assert(r@ =~= text.spec_bytes());
        r
    }

    /// Offset of the span's first byte in its source.
    pub fn start(&self) -> (r: usize)
        ensures
            r == self.start_spec(),
    {
        self.start
    }

    /// Offset one past the span's last byte in its source.
    pub fn end(&self) -> (r: usize)
        ensures
            r == self.end_spec(),
    {
        self.end
    }

    /// Number of bytes covered.
    pub fn len(&self) -> (r: usize)
        requires
            self.wf(),
        ensures
            r == self@.len(),
    {
        self.end - self.start
    }

    /// Whether the span covers no byte.
    pub fn is_empty(&self) -> (r: bool)
        requires
            self.wf(),
        ensures
            r == (self@.len() == 0),
    {
        self.start == self.end
    }

    /// The whole source text.
    pub fn full_str(&self) -> (r: &'a str)
        ensures
            r == self.source(),
    {
        self.text
    }

    /// The covered bytes.
    pub fn as_bytes(&self) -> (r: &'a [u8])
        requires
            self.wf(),
        ensures
            r@ == self@,
    {
        let b = self.text.as_bytes();
        vstd::slice::slice_subrange(b, self.start, self.end)
    }

    /// The covered text, where the span starts and ends on character
    /// boundaries; a span that does not is read as empty.
    pub fn to_str(&self) -> (r: &'a str)
        requires
            self.wf(),
        ensures
            r.spec_bytes() == self@ || r.spec_bytes().len() == 0,
            is_char_boundary(self.source().spec_bytes(), self.start_spec()) && is_char_boundary(
                self.source().spec_bytes().subrange(
                    self.start_spec(),
                    self.source().spec_bytes().len() as int,
                ),
                self.end_spec() - self.start_spec(),
            ) ==> r.spec_bytes() == self@,
    {
        if self.text.is_char_boundary(self.start) {
            let (_, tail) = self.text.split_at(self.start);
            let n = self.end - self.start;
            if tail.is_char_boundary(n) {
                let (mid, _) = tail.split_at(n);
                assert(mid.spec_bytes() =~= self@);
                return mid;
            }
        }
        proof {
            reveal_strlit("");
        }
        ""
    }

    /// A span that runs from the start of `self` to the end of `other`.
    pub fn extend_to(&self, other: &StrSpan<'a>) -> (r: StrSpan<'a>)
        requires
            self.wf(),
            other.wf(),
            other.source() == self.source(),
            self.start_spec() <= other.end_spec(),
        ensures
            r.wf(),
            r.source() == self.source(),
            r.start_spec() == self.start_spec(),
            r.end_spec() == other.end_spec(),
    {
        StrSpan { text: self.text, start: self.start, end: other.end }
    }
}

} // verus!
