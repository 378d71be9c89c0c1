//! Character classes of the XML 1.0 grammar, over bytes and code points.
use vstd::prelude::*;

verus! {

/// `S`: space, tab, line feed, carriage return.
pub open spec fn is_space_byte(c: u8) -> bool {
    c == 0x20 || c == 0x09 || c == 0x0A || c == 0x0D
}

/// An ASCII decimal digit.
pub open spec fn is_digit_byte(c: u8) -> bool {
    0x30 <= c && c <= 0x39
}

/// An ASCII letter.
pub open spec fn is_letter_byte(c: u8) -> bool {
    (0x41 <= c && c <= 0x5A) || (0x61 <= c && c <= 0x7A)
}

/// The `Char` production.
pub open spec fn is_xml_char_spec(c: u32) -> bool {
    c == 0x09 || c == 0x0A || c == 0x0D || (0x20 <= c && c <= 0xD7FF) || (0xE000 <= c && c
        <= 0xFFFD) || (0x10000 <= c && c <= 0x10FFFF)
}

/// The `NameStartChar` production.
pub open spec fn is_name_start_spec(c: u32) -> bool {
    if c < 0x80 {
        (0x41 <= c && c <= 0x5A) || (0x61 <= c && c <= 0x7A) || c == 0x3A || c == 0x5F
    } else {
        (0xC0 <= c && c <= 0xD6) || (0xD8 <= c && c <= 0xF6) || (0xF8 <= c && c <= 0x2FF) || (0x370
            <= c && c <= 0x37D) || (0x37F <= c && c <= 0x1FFF) || (0x200C <= c && c <= 0x200D) || (
        0x2070 <= c && c <= 0x218F) || (0x2C00 <= c && c <= 0x2FEF) || (0x3001 <= c && c
            <= 0xD7FF) || (0xF900 <= c && c <= 0xFDCF) || (0xFDF0 <= c && c <= 0xFFFD) || (0x10000
            <= c && c <= 0xEFFFF)
    }
}

/// The `NameChar` production.
pub open spec fn is_name_char_spec(c: u32) -> bool {
    is_name_start_spec(c) || c == 0x2D || c == 0x2E || (0x30 <= c && c <= 0x39) || c == 0xB7 || (
    0x300 <= c && c <= 0x36F) || (0x203F <= c && c <= 0x2040)
}

/// Whether a byte is XML whitespace.
pub fn is_xml_space(c: u8) -> (r: bool)
    ensures
        r == is_space_byte(c),
{
    c == 0x20 || c == 0x09 || c == 0x0A || c == 0x0D
}

/// Whether a byte is an ASCII digit.
pub fn is_xml_digit(c: u8) -> (r: bool)
    ensures
        r == is_digit_byte(c),
{
    0x30 <= c && c <= 0x39
}

/// Whether a byte is an ASCII letter.
pub fn is_xml_letter(c: u8) -> (r: bool)
    ensures
        r == is_letter_byte(c),
{
    (0x41 <= c && c <= 0x5A) || (0x61 <= c && c <= 0x7A)
}

/// Whether a code point is allowed in an XML document.
pub fn is_xml_char(c: u32) -> (r: bool)
    ensures
        r == is_xml_char_spec(c),
{
    c == 0x09 || c == 0x0A || c == 0x0D || (0x20 <= c && c <= 0xD7FF) || (0xE000 <= c && c
        <= 0xFFFD) || (0x10000 <= c && c <= 0x10FFFF)
}

/// Whether a code point may start an XML name.
pub fn is_xml_name_start(c: u32) -> (r: bool)
    ensures
        r == is_name_start_spec(c),
{
    if c < 0x80 {
        (0x41 <= c && c <= 0x5A) || (0x61 <= c && c <= 0x7A) || c == 0x3A || c == 0x5F
    } else {
        (0xC0 <= c && c <= 0xD6) || (0xD8 <= c && c <= 0xF6) || (0xF8 <= c && c <= 0x2FF) || (0x370
            <= c && c <= 0x37D) || (0x37F <= c && c <= 0x1FFF) || (0x200C <= c && c <= 0x200D) || (
        0x2070 <= c && c <= 0x218F) || (0x2C00 <= c && c <= 0x2FEF) || (0x3001 <= c && c
            <= 0xD7FF) || (0xF900 <= c && c <= 0xFDCF) || (0xFDF0 <= c && c <= 0xFFFD) || (0x10000
            <= c && c <= 0xEFFFF)
    }
}

/// Whether a code point may continue an XML name.
pub fn is_xml_name_char(c: u32) -> (r: bool)
    ensures
        r == is_name_char_spec(c),
{
    is_xml_name_start(c) || c == 0x2D || c == 0x2E || (0x30 <= c && c <= 0x39) || c == 0xB7 || (
    0x300 <= c && c <= 0x36F) || (0x203F <= c && c <= 0x2040)
}

} // verus!
