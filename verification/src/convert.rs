//! Conversions between host text and the plain values the library works on:
//! character sequences, and the bit patterns of 64-bit floats.

use byteorder::ByteOrder;
use vstd::prelude::*;

verus! {

/// Relies on `str::chars`: the characters of a string slice, in order.
#[verifier::external_body]
pub fn chars_of(s: &str) -> (r: Vec<char>)
    ensures
        r@ == s@,
{
    s.chars().collect()
}

/// Relies on `String: FromIterator<char>`: collecting characters yields the
/// string with exactly those characters, in order.
#[verifier::external_body]
pub fn string_from_chars(v: &Vec<char>) -> (r: String)
    ensures
        r@ == v@,
{
    v.iter().collect()
}

/// Names the result of parsing text as a 64-bit float with `str::parse`:
/// the IEEE-754 bit pattern of the parsed double, if the text parses.
pub uninterp spec fn float_bits_of(s: Seq<char>) -> Option<u64>;

/// Relies on `str::parse` for 64-bit floats, whose result is a function of
/// the text alone; `byteorder`'s `write_f64`/`read_u64` pair turns the
/// parsed double into its IEEE-754 bit pattern.
#[verifier::external_body]
pub fn parse_float_bits(s: &str) -> (r: Option<u64>)
    ensures
        r == float_bits_of(s@),
{
    match s.parse() {
        Ok(v) => {
            let mut buf = [0u8; 8];
            byteorder::LittleEndian::write_f64(&mut buf, v);
            Some(byteorder::LittleEndian::read_u64(&buf))
        }
        Err(_) => None,
    }
}

/// Names the `Display` text of the 64-bit float with the given IEEE-754
/// bit pattern.
pub uninterp spec fn float_text_of(bits: u64) -> Seq<char>;

/// Relies on `Display` for 64-bit floats, whose text is a function of the
/// value alone; `byteorder`'s `write_u64`/`read_f64` pair turns the bit
/// pattern back into the double that is formatted.
#[verifier::external_body]
pub fn float_display(bits: u64) -> (r: String)
    ensures
        r@ == float_text_of(bits),
{
    let mut buf = [0u8; 8];
    byteorder::LittleEndian::write_u64(&mut buf, bits);
    let v = byteorder::LittleEndian::read_f64(&buf);
    format!("{}", v)
}

/// Relies on `char::from_u32`: `Some` exactly for the Unicode scalar values,
/// and the returned character carries the given code point.
#[verifier::external_body]
pub fn char_from_u32(v: u32) -> (r: Option<char>)
    ensures
        r matches Some(c) ==> c as u32 == v,
        r is Some <==> (v < 0xD800 || (0xE000 <= v && v <= 0x10FFFF)),
{
    char::from_u32(v)
}

} // verus!
