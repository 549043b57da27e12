//! Formatting of offsets, bytes and characters.
use vstd::prelude::*;
use crate::text::{hex_text, hex_text_upper, push_padded_digits, ascii_upper, law_upper_digits};
use crate::hexaprint::color::{color_of, colorized, colorize, get_color_for_byte};

verus! {

/// Printable ASCII: from space (0x20) to tilde (0x7E).
pub open spec fn printable(byte: u8) -> bool {
    0x20 <= byte <= 0x7e
}

/// Two hex digits of `byte` (upper-case when `upper`), coloured by its class.
pub open spec fn hex_cell(byte: u8, upper: bool, use_colors: bool) -> Seq<char> {
    colorized(
        if upper { hex_text_upper(byte as nat, 2) } else { hex_text(byte as nat, 2) },
        color_of(byte),
        use_colors,
    )
}

/// The character of a printable byte, coloured by its class; `.` for others.
pub open spec fn ascii_cell(byte: u8, use_colors: bool) -> Seq<char> {
    if printable(byte) {
        colorized(seq![byte as char], color_of(byte), use_colors)
    } else {
        seq!['.']
    }
}

/// The upper-case offset text is the lower-case one with its letters
/// upper-cased (`format_offset_uppercase` against `format_offset`), and so are
/// the hex digits of a byte.
pub proof fn law_uppercase_is_upper_cased(offset: nat, byte: u8)
    ensures
        hex_text_upper(offset, 8) == hex_text(offset, 8).map_values(|c: char| ascii_upper(c)),
        hex_text_upper(byte as nat, 2) == hex_text(byte as nat, 2).map_values(
            |c: char| ascii_upper(c),
        ),
{
    law_upper_digits(offset, 16, 8);
    law_upper_digits(byte as nat, 16, 2);
}

/// `offset` as eight (or more) lower-case hex digits.
pub fn format_offset(offset: usize) -> (s: String)
    ensures
        s@ == hex_text(offset as nat, 8),
{
    let mut out = String::new();
    push_padded_digits(&mut out, offset as u64, 16, 8, false);
    assert(out@ =~= hex_text(offset as nat, 8));
    out
}

/// `offset` as eight (or more) upper-case hex digits.
pub fn format_offset_uppercase(offset: usize) -> (s: String)
    ensures
        s@ == hex_text_upper(offset as nat, 8),
{
    let mut out = String::new();
    push_padded_digits(&mut out, offset as u64, 16, 8, true);
    assert(out@ =~= hex_text_upper(offset as nat, 8));
    out
}

/// Whether `byte` is printable ASCII.
pub fn is_printable(byte: u8) -> (b: bool)
    ensures
        b == printable(byte),
{
    byte >= 0x20 && byte <= 0x7e
}

/// `byte` as two lower-case hex digits, coloured when `use_colors`.
pub fn format_hex(byte: u8, use_colors: bool) -> (s: String)
    ensures
        s@ == hex_cell(byte, false, use_colors),
{
    let mut hex = String::new();
    push_padded_digits(&mut hex, byte as u64, 16, 2, false);
    assert(hex@ =~= hex_text(byte as nat, 2));
    if use_colors {
        let color = get_color_for_byte(byte);
        colorize(hex.as_str(), color, use_colors)
    } else {
        hex
    }
}

/// `byte` as two upper-case hex digits, coloured when `use_colors`.
pub fn format_hex_uppercase(byte: u8, use_colors: bool) -> (s: String)
    ensures
        s@ == hex_cell(byte, true, use_colors),
{
    let mut hex = String::new();
    push_padded_digits(&mut hex, byte as u64, 16, 2, true);
    assert(hex@ =~= hex_text_upper(byte as nat, 2));
    if use_colors {
        let color = get_color_for_byte(byte);
        colorize(hex.as_str(), color, use_colors)
    } else {
        hex
    }
}

/// The character of a printable byte (coloured when `use_colors`), or `.`.
pub fn format_ascii(byte: u8, use_colors: bool) -> (s: String)
    ensures
        s@ == ascii_cell(byte, use_colors),
{
    if is_printable(byte) {
        let ch = byte as char;
        let mut one = String::new();
        one.push(ch);
        if use_colors {
            colorize(one.as_str(), get_color_for_byte(byte), use_colors)
        } else {
            assert(one@ =~= seq![ch]);
            one
        }
    } else {
        let mut dot = String::new();
        dot.push('.');
        assert(dot@ =~= seq!['.']);
        dot
    }
}

} // verus!
