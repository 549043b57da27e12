//! ANSI colours for bytes by the class they belong to.
use vstd::prelude::*;
use crate::text::push_str;

verus! {

/// The colour a byte is shown in.
#[derive(Debug, Clone, Copy, PartialEq, Eq, Structural)]
pub enum Color {
    BrightBlack,
    Green,
    Cyan,
    Yellow,
}

/// NUL is grey, printable ASCII green, bytes from 0x80 cyan, and the other
/// control bytes yellow.
pub open spec fn color_of(byte: u8) -> Color {
    if byte == 0 {
        Color::BrightBlack
    } else if 0x20 <= byte <= 0x7e {
        Color::Green
    } else if byte >= 0x80 {
        Color::Cyan
    } else {
        Color::Yellow
    }
}

/// The escape sequence that switches the terminal to `color`.
pub open spec fn ansi_code(color: Color) -> Seq<char> {
    match color {
        Color::BrightBlack => seq!['\x1b', '[', '9', '0', 'm'],
        Color::Green => seq!['\x1b', '[', '3', '2', 'm'],
        Color::Cyan => seq!['\x1b', '[', '3', '6', 'm'],
        Color::Yellow => seq!['\x1b', '[', '3', '3', 'm'],
    }
}

/// The escape sequence that resets the terminal's colour.
pub open spec fn reset_code() -> Seq<char> {
    seq!['\x1b', '[', '0', 'm']
}

/// `text` wrapped in the codes for `color`, or as it is when colours are off.
pub open spec fn colorized(text: Seq<char>, color: Color, use_colors: bool) -> Seq<char> {
    if use_colors {
        ansi_code(color) + text + reset_code()
    } else {
        text
    }
}

/// The colour of `byte`.
pub fn get_color_for_byte(byte: u8) -> (c: Color)
    ensures
        c == color_of(byte),
{
    if byte == 0x00 {
        Color::BrightBlack
    } else if 0x20 <= byte && byte <= 0x7e {
        Color::Green
    } else if byte >= 0x80 {
        Color::Cyan
    } else {
        Color::Yellow
    }
}

/// `text` in `color` when `use_colors` is on, else `text` unchanged.
pub fn colorize(text: &str, color: Color, use_colors: bool) -> (s: String)
    ensures
        s@ == colorized(text@, color, use_colors),
{
    let mut out = String::new();
    if !use_colors {
        push_str(&mut out, text);
        return out;
    }
    match color {
        Color::BrightBlack => {
            proof {
                reveal_strlit("\x1b[90m");
            }
            push_str(&mut out, "\x1b[90m");
        },
        Color::Green => {
            proof {
                reveal_strlit("\x1b[32m");
            }
            push_str(&mut out, "\x1b[32m");
        },
        Color::Cyan => {
            proof {
                reveal_strlit("\x1b[36m");
            }
            push_str(&mut out, "\x1b[36m");
        },
        Color::Yellow => {
            proof {
                reveal_strlit("\x1b[33m");
            }
            push_str(&mut out, "\x1b[33m");
        },
    }
    assert(out@ =~= ansi_code(color));
    push_str(&mut out, text);
    proof {
        reveal_strlit("\x1b[0m");
    }
    push_str(&mut out, "\x1b[0m");
    assert(out@ =~= ansi_code(color) + text@ + reset_code());
    out
}

} // verus!
