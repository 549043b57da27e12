//! One output line of the dump for a run of bytes, in each output format.
use vstd::prelude::*;
use crate::text::{hex_text, hex_text_upper, push_padded_digits, push_str};
use crate::hexaprint::format::{
    hex_cell, ascii_cell, format_offset, format_offset_uppercase, format_hex, format_hex_uppercase,
    format_ascii,
};
use crate::hexaprint::dumper::OutputFormat;

verus! {

/// Each byte's hex cell followed by a space.
pub open spec fn hex_cells(data: Seq<u8>, upper: bool, use_colors: bool) -> Seq<char>
    decreases data.len(),
{
    if data.len() == 0 {
        Seq::empty()
    } else {
        hex_cells(data.drop_last(), upper, use_colors) + hex_cell(data.last(), upper, use_colors)
            + seq![' ']
    }
}

/// Each byte's character cell.
pub open spec fn ascii_cells(data: Seq<u8>, use_colors: bool) -> Seq<char>
    decreases data.len(),
{
    if data.len() == 0 {
        Seq::empty()
    } else {
        ascii_cells(data.drop_last(), use_colors) + ascii_cell(data.last(), use_colors)
    }
}

/// The spaces that stand in for the three columns of each missing byte of a
/// short line.
pub open spec fn padding(len: nat, bytes_per_line: nat) -> Seq<char> {
    if len < bytes_per_line {
        Seq::new(((bytes_per_line - len) * 3) as nat, |i: int| ' ')
    } else {
        Seq::empty()
    }
}

/// The padding of a line of `len` bytes can be counted in a `usize`.
pub open spec fn padding_fits(len: nat, bytes_per_line: nat) -> bool {
    len >= bytes_per_line || (bytes_per_line - len) * 3 <= usize::MAX
}

/// The ASCII column: ` |`, the characters, `|`; nothing when it is off.
pub open spec fn ascii_column(data: Seq<u8>, show_ascii: bool, use_colors: bool) -> Seq<char> {
    if show_ascii {
        seq![' ', '|'] + ascii_cells(data, use_colors) + seq!['|']
    } else {
        Seq::empty()
    }
}

/// The canonical line: offset, `: `, hex cells, padding, ASCII column.
pub open spec fn canonical_line(
    offset: nat,
    data: Seq<u8>,
    bytes_per_line: nat,
    show_ascii: bool,
    use_colors: bool,
) -> Seq<char> {
    hex_text(offset, 8) + seq![':', ' '] + hex_cells(data, false, use_colors) + padding(
        data.len(),
        bytes_per_line,
    ) + ascii_column(data, show_ascii, use_colors)
}

/// The upper-case line: as the canonical one with upper-case hex and an
/// uncoloured ASCII column.
pub open spec fn uppercase_line(
    offset: nat,
    data: Seq<u8>,
    bytes_per_line: nat,
    show_ascii: bool,
    use_colors: bool,
) -> Seq<char> {
    hex_text_upper(offset, 8) + seq![':', ' '] + hex_cells(data, true, use_colors) + padding(
        data.len(),
        bytes_per_line,
    ) + ascii_column(data, show_ascii, false)
}

/// The hex cells separated by single spaces.
pub open spec fn plain_hex_line(data: Seq<u8>, use_colors: bool) -> Seq<char>
    decreases data.len(),
{
    if data.len() == 0 {
        Seq::empty()
    } else if data.len() == 1 {
        hex_cell(data[0], false, use_colors)
    } else {
        plain_hex_line(data.drop_last(), use_colors) + seq![' '] + hex_cell(
            data.last(),
            false,
            use_colors,
        )
    }
}

/// `0x` and two hex digits of `byte`.
pub open spec fn c_literal(byte: u8) -> Seq<char> {
    seq!['0', 'x'] + hex_text(byte as nat, 2)
}

/// The C literals separated by `, `.
pub open spec fn c_items(data: Seq<u8>) -> Seq<char>
    decreases data.len(),
{
    if data.len() == 0 {
        Seq::empty()
    } else if data.len() == 1 {
        c_literal(data[0])
    } else {
        c_items(data.drop_last()) + seq![',', ' '] + c_literal(data.last())
    }
}

/// A line of a C array: the literals and a trailing comma.
pub open spec fn c_array_line(data: Seq<u8>) -> Seq<char> {
    c_items(data) + seq![',']
}

/// The line for `data` at `offset` in output format `format`.
pub open spec fn line_for(
    format: OutputFormat,
    offset: nat,
    data: Seq<u8>,
    bytes_per_line: nat,
    show_ascii: bool,
    use_colors: bool,
) -> Seq<char> {
    match format {
        OutputFormat::Canonical => canonical_line(
            offset,
            data,
            bytes_per_line,
            show_ascii,
            use_colors,
        ),
        OutputFormat::PlainHex => plain_hex_line(data, use_colors),
        OutputFormat::CArray => c_array_line(data),
        OutputFormat::Uppercase => uppercase_line(
            offset,
            data,
            bytes_per_line,
            show_ascii,
            use_colors,
        ),
    }
}

fn push_hex_cells(out: &mut String, data: &[u8], upper: bool, use_colors: bool)
    ensures
        final(out)@ == old(out)@ + hex_cells(data@, upper, use_colors),
{
    let ghost start = out@;
    let mut i: usize = 0;
    while i < data.len()
        invariant
            i <= data@.len(),
            out@ == start + hex_cells(data@.take(i as int), upper, use_colors),
        decreases data@.len() - i,
    {
        let cell = if upper {
            format_hex_uppercase(data[i], use_colors)
        } else {
            format_hex(data[i], use_colors)
        };
        push_str(out, cell.as_str());
        out.push(' ');
        assert(data@.take(i + 1).drop_last() =~= data@.take(i as int));
        assert(out@ =~= start + hex_cells(data@.take(i + 1), upper, use_colors));
        i = i + 1;
    }
    assert(data@.take(data@.len() as int) =~= data@);
}

fn push_padding(out: &mut String, len: usize, bytes_per_line: usize)
    requires
        padding_fits(len as nat, bytes_per_line as nat),
    ensures
        final(out)@ == old(out)@ + padding(len as nat, bytes_per_line as nat),
{
    if len < bytes_per_line {
        let count = (bytes_per_line - len) * 3;
        let ghost start = out@;
        let mut k: usize = 0;
        while k < count
            invariant
                k <= count,
                out@ == start + Seq::new(k as nat, |i: int| ' '),
            decreases count - k,
        {
            out.push(' ');
            assert(out@ =~= start + Seq::new((k + 1) as nat, |i: int| ' '));
            k = k + 1;
        }
    } else {
        assert(old(out)@ + Seq::<char>::empty() =~= old(out)@);
    }
}

fn push_ascii_column(out: &mut String, data: &[u8], show_ascii: bool, use_colors: bool)
    ensures
        final(out)@ == old(out)@ + ascii_column(data@, show_ascii, use_colors),
{
    if !show_ascii {
        assert(old(out)@ + Seq::<char>::empty() =~= old(out)@);
        return;
    }
    out.push(' ');
    out.push('|');
    let ghost start = out@;
    let mut i: usize = 0;
    while i < data.len()
        invariant
            i <= data@.len(),
            out@ == start + ascii_cells(data@.take(i as int), use_colors),
        decreases data@.len() - i,
    {
        let cell = format_ascii(data[i], use_colors);
        push_str(out, cell.as_str());
        assert(data@.take(i + 1).drop_last() =~= data@.take(i as int));
        assert(out@ =~= start + ascii_cells(data@.take(i + 1), use_colors));
        i = i + 1;
    }
    assert(data@.take(data@.len() as int) =~= data@);
    out.push('|');
    assert(out@ =~= old(out)@ + ascii_column(data@, show_ascii, use_colors));
}

/// The canonical line for `data` at `offset`: offset, hex, padding up to
/// `bytes_per_line` bytes, and the ASCII column when `show_ascii`.
pub fn format_canonical(
    offset: usize,
    data: &[u8],
    bytes_per_line: usize,
    show_ascii: bool,
    use_colors: bool,
) -> (s: String)
    requires
        padding_fits(data@.len(), bytes_per_line as nat),
    ensures
        s@ == canonical_line(offset as nat, data@, bytes_per_line as nat, show_ascii, use_colors),
{
    let mut output = format_offset(offset);
    output.push(':');
    output.push(' ');
    push_hex_cells(&mut output, data, false, use_colors);
    push_padding(&mut output, data.len(), bytes_per_line);
    push_ascii_column(&mut output, data, show_ascii, use_colors);
    output
}

/// The upper-case line for `data` at `offset`.
pub fn format_uppercase(
    offset: usize,
    data: &[u8],
    bytes_per_line: usize,
    show_ascii: bool,
    use_colors: bool,
) -> (s: String)
    requires
        padding_fits(data@.len(), bytes_per_line as nat),
    ensures
        s@ == uppercase_line(offset as nat, data@, bytes_per_line as nat, show_ascii, use_colors),
{
    let mut output = format_offset_uppercase(offset);
    output.push(':');
    output.push(' ');
    push_hex_cells(&mut output, data, true, use_colors);
    push_padding(&mut output, data.len(), bytes_per_line);
    push_ascii_column(&mut output, data, show_ascii, false);
    output
}

/// The hex cells of `data` separated by spaces.
pub fn format_plain_hex(data: &[u8], use_colors: bool) -> (s: String)
    ensures
        s@ == plain_hex_line(data@, use_colors),
{
    let mut output = String::new();
    let mut i: usize = 0;
    while i < data.len()
        invariant
            i <= data@.len(),
            output@ == plain_hex_line(data@.take(i as int), use_colors),
        decreases data@.len() - i,
    {
        if i > 0 {
            output.push(' ');
        }
        let cell = format_hex(data[i], use_colors);
        push_str(&mut output, cell.as_str());
        assert(data@.take(i + 1).drop_last() =~= data@.take(i as int));
        assert(output@ =~= plain_hex_line(data@.take(i + 1), use_colors));
        i = i + 1;
    }
    assert(data@.take(data@.len() as int) =~= data@);
    output
}

/// `data` as C literals `0x..` separated by `, `, with a trailing comma.
pub fn format_c_array(data: &[u8]) -> (s: String)
    ensures
        s@ == c_array_line(data@),
{
    let mut output = String::new();
    let mut i: usize = 0;
    while i < data.len()
        invariant
            i <= data@.len(),
            output@ == c_items(data@.take(i as int)),
        decreases data@.len() - i,
    {
        if i > 0 {
            output.push(',');
            output.push(' ');
        }
        output.push('0');
        output.push('x');
        push_padded_digits(&mut output, data[i] as u64, 16, 2, false);
        assert(data@.take(i + 1).drop_last() =~= data@.take(i as int));
        assert(output@ =~= c_items(data@.take(i + 1)));
        i = i + 1;
    }
    assert(data@.take(data@.len() as int) =~= data@);
    output.push(',');
    output
}

/// The line for `data` at `offset` in output format `format`.
pub fn format_line_by_type(
    offset: usize,
    data: &[u8],
    format: OutputFormat,
    bytes_per_line: usize,
    show_ascii: bool,
    use_colors: bool,
) -> (s: String)
    requires
        padding_fits(data@.len(), bytes_per_line as nat),
    ensures
        s@ == line_for(format, offset as nat, data@, bytes_per_line as nat, show_ascii, use_colors),
{
    match format {
        OutputFormat::Canonical => format_canonical(
            offset,
            data,
            bytes_per_line,
            show_ascii,
            use_colors,
        ),
        OutputFormat::PlainHex => format_plain_hex(data, use_colors),
        OutputFormat::CArray => format_c_array(data),
        OutputFormat::Uppercase => format_uppercase(
            offset,
            data,
            bytes_per_line,
            show_ascii,
            use_colors,
        ),
    }
}

} // verus!
