use toolshed::hexaprint::binary::text_to_binary;
use toolshed::hexaprint::color::{colorize, get_color_for_byte, Color};
use toolshed::hexaprint::dumper::{DumpRequest, DumpState, HexDumper, OutputFormat};
use toolshed::hexaprint::format::{
    format_ascii, format_hex, format_hex_uppercase, format_offset, format_offset_uppercase, is_printable,
};
use toolshed::hexaprint::line::{
    format_c_array, format_canonical, format_line_by_type, format_plain_hex, format_uppercase,
};

#[test]
fn colors_by_byte_class() {
    assert_eq!(get_color_for_byte(0x00), Color::BrightBlack);
    assert_eq!(get_color_for_byte(0x20), Color::Green);
    assert_eq!(get_color_for_byte(0x7e), Color::Green);
    assert_eq!(get_color_for_byte(0x7f), Color::Yellow);
    assert_eq!(get_color_for_byte(0x0a), Color::Yellow);
    assert_eq!(get_color_for_byte(0x80), Color::Cyan);
    assert_eq!(get_color_for_byte(0xff), Color::Cyan);
}

#[test]
fn colorize_wraps_in_ansi_codes() {
    assert_eq!(colorize("41", Color::Green, true), "\x1b[32m41\x1b[0m");
    assert_eq!(colorize("00", Color::BrightBlack, true), "\x1b[90m00\x1b[0m");
    assert_eq!(colorize("ff", Color::Cyan, true), "\x1b[36mff\x1b[0m");
    assert_eq!(colorize("0a", Color::Yellow, true), "\x1b[33m0a\x1b[0m");
    assert_eq!(colorize("41", Color::Green, false), "41");
}

#[test]
fn offsets_and_bytes_in_hex() {
    assert_eq!(format_offset(0), "00000000");
    assert_eq!(format_offset(0x1f), "0000001f");
    assert_eq!(format_offset(0x1_2345_6789), "123456789");
    assert_eq!(format_offset_uppercase(0xabc), "00000ABC");
    assert_eq!(format_hex(0x0a, false), "0a");
    assert_eq!(format_hex_uppercase(0xab, false), "AB");
    assert_eq!(format_hex(0x41, true), "\x1b[32m41\x1b[0m");
    assert_eq!(format_hex_uppercase(0xff, true), "\x1b[36mFF\x1b[0m");
}

#[test]
fn printable_and_ascii_cells() {
    assert!(is_printable(b' '));
    assert!(is_printable(b'~'));
    assert!(!is_printable(0x1f));
    assert!(!is_printable(0x7f));
    assert_eq!(format_ascii(b'H', false), "H");
    assert_eq!(format_ascii(0x00, false), ".");
    assert_eq!(format_ascii(0x00, true), ".");
    assert_eq!(format_ascii(b'H', true), "\x1b[32mH\x1b[0m");
}

#[test]
fn canonical_lines_match_readme_example() {
    let data = b"Hello, World!\nThis is a test file.\n";
    assert_eq!(
        format_canonical(0, &data[0..16], 16, true, false),
        "00000000: 48 65 6c 6c 6f 2c 20 57 6f 72 6c 64 21 0a 54 68  |Hello, World!.Th|"
    );
    assert_eq!(
        format_canonical(16, &data[16..32], 16, true, false),
        "00000010: 69 73 20 69 73 20 61 20 74 65 73 74 20 66 69 6c  |is is a test fil|"
    );
    assert_eq!(
        format_canonical(32, &data[32..35], 16, true, false),
        "00000020: 65 2e 0a                                         |e..|"
    );
}

#[test]
fn canonical_line_without_ascii() {
    assert_eq!(format_canonical(5, &[0x41, 0x00], 4, false, false), "00000005: 41 00       ");
}

#[test]
fn other_line_formats() {
    let data = [0x48, 0x65, 0x00, 0xff];
    assert_eq!(format_plain_hex(&data, false), "48 65 00 ff");
    assert_eq!(format_plain_hex(&[], false), "");
    assert_eq!(format_c_array(&data), "0x48, 0x65, 0x00, 0xff,");
    assert_eq!(format_c_array(&[]), ",");
    assert_eq!(format_uppercase(0xab, &data, 6, true, false), "000000AB: 48 65 00 FF        |He..|");
    assert_eq!(
        format_line_by_type(0, &data, OutputFormat::CArray, 16, true, true),
        "0x48, 0x65, 0x00, 0xff,"
    );
    assert_eq!(
        format_line_by_type(0, &[0x41], OutputFormat::PlainHex, 16, true, true),
        "\x1b[32m41\x1b[0m"
    );
}

#[test]
fn text_to_binary_groups_bytes() {
    assert_eq!(text_to_binary("Hi"), "01001000 01101001");
    assert_eq!(text_to_binary(""), "");
    assert_eq!(text_to_binary("A"), "01000001");
    // A character above U+00FF keeps only its low byte.
    assert_eq!(text_to_binary("\u{141}"), "01000001");
}

#[test]
fn dump_without_skip_or_limit() {
    let d = HexDumper::new(4, false, OutputFormat::PlainHex, false, None, None);
    let st = d.start();
    assert_eq!(st, DumpState::Dumping { remaining: usize::MAX, offset: 0 });
    assert_eq!(d.request(st), DumpRequest::Read(8192));
    let (st, lines) = d.dump(st, &[1, 2, 3, 4, 5, 6]);
    assert_eq!(lines, vec!["01 02 03 04".to_string(), "05 06".to_string()]);
    assert_eq!(st, DumpState::Dumping { remaining: usize::MAX - 6, offset: 6 });
    let (st, lines) = d.dump(st, &[]);
    assert!(lines.is_empty());
    assert_eq!(st, DumpState::Finished);
    assert_eq!(d.request(st), DumpRequest::Finish);
}

#[test]
fn dump_skips_then_limits() {
    let d = HexDumper::new(16, true, OutputFormat::Canonical, false, Some(3), Some(10000));
    let st = d.start();
    assert_eq!(st, DumpState::Skipping { remaining: 10000 });
    assert_eq!(d.request(st), DumpRequest::Discard(8192));
    let (st, lines) = d.dump(st, &[0; 8192]);
    assert!(lines.is_empty());
    assert_eq!(st, DumpState::Skipping { remaining: 1808 });
    assert_eq!(d.request(st), DumpRequest::Discard(1808));
    let (st, _) = d.dump(st, &[0; 1808]);
    assert_eq!(st, DumpState::Dumping { remaining: 3, offset: 10000 });
    assert_eq!(d.request(st), DumpRequest::Read(3));
    let (st, lines) = d.dump(st, b"abc");
    assert_eq!(
        lines,
        vec![format!("00002710: 61 62 63 {} |abc|", " ".repeat(13 * 3))]
    );
    assert_eq!(st, DumpState::Dumping { remaining: 0, offset: 10003 });
    assert_eq!(d.request(st), DumpRequest::Finish);
}

#[test]
fn skip_past_end_of_input_fails() {
    // Skipping 10 bytes of "ABCD": the input ends before the skip is done.
    let d = HexDumper::new(16, true, OutputFormat::Canonical, false, None, Some(10));
    let st = d.start();
    assert_eq!(d.request(st), DumpRequest::Discard(10));
    let (st, lines) = d.dump(st, b"ABCD");
    assert!(lines.is_empty());
    assert_eq!(st, DumpState::Skipping { remaining: 6 });
    let (st, lines) = d.dump(st, &[]);
    assert!(lines.is_empty());
    assert_eq!(st, DumpState::InputTooShort);
    assert_eq!(d.request(st), DumpRequest::InputTooShort);
}

#[test]
fn skip_of_whole_input_then_end() {
    let d = HexDumper::new(8, true, OutputFormat::Canonical, false, None, Some(4));
    let (st, _) = d.dump(d.start(), b"ABCD");
    assert_eq!(st, DumpState::Dumping { remaining: usize::MAX, offset: 4 });
    let (st, lines) = d.dump(st, &[]);
    assert!(lines.is_empty());
    assert_eq!(st, DumpState::Finished);
}

#[test]
fn zero_skip_and_zero_length() {
    let d = HexDumper::new(8, true, OutputFormat::Canonical, false, Some(0), Some(0));
    let st = d.start();
    assert_eq!(st, DumpState::Dumping { remaining: 0, offset: 0 });
    assert_eq!(d.request(st), DumpRequest::Finish);
}

#[test]
fn uppercase_offset_is_lowercase_upper_cased() {
    for n in [0usize, 0xbeef, 0xabcdef12, 255] {
        assert_eq!(format_offset_uppercase(n), format_offset(n).to_ascii_uppercase());
    }
    assert_eq!(format_offset_uppercase(0xbeef), "0000BEEF");
    assert_eq!(format_hex_uppercase(0xab, false), format_hex(0xab, false).to_ascii_uppercase());
}

#[test]
fn zero_width_is_fine_when_nothing_is_shown() {
    let d = HexDumper::new(0, true, OutputFormat::Canonical, false, None, Some(2));
    let (st, lines) = d.dump(d.start(), b"ab");
    assert!(lines.is_empty());
    let (st, lines) = d.dump(st, &[]);
    assert!(lines.is_empty());
    assert_eq!(st, DumpState::Finished);
}
