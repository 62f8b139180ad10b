use telegram_drive_headless::names::sanitise_upload_filename;
use telegram_drive_headless::number::{
    decimal_i64, decimal_u64, hex_lower, parse_i32, parse_i64, parse_u64,
};
use telegram_drive_headless::range::parse_range_header;
use telegram_drive_headless::text::{is_control, is_white_space, read_header_text, trim};

fn chars(text: &str) -> Vec<char> {
    text.chars().collect()
}

#[test]
fn range_parser_accepts_normal_ranges() {
    assert_eq!(parse_range_header("bytes=0-99", 1000), Some((0, 99)));
    assert_eq!(parse_range_header("bytes=100-", 1000), Some((100, 999)));
    assert_eq!(parse_range_header("bytes=900-2000", 1000), Some((900, 999)));
}

#[test]
fn range_parser_rejects_invalid_or_multi_ranges() {
    assert_eq!(parse_range_header("bytes=-100", 1000), None);
    assert_eq!(parse_range_header("bytes=1000-", 1000), None);
    assert_eq!(parse_range_header("bytes=0-1,3-4", 1000), None);
}

#[test]
fn range_parser_handles_the_odd_forms() {
    assert_eq!(parse_range_header("bytes= 5 - 9 ", 1000), Some((5, 9)));
    assert_eq!(parse_range_header("bytes=bytes=5-9", 1000), Some((5, 9)));
    assert_eq!(parse_range_header("bytes=+5-+9", 1000), Some((5, 9)));
    assert_eq!(parse_range_header("bytes=999-999", 1000), Some((999, 999)));
    assert_eq!(parse_range_header("bytes=9-5", 1000), None);
    assert_eq!(parse_range_header("bytes=5-9-11", 1000), None);
    assert_eq!(parse_range_header("bytes=5", 1000), None);
    assert_eq!(parse_range_header("bytes=", 1000), None);
    assert_eq!(parse_range_header("items=5-9", 1000), None);
    assert_eq!(parse_range_header("bytes=a-9", 1000), None);
    assert_eq!(parse_range_header("bytes=0-", 0), None);
    assert_eq!(parse_range_header("bytes=0-18446744073709551616", 1000), None);
    assert_eq!(parse_range_header("bytes=0-18446744073709551615", 1000), Some((0, 999)));
}

#[test]
fn written_ranges_are_read_back() {
    for (start, end, total) in [(0u64, 0u64, 1u64), (7, 7, 8), (12, 3456, 4000), (0, 5000, 4000)] {
        let text = format!("bytes={start}-{end}");
        assert_eq!(parse_range_header(&text, total), Some((start, end.min(total - 1))));
    }
}

#[test]
fn upload_filename_is_reduced_to_safe_basename() {
    assert_eq!(sanitise_upload_filename("../../episode-1.mp4"), "episode-1.mp4");
    assert_eq!(sanitise_upload_filename(".."), "file");
}

#[test]
fn upload_filename_handles_the_odd_forms() {
    assert_eq!(sanitise_upload_filename(""), "file");
    assert_eq!(sanitise_upload_filename("."), "file");
    assert_eq!(sanitise_upload_filename("dir/"), "file");
    assert_eq!(sanitise_upload_filename("c:\\dir\\a.mp4"), "a.mp4");
    assert_eq!(sanitise_upload_filename("a/b\\c/d.mp4"), "d.mp4");
    assert_eq!(sanitise_upload_filename("  a b.mp4\u{3000}"), "a b.mp4");
    assert_eq!(sanitise_upload_filename("a\u{0}b\u{7f}c\u{85}d.mp4"), "abcd.mp4");
    assert_eq!(sanitise_upload_filename(".\u{1}."), "file");
    assert_eq!(sanitise_upload_filename("\u{1}  x"), "  x");
    assert_eq!(sanitise_upload_filename("..."), "...");
    assert_eq!(sanitise_upload_filename("\u{e9}t\u{e9}.mp4"), "\u{e9}t\u{e9}.mp4");
}

#[test]
fn upload_filename_is_cut_to_its_longest_length() {
    let long: String = "\u{e9}".repeat(300);
    assert_eq!(sanitise_upload_filename(&long), "\u{e9}".repeat(255));
    let mixed: String = "\u{1}a".repeat(300);
    assert_eq!(sanitise_upload_filename(&mixed), "a".repeat(255));
    assert_eq!(sanitise_upload_filename(&"b".repeat(255)), "b".repeat(255));
}

#[test]
fn numbers_are_read_as_the_standard_library_reads_them() {
    for text in [
        "", "+", "-", "0", "-0", "+0", "007", "42", "+42", "-42", "--1", "+-1", "1_000", " 1", "1 ",
        "2147483647", "2147483648", "-2147483648", "-2147483649", "9223372036854775807",
        "9223372036854775808", "-9223372036854775808", "-9223372036854775809",
        "18446744073709551615", "18446744073709551616", "99999999999999999999999",
        "\u{661}", "0x10",
    ] {
        assert_eq!(parse_u64(&chars(text)), text.parse::<u64>().ok());
        assert_eq!(parse_i64(&chars(text)), text.parse::<i64>().ok());
        assert_eq!(parse_i32(&chars(text)), text.parse::<i32>().ok());
    }
}

#[test]
fn numbers_are_written_in_decimal() {
    for n in [0u64, 9, 10, 99, 100, 67_108_864, u64::MAX] {
        assert_eq!(decimal_u64(n), n.to_string());
        assert_eq!(parse_u64(&chars(&decimal_u64(n))), Some(n));
    }
    for n in [0i64, -1, -10, 12345, i64::MIN, i64::MAX] {
        assert_eq!(decimal_i64(n), n.to_string());
    }
}

#[test]
fn bytes_are_written_in_hexadecimal() {
    assert_eq!(hex_lower(&[]), "");
    assert_eq!(hex_lower(&[0x00, 0x0f, 0xa0, 0xff, 0x9c]), "000fa0ff9c");
    let all: std::collections::HashSet<String> = (0..=255u8).map(|b| hex_lower(&[b])).collect();
    assert_eq!(all.len(), 256);
}

#[test]
fn character_classes_are_those_of_the_standard_library() {
    for code in 0..=0x10ffffu32 {
        if let Some(c) = char::from_u32(code) {
            assert_eq!(is_white_space(c), c.is_whitespace());
            assert_eq!(is_control(c), c.is_control());
        }
    }
}

#[test]
fn texts_are_trimmed_as_the_standard_library_trims_them() {
    for text in ["", " ", "a", " a ", "\t a b \u{2003}\n", "\u{feff}a", "\u{85}\u{a0}x\u{1680}"] {
        assert_eq!(trim(text), text.trim());
        assert_eq!(trim(&trim(text)), trim(text));
    }
}

#[test]
fn header_values_are_read_as_visible_ascii() {
    assert_eq!(read_header_text(b"a b\t~"), Some("a b\t~".to_string()));
    assert_eq!(read_header_text(b""), Some(String::new()));
    assert_eq!(read_header_text(b"a\x7f"), None);
    assert_eq!(read_header_text(b"a\x1f"), None);
    assert_eq!(read_header_text("\u{e9}".as_bytes()), None);
    for byte in 0..=255u8 {
        let value = actix_web::http::header::HeaderValue::from_bytes(&[byte]);
        let text = value.ok().and_then(|v| v.to_str().ok().map(str::to_string));
        assert_eq!(read_header_text(&[byte]), text);
    }
}
