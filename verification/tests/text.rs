use winfree::item::Item;
use winfree::text::{bool_to_text, i32_text, parse_bool, parse_i32, parse_isize, u32_text};
use winfree::wide::{str_to_lpcwstr, truncate_at_nul};

#[test]
fn numbers_render_like_to_string() {
    for v in [0u32, 7, 10, 99, 100, 4294967295] {
        assert_eq!(u32_text(v), v.to_string());
    }
    for v in [0i32, -1, 5, -2147483648, 2147483647, 1000, -90] {
        assert_eq!(i32_text(v), v.to_string());
    }
    assert_eq!(bool_to_text(true), "true");
    assert_eq!(bool_to_text(false), "false");
}

#[test]
fn parse_i32_agrees_with_std() {
    let cases = [
        "", "+", "-", "0", "-0", "+7", "007", "12a", " 1", "1 ", "2147483647", "2147483648",
        "-2147483648", "-2147483649", "99999999999999999999", "0000000000000000000042", "--1",
        "+-1", "٣",
    ];
    for c in cases {
        assert_eq!(parse_i32(c), c.parse::<i32>().ok(), "case {:?}", c);
    }
}

#[test]
fn parse_isize_agrees_with_std() {
    let cases = [
        "0", "123", "-9223372036854775808", "9223372036854775807", "9223372036854775808",
        "-9223372036854775809", "x", "",
    ];
    for c in cases {
        assert_eq!(parse_isize(c), c.parse::<isize>().ok(), "case {:?}", c);
    }
}

#[test]
fn parse_bool_agrees_with_std() {
    for c in ["true", "false", "True", "1", "0", "", "truee", "fals"] {
        assert_eq!(parse_bool(c), c.parse::<bool>().ok(), "case {:?}", c);
    }
}

#[test]
fn wide_string_has_terminator() {
    let expected: Vec<u16> = "Software\\Run".encode_utf16().chain(std::iter::once(0)).collect();
    assert_eq!(str_to_lpcwstr("Software\\Run"), expected);
    assert_eq!(str_to_lpcwstr(""), vec![0]);
}

#[test]
fn wide_string_encodes_surrogate_pairs() {
    let s = "a😀é中";
    let expected: Vec<u16> = s.encode_utf16().chain(std::iter::once(0)).collect();
    assert_eq!(str_to_lpcwstr(s), expected);
    assert_eq!(str_to_lpcwstr("😀"), vec![0xD83D, 0xDE00, 0]);
}

#[test]
fn truncate_stops_at_first_nul() {
    assert_eq!(truncate_at_nul(&[72, 105, 0, 33, 0]), vec![72, 105]);
    assert_eq!(truncate_at_nul(&[72, 105]), vec![72, 105]);
    assert_eq!(truncate_at_nul(&[0, 1, 2]), Vec::<u16>::new());
    assert_eq!(truncate_at_nul(&[]), Vec::<u16>::new());
}

#[test]
fn encode_then_truncate_gives_back_the_text() {
    let s = "C:\\Program Files\\😀\\app.exe";
    let expected: Vec<u16> = s.encode_utf16().collect();
    assert_eq!(truncate_at_nul(&str_to_lpcwstr(s)), expected);
}

#[test]
fn describe_matches_the_display_format() {
    let cases = [
        Item {
            hwnd: 1234,
            title: "Notepad".to_string(),
            checked: true,
            left: -8,
            top: 0,
            width: 1920,
            height: 10,
            name: "C:\\Windows\\notepad.exe".to_string(),
        },
        Item {
            hwnd: 4294967295,
            title: "ü".repeat(45),
            checked: false,
            left: -2147483648,
            top: 12345,
            width: 7,
            height: -1,
            name: String::new(),
        },
    ];
    for it in cases {
        let expected = format!(
            "{:<8} ({:>4}, {:>4}, {:>4}, {:>4}) {:40} {:40}",
            it.hwnd, it.left, it.top, it.width, it.height, it.title, it.name
        );
        assert_eq!(it.describe(), expected);
    }
}
