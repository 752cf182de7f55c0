use reims_vgpu::observe::decline_text;
use reims_vgpu::text::{
    bracketed, chars_of, parse_u32, push_decimal, same_text, starts_with, text_in_order, trim,
    white_space,
};

#[test]
fn numbers_read_as_the_standard_library_writes_them() {
    for n in [0u64, 7, 10, 99, 100, 1080, u64::from(u32::MAX), u64::MAX] {
        let mut text = String::from("n=");
        push_decimal(&mut text, n);
        assert_eq!(text, format!("n={n}"));
    }
    for list in [vec![], vec![3], vec![1, 20, 300]] {
        assert_eq!(bracketed(&list), format!("{list:?}"));
    }
}

#[test]
fn white_space_is_what_the_standard_library_calls_it() {
    for v in 0..=0x10_ffffu32 {
        if let Some(c) = char::from_u32(v) {
            assert_eq!(white_space(c), c.is_whitespace(), "{v:#x}");
        }
    }
}

#[test]
fn trimming_is_the_standard_library_s() {
    for s in ["", " ", "a", " a b ", "\u{2003}x\u{85}", "\u{200b}y\u{200b}", "é\n", "\t\r\n"] {
        assert_eq!(trim(s), s.trim(), "{s:?}");
    }
}

#[test]
fn numbers_parse_as_the_standard_library_s_do() {
    for s in [
        "", "0", "+0", "-0", "+", "++1", "12", " 12", "4294967295", "4294967296", "00000000000001",
        "99999999999999999999", "1_000", "٣",
    ] {
        assert_eq!(parse_u32(s), s.parse::<u32>().ok(), "{s:?}");
    }
}

#[test]
fn texts_compare_as_their_bytes_do() {
    let words = ["", "a", "ab", "b", "é", "event10", "event2", "z"];
    for a in words {
        for b in words {
            assert_eq!(same_text(a, b), a == b);
            assert_eq!(text_in_order(a, b), a <= b, "{a:?} {b:?}");
            assert_eq!(starts_with(a, b), a.starts_with(b), "{a:?} {b:?}");
        }
    }
    assert_eq!(chars_of("aé"), vec!['a', 'é']);
}

#[test]
fn a_decline_line_lists_its_fields() {
    assert_eq!(decline_text("slug", &vec![]), "reason=slug");
    assert_eq!(
        decline_text("slug", &vec![("a", "1".to_string()), ("b", String::new())]),
        "reason=slug a=1 b="
    );
}
