use snow_storage::error::{ErrorStatus, StorageError};
use snow_storage::order::comes_before;
use snow_storage::text;

fn chars(s: &str) -> Vec<char> {
    s.chars().collect()
}

fn strings(parts: Vec<Vec<char>>) -> Vec<String> {
    parts.into_iter().map(|p| p.into_iter().collect()).collect()
}

#[test]
fn white_space_is_that_of_the_standard_library() {
    for n in 0..=0x10FFFFu32 {
        if let Some(c) = char::from_u32(n) {
            assert_eq!(text::is_white(c), c.is_whitespace(), "{n:x}");
        }
    }
}

#[test]
fn char_widths_are_those_of_utf8() {
    for c in ['a', '\u{7f}', '\u{80}', 'ß', '\u{7ff}', '\u{800}', '新', '\u{ffff}', '\u{10000}', '😀'] {
        assert_eq!(text::char_width(c), c.len_utf8());
    }
    assert_eq!(text::bytes_in(&chars("a新😀")), 8);
    assert_eq!(text::char_index(&chars("a新b"), 4), Some(2));
    assert_eq!(text::char_index(&chars("a新b"), 2), None);
    assert!(text::takes_bytes(&chars("a新"), 4));
    assert!(!text::takes_bytes(&chars("a新"), 5));
}

#[test]
fn trimming_agrees_with_the_standard_library() {
    for s in ["", "  ", " a b ", "\t\u{3000}x\u{a0}\n", "plain"] {
        let c = chars(s);
        assert_eq!(text::string_of(text::trim(&c)), s.trim());
        assert_eq!(text::string_of(text::trim_start(&c)), s.trim_start());
        assert_eq!(text::string_of(text::trim_end(&c)), s.trim_end());
    }
    assert_eq!(text::string_of(text::trim_end_char(&chars("a//"), '/')), "a");
    assert_eq!(text::string_of(text::trim_start_char(&chars("\"\"a"), '"')), "a");
}

#[test]
fn splitting_agrees_with_the_standard_library() {
    for s in ["", "/", "a", "a/b", "/a//b/", "a\nb\r\nc\n", "\r\n", "x\r", "one  two\tthree "] {
        let c = chars(s);
        let by_slash: Vec<String> = s.split('/').map(|p| p.to_string()).collect();
        assert_eq!(strings(text::split_at_char(&c, '/')), by_slash);
        let by_line: Vec<String> = s.lines().map(|p| p.to_string()).collect();
        assert_eq!(strings(text::lines_of(&c)), by_line);
        let by_word: Vec<String> = s.split_whitespace().map(|p| p.to_string()).collect();
        assert_eq!(strings(text::words_of(&c)), by_word);
        let by_text: Vec<String> = s.split("\r\n").map(|p| p.to_string()).collect();
        assert_eq!(strings(text::split_at_text(&c, "\r\n")), by_text);
    }
}

#[test]
fn searching_agrees_with_the_standard_library() {
    let s = "abracadabra";
    let c = chars(s);
    for p in ["", "a", "bra", "cad", "abracadabra", "x", "abracadabrax"] {
        assert_eq!(text::position_str(&c, p), s.find(p));
        assert_eq!(text::contains_str(&c, p), s.contains(p));
        assert_eq!(text::starts_with(&c, p), s.starts_with(p));
        assert_eq!(text::ends_with(&c, p), s.ends_with(p));
        assert_eq!(text::equals(&c, p), s == p);
    }
    assert_eq!(text::position_char(&c, 'c'), Some(4));
    assert_eq!(text::position_char(&c, 'z'), None);
}

#[test]
fn numbers_are_written_and_read() {
    for n in [0u64, 7, 10, 99, 1234567890, u64::MAX] {
        assert_eq!(text::string_of(&text::write_u64(n)), n.to_string());
    }
    for n in [0i64, -1, 42, i64::MAX, i64::MIN] {
        assert_eq!(text::string_of(&text::write_i64(n)), n.to_string());
    }
    for s in ["0", "007", "2147483647", "2147483648", "", "99999999999"] {
        assert_eq!(text::read_i32(&chars(s)), s.parse::<i32>().ok());
    }
    assert_eq!(text::string_of(text::end_digits(&chars("ab12"))), "12");
    assert_eq!(text::digits_length(&chars("123a4")), 3);
}

#[test]
fn texts_are_joined_replaced_and_folded() {
    assert_eq!(text::string_of(&text::replace_char(&chars("a'b'"), '\'', "'\\''")), "a'\\''b'\\''");
    assert_eq!(
        text::string_of(&text::join(&vec![chars("a"), chars(""), chars("c")], ", ")),
        "a, , c"
    );
    assert_eq!(text::string_of(&text::to_ascii_lower(&chars("ÀBc"))), "Àbc");
    let mut out = chars("a");
    text::append(&mut out, &chars("b"));
    text::append_str(&mut out, "c");
    assert_eq!(out, chars("abc"));
}

#[test]
fn texts_are_ordered_as_strings_are() {
    let list = ["", "a", "a/b", "ab", "b", "é", "新", "\u{ffff}", "😀"];
    for a in list {
        for b in list {
            assert_eq!(comes_before(&chars(a), &chars(b)), a < b, "{a} {b}");
        }
    }
}

#[test]
fn errors_show_their_status() {
    let e = StorageError::from_reason("no such row");
    assert_eq!(e.status, ErrorStatus::GenericFailure);
    assert_eq!(e.text(), "GenericFailure, no such row");
    let e = StorageError::invalid_arg("");
    assert_eq!(e.text(), "InvalidArg");
    assert_eq!(e.duplicate().status, ErrorStatus::InvalidArg);
}
