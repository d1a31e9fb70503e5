use bfmachine::interactive::text::{find_token_end, find_whitespace_end, slice_str, whitespace_at};

#[test]
fn white_space_is_what_the_standard_library_calls_so() {
    for code in 0..=0x10ffffu32 {
        let Some(ch) = char::from_u32(code) else {
            continue;
        };
        let mut text = String::new();
        text.push(ch);
        text.push('x');
        let bytes = text.as_bytes();
        let found = whitespace_at(bytes, 0, bytes.len());
        if ch.is_whitespace() {
            assert_eq!(found, ch.len_utf8(), "U+{code:04X}");
        } else {
            assert_eq!(found, 0, "U+{code:04X}");
        }
    }
}

#[test]
fn token_end_is_where_find_finds_white_space() {
    let texts = [
        "", "a", " ", "ab cd", "ab\tcd", "é\u{a0}x", "\u{3000}", "日本語\u{2003}テキスト", "a\u{85}",
        "a\u{200b}b c", "x\u{1680}y", "x\u{205f}", "no-space",
    ];
    for text in texts {
        let bytes = text.as_bytes();
        let expected = text.find(char::is_whitespace).unwrap_or(text.len());
        assert_eq!(find_token_end(bytes, 0, bytes.len()), expected, "{text:?}");
    }
}

#[test]
fn whitespace_end_is_where_find_finds_anything_else() {
    let texts = [
        "", "a", " ", "  ab", "\t\n\r x", "\u{a0}\u{2003}é", "\u{3000}", " \u{200b}", "\u{85}\u{1680}",
    ];
    for text in texts {
        let bytes = text.as_bytes();
        let expected = text.find(|c: char| !c.is_whitespace()).unwrap_or(text.len());
        assert_eq!(find_whitespace_end(bytes, 0, bytes.len()), expected, "{text:?}");
    }
}

#[test]
fn scans_respect_their_limits() {
    let bytes = "ab cd ef".as_bytes();
    assert_eq!(find_token_end(bytes, 3, 5), 5);
    assert_eq!(find_token_end(bytes, 3, 8), 5);
    assert_eq!(find_whitespace_end(bytes, 2, 2), 2);
    assert_eq!(find_whitespace_end(bytes, 2, 8), 3);
    let wide = "\u{2003}".as_bytes();
    assert_eq!(whitespace_at(wide, 0, 2), 0);
    assert_eq!(whitespace_at(wide, 0, 3), 3);
}

#[test]
fn slice_str_cuts_between_characters() {
    assert_eq!(slice_str("héllo wörld", 0, 6), "héllo");
    assert_eq!(slice_str("héllo wörld", 7, 13), "wörld");
    assert_eq!(slice_str("héllo", 3, 3), "");
    assert_eq!(slice_str("", 0, 0), "");
}
