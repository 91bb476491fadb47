use subtitle_converter::text::{concat_str, drop_last_char, same_text, split_char, trim_str, white_space};

#[test]
fn split_char_gives_every_piece() {
    assert_eq!(split_char("a:b::c", ':'), vec!["a", "b", "", "c"]);
    assert_eq!(split_char("", ':'), vec![""]);
    assert_eq!(split_char(":", ':'), vec!["", ""]);
    assert_eq!(split_char("abc", ':'), vec!["abc"]);
}

#[test]
fn split_char_agrees_with_std_split() {
    for s in ["00:00:01.000 --> 00:00:04.000\n", "  a  b ", "é ü", "x"] {
        let ours = split_char(s, ' ');
        let std_split: Vec<&str> = s.split(' ').collect();
        assert_eq!(ours, std_split);
    }
}

#[test]
fn split_then_join_gives_back_the_text() {
    let s = "01:02:03.45";
    assert_eq!(split_char(s, ':').join(":"), s);
}

#[test]
fn trim_str_removes_unicode_whitespace() {
    assert_eq!(trim_str("  WEBVTT\r\n"), "WEBVTT");
    assert_eq!(trim_str("\u{3000}x\u{a0}"), "x");
    assert_eq!(trim_str(" \t\n"), "");
    assert_eq!(trim_str("a b"), "a b");
    for s in ["\u{85}y\u{2029}", " z\u{200b}", "\u{1680}w "] {
        assert_eq!(trim_str(s), s.trim());
    }
}

#[test]
fn white_space_matches_std() {
    for c in ['\t', '\n', '\u{b}', '\u{c}', '\r', ' ', '\u{85}', '\u{a0}', '\u{2000}', '\u{3000}'] {
        assert!(white_space(c));
        assert_eq!(white_space(c), c.is_whitespace());
    }
    for c in ['a', '0', '\u{200b}', '\u{feff}'] {
        assert!(!white_space(c));
        assert_eq!(white_space(c), c.is_whitespace());
    }
}

#[test]
fn drop_last_char_drops_one_char() {
    assert_eq!(drop_last_char("00:00:01.000"), "00:00:01.00");
    assert_eq!(drop_last_char("é"), "");
    assert_eq!(drop_last_char(""), "");
}

#[test]
fn concat_and_compare() {
    assert_eq!(concat_str("ab", "cd"), "abcd");
    assert!(same_text("WEBVTT", "WEBVTT"));
    assert!(!same_text("WEBVTT", "WEBVT"));
}
