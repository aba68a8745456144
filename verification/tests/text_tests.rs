use boom_catalogs::text::{chars_of, is_white_space_char, split_pieces, trim_bounds, trim_chars};
use boom_catalogs::types::trimmed;

#[test]
fn white_space_matches_std() {
    for u in 0u32..0x3100 {
        if let Some(c) = char::from_u32(u) {
            assert_eq!(is_white_space_char(c), c.is_whitespace(), "U+{:04X}", u);
        }
    }
}

#[test]
fn trim_matches_std() {
    for s in ["", "  ", " a ", "\u{85}x\u{2028}", "a b", "\tab\n", "\u{200b}x\u{200b}", "\u{3000}z"] {
        let cs = chars_of(s);
        let t: String = trim_chars(&cs).into_iter().collect();
        assert_eq!(t, s.trim(), "{:?}", s);
        let (a, b) = trim_bounds(&cs);
        assert!(a <= b);
    }
}

#[test]
fn split_matches_std() {
    for s in ["", "|", "a|b", "a||b|", "|x", "no bars"] {
        let cs = chars_of(s);
        let ours: Vec<String> = split_pieces(&cs, '|').into_iter().map(|p| p.into_iter().collect()).collect();
        let std_parts: Vec<String> = s.split('|').map(|p| p.to_string()).collect();
        assert_eq!(ours, std_parts, "{:?}", s);
    }
}

#[test]
fn strings_are_built_from_their_characters() {
    assert_eq!(trimmed("  aé| \t"), "aé|");
    assert_eq!(trimmed(""), "");
}

#[test]
fn trimming_twice_trims_once() {
    for s in ["", "  ", " a b ", "\u{3000}x\u{85}", "x"] {
        let once = trim_chars(&chars_of(s));
        assert_eq!(trim_chars(&once), once, "{:?}", s);
    }
}
