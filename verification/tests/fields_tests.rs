use boom_catalogs::fields::{FloatText, FieldValue};
use boom_catalogs::types::{extract_range, nullable_field, parse_boolean, parse_optional, parse_optional_string, trimmed};

#[test]
fn optional_strings_are_trimmed_or_absent() {
    assert_eq!(parse_optional_string("  abc  "), Some("abc".to_string()));
    assert_eq!(parse_optional_string("   "), None);
    assert_eq!(parse_optional_string(""), None);
    assert_eq!(parse_optional_string("\t\u{3000}x y\u{a0}"), Some("x y".to_string()));
}

#[test]
fn optional_values_follow_std_parsing() {
    assert_eq!(parse_optional::<i32>(" 12 "), Some(12));
    assert_eq!(parse_optional::<i32>("   "), None);
    assert_eq!(parse_optional::<i32>("x"), None);
    assert_eq!(parse_optional::<i64>("-9223372036854775808"), Some(i64::MIN));
    let f: Option<FloatText> = parse_optional(" 12.5e3 ");
    assert_eq!(f.unwrap().as_str(), "12.5e3");
    let g: Option<FloatText> = parse_optional("12,5");
    assert!(g.is_none());
}

#[test]
fn flags_say_yes() {
    for s in ["1", "true", " TRUE ", "Yes", "y", "Y"] {
        assert!(parse_boolean(s), "{:?}", s);
    }
    for s in ["", "0", "no", "t", "yes!", "truee", "2"] {
        assert!(!parse_boolean(s), "{:?}", s);
    }
}

#[test]
fn ranges_are_cut_by_bytes_and_clipped() {
    assert_eq!(extract_range("abcdef", 1, 3), "bc");
    assert_eq!(extract_range("abcdef", 4, 100), "ef");
    assert_eq!(extract_range("abcdef", 6, 8), "");
    assert_eq!(extract_range("abcdef", 10, 12), "");
    assert_eq!(extract_range("aé b", 1, 3), "é");
}

#[test]
fn nullable_cells() {
    assert_eq!(nullable_field::<i32>(""), Ok(None));
    assert_eq!(nullable_field::<i32>("null"), Ok(None));
    assert_eq!(nullable_field::<i32>("17"), Ok(Some(17)));
    assert_eq!(nullable_field::<i32>("x"), Err("invalid digit found in string".to_string()));
    assert_eq!(nullable_field::<i32>(" 17"), Err("invalid digit found in string".to_string()));
    let f = nullable_field::<FloatText>("0.25").unwrap().unwrap();
    assert_eq!(f.as_str(), "0.25");
    assert_eq!(nullable_field::<FloatText>("abc").err(), Some("invalid float literal".to_string()));
    assert_eq!(nullable_field::<FloatText>("NULL").err(), Some("invalid float literal".to_string()));
}

#[test]
fn float_text_converts() {
    let cs: Vec<char> = "-1.5E2".chars().collect();
    let f = FloatText::from_chars(&cs).unwrap();
    assert_eq!(f.as_str().parse::<f64>().unwrap(), -150.0);
    let bad: Vec<char> = "1.5.2".chars().collect();
    assert!(FloatText::from_chars(&bad).is_none());
    assert_eq!(FloatText::read_value(&bad).err(), Some("invalid float literal"));
    assert_eq!(FloatText::read_value(&[]).err(), Some("cannot parse float from empty string"));
}

#[test]
fn trimmed_text() {
    assert_eq!(trimmed("  ZTF  "), "ZTF");
    assert_eq!(trimmed("\u{2003}"), "");
}
