use rust_gui::attribute::{fmt_helper, Attribute, AttributeMap, FloatValue};
use rust_gui::color::Color;
use rust_gui::text::{
    chars_of, int_to_text, join_with_space, parse_u32, same_text, space, split_text, split_words, string_of,
    to_lower, trim_text,
};
use rust_gui::version::{version_of_text, ApiVersion, ApplicationInfo};

#[test]
fn trims_and_splits_on_whitespace() {
    assert_eq!(trim_text("  a b \t\n"), "a b");
    assert_eq!(trim_text("   "), "");
    assert_eq!(split_words("  red  green\tblue "), vec!["red", "green", "blue"]);
    assert!(split_words("   ").is_empty());
}

#[test]
fn joins_with_single_spaces() {
    let parts = vec!["a".to_string(), "".to_string(), "b".to_string()];
    assert_eq!(join_with_space(&parts), "a  b");
    assert_eq!(join_with_space(&Vec::new()), "");
}

#[test]
fn lowers_ascii_letters_only() {
    assert_eq!(to_lower("MouseDown"), "mousedown");
    assert_eq!(to_lower("ÄB"), "Äb");
    assert!(same_text("error", "error"));
    assert!(!same_text("Error", "error"));
}

#[test]
fn integer_texts() {
    assert_eq!(int_to_text(0), "0");
    assert_eq!(int_to_text(-120), "-120");
    assert_eq!(int_to_text(i64::MIN), "-9223372036854775808");
    assert_eq!(int_to_text(i64::MAX), "9223372036854775807");
}

#[test]
fn parses_u32_as_std_does() {
    assert_eq!(parse_u32("42"), Some(42));
    assert_eq!(parse_u32("+7"), Some(7));
    assert_eq!(parse_u32("4294967295"), Some(u32::MAX));
    assert_eq!(parse_u32("4294967296"), None);
    assert_eq!(parse_u32(""), None);
    assert_eq!(parse_u32("+"), None);
    assert_eq!(parse_u32("-1"), None);
    assert_eq!(parse_u32("1a"), None);
    for s in ["0", "17", "+3", "x", "99999999999"] {
        assert_eq!(parse_u32(s), s.parse::<u32>().ok());
    }
}

#[test]
fn splits_on_a_separator() {
    assert_eq!(split_text("1.2..3", '.'), vec!["1", "2", "", "3"]);
    assert_eq!(split_text("", '.'), vec![""]);
    assert_eq!(string_of(&chars_of("héllo")), "héllo");
}

#[test]
fn packs_versions() {
    assert_eq!(version_of_text("1.3.0"), (1 << 22) | (3 << 12));
    assert_eq!(version_of_text("1.2.3.4"), (1 << 29) | (2 << 22) | (3 << 12) | 4);
    assert_eq!(version_of_text("9.1.2.3.4"), (1 << 29) | (2 << 22) | (3 << 12) | 4);
    assert_eq!(version_of_text("x.5"), 5);
    assert_eq!(version_of_text(""), 0);
    assert_eq!((0u32, 1u32, 3u32, 0u32).as_api(), (1 << 22) | (3 << 12));
    assert_eq!(7u32.as_api(), 7);
    assert_eq!("1.3".as_api(), (1 << 12) | 3);
    let info = ApplicationInfo::default();
    assert_eq!(info.name, "");
    assert_eq!(info.api_version, 0);
}

#[test]
fn colours() {
    assert_eq!(Color::new(1, 2, 3).rgba(), (1, 2, 3, 255));
    assert_eq!(Color::new_alpha(1, 2, 3, 4).rgba(), (1, 2, 3, 4));
    assert_eq!(Color::from([9u8, 8, 7]).rgba(), (9, 8, 7, 255));
    assert_eq!(Color::from([9u8, 8, 7, 6]).rgba(), (9, 8, 7, 6));
    let few: &[u8] = &[5];
    assert_eq!(Color::from(few).rgba(), (5, 0, 0, 255));
    let many: &[u8] = &[1, 2, 3, 4, 5];
    assert_eq!(Color::from(many).rgba(), (1, 2, 3, 4));
    let none: &[u8] = &[];
    assert_eq!(Color::from(none).rgba(), (0, 0, 0, 255));
}

#[test]
fn attribute_texts() {
    assert_eq!(Attribute::Integer(-5).to_string(), "-5");
    assert_eq!(Attribute::Boolean(true).to_string(), "true");
    assert_eq!(Attribute::Boolean(false).to_string(), "false");
    assert_eq!(Attribute::from_text("x y").to_string(), "x y");
    assert_eq!(Attribute::from_char('q').to_string(), "q");
    let f = Attribute::Number(FloatValue { bits: 1.5f64.to_bits(), text: 1.5f64.to_string() });
    assert_eq!(f.to_string(), "1.5");
    assert_eq!(fmt_helper("id", "main"), "id:\"main\",\n");
    assert_eq!(Attribute::Integer(3).format("x"), "x:\"3\",\n");
    assert_eq!(Attribute::Boolean(true).format("hidden"), "hidden");
    assert_eq!(Attribute::Boolean(false).format("hidden"), "");
}

#[test]
fn attribute_truth_and_equality() {
    assert!(!Attribute::from_text(" FALSE ").is_truthy());
    assert!(!Attribute::from_text("0").is_truthy());
    assert!(!Attribute::from_text("  ").is_truthy());
    assert!(Attribute::from_text("no").is_truthy());
    assert!(!Attribute::Integer(0).is_truthy());
    let zero = Attribute::Number(FloatValue { bits: (-0.0f64).to_bits(), text: "-0".to_string() });
    assert!(!zero.is_truthy());
    assert!(Attribute::Integer(2).eq_bool(true));
    assert!(Attribute::from_text("12").eq_integer(12));
    assert!(Attribute::Boolean(true).eq_integer(1));
    assert!(Attribute::Integer(7).eq_text("7"));
    assert!(Attribute::from_text("z").eq_char('z'));
    assert!(!Attribute::from_text("zz").eq_char('z'));
    assert!(Attribute::Integer(5).eq_unsigned(5));
    // the value is cast to `i64` first, so the largest `u64` equals -1
    assert!(Attribute::Integer(-1).eq_unsigned(u64::MAX));
    assert!(!Attribute::from_text("-1").eq_unsigned(u64::MAX));
    assert!(Attribute::from_text("true").eq_attribute(&Attribute::Boolean(true)));
}

#[test]
fn attribute_order_and_clear() {
    assert_eq!(Attribute::Integer(10).order(&Attribute::Integer(9)), -1);
    assert_eq!(Attribute::Integer(9).order(&Attribute::Integer(10)), 1);
    assert_eq!(Attribute::from_text("é").order(&Attribute::from_text("z")), 1);
    assert_eq!("é".cmp("z"), std::cmp::Ordering::Greater);
    assert_eq!(Attribute::Boolean(true).order(&Attribute::from_text("1")), 0);
    assert_eq!(Attribute::from_text("b").order(&Attribute::from_text("a")), 1);
    assert_eq!(Attribute::from_text("ab").order(&Attribute::from_text("abc")), -1);
    let mut a = Attribute::from_text("x");
    a.clear();
    assert_eq!(a.to_string(), "");
    let mut b = Attribute::Boolean(true);
    b.clear();
    assert_eq!(b.to_string(), "false");
}

#[test]
fn attribute_map_reads_back_writes() {
    let mut m = AttributeMap::new();
    assert!(!m.has_attribute("class"));
    m.set_attribute("class", Attribute::from_text("a b"));
    m.set_attribute("tab", Attribute::Integer(2));
    assert_eq!(m.get_attribute("class").unwrap().to_string(), "a b");
    m.set_attribute("class", Attribute::from_text("c"));
    assert_eq!(m.get_attribute("class").unwrap().to_string(), "c");
    assert_eq!(m.names().len(), 2);
    m.remove_attribute("class");
    assert!(m.get_attribute("class").is_none());
    assert_eq!(m.values().len(), 1);
}

#[test]
fn toggling_twice_restores_a_missing_attribute() {
    let mut m = AttributeMap::new();
    m.toggle_attribute("hidden", None);
    assert!(m.get_attribute("hidden").unwrap().eq_bool(true));
    m.toggle_attribute("hidden", None);
    assert!(!m.has_attribute("hidden"));
    m.toggle_attribute("hidden", Some(false));
    assert!(!m.has_attribute("hidden"));
    m.set_attribute("flag", Attribute::from_text("0"));
    m.toggle_attribute("flag", None);
    assert_eq!(m.get_attribute("flag").unwrap().to_string(), "true");
}

#[test]
fn attribute_map_from_pairs() {
    let m = AttributeMap::from_pairs(vec![
        ("a".to_string(), Attribute::Integer(1)),
        ("b".to_string(), Attribute::Integer(2)),
        ("a".to_string(), Attribute::Integer(3)),
    ]);
    assert_eq!(m.get_attribute("a").unwrap().to_string(), "3");
    assert_eq!(m.iter().len(), 2);
}

#[test]
fn whitespace_is_what_std_calls_whitespace() {
    for code in 0u32..0x3100 {
        if let Some(c) = char::from_u32(code) {
            assert_eq!(space(c), c.is_whitespace(), "character {:#x}", code);
        }
    }
    for s in ["", " a ", "\u{3000}x\u{85}", "\t\n", "a\u{200b}"] {
        assert_eq!(trim_text(s), s.trim());
        assert_eq!(split_words(s), s.split_whitespace().collect::<Vec<_>>());
        assert_eq!(to_lower(s), s.to_ascii_lowercase());
    }
}
