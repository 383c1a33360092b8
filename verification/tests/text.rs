use kuebiko::fields::Fields;
use kuebiko::text::{
    chars_of, decimal_text, ends_with, join2, join3, parse_unsigned, same, same_bytes, text_of,
};

#[test]
fn decimal_digits_read_back() {
    for n in [0, 7, 10, 99, 100, u64::MAX] {
        assert_eq!(decimal_text(n), n.to_string());
        assert_eq!(parse_unsigned(&decimal_text(n), u64::MAX), Some(n));
    }
}

#[test]
fn numbers_are_read_up_to_a_limit() {
    assert_eq!(parse_unsigned("+12", 12), Some(12));
    assert_eq!(parse_unsigned("13", 12), None);
    assert_eq!(parse_unsigned("0012", 12), Some(12));
    for text in ["", "+", "-1", "1 ", "x", "++1"] {
        assert_eq!(parse_unsigned(text, u64::MAX), None, "{text}");
    }
    assert_eq!(parse_unsigned("18446744073709551616", u64::MAX), None);
}

#[test]
fn texts_are_compared_and_joined() {
    assert!(same("aé", "aé"));
    assert!(!same("a", "b"));
    assert!(!same("a", "ab"));
    assert!(same_bytes(b"ab", b"ab"));
    assert!(!same_bytes(b"ab", b"ac"));
    assert_eq!(join2("a", "é"), "aé");
    assert_eq!(join3("a", "b", "c"), "abc");
    assert_eq!(text_of(&chars_of("aé😀")), "aé😀");
}

#[test]
fn texts_end_with_their_ends() {
    for end in ["", "é", "aé", "xaé"] {
        assert!(ends_with("xaé", end), "{end}");
    }
    for end in ["a", "x", "yxaé"] {
        assert!(!ends_with("xaé", end), "{end}");
    }
}

#[test]
fn fields_are_kept_in_order() {
    let fields = Fields::new()
        .insert("b".to_string(), 1)
        .insert("a".to_string(), 2)
        .insert("é".to_string(), 3)
        .insert("b".to_string(), 4);
    assert_eq!(fields.len(), 3);
    assert_eq!((fields.name(0).as_str(), *fields.value(0)), ("a", 2));
    assert_eq!((fields.name(1).as_str(), *fields.value(1)), ("b", 4));
    assert_eq!((fields.name(2).as_str(), *fields.value(2)), ("é", 3));
    assert_eq!(fields.get("c"), None);
    let (fields, removed) = fields.remove("b");
    assert_eq!(removed, Some(4));
    assert_eq!(fields.get("b"), None);
    let (fields, removed) = fields.remove("b");
    assert_eq!((fields.len(), removed), (2, None));
}
