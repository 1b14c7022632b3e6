use planetoid::asteroid::{entity_key, is_made_by};
use planetoid::text::{
    append_decimal, chars_of, digit_str, key_order, matches_at, same_text, strip_prefix, KeyOrder,
};

#[test]
fn chars_of_keeps_every_character() {
    assert_eq!(chars_of("aé_0"), vec!['a', 'é', '_', '0']);
    assert!(chars_of("").is_empty());
}

#[test]
fn key_order_is_the_order_of_strings() {
    let samples = ["", "a", "ab", "b", "a_000010", "a_000002", "é", "z", "Z", "日本"];
    for a in samples {
        for b in samples {
            let expected = match a.cmp(b) {
                std::cmp::Ordering::Less => KeyOrder::Less,
                std::cmp::Ordering::Equal => KeyOrder::Equal,
                std::cmp::Ordering::Greater => KeyOrder::Greater,
            };
            assert_eq!(key_order(a, &chars_of(b)), expected);
            assert_eq!(same_text(a, b), a == b);
        }
    }
}

#[test]
fn strip_prefix_hands_out_the_rest() {
    assert_eq!(strip_prefix("Hello from Bob", "Hello from "), Some("Bob".to_string()));
    assert_eq!(strip_prefix("Hello from ", "Hello from "), Some(String::new()));
    assert_eq!(strip_prefix("hello from Bob", "Hello from "), None);
    assert_eq!(strip_prefix("He", "Hello from "), None);
    assert_eq!(strip_prefix("éa", "é"), Some("a".to_string()));
    assert!(matches_at(&chars_of("abcabc"), &chars_of("bc"), 4));
    assert!(!matches_at(&chars_of("abcabc"), &chars_of("bc"), 5));
    assert!(!matches_at(&chars_of("abcabc"), &chars_of("bc"), 7));
}

#[test]
fn decimal_numerals_have_no_padding() {
    for (n, text) in [(0u16, "0"), (7, "7"), (10, "10"), (8080, "8080"), (65535, "65535")] {
        let mut out = String::from("p");
        append_decimal(&mut out, n);
        assert_eq!(out, format!("p{}", text));
    }
    assert_eq!(digit_str(0), "0");
    assert_eq!(digit_str(9), "9");
}

#[test]
fn entity_keys_have_six_digits() {
    assert_eq!(entity_key("planetoid", 0), "planetoid_000000");
    assert_eq!(entity_key("f1", 7), "f1_000007");
    assert_eq!(entity_key("f1", 42), "f1_000042");
    assert_eq!(entity_key("", 255), "_000255");
    for index in 0..=255u8 {
        assert_eq!(entity_key("a_b", index), format!("{}_{:06}", "a_b", index));
    }
}

#[test]
fn own_keys_are_told_by_their_form() {
    for index in [0u8, 9, 10, 255] {
        assert!(is_made_by("f1", &entity_key("f1", index)));
        assert!(is_made_by("", &entity_key("", index)));
        assert!(is_made_by("a_b", &entity_key("a_b", index)));
        assert!(!is_made_by("f2", &entity_key("f1", index)));
        assert!(!is_made_by("f", &entity_key("f1", index)));
    }
    assert!(is_made_by("f1", "f1_999999"));
    assert!(!is_made_by("f1", "f1_0000001"));
    assert!(!is_made_by("f1", "f1_00000"));
    assert!(!is_made_by("f1", "f1-000001"));
    assert!(!is_made_by("f1", "f1_00000x"));
    assert!(!is_made_by("f1", "f1_00000٣"));
    assert!(!is_made_by("f1", ""));
    assert!(!is_made_by("long name", "short"));
}
