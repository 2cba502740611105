use leansticky_core::text::{compare_strs, concat_strs, is_blank, trim_to_string, Order};

#[test]
fn strings_compare_like_rust_strings() {
    let cases = [
        ("", ""),
        ("", "a"),
        ("a", "b"),
        ("abc", "abd"),
        ("ab", "abc"),
        ("Z", "a"),
        ("é", "z"),
        ("2026-03-15T00:00:01Z", "2026-03-15T00:00:02Z"),
        ("日本", "日本語"),
    ];
    for (a, b) in cases {
        let expected = match a.cmp(b) {
            std::cmp::Ordering::Less => Order::Less,
            std::cmp::Ordering::Equal => Order::Equal,
            std::cmp::Ordering::Greater => Order::Greater,
        };
        assert_eq!(compare_strs(a, b), expected, "{a:?} vs {b:?}");
        let reverse = match b.cmp(a) {
            std::cmp::Ordering::Less => Order::Less,
            std::cmp::Ordering::Equal => Order::Equal,
            std::cmp::Ordering::Greater => Order::Greater,
        };
        assert_eq!(compare_strs(b, a), reverse);
    }
}

#[test]
fn blank_means_trimmed_to_nothing() {
    for s in ["", " ", "\t\n", "\u{3000}", "\u{2028} \u{85}"] {
        assert!(is_blank(s), "{s:?}");
        assert_eq!(s.trim(), "");
    }
    for s in ["a", " a ", "\u{200B}"] {
        assert!(!is_blank(s), "{s:?}");
        assert_ne!(s.trim(), "");
    }
}

#[test]
fn trim_matches_str_trim() {
    for s in ["", "  title  ", "\tInbox\n", "no-space", " \u{3000}全角\u{3000} ", "   "] {
        assert_eq!(trim_to_string(s), s.trim());
    }
}

#[test]
fn concat_joins_in_order() {
    assert_eq!(concat_strs("note", ".yml"), "note.yml");
    assert_eq!(concat_strs("", ""), "");
}
