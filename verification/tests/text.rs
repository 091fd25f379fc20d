use server_game::text::{parse_u64, replace_all, str_less, trim, u64_to_decimal};

#[test]
fn decimals_print_and_parse_back() {
    for n in [0u64, 7, 10, 99, 12345, u64::MAX] {
        assert_eq!(u64_to_decimal(n), n.to_string());
        assert_eq!(parse_u64(&u64_to_decimal(n)), Some(n));
    }
}

#[test]
fn parsing_follows_the_standard_rules() {
    assert_eq!(parse_u64("+42"), Some(42));
    assert_eq!(parse_u64("007"), Some(7));
    assert_eq!(parse_u64(""), None);
    assert_eq!(parse_u64("+"), None);
    assert_eq!(parse_u64("-1"), None);
    assert_eq!(parse_u64(" 1"), None);
    assert_eq!(parse_u64("18446744073709551616"), None);
    assert_eq!(parse_u64("18446744073709551615"), Some(u64::MAX));
}

#[test]
fn trimming_and_replacing() {
    assert_eq!(trim("  gg \n"), "gg");
    assert_eq!(trim("\u{3000}x\u{a0}"), "x");
    assert_eq!(trim("   "), "");
    assert_eq!(replace_all("aaa", "aa", "b"), "ba");
    assert_eq!(replace_all("{{a}}{{a}}", "{{a}}", "x"), "xx");
    assert_eq!(replace_all("abc", "z", "y"), "abc");
}

#[test]
fn strings_order_as_str_does() {
    for (a, b) in [("1", "2"), ("10", "9"), ("", "a"), ("ab", "abc"), ("b", "ab"), ("é", "z"), ("same", "same")] {
        assert_eq!(str_less(a, b), a < b, "{a:?} < {b:?}");
    }
}
