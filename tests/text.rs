use memo_desk::text::{chars_of, like, text_less};

fn chars(s: &str) -> Vec<char> {
    s.chars().collect()
}

#[test]
fn text_order_is_by_code_point() {
    assert!(text_less("2024-01-01", "2024-01-02"));
    assert!(!text_less("b", "a"));
    assert!(text_less("ab", "abc"));
    assert!(!text_less("abc", "abc"));
    assert!(text_less("Z", "a"));
}

#[test]
fn chars_of_splits_characters() {
    assert_eq!(chars_of("aé日"), vec!['a', 'é', '日']);
}

#[test]
fn like_patterns() {
    assert!(like(&chars("%b%"), &chars("abc")));
    assert!(like(&chars("a_c"), &chars("ABC")));
    assert!(!like(&chars("a_c"), &chars("ac")));
    assert!(like(&chars(""), &chars("")));
    assert!(!like(&chars(""), &chars("x")));
    assert!(like(&chars("%%"), &chars("")));
    assert!(!like(&chars("abc"), &chars("abcd")));
}
