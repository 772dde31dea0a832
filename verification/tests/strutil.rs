use rumbaa::strutil::{parse_i32, push_i32_decimal, replace_str, split_at_char, split_first_str, split_second_str, contains_str, starts_with_str};

#[test]
fn parse_i32_follows_std() {
    for s in ["0", "42", "-17", "+8", "007", "2147483647", "-2147483648", "2147483648", "-2147483649", "", "-", "+", "1a", " 1", "1_0", "99999999999999999999"] {
        assert_eq!(parse_i32(s), s.parse::<i32>().ok(), "input {:?}", s);
    }
}

#[test]
fn decimal_roundtrip() {
    for n in [0, 5, 10, 99, -1, -100, i32::MAX, i32::MIN, 123456] {
        let mut s = String::new();
        push_i32_decimal(&mut s, n);
        assert_eq!(s, n.to_string());
        assert_eq!(parse_i32(&s), Some(n));
    }
}

#[test]
fn replace_follows_std() {
    for (s, p, r) in [("aaa", "aa", "b"), ("{{1}{2}}", "{{", "{"), ("x y\tz", " ", ""), ("", "a", "b"), ("abab", "ab", "")] {
        assert_eq!(replace_str(s, p, r), s.replace(p, r));
    }
}

#[test]
fn split_follows_std() {
    for s in ["a b c", " a", "", "a  b", "trailing "] {
        let ours = split_at_char(s, ' ');
        let theirs: Vec<String> = s.split(' ').map(|x| x.to_string()).collect();
        assert_eq!(ours, theirs);
    }
    assert_eq!(split_first_str("ab--cd--ef", "--"), "ab");
    assert_eq!(split_second_str("ab--cd--ef", "--"), "cd");
    assert_eq!(split_second_str("ab--cd", "--"), "cd");
    assert!(contains_str("hello", "ll"));
    assert!(!contains_str("hello", "lll"));
    assert!(starts_with_str("\\newlabel{x}", "\\newlabel"));
}
