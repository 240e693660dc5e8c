use scheduler::text::{split_char, starts_with, str_eq, strip_trailing_newline};

#[test]
fn split_char_matches_str_split() {
    for s in ["", "a", "a,b", ",", "a,,b,", "0,1,2,3,4", "é,ü,,ß"] {
        let expected: Vec<&str> = s.split(',').collect();
        assert_eq!(split_char(s, ','), expected);
    }
    assert_eq!(split_char("x|y|z", '|'), vec!["x", "y", "z"]);
}

#[test]
fn split_then_join_gives_back_the_text() {
    let s = "status|10.0.0.1:4242||end";
    assert_eq!(split_char(s, '|').join("|"), s);
}

#[test]
fn str_eq_compares_characters() {
    assert!(str_eq("abc", "abc"));
    assert!(!str_eq("abc", "abd"));
    assert!(!str_eq("abc", "ab"));
    assert!(str_eq("", ""));
}

#[test]
fn starts_with_prefixes() {
    assert!(starts_with("resnet18-a", "resnet18"));
    assert!(starts_with("x", ""));
    assert!(!starts_with("res", "resnet18"));
    assert!(!starts_with("mobile", "resnet"));
}

#[test]
fn strip_trailing_newline_removes_one() {
    assert_eq!(strip_trailing_newline("abc\n"), "abc");
    assert_eq!(strip_trailing_newline("abc\n\n"), "abc\n");
    assert_eq!(strip_trailing_newline("abc"), "abc");
    assert_eq!(strip_trailing_newline("\n"), "");
    assert_eq!(strip_trailing_newline(""), "");
}
