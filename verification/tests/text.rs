use auto_jni::text::{contains_char, decimal_string, find_char, replace_char, split_lines};

#[test]
fn test_decimal_string() {
    assert_eq!(decimal_string(0), "0");
    assert_eq!(decimal_string(7), "7");
    assert_eq!(decimal_string(10), "10");
    assert_eq!(decimal_string(203), "203");
    assert_eq!(decimal_string(18446744073709551615), "18446744073709551615");
}

#[test]
fn test_replace_char() {
    assert_eq!(replace_char("com.example.EnumTest", '.', "/"), "com/example/EnumTest");
    assert_eq!(replace_char("com.example.EnumTest", '.', "_"), "com_example_EnumTest");
    assert_eq!(replace_char("a\\b", '\\', "\\\\"), "a\\\\b");
    assert_eq!(replace_char("", '.', "_"), "");
    assert_eq!(replace_char("...", '.', ""), "");
}

#[test]
fn test_find_and_contains() {
    assert_eq!(find_char("abcabc", 0, 'b'), 1);
    assert_eq!(find_char("abcabc", 2, 'b'), 4);
    assert_eq!(find_char("abcabc", 0, 'z'), 6);
    assert!(contains_char("a$b", '$'));
    assert!(!contains_char("ab", '$'));
}

#[test]
fn test_split_lines() {
    assert_eq!(split_lines(""), Vec::<String>::new());
    assert_eq!(split_lines("one"), vec!["one"]);
    assert_eq!(split_lines("one\ntwo\n"), vec!["one", "two"]);
    assert_eq!(split_lines("one\r\ntwo"), vec!["one", "two"]);
    assert_eq!(split_lines("a\n\nb"), vec!["a", "", "b"]);
}
