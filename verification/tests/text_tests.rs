use kclvm_sema::kinds::{chars_of, contains_text, text_eq};

#[test]
fn text_helpers() {
    assert_eq!(chars_of("héllo"), vec!['h', 'é', 'l', 'l', 'o']);
    assert!(contains_text("str(int)", "int"));
    assert!(contains_text("abc", ""));
    assert!(!contains_text("ab", "abc"));
    assert!(!contains_text("integer", "ints"));
    assert!(contains_text("float", "float"));
    assert!(text_eq("a.b", "a.b"));
    assert!(!text_eq("a.b", "a.c"));
}
