use auto_jni::descriptor::{parse_descriptor_args, parse_descriptor_return};
use auto_jni::javap::MethodDescriptor;
use auto_jni::resolver::{resolve_names, strip_synthetic};

fn member(raw_name: &str, signature: &str, is_static: bool, is_constructor: bool) -> MethodDescriptor {
    MethodDescriptor {
        declaring_path: String::from("com/example/EnumTest"),
        raw_name: String::from(raw_name),
        signature: String::from(signature),
        arg_types: parse_descriptor_args(signature),
        return_type: parse_descriptor_return(signature),
        is_static,
        is_constructor,
    }
}

#[test]
fn test_strip_synthetic() {
    assert_eq!(strip_synthetic("lambda$takeSnapshot$1"), "takeSnapshot");
    assert_eq!(strip_synthetic("plain"), "plain");
    assert_eq!(strip_synthetic("a$b"), "b");
    assert_eq!(strip_synthetic("$leading"), "leading");
}

#[test]
fn test_overload_numbering() {
    // Two members with the same base name and different signatures: the
    // first keeps its bare name, the second gets its 1-based duplicate
    // index, starting at _2.
    let descs = vec![
        member("check", "(II)I", true, false),
        member("check", "(I)I", true, false),
        member("check", "()I", true, false),
    ];
    let names = resolve_names(&descs);
    assert_eq!(names, vec!["check", "check_2", "check_3"]);
}

#[test]
fn test_distinct_names_unchanged() {
    let descs = vec![
        member("alpha", "()V", false, false),
        member("beta", "()V", false, false),
    ];
    let names = resolve_names(&descs);
    assert_eq!(names, vec!["alpha", "beta"]);
}

#[test]
fn test_synthetic_names_join_their_base() {
    // The stripped working name collides with the plain member of the same
    // name, so the synthetic member is numbered as its duplicate.
    let descs = vec![
        member("takeSnapshot", "()V", false, false),
        member("lambda$takeSnapshot$1", "(I)V", true, false),
    ];
    let names = resolve_names(&descs);
    assert_eq!(names, vec!["takeSnapshot", "takeSnapshot_2"]);
}

#[test]
fn test_constructors_share_the_reserved_name() {
    let descs = vec![
        member("<init>", "()V", false, true),
        member("<init>", "(I)V", false, true),
    ];
    let names = resolve_names(&descs);
    assert_eq!(names, vec!["new", "new_2"]);
}
