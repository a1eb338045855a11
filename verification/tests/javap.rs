use auto_jni::descriptor::{PrimitiveType, TypeDescriptor};
use auto_jni::javap::{parse_declaration_line, parse_descriptor_line, parse_javap_text};

const ENUM_TEST_DISASSEMBLY: &str = "\
Compiled from \"EnumTest.java\"
public class com.example.EnumTest {
  public com.example.EnumTest();
    descriptor: ()V

  public static int check(int, int);
    descriptor: (II)I
}
";

#[test]
fn test_parse_javap() {
    let class_name = "com.example.EnumTest";
    let bindings = parse_javap_text(class_name, ENUM_TEST_DISASSEMBLY);

    assert!(!bindings.is_empty(), "No bindings were parsed");

    let add_method = bindings
        .iter()
        .find(|b| b.raw_name == "check")
        .expect("Could not find check method");

    assert_eq!(add_method.declaring_path, "com/example/EnumTest");
    assert_eq!(add_method.raw_name, "check");
    assert_eq!(add_method.signature, "(II)I");
    assert_eq!(
        add_method.arg_types,
        vec![
            TypeDescriptor::Primitive(PrimitiveType::Int),
            TypeDescriptor::Primitive(PrimitiveType::Int),
        ]
    );
    assert_eq!(
        add_method.return_type,
        TypeDescriptor::Primitive(PrimitiveType::Int)
    );
    assert!(add_method.is_static);
    assert!(!add_method.is_constructor);
}

#[test]
fn test_declaration_line_shapes() {
    assert_eq!(
        parse_declaration_line("  public static int check(int, int);"),
        Some((true, String::from("check")))
    );
    assert_eq!(
        parse_declaration_line("  private native static long nativeId();"),
        Some((true, String::from("nativeId")))
    );
    // A bare `native` modifier does not make the member static.
    assert_eq!(
        parse_declaration_line("  native void poke();"),
        Some((false, String::from("poke")))
    );
    assert_eq!(
        parse_declaration_line("  protected java.lang.String name() throws java.io.IOException;"),
        Some((false, String::from("name")))
    );
    assert_eq!(
        parse_declaration_line("  static int lambda$takeSnapshot$1(int);"),
        Some((true, String::from("lambda$takeSnapshot$1")))
    );
    // A constructor line carries no return-type token, so it is not captured.
    assert_eq!(parse_declaration_line("  public com.example.EnumTest();"), None);
    // A class header has no parenthesized argument list.
    assert_eq!(parse_declaration_line("public class com.example.EnumTest {"), None);
    assert_eq!(parse_declaration_line(""), None);
    assert_eq!(parse_declaration_line("    descriptor: (II)I"), None);
}

#[test]
fn test_descriptor_line_shapes() {
    assert_eq!(
        parse_descriptor_line("    descriptor: (II)I"),
        Some(String::from("(II)I"))
    );
    assert_eq!(
        parse_descriptor_line("descriptor: ()V"),
        Some(String::from("()V"))
    );
    assert_eq!(parse_descriptor_line("descriptor:"), None);
    assert_eq!(parse_descriptor_line("  public static int check(int, int);"), None);
}

#[test]
fn test_declaration_without_descriptor_is_dropped() {
    // The first declaration never meets a descriptor line before the next
    // declaration begins, so only the second member is emitted.
    let text = "\
  public static int orphan(int);
  public static int check(int, int);
    descriptor: (II)I
";
    let bindings = parse_javap_text("com.example.EnumTest", text);
    assert_eq!(bindings.len(), 1);
    assert_eq!(bindings[0].raw_name, "check");
    assert_eq!(bindings[0].signature, "(II)I");
}

#[test]
fn test_blank_and_noise_lines_are_skipped() {
    let text = "\
  public static int check(int, int);

    flags: (0x0009) ACC_PUBLIC, ACC_STATIC
    descriptor: (II)I
";
    let bindings = parse_javap_text("com.example.EnumTest", text);
    assert_eq!(bindings.len(), 1);
    assert_eq!(bindings[0].signature, "(II)I");
}

#[test]
fn test_members_keep_disassembly_order() {
    let text = "\
  public static int first();
    descriptor: ()I
  public int second(int);
    descriptor: (I)I
";
    let bindings = parse_javap_text("com.example.Pair", text);
    assert_eq!(bindings.len(), 2);
    assert_eq!(bindings[0].raw_name, "first");
    assert!(bindings[0].is_static);
    assert_eq!(bindings[1].raw_name, "second");
    assert!(!bindings[1].is_static);
    assert_eq!(bindings[1].declaring_path, "com/example/Pair");
}
