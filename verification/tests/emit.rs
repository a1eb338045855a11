use auto_jni::descriptor::{parse_descriptor_args, parse_descriptor_return};
use auto_jni::emit::{bind_class, generate_bindings_source, ClassBinding};
use auto_jni::javap::MethodDescriptor;

fn member(raw_name: &str, signature: &str, is_static: bool, is_constructor: bool) -> MethodDescriptor {
    MethodDescriptor {
        declaring_path: String::from("com/example/EnumTest"),
        raw_name: String::from(raw_name),
        signature: String::from(signature),
        arg_types: parse_descriptor_args(signature),
        return_type: parse_descriptor_return(signature),
        is_static,
        is_constructor,
    }
}

fn class(name: &str, members: Vec<MethodDescriptor>) -> ClassBinding {
    ClassBinding {
        class_name: String::from(name),
        members,
    }
}

fn preamble() -> String {
    let mut s = String::new();
    s.push_str("use auto_jni::jni::objects::{JObject, GlobalRef};\n");
    s.push_str("use auto_jni::errors::JNIError;\n");
    s.push_str("use auto_jni::{call, call_static, create};\n");
    s.push_str("use auto_jni::jni::objects::JValue;\n");
    s.push_str("use auto_jni::jni::signature::{Primitive, ReturnType};\n");
    s.push_str("use auto_jni::jni;\n");
    s.push_str("use auto_jni::once_cell;\n");
    s.push_str("use auto_jni::lazy_static::lazy_static;\n");
    s.push_str("use auto_jni::jni::{InitArgsBuilder, JNIEnv, JNIVersion, JavaVM};\n");
    s.push_str("use auto_jni::jni::objects::JObjectArray;\n");
    s.push_str("\n");
    s.push_str("lazy_static! { static ref JAVA: JavaVM = create_jvm(); }\n");
    s.push_str("\n");
    s.push_str("fn create_jvm() -> JavaVM {\n");
    s.push_str("    let jvm_args = InitArgsBuilder::new()\n");
    s.push_str("        .version(JNIVersion::V8)\n");
    s.push_str("        .build().unwrap();\n");
    s.push_str("    JavaVM::new(jvm_args).unwrap()\n");
    s.push_str("}\n");
    s.push_str("\n");
    s.push_str("pub fn java() -> JNIEnv<'static> {\n");
    s.push_str("    JAVA.attach_current_thread_permanently().unwrap()\n");
    s.push_str("}\n");
    s.push_str("\n");
    s
}

#[test]
fn test_generate_no_classes_exact() {
    let out = generate_bindings_source(&vec![], &None);
    assert_eq!(out, preamble());
}

#[test]
fn test_generate_option_escaping() {
    let opts = Some(vec![
        String::from("-Xmx512m"),
        String::from("-Djava.class.path=C:\\classes"),
    ]);
    let out = generate_bindings_source(&vec![], &opts);
    assert!(out.contains("        .option(\"-Xmx512m\")\n"));
    assert!(out.contains("        .option(\"-Djava.class.path=C:\\\\classes\")\n"));
}

#[test]
fn test_empty_class_still_constructible() {
    // A class with zero parsed members still produces a complete
    // constructible container type, with no wrapper routines in it.
    let out = generate_bindings_source(&vec![class("com.example.Empty", vec![])], &None);
    assert!(out.contains(
        "#[allow(non_snake_case)]\n#[allow(non_camel_case_types)]\npub struct com_example_Empty {\n    inner: GlobalRef,\n}\n"
    ));
    assert!(out.contains(
        "impl<'a> com_example_Empty {\n    pub fn inner(&self) -> GlobalRef {\n        self.inner.clone()\n    }\n}\n"
    ));
    // Exactly the two routines of the container itself, no member wrappers.
    assert_eq!(out.matches("    pub fn ").count(), 1);
}

#[test]
fn test_static_method_text() {
    let out = generate_bindings_source(
        &vec![class("com.example.EnumTest", vec![member("check", "(II)I", true, false)])],
        &None,
    );
    let mut expected = String::new();
    expected.push_str("    #[allow(non_snake_case)]\n");
    expected.push_str("    pub fn check(arg_0: i32, arg_1: i32) -> Result<i32, JNIError> {\n");
    expected.push_str("        let result = call_static!(\n");
    expected.push_str("            \"com/example/EnumTest\",\n");
    expected.push_str("            \"check\",\n");
    expected.push_str("            \"(II)I\",\n");
    expected.push_str("            &[JValue::Int(arg_0).as_jni(), JValue::Int(arg_1).as_jni()],\n");
    expected.push_str("            ReturnType::Primitive(Primitive::Int)\n");
    expected.push_str("        );\n");
    expected.push_str("        Ok(result.i().unwrap())\n");
    expected.push_str("    }\n");
    assert!(out.contains(&expected));
}

#[test]
fn test_instance_void_method_text() {
    let out = generate_bindings_source(
        &vec![class("com.example.EnumTest", vec![member("reset", "()V", false, false)])],
        &None,
    );
    let mut expected = String::new();
    expected.push_str("    #[allow(non_snake_case)]\n");
    expected.push_str("    pub fn reset(instance: &'a GlobalRef, ) -> Result<(), JNIError> {\n");
    expected.push_str("         call!(\n");
    expected.push_str("            instance.as_obj(),\n");
    expected.push_str("            \"com/example/EnumTest\",\n");
    expected.push_str("            \"reset\",\n");
    expected.push_str("            \"()V\",\n");
    expected.push_str("            &[],\n");
    expected.push_str("            ReturnType::Primitive(Primitive::Void)\n");
    expected.push_str("        );\n");
    expected.push_str("        Ok(())\n");
    expected.push_str("    }\n");
    assert!(out.contains(&expected));
}

#[test]
fn test_constructor_text() {
    let out = generate_bindings_source(
        &vec![class("com.example.EnumTest", vec![member("<init>", "(I)V", false, true)])],
        &None,
    );
    let mut expected = String::new();
    expected.push_str("    #[allow(non_snake_case)]\n");
    expected.push_str("    pub fn new(arg_0: i32) -> Result<Self, JNIError> {\n");
    expected.push_str("        Ok(Self {\n");
    expected.push_str(
        "            inner: create!(\"com/example/EnumTest\", \"(I)V\", &[JValue::Int(arg_0).as_jni()])\n",
    );
    expected.push_str("        })\n");
    expected.push_str("    }\n");
    assert!(out.contains(&expected));
}

#[test]
fn test_enum_helper_emitted_once_per_run() {
    // Both classes reference the same nested enum type; one run emits the
    // lookup helper exactly once, in the class that registered it first.
    let sig = "(Lcom/example/EnumTest$CountEnum;)I";
    let classes = vec![
        class("com.example.EnumTest", vec![member("check", sig, true, false)]),
        class("com.example.Other", vec![member("probe", sig, true, false)]),
    ];
    let out = generate_bindings_source(&classes, &None);
    assert_eq!(out.matches("pub fn com_example_EnumTest_CountEnum_from_str").count(), 1);
    assert_eq!(
        out.matches("            \"(Ljava/lang/String;)Lcom/example/EnumTest$CountEnum;\",\n").count(),
        1
    );
}

#[test]
fn test_enum_helper_text() {
    let sig = "(Lcom/example/EnumTest$CountEnum;)I";
    let out = generate_bindings_source(
        &vec![class("com.example.EnumTest", vec![member("check", sig, true, false)])],
        &None,
    );
    let mut expected = String::new();
    expected.push_str("    #[allow(non_snake_case)]\n");
    expected.push_str("    pub fn com_example_EnumTest_CountEnum_from_str(s: &str) -> JObject {\n");
    expected.push_str("        call_static!(\n");
    expected.push_str("            \"com/example/EnumTest$CountEnum\",\n");
    expected.push_str("            \"valueOf\",\n");
    expected.push_str("            \"(Ljava/lang/String;)Lcom/example/EnumTest$CountEnum;\",\n");
    expected.push_str(
        "            &[JValue::Object(&java().new_string(s).unwrap()).as_jni()],\n",
    );
    expected.push_str("            ReturnType::Object\n");
    expected.push_str("        ).l().unwrap()\n");
    expected.push_str("    }\n");
    assert!(out.contains(&expected));
}

#[test]
fn test_generation_is_deterministic() {
    let sig = "(ILjava/lang/String;[I)V";
    let build = || {
        vec![
            class(
                "com.example.EnumTest",
                vec![
                    member("check", "(II)I", true, false),
                    member("check", "(I)I", true, false),
                    member("mix", sig, false, false),
                    member("<init>", "()V", false, true),
                ],
            ),
            class("com.example.Empty", vec![]),
        ]
    };
    let opts = Some(vec![String::from("-Xss1m")]);
    let first = generate_bindings_source(&build(), &opts);
    let second = generate_bindings_source(&build(), &opts);
    assert_eq!(first, second);
}

#[test]
fn test_end_to_end_from_disassembly() {
    let text = "  public static int check(int, int);\n    descriptor: (II)I\n";
    let c = bind_class("com.example.EnumTest", text);
    assert_eq!(c.class_name, "com.example.EnumTest");
    assert_eq!(c.members.len(), 1);
    let out = generate_bindings_source(&vec![c], &None);
    assert!(out.contains("pub struct com_example_EnumTest {"));
    assert!(out.contains("    pub fn check(arg_0: i32, arg_1: i32) -> Result<i32, JNIError> {\n"));
}

#[test]
fn test_classes_emitted_in_request_order() {
    let classes = vec![
        class("com.example.Alpha", vec![]),
        class("com.example.Beta", vec![]),
    ];
    let out = generate_bindings_source(&classes, &None);
    let a = out.find("pub struct com_example_Alpha").unwrap();
    let b = out.find("pub struct com_example_Beta").unwrap();
    assert!(a < b);
}

#[test]
fn test_overloads_in_emitted_text() {
    let classes = vec![class(
        "com.example.EnumTest",
        vec![member("check", "(II)I", true, false), member("check", "(I)I", true, false)],
    )];
    let out = generate_bindings_source(&classes, &None);
    assert!(out.contains("    pub fn check(arg_0: i32, arg_1: i32)"));
    assert!(out.contains("    pub fn check_2(arg_0: i32)"));
    // The bridge call is keyed by the raw name in both wrappers.
    assert_eq!(out.matches("            \"check\",\n").count(), 2);
}
