use auto_jni::descriptor::{
    convert_return_type_to_string, get_input_type, get_return_type, java_type_to_rust,
    parse_descriptor_args, parse_descriptor_return, return_type_to_function, serialize_args,
    PrimitiveType, ReturnType, TypeDescriptor,
};

fn int_ty() -> TypeDescriptor {
    TypeDescriptor::Primitive(PrimitiveType::Int)
}

fn object(path: &str) -> TypeDescriptor {
    TypeDescriptor::Object(String::from(path))
}

#[test]
fn test_parse_descriptor() {
    assert_eq!(parse_descriptor_args("(II)I"), vec![int_ty(), int_ty()]);
    assert_eq!(
        parse_descriptor_args("(ILjava/lang/String;[I)V"),
        vec![
            int_ty(),
            object("java/lang/String"),
            TypeDescriptor::Array(Box::new(int_ty())),
        ]
    );
    assert_eq!(parse_descriptor_return("(II)I"), int_ty());
    assert_eq!(
        parse_descriptor_args("(Lcom/example/EnumTest$CountEnum;)I"),
        vec![object("com/example/EnumTest$CountEnum")]
    );
    assert_eq!(
        parse_descriptor_return("(Lcom/example/EnumTest$CountEnum;)I"),
        int_ty()
    );
}

#[test]
fn test_parse_all_primitives() {
    assert_eq!(
        parse_descriptor_args("(JDFBCSZ)V"),
        vec![
            TypeDescriptor::Primitive(PrimitiveType::Long),
            TypeDescriptor::Primitive(PrimitiveType::Double),
            TypeDescriptor::Primitive(PrimitiveType::Float),
            TypeDescriptor::Primitive(PrimitiveType::Byte),
            TypeDescriptor::Primitive(PrimitiveType::Char),
            TypeDescriptor::Primitive(PrimitiveType::Short),
            TypeDescriptor::Primitive(PrimitiveType::Boolean),
        ]
    );
    assert_eq!(
        parse_descriptor_return("(I)V"),
        TypeDescriptor::Primitive(PrimitiveType::Void)
    );
}

#[test]
fn test_parse_array_of_object() {
    assert_eq!(
        parse_descriptor_args("([Ljava/lang/String;)V"),
        vec![TypeDescriptor::Array(Box::new(object("java/lang/String")))]
    );
}

#[test]
fn test_parse_object_return() {
    assert_eq!(
        parse_descriptor_return("(I)Ljava/lang/String;"),
        object("java/lang/String")
    );
    assert_eq!(
        parse_descriptor_return("()[I"),
        TypeDescriptor::Array(Box::new(int_ty()))
    );
}

#[test]
fn test_parse_empty_and_degraded() {
    assert_eq!(parse_descriptor_args("()V"), vec![]);
    // No closing parenthesis at all: the return token is empty and degrades
    // to an object with an empty path.
    assert_eq!(parse_descriptor_return("(II"), object(""));
    // An unrecognized return token degrades to an object keeping the token.
    assert_eq!(parse_descriptor_return("(I)XY"), object("XY"));
}

#[test]
fn test_roundtrip_parse_then_join() {
    // Parsing then re-joining reconstructs the argument section, and
    // re-parsing the joined form yields the same type sequence.
    let args = parse_descriptor_args("(ILjava/lang/String;[I)V");
    let joined = serialize_args(&args);
    assert_eq!(joined, "ILjava/lang/String;[I");
    let again = parse_descriptor_args(&format!("({})V", joined));
    assert_eq!(again, args);

    let args2 = parse_descriptor_args("(Lcom/example/EnumTest$CountEnum;JZ)I");
    assert_eq!(args2.len(), 3);
    let joined2 = serialize_args(&args2);
    let again2 = parse_descriptor_args(&format!("({})I", joined2));
    assert_eq!(again2, args2);
}

#[test]
fn test_java_type_to_rust() {
    assert_eq!(java_type_to_rust(&int_ty()), "i32");
    assert_eq!(
        java_type_to_rust(&TypeDescriptor::Primitive(PrimitiveType::Long)),
        "i64"
    );
    assert_eq!(
        java_type_to_rust(&TypeDescriptor::Primitive(PrimitiveType::Double)),
        "f64"
    );
    assert_eq!(
        java_type_to_rust(&TypeDescriptor::Primitive(PrimitiveType::Float)),
        "f32"
    );
    assert_eq!(
        java_type_to_rust(&TypeDescriptor::Primitive(PrimitiveType::Boolean)),
        "bool"
    );
    assert_eq!(
        java_type_to_rust(&TypeDescriptor::Primitive(PrimitiveType::Byte)),
        "i8"
    );
    assert_eq!(
        java_type_to_rust(&TypeDescriptor::Primitive(PrimitiveType::Char)),
        "u16"
    );
    assert_eq!(
        java_type_to_rust(&TypeDescriptor::Primitive(PrimitiveType::Short)),
        "i16"
    );
    assert_eq!(
        java_type_to_rust(&TypeDescriptor::Primitive(PrimitiveType::Void)),
        "()"
    );
    assert_eq!(java_type_to_rust(&object("java/lang/String")), "&JObject");
    assert_eq!(
        java_type_to_rust(&TypeDescriptor::Array(Box::new(int_ty()))),
        "&JObjectArray"
    );
}

#[test]
fn test_get_input_type() {
    assert_eq!(get_input_type("arg_0", &int_ty()), "JValue::Int(arg_0).as_jni()");
    assert_eq!(
        get_input_type("arg_1", &TypeDescriptor::Primitive(PrimitiveType::Boolean)),
        "JValue::Bool(arg_1 as u8).as_jni()"
    );
    assert_eq!(
        get_input_type("arg_2", &object("java/lang/String")),
        "JValue::Object(arg_2).as_jni()"
    );
    assert_eq!(
        get_input_type("arg_3", &TypeDescriptor::Array(Box::new(int_ty()))),
        "JValue::Object(arg_3).as_jni()"
    );
}

#[test]
fn test_return_type_mapping() {
    assert_eq!(
        get_return_type(&int_ty()),
        ReturnType::Primitive(PrimitiveType::Int)
    );
    assert_eq!(get_return_type(&object("java/lang/String")), ReturnType::Object);
    assert_eq!(
        get_return_type(&TypeDescriptor::Array(Box::new(int_ty()))),
        ReturnType::Object
    );
    assert_eq!(
        convert_return_type_to_string(ReturnType::Primitive(PrimitiveType::Int)),
        "ReturnType::Primitive(Primitive::Int)"
    );
    assert_eq!(
        convert_return_type_to_string(ReturnType::Object),
        "ReturnType::Object"
    );
    assert_eq!(
        return_type_to_function(ReturnType::Primitive(PrimitiveType::Int)),
        "result.i().unwrap()"
    );
    assert_eq!(
        return_type_to_function(ReturnType::Primitive(PrimitiveType::Void)),
        "()"
    );
    assert_eq!(return_type_to_function(ReturnType::Object), "result.l().unwrap()");
}
