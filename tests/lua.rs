use lua_ffi::lua::{
    immediate_type_create_array, is_valid_type_prefix, make_dependencies, prefixed,
    primitive_type_create_array, primitive_type_create_pointer, ptr_type_create_array,
    ptr_type_create_pointer, Field, InvalidTypePrefix, Primitive, Record, Ty, TypeNameClash,
    TypePrefix,
};

fn int32() -> Ty {
    Ty::Primitive(Primitive::Int32)
}

fn no_prefix() -> TypePrefix {
    TypePrefix::new(None).unwrap()
}

fn abc() -> TypePrefix {
    TypePrefix::new(Some("abc")).unwrap()
}

fn record_a() -> Ty {
    Ty::Record(Record {
        name: "A".to_string(),
        fields: vec![
            Field { name: "string".to_string(), typ: Ty::Text },
            Field { name: "integer".to_string(), typ: int32() },
        ],
    })
}

#[test]
fn test_is_valid_type_prefix() {
    assert!(is_valid_type_prefix(""));
    assert!(is_valid_type_prefix("__abc__"));
    assert!(is_valid_type_prefix("__abc_3_"));
    assert!(is_valid_type_prefix("F__abc_3_"));
    assert!(is_valid_type_prefix("F"));
    assert!(!is_valid_type_prefix("4F__abc_3_"));
    assert!(!is_valid_type_prefix("F_-abc_3_"));
}

#[test]
fn prefix_configuration() {
    assert_eq!(no_prefix().text, "");
    assert_eq!(abc().text, "abc__");
    assert_eq!(TypePrefix::new(Some("")).unwrap().text, "__");
    assert!(matches!(TypePrefix::new(Some("4a")), Err(InvalidTypePrefix {})));
    assert!(matches!(TypePrefix::new(Some("a-b")), Err(InvalidTypePrefix {})));
    assert!(!is_valid_type_prefix("\u{e9}t\u{e9}"));
    assert_eq!(prefixed(&abc(), "Vec_x"), "abc__Vec_x");
    assert_eq!(prefixed(&no_prefix(), "Vec_x"), "Vec_x");
}

#[test]
fn type_names() {
    assert_eq!(Ty::Optional(Box::new(int32())).typename(), "Option_int32_t");
    assert_eq!(
        Ty::Union(Box::new(int32()), Box::new(Ty::Text)).typename(),
        "Result_int32_t___string_ptr"
    );
    assert_eq!(Ty::Slice(Primitive::Uint16).typename(), "Slice_uint16_t");
    assert_eq!(Ty::Str.typename(), "_str_ptr__");
    assert_eq!(Ty::Bool.c_typename(), "int8_t");
    assert_eq!(Ty::Text.c_typename(), "char *");
    assert_eq!(record_a().typename(), "A");
    assert_eq!(Ty::Primitive(Primitive::Double).typename(), "double");
}

#[test]
fn argument_types() {
    assert_eq!(Ty::Text.c_function_argument(&abc()), "const char *");
    assert_eq!(Ty::Text.c_mut_function_argument(&abc()), "char *");
    assert_eq!(Ty::Str.c_mut_function_argument(&abc()), "const char *");
    assert_eq!(int32().c_function_argument(&abc()), "int32_t");
    let list = Ty::List(Box::new(Ty::Text));
    assert_eq!(list.c_function_argument(&abc()), "const abc__Vec___string_ptr*");
    assert_eq!(list.c_mut_function_argument(&abc()), "abc__Vec___string_ptr*");
    assert_eq!(list.prefixed_typename(&abc()), "abc__Vec___string_ptr");
    assert_eq!(int32().prefixed_typename(&abc()), "int32_t");
}

#[test]
fn type_declarations() {
    assert_eq!(
        Ty::Optional(Box::new(int32())).typedeclaration(&abc()),
        "typedef struct {\n    const int32_t *ptr;\n} abc__Option_int32_t;"
    );
    assert_eq!(
        Ty::List(Box::new(Ty::Optional(Box::new(int32())))).typedeclaration(&no_prefix()),
        "typedef struct {\n    const Option_int32_t *ptr;\n    size_t len;\n    size_t capacity;\n} Vec_Option_int32_t;"
    );
    assert_eq!(
        Ty::Slice(Primitive::Uint16).typedeclaration(&no_prefix()),
        "typedef struct {\n    const uint16_t *ptr;\n    size_t len;\n} Slice_uint16_t;"
    );
    assert_eq!(
        Ty::Union(Box::new(int32()), Box::new(Ty::Text)).typedeclaration(&no_prefix()),
        "typedef struct {\n    const int32_t *ok;\n    const char * *err;\n} Result_int32_t___string_ptr;"
    );
    assert_eq!(
        record_a().typedeclaration(&no_prefix()),
        "typedef struct {\n    const char * string;\n    const int32_t integer;\n} A;"
    );
    assert_eq!(Ty::Text.typedeclaration(&abc()), "");
}

#[test]
fn metatypes() {
    assert_eq!(
        int32().metatype(&abc()),
        "\nlocal __const_c_typename_int32_t = ffi.typeof(\"const int32_t[?]\")\nlocal __c_function_argument_int32_t = ffi.typeof(\"int32_t[?]\")\nlocal __c_mut_function_argument_int32_t = ffi.typeof(\"int32_t[?]\")\n"
    );
    assert_eq!(
        Ty::Optional(Box::new(int32())).metatype(&abc()),
        "\nlocal __typename_Option_int32_t = ffi.metatype(\"abc__Option_int32_t\", {})\nlocal __const_c_typename_Option_int32_t = ffi.typeof(\"const abc__Option_int32_t[?]\")\nlocal __c_function_argument_Option_int32_t = ffi.typeof(\"const abc__Option_int32_t*[?]\")\nlocal __c_mut_function_argument_Option_int32_t = ffi.typeof(\"abc__Option_int32_t*[?]\")\n"
    );
}

#[test]
fn conversion_functions() {
    assert_eq!(
        Ty::Optional(Box::new(Ty::Bool)).from_function(),
        "function(value)\n    if value.ptr ~= nil then\n        local f = function(value) return value ~= 0 end\n        return f(value.ptr[0])\n    else\n        return nil\n    end\nend"
    );
    assert_eq!(
        record_a().from_function(),
        "function(value)\n    return {\n        string = (ffi.string)(value.string), integer = (function(value) return value end)(value.integer)\n    }\nend"
    );
    assert_eq!(
        record_a().into_function(),
        "function(value)\n    return __typename_A(\n        (function(value) return value end)(value.string),\n        (function(value) return value end)(value.integer)\n    )\nend"
    );
    assert_eq!(
        int32().create_pointer(),
        "function(value)\n    return __const_c_typename_int32_t(1, { value })\nend"
    );
    assert_eq!(
        Ty::Text.create_array(),
        "function(value)\n    return __const_c_typename___string_ptr(#value, value)\nend"
    );
    assert_eq!(Ty::Bool.into_function(), "function(value) return value and 1 or 0 end");
    assert!(!int32().gc());
    assert!(Ty::Text.gc());
}

#[test]
fn dependencies_of_a_record() {
    let opt = || Ty::Optional(Box::new(int32()));
    let r = Ty::Record(Record {
        name: "R".to_string(),
        fields: vec![
            Field { name: "a".to_string(), typ: opt() },
            Field { name: "b".to_string(), typ: Ty::List(Box::new(opt())) },
        ],
    });
    let arena = make_dependencies(&no_prefix(), &r).unwrap();
    let names: Vec<&str> = arena.iter().map(|d| d.typename.as_str()).collect();
    assert_eq!(names, vec!["int32_t", "Option_int32_t", "Vec_Option_int32_t", "R"]);
    for (i, d) in arena.iter().enumerate() {
        assert_eq!(d.typeid, i);
    }
    assert_eq!(arena[0].dependencies, Vec::<usize>::new());
    assert_eq!(arena[1].dependencies, vec![0]);
    assert_eq!(arena[2].dependencies, vec![1]);
    assert_eq!(arena[3].dependencies, vec![1, 2]);
    assert_eq!(arena[1].typedeclaration, "typedef struct {\n    const int32_t *ptr;\n} Option_int32_t;");
}

#[test]
fn sequence_and_slice_conversions() {
    let list = Ty::List(Box::new(int32()));
    assert_eq!(
        list.into_function(),
        "\nfunction(value)\n    if type(value) == \"string\" then\n        return __typename_Vec_int32_t(value, #value)\n    else\n        local f = function(value)\n    return __const_c_typename_int32_t(#value, value)\nend\n        return __typename_Vec_int32_t(f(value), #value, 0)\n    end\nend\n"
    );
    assert_eq!(
        Ty::Slice(Primitive::Int16).into_function(),
        "function(value)\n    local result = {}\n    for i, value in pairs(value) do\n        result[i] = value\n    end\n    return __typename_Slice_int16_t(__c_function_argument_int16_t(#result, result), #result)\nend"
    );
    assert!(Ty::Slice(Primitive::Uint8).into_function().contains("if type(value) == \"string\" then"));
    assert_eq!(
        Ty::List(Box::new(Ty::Bool)).from_function(),
        "function(value)\n    local ret = {}\n    local len = tonumber(value.len)\n    local f = function(value) return value ~= 0 end\n    for i = 1,len do\n        ret[i] = f(value.ptr[i - 1])\n    end\n    return ret\nend"
    );
    assert_eq!(
        Ty::Union(Box::new(int32()), Box::new(Ty::Text)).from_function(),
        "function(value)\n    if value.ok ~= nil then\n        local f = function(value) return value end\n        return f(value.ok[0])\n    else\n        local f = ffi.string\n        return nil, f(value.err[0])\n    end\nend"
    );
    assert_eq!(primitive_type_create_pointer(&int32()), int32().create_pointer());
    assert_eq!(primitive_type_create_array(&Ty::Text), Ty::Text.create_array());
    assert_eq!(ptr_type_create_pointer(&list), list.into_function());
    let slice = Ty::Slice(Primitive::Int16);
    assert!(ptr_type_create_array(&slice).contains("local tmp = f(value)"));
    assert!(immediate_type_create_array(&list).contains("result[i] = f(value)"));
    assert!(immediate_type_create_array(&list).ends_with("return __const_c_typename_Vec_int32_t(#result, result)\nend"));
    assert_eq!(
        Ty::Optional(Box::new(int32())).into_function(),
        "\nfunction(value)\n    local f = function(value)\n    return __const_c_typename_int32_t(1, { value })\nend\n    if value ~= nil then\n        return __typename_Option_int32_t(f(value))\n    else\n        return __typename_Option_int32_t(nil)\n    end\nend\n"
    );
}

#[test]
fn dependencies_of_a_number() {
    let arena = make_dependencies(&no_prefix(), &int32()).unwrap();
    assert_eq!(arena.len(), 1);
    assert_eq!(arena[0].typename, "int32_t");
    assert!(arena[0].dependencies.is_empty());
}

#[test]
fn two_types_with_one_name_clash() {
    let other_a = Ty::Record(Record {
        name: "A".to_string(),
        fields: vec![Field { name: "flag".to_string(), typ: Ty::Bool }],
    });
    let pair = Ty::Union(Box::new(record_a()), Box::new(other_a));
    match make_dependencies(&no_prefix(), &pair) {
        Err(e) => assert_eq!(e, TypeNameClash { name: "A".to_string() }),
        Ok(_) => panic!("the two records named A were not told apart"),
    }
    let same = Ty::Union(Box::new(record_a()), Box::new(record_a()));
    let arena = make_dependencies(&no_prefix(), &same).unwrap();
    let names: Vec<&str> = arena.iter().map(|d| d.typename.as_str()).collect();
    assert_eq!(names, vec!["__string_ptr", "int32_t", "A", "Result_A_A"]);
    assert_eq!(arena[3].dependencies, vec![2, 2]);
}
