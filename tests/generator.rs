use lua_ffi::entry::{argument_error_status, dispose, finish_call, marshal_arguments, CallOutcome};
use lua_ffi::error::Error;
use lua_ffi::generator::{c_header, ffi_load, generate, join_strings, wrapper, Argument, Function};
use lua_ffi::lua::{Primitive, Ty, TypePrefix};
use lua_ffi::marshal::{Number, Raw, Value};

fn square() -> Function {
    Function {
        ident: "square".to_string(),
        args: vec![Argument { ident: "value".to_string(), typ: Ty::Primitive(Primitive::Int32) }],
        ret: Ty::Primitive(Primitive::Int32),
    }
}

fn options() -> Function {
    let opt = || Ty::Optional(Box::new(Ty::Primitive(Primitive::Int32)));
    Function {
        ident: "wrap".to_string(),
        args: vec![Argument { ident: "o".to_string(), typ: opt() }],
        ret: Ty::List(Box::new(opt())),
    }
}

#[test]
fn header_of_a_function() {
    let prefix = TypePrefix::new(None).unwrap();
    assert_eq!(
        c_header(&prefix, &square()),
        "int32_t square(\n        int32_t,\n    int32_t*);\nint32_t __gc_square(\n        int32_t);"
    );
}

#[test]
fn wrapper_of_a_function() {
    assert_eq!(
        wrapper(&square()),
        "function M.square(\n    value)\n    local __typeof = __c_mut_function_argument_int32_t\n    local __ret_ptr = __typeof(1, {})\n    local status = rust.square(\n        (function(value) return value end)(value),\n    __ret_ptr\n    )\n    if status ~= 0 then\n        error(\"square failed with status \"..status)\n    end\n    local __ret = __ret_ptr[0]\n    \n    local f = function(value) return value end\n    return f(__ret)\nend\n"
    );
    let w = wrapper(&options());
    assert!(w.contains("ffi.gc(__ret, rust.__gc_wrap)"));
}

#[test]
fn library_loading() {
    assert_eq!(ffi_load("rust_unit", false), "ffi.load('rust_unit')");
    assert!(ffi_load("rust_unit", true).contains("package.searchpath('librust_unit', package.cpath)"));
}

#[test]
fn joining() {
    let parts = vec!["a".to_string(), "b".to_string(), "c".to_string()];
    assert_eq!(join_strings(&parts, ", "), "a, b, c");
    assert_eq!(join_strings(&vec![], ", "), "");
}

#[test]
fn generated_module_declares_types_in_order() {
    let prefix = TypePrefix::new(None).unwrap();
    let text = generate(&prefix, &vec![square(), options()], "rust_unit", false).unwrap();
    assert!(text.starts_with("local ffi = require(\"ffi\")"));
    assert!(text.ends_with("\nreturn M\n"));
    let option_decl = text.find("} Option_int32_t;").unwrap();
    let vec_decl = text.find("} Vec_Option_int32_t;").unwrap();
    assert!(option_decl < vec_decl);
    assert!(text.contains("int32_t __gc_wrap(\n        Vec_Option_int32_t*);"));
    assert!(text.contains("local rust = ffi.load('rust_unit')"));
    assert!(text.contains("function M.square("));
    assert!(text.contains("function M.wrap("));
}

#[test]
fn faulted_call_reports_call_error() {
    let mut out: Option<Box<Raw>> = None;
    assert_eq!(finish_call(CallOutcome::Faulted, &mut out), 2);
    assert!(out.is_none());
}

#[test]
fn malformed_text_argument_reports_marshal_error() {
    let args = vec![Raw::Text(vec![0xff, 0])];
    let e = marshal_arguments(&args).unwrap_err();
    assert_eq!(e, Error::Utf8Error);
    assert_eq!(argument_error_status(e), 1);
}

#[test]
fn returned_value_fills_slot() {
    let mut out: Option<Box<Raw>> = None;
    assert_eq!(finish_call(CallOutcome::Returned(Value::Number(Number::I32(4))), &mut out), 0);
    assert_eq!(out, Some(Box::new(Raw::Number(Number::I32(4)))));
    let mut none: Option<Box<Raw>> = None;
    assert_eq!(finish_call(CallOutcome::Returned(Value::Text("a\0".to_string())), &mut none), 1);
    assert!(none.is_none());
}

#[test]
fn arguments_are_marshalled_in_order() {
    let args = vec![Raw::Text(vec![104, 105, 0]), Raw::Bool(1)];
    assert_eq!(
        marshal_arguments(&args),
        Ok(vec![Value::Text("hi".to_string()), Value::Bool(true)])
    );
}

#[test]
fn disposal_reports_failure() {
    assert_eq!(dispose(Box::new(Raw::Text(vec![104, 0]))), 0);
    assert_eq!(dispose(Box::new(Raw::Text(vec![0xc3, 0]))), 1);
}

#[test]
fn shapes_that_can_be_bound() {
    assert!(square().is_bindable());
    assert!(options().is_bindable());
    let union = || Ty::Union(Box::new(Ty::Primitive(Primitive::Int32)), Box::new(Ty::Text));
    let takes_union = Function {
        ident: "u".to_string(),
        args: vec![Argument { ident: "x".to_string(), typ: union() }],
        ret: Ty::Bool,
    };
    assert!(!takes_union.is_bindable());
    let returns_union = Function { ident: "v".to_string(), args: vec![], ret: union() };
    assert!(returns_union.is_bindable());
    let returns_str = Function { ident: "w".to_string(), args: vec![], ret: Ty::Str };
    assert!(!returns_str.is_bindable());
    assert!(!Ty::List(Box::new(Ty::Optional(Box::new(Ty::Bool)))).is_passable());
    assert!(Ty::Optional(Box::new(Ty::List(Box::new(Ty::Bool)))).is_passable());
    assert!(!Ty::List(Box::new(Ty::Slice(Primitive::Uint8))).is_returnable());
}
