use lua_ffi::adapt::Marshal;
use lua_ffi::error::Error;
use lua_ffi::marshal::{
    box_from_ptr, box_into_ptr, CMutOption, CMutResult, CSlice, Number, Raw, Value,
};

fn nested() -> Value {
    Value::Record(vec![
        Value::Text("h\u{e9}llo".to_string()),
        Value::Optional(Some(Box::new(Value::Optional(Some(Box::new(Value::Number(Number::U8(7)))))))),
        Value::List(vec![
            Value::List(vec![Value::Number(Number::I64(-5)), Value::Number(Number::Usize(9))]),
            Value::List(vec![]),
        ]),
        Value::Success(Box::new(Value::Text("fine".to_string()))),
        Value::Failure(Box::new(Value::Number(Number::I16(-2)))),
        Value::Bool(true),
        Value::Bool(false),
    ])
}

#[test]
fn round_trip_of_nested_record() {
    let raw = nested().into_raw().unwrap();
    assert_eq!(Value::from_raw(raw), Ok(nested()));
}

#[test]
fn pointer_round_trip_matches_raw_round_trip() {
    let by_ptr = Value::from_ptr(nested().into_ptr().unwrap());
    let by_raw = Value::from_raw(nested().into_raw().unwrap());
    assert_eq!(by_ptr, by_raw);
    assert_eq!(box_from_ptr(box_into_ptr(nested()).unwrap()), Ok(nested()));
}

#[test]
fn reference_read_leaves_raw_unchanged() {
    let raw = nested().into_raw().unwrap();
    let copy = nested().into_raw().unwrap();
    assert_eq!(Value::raw_as_ref(&raw), Ok(nested()));
    assert_eq!(raw, copy);
    assert_eq!(Value::raw_as_ref(&raw), Ok(nested()));
    let ptr = Box::new(raw);
    assert_eq!(Value::ptr_as_ref(&ptr), Ok(nested()));
    assert_eq!(Value::from_ptr(ptr), Ok(nested()));
}

#[test]
fn sequence_keeps_order_and_count() {
    let items: Vec<Value> = (0..5).map(|i| Value::Number(Number::I32(i * 10))).collect();
    let raw = Value::List(items).into_raw().unwrap();
    match &raw {
        Raw::List(c) => {
            assert_eq!(c.len, 5);
            assert!(c.capacity >= 5);
            assert_eq!(c.ptr[0], Raw::Number(Number::I32(0)));
            assert_eq!(c.ptr[4], Raw::Number(Number::I32(40)));
        }
        _ => panic!("not a list"),
    }
    let back: Vec<Value> = (0..5).map(|i| Value::Number(Number::I32(i * 10))).collect();
    assert_eq!(Value::from_raw(raw), Ok(Value::List(back)));
}

#[test]
fn empty_sequence_round_trip() {
    let raw = Value::List(vec![]).into_raw().unwrap();
    match &raw {
        Raw::List(c) => assert_eq!(c.len, 0),
        _ => panic!("not a list"),
    }
    assert_eq!(Value::from_raw(raw), Ok(Value::List(vec![])));
}

#[test]
fn union_sets_exactly_one_pointer() {
    let ok = Value::Success(Box::new(Value::Number(Number::U32(1)))).into_raw().unwrap();
    assert_eq!(
        ok,
        Raw::Union(CMutResult { ok: Some(Box::new(Raw::Number(Number::U32(1)))), err: None })
    );
    let err = Value::Failure(Box::new(Value::Text("no".to_string()))).into_raw().unwrap();
    assert_eq!(
        err,
        Raw::Union(CMutResult { ok: None, err: Some(Box::new(Raw::Text(vec![110, 111, 0]))) })
    );
}

#[test]
fn record_marshals_to_terminated_text_and_integer() {
    let a = Value::Record(vec![Value::Text("ab".to_string()), Value::Number(Number::I32(3))]);
    let raw = a.into_raw().unwrap();
    assert_eq!(
        raw,
        Raw::Record(vec![Raw::Text(vec![97, 98, 0]), Raw::Number(Number::I32(3))])
    );
    assert_eq!(
        Value::from_raw(raw),
        Ok(Value::Record(vec![Value::Text("ab".to_string()), Value::Number(Number::I32(3))]))
    );
}

#[test]
fn absent_optional_is_null() {
    let raw = Value::Optional(None).into_raw().unwrap();
    assert_eq!(raw, Raw::Optional(CMutOption { ptr: None }));
    assert_eq!(Value::from_raw(raw), Ok(Value::Optional(None)));
}

#[test]
fn bool_is_one_byte_integer() {
    assert_eq!(Value::Bool(true).into_raw(), Ok(Raw::Bool(1)));
    assert_eq!(Value::Bool(false).into_raw(), Ok(Raw::Bool(0)));
    assert_eq!(Value::from_raw(Raw::Bool(5)), Ok(Value::Bool(true)));
    assert_eq!(Value::raw_as_ref(&Raw::Bool(0)), Ok(Value::Bool(false)));
}

#[test]
fn text_with_zero_byte_is_refused() {
    assert_eq!(Value::Text("a\0b".to_string()).into_raw(), Err(Error::NulError));
}

#[test]
fn first_failing_element_fails_the_sequence() {
    let v = Value::List(vec![
        Value::Text("fine".to_string()),
        Value::Text("bad\0".to_string()),
        Value::Text("later".to_string()),
    ]);
    assert_eq!(v.into_raw(), Err(Error::NulError));
    let r = Value::Record(vec![Value::Number(Number::I8(1)), Value::Text("\0".to_string())]);
    assert_eq!(r.into_raw(), Err(Error::NulError));
}

#[test]
fn invalid_utf8_errors_depend_on_ownership() {
    let bad = Raw::Text(vec![0xff, 0xfe, 0]);
    assert_eq!(Value::raw_as_ref(&bad), Err(Error::Utf8Error));
    assert_eq!(Value::from_raw(bad), Err(Error::IntoStringError));
}

#[test]
fn multibyte_text_round_trip() {
    let raw = Value::Text("h\u{e9}".to_string()).into_raw().unwrap();
    assert_eq!(raw, Raw::Text(vec![104, 0xc3, 0xa9, 0]));
    assert_eq!(Value::from_raw(Raw::Text(vec![104, 0xc3, 0xa9, 0])), Ok(Value::Text("h\u{e9}".to_string())));
}

#[test]
fn well_formedness_of_raw_values() {
    assert!(nested().into_raw().unwrap().is_well_formed());
    assert!(!Raw::Text(vec![97, 98]).is_well_formed());
    assert!(!Raw::Text(vec![]).is_well_formed());
    assert!(!Raw::Text(vec![97, 0, 98, 0]).is_well_formed());
    assert!(!Raw::Union(CMutResult { ok: None, err: None }).is_well_formed());
    assert!(!Raw::Union(CMutResult {
        ok: Some(Box::new(Raw::Bool(1))),
        err: Some(Box::new(Raw::Bool(0)))
    })
    .is_well_formed());
    assert!(!Raw::Record(vec![Raw::Bool(1), Raw::Text(vec![1])]).is_well_formed());
    assert!(!Raw::List(lua_ffi::marshal::CMutVec { ptr: vec![Raw::Bool(1)], len: 2, capacity: 2 })
        .is_well_formed());
    assert!(!Raw::List(lua_ffi::marshal::CMutVec { ptr: vec![Raw::Bool(1)], len: 1, capacity: 0 })
        .is_well_formed());
}

#[test]
fn record_adapter_round_trip() {
    let raw = lua_ffi::unit::make_a("ab", 3).into_value().into_raw().unwrap();
    assert_eq!(
        raw,
        Raw::Record(vec![Raw::Text(vec![97, 98, 0]), Raw::Number(Number::I32(3))])
    );
    let back = lua_ffi::unit::A::from_value(Value::from_raw(raw).unwrap()).unwrap();
    assert_eq!(back.string, "ab");
    assert_eq!(back.integer, 3);
    assert!(lua_ffi::unit::A::from_value(Value::Record(vec![Value::Bool(true)])).is_none());
    assert!(lua_ffi::unit::A::from_value(Value::Record(vec![
        Value::Text("x".to_string()),
        Value::Number(Number::I64(1))
    ]))
    .is_none());
}

#[test]
fn nested_records_round_trip() {
    use_records();
}

fn use_records() {
    let b = lua_ffi::unit::make_b(Some("s"), None);
    let c = lua_ffi::unit::make_c(Some(lua_ffi::unit::make_a("x", 1)), vec![b]);
    let raw = c.into_value().into_raw().unwrap();
    let back = lua_ffi::unit::C::from_value(Value::from_raw(raw).unwrap()).unwrap();
    assert_eq!(back.a.unwrap().string, "x");
    assert_eq!(back.b.len(), 1);
    assert_eq!(back.b[0].string, Some("s".to_string()));
    assert_eq!(back.b[0].integer, None);

    let g = lua_ffi::unit::make_g(true, None, vec![false, true]);
    let back = lua_ffi::unit::G::from_value(g.into_value()).unwrap();
    assert!(back.b);
    assert_eq!(back.option_b, None);
    assert_eq!(back.vec_b, vec![false, true]);

    let e = lua_ffi::unit::make_e(Some(vec![3]), vec![lua_ffi::unit::make_d(&[4, 5])]);
    let back = lua_ffi::unit::E::from_value(e.into_value()).unwrap();
    assert_eq!(back.integers, Some(vec![3]));
    assert_eq!(back.ds[0].integers, vec![4, 5]);

    let f = lua_ffi::example::make_f(Some(lua_ffi::example::make_a("deep", 7)));
    let back = lua_ffi::example::F::from_value(f.into_value()).unwrap();
    assert_eq!(back.first_thing().unwrap().integer, 7);

    let g = lua_ffi::example::make_g(None);
    let back = lua_ffi::example::G::from_value(g.into_value()).unwrap();
    assert!(back.thing.is_none());

    assert!(lua_ffi::unit::D::from_value(Value::Record(vec![Value::List(vec![Value::Bool(true)])])).is_none());
    assert!(lua_ffi::unit::B::from_value(Value::Bool(true)).is_none());
}

#[test]
fn borrowed_slice_is_read_as_numbers() {
    let raw = Raw::Slice(CSlice { ptr: vec![Number::U16(1), Number::U16(2)], len: 2 });
    assert!(raw.is_well_formed());
    assert_eq!(
        Value::raw_as_ref(&raw),
        Ok(Value::List(vec![Value::Number(Number::U16(1)), Value::Number(Number::U16(2))]))
    );
    assert!(!Raw::Slice(CSlice { ptr: vec![Number::U8(1)], len: 3 }).is_well_formed());
    let empty = Raw::Slice(CSlice { ptr: vec![], len: 0 });
    assert_eq!(Value::from_raw(empty), Ok(Value::List(vec![])));
}
