use lua_ffi::example;
use lua_ffi::unit;

#[test]
fn squares() {
    assert_eq!(unit::square_i8(-11), 121);
    assert_eq!(unit::square_i16(-100), 10000);
    assert_eq!(unit::square_i32(46340), 2147395600);
    assert_eq!(unit::square_u8(15), 225);
    assert_eq!(unit::square_u16(255), 65025);
    assert_eq!(unit::square_u32(65535), 4294836225);
}

#[test]
fn concatenations() {
    assert_eq!(unit::concatenate_strings("ab".to_string(), "cd".to_string(), "--"), "ab--cd");
    assert_eq!(unit::concatenate_u16_slices(&[1, 2], &[3]), vec![1, 2, 3]);
    assert_eq!(unit::concatenate_u16_slices(&[], &[]), Vec::<u16>::new());
    let a = unit::concatenate_a(unit::make_a("x", 2), unit::make_a("y", 5), "+");
    assert_eq!(a.string, "x+y");
    assert_eq!(a.integer, 7);
    assert_eq!(unit::concatenate_vec_i32(vec![1], vec![2, 3]), vec![1, 2, 3]);
    assert_eq!(
        unit::concatenate_vec_string(vec!["a".to_string()], vec!["b".to_string()]),
        vec!["a".to_string(), "b".to_string()]
    );
    assert_eq!(unit::concatenate_vec_vec_i32(vec![vec![1]], vec![vec![], vec![2]]), vec![vec![1], vec![], vec![2]]);
    assert_eq!(unit::concatenate_vec_a(vec![], vec![unit::make_a("q", 1)]).len(), 1);
}

#[test]
fn options_prefer_the_first() {
    assert_eq!(unit::option_i32_or(Some(1), Some(2)), Some(1));
    assert_eq!(unit::option_i32_or(None, Some(2)), Some(2));
    assert_eq!(unit::option_i32_or(None, None), None);
    assert_eq!(unit::option_option_i32_or(Some(None), Some(Some(3))), Some(None));
    assert_eq!(unit::option_string_or(None, Some("s".to_string())), Some("s".to_string()));
    assert_eq!(unit::option_vec_i32_or(Some(vec![]), Some(vec![1])), Some(vec![]));
}

#[test]
fn byte_conversions() {
    assert_eq!(unit::u8_slice_to_string(&[104, 0xc3, 0xa9]), "h\u{e9}");
    assert_eq!(unit::u8_vec_to_string(vec![111, 107]), "ok");
    assert_eq!(unit::string_with_byte_zeros(), "String\0containing\0null\0bytes");
}

#[test]
fn unit_records() {
    let b = unit::make_b(Some("s"), None);
    assert_eq!(b.string, Some("s".to_string()));
    assert_eq!(b.integer, None);
    assert_eq!(unit::make_d(&[4, 5]).integers, vec![4, 5]);
    let g = unit::make_g(true, Some(false), vec![true]);
    assert!(g.b);
    assert_eq!(g.option_b, Some(false));
    let c = unit::make_c(None, vec![b]);
    assert_eq!(c.b.len(), 1);
    let e = unit::make_e(Some(vec![1]), vec![unit::make_d(&[])]);
    assert_eq!(e.ds.len(), 1);
    let f = unit::make_f(None, Some(vec!["t".to_string()]));
    assert!(f.as_.is_none());
}

#[test]
fn example_records() {
    assert_eq!(example::random_short(), 3);
    let f = example::make_f(Some(example::make_a("a", 1)));
    assert_eq!(example::length_f(f), 1);
    assert_eq!(example::length_f(example::make_f(None)), 0);
    let g = example::make_g(Some(example::make_a("txt", 9)));
    assert_eq!(g.string(), "txt");
    assert_eq!(g.integer(), 9);
    assert!(g.a().is_some());
    assert_eq!(example::string_g(example::make_g(None)), "");
    assert_eq!(example::integer_g(example::make_g(None)), 0);
    let got = example::g_get_a(example::make_g(Some(example::make_a("z", 2)))).unwrap();
    assert_eq!(got.string, "z");
    assert_eq!(example::make_d(&[1, 2]).integers, vec![1, 2]);
    assert_eq!(example::make_b(None, Some(1)).integer, Some(1));
    assert!(example::make_c(None, vec![]).a.is_none());
    assert!(example::make_e(None, vec![]).integers.is_none());
}

#[test]
fn first_thing_of_f() {
    let f = example::make_f(Some(example::make_a("first", 1)));
    assert_eq!(f.first_thing().unwrap().string, "first");
    assert!(example::make_f(None).first_thing().is_none());
    let empty = example::F { thing: Some(vec![vec![]]) };
    assert!(empty.first_thing().is_none());
}
