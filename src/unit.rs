//! Functions of a sample library exposed through the boundary, one for each
//! kind of argument and result that the protocol carries.

use vstd::prelude::*;
use vstd::utf8::*;
use crate::marshal::{string_from_utf8, Datum, Value};
use crate::adapt::{record1, record2, record3, record_fields, record_value, Marshal};


verus! {

#[derive(Debug)]
pub struct A {
    pub string: String,
    pub integer: i32,
}

#[derive(Debug)]
pub struct B {
    pub string: Option<String>,
    pub integer: Option<i32>,
}

#[derive(Debug)]
pub struct C {
    pub a: Option<A>,
    pub b: Vec<B>,
}

#[derive(Debug)]
pub struct D {
    pub integers: Vec<i32>,
}

#[derive(Debug)]
pub struct E {
    pub integers: Option<Vec<i32>>,
    pub ds: Vec<D>,
}

#[derive(Debug)]
pub struct F {
    pub as_: Option<Vec<A>>,
    pub strings: Option<Vec<String>>,
}

#[derive(Debug)]
pub struct G {
    pub b: bool,
    pub option_b: Option<bool>,
    pub vec_b: Vec<bool>,
}

pub fn square_i8(value: i8) -> (r: i8)
    requires
        value * value <= i8::MAX,
    ensures
        r == value * value,
{
    proof {
        assert(value * value >= 0) by (nonlinear_arith);
    }
    value * value
}

pub fn square_i16(value: i16) -> (r: i16)
    requires
        value * value <= i16::MAX,
    ensures
        r == value * value,
{
    proof {
        assert(value * value >= 0) by (nonlinear_arith);
    }
    value * value
}

pub fn square_i32(value: i32) -> (r: i32)
    requires
        value * value <= i32::MAX,
    ensures
        r == value * value,
{
    proof {
        assert(value * value >= 0) by (nonlinear_arith);
    }
    value * value
}

pub fn square_u8(value: u8) -> (r: u8)
    requires
        value * value <= u8::MAX,
    ensures
        r == value * value,
{
    value * value
}

pub fn square_u16(value: u16) -> (r: u16)
    requires
        value * value <= u16::MAX,
    ensures
        r == value * value,
{
    value * value
}

pub fn square_u32(value: u32) -> (r: u32)
    requires
        value * value <= u32::MAX,
    ensures
        r == value * value,
{
    value * value
}

/// The two texts joined by the separator.
pub fn concatenate_strings(string1: String, string2: String, separator: &str) -> (r: String)
    ensures
        r@ == string1@ + separator@ + string2@,
{
    let joined = string1.concat(separator);
    joined.concat(string2.as_str())
}

/// The elements of `slice1`, then those of `slice2`.
pub fn concatenate_u16_slices(slice1: &[u16], slice2: &[u16]) -> (r: Vec<u16>)
    ensures
        r@ == slice1@ + slice2@,
{
    let mut out: Vec<u16> = Vec::new();
    let mut i: usize = 0;
    while i < slice1.len()
        invariant
            i <= slice1@.len(),
            out@ == slice1@.subrange(0, i as int),
        decreases slice1@.len() - i,
    {
        out.push(slice1[i]);
        i += 1;
    }
    let mut j: usize = 0;
    while j < slice2.len()
        invariant
            j <= slice2@.len(),
            out@ == slice1@ + slice2@.subrange(0, j as int),
        decreases slice2@.len() - j,
    {
        out.push(slice2[j]);
        j += 1;
    }
    proof {
        assert(slice1@.subrange(0, slice1@.len() as int) =~= slice1@);
        assert(slice2@.subrange(0, slice2@.len() as int) =~= slice2@);
    }
    out
}

/// The texts joined by the separator, the integers added.
pub fn concatenate_a(a1: A, a2: A, separator: &str) -> (r: A)
    requires
        i32::MIN <= a1.integer + a2.integer <= i32::MAX,
    ensures
        r.string@ == a1.string@ + separator@ + a2.string@,
        r.integer == a1.integer + a2.integer,
{
    A { string: concatenate_strings(a1.string, a2.string, separator), integer: a1.integer + a2.integer }
}

/// The elements of `vec1`, then those of `vec2`.
fn chain<T>(vec1: Vec<T>, vec2: Vec<T>) -> (r: Vec<T>)
    ensures
        r@ == vec1@ + vec2@,
{
    let mut out = vec1;
    let mut rest = vec2;
    out.append(&mut rest);
    out
}

pub fn concatenate_vec_i32(vec1: Vec<i32>, vec2: Vec<i32>) -> (r: Vec<i32>)
    ensures
        r@ == vec1@ + vec2@,
{
    chain(vec1, vec2)
}

pub fn concatenate_vec_a(vec1: Vec<A>, vec2: Vec<A>) -> (r: Vec<A>)
    ensures
        r@ == vec1@ + vec2@,
{
    chain(vec1, vec2)
}

pub fn concatenate_vec_string(vec1: Vec<String>, vec2: Vec<String>) -> (r: Vec<String>)
    ensures
        r@ == vec1@ + vec2@,
{
    chain(vec1, vec2)
}

pub fn concatenate_vec_vec_i32(vec1: Vec<Vec<i32>>, vec2: Vec<Vec<i32>>) -> (r: Vec<Vec<i32>>)
    ensures
        r@ == vec1@ + vec2@,
{
    chain(vec1, vec2)
}

pub fn concatenate_vec_vec_string(vec1: Vec<Vec<String>>, vec2: Vec<Vec<String>>) -> (r: Vec<
    Vec<String>,
>)
    ensures
        r@ == vec1@ + vec2@,
{
    chain(vec1, vec2)
}

/// The first option where it is present, else the second.
pub open spec fn or_else<T>(option1: Option<T>, option2: Option<T>) -> Option<T> {
    match option1 {
        Some(v) => Some(v),
        None => option2,
    }
}

fn first_present<T>(option1: Option<T>, option2: Option<T>) -> (r: Option<T>)
    ensures
        r == or_else(option1, option2),
{
    match option1 {
        Some(v) => Some(v),
        None => option2,
    }
}

pub fn option_i32_or(option1: Option<i32>, option2: Option<i32>) -> (r: Option<i32>)
    ensures
        r == or_else(option1, option2),
{
    first_present(option1, option2)
}

pub fn option_a_or(option1: Option<A>, option2: Option<A>) -> (r: Option<A>)
    ensures
        r == or_else(option1, option2),
{
    first_present(option1, option2)
}

pub fn option_string_or(option1: Option<String>, option2: Option<String>) -> (r: Option<String>)
    ensures
        r == or_else(option1, option2),
{
    first_present(option1, option2)
}

pub fn option_vec_i32_or(option1: Option<Vec<i32>>, option2: Option<Vec<i32>>) -> (r: Option<
    Vec<i32>,
>)
    ensures
        r == or_else(option1, option2),
{
    first_present(option1, option2)
}

pub fn option_vec_string_or(option1: Option<Vec<String>>, option2: Option<Vec<String>>) -> (r:
    Option<Vec<String>>)
    ensures
        r == or_else(option1, option2),
{
    first_present(option1, option2)
}

pub fn option_vec_a_or(option1: Option<Vec<A>>, option2: Option<Vec<A>>) -> (r: Option<Vec<A>>)
    ensures
        r == or_else(option1, option2),
{
    first_present(option1, option2)
}

pub fn option_option_i32_or(option1: Option<Option<i32>>, option2: Option<Option<i32>>) -> (r:
    Option<Option<i32>>)
    ensures
        r == or_else(option1, option2),
{
    first_present(option1, option2)
}

pub fn option_option_string_or(
    option1: Option<Option<String>>,
    option2: Option<Option<String>>,
) -> (r: Option<Option<String>>)
    ensures
        r == or_else(option1, option2),
{
    first_present(option1, option2)
}

pub fn option_option_a_or(option1: Option<Option<A>>, option2: Option<Option<A>>) -> (r: Option<
    Option<A>,
>)
    ensures
        r == or_else(option1, option2),
{
    first_present(option1, option2)
}

/// An owned copy of a slice of integers.
fn copy_i32s(integers: &[i32]) -> (r: Vec<i32>)
    ensures
        r@ == integers@,
{
    let mut out: Vec<i32> = Vec::new();
    let mut i: usize = 0;
    while i < integers.len()
        invariant
            i <= integers@.len(),
            out@ == integers@.subrange(0, i as int),
        decreases integers@.len() - i,
    {
        out.push(integers[i]);
        i += 1;
    }
    proof {
        assert(integers@.subrange(0, integers@.len() as int) =~= integers@);
    }
    out
}

pub fn make_a(string: &str, integer: i32) -> (r: A)
    ensures
        r.string@ == string@,
        r.integer == integer,
{
    A { string: string.to_owned(), integer }
}

pub fn make_b(string: Option<&str>, integer: Option<i32>) -> (r: B)
    ensures
        match string {
            Some(s) => r.string matches Some(t) && t@ == s@,
            None => r.string is None,
        },
        r.integer == integer,
{
    let owned = match string {
        Some(s) => Some(s.to_owned()),
        None => None,
    };
    B { string: owned, integer }
}

pub fn make_c(a: Option<A>, b: Vec<B>) -> (r: C)
    ensures
        r.a == a,
        r.b == b,
{
    C { a, b }
}

pub fn make_d(integers: &[i32]) -> (r: D)
    ensures
        r.integers@ == integers@,
{
    D { integers: copy_i32s(integers) }
}

pub fn make_e(integers: Option<Vec<i32>>, ds: Vec<D>) -> (r: E)
    ensures
        r.integers == integers,
        r.ds == ds,
{
    E { integers, ds }
}

pub fn make_f(as_: Option<Vec<A>>, strings: Option<Vec<String>>) -> (r: F)
    ensures
        r.as_ == as_,
        r.strings == strings,
{
    F { as_, strings }
}

pub fn make_g(b: bool, option_b: Option<bool>, vec_b: Vec<bool>) -> (r: G)
    ensures
        r.b == b,
        r.option_b == option_b,
        r.vec_b == vec_b,
{
    G { b, option_b, vec_b }
}

/// The text that a slice of UTF-8 bytes encodes.
pub fn u8_slice_to_string(slice: &[u8]) -> (r: String)
    requires
        valid_utf8(slice@),
    ensures
        r@ == decode_utf8(slice@),
{
    let mut bytes: Vec<u8> = Vec::new();
    let mut i: usize = 0;
    while i < slice.len()
        invariant
            i <= slice@.len(),
            bytes@ == slice@.subrange(0, i as int),
        decreases slice@.len() - i,
    {
        bytes.push(slice[i]);
        i += 1;
    }
    proof {
        assert(bytes@ =~= slice@);
    }
    u8_vec_to_string(bytes)
}

/// The text that a vector of UTF-8 bytes encodes, in the same buffer.
pub fn u8_vec_to_string(vec: Vec<u8>) -> (r: String)
    requires
        valid_utf8(vec@),
    ensures
        r@ == decode_utf8(vec@),
{
    match string_from_utf8(vec) {
        Some(s) => {
            proof {
                encode_utf8_decode_utf8(s@);
            }
            s
        },
        None => {
            proof {
                assert(false);
            }
            String::new()
        },
    }
}

/// A text with zero bytes inside, which no null-terminated buffer can carry.
pub fn string_with_byte_zeros() -> (r: String)
    ensures
        r@ == "String\0containing\0null\0bytes"@,
{
    String::from_str("String\0containing\0null\0bytes")
}

impl Marshal for A {
    open spec fn datum(&self) -> Datum {
        record2(self.string.datum(), self.integer.datum())
    }

    open spec fn fits(d: Datum) -> bool {
        d matches Datum::Record(s) && s.len() == 2 && <String as Marshal>::fits(s[0]) && <i32 as Marshal>::fits(s[1])
    }

    fn into_value(self) -> (r: Value) {
        let mut fields: Vec<Value> = Vec::new();
        fields.push(self.string.into_value());
        fields.push(self.integer.into_value());
        record_value(fields)
    }

    fn from_value(v: Value) -> (r: Option<A>) {
        match record_fields(v, 2) {
            Some(fields) => {
                let mut fields = fields;
                let v1 = fields.pop();
                let v0 = fields.pop();
                match (v0, v1) {
                    (Some(v0), Some(v1)) => match (<String as Marshal>::from_value(v0), <i32 as Marshal>::from_value(v1)) {
                        (Some(x0), Some(x1)) => Some(A { string: x0, integer: x1 }),
                        _ => None,
                    },
                    _ => None,
                }
            },
            None => None,
        }
    }
}

impl Marshal for B {
    open spec fn datum(&self) -> Datum {
        record2(self.string.datum(), self.integer.datum())
    }

    open spec fn fits(d: Datum) -> bool {
        d matches Datum::Record(s) && s.len() == 2 && <Option<String> as Marshal>::fits(s[0]) && <Option<i32> as Marshal>::fits(s[1])
    }

    fn into_value(self) -> (r: Value) {
        let mut fields: Vec<Value> = Vec::new();
        fields.push(self.string.into_value());
        fields.push(self.integer.into_value());
        record_value(fields)
    }

    fn from_value(v: Value) -> (r: Option<B>) {
        match record_fields(v, 2) {
            Some(fields) => {
                let mut fields = fields;
                let v1 = fields.pop();
                let v0 = fields.pop();
                match (v0, v1) {
                    (Some(v0), Some(v1)) => match (<Option<String> as Marshal>::from_value(v0), <Option<i32> as Marshal>::from_value(v1)) {
                        (Some(x0), Some(x1)) => Some(B { string: x0, integer: x1 }),
                        _ => None,
                    },
                    _ => None,
                }
            },
            None => None,
        }
    }
}

impl Marshal for C {
    open spec fn datum(&self) -> Datum {
        record2(self.a.datum(), self.b.datum())
    }

    open spec fn fits(d: Datum) -> bool {
        d matches Datum::Record(s) && s.len() == 2 && <Option<A> as Marshal>::fits(s[0]) && <Vec<B> as Marshal>::fits(s[1])
    }

    fn into_value(self) -> (r: Value) {
        let mut fields: Vec<Value> = Vec::new();
        fields.push(self.a.into_value());
        fields.push(self.b.into_value());
        record_value(fields)
    }

    fn from_value(v: Value) -> (r: Option<C>) {
        match record_fields(v, 2) {
            Some(fields) => {
                let mut fields = fields;
                let v1 = fields.pop();
                let v0 = fields.pop();
                match (v0, v1) {
                    (Some(v0), Some(v1)) => match (<Option<A> as Marshal>::from_value(v0), <Vec<B> as Marshal>::from_value(v1)) {
                        (Some(x0), Some(x1)) => Some(C { a: x0, b: x1 }),
                        _ => None,
                    },
                    _ => None,
                }
            },
            None => None,
        }
    }
}

impl Marshal for D {
    open spec fn datum(&self) -> Datum {
        record1(self.integers.datum())
    }

    open spec fn fits(d: Datum) -> bool {
        d matches Datum::Record(s) && s.len() == 1 && <Vec<i32> as Marshal>::fits(s[0])
    }

    fn into_value(self) -> (r: Value) {
        let mut fields: Vec<Value> = Vec::new();
        fields.push(self.integers.into_value());
        record_value(fields)
    }

    fn from_value(v: Value) -> (r: Option<D>) {
        match record_fields(v, 1) {
            Some(fields) => {
                let mut fields = fields;
                let v0 = fields.pop();
                match v0 {
                    Some(v0) => match <Vec<i32> as Marshal>::from_value(v0) {
                        Some(x0) => Some(D { integers: x0 }),
                        None => None,
                    },
                    None => None,
                }
            },
            None => None,
        }
    }
}

impl Marshal for E {
    open spec fn datum(&self) -> Datum {
        record2(self.integers.datum(), self.ds.datum())
    }

    open spec fn fits(d: Datum) -> bool {
        d matches Datum::Record(s) && s.len() == 2 && <Option<Vec<i32>> as Marshal>::fits(s[0]) && <Vec<D> as Marshal>::fits(s[1])
    }

    fn into_value(self) -> (r: Value) {
        let mut fields: Vec<Value> = Vec::new();
        fields.push(self.integers.into_value());
        fields.push(self.ds.into_value());
        record_value(fields)
    }

    fn from_value(v: Value) -> (r: Option<E>) {
        match record_fields(v, 2) {
            Some(fields) => {
                let mut fields = fields;
                let v1 = fields.pop();
                let v0 = fields.pop();
                match (v0, v1) {
                    (Some(v0), Some(v1)) => match (<Option<Vec<i32>> as Marshal>::from_value(v0), <Vec<D> as Marshal>::from_value(v1)) {
                        (Some(x0), Some(x1)) => Some(E { integers: x0, ds: x1 }),
                        _ => None,
                    },
                    _ => None,
                }
            },
            None => None,
        }
    }
}

impl Marshal for F {
    open spec fn datum(&self) -> Datum {
        record2(self.as_.datum(), self.strings.datum())
    }

    open spec fn fits(d: Datum) -> bool {
        d matches Datum::Record(s) && s.len() == 2 && <Option<Vec<A>> as Marshal>::fits(s[0]) && <Option<Vec<String>> as Marshal>::fits(s[1])
    }

    fn into_value(self) -> (r: Value) {
        let mut fields: Vec<Value> = Vec::new();
        fields.push(self.as_.into_value());
        fields.push(self.strings.into_value());
        record_value(fields)
    }

    fn from_value(v: Value) -> (r: Option<F>) {
        match record_fields(v, 2) {
            Some(fields) => {
                let mut fields = fields;
                let v1 = fields.pop();
                let v0 = fields.pop();
                match (v0, v1) {
                    (Some(v0), Some(v1)) => match (<Option<Vec<A>> as Marshal>::from_value(v0), <Option<Vec<String>> as Marshal>::from_value(v1)) {
                        (Some(x0), Some(x1)) => Some(F { as_: x0, strings: x1 }),
                        _ => None,
                    },
                    _ => None,
                }
            },
            None => None,
        }
    }
}

impl Marshal for G {
    open spec fn datum(&self) -> Datum {
        record3(self.b.datum(), self.option_b.datum(), self.vec_b.datum())
    }

    open spec fn fits(d: Datum) -> bool {
        d matches Datum::Record(s) && s.len() == 3 && <bool as Marshal>::fits(s[0]) && <Option<bool> as Marshal>::fits(s[1]) && <Vec<bool> as Marshal>::fits(s[2])
    }

    fn into_value(self) -> (r: Value) {
        let mut fields: Vec<Value> = Vec::new();
        fields.push(self.b.into_value());
        fields.push(self.option_b.into_value());
        fields.push(self.vec_b.into_value());
        record_value(fields)
    }

    fn from_value(v: Value) -> (r: Option<G>) {
        match record_fields(v, 3) {
            Some(fields) => {
                let mut fields = fields;
                let v2 = fields.pop();
                let v1 = fields.pop();
                let v0 = fields.pop();
                match (v0, v1, v2) {
                    (Some(v0), Some(v1), Some(v2)) => match (<bool as Marshal>::from_value(v0), <Option<bool> as Marshal>::from_value(v1), <Vec<bool> as Marshal>::from_value(v2)) {
                        (Some(x0), Some(x1), Some(x2)) => Some(G { b: x0, option_b: x1, vec_b: x2 }),
                        _ => None,
                    },
                    _ => None,
                }
            },
            None => None,
        }
    }
}

} // verus!
