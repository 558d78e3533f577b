//! A second sample library exposed through the boundary: records built
//! from nested optional values and sequences.

use vstd::prelude::*;
use crate::marshal::{Datum, Value};
use crate::adapt::{record1, record2, record3, record_fields, record_value, Marshal};

verus! {

#[derive(Debug)]
pub struct A {
    pub string: String,
    pub integer: i32,
}

#[derive(Debug)]
pub struct B {
    pub string: Option<String>,
    pub integer: Option<i32>,
}

#[derive(Debug)]
pub struct C {
    pub a: Option<A>,
    pub b: Vec<B>,
}

#[derive(Debug)]
pub struct D {
    pub integers: Vec<i32>,
}

#[derive(Debug)]
pub struct E {
    pub integers: Option<Vec<i32>>,
    pub ds: Vec<D>,
}

#[derive(Debug)]
pub struct F {
    pub thing: Option<Vec<Vec<A>>>,
}

#[derive(Debug)]
pub struct G {
    pub thing: Option<Option<A>>,
}

impl F {
    /// The first record of the first sequence, if there is one.
    pub fn first_thing(&self) -> (r: Option<&A>)
        ensures
            match self.thing {
                Some(things) => if things@.len() > 0 && things@[0]@.len() > 0 {
                    r == Some(&things@[0]@[0])
                } else {
                    r is None
                },
                None => r is None,
            },
    {
        match &self.thing {
            Some(things) => {
                if things.len() > 0 && things[0].len() > 0 {
                    Some(&things[0][0])
                } else {
                    None
                }
            },
            None => None,
        }
    }
}

impl G {
    /// The record held two levels down, if both levels are present.
    pub open spec fn spec_a(&self) -> Option<A> {
        match self.thing {
            Some(Some(a)) => Some(a),
            _ => None,
        }
    }

    pub fn a(&self) -> (r: Option<&A>)
        ensures
            match r {
                Some(a) => self.spec_a() == Some(*a),
                None => self.spec_a() is None,
            },
    {
        match &self.thing {
            Some(Some(a)) => Some(a),
            _ => None,
        }
    }

    /// The text of the record held, or the empty text.
    pub fn string(&self) -> (r: &str)
        ensures
            match self.spec_a() {
                Some(a) => r@ == a.string@,
                None => r@.len() == 0,
            },
    {
        match self.a() {
            Some(a) => a.string.as_str(),
            None => {
                proof {
                    reveal_strlit("");
                }
                ""
            },
        }
    }

    /// The integer of the record held, or zero.
    pub fn integer(&self) -> (r: i32)
        ensures
            r == match self.spec_a() {
                Some(a) => a.integer,
                None => 0,
            },
    {
        match self.a() {
            Some(a) => a.integer,
            None => 0,
        }
    }
}

pub fn make_a(string: &str, integer: i32) -> (r: A)
    ensures
        r.string@ == string@,
        r.integer == integer,
{
    A { string: string.to_owned(), integer }
}

pub fn make_b(string: Option<&str>, integer: Option<i32>) -> (r: B)
    ensures
        match string {
            Some(s) => r.string matches Some(t) && t@ == s@,
            None => r.string is None,
        },
        r.integer == integer,
{
    let owned = match string {
        Some(s) => Some(s.to_owned()),
        None => None,
    };
    B { string: owned, integer }
}

pub fn make_c(a: Option<A>, b: Vec<B>) -> (r: C)
    ensures
        r.a == a,
        r.b == b,
{
    C { a, b }
}

pub fn make_d(integers: &[i32]) -> (r: D)
    ensures
        r.integers@ == integers@,
{
    let mut out: Vec<i32> = Vec::new();
    let mut i: usize = 0;
    while i < integers.len()
        invariant
            i <= integers@.len(),
            out@ == integers@.subrange(0, i as int),
        decreases integers@.len() - i,
    {
        out.push(integers[i]);
        i += 1;
    }
    proof {
        assert(integers@.subrange(0, integers@.len() as int) =~= integers@);
    }
    D { integers: out }
}

pub fn make_e(integers: Option<Vec<i32>>, ds: Vec<D>) -> (r: E)
    ensures
        r.integers == integers,
        r.ds == ds,
{
    E { integers, ds }
}

pub fn random_short() -> (r: i16)
    ensures
        r == 3,
{
    3
}

/// A record wrapped as the single element of a single sequence.
pub fn make_f(a: Option<A>) -> (r: F)
    ensures
        match a {
            Some(x) => r.thing matches Some(outer) && outer@.len() == 1 && outer@[0]@ == seq![x],
            None => r.thing is None,
        },
{
    match a {
        Some(x) => {
            let mut inner: Vec<A> = Vec::new();
            inner.push(x);
            let mut outer: Vec<Vec<A>> = Vec::new();
            outer.push(inner);
            proof {
                assert(outer@[0]@ =~= seq![x]);
            }
            F { thing: Some(outer) }
        },
        None => F { thing: None },
    }
}

/// How many sequences `f` holds.
pub fn length_f(f: F) -> (r: usize)
    ensures
        r == match f.thing {
            Some(things) => things@.len(),
            None => 0,
        },
{
    match f.thing {
        Some(things) => things.len(),
        None => 0,
    }
}

pub fn make_g(a: Option<A>) -> (r: G)
    ensures
        r.thing == match a {
            Some(x) => Some(Some(x)),
            None => None::<Option<A>>,
        },
{
    match a {
        Some(x) => G { thing: Some(Some(x)) },
        None => G { thing: None },
    }
}

pub fn g_get_a(g: G) -> (r: Option<A>)
    ensures
        r == g.spec_a(),
{
    match g.thing {
        Some(inner) => inner,
        None => None,
    }
}

pub fn string_g(g: G) -> (r: String)
    ensures
        match g.spec_a() {
            Some(a) => r@ == a.string@,
            None => r@.len() == 0,
        },
{
    g.string().to_owned()
}

pub fn integer_g(g: G) -> (r: i32)
    ensures
        r == match g.spec_a() {
            Some(a) => a.integer,
            None => 0,
        },
{
    g.integer()
}

impl Marshal for A {
    open spec fn datum(&self) -> Datum {
        record2(self.string.datum(), self.integer.datum())
    }

    open spec fn fits(d: Datum) -> bool {
        d matches Datum::Record(s) && s.len() == 2 && <String as Marshal>::fits(s[0]) && <i32 as Marshal>::fits(s[1])
    }

    fn into_value(self) -> (r: Value) {
        let mut fields: Vec<Value> = Vec::new();
        fields.push(self.string.into_value());
        fields.push(self.integer.into_value());
        record_value(fields)
    }

    fn from_value(v: Value) -> (r: Option<A>) {
        match record_fields(v, 2) {
            Some(fields) => {
                let mut fields = fields;
                let v1 = fields.pop();
                let v0 = fields.pop();
                match (v0, v1) {
                    (Some(v0), Some(v1)) => match (<String as Marshal>::from_value(v0), <i32 as Marshal>::from_value(v1)) {
                        (Some(x0), Some(x1)) => Some(A { string: x0, integer: x1 }),
                        _ => None,
                    },
                    _ => None,
                }
            },
            None => None,
        }
    }
}

impl Marshal for B {
    open spec fn datum(&self) -> Datum {
        record2(self.string.datum(), self.integer.datum())
    }

    open spec fn fits(d: Datum) -> bool {
        d matches Datum::Record(s) && s.len() == 2 && <Option<String> as Marshal>::fits(s[0]) && <Option<i32> as Marshal>::fits(s[1])
    }

    fn into_value(self) -> (r: Value) {
        let mut fields: Vec<Value> = Vec::new();
        fields.push(self.string.into_value());
        fields.push(self.integer.into_value());
        record_value(fields)
    }

    fn from_value(v: Value) -> (r: Option<B>) {
        match record_fields(v, 2) {
            Some(fields) => {
                let mut fields = fields;
                let v1 = fields.pop();
                let v0 = fields.pop();
                match (v0, v1) {
                    (Some(v0), Some(v1)) => match (<Option<String> as Marshal>::from_value(v0), <Option<i32> as Marshal>::from_value(v1)) {
                        (Some(x0), Some(x1)) => Some(B { string: x0, integer: x1 }),
                        _ => None,
                    },
                    _ => None,
                }
            },
            None => None,
        }
    }
}

impl Marshal for C {
    open spec fn datum(&self) -> Datum {
        record2(self.a.datum(), self.b.datum())
    }

    open spec fn fits(d: Datum) -> bool {
        d matches Datum::Record(s) && s.len() == 2 && <Option<A> as Marshal>::fits(s[0]) && <Vec<B> as Marshal>::fits(s[1])
    }

    fn into_value(self) -> (r: Value) {
        let mut fields: Vec<Value> = Vec::new();
        fields.push(self.a.into_value());
        fields.push(self.b.into_value());
        record_value(fields)
    }

    fn from_value(v: Value) -> (r: Option<C>) {
        match record_fields(v, 2) {
            Some(fields) => {
                let mut fields = fields;
                let v1 = fields.pop();
                let v0 = fields.pop();
                match (v0, v1) {
                    (Some(v0), Some(v1)) => match (<Option<A> as Marshal>::from_value(v0), <Vec<B> as Marshal>::from_value(v1)) {
                        (Some(x0), Some(x1)) => Some(C { a: x0, b: x1 }),
                        _ => None,
                    },
                    _ => None,
                }
            },
            None => None,
        }
    }
}

impl Marshal for D {
    open spec fn datum(&self) -> Datum {
        record1(self.integers.datum())
    }

    open spec fn fits(d: Datum) -> bool {
        d matches Datum::Record(s) && s.len() == 1 && <Vec<i32> as Marshal>::fits(s[0])
    }

    fn into_value(self) -> (r: Value) {
        let mut fields: Vec<Value> = Vec::new();
        fields.push(self.integers.into_value());
        record_value(fields)
    }

    fn from_value(v: Value) -> (r: Option<D>) {
        match record_fields(v, 1) {
            Some(fields) => {
                let mut fields = fields;
                let v0 = fields.pop();
                match v0 {
                    Some(v0) => match <Vec<i32> as Marshal>::from_value(v0) {
                        Some(x0) => Some(D { integers: x0 }),
                        None => None,
                    },
                    None => None,
                }
            },
            None => None,
        }
    }
}

impl Marshal for E {
    open spec fn datum(&self) -> Datum {
        record2(self.integers.datum(), self.ds.datum())
    }

    open spec fn fits(d: Datum) -> bool {
        d matches Datum::Record(s) && s.len() == 2 && <Option<Vec<i32>> as Marshal>::fits(s[0]) && <Vec<D> as Marshal>::fits(s[1])
    }

    fn into_value(self) -> (r: Value) {
        let mut fields: Vec<Value> = Vec::new();
        fields.push(self.integers.into_value());
        fields.push(self.ds.into_value());
        record_value(fields)
    }

    fn from_value(v: Value) -> (r: Option<E>) {
        match record_fields(v, 2) {
            Some(fields) => {
                let mut fields = fields;
                let v1 = fields.pop();
                let v0 = fields.pop();
                match (v0, v1) {
                    (Some(v0), Some(v1)) => match (<Option<Vec<i32>> as Marshal>::from_value(v0), <Vec<D> as Marshal>::from_value(v1)) {
                        (Some(x0), Some(x1)) => Some(E { integers: x0, ds: x1 }),
                        _ => None,
                    },
                    _ => None,
                }
            },
            None => None,
        }
    }
}

impl Marshal for F {
    open spec fn datum(&self) -> Datum {
        record1(self.thing.datum())
    }

    open spec fn fits(d: Datum) -> bool {
        d matches Datum::Record(s) && s.len() == 1 && <Option<Vec<Vec<A>>> as Marshal>::fits(s[0])
    }

    fn into_value(self) -> (r: Value) {
        let mut fields: Vec<Value> = Vec::new();
        fields.push(self.thing.into_value());
        record_value(fields)
    }

    fn from_value(v: Value) -> (r: Option<F>) {
        match record_fields(v, 1) {
            Some(fields) => {
                let mut fields = fields;
                let v0 = fields.pop();
                match v0 {
                    Some(v0) => match <Option<Vec<Vec<A>>> as Marshal>::from_value(v0) {
                        Some(x0) => Some(F { thing: x0 }),
                        None => None,
                    },
                    None => None,
                }
            },
            None => None,
        }
    }
}

impl Marshal for G {
    open spec fn datum(&self) -> Datum {
        record1(self.thing.datum())
    }

    open spec fn fits(d: Datum) -> bool {
        d matches Datum::Record(s) && s.len() == 1 && <Option<Option<A>> as Marshal>::fits(s[0])
    }

    fn into_value(self) -> (r: Value) {
        let mut fields: Vec<Value> = Vec::new();
        fields.push(self.thing.into_value());
        record_value(fields)
    }

    fn from_value(v: Value) -> (r: Option<G>) {
        match record_fields(v, 1) {
            Some(fields) => {
                let mut fields = fields;
                let v0 = fields.pop();
                match v0 {
                    Some(v0) => match <Option<Option<A>> as Marshal>::from_value(v0) {
                        Some(x0) => Some(G { thing: x0 }),
                        None => None,
                    },
                    None => None,
                }
            },
            None => None,
        }
    }
}

} // verus!
