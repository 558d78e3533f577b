//! Explicit adapters between typed records and protocol values: each type
//! that crosses the boundary says once how it becomes a `Value` and back.

use vstd::prelude::*;
use crate::marshal::{data, lemma_data, Datum, Number, Value};

verus! {

/// A type with a protocol value.
pub trait Marshal: Sized {
    /// The model of the protocol value of `self`.
    spec fn datum(&self) -> Datum;

    /// The models that stand for a value of this type.
    spec fn fits(d: Datum) -> bool;

    /// The protocol value of `self`.
    fn into_value(self) -> (r: Value)
        ensures
            r@ == self.datum(),
            Self::fits(r@),
    ;

    /// The value of this type that a protocol value stands for, if it has
    /// this type's shape.
    fn from_value(v: Value) -> (r: Option<Self>)
        ensures
            r is Some <==> Self::fits(v@),
            r matches Some(x) ==> x.datum() == v@,
    ;
}

impl Marshal for i32 {
    open spec fn datum(&self) -> Datum {
        Datum::Number(Number::I32(*self))
    }

    open spec fn fits(d: Datum) -> bool {
        d matches Datum::Number(Number::I32(_))
    }

    fn into_value(self) -> (r: Value) {
        Value::Number(Number::I32(self))
    }

    fn from_value(v: Value) -> (r: Option<i32>) {
        match v {
            Value::Number(Number::I32(i)) => Some(i),
            _ => None,
        }
    }
}

impl Marshal for bool {
    open spec fn datum(&self) -> Datum {
        Datum::Bool(*self)
    }

    open spec fn fits(d: Datum) -> bool {
        d is Bool
    }

    fn into_value(self) -> (r: Value) {
        Value::Bool(self)
    }

    fn from_value(v: Value) -> (r: Option<bool>) {
        match v {
            Value::Bool(b) => Some(b),
            _ => None,
        }
    }
}

impl Marshal for String {
    open spec fn datum(&self) -> Datum {
        Datum::Text(self@)
    }

    open spec fn fits(d: Datum) -> bool {
        d is Text
    }

    fn into_value(self) -> (r: Value) {
        Value::Text(self)
    }

    fn from_value(v: Value) -> (r: Option<String>) {
        match v {
            Value::Text(s) => Some(s),
            _ => None,
        }
    }
}

impl<T: Marshal> Marshal for Option<T> {
    open spec fn datum(&self) -> Datum {
        match self {
            Some(x) => Datum::Optional(Some(Box::new(x.datum()))),
            None => Datum::Optional(None),
        }
    }

    open spec fn fits(d: Datum) -> bool {
        match d {
            Datum::Optional(Some(b)) => T::fits(*b),
            Datum::Optional(None) => true,
            _ => false,
        }
    }

    fn into_value(self) -> (r: Value) {
        match self {
            Some(x) => Value::Optional(Some(Box::new(x.into_value()))),
            None => Value::Optional(None),
        }
    }

    fn from_value(v: Value) -> (r: Option<Option<T>>) {
        match v {
            Value::Optional(Some(b)) => match T::from_value(*b) {
                Some(x) => Some(Some(x)),
                None => None,
            },
            Value::Optional(None) => Some(None),
            _ => None,
        }
    }
}

/// The elements of `v`, front first, each moved out once.
fn take_all<T>(v: Vec<T>) -> (r: Vec<T>)
    ensures
        r@.len() == v@.len(),
        forall|k: int| 0 <= k < r@.len() ==> r@[k] == v@[v@.len() - 1 - k],
{
    let ghost orig = v@;
    let mut rest = v;
    let mut rev: Vec<T> = Vec::new();
    while rest.len() > 0
        invariant
            rest@.len() + rev@.len() == orig.len(),
            forall|k: int| 0 <= k < rest@.len() ==> rest@[k] == orig[k],
            forall|k: int| 0 <= k < rev@.len() ==> rev@[k] == orig[orig.len() - 1 - k],
        decreases rest@.len(),
    {
        match rest.pop() {
            Some(x) => rev.push(x),
            None => {},
        }
    }
    rev
}

impl<T: Marshal> Marshal for Vec<T> {
    open spec fn datum(&self) -> Datum {
        Datum::List(self@.map_values(|x: T| x.datum()))
    }

    open spec fn fits(d: Datum) -> bool {
        match d {
            Datum::List(s) => forall|k: int| 0 <= k < s.len() ==> T::fits(#[trigger] s[k]),
            _ => false,
        }
    }

    fn into_value(self) -> (r: Value) {
        let ghost orig = self@;
        let mut rev = take_all(self);
        let mut out: Vec<Value> = Vec::new();
        while rev.len() > 0
            invariant
                out@.len() + rev@.len() == orig.len(),
                forall|k: int| 0 <= k < rev@.len() ==> rev@[k] == orig[orig.len() - 1 - k],
                forall|k: int| 0 <= k < out@.len() ==> #[trigger] out@[k]@ == orig[k].datum(),
                forall|k: int| 0 <= k < out@.len() ==> T::fits(#[trigger] out@[k]@),
            decreases rev@.len(),
        {
            match rev.pop() {
                Some(x) => out.push(x.into_value()),
                None => {},
            }
        }
        proof {
            lemma_data(out@);
            assert(data(out@) =~= orig.map_values(|x: T| x.datum()));
        }
        Value::List(out)
    }

    fn from_value(v: Value) -> (r: Option<Vec<T>>) {
        match v {
            Value::List(vs) => {
                let ghost orig = vs@;
                proof {
                    lemma_data(vs@);
                }
                let mut rev = take_all(vs);
                let mut out: Vec<T> = Vec::new();
                while rev.len() > 0
                    invariant
                        out@.len() + rev@.len() == orig.len(),
                        forall|k: int| 0 <= k < rev@.len() ==> rev@[k] == orig[orig.len() - 1 - k],
                        forall|k: int| 0 <= k < out@.len() ==> (#[trigger] out@[k]).datum() == orig[k]@,
                        forall|k: int| 0 <= k < out@.len() ==> T::fits(#[trigger] orig[k]@),
                        data(orig).len() == orig.len(),
                        forall|k: int| 0 <= k < orig.len() ==> #[trigger] data(orig)[k] == orig[k]@,
                        v@ == Datum::List(data(orig)),
                    decreases rev@.len(),
                {
                    let ghost at = out@.len();
                    let ghost before = rev@;
                    match rev.pop() {
                        Some(x) => match T::from_value(x) {
                            Some(t) => out.push(t),
                            None => {
                                proof {
                                    assert(x == before[before.len() - 1]);
                                    assert(x == orig[at as int]);
                                    assert(data(orig)[at as int] == orig[at as int]@);
                                    assert(!T::fits(data(orig)[at as int]));
                                    assert(Datum::List(data(orig))->List_0 == data(orig));
                                    assert(!Self::fits(Datum::List(data(orig))));
                                }
                                return None;
                            },
                        },
                        None => {},
                    }
                }
                proof {
                    assert(out@.map_values(|x: T| x.datum()) =~= data(orig));
                }
                Some(out)
            },
            _ => None,
        }
    }
}

/// A record of one field.
pub open spec fn record1(a: Datum) -> Datum {
    Datum::Record(seq![a])
}

/// A record of two fields.
pub open spec fn record2(a: Datum, b: Datum) -> Datum {
    Datum::Record(seq![a, b])
}

/// A record of three fields.
pub open spec fn record3(a: Datum, b: Datum, c: Datum) -> Datum {
    Datum::Record(seq![a, b, c])
}

/// The record value of the given fields.
pub fn record_value(fields: Vec<Value>) -> (r: Value)
    ensures
        r@ == Datum::Record(data(fields@)),
        fields@.len() == 1 ==> r@ == record1(fields@[0]@),
        fields@.len() == 2 ==> r@ == record2(fields@[0]@, fields@[1]@),
        fields@.len() == 3 ==> r@ == record3(fields@[0]@, fields@[1]@, fields@[2]@),
{
    proof {
        lemma_data(fields@);
        if fields@.len() == 1 {
            assert(data(fields@) =~= seq![fields@[0]@]);
        }
        if fields@.len() == 2 {
            assert(data(fields@) =~= seq![fields@[0]@, fields@[1]@]);
        }
        if fields@.len() == 3 {
            assert(data(fields@) =~= seq![fields@[0]@, fields@[1]@, fields@[2]@]);
        }
    }
    Value::Record(fields)
}

/// The fields of a record value of `n` fields, front first.
pub fn record_fields(v: Value, n: usize) -> (r: Option<Vec<Value>>)
    ensures
        match r {
            Some(fs) => fs@.len() == n && v@ == Datum::Record(data(fs@)),
            None => !(v@ matches Datum::Record(s) && s.len() == n),
        },
        r matches Some(fs) ==> (n == 1 ==> v@ == record1(fs@[0]@)),
        r matches Some(fs) ==> (n == 2 ==> v@ == record2(fs@[0]@, fs@[1]@)),
        r matches Some(fs) ==> (n == 3 ==> v@ == record3(fs@[0]@, fs@[1]@, fs@[2]@)),
{
    match v {
        Value::Record(fields) => {
            proof {
                lemma_data(fields@);
            }
            if fields.len() == n {
                proof {
                    if n == 1 {
                        assert(data(fields@) =~= seq![fields@[0]@]);
                    }
                    if n == 2 {
                        assert(data(fields@) =~= seq![fields@[0]@, fields@[1]@]);
                    }
                    if n == 3 {
                        assert(data(fields@) =~= seq![fields@[0]@, fields@[1]@, fields@[2]@]);
                    }
                }
                Some(fields)
            } else {
                None
            }
        },
        _ => None,
    }
}

} // verus!
