use vstd::prelude::*;
use vstd::utf8::*;
use crate::error::Error;

verus! {

/// A fixed-width number: its raw form is the number itself.
#[derive(Debug, Clone, Copy, PartialEq, Eq, Structural)]
pub enum Number {
    I8(i8),
    I16(i16),
    I32(i32),
    I64(i64),
    U8(u8),
    U16(u16),
    U32(u32),
    U64(u64),
    Isize(isize),
    Usize(usize),
}

/// Raw form of a sequence: the elements, their count and the capacity of
/// the storage that holds them.
#[derive(Debug, PartialEq)]
pub struct CMutVec<T> {
    pub ptr: Vec<T>,
    pub len: usize,
    pub capacity: usize,
}

/// Raw form of an optional value: one nullable pointer.
#[derive(Debug, PartialEq)]
pub struct CMutOption<T> {
    pub ptr: Option<Box<T>>,
}

/// Raw form of a two-outcome union: two nullable pointers, exactly one of
/// which is set.
#[derive(Debug, PartialEq)]
pub struct CMutResult<T, E> {
    pub ok: Option<Box<T>>,
    pub err: Option<Box<E>>,
}

/// Raw form of a borrowed run of numbers: the numbers and their count.
/// The callee reads it and never takes it over.
#[derive(Debug, PartialEq)]
pub struct CSlice<T> {
    pub ptr: Vec<T>,
    pub len: usize,
}

/// An owned value of the host side.
#[derive(Debug, PartialEq)]
pub enum Value {
    Number(Number),
    Bool(bool),
    Text(String),
    List(Vec<Value>),
    Optional(Option<Box<Value>>),
    Success(Box<Value>),
    Failure(Box<Value>),
    /// The fields of a record, in declaration order.
    Record(Vec<Value>),
}

/// The raw representation of a value, as it crosses the boundary.
#[derive(Debug, PartialEq)]
pub enum Raw {
    Number(Number),
    /// A boolean as a one-byte integer, non-zero meaning true.
    Bool(i8),
    /// Text as a null-terminated byte buffer.
    Text(Vec<u8>),
    List(CMutVec<Raw>),
    Optional(CMutOption<Raw>),
    Union(CMutResult<Raw, Raw>),
    Record(Vec<Raw>),
    /// A borrowed run of numbers, lent as an argument.
    Slice(CSlice<Number>),
}

/// Mathematical model of a `Value`.
pub enum Datum {
    Number(Number),
    Bool(bool),
    Text(Seq<char>),
    List(Seq<Datum>),
    Optional(Option<Box<Datum>>),
    Success(Box<Datum>),
    Failure(Box<Datum>),
    Record(Seq<Datum>),
}

/// Mathematical model of a `Raw`: its layout without the capacity, which is
/// the allocator's business.
pub enum RawDatum {
    Number(Number),
    Bool(i8),
    Text(Seq<u8>),
    List(Seq<RawDatum>),
    Optional(Option<Box<RawDatum>>),
    Union(Option<Box<RawDatum>>, Option<Box<RawDatum>>),
    Record(Seq<RawDatum>),
    Slice(Seq<Number>),
}

impl View for Value {
    type V = Datum;

    open spec fn view(&self) -> Datum {
        self.datum()
    }
}

impl Value {
    /// The model of this value.
    pub open spec fn datum(&self) -> Datum
        decreases self,
    {
        match self {
            Value::Number(n) => Datum::Number(*n),
            Value::Bool(b) => Datum::Bool(*b),
            Value::Text(s) => Datum::Text(s@),
            Value::List(v) => Datum::List(data(v@)),
            Value::Optional(o) => match o {
                Some(b) => Datum::Optional(Some(Box::new((**b).datum()))),
                None => Datum::Optional(None),
            },
            Value::Success(b) => Datum::Success(Box::new((**b).datum())),
            Value::Failure(b) => Datum::Failure(Box::new((**b).datum())),
            Value::Record(v) => Datum::Record(data(v@)),
        }
    }
}

impl View for Raw {
    type V = RawDatum;

    open spec fn view(&self) -> RawDatum {
        self.raw_datum()
    }
}

impl Raw {
    /// The model of this raw value.
    pub open spec fn raw_datum(&self) -> RawDatum
        decreases self,
    {
        match self {
            Raw::Number(n) => RawDatum::Number(*n),
            Raw::Bool(b) => RawDatum::Bool(*b),
            Raw::Text(b) => RawDatum::Text(b@),
            Raw::List(c) => RawDatum::List(raw_data(c.ptr@)),
            Raw::Optional(o) => match &o.ptr {
                Some(b) => RawDatum::Optional(Some(Box::new((**b).raw_datum()))),
                None => RawDatum::Optional(None),
            },
            Raw::Union(u) => RawDatum::Union(
                match &u.ok {
                    Some(b) => Some(Box::new((**b).raw_datum())),
                    None => None,
                },
                match &u.err {
                    Some(b) => Some(Box::new((**b).raw_datum())),
                    None => None,
                },
            ),
            Raw::Record(v) => RawDatum::Record(raw_data(v@)),
            Raw::Slice(c) => RawDatum::Slice(c.ptr@),
        }
    }
}

/// The models of a sequence of values.
pub open spec fn data(s: Seq<Value>) -> Seq<Datum>
    decreases s,
{
    if s.len() == 0 {
        Seq::empty()
    } else {
        data(s.subrange(0, s.len() - 1)).push(s[s.len() - 1].datum())
    }
}

/// The models of a sequence of raw values.
pub open spec fn raw_data(s: Seq<Raw>) -> Seq<RawDatum>
    decreases s,
{
    if s.len() == 0 {
        Seq::empty()
    } else {
        raw_data(s.subrange(0, s.len() - 1)).push(s[s.len() - 1].raw_datum())
    }
}

/// Element by element, `data` takes the model of each value.
pub proof fn lemma_data(s: Seq<Value>)
    ensures
        data(s).len() == s.len(),
        forall|i: int| 0 <= i < s.len() ==> #[trigger] data(s)[i] == s[i]@,
    decreases s.len(),
{
    if s.len() > 0 {
        let p = s.subrange(0, s.len() - 1);
        lemma_data(p);
        assert forall|i: int| 0 <= i < s.len() implies #[trigger] data(s)[i] == s[i]@ by {
            if i < s.len() - 1 {
                assert(p[i] == s[i]);
            }
        }
    }
}

/// Element by element, `raw_data` takes the model of each raw value.
pub proof fn lemma_raw_data(s: Seq<Raw>)
    ensures
        raw_data(s).len() == s.len(),
        forall|i: int| 0 <= i < s.len() ==> #[trigger] raw_data(s)[i] == s[i]@,
    decreases s.len(),
{
    if s.len() > 0 {
        let p = s.subrange(0, s.len() - 1);
        lemma_raw_data(p);
        assert forall|i: int| 0 <= i < s.len() implies #[trigger] raw_data(s)[i] == s[i]@ by {
            if i < s.len() - 1 {
                assert(p[i] == s[i]);
            }
        }
    }
}

/// No byte of `b` is zero.
pub open spec fn nul_free(b: Seq<u8>) -> bool {
    forall|i: int| 0 <= i < b.len() ==> b[i] != 0
}

/// `b` is a null-terminated buffer: one zero byte, at its end.
pub open spec fn terminated(b: Seq<u8>) -> bool {
    b.len() > 0 && b.last() == 0 && nul_free(b.drop_last())
}

impl RawDatum {
    /// The invariants of the raw layout: text is null-terminated and
    /// exactly one pointer of a union is set.
    pub open spec fn wf(self) -> bool
        decreases self,
    {
        match self {
            RawDatum::Text(b) => terminated(b),
            RawDatum::List(s) => forall|i: int| 0 <= i < s.len() ==> (#[trigger] s[i]).wf(),
            RawDatum::Optional(o) => match o {
                Some(b) => (*b).wf(),
                None => true,
            },
            RawDatum::Union(ok, err) => match (ok, err) {
                (Some(b), None) => (*b).wf(),
                (None, Some(b)) => (*b).wf(),
                _ => false,
            },
            RawDatum::Record(s) => forall|i: int| 0 <= i < s.len() ==> (#[trigger] s[i]).wf(),
            _ => true,
        }
    }
}

impl Raw {
    /// Every sequence records its own length, and a capacity no smaller.
    pub open spec fn shape(&self) -> bool
        decreases self,
    {
        match self {
            Raw::List(c) => c.len == c.ptr@.len() && c.capacity >= c.len && forall|i: int|
                0 <= i < c.ptr@.len() ==> (#[trigger] c.ptr@[i]).shape(),
            Raw::Optional(o) => match &o.ptr {
                Some(b) => (**b).shape(),
                None => true,
            },
            Raw::Union(u) => (match &u.ok {
                Some(b) => (**b).shape(),
                None => true,
            }) && (match &u.err {
                Some(b) => (**b).shape(),
                None => true,
            }),
            Raw::Record(v) => forall|i: int| 0 <= i < v@.len() ==> (#[trigger] v@[i]).shape(),
            Raw::Slice(c) => c.len == c.ptr@.len(),
            _ => true,
        }
    }

    /// A raw value that the conversions back to a `Value` accept.
    pub open spec fn wf(&self) -> bool {
        self.shape() && self@.wf()
    }
}

/// The raw form of a value, or the first failure met on the way, fields and
/// elements taken in order.
pub open spec fn encode(d: Datum) -> Result<RawDatum, Error>
    decreases d,
{
    match d {
        Datum::Number(n) => Ok(RawDatum::Number(n)),
        Datum::Bool(b) => Ok(RawDatum::Bool(if b { 1 } else { 0 })),
        Datum::Text(s) => if nul_free(encode_utf8(s)) {
            Ok(RawDatum::Text(encode_utf8(s).push(0)))
        } else {
            Err(Error::NulError)
        },
        Datum::List(s) => match encode_all(s) {
            Ok(rs) => Ok(RawDatum::List(rs)),
            Err(e) => Err(e),
        },
        Datum::Optional(o) => match o {
            Some(b) => match encode(*b) {
                Ok(r) => Ok(RawDatum::Optional(Some(Box::new(r)))),
                Err(e) => Err(e),
            },
            None => Ok(RawDatum::Optional(None)),
        },
        Datum::Success(b) => match encode(*b) {
            Ok(r) => Ok(RawDatum::Union(Some(Box::new(r)), None)),
            Err(e) => Err(e),
        },
        Datum::Failure(b) => match encode(*b) {
            Ok(r) => Ok(RawDatum::Union(None, Some(Box::new(r)))),
            Err(e) => Err(e),
        },
        Datum::Record(s) => match encode_all(s) {
            Ok(rs) => Ok(RawDatum::Record(rs)),
            Err(e) => Err(e),
        },
    }
}

/// The raw forms of a sequence of values, or the first failure among them.
pub open spec fn encode_all(s: Seq<Datum>) -> Result<Seq<RawDatum>, Error>
    decreases s,
{
    if s.len() == 0 {
        Ok(Seq::empty())
    } else {
        match encode_all(s.subrange(0, s.len() - 1)) {
            Ok(rs) => match encode(s[s.len() - 1]) {
                Ok(r) => Ok(rs.push(r)),
                Err(e) => Err(e),
            },
            Err(e) => Err(e),
        }
    }
}

/// The error for a buffer that is not UTF-8: one kind when the buffer is
/// reclaimed, another when it is only inspected.
pub open spec fn text_error(owned: bool) -> Error {
    if owned {
        Error::IntoStringError
    } else {
        Error::Utf8Error
    }
}

/// The value that a well-formed raw form stands for, or the first failure
/// met on the way.
pub open spec fn decode(r: RawDatum, owned: bool) -> Result<Datum, Error>
    decreases r,
{
    match r {
        RawDatum::Number(n) => Ok(Datum::Number(n)),
        RawDatum::Bool(b) => Ok(Datum::Bool(b != 0)),
        RawDatum::Text(b) => if valid_utf8(b.drop_last()) {
            Ok(Datum::Text(decode_utf8(b.drop_last())))
        } else {
            Err(text_error(owned))
        },
        RawDatum::List(s) => match decode_all(s, owned) {
            Ok(ds) => Ok(Datum::List(ds)),
            Err(e) => Err(e),
        },
        RawDatum::Optional(o) => match o {
            Some(b) => match decode(*b, owned) {
                Ok(d) => Ok(Datum::Optional(Some(Box::new(d)))),
                Err(e) => Err(e),
            },
            None => Ok(Datum::Optional(None)),
        },
        RawDatum::Union(ok, err) => match ok {
            Some(b) => match decode(*b, owned) {
                Ok(d) => Ok(Datum::Success(Box::new(d))),
                Err(e) => Err(e),
            },
            None => match err {
                Some(b) => match decode(*b, owned) {
                    Ok(d) => Ok(Datum::Failure(Box::new(d))),
                    Err(e) => Err(e),
                },
                None => arbitrary(),
            },
        },
        RawDatum::Record(s) => match decode_all(s, owned) {
            Ok(ds) => Ok(Datum::Record(ds)),
            Err(e) => Err(e),
        },
        RawDatum::Slice(ns) => Ok(Datum::List(numbers(ns))),
    }
}

/// The values of a run of numbers.
pub open spec fn numbers(ns: Seq<Number>) -> Seq<Datum> {
    ns.map_values(|n: Number| Datum::Number(n))
}

/// The values that a sequence of raw forms stands for, or the first failure.
pub open spec fn decode_all(s: Seq<RawDatum>, owned: bool) -> Result<Seq<Datum>, Error>
    decreases s,
{
    if s.len() == 0 {
        Ok(Seq::empty())
    } else {
        match decode_all(s.subrange(0, s.len() - 1), owned) {
            Ok(ds) => match decode(s[s.len() - 1], owned) {
                Ok(d) => Ok(ds.push(d)),
                Err(e) => Err(e),
            },
            Err(e) => Err(e),
        }
    }
}

/// A failure of one element, after a prefix that converts, is the failure
/// of the whole sequence.
proof fn lemma_encode_all_stops(s: Seq<Datum>, i: int, e: Error)
    requires
        0 <= i < s.len(),
        encode_all(s.subrange(0, i)) is Ok,
        encode(s[i]) == Err::<RawDatum, Error>(e),
    ensures
        encode_all(s) == Err::<Seq<RawDatum>, Error>(e),
    decreases s.len(),
{
    if i == s.len() - 1 {
        assert(s.subrange(0, s.len() - 1) =~= s.subrange(0, i));
    } else {
        let p = s.subrange(0, s.len() - 1);
        assert(p.subrange(0, i) =~= s.subrange(0, i));
        lemma_encode_all_stops(p, i, e);
    }
}

/// The decoding counterpart of `lemma_encode_all_stops`.
proof fn lemma_decode_all_stops(s: Seq<RawDatum>, owned: bool, i: int, e: Error)
    requires
        0 <= i < s.len(),
        decode_all(s.subrange(0, i), owned) is Ok,
        decode(s[i], owned) == Err::<Datum, Error>(e),
    ensures
        decode_all(s, owned) == Err::<Seq<Datum>, Error>(e),
    decreases s.len(),
{
    if i == s.len() - 1 {
        assert(s.subrange(0, s.len() - 1) =~= s.subrange(0, i));
    } else {
        let p = s.subrange(0, s.len() - 1);
        assert(p.subrange(0, i) =~= s.subrange(0, i));
        lemma_decode_all_stops(p, owned, i, e);
    }
}

/// Round trip: a value whose raw form can be built is given back, equal,
/// by the conversion from that raw form, whether it reclaims the raw form
/// or only inspects it; and that raw form is well formed.
pub proof fn lemma_round_trip(d: Datum, owned: bool)
    requires
        encode(d) is Ok,
    ensures
        encode(d)->Ok_0.wf(),
        decode(encode(d)->Ok_0, owned) == Ok::<Datum, Error>(d),
    decreases d,
{
    match d {
        Datum::Text(s) => {
            encode_utf8_valid_utf8(s);
            encode_utf8_decode_utf8(s);
            assert(encode_utf8(s).push(0).drop_last() =~= encode_utf8(s));
        },
        Datum::List(s) => lemma_round_trip_all(s, owned),
        Datum::Optional(o) => match o {
            Some(b) => lemma_round_trip(*b, owned),
            None => {},
        },
        Datum::Success(b) => lemma_round_trip(*b, owned),
        Datum::Failure(b) => lemma_round_trip(*b, owned),
        Datum::Record(s) => lemma_round_trip_all(s, owned),
        _ => {},
    }
}

/// Round trip of a sequence: the raw forms keep the count and the order of
/// the elements, the empty sequence included, and convert back to them.
pub proof fn lemma_round_trip_all(s: Seq<Datum>, owned: bool)
    requires
        encode_all(s) is Ok,
    ensures
        encode_all(s)->Ok_0.len() == s.len(),
        forall|i: int| 0 <= i < s.len() ==> (#[trigger] encode_all(s)->Ok_0[i]).wf(),
        forall|i: int| 0 <= i < s.len() ==> encode(s[i]) == Ok::<RawDatum, Error>(
            #[trigger] encode_all(s)->Ok_0[i],
        ),
        decode_all(encode_all(s)->Ok_0, owned) == Ok::<Seq<Datum>, Error>(s),
    decreases s,
{
    if s.len() > 0 {
        let p = s.subrange(0, s.len() - 1);
        lemma_round_trip_all(p, owned);
        lemma_round_trip(s[s.len() - 1], owned);
        let last = s[s.len() - 1];
        let rs = encode_all(s)->Ok_0;
        assert(rs == encode_all(p)->Ok_0.push(encode(last)->Ok_0));
        assert(rs.subrange(0, rs.len() - 1) =~= encode_all(p)->Ok_0);
        assert(rs[rs.len() - 1] == encode(last)->Ok_0);
        assert(decode(rs[rs.len() - 1], owned) == Ok::<Datum, Error>(last));
        assert(p.push(last) =~= s);
        assert forall|i: int| 0 <= i < s.len() implies encode(s[i]) == Ok::<RawDatum, Error>(
            #[trigger] encode_all(s)->Ok_0[i],
        ) by {
            if i < s.len() - 1 {
                assert(p[i] == s[i]);
            }
        }
    } else {
        assert(s =~= Seq::<Datum>::empty());
    }
}

/// A two-outcome union built from the success path sets `ok` alone, one
/// built from the failure path sets `err` alone.
pub proof fn lemma_union_outcomes(d: Datum)
    requires
        encode(d) is Ok,
    ensures
        encode(Datum::Success(Box::new(d))) == Ok::<RawDatum, Error>(
            RawDatum::Union(Some(Box::new(encode(d)->Ok_0)), None),
        ),
        encode(Datum::Failure(Box::new(d))) == Ok::<RawDatum, Error>(
            RawDatum::Union(None, Some(Box::new(encode(d)->Ok_0))),
        ),
{
}

/// Inspecting a well-formed raw form through a reference yields what
/// reclaiming it yields; the two differ only in the kind of error reported.
pub proof fn lemma_inspect_agrees(r: RawDatum)
    requires
        r.wf(),
    ensures
        decode(r, false) is Ok ==> decode(r, true) == decode(r, false),
        decode(r, false) is Err ==> decode(r, false) == Err::<Datum, Error>(Error::Utf8Error)
            && decode(r, true) == Err::<Datum, Error>(Error::IntoStringError),
    decreases r,
{
    match r {
        RawDatum::List(s) => lemma_inspect_agrees_all(s),
        RawDatum::Optional(o) => match o {
            Some(b) => lemma_inspect_agrees(*b),
            None => {},
        },
        RawDatum::Union(ok, err) => {
            match ok {
                Some(b) => lemma_inspect_agrees(*b),
                None => match err {
                    Some(b) => lemma_inspect_agrees(*b),
                    None => {},
                },
            }
        },
        RawDatum::Record(s) => lemma_inspect_agrees_all(s),
        _ => {},
    }
}

/// `lemma_inspect_agrees` for a sequence of raw forms.
pub proof fn lemma_inspect_agrees_all(s: Seq<RawDatum>)
    requires
        forall|i: int| 0 <= i < s.len() ==> (#[trigger] s[i]).wf(),
    ensures
        decode_all(s, false) is Ok ==> decode_all(s, true) == decode_all(s, false),
        decode_all(s, false) is Err ==> decode_all(s, false) == Err::<Seq<Datum>, Error>(
            Error::Utf8Error,
        ) && decode_all(s, true) == Err::<Seq<Datum>, Error>(Error::IntoStringError),
    decreases s,
{
    if s.len() > 0 {
        let p = s.subrange(0, s.len() - 1);
        assert forall|i: int| 0 <= i < p.len() implies (#[trigger] p[i]).wf() by {
            assert(p[i] == s[i]);
        }
        lemma_inspect_agrees_all(p);
        lemma_inspect_agrees(s[s.len() - 1]);
    }
}

/// `r` is the outcome that `e` describes: a well-formed raw value with that
/// model, or that error.
pub open spec fn encoded_as(r: Result<Raw, Error>, e: Result<RawDatum, Error>) -> bool {
    match r {
        Ok(raw) => raw.wf() && e == Ok::<RawDatum, Error>(raw@),
        Err(x) => e == Err::<RawDatum, Error>(x),
    }
}

/// `r` is the outcome that `d` describes: a value with that model, or that
/// error.
pub open spec fn decoded_as(r: Result<Value, Error>, d: Result<Datum, Error>) -> bool {
    match r {
        Ok(v) => d == Ok::<Datum, Error>(v@),
        Err(x) => d == Err::<Datum, Error>(x),
    }
}

/// Relies on `Vec::capacity`: never less than the length.
#[verifier::external_body]
fn capacity_of(v: &Vec<Raw>) -> (r: usize)
    ensures
        r >= v@.len(),
{
    v.capacity()
}

/// Relies on `String::from_utf8`: it accepts exactly the UTF-8 buffers and
/// keeps their bytes as the text.
#[verifier::external_body]
pub(crate) fn string_from_utf8(bytes: Vec<u8>) -> (r: Option<String>)
    ensures
        r is Some <==> valid_utf8(bytes@),
        r matches Some(s) ==> encode_utf8(s@) == bytes@,
{
    String::from_utf8(bytes).ok()
}

/// The null-terminated buffer of a text, refused when the text holds a
/// zero byte.
fn text_raw(s: &String) -> (r: Result<Vec<u8>, Error>)
    ensures
        match r {
            Ok(b) => nul_free(encode_utf8(s@)) && b@ == encode_utf8(s@).push(0),
            Err(e) => !nul_free(encode_utf8(s@)) && e == Error::NulError,
        },
{
    let bytes = s.as_str().as_bytes();
    let mut out: Vec<u8> = Vec::new();
    let mut i: usize = 0;
    while i < bytes.len()
        invariant
            i <= bytes@.len(),
            bytes@ == encode_utf8(s@),
            out@ == bytes@.subrange(0, i as int),
            nul_free(out@),
        decreases bytes@.len() - i,
    {
        if bytes[i] == 0 {
            proof {
                assert(bytes@[i as int] == 0);
            }
            return Err(Error::NulError);
        }
        out.push(bytes[i]);
        i += 1;
    }
    proof {
        assert(out@ =~= bytes@);
    }
    out.push(0);
    Ok(out)
}

/// The text held by a null-terminated buffer, which is copied.
fn text_value(b: &Vec<u8>, owned: bool) -> (r: Result<String, Error>)
    requires
        terminated(b@),
    ensures
        match r {
            Ok(s) => valid_utf8(b@.drop_last()) && s@ == decode_utf8(b@.drop_last()),
            Err(e) => !valid_utf8(b@.drop_last()) && e == text_error(owned),
        },
{
    let mut body: Vec<u8> = Vec::new();
    let n = b.len() - 1;
    let mut i: usize = 0;
    while i < n
        invariant
            n == b@.len() - 1,
            i <= n,
            body@ == b@.subrange(0, i as int),
        decreases b@.len() - i,
    {
        body.push(b[i]);
        i += 1;
    }
    proof {
        assert(body@ =~= b@.drop_last());
    }
    match string_from_utf8(body) {
        Some(s) => {
            proof {
                encode_utf8_decode_utf8(s@);
            }
            Ok(s)
        },
        None => if owned {
            Err(Error::IntoStringError)
        } else {
            Err(Error::Utf8Error)
        },
    }
}

fn raw_of(v: &Value) -> (r: Result<Raw, Error>)
    ensures
        encoded_as(r, encode(v@)),
    decreases v,
{
    match v {
        Value::Number(n) => Ok(Raw::Number(*n)),
        Value::Bool(b) => Ok(Raw::Bool(if *b { 1 } else { 0 })),
        Value::Text(s) => match text_raw(s) {
            Ok(b) => {
                proof {
                    assert(b@.drop_last() =~= encode_utf8(s@));
                }
                Ok(Raw::Text(b))
            },
            Err(e) => Err(e),
        },
        Value::List(vs) => {
            match raw_of_all(vs) {
                Ok(rs) => {
                    let len = rs.len();
                    let capacity = capacity_of(&rs);
                    proof {
                        lemma_raw_data(rs@);
                    }
                    Ok(Raw::List(CMutVec { ptr: rs, len, capacity }))
                },
                Err(e) => Err(e),
            }
        },
        Value::Optional(o) => match o {
            Some(b) => match raw_of(b) {
                Ok(r) => Ok(Raw::Optional(CMutOption { ptr: Some(Box::new(r)) })),
                Err(e) => Err(e),
            },
            None => Ok(Raw::Optional(CMutOption { ptr: None })),
        },
        Value::Success(b) => match raw_of(b) {
            Ok(r) => Ok(Raw::Union(CMutResult { ok: Some(Box::new(r)), err: None })),
            Err(e) => Err(e),
        },
        Value::Failure(b) => match raw_of(b) {
            Ok(r) => Ok(Raw::Union(CMutResult { ok: None, err: Some(Box::new(r)) })),
            Err(e) => Err(e),
        },
        Value::Record(vs) => {
            match raw_of_all(vs) {
                Ok(rs) => {
                    proof {
                        lemma_raw_data(rs@);
                    }
                    Ok(Raw::Record(rs))
                },
                Err(e) => Err(e),
            }
        },
    }
}

fn raw_of_all(vs: &Vec<Value>) -> (r: Result<Vec<Raw>, Error>)
    ensures
        match r {
            Ok(rs) => (forall|k: int| 0 <= k < rs@.len() ==> (#[trigger] rs@[k]).wf())
                && encode_all(data(vs@)) == Ok::<Seq<RawDatum>, Error>(raw_data(rs@)),
            Err(e) => encode_all(data(vs@)) == Err::<Seq<RawDatum>, Error>(e),
        },
    decreases vs,
{
    let ghost ds = data(vs@);
    let mut out: Vec<Raw> = Vec::new();
    let mut i: usize = 0;
    proof {
        lemma_data(vs@);
        assert(ds.subrange(0, 0) =~= Seq::<Datum>::empty());
        assert(raw_data(out@) =~= Seq::<RawDatum>::empty());
    }
    while i < vs.len()
        invariant
            i <= vs@.len(),
            ds == data(vs@),
            ds.len() == vs@.len(),
            forall|k: int| 0 <= k < vs@.len() ==> #[trigger] ds[k] == vs@[k]@,
            out@.len() == i,
            forall|k: int| 0 <= k < out@.len() ==> (#[trigger] out@[k]).wf(),
            encode_all(ds.subrange(0, i as int)) == Ok::<Seq<RawDatum>, Error>(raw_data(out@)),
        decreases vs@.len() - i,
    {
        proof {
            assert(decreases_to!(vs => vs[i as int]));
        }
        match raw_of(&vs[i]) {
            Ok(r) => {
                proof {
                    let next = ds.subrange(0, i + 1);
                    assert(next.subrange(0, i as int) =~= ds.subrange(0, i as int));
                    assert(next[i as int] == ds[i as int]);
                    assert(out@.push(r).subrange(0, i as int) =~= out@);
                }
                out.push(r);
            },
            Err(e) => {
                proof {
                    lemma_encode_all_stops(ds, i as int, e);
                }
                return Err(e);
            },
        }
        i += 1;
    }
    proof {
        assert(ds.subrange(0, i as int) =~= ds);
    }
    Ok(out)
}

fn value_of(r: &Raw, owned: bool) -> (v: Result<Value, Error>)
    requires
        r.wf(),
    ensures
        decoded_as(v, decode(r@, owned)),
    decreases r,
{
    match r {
        Raw::Number(n) => Ok(Value::Number(*n)),
        Raw::Bool(b) => Ok(Value::Bool(*b != 0)),
        Raw::Text(b) => match text_value(b, owned) {
            Ok(s) => Ok(Value::Text(s)),
            Err(e) => Err(e),
        },
        Raw::List(c) => {
            proof {
                lemma_raw_data(c.ptr@);
                assert forall|k: int| 0 <= k < c.ptr@.len() implies (#[trigger] c.ptr@[k]).wf() by {
                    assert(raw_data(c.ptr@)[k] == c.ptr@[k]@);
                }
            }
            match values_of_all(&c.ptr, owned) {
                Ok(vs) => {
                    Ok(Value::List(vs))
                },
                Err(e) => Err(e),
            }
        },
        Raw::Optional(o) => match &o.ptr {
            Some(b) => match value_of(b, owned) {
                Ok(v) => Ok(Value::Optional(Some(Box::new(v)))),
                Err(e) => Err(e),
            },
            None => Ok(Value::Optional(None)),
        },
        Raw::Union(u) => match &u.ok {
            Some(b) => match value_of(b, owned) {
                Ok(v) => Ok(Value::Success(Box::new(v))),
                Err(e) => Err(e),
            },
            None => match &u.err {
                Some(b) => match value_of(b, owned) {
                    Ok(v) => Ok(Value::Failure(Box::new(v))),
                    Err(e) => Err(e),
                },
                None => {
                    proof {
                        assert(false);
                    }
                    Err(Error::Utf8Error)
                },
            },
        },
        Raw::Record(rs) => {
            proof {
                lemma_raw_data(rs@);
                assert forall|k: int| 0 <= k < rs@.len() implies (#[trigger] rs@[k]).wf() by {
                    assert(raw_data(rs@)[k] == rs@[k]@);
                }
            }
            match values_of_all(rs, owned) {
                Ok(vs) => {
                    Ok(Value::Record(vs))
                },
                Err(e) => Err(e),
            }
        },
        Raw::Slice(c) => Ok(Value::List(slice_values(&c.ptr))),
    }
}

pub(crate) fn values_of_all(rs: &Vec<Raw>, owned: bool) -> (r: Result<Vec<Value>, Error>)
    requires
        forall|k: int| 0 <= k < rs@.len() ==> (#[trigger] rs@[k]).wf(),
    ensures
        match r {
            Ok(vs) => decode_all(raw_data(rs@), owned) == Ok::<Seq<Datum>, Error>(data(vs@)),
            Err(e) => decode_all(raw_data(rs@), owned) == Err::<Seq<Datum>, Error>(e),
        },
    decreases rs,
{
    let ghost ds = raw_data(rs@);
    let mut out: Vec<Value> = Vec::new();
    let mut i: usize = 0;
    proof {
        lemma_raw_data(rs@);
        assert(ds.subrange(0, 0) =~= Seq::<RawDatum>::empty());
        assert(data(out@) =~= Seq::<Datum>::empty());
    }
    while i < rs.len()
        invariant
            i <= rs@.len(),
            ds == raw_data(rs@),
            ds.len() == rs@.len(),
            forall|k: int| 0 <= k < rs@.len() ==> #[trigger] ds[k] == rs@[k]@,
            out@.len() == i,
            forall|k: int| 0 <= k < rs@.len() ==> (#[trigger] rs@[k]).wf(),
            decode_all(ds.subrange(0, i as int), owned) == Ok::<Seq<Datum>, Error>(data(out@)),
        decreases rs@.len() - i,
    {
        proof {
            assert(decreases_to!(rs => rs[i as int]));
        }
        match value_of(&rs[i], owned) {
            Ok(v) => {
                proof {
                    let next = ds.subrange(0, i + 1);
                    assert(next.subrange(0, i as int) =~= ds.subrange(0, i as int));
                    assert(next[i as int] == ds[i as int]);
                    assert(out@.push(v).subrange(0, i as int) =~= out@);
                }
                out.push(v);
            },
            Err(e) => {
                proof {
                    lemma_decode_all_stops(ds, owned, i as int, e);
                }
                return Err(e);
            },
        }
        i += 1;
    }
    proof {
        assert(ds.subrange(0, i as int) =~= ds);
    }
    Ok(out)
}

/// Moves a value into a heap slot of its raw form: the pointer form used
/// for values returned across the boundary.
pub fn box_into_ptr(value: Value) -> (r: Result<Box<Raw>, Error>)
    ensures
        match r {
            Ok(b) => (*b).wf() && encode(value@) == Ok::<RawDatum, Error>((*b)@),
            Err(e) => encode(value@) == Err::<RawDatum, Error>(e),
        },
{
    match raw_of(&value) {
        Ok(raw) => Ok(Box::new(raw)),
        Err(e) => Err(e),
    }
}

/// Takes back the value held in a heap slot of its raw form, releasing the
/// slot.
pub fn box_from_ptr(raw: Box<Raw>) -> (r: Result<Value, Error>)
    requires
        (*raw).wf(),
    ensures
        decoded_as(r, decode((*raw)@, true)),
{
    value_from_raw(*raw)
}

impl Value {
    /// Gives up the value for its raw form. A raw form so obtained is to be
    /// reclaimed by `from_raw` or `from_ptr`, and by nothing else.
    pub fn into_raw(self) -> (r: Result<Raw, Error>)
        ensures
            encoded_as(r, encode(self@)),
    {
        raw_of(&self)
    }

    /// Gives up the value for a pointer to its raw form.
    pub fn into_ptr(self) -> (r: Result<Box<Raw>, Error>)
        ensures
            match r {
                Ok(b) => (*b).wf() && encode(self@) == Ok::<RawDatum, Error>((*b)@),
                Err(e) => encode(self@) == Err::<RawDatum, Error>(e),
            },
    {
        box_into_ptr(self)
    }

    /// Takes ownership of a raw form and rebuilds the value it stands for.
    pub fn from_raw(raw: Raw) -> (r: Result<Value, Error>)
        requires
            raw.wf(),
        ensures
            decoded_as(r, decode(raw@, true)),
    {
        value_from_raw(raw)
    }

    /// Takes ownership of a pointer to a raw form and rebuilds the value.
    pub fn from_ptr(ptr: Box<Raw>) -> (r: Result<Value, Error>)
        requires
            (*ptr).wf(),
        ensures
            decoded_as(r, decode((*ptr)@, true)),
    {
        box_from_ptr(ptr)
    }

    /// Builds an owned copy of the value that a raw form stands for,
    /// leaving the raw form as it was.
    pub fn raw_as_ref(raw: &Raw) -> (r: Result<Value, Error>)
        requires
            raw.wf(),
        ensures
            decoded_as(r, decode(raw@, false)),
    {
        value_of(raw, false)
    }

    /// `raw_as_ref`, starting from a pointer.
    pub fn ptr_as_ref(ptr: &Box<Raw>) -> (r: Result<Value, Error>)
        requires
            (**ptr).wf(),
        ensures
            decoded_as(r, decode((**ptr)@, false)),
    {
        value_of(&**ptr, false)
    }
}

impl Raw {
    /// Whether this raw value keeps the invariants of the raw layout, so
    /// that it can be converted back.
    pub fn is_well_formed(&self) -> (r: bool)
        ensures
            r == self.wf(),
        decreases self,
    {
        match self {
            Raw::Text(b) => {
                proof {
                    assert(self@ == RawDatum::Text(b@));
                    assert(self.wf() == terminated(b@));
                }
                if b.len() == 0 || b[b.len() - 1] != 0 {
                    return false;
                }
                let n = b.len() - 1;
                let mut i: usize = 0;
                while i < n
                    invariant
                        n == b@.len() - 1,
                        i <= n,
                        self.wf() == terminated(b@),
                        b@.len() > 0,
                        b@.last() == 0,
                        forall|k: int| 0 <= k < i ==> b@[k] != 0,
                    decreases n - i,
                {
                    if b[i] == 0 {
                        proof {
                            assert(b@.drop_last()[i as int] == 0);
                            assert(!terminated(b@));
                        }
                        return false;
                    }
                    i += 1;
                }
                proof {
                    assert(nul_free(b@.drop_last()));
                    assert(terminated(b@));
                }
                true
            },
            Raw::List(c) => {
                proof {
                    lemma_raw_data(c.ptr@);
                }
                if c.len != c.ptr.len() || c.capacity < c.len {
                    return false;
                }
                let r = all_well_formed(&c.ptr);
                proof {
                    lemma_elements_wf(c.ptr@, r);
                    assert(self@ == RawDatum::List(raw_data(c.ptr@)));
                }
                r
            },
            Raw::Optional(o) => match &o.ptr {
                Some(b) => b.is_well_formed(),
                None => true,
            },
            Raw::Union(u) => match (&u.ok, &u.err) {
                (Some(b), None) => b.is_well_formed(),
                (None, Some(b)) => b.is_well_formed(),
                _ => false,
            },
            Raw::Record(rs) => {
                proof {
                    lemma_raw_data(rs@);
                }
                let r = all_well_formed(rs);
                proof {
                    lemma_elements_wf(rs@, r);
                    assert(self@ == RawDatum::Record(raw_data(rs@)));
                }
                r
            },
            Raw::Slice(c) => c.len == c.ptr.len(),
            _ => true,
        }
    }
}

/// The elements of a well-formed sequence or record are well formed.
proof fn lemma_wf_elements(d: RawDatum)
    requires
        d.wf(),
    ensures
        d is List ==> forall|k: int| 0 <= k < d->List_0.len() ==> (#[trigger] d->List_0[k]).wf(),
        d is Record ==> forall|k: int| 0 <= k < d->Record_0.len() ==> (#[trigger] d->Record_0[k]).wf(),
{
}

/// Element by element, a sequence of raw values is well formed exactly
/// when its elements keep their shape and their models are well formed.
proof fn lemma_elements_wf(rs: Seq<Raw>, r: bool)
    requires
        r == forall|k: int| 0 <= k < rs.len() ==> (#[trigger] rs[k]).wf(),
    ensures
        r ==> (forall|k: int| 0 <= k < rs.len() ==> (#[trigger] rs[k]).shape()) && RawDatum::List(
            raw_data(rs),
        ).wf() && RawDatum::Record(raw_data(rs)).wf(),
        !r ==> !((forall|k: int| 0 <= k < rs.len() ==> (#[trigger] rs[k]).shape()) && RawDatum::List(
            raw_data(rs),
        ).wf()),
        !r ==> !((forall|k: int| 0 <= k < rs.len() ==> (#[trigger] rs[k]).shape()) && RawDatum::Record(
            raw_data(rs),
        ).wf()),
{
    lemma_raw_data(rs);
    let s = raw_data(rs);
    if r {
        assert forall|k: int| 0 <= k < s.len() implies (#[trigger] s[k]).wf() by {
            assert(rs[k].wf());
        }
    } else {
        if (forall|k: int| 0 <= k < rs.len() ==> (#[trigger] rs[k]).shape()) && RawDatum::List(s).wf() {
            lemma_wf_elements(RawDatum::List(s));
            assert(RawDatum::List(s)->List_0 == s);
            assert forall|k: int| 0 <= k < rs.len() implies (#[trigger] rs[k]).wf() by {
                assert(rs[k].shape());
                assert(s[k].wf());
            }
        }
        if (forall|k: int| 0 <= k < rs.len() ==> (#[trigger] rs[k]).shape()) && RawDatum::Record(s).wf() {
            lemma_wf_elements(RawDatum::Record(s));
            assert(RawDatum::Record(s)->Record_0 == s);
            assert forall|k: int| 0 <= k < rs.len() implies (#[trigger] rs[k]).wf() by {
                assert(rs[k].shape());
                assert(s[k].wf());
            }
        }
    }
}

/// Whether every raw value of `rs` is well formed.
fn all_well_formed(rs: &Vec<Raw>) -> (r: bool)
    ensures
        r == forall|k: int| 0 <= k < rs@.len() ==> (#[trigger] rs@[k]).wf(),
    decreases rs,
{
    let mut i: usize = 0;
    while i < rs.len()
        invariant
            i <= rs@.len(),
            forall|k: int| 0 <= k < i ==> (#[trigger] rs@[k]).wf(),
        decreases rs@.len() - i,
    {
        proof {
            assert(decreases_to!(rs => rs[i as int]));
        }
        if !rs[i].is_well_formed() {
            return false;
        }
        i += 1;
    }
    true
}

/// Rebuilds the value that a well-formed raw form stands for, taking the
/// raw form apart: each text buffer, without its terminator, becomes the
/// text itself.
fn value_from_raw(raw: Raw) -> (v: Result<Value, Error>)
    requires
        raw.wf(),
    ensures
        decoded_as(v, decode(raw@, true)),
    decreases raw,
{
    let ghost whole = raw;
    match raw {
        Raw::Number(n) => Ok(Value::Number(n)),
        Raw::Bool(b) => Ok(Value::Bool(b != 0)),
        Raw::Text(b) => {
            let mut b = b;
            let ghost bytes = b@;
            b.pop();
            proof {
                assert(whole@ == RawDatum::Text(bytes));
                assert(b@ =~= bytes.drop_last());
            }
            match string_from_utf8(b) {
                Some(s) => {
                    proof {
                        encode_utf8_decode_utf8(s@);
                    }
                    Ok(Value::Text(s))
                },
                None => Err(Error::IntoStringError),
            }
        },
        Raw::List(c) => {
            proof {
                lemma_raw_data(c.ptr@);
                assert forall|k: int| 0 <= k < c.ptr@.len() implies (#[trigger] c.ptr@[k]).wf() by {
                    assert(raw_data(c.ptr@)[k] == c.ptr@[k]@);
                }
            }
            match values_from_raws(c.ptr) {
                Ok(vs) => Ok(Value::List(vs)),
                Err(e) => Err(e),
            }
        },
        Raw::Optional(o) => match o.ptr {
            Some(b) => match value_from_raw(*b) {
                Ok(v) => Ok(Value::Optional(Some(Box::new(v)))),
                Err(e) => Err(e),
            },
            None => Ok(Value::Optional(None)),
        },
        Raw::Union(u) => match u.ok {
            Some(b) => match value_from_raw(*b) {
                Ok(v) => Ok(Value::Success(Box::new(v))),
                Err(e) => Err(e),
            },
            None => match u.err {
                Some(b) => match value_from_raw(*b) {
                    Ok(v) => Ok(Value::Failure(Box::new(v))),
                    Err(e) => Err(e),
                },
                None => {
                    proof {
                        assert(false);
                    }
                    Err(Error::IntoStringError)
                },
            },
        },
        Raw::Record(rs) => {
            proof {
                lemma_raw_data(rs@);
                assert forall|k: int| 0 <= k < rs@.len() implies (#[trigger] rs@[k]).wf() by {
                    assert(raw_data(rs@)[k] == rs@[k]@);
                }
            }
            match values_from_raws(rs) {
                Ok(vs) => Ok(Value::Record(vs)),
                Err(e) => Err(e),
            }
        },
        Raw::Slice(c) => Ok(Value::List(slice_values(&c.ptr))),
    }
}

/// `value_from_raw` of each element in order; the first failure decides.
fn values_from_raws(rs: Vec<Raw>) -> (r: Result<Vec<Value>, Error>)
    requires
        forall|k: int| 0 <= k < rs@.len() ==> (#[trigger] rs@[k]).wf(),
    ensures
        match r {
            Ok(vs) => decode_all(raw_data(rs@), true) == Ok::<Seq<Datum>, Error>(data(vs@)),
            Err(e) => decode_all(raw_data(rs@), true) == Err::<Seq<Datum>, Error>(e),
        },
    decreases rs,
{
    let ghost entry = rs;
    let ghost ds = raw_data(rs@);
    proof {
        lemma_raw_data(rs@);
    }
    let n = rs.len();
    let mut rest = rs;
    let mut rev: Vec<Raw> = Vec::new();
    while rest.len() > 0
        invariant
            entry == rs,
            n == entry@.len(),
            rest@.len() + rev@.len() == n,
            forall|k: int| 0 <= k < rest@.len() ==> rest@[k] == entry@[k],
            forall|k: int| 0 <= k < rev@.len() ==> rev@[k] == entry@[n - 1 - k],
        decreases rest@.len(),
    {
        match rest.pop() {
            Some(x) => rev.push(x),
            None => {},
        }
    }
    let mut out: Vec<Value> = Vec::new();
    let mut i: usize = 0;
    proof {
        assert(ds.subrange(0, 0) =~= Seq::<RawDatum>::empty());
        assert(data(out@) =~= Seq::<Datum>::empty());
    }
    while rev.len() > 0
        invariant
            entry == rs,
            n == entry@.len(),
            i + rev@.len() == n,
            forall|k: int| 0 <= k < rev@.len() ==> rev@[k] == entry@[n - 1 - k],
            forall|k: int| 0 <= k < entry@.len() ==> (#[trigger] entry@[k]).wf(),
            ds == raw_data(entry@),
            ds.len() == n,
            forall|k: int| 0 <= k < n ==> #[trigger] ds[k] == entry@[k]@,
            out@.len() == i,
            decode_all(ds.subrange(0, i as int), true) == Ok::<Seq<Datum>, Error>(data(out@)),
        decreases rev@.len(),
    {
        match rev.pop() {
            Some(r) => {
                proof {
                    assert(r == entry@[i as int]);
                    assert(decreases_to!(entry => entry[i as int]));
                }
                match value_from_raw(r) {
                    Ok(v) => {
                        proof {
                            let next = ds.subrange(0, i + 1);
                            assert(next.subrange(0, i as int) =~= ds.subrange(0, i as int));
                            assert(next[i as int] == ds[i as int]);
                            assert(out@.push(v).subrange(0, i as int) =~= out@);
                        }
                        out.push(v);
                    },
                    Err(e) => {
                        proof {
                            lemma_decode_all_stops(ds, true, i as int, e);
                        }
                        return Err(e);
                    },
                }
            },
            None => {},
        }
        i += 1;
    }
    proof {
        assert(ds.subrange(0, i as int) =~= ds);
    }
    Ok(out)
}

/// The values of a borrowed run of numbers, copied.
fn slice_values(ns: &Vec<Number>) -> (r: Vec<Value>)
    ensures
        data(r@) == numbers(ns@),
{
    let mut out: Vec<Value> = Vec::new();
    let mut i: usize = 0;
    while i < ns.len()
        invariant
            i <= ns@.len(),
            out@.len() == i,
            forall|k: int| 0 <= k < i ==> #[trigger] out@[k]@ == Datum::Number(ns@[k]),
        decreases ns@.len() - i,
    {
        out.push(Value::Number(ns[i]));
        i += 1;
    }
    proof {
        lemma_data(out@);
        assert(data(out@) =~= numbers(ns@));
    }
    out
}

} // verus!
