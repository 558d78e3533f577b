//! Descriptions of the types that cross the boundary: their names, their C
//! declarations and the wrapper-module text that interprets their layout.

use vstd::prelude::*;
use vstd::utf8::encode_utf8;
use crate::resolve::{appears_before, arena_wf, is_dependency_order, TypeDescription};

verus! {

/// A fixed-width number type of C.
#[derive(Debug, Clone, Copy, PartialEq, Eq, Structural)]
pub enum Primitive {
    Int8,
    Int16,
    Int32,
    Int64,
    Uint8,
    Uint16,
    Uint32,
    Uint64,
    Ssize,
    Size,
    Float,
    Double,
}

/// A type that crosses the boundary.
pub enum Ty {
    Primitive(Primitive),
    Bool,
    /// Owned text.
    Text,
    /// Borrowed text, for arguments only.
    Str,
    /// A borrowed run of numbers, for arguments only.
    Slice(Primitive),
    List(Box<Ty>),
    Optional(Box<Ty>),
    /// A two-outcome union of a success type and a failure type.
    Union(Box<Ty>, Box<Ty>),
    Record(Record),
}

/// A record type: its name and its fields in declaration order.
pub struct Record {
    pub name: String,
    pub fields: Vec<Field>,
}

pub struct Field {
    pub name: String,
    pub typ: Ty,
}

/// The prefix given to the names of the non-primitive types of one
/// generation run, so that several generated modules can live side by side.
pub struct TypePrefix {
    /// Empty, or a valid name followed by two underscores.
    pub text: String,
}

/// A prefix that is not empty and not a C identifier.
#[derive(Debug, Clone, Copy, PartialEq, Eq, Structural)]
pub struct InvalidTypePrefix {}

/// An ASCII letter (`a`-`z` are 97-122, `A`-`Z` are 65-90) or `_` (95).
pub open spec fn is_ident_start(b: u8) -> bool {
    (97 <= b <= 122) || (65 <= b <= 90) || b == 95
}

/// An ASCII letter, `_`, or a digit (`0`-`9` are 48-57).
pub open spec fn is_ident_byte(b: u8) -> bool {
    is_ident_start(b) || (48 <= b <= 57)
}

/// Empty, or an ASCII letter or underscore followed by ASCII letters,
/// digits and underscores.
pub open spec fn valid_type_prefix(b: Seq<u8>) -> bool {
    b.len() == 0 || (is_ident_start(b[0]) && forall|i: int| 1 <= i < b.len() ==> is_ident_byte(b[i]))
}

pub fn is_valid_type_prefix(string: &str) -> (r: bool)
    ensures
        r == valid_type_prefix(encode_utf8(string@)),
{
    let bytes = string.as_bytes();
    if bytes.len() == 0 {
        return true;
    }
    let first = bytes[0];
    if !((97 <= first && first <= 122) || (65 <= first && first <= 90) || first == 95) {
        return false;
    }
    let mut i: usize = 1;
    while i < bytes.len()
        invariant
            1 <= i <= bytes@.len(),
            bytes@ == encode_utf8(string@),
            is_ident_start(bytes@[0]),
            forall|k: int| 1 <= k < i ==> is_ident_byte(bytes@[k]),
        decreases bytes@.len() - i,
    {
        let b = bytes[i];
        if !((97 <= b && b <= 122) || (65 <= b && b <= 90) || (48 <= b && b <= 57) || b
            == 95) {
            return false;
        }
        i += 1;
    }
    true
}

impl TypePrefix {
    /// The prefix for a run: none without a name, else the name and two
    /// underscores; a name that is not a valid prefix is refused.
    pub fn new(name: Option<&str>) -> (r: Result<TypePrefix, InvalidTypePrefix>)
        ensures
            match name {
                None => r matches Ok(p) && p.text@.len() == 0,
                Some(n) => if valid_type_prefix(encode_utf8(n@)) {
                    r matches Ok(p) && p.text@ == n@ + "__"@
                } else {
                    r is Err
                },
            },
    {
        match name {
            None => Ok(TypePrefix { text: String::new() }),
            Some(n) => {
                if is_valid_type_prefix(n) {
                    let mut text = String::from_str(n);
                    text.append("__");
                    Ok(TypePrefix { text })
                } else {
                    Err(InvalidTypePrefix {})
                }
            },
        }
    }
}

/// A name with the run's prefix in front.
pub fn prefixed(prefix: &TypePrefix, string: &str) -> (r: String)
    ensures
        r@ == prefix.text@ + string@,
{
    let mut r = prefix.text.clone();
    r.append(string);
    r
}

pub open spec fn primitive_name(p: Primitive) -> Seq<char> {
    match p {
        Primitive::Int8 => "int8_t"@,
        Primitive::Int16 => "int16_t"@,
        Primitive::Int32 => "int32_t"@,
        Primitive::Int64 => "int64_t"@,
        Primitive::Uint8 => "uint8_t"@,
        Primitive::Uint16 => "uint16_t"@,
        Primitive::Uint32 => "uint32_t"@,
        Primitive::Uint64 => "uint64_t"@,
        Primitive::Ssize => "ssize_t"@,
        Primitive::Size => "size_t"@,
        Primitive::Float => "float"@,
        Primitive::Double => "double"@,
    }
}

impl Primitive {
    /// The C name of the type.
    pub fn name(&self) -> (r: String)
        ensures
            r@ == primitive_name(*self),
    {
        match self {
            Primitive::Int8 => String::from_str("int8_t"),
            Primitive::Int16 => String::from_str("int16_t"),
            Primitive::Int32 => String::from_str("int32_t"),
            Primitive::Int64 => String::from_str("int64_t"),
            Primitive::Uint8 => String::from_str("uint8_t"),
            Primitive::Uint16 => String::from_str("uint16_t"),
            Primitive::Uint32 => String::from_str("uint32_t"),
            Primitive::Uint64 => String::from_str("uint64_t"),
            Primitive::Ssize => String::from_str("ssize_t"),
            Primitive::Size => String::from_str("size_t"),
            Primitive::Float => String::from_str("float"),
            Primitive::Double => String::from_str("double"),
        }
    }
}

/// Types passed as their value itself, whose names take no prefix.
pub open spec fn is_primitive(t: Ty) -> bool {
    match t {
        Ty::Primitive(_) | Ty::Bool | Ty::Text | Ty::Str => true,
        _ => false,
    }
}

/// The name of a type in the wrapper module.
pub open spec fn typename_of(t: Ty) -> Seq<char>
    decreases t,
{
    match t {
        Ty::Primitive(p) => primitive_name(p),
        Ty::Bool => "bool"@,
        Ty::Text => "__string_ptr"@,
        Ty::Str => "_str_ptr__"@,
        Ty::Slice(p) => "Slice_"@ + primitive_name(p),
        Ty::List(x) => "Vec_"@ + typename_of(*x),
        Ty::Optional(x) => "Option_"@ + typename_of(*x),
        Ty::Union(x, e) => "Result_"@ + typename_of(*x) + "_"@ + typename_of(*e),
        Ty::Record(r) => r.name@,
    }
}

/// The name of a type in C.
pub open spec fn c_typename_of(t: Ty) -> Seq<char> {
    match t {
        Ty::Bool => "int8_t"@,
        Ty::Text | Ty::Str => "char *"@,
        _ => typename_of(t),
    }
}

pub open spec fn prefixed_typename_of(prefix: Seq<char>, t: Ty) -> Seq<char> {
    if is_primitive(t) {
        typename_of(t)
    } else {
        prefix + typename_of(t)
    }
}

pub open spec fn prefixed_c_typename_of(prefix: Seq<char>, t: Ty) -> Seq<char> {
    if is_primitive(t) {
        c_typename_of(t)
    } else {
        prefix + c_typename_of(t)
    }
}

/// The C type of an argument of this type: a value, or a pointer to a
/// layout that the callee does not own.
pub open spec fn c_function_argument_of(prefix: Seq<char>, t: Ty) -> Seq<char> {
    match t {
        Ty::Primitive(_) | Ty::Bool => c_typename_of(t),
        Ty::Text | Ty::Str => "const "@ + c_typename_of(t),
        _ => "const "@ + prefixed_c_typename_of(prefix, t) + "*"@,
    }
}

/// The C type of a result slot of this type.
pub open spec fn c_mut_function_argument_of(prefix: Seq<char>, t: Ty) -> Seq<char> {
    match t {
        Ty::Primitive(_) | Ty::Bool | Ty::Text => c_typename_of(t),
        Ty::Str | Ty::Slice(_) => c_function_argument_of(prefix, t),
        _ => prefixed_c_typename_of(prefix, t) + "*"@,
    }
}

/// The member lines of a record's C declaration.
pub open spec fn field_lines(prefix: Seq<char>, fields: Seq<Field>) -> Seq<char>
    decreases fields.len(),
{
    if fields.len() == 0 {
        Seq::empty()
    } else {
        let f = fields.last();
        field_lines(prefix, fields.drop_last()) + "    const "@ + prefixed_c_typename_of(prefix, f.typ)
            + " "@ + f.name@ + ";\n"@
    }
}

/// The C declaration of a type's layout; primitive types need none.
pub open spec fn typedeclaration_of(prefix: Seq<char>, t: Ty) -> Seq<char> {
    match t {
        Ty::Slice(p) => "typedef struct {\n    const "@ + primitive_name(p) + " *ptr;\n    size_t len;\n} "@
            + prefixed_typename_of(prefix, t) + ";"@,
        Ty::List(x) => "typedef struct {\n    const "@ + prefixed_c_typename_of(prefix, *x)
            + " *ptr;\n    size_t len;\n    size_t capacity;\n} "@ + prefixed_typename_of(prefix, t)
            + ";"@,
        Ty::Optional(x) => "typedef struct {\n    const "@ + prefixed_c_typename_of(prefix, *x)
            + " *ptr;\n} "@ + prefixed_typename_of(prefix, t) + ";"@,
        Ty::Union(x, e) => "typedef struct {\n    const "@ + prefixed_c_typename_of(prefix, *x)
            + " *ok;\n    const "@ + prefixed_c_typename_of(prefix, *e) + " *err;\n} "@
            + prefixed_typename_of(prefix, t) + ";"@,
        Ty::Record(r) => "typedef struct {\n"@ + field_lines(prefix, r.fields@) + "} "@
            + prefixed_typename_of(prefix, t) + ";"@,
        _ => Seq::empty(),
    }
}

impl Ty {
    pub fn is_primitive(&self) -> (r: bool)
        ensures
            r == is_primitive(*self),
    {
        match self {
            Ty::Primitive(_) | Ty::Bool | Ty::Text | Ty::Str => true,
            _ => false,
        }
    }

    pub fn typename(&self) -> (r: String)
        ensures
            r@ == typename_of(*self),
        decreases self,
    {
        match self {
            Ty::Primitive(p) => p.name(),
            Ty::Bool => String::from_str("bool"),
            Ty::Text => String::from_str("__string_ptr"),
            Ty::Str => String::from_str("_str_ptr__"),
            Ty::Slice(p) => {
                let mut r = String::from_str("Slice_");
                r.append(p.name().as_str());
                r
            },
            Ty::List(x) => {
                let mut r = String::from_str("Vec_");
                r.append(x.typename().as_str());
                r
            },
            Ty::Optional(x) => {
                let mut r = String::from_str("Option_");
                r.append(x.typename().as_str());
                r
            },
            Ty::Union(x, e) => {
                let mut r = String::from_str("Result_");
                r.append(x.typename().as_str());
                r.append("_");
                r.append(e.typename().as_str());
                r
            },
            Ty::Record(rec) => rec.name.clone(),
        }
    }

    pub fn c_typename(&self) -> (r: String)
        ensures
            r@ == c_typename_of(*self),
    {
        match self {
            Ty::Bool => String::from_str("int8_t"),
            Ty::Text | Ty::Str => String::from_str("char *"),
            _ => self.typename(),
        }
    }

    pub fn prefixed_typename(&self, prefix: &TypePrefix) -> (r: String)
        ensures
            r@ == prefixed_typename_of(prefix.text@, *self),
    {
        if self.is_primitive() {
            self.typename()
        } else {
            prefixed(prefix, self.typename().as_str())
        }
    }

    pub fn prefixed_c_typename(&self, prefix: &TypePrefix) -> (r: String)
        ensures
            r@ == prefixed_c_typename_of(prefix.text@, *self),
    {
        if self.is_primitive() {
            self.c_typename()
        } else {
            prefixed(prefix, self.c_typename().as_str())
        }
    }

    pub fn c_function_argument(&self, prefix: &TypePrefix) -> (r: String)
        ensures
            r@ == c_function_argument_of(prefix.text@, *self),
    {
        match self {
            Ty::Primitive(_) | Ty::Bool => self.c_typename(),
            Ty::Text | Ty::Str => {
                let mut r = String::from_str("const ");
                r.append(self.c_typename().as_str());
                r
            },
            _ => {
                let mut r = String::from_str("const ");
                r.append(self.prefixed_c_typename(prefix).as_str());
                r.append("*");
                r
            },
        }
    }

    pub fn c_mut_function_argument(&self, prefix: &TypePrefix) -> (r: String)
        ensures
            r@ == c_mut_function_argument_of(prefix.text@, *self),
    {
        match self {
            Ty::Primitive(_) | Ty::Bool | Ty::Text => self.c_typename(),
            Ty::Str | Ty::Slice(_) => self.c_function_argument(prefix),
            _ => {
                let mut r = self.prefixed_c_typename(prefix);
                r.append("*");
                r
            },
        }
    }

    pub fn typedeclaration(&self, prefix: &TypePrefix) -> (r: String)
        ensures
            r@ == typedeclaration_of(prefix.text@, *self),
    {
        let mut r = String::new();
        match self {
            Ty::Slice(p) => {
                r.append("typedef struct {\n    const ");
                r.append(p.name().as_str());
                r.append(" *ptr;\n    size_t len;\n} ");
                r.append(self.prefixed_typename(prefix).as_str());
                r.append(";");
            },
            Ty::List(x) => {
                r.append("typedef struct {\n    const ");
                r.append(x.prefixed_c_typename(prefix).as_str());
                r.append(" *ptr;\n    size_t len;\n    size_t capacity;\n} ");
                r.append(self.prefixed_typename(prefix).as_str());
                r.append(";");
            },
            Ty::Optional(x) => {
                r.append("typedef struct {\n    const ");
                r.append(x.prefixed_c_typename(prefix).as_str());
                r.append(" *ptr;\n} ");
                r.append(self.prefixed_typename(prefix).as_str());
                r.append(";");
            },
            Ty::Union(x, e) => {
                r.append("typedef struct {\n    const ");
                r.append(x.prefixed_c_typename(prefix).as_str());
                r.append(" *ok;\n    const ");
                r.append(e.prefixed_c_typename(prefix).as_str());
                r.append(" *err;\n} ");
                r.append(self.prefixed_typename(prefix).as_str());
                r.append(";");
            },
            Ty::Record(rec) => {
                r.append("typedef struct {\n");
                let lines = record_field_lines(prefix, &rec.fields);
                r.append(lines.as_str());
                r.append("} ");
                r.append(self.prefixed_typename(prefix).as_str());
                r.append(";");
            },
            _ => {
                proof {
                    assert(r@ =~= typedeclaration_of(prefix.text@, *self));
                }
            },
        }
        r
    }
}

fn record_field_lines(prefix: &TypePrefix, fields: &Vec<Field>) -> (r: String)
    ensures
        r@ == field_lines(prefix.text@, fields@),
{
    let mut r = String::new();
    let mut i: usize = 0;
    proof {
        assert(fields@.subrange(0, 0) =~= Seq::<Field>::empty());
    }
    while i < fields.len()
        invariant
            i <= fields@.len(),
            r@ == field_lines(prefix.text@, fields@.subrange(0, i as int)),
        decreases fields@.len() - i,
    {
        let f = &fields[i];
        r.append("    const ");
        r.append(f.typ.prefixed_c_typename(prefix).as_str());
        r.append(" ");
        r.append(f.name.as_str());
        r.append(";\n");
        proof {
            let next = fields@.subrange(0, i + 1);
            assert(next.drop_last() =~= fields@.subrange(0, i as int));
            assert(next.last() == fields@[i as int]);
        }
        i += 1;
    }
    proof {
        assert(fields@.subrange(0, i as int) =~= fields@);
    }
    r
}

/// The three lines that declare the array and argument types of a type.
pub open spec fn typeof_lines(tn: Seq<char>, c: Seq<char>, arg: Seq<char>, marg: Seq<char>) -> Seq<
    char,
> {
    "\nlocal __const_c_typename_"@ + tn + " = ffi.typeof(\"const "@ + c
        + "[?]\")\nlocal __c_function_argument_"@ + tn + " = ffi.typeof(\""@ + arg
        + "[?]\")\nlocal __c_mut_function_argument_"@ + tn + " = ffi.typeof(\""@ + marg
        + "[?]\")\n"@
}

/// The wrapper-module declarations of a type passed by pointer.
pub open spec fn ptr_type_metatype_of(prefix: Seq<char>, t: Ty) -> Seq<char> {
    "\nlocal __typename_"@ + typename_of(t) + " = ffi.metatype(\""@ + prefixed_c_typename_of(prefix, t)
        + "\", {})"@ + typeof_lines(
        typename_of(t),
        prefixed_c_typename_of(prefix, t),
        c_function_argument_of(prefix, t),
        c_mut_function_argument_of(prefix, t),
    )
}

/// The wrapper-module declarations of a type passed as its value.
pub open spec fn primitive_type_metatype_of(prefix: Seq<char>, t: Ty) -> Seq<char> {
    typeof_lines(
        typename_of(t),
        c_typename_of(t),
        c_function_argument_of(prefix, t),
        c_mut_function_argument_of(prefix, t),
    )
}

pub open spec fn metatype_of(prefix: Seq<char>, t: Ty) -> Seq<char> {
    if is_primitive(t) {
        primitive_type_metatype_of(prefix, t)
    } else {
        ptr_type_metatype_of(prefix, t)
    }
}

fn typeof_text(tn: &str, c: &str, arg: &str, marg: &str) -> (r: String)
    ensures
        r@ == typeof_lines(tn@, c@, arg@, marg@),
{
    let mut r = String::from_str("\nlocal __const_c_typename_");
    r.append(tn);
    r.append(" = ffi.typeof(\"const ");
    r.append(c);
    r.append("[?]\")\nlocal __c_function_argument_");
    r.append(tn);
    r.append(" = ffi.typeof(\"");
    r.append(arg);
    r.append("[?]\")\nlocal __c_mut_function_argument_");
    r.append(tn);
    r.append(" = ffi.typeof(\"");
    r.append(marg);
    r.append("[?]\")\n");
    r
}

pub fn ptr_type_metatype(t: &Ty, prefix: &TypePrefix) -> (r: String)
    ensures
        r@ == ptr_type_metatype_of(prefix.text@, *t),
{
    let tn = t.typename();
    let pc = t.prefixed_c_typename(prefix);
    let mut r = String::from_str("\nlocal __typename_");
    r.append(tn.as_str());
    r.append(" = ffi.metatype(\"");
    r.append(pc.as_str());
    r.append("\", {})");
    let lines = typeof_text(
        tn.as_str(),
        pc.as_str(),
        t.c_function_argument(prefix).as_str(),
        t.c_mut_function_argument(prefix).as_str(),
    );
    r.append(lines.as_str());
    r
}

pub fn primitive_type_metatype(t: &Ty, prefix: &TypePrefix) -> (r: String)
    ensures
        r@ == primitive_type_metatype_of(prefix.text@, *t),
{
    typeof_text(
        t.typename().as_str(),
        t.c_typename().as_str(),
        t.c_function_argument(prefix).as_str(),
        t.c_mut_function_argument(prefix).as_str(),
    )
}

/// Types that a function can return: owned all the way down.
pub open spec fn returnable(t: Ty) -> bool
    decreases t,
{
    match t {
        Ty::Str | Ty::Slice(_) => false,
        Ty::List(x) => returnable(*x),
        Ty::Optional(x) => returnable(*x),
        Ty::Union(x, e) => returnable(*x) && returnable(*e),
        Ty::Record(r) => forall|i: int|
            0 <= i < r.fields@.len() ==> returnable(#[trigger] r.fields@[i].typ),
        _ => true,
    }
}

/// Types whose values a sequence can hold when it is handed over.
pub open spec fn arrayable(t: Ty) -> bool {
    match t {
        Ty::Optional(_) | Ty::Union(_, _) => false,
        _ => true,
    }
}

/// Types that a function can take: no union, and no sequence of optional
/// values, whose arrays the wrapper module cannot build.
pub open spec fn passable(t: Ty) -> bool
    decreases t,
{
    match t {
        Ty::List(x) => arrayable(*x) && passable(*x),
        Ty::Optional(x) => passable(*x),
        Ty::Union(_, _) => false,
        Ty::Record(r) => forall|i: int|
            0 <= i < r.fields@.len() ==> passable(#[trigger] r.fields@[i].typ),
        _ => true,
    }
}

/// Whether a returned value of this type holds memory that the boundary
/// must be asked to release.
pub open spec fn gc_of(t: Ty) -> bool {
    match t {
        Ty::Primitive(_) | Ty::Bool => false,
        _ => true,
    }
}

/// The wrapper-module function that turns a raw value of this type into a
/// value of the wrapper's language.
pub open spec fn from_function_of(t: Ty) -> Seq<char>
    decreases t,
{
    match t {
        Ty::Primitive(_) => "function(value) return value end"@,
        Ty::Bool => "function(value) return value ~= 0 end"@,
        Ty::Text => "ffi.string"@,
        Ty::Optional(x) => "function(value)\n    if value.ptr ~= nil then\n        local f = "@
            + from_function_of(*x)
            + "\n        return f(value.ptr[0])\n    else\n        return nil\n    end\nend"@,
        Ty::Union(x, e) => "function(value)\n    if value.ok ~= nil then\n        local f = "@
            + from_function_of(*x)
            + "\n        return f(value.ok[0])\n    else\n        local f = "@ + from_function_of(*e)
            + "\n        return nil, f(value.err[0])\n    end\nend"@,
        Ty::List(x) => "function(value)\n    local ret = {}\n    local len = tonumber(value.len)\n    local f = "@
            + from_function_of(*x)
            + "\n    for i = 1,len do\n        ret[i] = f(value.ptr[i - 1])\n    end\n    return ret\nend"@,
        Ty::Record(r) => "function(value)\n    return {\n        "@ + from_fields(r.fields@)
            + "\n    }\nend"@,
        _ => Seq::empty(),
    }
}

/// The field conversions of a record's `from_function_of`, joined by `, `.
pub open spec fn from_fields(fs: Seq<Field>) -> Seq<char>
    decreases fs,
{
    if fs.len() == 0 {
        Seq::empty()
    } else {
        let f = fs[fs.len() - 1];
        let item = f.name@ + " = ("@ + from_function_of(f.typ) + ")(value."@ + f.name@ + ")"@;
        if fs.len() == 1 {
            item
        } else {
            from_fields(fs.subrange(0, fs.len() - 1)) + ", "@ + item
        }
    }
}

/// The wrapper-module function that builds the raw value of an argument.
pub open spec fn into_function_of(t: Ty) -> Seq<char>
    decreases t, 0int,
{
    match t {
        Ty::Bool => "function(value) return value and 1 or 0 end"@,
        Ty::Optional(x) => "\nfunction(value)\n    local f = "@ + create_pointer_of(*x)
            + "\n    if value ~= nil then\n        return __typename_"@ + typename_of(t)
            + "(f(value))\n    else\n        return __typename_"@ + typename_of(t)
            + "(nil)\n    end\nend\n"@,
        Ty::List(x) => "\nfunction(value)\n    if type(value) == \"string\" then\n        return __typename_"@
            + typename_of(t) + "(value, #value)\n    else\n        local f = "@ + create_array_of(*x)
            + "\n        return __typename_"@ + typename_of(t)
            + "(f(value), #value, 0)\n    end\nend\n"@,
        Ty::Slice(Primitive::Uint8) => "function(value)\n    if type(value) == \"string\" then\n        return __typename_"@
            + typename_of(t)
            + "(value, #value)\n    else\n        local result = {}\n        for i, value in pairs(value) do\n            result[i] = value\n        end\n        return __typename_"@
            + typename_of(t) + "(\n            __c_function_argument_"@ + primitive_name(
            Primitive::Uint8,
        ) + "(#result, result), #result)\n    end\nend"@,
        Ty::Slice(p) => "function(value)\n    local result = {}\n    for i, value in pairs(value) do\n        result[i] = value\n    end\n    return __typename_"@
            + typename_of(t) + "(__c_function_argument_"@ + primitive_name(p)
            + "(#result, result), #result)\nend"@,
        Ty::Record(r) => "function(value)\n    return __typename_"@ + typename_of(t) + "(\n        "@
            + into_fields(r.fields@) + "\n    )\nend"@,
        _ => "function(value) return value end"@,
    }
}

/// The field conversions of a record's `into_function_of`, one per line.
pub open spec fn into_fields(fs: Seq<Field>) -> Seq<char>
    decreases fs, 0int,
{
    if fs.len() == 0 {
        Seq::empty()
    } else {
        let f = fs[fs.len() - 1];
        let item = "("@ + into_function_of(f.typ) + ")(value."@ + f.name@ + ")"@;
        if fs.len() == 1 {
            item
        } else {
            into_fields(fs.subrange(0, fs.len() - 1)) + ",\n        "@ + item
        }
    }
}

/// A one-element array holding the value itself.
pub open spec fn primitive_create_pointer_of(t: Ty) -> Seq<char> {
    "function(value)\n    return __const_c_typename_"@ + typename_of(t) + "(1, { value })\nend"@
}

/// An array of the values themselves.
pub open spec fn primitive_create_array_of(t: Ty) -> Seq<char> {
    "function(value)\n    return __const_c_typename_"@ + typename_of(t) + "(#value, value)\nend"@
}

/// An array of the first raw value that the type's conversion builds for
/// each element.
pub open spec fn ptr_create_array_of(t: Ty) -> Seq<char>
    decreases t, 1int,
{
    "function(value)\n    local result = {}\n    local f = "@ + into_function_of(t)
        + "\n    for i, value in pairs(value) do\n        local tmp = f(value)\n        result[i] = tmp[0]\n    end\n    return __const_c_typename_"@
        + typename_of(t) + "(#result, result)\nend"@
}

/// An array of the raw values that the type's conversion builds for each
/// element.
pub open spec fn immediate_create_array_of(t: Ty) -> Seq<char>
    decreases t, 1int,
{
    "function(value)\n    local result = {}\n    local f = "@ + into_function_of(t)
        + "\n    for i, value in pairs(value) do\n        result[i] = f(value)\n    end\n    return __const_c_typename_"@
        + typename_of(t) + "(#result, result)\nend"@
}

/// The wrapper-module function that builds a one-element array holding
/// the raw value of an argument: for pointer-passed types the raw value
/// itself.
pub open spec fn create_pointer_of(t: Ty) -> Seq<char>
    decreases t, 2int,
{
    if is_primitive(t) {
        primitive_create_pointer_of(t)
    } else {
        into_function_of(t)
    }
}

/// The wrapper-module function that builds the array of raw values of a
/// sequence argument.
pub open spec fn create_array_of(t: Ty) -> Seq<char>
    decreases t, 2int,
{
    if is_primitive(t) {
        primitive_create_array_of(t)
    } else {
        match t {
            Ty::Slice(_) => ptr_create_array_of(t),
            _ => immediate_create_array_of(t),
        }
    }
}

impl Ty {
    pub fn metatype(&self, prefix: &TypePrefix) -> (r: String)
        ensures
            r@ == metatype_of(prefix.text@, *self),
    {
        if self.is_primitive() {
            primitive_type_metatype(self, prefix)
        } else {
            ptr_type_metatype(self, prefix)
        }
    }

    pub fn gc(&self) -> (r: bool)
        ensures
            r == gc_of(*self),
    {
        match self {
            Ty::Primitive(_) | Ty::Bool => false,
            _ => true,
        }
    }

    /// The function that turns a returned raw value into a value of the
    /// wrapper's language.
    pub fn from_function(&self) -> (r: String)
        requires
            returnable(*self),
        ensures
            r@ == from_function_of(*self),
        decreases self,
    {
        match self {
            Ty::Primitive(_) => String::from_str("function(value) return value end"),
            Ty::Bool => String::from_str("function(value) return value ~= 0 end"),
            Ty::Text => String::from_str("ffi.string"),
            Ty::Optional(x) => {
                let mut r = String::from_str("function(value)\n    if value.ptr ~= nil then\n        local f = ");
                r.append(x.from_function().as_str());
                r.append("\n        return f(value.ptr[0])\n    else\n        return nil\n    end\nend");
                r
            },
            Ty::Union(x, e) => {
                let mut r = String::from_str("function(value)\n    if value.ok ~= nil then\n        local f = ");
                r.append(x.from_function().as_str());
                r.append("\n        return f(value.ok[0])\n    else\n        local f = ");
                r.append(e.from_function().as_str());
                r.append("\n        return nil, f(value.err[0])\n    end\nend");
                r
            },
            Ty::List(x) => {
                let mut r = String::from_str(
                    "function(value)\n    local ret = {}\n    local len = tonumber(value.len)\n    local f = ",
                );
                r.append(x.from_function().as_str());
                r.append("\n    for i = 1,len do\n        ret[i] = f(value.ptr[i - 1])\n    end\n    return ret\nend");
                r
            },
            Ty::Record(rec) => {
                let mut r = String::from_str("function(value)\n    return {\n        ");
                r.append(record_from_fields(&rec.fields).as_str());
                r.append("\n    }\nend");
                r
            },
            _ => {
                proof {
                    assert(false);
                }
                String::new()
            },
        }
    }

    /// The function that builds the raw value of an argument.
    pub fn into_function(&self) -> (r: String)
        requires
            passable(*self),
        ensures
            r@ == into_function_of(*self),
        decreases self, 0int,
    {
        match self {
            Ty::Bool => String::from_str("function(value) return value and 1 or 0 end"),
            Ty::Optional(x) => {
                let tn = self.typename();
                let mut r = String::from_str("\nfunction(value)\n    local f = ");
                r.append(x.create_pointer().as_str());
                r.append("\n    if value ~= nil then\n        return __typename_");
                r.append(tn.as_str());
                r.append("(f(value))\n    else\n        return __typename_");
                r.append(tn.as_str());
                r.append("(nil)\n    end\nend\n");
                r
            },
            Ty::List(x) => {
                let tn = self.typename();
                let mut r = String::from_str(
                    "\nfunction(value)\n    if type(value) == \"string\" then\n        return __typename_",
                );
                r.append(tn.as_str());
                r.append("(value, #value)\n    else\n        local f = ");
                r.append(x.create_array().as_str());
                r.append("\n        return __typename_");
                r.append(tn.as_str());
                r.append("(f(value), #value, 0)\n    end\nend\n");
                r
            },
            Ty::Slice(Primitive::Uint8) => {
                let tn = self.typename();
                let mut r = String::from_str(
                    "function(value)\n    if type(value) == \"string\" then\n        return __typename_",
                );
                r.append(tn.as_str());
                r.append(
                    "(value, #value)\n    else\n        local result = {}\n        for i, value in pairs(value) do\n            result[i] = value\n        end\n        return __typename_",
                );
                r.append(tn.as_str());
                r.append("(\n            __c_function_argument_");
                r.append(Primitive::Uint8.name().as_str());
                r.append("(#result, result), #result)\n    end\nend");
                r
            },
            Ty::Slice(p) => {
                let tn = self.typename();
                let mut r = String::from_str(
                    "function(value)\n    local result = {}\n    for i, value in pairs(value) do\n        result[i] = value\n    end\n    return __typename_",
                );
                r.append(tn.as_str());
                r.append("(__c_function_argument_");
                r.append(p.name().as_str());
                r.append("(#result, result), #result)\nend");
                r
            },
            Ty::Record(rec) => {
                let mut r = String::from_str("function(value)\n    return __typename_");
                r.append(self.typename().as_str());
                r.append("(\n        ");
                r.append(record_into_fields(&rec.fields).as_str());
                r.append("\n    )\nend");
                r
            },
            _ => String::from_str("function(value) return value end"),
        }
    }

    /// The function that builds a one-element array for an argument.
    pub fn create_pointer(&self) -> (r: String)
        requires
            passable(*self),
        ensures
            r@ == create_pointer_of(*self),
        decreases self, 2int,
    {
        if self.is_primitive() {
            primitive_type_create_pointer(self)
        } else {
            ptr_type_create_pointer(self)
        }
    }

    /// The function that builds the array of a sequence argument.
    pub fn create_array(&self) -> (r: String)
        requires
            passable(*self),
            arrayable(*self),
        ensures
            r@ == create_array_of(*self),
        decreases self, 2int,
    {
        if self.is_primitive() {
            primitive_type_create_array(self)
        } else {
            match self {
                Ty::Slice(_) => ptr_type_create_array(self),
                _ => immediate_type_create_array(self),
            }
        }
    }
}

/// `create_pointer` of a type passed as its value: a one-element array.
pub fn primitive_type_create_pointer(t: &Ty) -> (r: String)
    ensures
        r@ == primitive_create_pointer_of(*t),
{
    let mut r = String::from_str("function(value)\n    return __const_c_typename_");
    r.append(t.typename().as_str());
    r.append("(1, { value })\nend");
    r
}

/// `create_pointer` of a type passed by pointer: its own conversion, which
/// already yields a pointer-sized array.
pub fn ptr_type_create_pointer(t: &Ty) -> (r: String)
    requires
        passable(*t),
    ensures
        r@ == into_function_of(*t),
    decreases t, 1int,
{
    t.into_function()
}

/// `create_array` of a type passed as its value: the values themselves.
pub fn primitive_type_create_array(t: &Ty) -> (r: String)
    ensures
        r@ == primitive_create_array_of(*t),
{
    let mut r = String::from_str("function(value)\n    return __const_c_typename_");
    r.append(t.typename().as_str());
    r.append("(#value, value)\nend");
    r
}

/// `create_array` of a borrowed run: each element's first raw value.
pub fn ptr_type_create_array(t: &Ty) -> (r: String)
    requires
        passable(*t),
    ensures
        r@ == ptr_create_array_of(*t),
    decreases t, 1int,
{
    let mut r = String::from_str("function(value)\n    local result = {}\n    local f = ");
    r.append(t.into_function().as_str());
    r.append(
        "\n    for i, value in pairs(value) do\n        local tmp = f(value)\n        result[i] = tmp[0]\n    end\n    return __const_c_typename_",
    );
    r.append(t.typename().as_str());
    r.append("(#result, result)\nend");
    r
}

/// `create_array` of a sequence or record: each element's raw value.
pub fn immediate_type_create_array(t: &Ty) -> (r: String)
    requires
        passable(*t),
    ensures
        r@ == immediate_create_array_of(*t),
    decreases t, 1int,
{
    let mut r = String::from_str("function(value)\n    local result = {}\n    local f = ");
    r.append(t.into_function().as_str());
    r.append(
        "\n    for i, value in pairs(value) do\n        result[i] = f(value)\n    end\n    return __const_c_typename_",
    );
    r.append(t.typename().as_str());
    r.append("(#result, result)\nend");
    r
}

fn record_from_fields(fields: &Vec<Field>) -> (r: String)
    requires
        forall|i: int| 0 <= i < fields@.len() ==> returnable(#[trigger] fields@[i].typ),
    ensures
        r@ == from_fields(fields@),
    decreases fields,
{
    let mut r = String::new();
    let mut i: usize = 0;
    proof {
        assert(fields@.subrange(0, 0) =~= Seq::<Field>::empty());
    }
    while i < fields.len()
        invariant
            i <= fields@.len(),
            forall|k: int| 0 <= k < fields@.len() ==> returnable(#[trigger] fields@[k].typ),
            r@ == from_fields(fields@.subrange(0, i as int)),
        decreases fields@.len() - i,
    {
        proof {
            assert(decreases_to!(fields => fields[i as int]));
            assert(decreases_to!(fields[i as int] => fields[i as int].typ));
            assert(returnable(fields@[i as int].typ));
        }
        let f = &fields[i];
        if i > 0 {
            r.append(", ");
        }
        r.append(f.name.as_str());
        r.append(" = (");
        r.append(f.typ.from_function().as_str());
        r.append(")(value.");
        r.append(f.name.as_str());
        r.append(")");
        proof {
            let next = fields@.subrange(0, i + 1);
            assert(next.subrange(0, i as int) =~= fields@.subrange(0, i as int));
            assert(next[i as int] == fields@[i as int]);
            if i == 0 {
                assert(r@ =~= from_fields(next));
            }
        }
        i += 1;
    }
    proof {
        assert(fields@.subrange(0, i as int) =~= fields@);
    }
    r
}

fn record_into_fields(fields: &Vec<Field>) -> (r: String)
    requires
        forall|i: int| 0 <= i < fields@.len() ==> passable(#[trigger] fields@[i].typ),
    ensures
        r@ == into_fields(fields@),
    decreases fields, 0int,
{
    let mut r = String::new();
    let mut i: usize = 0;
    proof {
        assert(fields@.subrange(0, 0) =~= Seq::<Field>::empty());
    }
    while i < fields.len()
        invariant
            i <= fields@.len(),
            forall|k: int| 0 <= k < fields@.len() ==> passable(#[trigger] fields@[k].typ),
            r@ == into_fields(fields@.subrange(0, i as int)),
        decreases fields@.len() - i,
    {
        proof {
            assert(decreases_to!(fields => fields[i as int]));
            assert(decreases_to!(fields[i as int] => fields[i as int].typ));
            assert(passable(fields@[i as int].typ));
        }
        let f = &fields[i];
        if i > 0 {
            r.append(",\n        ");
        }
        r.append("(");
        r.append(f.typ.into_function().as_str());
        r.append(")(value.");
        r.append(f.name.as_str());
        r.append(")");
        proof {
            let next = fields@.subrange(0, i + 1);
            assert(next.subrange(0, i as int) =~= fields@.subrange(0, i as int));
            assert(next[i as int] == fields@[i as int]);
            if i == 0 {
                assert(r@ =~= into_fields(next));
            }
        }
        i += 1;
    }
    proof {
        assert(fields@.subrange(0, i as int) =~= fields@);
    }
    r
}

/// The types that a type's layout refers to, in order.
pub open spec fn children(t: Ty) -> Seq<Ty> {
    match t {
        Ty::List(x) => seq![*x],
        Ty::Optional(x) => seq![*x],
        Ty::Union(x, e) => seq![*x, *e],
        Ty::Record(r) => r.fields@.map_values(|f: Field| f.typ),
        _ => Seq::empty(),
    }
}

/// Entry `i` of the arena describes type `t`: its name and texts are those
/// of `t`, and its dependencies are the entries of the children of `t`.
pub open spec fn describes(prefix: Seq<char>, ds: Seq<TypeDescription>, i: int, t: Ty) -> bool {
    &&& ds[i].typename@ == typename_of(t)
    &&& ds[i].typedeclaration@ == typedeclaration_of(prefix, t)
    &&& ds[i].metatype@ == metatype_of(prefix, t)
    &&& ds[i].dependencies@.len() == children(t).len()
    &&& forall|j: int|
        0 <= j < children(t).len() ==> #[trigger] ds[ds[i].dependencies@[j] as int].typename@
            == typename_of(children(t)[j])
}

/// Entry `i` of the arena describes some type.
pub open spec fn describes_some(prefix: Seq<char>, ds: Seq<TypeDescription>, i: int) -> bool {
    exists|t: Ty| describes(prefix, ds, i, t)
}

/// A well-formed arena whose entries each describe a type, under distinct
/// names.
pub open spec fn arena_of_types(prefix: Seq<char>, ds: Seq<TypeDescription>) -> bool {
    &&& arena_wf(ds)
    &&& forall|i: int| 0 <= i < ds.len() ==> #[trigger] describes_some(prefix, ds, i)
    &&& forall|i: int, k: int|
        0 <= i < ds.len() && 0 <= k < ds.len() && i != k ==> ds[i].typename@ != ds[k].typename@
    &&& forall|i: int, j: int|
        0 <= i < ds.len() && 0 <= j < ds[i].dependencies@.len() ==> #[trigger] ds[i].dependencies@[j] < i
}

/// An arena whose dependencies all point to earlier entries is ordered as
/// it stands.
pub proof fn lemma_arena_in_order(prefix: Seq<char>, ds: Seq<TypeDescription>)
    requires
        arena_of_types(prefix, ds),
    ensures
        is_dependency_order(ds, Seq::new(ds.len(), |k: int| k as usize)),
{
    let order = Seq::new(ds.len(), |k: int| k as usize);
    assert forall|k: int| 0 <= k < order.len() implies order[k] == k && order[k] < ds.len() by {
        assert(ds[k].typeid == k);
    }
    assert forall|a: int, b: int| 0 <= a < order.len() && 0 <= b < order.len() && a != b implies order[a]
        != order[b] by {
        assert(order[a] == a && order[b] == b);
    }
    assert forall|k: int, j: int|
        0 <= k < order.len() && 0 <= j < ds[order[k] as int].dependencies@.len() implies #[trigger] appears_before(
        order,
        k,
        ds[order[k] as int].dependencies@[j],
    ) by {
        let d = ds[k].dependencies@[j];
        assert(order[d as int] == d);
    }
    assert forall|t: usize| t < ds.len() implies #[trigger] order.contains(t) by {
        assert(order[t as int] == t);
    }
}

/// Entries are only ever added at the end.
pub open spec fn extends(old: Seq<TypeDescription>, new: Seq<TypeDescription>) -> bool {
    old.len() <= new.len() && forall|i: int| 0 <= i < old.len() ==> new[i] == old[i]
}

pub proof fn lemma_describes_extends(
    prefix: Seq<char>,
    old: Seq<TypeDescription>,
    new: Seq<TypeDescription>,
    i: int,
    t: Ty,
)
    requires
        arena_wf(old),
        extends(old, new),
        0 <= i < old.len(),
        describes(prefix, old, i, t),
    ensures
        describes(prefix, new, i, t),
{
    assert forall|j: int| 0 <= j < children(t).len() implies #[trigger] new[new[i].dependencies@[
        j
    ] as int].typename@ == typename_of(children(t)[j]) by {
        assert(old[i].dependencies@[j] < old.len());
    }
}

/// `u` is `t` or a type that the layout of `t` refers to, directly or
/// through other types.
pub open spec fn reaches(t: Ty, u: Ty) -> bool
    decreases t,
{
    u == t || match t {
        Ty::List(x) => reaches(*x, u),
        Ty::Optional(x) => reaches(*x, u),
        Ty::Union(x, e) => reaches(*x, u) || reaches(*e, u),
        Ty::Record(r) => reaches_any(r.fields@, u),
        _ => false,
    }
}

/// The type of some field reaches `u`.
pub open spec fn reaches_any(fields: Seq<Field>, u: Ty) -> bool
    decreases fields,
{
    fields.len() > 0 && (reaches(fields[fields.len() - 1].typ, u) || reaches_any(
        fields.subrange(0, fields.len() - 1),
        u,
    ))
}

/// A field whose type reaches `u` makes the fields reach it.
pub proof fn lemma_reaches_field(fields: Seq<Field>, j: int, u: Ty)
    requires
        0 <= j < fields.len(),
        reaches(fields[j].typ, u),
    ensures
        reaches_any(fields, u),
    decreases fields.len(),
{
    if j < fields.len() - 1 {
        let p = fields.subrange(0, fields.len() - 1);
        assert(p[j] == fields[j]);
        lemma_reaches_field(p, j, u);
    }
}

/// The fields reach `u` through some field.
pub proof fn lemma_reaches_any_witness(fields: Seq<Field>, u: Ty)
    requires
        reaches_any(fields, u),
    ensures
        exists|j: int| 0 <= j < fields.len() && #[trigger] reaches(fields[j].typ, u),
    decreases fields.len(),
{
    if !reaches(fields[fields.len() - 1].typ, u) {
        let p = fields.subrange(0, fields.len() - 1);
        lemma_reaches_any_witness(p, u);
        let j = choose|j: int| 0 <= j < p.len() && #[trigger] reaches(p[j].typ, u);
        assert(p[j] == fields[j]);
    }
}

/// Some entry of the arena carries the name `name`.
pub open spec fn has_name(ds: Seq<TypeDescription>, name: Seq<char>) -> bool {
    exists|k: int| 0 <= k < ds.len() && ds[k].typename@ == name
}

/// Entry `i` describes a type that `t` reaches.
pub open spec fn described_from(prefix: Seq<char>, ds: Seq<TypeDescription>, i: int, t: Ty) -> bool {
    exists|u: Ty| reaches(t, u) && describes(prefix, ds, i, u)
}

/// Entry `i` describes a type that some field reaches.
pub open spec fn described_from_any(
    prefix: Seq<char>,
    ds: Seq<TypeDescription>,
    i: int,
    fields: Seq<Field>,
) -> bool {
    exists|u: Ty| reaches_any(fields, u) && describes(prefix, ds, i, u)
}

/// An entry carries the name of `u` but does not describe `u`: two
/// different types share a name.
pub open spec fn clash(prefix: Seq<char>, ds: Seq<TypeDescription>, u: Ty) -> bool {
    exists|k: int| 0 <= k < ds.len() && ds[k].typename@ == typename_of(u) && !describes(prefix, ds, k, u)
}

/// Two different types met in one generation run carry the same name, so
/// their C declarations would collide.
#[derive(Debug, Clone, PartialEq, Eq)]
pub struct TypeNameClash {
    pub name: String,
}

proof fn lemma_reaches_child(t: Ty, k: int, u: Ty)
    requires
        0 <= k < children(t).len(),
        reaches(children(t)[k], u),
    ensures
        reaches(t, u),
{
    match t {
        Ty::Record(r) => {
            assert(r.fields@[k].typ == children(t)[k]);
            lemma_reaches_field(r.fields@, k, u);
        },
        _ => {},
    }
}

pub proof fn lemma_has_name_extends(old: Seq<TypeDescription>, new: Seq<TypeDescription>, name: Seq<char>)
    requires
        extends(old, new),
        has_name(old, name),
    ensures
        has_name(new, name),
{
    let k = choose|k: int| 0 <= k < old.len() && old[k].typename@ == name;
    assert(new[k] == old[k]);
}

/// The index of the entry named `name`, if any.
fn find_type(arena: &Vec<TypeDescription>, name: &String) -> (r: Option<usize>)
    ensures
        match r {
            Some(k) => k < arena@.len() && arena@[k as int].typename@ == name@,
            None => forall|k: int| 0 <= k < arena@.len() ==> arena@[k].typename@ != name@,
        },
{
    let mut k: usize = 0;
    while k < arena.len()
        invariant
            k <= arena@.len(),
            forall|m: int| 0 <= m < k ==> arena@[m].typename@ != name@,
        decreases arena@.len() - k,
    {
        if arena[k].typename == *name {
            return Some(k);
        }
        k += 1;
    }
    None
}

fn same_indices(a: &Vec<usize>, b: &Vec<usize>) -> (r: bool)
    ensures
        r == (a@ == b@),
{
    if a.len() != b.len() {
        return false;
    }
    let mut i: usize = 0;
    while i < a.len()
        invariant
            a@.len() == b@.len(),
            i <= a@.len(),
            forall|k: int| 0 <= k < i ==> a@[k] == b@[k],
        decreases a@.len() - i,
    {
        if a[i] != b[i] {
            return false;
        }
        i += 1;
    }
    proof {
        assert(a@ =~= b@);
    }
    true
}

/// Adds a type, and before it every type its layout refers to, to an
/// arena. A type whose name is already there is not added again when that
/// entry describes it; when the entry describes a different type of the
/// same name, the run fails. Returns the index of the type's entry.
pub fn add_dependencies(prefix: &TypePrefix, t: &Ty, arena: &mut Vec<TypeDescription>) -> (r: Result<
    usize,
    TypeNameClash,
>)
    requires
        arena_of_types(prefix.text@, old(arena)@),
    ensures
        arena_of_types(prefix.text@, final(arena)@),
        extends(old(arena)@, final(arena)@),
        forall|i: int|
            old(arena)@.len() <= i < final(arena)@.len() ==> #[trigger] described_from(
                prefix.text@,
                final(arena)@,
                i,
                *t,
            ),
        match r {
            Ok(id) => id < final(arena)@.len() && describes(prefix.text@, final(arena)@, id as int, *t)
                && forall|u: Ty| #[trigger] reaches(*t, u) ==> has_name(final(arena)@, typename_of(u)),
            Err(e) => exists|u: Ty|
                reaches(*t, u) && typename_of(u) == e.name@ && clash(prefix.text@, final(arena)@, u),
        },
    decreases t,
{
    let ghost kids = children(*t);
    let ghost start = arena@;
    let mut deps: Vec<usize> = Vec::new();
    match t {
        Ty::List(x) | Ty::Optional(x) => {
            match add_dependencies(prefix, x, arena) {
                Ok(d) => {
                    deps.push(d);
                    proof {
                        assert forall|u: Ty| #[trigger] reaches(*t, u) && u != *t implies has_name(
                            arena@,
                            typename_of(u),
                        ) by {
                            assert(reaches(**x, u));
                        }
                        assert forall|i: int| start.len() <= i < arena@.len() implies #[trigger] described_from(
                            prefix.text@,
                            arena@,
                            i,
                            *t,
                        ) by {
                            assert(described_from(prefix.text@, arena@, i, **x));
                            let v = choose|v: Ty| reaches(**x, v) && describes(prefix.text@, arena@, i, v);
                            lemma_reaches_child(*t, 0, v);
                        }
                    }
                },
                Err(e) => {
                    proof {
                        let u = choose|u: Ty|
                            reaches(**x, u) && typename_of(u) == e.name@ && clash(prefix.text@, arena@, u);
                        lemma_reaches_child(*t, 0, u);
                        assert forall|i: int| start.len() <= i < arena@.len() implies #[trigger] described_from(
                            prefix.text@,
                            arena@,
                            i,
                            *t,
                        ) by {
                            assert(described_from(prefix.text@, arena@, i, **x));
                            let v = choose|v: Ty| reaches(**x, v) && describes(prefix.text@, arena@, i, v);
                            lemma_reaches_child(*t, 0, v);
                        }
                    }
                    return Err(e);
                },
            }
        },
        Ty::Union(x, y) => {
            let ghost mid0 = arena@;
            match add_dependencies(prefix, x, arena) {
                Ok(d) => {
                    deps.push(d);
                },
                Err(e) => {
                    proof {
                        let u = choose|u: Ty|
                            reaches(**x, u) && typename_of(u) == e.name@ && clash(prefix.text@, arena@, u);
                        lemma_reaches_child(*t, 0, u);
                        assert forall|i: int| start.len() <= i < arena@.len() implies #[trigger] described_from(
                            prefix.text@,
                            arena@,
                            i,
                            *t,
                        ) by {
                            assert(described_from(prefix.text@, arena@, i, **x));
                            let v = choose|v: Ty| reaches(**x, v) && describes(prefix.text@, arena@, i, v);
                            lemma_reaches_child(*t, 0, v);
                        }
                    }
                    return Err(e);
                },
            }
            let ghost mid = arena@;
            match add_dependencies(prefix, y, arena) {
                Ok(d2) => {
                    deps.push(d2);
                    proof {
                        assert(mid[deps@[0] as int] == arena@[deps@[0] as int]);
                        assert forall|u: Ty| #[trigger] reaches(*t, u) && u != *t implies has_name(
                            arena@,
                            typename_of(u),
                        ) by {
                            if reaches(**x, u) {
                                lemma_has_name_extends(mid, arena@, typename_of(u));
                            } else {
                                assert(reaches(**y, u));
                            }
                        }
                        assert forall|i: int| start.len() <= i < arena@.len() implies #[trigger] described_from(
                            prefix.text@,
                            arena@,
                            i,
                            *t,
                        ) by {
                            if i < mid.len() {
                                assert(described_from(prefix.text@, mid, i, **x));
                                let v = choose|v: Ty| reaches(**x, v) && describes(prefix.text@, mid, i, v);
                                lemma_reaches_child(*t, 0, v);
                                lemma_describes_extends(prefix.text@, mid, arena@, i, v);
                            } else {
                                assert(described_from(prefix.text@, arena@, i, **y));
                                let v = choose|v: Ty| reaches(**y, v) && describes(prefix.text@, arena@, i, v);
                                lemma_reaches_child(*t, 1, v);
                            }
                        }
                    }
                },
                Err(e) => {
                    proof {
                        let u = choose|u: Ty|
                            reaches(**y, u) && typename_of(u) == e.name@ && clash(prefix.text@, arena@, u);
                        lemma_reaches_child(*t, 1, u);
                        assert forall|i: int| start.len() <= i < arena@.len() implies #[trigger] described_from(
                            prefix.text@,
                            arena@,
                            i,
                            *t,
                        ) by {
                            if i < mid.len() {
                                assert(described_from(prefix.text@, mid, i, **x));
                                let v = choose|v: Ty| reaches(**x, v) && describes(prefix.text@, mid, i, v);
                                lemma_reaches_child(*t, 0, v);
                                lemma_describes_extends(prefix.text@, mid, arena@, i, v);
                            } else {
                                assert(described_from(prefix.text@, arena@, i, **y));
                                let v = choose|v: Ty| reaches(**y, v) && describes(prefix.text@, arena@, i, v);
                                lemma_reaches_child(*t, 1, v);
                            }
                        }
                    }
                    return Err(e);
                },
            }
        },
        Ty::Record(rec) => {
            match add_field_dependencies(prefix, &rec.fields, arena) {
                Ok(ds) => {
                    deps = ds;
                    proof {
                        assert forall|i: int| start.len() <= i < arena@.len() implies #[trigger] described_from(
                            prefix.text@,
                            arena@,
                            i,
                            *t,
                        ) by {
                            assert(described_from_any(prefix.text@, arena@, i, rec.fields@));
                            let v = choose|v: Ty| reaches_any(rec.fields@, v) && describes(prefix.text@, arena@, i, v);
                            assert(reaches(*t, v));
                        }
                        assert forall|j: int| 0 <= j < kids.len() implies kids[j] == rec.fields@[j].typ by {}
                        assert forall|u: Ty| #[trigger] reaches(*t, u) && u != *t implies has_name(
                            arena@,
                            typename_of(u),
                        ) by {
                            assert(reaches_any(rec.fields@, u));
                        }
                    }
                },
                Err(e) => {
                    proof {
                        let u = choose|u: Ty|
                            reaches_any(rec.fields@, u) && typename_of(u) == e.name@ && clash(prefix.text@, arena@, u);
                        assert(reaches(*t, u));
                        assert forall|i: int| start.len() <= i < arena@.len() implies #[trigger] described_from(
                            prefix.text@,
                            arena@,
                            i,
                            *t,
                        ) by {
                            assert(described_from_any(prefix.text@, arena@, i, rec.fields@));
                            let v = choose|v: Ty| reaches_any(rec.fields@, v) && describes(prefix.text@, arena@, i, v);
                            assert(reaches(*t, v));
                        }
                    }
                    return Err(e);
                },
            }
        },
        _ => {},
    }
    proof {
        assert(deps@.len() == kids.len());
        assert(forall|j: int| 0 <= j < kids.len() ==> #[trigger] deps@[j] < arena@.len()
            && arena@[deps@[j] as int].typename@ == typename_of(kids[j]));
        assert forall|u: Ty| #[trigger] reaches(*t, u) && u != *t implies has_name(arena@, typename_of(u)) by {
            match t {
                Ty::List(_) | Ty::Optional(_) | Ty::Union(_, _) | Ty::Record(_) => {},
                _ => {
                    assert(!reaches(*t, u));
                },
            }
        }
    }
    let name = t.typename();
    let declaration = t.typedeclaration(prefix);
    let meta = t.metatype(prefix);
    match find_type(arena, &name) {
        Some(k) => {
            let e = &arena[k];
            if e.typedeclaration == declaration && e.metatype == meta && same_indices(&e.dependencies, &deps) {
                proof {
                    assert(describes(prefix.text@, arena@, k as int, *t));
                    assert forall|u: Ty| #[trigger] reaches(*t, u) implies has_name(arena@, typename_of(u)) by {
                        if u == *t {
                            assert(arena@[k as int].typename@ == typename_of(u));
                        }
                    }
                }
                Ok(k)
            } else {
                proof {
                    if describes(prefix.text@, arena@, k as int, *t) {
                        let ed = arena@[k as int].dependencies@;
                        assert forall|j: int| 0 <= j < ed.len() implies ed[j] == deps@[j] by {
                            assert(arena@[ed[j] as int].typename@ == typename_of(kids[j]));
                            assert(ed[j] < arena@.len());
                        }
                        assert(ed =~= deps@);
                    }
                    assert(reaches(*t, *t));
                }
                Err(TypeNameClash { name })
            }
        },
        None => {
            let ghost before = arena@;
            let id = arena.len();
            let entry = TypeDescription {
                typeid: id,
                typename: name,
                dependencies: deps,
                typedeclaration: declaration,
                metatype: meta,
            };
            arena.push(entry);
            proof {
                assert(extends(before, arena@));
                assert(describes(prefix.text@, arena@, id as int, *t));
                assert forall|i: int| 0 <= i < arena@.len() implies #[trigger] describes_some(
                    prefix.text@,
                    arena@,
                    i,
                ) by {
                    if i < before.len() {
                        assert(describes_some(prefix.text@, before, i));
                        let u = choose|u: Ty| describes(prefix.text@, before, i, u);
                        lemma_describes_extends(prefix.text@, before, arena@, i, u);
                    }
                }
                assert forall|i: int| start.len() <= i < arena@.len() implies #[trigger] described_from(
                    prefix.text@,
                    arena@,
                    i,
                    *t,
                ) by {
                    if i < before.len() {
                        assert(described_from(prefix.text@, before, i, *t));
                        let u = choose|u: Ty| reaches(*t, u) && describes(prefix.text@, before, i, u);
                        lemma_describes_extends(prefix.text@, before, arena@, i, u);
                    } else {
                        assert(reaches(*t, *t));
                    }
                }
                assert forall|i: int, j: int|
                    0 <= i < arena@.len() && 0 <= j < arena@[i].dependencies@.len() implies #[trigger] arena@[i].dependencies@[j]
                    < i by {
                    if i < before.len() {
                        assert(arena@[i] == before[i]);
                    }
                }
                assert forall|i: int| 0 <= i < arena@.len() implies (#[trigger] arena@[i]).typeid == i
                    && forall|j: int| 0 <= j < arena@[i].dependencies@.len() ==> (
                    #[trigger] arena@[i].dependencies@[j]) < arena@.len() by {
                    if i < before.len() {
                        assert(arena@[i] == before[i]);
                    }
                }
                assert forall|u: Ty| #[trigger] reaches(*t, u) implies has_name(arena@, typename_of(u)) by {
                    if u == *t {
                        assert(arena@[id as int].typename@ == typename_of(u));
                    } else {
                        lemma_has_name_extends(before, arena@, typename_of(u));
                    }
                }
            }
            Ok(id)
        },
    }
}

/// `add_dependencies` for the type of each field, in order; returns the
/// indices of their entries.
fn add_field_dependencies(
    prefix: &TypePrefix,
    fields: &Vec<Field>,
    arena: &mut Vec<TypeDescription>,
) -> (r: Result<Vec<usize>, TypeNameClash>)
    requires
        arena_of_types(prefix.text@, old(arena)@),
    ensures
        arena_of_types(prefix.text@, final(arena)@),
        extends(old(arena)@, final(arena)@),
        forall|i: int|
            old(arena)@.len() <= i < final(arena)@.len() ==> #[trigger] described_from_any(
                prefix.text@,
                final(arena)@,
                i,
                fields@,
            ),
        match r {
            Ok(deps) => deps@.len() == fields@.len() && (forall|j: int|
                0 <= j < fields@.len() ==> #[trigger] deps@[j] < final(arena)@.len()
                    && final(arena)@[deps@[j] as int].typename@ == typename_of(fields@[j].typ))
                && forall|u: Ty| #[trigger] reaches_any(fields@, u) ==> has_name(final(arena)@, typename_of(u)),
            Err(e) => exists|u: Ty|
                reaches_any(fields@, u) && typename_of(u) == e.name@ && clash(prefix.text@, final(arena)@, u),
        },
    decreases fields,
{
    let ghost start = arena@;
    let mut deps: Vec<usize> = Vec::new();
    let mut i: usize = 0;
    while i < fields.len()
        invariant
            i <= fields@.len(),
            arena_of_types(prefix.text@, arena@),
            start == old(arena)@,
            extends(start, arena@),
            deps@.len() == i,
            forall|j: int| 0 <= j < i ==> #[trigger] deps@[j] < arena@.len()
                && arena@[deps@[j] as int].typename@ == typename_of(fields@[j].typ),
            forall|j: int, u: Ty| 0 <= j < i && #[trigger] reaches(fields@[j].typ, u) ==> has_name(arena@, typename_of(u)),
            forall|k: int|
                start.len() <= k < arena@.len() ==> #[trigger] described_from_any(prefix.text@, arena@, k, fields@),
        decreases fields@.len() - i,
    {
        proof {
            assert(decreases_to!(fields => fields[i as int]));
            assert(decreases_to!(fields[i as int] => fields[i as int].typ));
        }
        let ghost before = arena@;
        let res = add_dependencies(prefix, &fields[i].typ, arena);
        proof {
            assert forall|k: int| 0 <= k < start.len() implies arena@[k] == start[k] by {
                assert(before[k] == start[k]);
            }
            assert(extends(start, arena@));
            assert forall|k: int| start.len() <= k < arena@.len() implies #[trigger] described_from_any(
                prefix.text@,
                arena@,
                k,
                fields@,
            ) by {
                if k < before.len() {
                    assert(described_from_any(prefix.text@, before, k, fields@));
                    let v = choose|v: Ty| reaches_any(fields@, v) && describes(prefix.text@, before, k, v);
                    lemma_describes_extends(prefix.text@, before, arena@, k, v);
                } else {
                    assert(described_from(prefix.text@, arena@, k, fields@[i as int].typ));
                    let v = choose|v: Ty| reaches(fields@[i as int].typ, v) && describes(prefix.text@, arena@, k, v);
                    lemma_reaches_field(fields@, i as int, v);
                }
            }
        }
        match res {
            Ok(d) => {
                deps.push(d);
                proof {
                    assert forall|j: int| 0 <= j < i + 1 implies #[trigger] deps@[j] < arena@.len()
                        && arena@[deps@[j] as int].typename@ == typename_of(fields@[j].typ) by {
                        if j < i {
                            assert(before[deps@[j] as int] == arena@[deps@[j] as int]);
                        }
                    }
                    assert forall|j: int, u: Ty| 0 <= j < i + 1 && #[trigger] reaches(fields@[j].typ, u) implies has_name(
                        arena@,
                        typename_of(u),
                    ) by {
                        if j < i {
                            lemma_has_name_extends(before, arena@, typename_of(u));
                        }
                    }
                }
            },
            Err(e) => {
                proof {
                    let u = choose|u: Ty|
                        reaches(fields@[i as int].typ, u) && typename_of(u) == e.name@ && clash(prefix.text@, arena@, u);
                    lemma_reaches_field(fields@, i as int, u);
                }
                return Err(e);
            },
        }
        i += 1;
    }
    proof {
        assert forall|u: Ty| #[trigger] reaches_any(fields@, u) implies has_name(arena@, typename_of(u)) by {
            lemma_reaches_any_witness(fields@, u);
            let j = choose|j: int| 0 <= j < fields@.len() && #[trigger] reaches(fields@[j].typ, u);
        }
    }
    Ok(deps)
}

/// The arena of a type and of every type its layout refers to: exactly
/// one entry for each name among them, the type's own entry describing
/// it. Fails when two different types among them share a name.
pub fn make_dependencies(prefix: &TypePrefix, t: &Ty) -> (r: Result<Vec<TypeDescription>, TypeNameClash>)
    ensures
        match r {
            Ok(ds) => arena_of_types(prefix.text@, ds@) && (exists|k: int|
                0 <= k < ds@.len() && describes(prefix.text@, ds@, k, *t)) && (forall|i: int|
                0 <= i < ds@.len() ==> #[trigger] described_from(prefix.text@, ds@, i, *t)) && forall|
                u: Ty,
            | #[trigger] reaches(*t, u) ==> has_name(ds@, typename_of(u)),
            Err(e) => exists|u1: Ty, u2: Ty|
                reaches(*t, u1) && reaches(*t, u2) && u1 != u2 && typename_of(u1) == e.name@
                    && typename_of(u2) == e.name@,
        },
{
    let mut arena: Vec<TypeDescription> = Vec::new();
    match add_dependencies(prefix, t, &mut arena) {
        Ok(id) => {
            proof {
                assert(describes(prefix.text@, arena@, id as int, *t));
                assert(arena_of_types(prefix.text@, arena@));
                assert(forall|i: int| 0 <= i < arena@.len() ==> #[trigger] described_from(prefix.text@, arena@, i, *t));
                assert(forall|u: Ty| #[trigger] reaches(*t, u) ==> has_name(arena@, typename_of(u)));
            }
            Ok(arena)
        },
        Err(e) => {
            proof {
                let u1 = choose|u: Ty| reaches(*t, u) && typename_of(u) == e.name@ && clash(prefix.text@, arena@, u);
                let k = choose|k: int|
                    0 <= k < arena@.len() && arena@[k].typename@ == typename_of(u1) && !describes(prefix.text@, arena@, k, u1);
                assert(described_from(prefix.text@, arena@, k, *t));
                let u2 = choose|u: Ty| reaches(*t, u) && describes(prefix.text@, arena@, k, u);
                assert(u1 != u2);
            }
            Err(e)
        },
    }
}

impl Ty {
    /// Whether a function can take an argument of this type.
    pub fn is_passable(&self) -> (r: bool)
        ensures
            r == passable(*self),
        decreases self,
    {
        match self {
            Ty::List(x) => match **x {
                Ty::Optional(_) | Ty::Union(_, _) => false,
                _ => x.is_passable(),
            },
            Ty::Optional(x) => x.is_passable(),
            Ty::Union(_, _) => false,
            Ty::Record(rec) => fields_passable(&rec.fields),
            _ => true,
        }
    }

    /// Whether a function can return a value of this type.
    pub fn is_returnable(&self) -> (r: bool)
        ensures
            r == returnable(*self),
        decreases self,
    {
        match self {
            Ty::Str | Ty::Slice(_) => false,
            Ty::List(x) => x.is_returnable(),
            Ty::Optional(x) => x.is_returnable(),
            Ty::Union(x, e) => x.is_returnable() && e.is_returnable(),
            Ty::Record(rec) => fields_returnable(&rec.fields),
            _ => true,
        }
    }
}

fn fields_passable(fields: &Vec<Field>) -> (r: bool)
    ensures
        r == forall|i: int| 0 <= i < fields@.len() ==> passable(#[trigger] fields@[i].typ),
    decreases fields,
{
    let mut i: usize = 0;
    while i < fields.len()
        invariant
            i <= fields@.len(),
            forall|k: int| 0 <= k < i ==> passable(#[trigger] fields@[k].typ),
        decreases fields@.len() - i,
    {
        proof {
            assert(decreases_to!(fields => fields[i as int]));
            assert(decreases_to!(fields[i as int] => fields[i as int].typ));
        }
        if !fields[i].typ.is_passable() {
            return false;
        }
        i += 1;
    }
    true
}

fn fields_returnable(fields: &Vec<Field>) -> (r: bool)
    ensures
        r == forall|i: int| 0 <= i < fields@.len() ==> returnable(#[trigger] fields@[i].typ),
    decreases fields,
{
    let mut i: usize = 0;
    while i < fields.len()
        invariant
            i <= fields@.len(),
            forall|k: int| 0 <= k < i ==> returnable(#[trigger] fields@[k].typ),
        decreases fields@.len() - i,
    {
        proof {
            assert(decreases_to!(fields => fields[i as int]));
            assert(decreases_to!(fields[i as int] => fields[i as int].typ));
        }
        if !fields[i].typ.is_returnable() {
            return false;
        }
        i += 1;
    }
    true
}

} // verus!
