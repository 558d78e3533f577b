//! The text generated for a set of exposed functions: the C declarations of
//! their entry points, in dependency order after the types they mention, and
//! a wrapper module with one caller-side function each.

use vstd::prelude::*;
use crate::lua::{
    add_dependencies, arena_of_types, c_function_argument_of, c_mut_function_argument_of, clash,
    described_from, describes, extends, from_function_of, gc_of, has_name, into_function_of,
    lemma_arena_in_order, lemma_describes_extends, lemma_has_name_extends, passable, reaches,
    returnable, typename_of, Ty, TypeNameClash, TypePrefix,
};
use crate::resolve::{dependency_sorted_type_descriptions, is_dependency_order, TypeDescription};

verus! {

/// One argument of an exposed function.
pub struct Argument {
    pub ident: String,
    pub typ: Ty,
}

/// An exposed function: its name, its arguments in order and its result
/// type.
pub struct Function {
    pub ident: String,
    pub args: Vec<Argument>,
    pub ret: Ty,
}

/// A function the wrapper module can call: every argument can be handed
/// over and the result can be taken back.
pub open spec fn bindable(f: Function) -> bool {
    &&& forall|i: int| 0 <= i < f.args@.len() ==> passable(#[trigger] f.args@[i].typ)
    &&& returnable(f.ret)
}

/// The texts of `parts` with `sep` between each two.
pub open spec fn join(parts: Seq<Seq<char>>, sep: Seq<char>) -> Seq<char>
    decreases parts.len(),
{
    if parts.len() == 0 {
        Seq::empty()
    } else if parts.len() == 1 {
        parts[0]
    } else {
        join(parts.drop_last(), sep) + sep + parts.last()
    }
}

pub open spec fn texts(s: Seq<String>) -> Seq<Seq<char>> {
    s.map_values(|x: String| x@)
}

/// `join` of a vector of texts.
pub fn join_strings(parts: &Vec<String>, sep: &str) -> (r: String)
    ensures
        r@ == join(texts(parts@), sep@),
{
    let mut r = String::new();
    let mut i: usize = 0;
    while i < parts.len()
        invariant
            i <= parts@.len(),
            r@ == join(texts(parts@.subrange(0, i as int)), sep@),
        decreases parts@.len() - i,
    {
        if i > 0 {
            r.append(sep);
        }
        r.append(parts[i].as_str());
        proof {
            let next = texts(parts@.subrange(0, i + 1));
            assert(next.drop_last() =~= texts(parts@.subrange(0, i as int)));
            assert(next.last() == parts@[i as int]@);
            if i == 0 {
                assert(r@ =~= join(next, sep@));
            }
        }
        i += 1;
    }
    proof {
        assert(parts@.subrange(0, i as int) =~= parts@);
    }
    r
}

/// The C types of an entry point's parameters: each argument by
/// reference, then the result slot.
pub open spec fn parameter_types(prefix: Seq<char>, f: Function) -> Seq<Seq<char>> {
    f.args@.map_values(|a: Argument| c_function_argument_of(prefix, a.typ)).push(
        c_mut_function_argument_of(prefix, f.ret) + "*"@,
    )
}

/// The C declarations of a function's entry point and of its disposal
/// entry point.
pub open spec fn c_header_of(prefix: Seq<char>, f: Function) -> Seq<char> {
    "int32_t "@ + f.ident@ + "(\n        "@ + join(parameter_types(prefix, f), ",\n    "@) + ");\nint32_t __gc_"@
        + f.ident@ + "(\n        "@ + c_mut_function_argument_of(prefix, f.ret) + ");"@
}

pub fn c_header(prefix: &TypePrefix, f: &Function) -> (r: String)
    ensures
        r@ == c_header_of(prefix.text@, *f),
{
    let mut params: Vec<String> = Vec::new();
    let mut i: usize = 0;
    while i < f.args.len()
        invariant
            i <= f.args@.len(),
            params@.len() == i,
            forall|k: int| 0 <= k < i ==> #[trigger] params@[k]@ == c_function_argument_of(
                prefix.text@,
                f.args@[k].typ,
            ),
        decreases f.args@.len() - i,
    {
        params.push(f.args[i].typ.c_function_argument(prefix));
        i += 1;
    }
    let mut slot = f.ret.c_mut_function_argument(prefix);
    slot.append("*");
    params.push(slot);
    proof {
        assert(texts(params@) =~= parameter_types(prefix.text@, *f));
    }
    let mut r = String::from_str("int32_t ");
    r.append(f.ident.as_str());
    r.append("(\n        ");
    r.append(join_strings(&params, ",\n    ").as_str());
    r.append(");\nint32_t __gc_");
    r.append(f.ident.as_str());
    r.append("(\n        ");
    r.append(f.ret.c_mut_function_argument(prefix).as_str());
    r.append(");");
    r
}

/// How the wrapper passes each argument to the entry point: converted to
/// its raw form, then the result slot.
pub open spec fn argument_passing(f: Function) -> Seq<Seq<char>> {
    f.args@.map_values(|a: Argument| "("@ + into_function_of(a.typ) + ")("@ + a.ident@ + ")"@).push(
        "__ret_ptr"@,
    )
}

/// The line that hands a returned value to the collector, which later
/// calls the disposal entry point on it; none for plain numbers.
pub open spec fn gc_line_of(f: Function) -> Seq<char> {
    if gc_of(f.ret) {
        "ffi.gc(__ret, rust.__gc_"@ + f.ident@ + ")"@
    } else {
        Seq::empty()
    }
}

/// The caller-side function: it converts the arguments, calls the entry
/// point, raises an error on a non-zero status, and converts the result.
pub open spec fn wrapper_of(f: Function) -> Seq<char> {
    "function M."@ + f.ident@ + "(\n    "@ + join(f.args@.map_values(|a: Argument| a.ident@), ",\n    "@)
        + ")\n    local __typeof = __c_mut_function_argument_"@ + typename_of(f.ret)
        + "\n    local __ret_ptr = __typeof(1, {})\n    local status = rust."@ + f.ident@ + "(\n        "@
        + join(argument_passing(f), ",\n    "@)
        + "\n    )\n    if status ~= 0 then\n        error(\""@ + f.ident@
        + " failed with status \"..status)\n    end\n    local __ret = __ret_ptr[0]\n    "@ + gc_line_of(f)
        + "\n    local f = "@ + from_function_of(f.ret) + "\n    return f(__ret)\nend\n"@
}

pub fn wrapper(f: &Function) -> (r: String)
    requires
        bindable(*f),
    ensures
        r@ == wrapper_of(*f),
{
    let mut names: Vec<String> = Vec::new();
    let mut passing: Vec<String> = Vec::new();
    let mut i: usize = 0;
    while i < f.args.len()
        invariant
            bindable(*f),
            i <= f.args@.len(),
            names@.len() == i,
            passing@.len() == i,
            forall|k: int| 0 <= k < i ==> #[trigger] names@[k]@ == f.args@[k].ident@,
            forall|k: int| 0 <= k < i ==> #[trigger] passing@[k]@ == "("@ + into_function_of(
                f.args@[k].typ,
            ) + ")("@ + f.args@[k].ident@ + ")"@,
        decreases f.args@.len() - i,
    {
        let a = &f.args[i];
        proof {
            assert(passable(f.args@[i as int].typ));
        }
        names.push(a.ident.clone());
        let mut p = String::from_str("(");
        p.append(a.typ.into_function().as_str());
        p.append(")(");
        p.append(a.ident.as_str());
        p.append(")");
        passing.push(p);
        i += 1;
    }
    passing.push(String::from_str("__ret_ptr"));
    proof {
        assert(texts(names@) =~= f.args@.map_values(|a: Argument| a.ident@));
        assert(texts(passing@) =~= argument_passing(*f));
    }
    let tn = f.ret.typename();
    let mut r = String::from_str("function M.");
    r.append(f.ident.as_str());
    r.append("(\n    ");
    r.append(join_strings(&names, ",\n    ").as_str());
    r.append(")\n    local __typeof = __c_mut_function_argument_");
    r.append(tn.as_str());
    r.append("\n    local __ret_ptr = __typeof(1, {})\n    local status = rust.");
    r.append(f.ident.as_str());
    r.append("(\n        ");
    r.append(join_strings(&passing, ",\n    ").as_str());
    r.append("\n    )\n    if status ~= 0 then\n        error(\"");
    r.append(f.ident.as_str());
    r.append(" failed with status \"..status)\n    end\n    local __ret = __ret_ptr[0]\n    ");
    if f.ret.gc() {
        r.append("ffi.gc(__ret, rust.__gc_");
        r.append(f.ident.as_str());
        r.append(")");
    }
    r.append("\n    local f = ");
    r.append(f.ret.from_function().as_str());
    r.append("\n    return f(__ret)\nend\n");
    r
}

/// The expression that loads the library: by its name alone, or searched
/// for along the module path first.
pub open spec fn ffi_load_of(library_name: Seq<char>, ffi_load_using_cpath: bool) -> Seq<char> {
    if ffi_load_using_cpath {
        "ffi.load(\n    package.searchpath('lib"@ + library_name
            + "', package.cpath)\n    or package.searchpath('"@ + library_name
            + "', package.cpath)\n    or '"@ + library_name + "')"@
    } else {
        "ffi.load('"@ + library_name + "')"@
    }
}

pub fn ffi_load(library_name: &str, ffi_load_using_cpath: bool) -> (r: String)
    ensures
        r@ == ffi_load_of(library_name@, ffi_load_using_cpath),
{
    if ffi_load_using_cpath {
        let mut r = String::from_str("ffi.load(\n    package.searchpath('lib");
        r.append(library_name);
        r.append("', package.cpath)\n    or package.searchpath('");
        r.append(library_name);
        r.append("', package.cpath)\n    or '");
        r.append(library_name);
        r.append("')");
        r
    } else {
        let mut r = String::from_str("ffi.load('");
        r.append(library_name);
        r.append("')");
        r
    }
}

/// The pieces of the generated module, which are joined by newlines: the
/// C declarations of the types in `order` and of the entry points, the
/// loading of the library, the wrapper-module declarations of the types,
/// and one wrapper per function.
pub open spec fn module_parts(
    prefix: Seq<char>,
    functions: Seq<Function>,
    ds: Seq<TypeDescription>,
    order: Seq<usize>,
    load: Seq<char>,
) -> Seq<Seq<char>> {
    seq![
        "local ffi = require(\"ffi\")\n\nffi.cdef[[\n"@,
        join(order.map_values(|k: usize| ds[k as int].typedeclaration@), "\n"@),
        join(functions.map_values(|f: Function| c_header_of(prefix, f)), "\n"@),
        "\n]]\n\nlocal rust = "@ + load + "\n\nlocal M = {}\n"@,
        join(order.map_values(|k: usize| ds[k as int].metatype@), "\n"@),
    ] + functions.map_values(|f: Function| wrapper_of(f)) + seq!["\nreturn M\n"@]
}

/// `u` is reached from the result type or an argument type of `f`.
pub open spec fn reached_from_signature(f: Function, u: Ty) -> bool {
    reaches(f.ret, u) || exists|j: int| 0 <= j < f.args@.len() && #[trigger] reaches(f.args@[j].typ, u)
}

/// `u` is reached from the signature of one of the functions.
pub open spec fn reached_from_signatures(functions: Seq<Function>, u: Ty) -> bool {
    exists|i: int| 0 <= i < functions.len() && #[trigger] reached_from_signature(functions[i], u)
}

/// Entry `k` describes a type reached from the signatures.
pub open spec fn described_from_signatures(
    prefix: Seq<char>,
    ds: Seq<TypeDescription>,
    k: int,
    functions: Seq<Function>,
) -> bool {
    exists|u: Ty| reached_from_signatures(functions, u) && describes(prefix, ds, k, u)
}

/// The arena holds the types reached from the signatures: each entry
/// describes one of them, and each of them has an entry of its name.
pub open spec fn arena_of_signatures(
    prefix: Seq<char>,
    functions: Seq<Function>,
    ds: Seq<TypeDescription>,
) -> bool {
    &&& arena_of_types(prefix, ds)
    &&& forall|k: int| 0 <= k < ds.len() ==> #[trigger] described_from_signatures(prefix, ds, k, functions)
    &&& forall|u: Ty| #[trigger] reached_from_signatures(functions, u) ==> has_name(ds, typename_of(u))
}

/// Two different types reached from the signatures carry the name `name`.
pub open spec fn signature_clash(functions: Seq<Function>, name: Seq<char>) -> bool {
    exists|u1: Ty, u2: Ty|
        reached_from_signatures(functions, u1) && reached_from_signatures(functions, u2) && u1 != u2
            && typename_of(u1) == name && typename_of(u2) == name
}

/// Adds one type of a signature, and what it reaches, to the arena.
fn add_signature_type(
    prefix: &TypePrefix,
    functions: &Vec<Function>,
    t: &Ty,
    arena: &mut Vec<TypeDescription>,
) -> (r: Result<(), TypeNameClash>)
    requires
        arena_of_types(prefix.text@, old(arena)@),
        forall|u: Ty| #[trigger] reaches(*t, u) ==> reached_from_signatures(functions@, u),
        forall|k: int|
            0 <= k < old(arena)@.len() ==> #[trigger] described_from_signatures(
                prefix.text@,
                old(arena)@,
                k,
                functions@,
            ),
    ensures
        arena_of_types(prefix.text@, final(arena)@),
        extends(old(arena)@, final(arena)@),
        forall|k: int|
            0 <= k < final(arena)@.len() ==> #[trigger] described_from_signatures(
                prefix.text@,
                final(arena)@,
                k,
                functions@,
            ),
        match r {
            Ok(_) => forall|u: Ty| #[trigger] reaches(*t, u) ==> has_name(final(arena)@, typename_of(u)),
            Err(e) => signature_clash(functions@, e.name@),
        },
{
    let ghost before = arena@;
    let res = add_dependencies(prefix, t, arena);
    proof {
        assert forall|k: int| 0 <= k < arena@.len() implies #[trigger] described_from_signatures(
            prefix.text@,
            arena@,
            k,
            functions@,
        ) by {
            if k < before.len() {
                assert(described_from_signatures(prefix.text@, before, k, functions@));
                let v = choose|v: Ty| reached_from_signatures(functions@, v) && describes(prefix.text@, before, k, v);
                lemma_describes_extends(prefix.text@, before, arena@, k, v);
            } else {
                assert(described_from(prefix.text@, arena@, k, *t));
                let v = choose|v: Ty| reaches(*t, v) && describes(prefix.text@, arena@, k, v);
            }
        }
    }
    match res {
        Ok(_) => Ok(()),
        Err(e) => {
            proof {
                let u1 = choose|u: Ty| reaches(*t, u) && typename_of(u) == e.name@ && clash(prefix.text@, arena@, u);
                let k = choose|k: int|
                    0 <= k < arena@.len() && arena@[k].typename@ == typename_of(u1) && !describes(prefix.text@, arena@, k, u1);
                assert(described_from_signatures(prefix.text@, arena@, k, functions@));
                let u2 = choose|u: Ty| reached_from_signatures(functions@, u) && describes(prefix.text@, arena@, k, u);
                assert(u1 != u2);
                assert(reached_from_signatures(functions@, u1));
                assert(signature_clash(functions@, e.name@));
            }
            Err(e)
        },
    }
}

/// The arena of every type that the signatures of the functions reach.
fn function_types(prefix: &TypePrefix, functions: &Vec<Function>) -> (r: Result<Vec<TypeDescription>, TypeNameClash>)
    ensures
        match r {
            Ok(ds) => arena_of_signatures(prefix.text@, functions@, ds@),
            Err(e) => signature_clash(functions@, e.name@),
        },
{
    let mut arena: Vec<TypeDescription> = Vec::new();
    let mut i: usize = 0;
    while i < functions.len()
        invariant
            i <= functions@.len(),
            arena_of_types(prefix.text@, arena@),
            forall|k: int|
                0 <= k < arena@.len() ==> #[trigger] described_from_signatures(prefix.text@, arena@, k, functions@),
            forall|n: int, u: Ty|
                0 <= n < i && #[trigger] reached_from_signature(functions@[n], u) ==> has_name(arena@, typename_of(u)),
        decreases functions@.len() - i,
    {
        let f = &functions[i];
        let ghost start = arena@;
        let mut j: usize = 0;
        while j < f.args.len()
            invariant
                i < functions@.len(),
                *f == functions@[i as int],
                j <= f.args@.len(),
                arena_of_types(prefix.text@, arena@),
                extends(start, arena@),
                forall|k: int|
                    0 <= k < arena@.len() ==> #[trigger] described_from_signatures(prefix.text@, arena@, k, functions@),
                forall|m: int, u: Ty| 0 <= m < j && #[trigger] reaches(f.args@[m].typ, u) ==> has_name(arena@, typename_of(u)),
            decreases f.args@.len() - j,
        {
            let ghost before = arena@;
            proof {
                assert forall|u: Ty| #[trigger] reaches(f.args@[j as int].typ, u) implies reached_from_signatures(functions@, u) by {
                    assert(reached_from_signature(functions@[i as int], u));
                }
            }
            match add_signature_type(prefix, functions, &f.args[j].typ, &mut arena) {
                Ok(_) => {
                    proof {
                        assert forall|m: int, u: Ty| 0 <= m < j + 1 && #[trigger] reaches(f.args@[m].typ, u) implies has_name(
                            arena@,
                            typename_of(u),
                        ) by {
                            if m < j {
                                lemma_has_name_extends(before, arena@, typename_of(u));
                            }
                        }
                    }
                },
                Err(e) => return Err(e),
            }
            j += 1;
        }
        let ghost mid = arena@;
        proof {
            assert forall|u: Ty| #[trigger] reaches(f.ret, u) implies reached_from_signatures(functions@, u) by {
                assert(reached_from_signature(functions@[i as int], u));
            }
        }
        match add_signature_type(prefix, functions, &f.ret, &mut arena) {
            Ok(_) => {},
            Err(e) => return Err(e),
        }
        proof {
            assert forall|n: int, u: Ty| 0 <= n < i + 1 && #[trigger] reached_from_signature(functions@[n], u) implies has_name(
                arena@,
                typename_of(u),
            ) by {
                if n < i {
                    lemma_has_name_extends(start, arena@, typename_of(u));
                } else if !reaches(f.ret, u) {
                    let m = choose|m: int| 0 <= m < f.args@.len() && #[trigger] reaches(f.args@[m].typ, u);
                    lemma_has_name_extends(mid, arena@, typename_of(u));
                }
            }
        }
        i += 1;
    }
    proof {
        assert forall|u: Ty| #[trigger] reached_from_signatures(functions@, u) implies has_name(arena@, typename_of(u)) by {
            let n = choose|n: int| 0 <= n < functions@.len() && #[trigger] reached_from_signature(functions@[n], u);
        }
    }
    Ok(arena)
}

/// The texts of the arena's entries in the given order.
fn ordered_texts(ds: &Vec<TypeDescription>, order: &Vec<usize>, declarations: bool) -> (r: Vec<
    String,
>)
    requires
        forall|k: int| 0 <= k < order@.len() ==> #[trigger] order@[k] < ds@.len(),
    ensures
        declarations ==> texts(r@) =~= order@.map_values(|k: usize| ds@[k as int].typedeclaration@),
        !declarations ==> texts(r@) =~= order@.map_values(|k: usize| ds@[k as int].metatype@),
{
    let mut r: Vec<String> = Vec::new();
    let mut i: usize = 0;
    while i < order.len()
        invariant
            i <= order@.len(),
            forall|k: int| 0 <= k < order@.len() ==> #[trigger] order@[k] < ds@.len(),
            r@.len() == i,
            forall|k: int| 0 <= k < i ==> #[trigger] r@[k]@ == if declarations {
                ds@[order@[k] as int].typedeclaration@
            } else {
                ds@[order@[k] as int].metatype@
            },
        decreases order@.len() - i,
    {
        let d = &ds[order[i]];
        if declarations {
            r.push(d.typedeclaration.clone());
        } else {
            r.push(d.metatype.clone());
        }
        i += 1;
    }
    proof {
        if declarations {
            assert(texts(r@) =~= order@.map_values(|k: usize| ds@[k as int].typedeclaration@));
        } else {
            assert(texts(r@) =~= order@.map_values(|k: usize| ds@[k as int].metatype@));
        }
    }
    r
}

/// The module that binds the exposed functions: the C declarations of the
/// types they mention, each after the types it refers to, and of their
/// entry points, then the caller-side wrapper of each function.
pub fn generate(
    prefix: &TypePrefix,
    functions: &Vec<Function>,
    library_name: &str,
    ffi_load_using_cpath: bool,
) -> (r: Result<String, TypeNameClash>)
    requires
        forall|i: int| 0 <= i < functions@.len() ==> bindable(#[trigger] functions@[i]),
    ensures
        match r {
            Ok(text) => exists|ds: Seq<TypeDescription>, order: Seq<usize>|
                arena_of_signatures(prefix.text@, functions@, ds) && is_dependency_order(ds, order)
                    && text@ == join(
                    module_parts(
                        prefix.text@,
                        functions@,
                        ds,
                        order,
                        ffi_load_of(library_name@, ffi_load_using_cpath),
                    ),
                    "\n"@,
                ),
            Err(e) => signature_clash(functions@, e.name@),
        },
{
    let ds = match function_types(prefix, functions) {
        Ok(ds) => ds,
        Err(e) => return Err(e),
    };
    let order = match dependency_sorted_type_descriptions(&ds) {
        Ok(order) => order,
        Err(_) => {
            proof {
                lemma_arena_in_order(prefix.text@, ds@);
            }
            Vec::new()
        },
    };
    let mut parts: Vec<String> = Vec::new();
    parts.push(String::from_str("local ffi = require(\"ffi\")\n\nffi.cdef[[\n"));
    parts.push(join_strings(&ordered_texts(&ds, &order, true), "\n"));
    let mut headers: Vec<String> = Vec::new();
    let mut wrappers: Vec<String> = Vec::new();
    let mut i: usize = 0;
    while i < functions.len()
        invariant
            i <= functions@.len(),
            forall|k: int| 0 <= k < functions@.len() ==> bindable(#[trigger] functions@[k]),
            headers@.len() == i,
            wrappers@.len() == i,
            forall|k: int| 0 <= k < i ==> #[trigger] headers@[k]@ == c_header_of(
                prefix.text@,
                functions@[k],
            ),
            forall|k: int| 0 <= k < i ==> #[trigger] wrappers@[k]@ == wrapper_of(functions@[k]),
        decreases functions@.len() - i,
    {
        headers.push(c_header(prefix, &functions[i]));
        wrappers.push(wrapper(&functions[i]));
        i += 1;
    }
    proof {
        assert(texts(headers@) =~= functions@.map_values(|f: Function| c_header_of(prefix.text@, f)));
        assert(texts(wrappers@) =~= functions@.map_values(|f: Function| wrapper_of(f)));
    }
    parts.push(join_strings(&headers, "\n"));
    let mut load = String::from_str("\n]]\n\nlocal rust = ");
    load.append(ffi_load(library_name, ffi_load_using_cpath).as_str());
    load.append("\n\nlocal M = {}\n");
    parts.push(load);
    parts.push(join_strings(&ordered_texts(&ds, &order, false), "\n"));
    let ghost head = parts@;
    parts.append(&mut wrappers);
    parts.push(String::from_str("\nreturn M\n"));
    proof {
        assert(texts(parts@) =~= module_parts(
            prefix.text@,
            functions@,
            ds@,
            order@,
            ffi_load_of(library_name@, ffi_load_using_cpath),
        ));
    }
    Ok(join_strings(&parts, "\n"))
}

impl Function {
    /// Whether the wrapper module can call this function: each argument
    /// can be handed over and the result can be taken back.
    pub fn is_bindable(&self) -> (r: bool)
        ensures
            r == bindable(*self),
    {
        if !self.ret.is_returnable() {
            return false;
        }
        let mut i: usize = 0;
        while i < self.args.len()
            invariant
                i <= self.args@.len(),
                forall|k: int| 0 <= k < i ==> passable(#[trigger] self.args@[k].typ),
            decreases self.args@.len() - i,
        {
            if !self.args[i].typ.is_passable() {
                return false;
            }
            i += 1;
        }
        true
    }
}

} // verus!
