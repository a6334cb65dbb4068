//! The TypeScript mirror: the ambient declaration text for WIT types, as
//! the shape the JavaScript side sees. A pure function of the resolved
//! model, independent of the generators' registries.

use vstd::prelude::*;
use crate::context::{ctx_wf, GeneratorContext};
use crate::errors::GenError;
use crate::model::{
    type_rank, wf, world_wf, Case, Field, Function, Model, PrimKind, TypeDefKind, TypeRef,
    WorldItem,
};
use crate::names::{
    lower_camel_of, to_lower_camel, to_upper_camel, upper_camel_of,
};
use crate::plans::import_module_name;

verus! {

/// The TypeScript type naming a WIT primitive: booleans and strings map
/// to their TypeScript counterparts, a character is a one-character
/// string, 64-bit integers are bigints, and every other number is a
/// TypeScript number.
pub open spec fn ts_prim(pk: PrimKind) -> Seq<char> {
    match pk {
        PrimKind::Bool => "boolean"@,
        PrimKind::U64 => "bigint"@,
        PrimKind::S64 => "bigint"@,
        PrimKind::Char => "string"@,
        PrimKind::Str => "string"@,
        _ => "number"@,
    }
}

/// The TypeScript reference text for a WIT type, with `fuel` bounding the
/// unfolding of anonymous types: a named type is referenced by its
/// UpperCamelCase name; an anonymous list or option wraps its element's
/// reference; an anonymous alias and a handle resolve through their
/// target. Nothing is produced for shapes that need a declared name.
pub open spec fn ts_type_spec(m: Model, t: TypeRef, fuel: nat) -> Option<Seq<char>>
    decreases fuel,
{
    if fuel == 0 {
        None
    } else {
        match t {
            TypeRef::Prim(pk) => Some(ts_prim(pk)),
            TypeRef::Id(i) => {
                if i < m.types.len() {
                    match m.types[i as int].name {
                        Some(n) => Some(upper_camel_of(n@)),
                        None => (match m.types[i as int].kind {
                            TypeDefKind::ListOf(et) => (match ts_type_spec(
                                m,
                                et,
                                (fuel - 1) as nat,
                            ) {
                                Some(s) => Some(s + "[]"@),
                                None => None,
                            }),
                            TypeDefKind::OptionOf(et) => (match ts_type_spec(
                                m,
                                et,
                                (fuel - 1) as nat,
                            ) {
                                Some(s) => Some("("@ + s + " | null)"@),
                                None => None,
                            }),
                            TypeDefKind::Alias(et) => ts_type_spec(m, et, (fuel - 1) as nat),
                            TypeDefKind::Handle(r) => (match m.types[r as int].name {
                                Some(n) => Some(upper_camel_of(n@)),
                                None => None,
                            }),
                            _ => None,
                        }),
                    }
                } else {
                    None
                }
            },
        }
    }
}

/// Renders the TypeScript reference for a type, unfolding anonymous
/// wrappers with the given fuel; a shape that has no reference without a
/// declared name is an error.
pub fn ts_type_text(m: &Model, t: &TypeRef, fuel: usize) -> (r: Result<String, GenError>)
    requires
        wf(*m),
    ensures
        (match r {
            Ok(s) => ts_type_spec(*m, *t, fuel as nat) == Some(s@),
            Err(_) => true,
        }),
        r is Err <==> ts_type_spec(*m, *t, fuel as nat) is None,
    decreases fuel,
{
    if fuel == 0 {
        return Err(GenError::UnknownType(0));
    }
    match t {
        TypeRef::Prim(pk) => Ok(ts_prim_text(*pk)),
        TypeRef::Id(i) => {
            if *i >= m.types.len() {
                return Err(GenError::UnknownType(*i));
            }
            match &m.types[*i].name {
                Some(n) => Ok(to_upper_camel(n.as_str())),
                None => (match &m.types[*i].kind {
                    TypeDefKind::ListOf(et) => {
                        let mut s = match ts_type_text(m, et, fuel - 1) {
                            Ok(s) => s,
                            Err(e) => {
                                return Err(e);
                            },
                        };
                        s.append("[]");
                        Ok(s)
                    },
                    TypeDefKind::OptionOf(et) => {
                        let inner = match ts_type_text(m, et, fuel - 1) {
                            Ok(s) => s,
                            Err(e) => {
                                return Err(e);
                            },
                        };
                        let mut s = String::from_str("(");
                        s.append(inner.as_str());
                        s.append(" | null)");
                        Ok(s)
                    },
                    TypeDefKind::Alias(et) => ts_type_text(m, et, fuel - 1),
                    TypeDefKind::Handle(res) => {
                        proof {
                            assert(crate::model::typedef_wf(*m, *i as int, m.types@[*i as int]));
                        }
                        match &m.types[*res].name {
                            Some(n) => Ok(to_upper_camel(n.as_str())),
                            None => Err(GenError::UnknownType(*res)),
                        }
                    },
                    _ => Err(GenError::UnknownType(*i)),
                }),
            }
        },
    }
}

/// The fuel that suffices for any chain of anonymous types the arena can
/// hold without repeating an entry.
pub fn ts_type_name(m: &Model, t: &TypeRef) -> (r: Result<String, GenError>)
    requires
        wf(*m),
        m.types@.len() < usize::MAX,
    ensures
        (match r {
            Ok(s) => ts_type_spec(*m, *t, (m.types@.len() + 1) as nat) == Some(s@),
            Err(_) => ts_type_spec(*m, *t, (m.types@.len() + 1) as nat) is None,
        }),
{
    ts_type_text(m, t, m.types.len() + 1)
}

fn ts_prim_text(pk: PrimKind) -> (r: String)
    ensures
        r@ == ts_prim(pk),
{
    match pk {
        PrimKind::Bool => String::from_str("boolean"),
        PrimKind::U64 => String::from_str("bigint"),
        PrimKind::S64 => String::from_str("bigint"),
        PrimKind::Char => String::from_str("string"),
        PrimKind::Str => String::from_str("string"),
        _ => String::from_str("number"),
    }
}


/// The reference text of a type at the standard fuel.
pub open spec fn ts_ref(m: Model, t: TypeRef) -> Option<Seq<char>> {
    ts_type_spec(m, t, (m.types@.len() + 1) as nat)
}

/// Concatenation over optional texts: defined only when both sides are.
pub open spec fn cat2(a: Option<Seq<char>>, b: Option<Seq<char>>) -> Option<Seq<char>> {
    match (a, b) {
        (Some(x), Some(y)) => Some(x + y),
        _ => None,
    }
}

/// One declared parameter: its lowerCamelCase name, its type, and a
/// trailing separator.
pub open spec fn spec_param(m: Model, p: Field) -> Option<Seq<char>> {
    match ts_ref(m, p.ty) {
        Some(t) => Some(lower_camel_of(p.name@) + ": "@ + t + ", "@),
        None => None,
    }
}

/// The declared parameter list, in order.
pub open spec fn spec_params_text(m: Model, params: Seq<Field>) -> Option<Seq<char>>
    decreases params.len(),
{
    if params.len() == 0 {
        Some(Seq::empty())
    } else {
        cat2(spec_param(m, params[0]), spec_params_text(m, params.drop_first()))
    }
}

/// The declared result type; a function without one returns `void`.
pub open spec fn spec_ret(m: Model, r: Option<TypeRef>) -> Option<Seq<char>> {
    match r {
        None => Some("void"@),
        Some(t) => ts_ref(m, t),
    }
}

/// One exported function declaration.
pub open spec fn spec_fn_decl(m: Model, f: Function) -> Option<Seq<char>> {
    match (spec_params_text(m, f.params@), spec_ret(m, f.result)) {
        (Some(ps), Some(rt)) => Some(
            "export function "@ + lower_camel_of(f.name@) + "("@ + ps + "): "@ + rt + ";\n"@,
        ),
        _ => None,
    }
}

/// The function declarations of a whole interface, in order.
pub open spec fn spec_fns_text(m: Model, fns: Seq<Function>) -> Option<Seq<char>>
    decreases fns.len(),
{
    if fns.len() == 0 {
        Some(Seq::empty())
    } else {
        cat2(spec_fn_decl(m, fns[0]), spec_fns_text(m, fns.drop_first()))
    }
}

/// One record field of an object type, with its key quoted.
pub open spec fn spec_field(m: Model, f: Field) -> Option<Seq<char>> {
    match ts_ref(m, f.ty) {
        Some(t) => Some("\""@ + f.name@ + "\": "@ + t + "; "@),
        None => None,
    }
}

pub open spec fn spec_fields_text(m: Model, fields: Seq<Field>) -> Option<Seq<char>>
    decreases fields.len(),
{
    if fields.len() == 0 {
        Some(Seq::empty())
    } else {
        cat2(spec_field(m, fields[0]), spec_fields_text(m, fields.drop_first()))
    }
}

/// One variant case of a discriminated union, with a leading `|`.
pub open spec fn spec_case(m: Model, c: Case) -> Option<Seq<char>> {
    match c.payload {
        None => Some("| { tag: \""@ + c.name@ + "\" } "@),
        Some(pt) => (match ts_ref(m, pt) {
            Some(t) => Some("| { tag: \""@ + c.name@ + "\", val: "@ + t + " } "@),
            None => None,
        }),
    }
}

pub open spec fn spec_cases_text(m: Model, cases: Seq<Case>) -> Option<Seq<char>>
    decreases cases.len(),
{
    if cases.len() == 0 {
        Some(Seq::empty())
    } else {
        cat2(spec_case(m, cases[0]), spec_cases_text(m, cases.drop_first()))
    }
}

/// An enumeration as a union of its case-name string literals.
pub open spec fn spec_enum_text(names: Seq<String>) -> Seq<char>
    decreases names.len(),
{
    if names.len() == 0 {
        Seq::empty()
    } else {
        "| \""@ + names[0]@ + "\" "@ + spec_enum_text(names.drop_first())
    }
}

/// A flag set as an object of booleans keyed by the flag names.
pub open spec fn spec_flags_text(names: Seq<String>) -> Seq<char>
    decreases names.len(),
{
    if names.len() == 0 {
        Seq::empty()
    } else {
        "\""@ + names[0]@ + "\": boolean; "@ + spec_flags_text(names.drop_first())
    }
}

pub open spec fn spec_tuple_text(m: Model, elems: Seq<TypeRef>) -> Option<Seq<char>>
    decreases elems.len(),
{
    if elems.len() == 0 {
        Some(Seq::empty())
    } else {
        let head = (match ts_ref(m, elems[0]) {
            Some(t) => Some(t + ", "@),
            None => None,
        });
        cat2(head, spec_tuple_text(m, elems.drop_first()))
    }
}

/// One side of a result union.
pub open spec fn spec_result_side(m: Model, side: Option<TypeRef>, is_ok: bool) -> Option<
    Seq<char>,
> {
    match side {
        None => Some(
            if is_ok {
                "| { tag: \"ok\" } "@
            } else {
                "| { tag: \"err\" } "@
            },
        ),
        Some(t) => (match ts_ref(m, t) {
            Some(ts) => Some(
                (if is_ok {
                    "| { tag: \"ok\", val: "@
                } else {
                    "| { tag: \"err\", val: "@
                }) + ts + " } "@,
            ),
            None => None,
        }),
    }
}

/// The declaration body of a type-arena entry: records become object
/// types, variants and results discriminated unions, enumerations
/// string-literal unions, flag sets boolean objects, tuples tuple types,
/// resources opaque objects; the structural wrappers defer to their
/// element's reference.
pub open spec fn spec_type_body(m: Model, i: int) -> Option<Seq<char>> {
    match m.types[i].kind {
        TypeDefKind::Record(fields) => (match spec_fields_text(m, fields@) {
            Some(fs) => Some("{ "@ + fs + "}"@),
            None => None,
        }),
        TypeDefKind::Variant(cases) => if cases@.len() == 0 {
            Some("never"@)
        } else {
            spec_cases_text(m, cases@)
        },
        TypeDefKind::Enumeration(names) => if names@.len() == 0 {
            Some("never"@)
        } else {
            Some(spec_enum_text(names@))
        },
        TypeDefKind::Flags(names) => Some("{ "@ + spec_flags_text(names@) + "}"@),
        TypeDefKind::Tuple(elems) => (match spec_tuple_text(m, elems@) {
            Some(ts) => Some("["@ + ts + "]"@),
            None => None,
        }),
        TypeDefKind::OptionOf(et) => (match ts_ref(m, et) {
            Some(t) => Some("("@ + t + " | null)"@),
            None => None,
        }),
        TypeDefKind::ResultOf(ok, err) => cat2(
            spec_result_side(m, ok, true),
            spec_result_side(m, err, false),
        ),
        TypeDefKind::ListOf(et) => (match ts_ref(m, et) {
            Some(t) => Some(t + "[]"@),
            None => None,
        }),
        TypeDefKind::Resource => Some("object"@),
        TypeDefKind::Handle(r) => (match m.types[r as int].name {
            Some(n) => Some(upper_camel_of(n@)),
            None => None,
        }),
        TypeDefKind::Alias(et) => ts_ref(m, et),
    }
}

/// The full declaration of a named type-arena entry.
pub open spec fn spec_typedef_decl(m: Model, i: int) -> Option<Seq<char>> {
    if 0 <= i < m.types.len() {
        match m.types[i].name {
            Some(n) => (match spec_type_body(m, i) {
                Some(b) => Some("export type "@ + upper_camel_of(n@) + " = "@ + b + ";\n"@),
                None => None,
            }),
            None => None,
        }
    } else {
        None
    }
}

/// The declaration an export-table item contributes: a bare function its
/// signature, an interface all of its functions' signatures, a type its
/// declaration.
pub open spec fn spec_export_item(m: Model, item: WorldItem) -> Option<Seq<char>> {
    match item {
        WorldItem::Function(f) => spec_fn_decl(m, f),
        WorldItem::Interface(id) => if id < m.interfaces.len() {
            spec_fns_text(m, m.interfaces[id as int].functions@)
        } else {
            None
        },
        WorldItem::Type(t) => spec_typedef_decl(m, t as int),
    }
}

/// The export surface's whole declaration text, table order.
pub open spec fn spec_export_dts(m: Model, table: Seq<(String, WorldItem)>) -> Option<Seq<char>>
    decreases table.len(),
{
    if table.len() == 0 {
        Some(Seq::empty())
    } else {
        cat2(spec_export_item(m, table[0].1), spec_export_dts(m, table.drop_first()))
    }
}


/// Renders a declared parameter list.
fn params_text(m: &Model, params: &Vec<Field>) -> (r: Result<String, GenError>)
    requires
        wf(*m),
        m.types@.len() < usize::MAX,
    ensures
        (match r {
            Ok(s) => Some(s@) == spec_params_text(*m, params@),
            Err(_) => true,
        }),
        r is Err <==> spec_params_text(*m, params@) is None,
{
    let mut out = String::new();
    let mut k: usize = 0;
    proof {
        assert(params@.skip(0) =~= params@);
    }
    while k < params.len()
        invariant
            wf(*m),
            m.types@.len() < usize::MAX,
            k <= params@.len(),
            cat2(Some(out@), spec_params_text(*m, params@.skip(k as int))) == spec_params_text(
                *m,
                params@,
            ),
        decreases params@.len() - k,
    {
        proof {
            assert(params@.skip(k as int)[0] == params@[k as int]);
            assert(params@.skip(k as int).drop_first() =~= params@.skip(k + 1));
        }
        let t = match ts_type_text(m, &params[k].ty, m.types.len() + 1) {
            Ok(t) => t,
            Err(e) => {
                return Err(e);
            },
        };
        let mut piece = to_lower_camel(params[k].name.as_str());
        piece.append(": ");
        piece.append(t.as_str());
        piece.append(", ");
        out.append(piece.as_str());
        k += 1;
    }
    proof {
        assert(params@.skip(params@.len() as int) =~= Seq::<Field>::empty());
    }
    Ok(out)
}

/// Renders one exported function declaration.
fn fn_decl(m: &Model, f: &Function) -> (r: Result<String, GenError>)
    requires
        wf(*m),
        m.types@.len() < usize::MAX,
    ensures
        (match r {
            Ok(s) => Some(s@) == spec_fn_decl(*m, *f),
            Err(_) => true,
        }),
        r is Err <==> spec_fn_decl(*m, *f) is None,
{
    let ps = match params_text(m, &f.params) {
        Ok(ps) => ps,
        Err(e) => {
            return Err(e);
        },
    };
    let rt = match &f.result {
        None => String::from_str("void"),
        Some(t) => (match ts_type_text(m, t, m.types.len() + 1) {
            Ok(rt) => rt,
            Err(e) => {
                return Err(e);
            },
        }),
    };
    let mut out = String::from_str("export function ");
    let camel = to_lower_camel(f.name.as_str());
    out.append(camel.as_str());
    out.append("(");
    out.append(ps.as_str());
    out.append("): ");
    out.append(rt.as_str());
    out.append(";\n");
    Ok(out)
}

/// Renders every function declaration of an interface, in order.
fn fns_text(m: &Model, fns: &Vec<Function>) -> (r: Result<String, GenError>)
    requires
        wf(*m),
        m.types@.len() < usize::MAX,
    ensures
        (match r {
            Ok(s) => Some(s@) == spec_fns_text(*m, fns@),
            Err(_) => true,
        }),
        r is Err <==> spec_fns_text(*m, fns@) is None,
{
    let mut out = String::new();
    let mut k: usize = 0;
    proof {
        assert(fns@.skip(0) =~= fns@);
    }
    while k < fns.len()
        invariant
            wf(*m),
            m.types@.len() < usize::MAX,
            k <= fns@.len(),
            cat2(Some(out@), spec_fns_text(*m, fns@.skip(k as int))) == spec_fns_text(*m, fns@),
        decreases fns@.len() - k,
    {
        proof {
            assert(fns@.skip(k as int)[0] == fns@[k as int]);
            assert(fns@.skip(k as int).drop_first() =~= fns@.skip(k + 1));
        }
        let d = match fn_decl(m, &fns[k]) {
            Ok(d) => d,
            Err(e) => {
                return Err(e);
            },
        };
        out.append(d.as_str());
        k += 1;
    }
    proof {
        assert(fns@.skip(fns@.len() as int) =~= Seq::<Function>::empty());
    }
    Ok(out)
}

/// Renders the fields of a record body.
fn fields_text(m: &Model, fields: &Vec<Field>) -> (r: Result<String, GenError>)
    requires
        wf(*m),
        m.types@.len() < usize::MAX,
    ensures
        (match r {
            Ok(s) => Some(s@) == spec_fields_text(*m, fields@),
            Err(_) => true,
        }),
        r is Err <==> spec_fields_text(*m, fields@) is None,
{
    let mut out = String::new();
    let mut k: usize = 0;
    proof {
        assert(fields@.skip(0) =~= fields@);
    }
    while k < fields.len()
        invariant
            wf(*m),
            m.types@.len() < usize::MAX,
            k <= fields@.len(),
            cat2(Some(out@), spec_fields_text(*m, fields@.skip(k as int))) == spec_fields_text(
                *m,
                fields@,
            ),
        decreases fields@.len() - k,
    {
        proof {
            assert(fields@.skip(k as int)[0] == fields@[k as int]);
            assert(fields@.skip(k as int).drop_first() =~= fields@.skip(k + 1));
        }
        let t = match ts_type_text(m, &fields[k].ty, m.types.len() + 1) {
            Ok(t) => t,
            Err(e) => {
                return Err(e);
            },
        };
        out.append("\"");
        out.append(fields[k].name.as_str());
        out.append("\": ");
        out.append(t.as_str());
        out.append("; ");
        k += 1;
    }
    proof {
        assert(fields@.skip(fields@.len() as int) =~= Seq::<Field>::empty());
    }
    Ok(out)
}

/// Renders the cases of a variant body.
fn cases_text(m: &Model, cases: &Vec<Case>) -> (r: Result<String, GenError>)
    requires
        wf(*m),
        m.types@.len() < usize::MAX,
    ensures
        (match r {
            Ok(s) => Some(s@) == spec_cases_text(*m, cases@),
            Err(_) => true,
        }),
        r is Err <==> spec_cases_text(*m, cases@) is None,
{
    let mut out = String::new();
    let mut k: usize = 0;
    proof {
        assert(cases@.skip(0) =~= cases@);
    }
    while k < cases.len()
        invariant
            wf(*m),
            m.types@.len() < usize::MAX,
            k <= cases@.len(),
            cat2(Some(out@), spec_cases_text(*m, cases@.skip(k as int))) == spec_cases_text(
                *m,
                cases@,
            ),
        decreases cases@.len() - k,
    {
        proof {
            assert(cases@.skip(k as int)[0] == cases@[k as int]);
            assert(cases@.skip(k as int).drop_first() =~= cases@.skip(k + 1));
        }
        match &cases[k].payload {
            None => {
                out.append("| { tag: \"");
                out.append(cases[k].name.as_str());
                out.append("\" } ");
            },
            Some(pt) => {
                let t = match ts_type_text(m, pt, m.types.len() + 1) {
                    Ok(t) => t,
                    Err(e) => {
                        return Err(e);
                    },
                };
                out.append("| { tag: \"");
                out.append(cases[k].name.as_str());
                out.append("\", val: ");
                out.append(t.as_str());
                out.append(" } ");
            },
        }
        k += 1;
    }
    proof {
        assert(cases@.skip(cases@.len() as int) =~= Seq::<Case>::empty());
    }
    Ok(out)
}

/// Renders an enumeration body.
fn enum_text(names: &Vec<String>) -> (r: String)
    ensures
        r@ == spec_enum_text(names@),
{
    let mut out = String::new();
    let mut k: usize = 0;
    proof {
        assert(names@.skip(0) =~= names@);
    }
    while k < names.len()
        invariant
            k <= names@.len(),
            out@ + spec_enum_text(names@.skip(k as int)) == spec_enum_text(names@),
        decreases names@.len() - k,
    {
        proof {
            assert(names@.skip(k as int)[0] == names@[k as int]);
            assert(names@.skip(k as int).drop_first() =~= names@.skip(k + 1));
        }
        out.append("| \"");
        out.append(names[k].as_str());
        out.append("\" ");
        k += 1;
    }
    proof {
        assert(names@.skip(names@.len() as int) =~= Seq::<String>::empty());
        assert(out@ =~= out@ + spec_enum_text(names@.skip(names@.len() as int)));
    }
    out
}

/// Renders a flag-set body.
fn flags_text(names: &Vec<String>) -> (r: String)
    ensures
        r@ == spec_flags_text(names@),
{
    let mut out = String::new();
    let mut k: usize = 0;
    proof {
        assert(names@.skip(0) =~= names@);
    }
    while k < names.len()
        invariant
            k <= names@.len(),
            out@ + spec_flags_text(names@.skip(k as int)) == spec_flags_text(names@),
        decreases names@.len() - k,
    {
        proof {
            assert(names@.skip(k as int)[0] == names@[k as int]);
            assert(names@.skip(k as int).drop_first() =~= names@.skip(k + 1));
        }
        out.append("\"");
        out.append(names[k].as_str());
        out.append("\": boolean; ");
        k += 1;
    }
    proof {
        assert(names@.skip(names@.len() as int) =~= Seq::<String>::empty());
        assert(out@ =~= out@ + spec_flags_text(names@.skip(names@.len() as int)));
    }
    out
}

/// Renders a tuple body.
fn tuple_text(m: &Model, elems: &Vec<TypeRef>) -> (r: Result<String, GenError>)
    requires
        wf(*m),
        m.types@.len() < usize::MAX,
    ensures
        (match r {
            Ok(s) => Some(s@) == spec_tuple_text(*m, elems@),
            Err(_) => true,
        }),
        r is Err <==> spec_tuple_text(*m, elems@) is None,
{
    let mut out = String::new();
    let mut k: usize = 0;
    proof {
        assert(elems@.skip(0) =~= elems@);
    }
    while k < elems.len()
        invariant
            wf(*m),
            m.types@.len() < usize::MAX,
            k <= elems@.len(),
            cat2(Some(out@), spec_tuple_text(*m, elems@.skip(k as int))) == spec_tuple_text(
                *m,
                elems@,
            ),
        decreases elems@.len() - k,
    {
        proof {
            assert(elems@.skip(k as int)[0] == elems@[k as int]);
            assert(elems@.skip(k as int).drop_first() =~= elems@.skip(k + 1));
        }
        let t = match ts_type_text(m, &elems[k], m.types.len() + 1) {
            Ok(t) => t,
            Err(e) => {
                return Err(e);
            },
        };
        out.append(t.as_str());
        out.append(", ");
        k += 1;
    }
    proof {
        assert(elems@.skip(elems@.len() as int) =~= Seq::<TypeRef>::empty());
    }
    Ok(out)
}

/// Renders the declaration of a named type-arena entry.
pub fn typedef_decl(m: &Model, i: usize) -> (r: Result<String, GenError>)
    requires
        wf(*m),
        m.types@.len() < usize::MAX,
    ensures
        (match r {
            Ok(s) => Some(s@) == spec_typedef_decl(*m, i as int),
            Err(_) => true,
        }),
        r is Err <==> spec_typedef_decl(*m, i as int) is None,
{
    if i >= m.types.len() {
        return Err(GenError::UnknownType(i));
    }
    let name = match &m.types[i].name {
        Some(n) => n,
        None => {
            return Err(GenError::UnknownType(i));
        },
    };
    proof {
        assert(crate::model::typedef_wf(*m, i as int, m.types@[i as int]));
    }
    let body = match &m.types[i].kind {
        TypeDefKind::Record(fields) => {
            let fs = match fields_text(m, fields) {
                Ok(fs) => fs,
                Err(e) => {
                    return Err(e);
                },
            };
            let mut b = String::from_str("{ ");
            b.append(fs.as_str());
            b.append("}");
            b
        },
        TypeDefKind::Variant(cases) => {
            if cases.len() == 0 {
                String::from_str("never")
            } else {
                match cases_text(m, cases) {
                    Ok(cs) => cs,
                    Err(e) => {
                        return Err(e);
                    },
                }
            }
        },
        TypeDefKind::Enumeration(names) => {
            if names.len() == 0 {
                String::from_str("never")
            } else {
                enum_text(names)
            }
        },
        TypeDefKind::Flags(names) => {
            let fs = flags_text(names);
            let mut b = String::from_str("{ ");
            b.append(fs.as_str());
            b.append("}");
            b
        },
        TypeDefKind::Tuple(elems) => {
            let ts = match tuple_text(m, elems) {
                Ok(ts) => ts,
                Err(e) => {
                    return Err(e);
                },
            };
            let mut b = String::from_str("[");
            b.append(ts.as_str());
            b.append("]");
            b
        },
        TypeDefKind::OptionOf(et) => {
            let t = match ts_type_text(m, et, m.types.len() + 1) {
                Ok(t) => t,
                Err(e) => {
                    return Err(e);
                },
            };
            let mut b = String::from_str("(");
            b.append(t.as_str());
            b.append(" | null)");
            b
        },
        TypeDefKind::ResultOf(ok, err) => {
            let mut b = String::new();
            match ok {
                None => {
                    b.append("| { tag: \"ok\" } ");
                },
                Some(t) => {
                    let ts = match ts_type_text(m, t, m.types.len() + 1) {
                        Ok(ts) => ts,
                        Err(e) => {
                            return Err(e);
                        },
                    };
                    b.append("| { tag: \"ok\", val: ");
                    b.append(ts.as_str());
                    b.append(" } ");
                },
            }
            match err {
                None => {
                    b.append("| { tag: \"err\" } ");
                },
                Some(t) => {
                    let ts = match ts_type_text(m, t, m.types.len() + 1) {
                        Ok(ts) => ts,
                        Err(e) => {
                            return Err(e);
                        },
                    };
                    b.append("| { tag: \"err\", val: ");
                    b.append(ts.as_str());
                    b.append(" } ");
                },
            }
            b
        },
        TypeDefKind::ListOf(et) => {
            let mut b = match ts_type_text(m, et, m.types.len() + 1) {
                Ok(t) => t,
                Err(e) => {
                    return Err(e);
                },
            };
            b.append("[]");
            b
        },
        TypeDefKind::Resource => String::from_str("object"),
        TypeDefKind::Handle(res) => {
            match &m.types[*res].name {
                Some(n) => to_upper_camel(n.as_str()),
                None => {
                    return Err(GenError::UnknownType(*res));
                },
            }
        },
        TypeDefKind::Alias(et) => {
            match ts_type_text(m, et, m.types.len() + 1) {
                Ok(t) => t,
                Err(e) => {
                    return Err(e);
                },
            }
        },
    };
    let mut out = String::from_str("export type ");
    let camel = to_upper_camel(name.as_str());
    out.append(camel.as_str());
    out.append(" = ");
    out.append(body.as_str());
    out.append(";\n");
    Ok(out)
}

/// The ambient declaration text of the selected world's export surface:
/// the shape the implementing module must satisfy, one declaration per
/// exported function, interface function, and named type, in table
/// order. Fails exactly where some declaration has no expressible text.
pub fn export_surface_dts(c: &GeneratorContext) -> (r: Result<String, GenError>)
    requires
        ctx_wf(*c),
        c.model.types@.len() < usize::MAX,
    ensures
        (match r {
            Ok(s) => Some(s@) == spec_export_dts(
                c.model,
                c.model.worlds[c.world as int].exports@,
            ),
            Err(_) => true,
        }),
        r is Err <==> spec_export_dts(c.model, c.model.worlds[c.world as int].exports@) is None,
{
    let table = &c.model.worlds[c.world].exports;
    let mut out = String::new();
    let mut k: usize = 0;
    proof {
        assert(table@.skip(0) =~= table@);
        assert(world_wf(c.model, c.model.worlds@[c.world as int]));
    }
    while k < table.len()
        invariant
            ctx_wf(*c),
            c.model.types@.len() < usize::MAX,
            table == &c.model.worlds[c.world as int].exports,
            k <= table@.len(),
            cat2(Some(out@), spec_export_dts(c.model, table@.skip(k as int))) == spec_export_dts(
                c.model,
                table@,
            ),
        decreases table@.len() - k,
    {
        proof {
            assert(table@.skip(k as int)[0] == table@[k as int]);
            assert(table@.skip(k as int).drop_first() =~= table@.skip(k + 1));
            assert(crate::model::item_table_wf(c.model, table@));
            assert(crate::model::world_item_wf(c.model, table@[k as int].1));
        }
        let piece = match &table[k].1 {
            WorldItem::Function(f) => (match fn_decl(&c.model, f) {
                Ok(d) => d,
                Err(e) => {
                    return Err(e);
                },
            }),
            WorldItem::Interface(id) => (match fns_text(&c.model, &c.model.interfaces[*id].functions) {
                Ok(d) => d,
                Err(e) => {
                    return Err(e);
                },
            }),
            WorldItem::Type(t) => (match typedef_decl(&c.model, *t) {
                Ok(d) => d,
                Err(e) => {
                    return Err(e);
                },
            }),
        };
        out.append(piece.as_str());
        k += 1;
    }
    proof {
        assert(table@.skip(table@.len() as int) =~= Seq::<(String, WorldItem)>::empty());
    }
    Ok(out)
}


/// The ambient module declaration for one imported interface: a
/// `declare module` block under the interface's qualified module name,
/// holding its function declarations.
pub open spec fn spec_import_module(m: Model, id: int) -> Option<Seq<char>> {
    if m.interfaces[id].name is Some && m.interfaces[id].package is Some {
        match spec_fns_text(m, m.interfaces[id].functions@) {
            Some(fs) => Some(
                "declare module \""@ + import_module_name(m, id) + "\" {\n"@ + fs + "}\n"@,
            ),
            None => None,
        }
    } else {
        None
    }
}

/// Concatenation over optional module lists.
pub open spec fn cat_mods(
    a: Option<Seq<(Seq<char>, Seq<char>)>>,
    b: Option<Seq<(Seq<char>, Seq<char>)>>,
) -> Option<Seq<(Seq<char>, Seq<char>)>> {
    match (a, b) {
        (Some(x), Some(y)) => Some(x + y),
        _ => None,
    }
}

/// The import surface's module declarations, one per imported interface
/// in table order, each under its qualified module name; bare function
/// and type imports contribute no module group. An anonymous interface
/// makes the whole surface undefined.
pub open spec fn spec_import_modules(m: Model, table: Seq<(String, WorldItem)>) -> Option<
    Seq<(Seq<char>, Seq<char>)>,
>
    decreases table.len(),
{
    if table.len() == 0 {
        Some(Seq::empty())
    } else {
        let head = (match table[0].1 {
            WorldItem::Interface(id) => (match spec_import_module(m, id as int) {
                Some(text) => Some(seq![(import_module_name(m, id as int), text)]),
                None => None,
            }),
            WorldItem::Function(_) => Some(Seq::empty()),
            WorldItem::Type(_) => Some(Seq::empty()),
        });
        cat_mods(head, spec_import_modules(m, table.drop_first()))
    }
}

/// The declaration files of the selected world's import surface: for
/// each imported interface, its qualified module name paired with its
/// ambient module text. An anonymous-interface import fails rather than
/// being silently omitted.
pub fn import_surface_dts(c: &GeneratorContext) -> (r: Result<Vec<(String, String)>, GenError>)
    requires
        ctx_wf(*c),
        c.model.types@.len() < usize::MAX,
    ensures
        (match r {
            Ok(v) => Some(v@.map_values(|pr: (String, String)| (pr.0@, pr.1@)))
                == spec_import_modules(c.model, c.model.worlds[c.world as int].imports@),
            Err(_) => true,
        }),
        r is Err <==> spec_import_modules(c.model, c.model.worlds[c.world as int].imports@)
            is None,
{
    let table = &c.model.worlds[c.world].imports;
    let mut out: Vec<(String, String)> = Vec::new();
    let mut k: usize = 0;
    proof {
        assert(table@.skip(0) =~= table@);
        assert(world_wf(c.model, c.model.worlds@[c.world as int]));
    }
    while k < table.len()
        invariant
            ctx_wf(*c),
            c.model.types@.len() < usize::MAX,
            table == &c.model.worlds[c.world as int].imports,
            k <= table@.len(),
            cat_mods(
                Some(out@.map_values(|pr: (String, String)| (pr.0@, pr.1@))),
                spec_import_modules(c.model, table@.skip(k as int)),
            ) == spec_import_modules(c.model, table@),
        decreases table@.len() - k,
    {
        proof {
            assert(table@.skip(k as int)[0] == table@[k as int]);
            assert(table@.skip(k as int).drop_first() =~= table@.skip(k + 1));
            assert(crate::model::item_table_wf(c.model, table@));
            assert(crate::model::world_item_wf(c.model, table@[k as int].1));
        }
        match &table[k].1 {
            WorldItem::Interface(id) => {
                let view = match c.get_imported_interface(*id) {
                    Ok(view) => view,
                    Err(e) => {
                        return Err(e);
                    },
                };
                let module = match view.module_name() {
                    Ok(s) => s,
                    Err(_) => {
                        proof {
                            assert(false);
                        }
                        return Err(GenError::MissingPackageName);
                    },
                };
                let fs = match fns_text(&c.model, &c.model.interfaces[*id].functions) {
                    Ok(fs) => fs,
                    Err(e) => {
                        return Err(e);
                    },
                };
                let mut text = String::from_str("declare module \"");
                text.append(module.as_str());
                text.append("\" {\n");
                text.append(fs.as_str());
                text.append("}\n");
                out.push((module, text));
            },
            WorldItem::Function(_) => {},
            WorldItem::Type(_) => {},
        }
        k += 1;
    }
    proof {
        assert(table@.skip(table@.len() as int) =~= Seq::<(String, WorldItem)>::empty());
    }
    Ok(out)
}

} // verus!
