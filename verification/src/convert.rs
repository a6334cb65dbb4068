//! The conversion pipeline's semantics: which host values inhabit a WIT
//! type, what guest value a host value lowers to, and the verified
//! bidirectional converters with their round-trip laws.

use vstd::prelude::*;
use crate::model::{
    kind_wf, ref_wf, type_rank, typedef_wf, wf, Model, PrimKind, TypeDefKind, TypeRef,
};
use crate::values::{wit_eq, GuestVal, WitVal};

verus! {

broadcast use vstd::std_specs::vec::group_vec_axioms;

/// The object key holding a tagged value's tag.
pub open spec fn tag_key() -> Seq<char> {
    seq!['t', 'a', 'g']
}

/// The object key holding a tagged value's payload.
pub open spec fn val_key() -> Seq<char> {
    seq!['v', 'a', 'l']
}

pub open spec fn none_tag() -> Seq<char> {
    seq!['n', 'o', 'n', 'e']
}

pub open spec fn some_tag() -> Seq<char> {
    seq!['s', 'o', 'm', 'e']
}

pub open spec fn ok_tag() -> Seq<char> {
    seq!['o', 'k']
}

pub open spec fn err_tag() -> Seq<char> {
    seq!['e', 'r', 'r']
}

/// Whether host value `v` inhabits type `t`. Resources and handles are
/// not value-convertible: they live in the host's resource table and
/// never pass through value conversion. Floating-point primitives carry
/// no host value here either.
pub open spec fn has_type(m: Model, t: TypeRef, v: WitVal) -> bool
    decreases v, type_rank(t),
    when wf(m)
    via has_type_decreases
{
    match t {
        TypeRef::Prim(pk) => (match pk {
            PrimKind::Bool => v is BoolVal,
            PrimKind::U8 => v is U8Val,
            PrimKind::U16 => v is U16Val,
            PrimKind::U32 => v is U32Val,
            PrimKind::U64 => v is U64Val,
            PrimKind::S8 => v is S8Val,
            PrimKind::S16 => v is S16Val,
            PrimKind::S32 => v is S32Val,
            PrimKind::S64 => v is S64Val,
            PrimKind::Char => v is CharVal,
            PrimKind::Str => v is StrVal,
            PrimKind::Float32 => false,
            PrimKind::Float64 => false,
        }),
        TypeRef::Id(i) => 0 <= i < m.types.len() && (match m.types[i as int].kind {
            TypeDefKind::Record(fields) => v matches WitVal::RecordVal(vals) && vals.len()
                == fields.len() && (forall|k: int|
                0 <= k < vals.len() ==> has_type(m, fields[k].ty, #[trigger] vals[k])),
            TypeDefKind::Variant(cases) => v matches WitVal::VariantVal(k, p) && k < cases.len()
                && (match (cases[k as int].payload, p) {
                (Some(pt), Some(pv)) => has_type(m, pt, *pv),
                (None, None) => true,
                _ => false,
            }),
            TypeDefKind::Enumeration(names) => v matches WitVal::EnumVal(k) && k < names.len(),
            TypeDefKind::Flags(names) => v matches WitVal::FlagsVal(bits) && bits.len()
                == names.len(),
            TypeDefKind::Tuple(elems) => v matches WitVal::TupleVal(vals) && vals.len()
                == elems.len() && (forall|k: int|
                0 <= k < vals.len() ==> has_type(m, elems[k], #[trigger] vals[k])),
            TypeDefKind::OptionOf(et) => v matches WitVal::OptionVal(p) && (match p {
                Some(pv) => has_type(m, et, *pv),
                None => true,
            }),
            TypeDefKind::ResultOf(okt, errt) => v matches WitVal::ResultVal(ok, p) && (match (
                if ok {
                    okt
                } else {
                    errt
                },
                p,
            ) {
                (Some(pt), Some(pv)) => has_type(m, pt, *pv),
                (None, None) => true,
                _ => false,
            }),
            TypeDefKind::ListOf(et) => v matches WitVal::ListVal(vals) && (forall|k: int|
                0 <= k < vals.len() ==> has_type(m, et, #[trigger] vals[k])),
            TypeDefKind::Resource => false,
            TypeDefKind::Handle(_) => false,
            TypeDefKind::Alias(at) => has_type(m, at, v),
        }),
    }
}

#[via_fn]
proof fn has_type_decreases(m: Model, t: TypeRef, v: WitVal) {
    match t {
        TypeRef::Id(i) => {
            if 0 <= i < m.types.len() {
                assert(typedef_wf(m, i as int, m.types[i as int]));
            }
        },
        TypeRef::Prim(_) => {},
    }
}

/// Whether the well-typed host value `v` lowers to the guest value `g`:
/// scalars become guest numbers, booleans and strings; a character
/// becomes a one-character string; records become objects with one entry
/// per field in declaration order; variants, options and results become
/// tag/payload objects; enumeration values become their case name; flag
/// sets become an object keyed by every declared flag name, each mapped
/// to whether the flag is set; tuples and lists become arrays. Aliases
/// lower as their target type.
pub open spec fn lowers_to(m: Model, t: TypeRef, v: WitVal, g: GuestVal) -> bool
    decreases v, type_rank(t),
    when wf(m)
    via lowers_to_decreases
{
    match t {
        TypeRef::Prim(pk) => (match pk {
            PrimKind::Bool => v matches WitVal::BoolVal(b) && g == (GuestVal::BoolVal(b)),
            PrimKind::U8 => v matches WitVal::U8Val(x) && g == (GuestVal::Num(x as i128)),
            PrimKind::U16 => v matches WitVal::U16Val(x) && g == (GuestVal::Num(x as i128)),
            PrimKind::U32 => v matches WitVal::U32Val(x) && g == (GuestVal::Num(x as i128)),
            PrimKind::U64 => v matches WitVal::U64Val(x) && g == (GuestVal::Num(x as i128)),
            PrimKind::S8 => v matches WitVal::S8Val(x) && g == (GuestVal::Num(x as i128)),
            PrimKind::S16 => v matches WitVal::S16Val(x) && g == (GuestVal::Num(x as i128)),
            PrimKind::S32 => v matches WitVal::S32Val(x) && g == (GuestVal::Num(x as i128)),
            PrimKind::S64 => v matches WitVal::S64Val(x) && g == (GuestVal::Num(x as i128)),
            PrimKind::Char => v matches WitVal::CharVal(c) && (g matches GuestVal::StrVal(s)
                && s@ == seq![c]),
            PrimKind::Str => v matches WitVal::StrVal(hs) && (g matches GuestVal::StrVal(s) && s@
                == hs@),
            PrimKind::Float32 => false,
            PrimKind::Float64 => false,
        }),
        TypeRef::Id(i) => 0 <= i < m.types.len() && (match m.types[i as int].kind {
            TypeDefKind::Record(fields) => v matches WitVal::RecordVal(vals) && vals.len()
                == fields.len() && (g matches GuestVal::Obj(entries) && entries.len()
                == vals.len() && (forall|k: int|
                0 <= k < vals.len() ==> (#[trigger] entries[k]).0@ == fields[k].name@
                    && lowers_to(m, fields[k].ty, vals[k], entries[k].1))),
            TypeDefKind::Variant(cases) => v matches WitVal::VariantVal(k, p) && k < cases.len()
                && (g matches GuestVal::Obj(entries) && entries.len() >= 1 && entries[0].0@
                == tag_key() && (entries[0].1 matches GuestVal::StrVal(s) && s@
                == cases[k as int].name@) && (match (cases[k as int].payload, p) {
                (Some(pt), Some(pv)) => entries.len() == 2 && entries[1].0@ == val_key()
                    && lowers_to(m, pt, *pv, entries[1].1),
                (None, None) => entries.len() == 1,
                _ => false,
            })),
            TypeDefKind::Enumeration(names) => v matches WitVal::EnumVal(k) && k < names.len()
                && (g matches GuestVal::StrVal(s) && s@ == names[k as int]@),
            TypeDefKind::Flags(names) => v matches WitVal::FlagsVal(bits) && bits.len()
                == names.len() && (g matches GuestVal::Obj(entries) && entries.len()
                == names.len() && (forall|k: int|
                0 <= k < names.len() ==> (#[trigger] entries[k]).0@ == names[k]@ && entries[k].1
                    == (GuestVal::BoolVal(bits[k])))),
            TypeDefKind::Tuple(elems) => v matches WitVal::TupleVal(vals) && vals.len()
                == elems.len() && (g matches GuestVal::Arr(items) && items.len() == vals.len()
                && (forall|k: int|
                0 <= k < vals.len() ==> lowers_to(m, elems[k], #[trigger] vals[k], items[k]))),
            TypeDefKind::OptionOf(et) => v matches WitVal::OptionVal(p) && (g matches
                GuestVal::Obj(entries) && entries.len() >= 1 && entries[0].0@ == tag_key() && (
            match p {
                Some(pv) => (entries[0].1 matches GuestVal::StrVal(s) && s@ == some_tag())
                    && entries.len() == 2 && entries[1].0@ == val_key() && lowers_to(
                    m,
                    et,
                    *pv,
                    entries[1].1,
                ),
                None => (entries[0].1 matches GuestVal::StrVal(s) && s@ == none_tag())
                    && entries.len() == 1,
            })),
            TypeDefKind::ResultOf(okt, errt) => v matches WitVal::ResultVal(ok, p) && (g matches
                GuestVal::Obj(entries) && entries.len() >= 1 && entries[0].0@ == tag_key() && (
            entries[0].1 matches GuestVal::StrVal(s) && s@ == (if ok {
                ok_tag()
            } else {
                err_tag()
            })) && (match (
                if ok {
                    okt
                } else {
                    errt
                },
                p,
            ) {
                (Some(pt), Some(pv)) => entries.len() == 2 && entries[1].0@ == val_key()
                    && lowers_to(m, pt, *pv, entries[1].1),
                (None, None) => entries.len() == 1,
                _ => false,
            })),
            TypeDefKind::ListOf(et) => v matches WitVal::ListVal(vals) && (g matches
                GuestVal::Arr(items) && items.len() == vals.len() && (forall|k: int|
                0 <= k < vals.len() ==> lowers_to(m, et, #[trigger] vals[k], items[k]))),
            TypeDefKind::Resource => false,
            TypeDefKind::Handle(_) => false,
            TypeDefKind::Alias(at) => lowers_to(m, at, v, g),
        }),
    }
}

#[via_fn]
proof fn lowers_to_decreases(m: Model, t: TypeRef, v: WitVal, g: GuestVal) {
    match t {
        TypeRef::Id(i) => {
            if 0 <= i < m.types.len() {
                assert(typedef_wf(m, i as int, m.types[i as int]));
            }
        },
        TypeRef::Prim(_) => {},
    }
}

/// Structural equality of guest values, with string contents compared by
/// their characters.
pub open spec fn guest_eq(a: GuestVal, b: GuestVal) -> bool
    decreases a,
{
    match (a, b) {
        (GuestVal::Null, GuestVal::Null) => true,
        (GuestVal::BoolVal(x), GuestVal::BoolVal(y)) => x == y,
        (GuestVal::Num(x), GuestVal::Num(y)) => x == y,
        (GuestVal::StrVal(x), GuestVal::StrVal(y)) => x@ == y@,
        (GuestVal::Arr(xs), GuestVal::Arr(ys)) => xs.len() == ys.len() && (forall|k: int|
            0 <= k < xs.len() ==> guest_eq(#[trigger] xs[k], ys[k])),
        (GuestVal::Obj(xs), GuestVal::Obj(ys)) => xs.len() == ys.len() && (forall|k: int|
            0 <= k < xs.len() ==> (#[trigger] xs[k]).0@ == ys[k].0@ && guest_eq(
                xs[k].1,
                ys[k].1,
            )),
        _ => false,
    }
}

/// A runtime conversion failure: the guest value does not match the
/// declared WIT shape. Reported to the caller; never a host crash.
#[derive(Debug, Clone, Copy, PartialEq, Eq, Structural)]
pub enum ConvError {
    /// The value has the wrong shape for the type.
    Mismatch,
    /// A guest number does not fit the declared integer width.
    OutOfRange,
    /// A variant, enumeration or flag name matches no declared case.
    UnknownTag,
    /// An object's entries do not match the declared fields.
    BadFields,
}

/// Relies on String::push: appends exactly the given character.
#[verifier::external_body]
fn string_push_char(s: &mut String, c: char)
    ensures
        final(s)@ == old(s)@ + seq![c],
{
    s.push(c)
}

fn key_tag() -> (r: String)
    ensures
        r@ == tag_key(),
{
    let s = String::from_str("tag");
    proof {
        reveal_strlit("tag");
        assert("tag"@ =~= tag_key());
    }
    s
}

fn key_val() -> (r: String)
    ensures
        r@ == val_key(),
{
    let s = String::from_str("val");
    proof {
        reveal_strlit("val");
        assert("val"@ =~= val_key());
    }
    s
}

fn word_none() -> (r: String)
    ensures
        r@ == none_tag(),
{
    let s = String::from_str("none");
    proof {
        reveal_strlit("none");
        assert("none"@ =~= none_tag());
    }
    s
}

fn word_some() -> (r: String)
    ensures
        r@ == some_tag(),
{
    let s = String::from_str("some");
    proof {
        reveal_strlit("some");
        assert("some"@ =~= some_tag());
    }
    s
}

fn word_ok() -> (r: String)
    ensures
        r@ == ok_tag(),
{
    let s = String::from_str("ok");
    proof {
        reveal_strlit("ok");
        assert("ok"@ =~= ok_tag());
    }
    s
}

fn word_err() -> (r: String)
    ensures
        r@ == err_tag(),
{
    let s = String::from_str("err");
    proof {
        reveal_strlit("err");
        assert("err"@ =~= err_tag());
    }
    s
}


/// The field types of a record entry of the arena are well-formed.
proof fn lemma_record_wf(m: Model, i: usize, fields: Vec<crate::model::Field>)
    requires
        wf(m),
        i < m.types.len(),
        m.types[i as int].kind == (TypeDefKind::Record(fields)),
    ensures
        forall|j: int| 0 <= j < fields@.len() ==> ref_wf(m, (#[trigger] fields@[j]).ty),
{
    assert(typedef_wf(m, i as int, m.types[i as int]));
    let kind0 = m.types[i as int].kind;
    match kind0 {
        TypeDefKind::Record(f2) => {
            assert(f2 == fields);
            assert forall|j: int| 0 <= j < fields@.len() implies ref_wf(
                m,
                (#[trigger] fields@[j]).ty,
            ) by {
                assert(ref_wf(m, f2[j].ty));
            }
        },
        _ => {},
    }
}

/// The element types of a tuple entry of the arena are well-formed.
proof fn lemma_tuple_wf(m: Model, i: usize, elems: Vec<TypeRef>)
    requires
        wf(m),
        i < m.types.len(),
        m.types[i as int].kind == (TypeDefKind::Tuple(elems)),
    ensures
        forall|j: int| 0 <= j < elems@.len() ==> ref_wf(m, #[trigger] elems@[j]),
{
    assert(typedef_wf(m, i as int, m.types[i as int]));
    let kind0 = m.types[i as int].kind;
    match kind0 {
        TypeDefKind::Tuple(e2) => {
            assert(e2 == elems);
            assert forall|j: int| 0 <= j < elems@.len() implies ref_wf(m, #[trigger] elems@[j]) by {
                assert(ref_wf(m, e2[j]));
            }
        },
        _ => {},
    }
}

/// A record value with well-typed, lowered fields inhabits and lowers at
/// the record type.
proof fn lemma_record_intro(
    m: Model,
    i: usize,
    fields: Vec<crate::model::Field>,
    vals: Vec<WitVal>,
    entries: Vec<(String, GuestVal)>,
)
    requires
        wf(m),
        i < m.types.len(),
        m.types[i as int].kind == (TypeDefKind::Record(fields)),
        vals@.len() == fields@.len(),
        entries@.len() == vals@.len(),
        forall|j: int| 0 <= j < vals@.len() ==> (#[trigger] entries@[j]).0@ == fields@[j].name@,
        forall|j: int|
            0 <= j < vals@.len() ==> lowers_to(
                m,
                fields@[j].ty,
                #[trigger] vals@[j],
                entries@[j].1,
            ) && has_type(m, fields@[j].ty, vals@[j]),
    ensures
        has_type(m, TypeRef::Id(i), WitVal::RecordVal(vals)),
        lowers_to(m, TypeRef::Id(i), WitVal::RecordVal(vals), GuestVal::Obj(entries)),
{
    let v0 = WitVal::RecordVal(vals);
    let g0 = GuestVal::Obj(entries);
    let kind0 = m.types[i as int].kind;
    match kind0 {
        TypeDefKind::Record(f2) => {
            match v0 {
                WitVal::RecordVal(vs2) => {
                    match g0 {
                        GuestVal::Obj(es2) => {
                            assert(f2 == fields && vs2 == vals && es2 == entries);
                            assert forall|j: int| 0 <= j < vs2@.len() implies has_type(
                                m,
                                f2[j].ty,
                                #[trigger] vs2[j],
                            ) by {
                                assert(has_type(m, fields@[j].ty, vals@[j]));
                            }
                            assert forall|j: int| 0 <= j < vs2@.len() implies (
                            #[trigger] es2[j]).0@ == f2[j].name@ && lowers_to(
                                m,
                                f2[j].ty,
                                vs2[j],
                                es2[j].1,
                            ) by {
                                assert(has_type(m, fields@[j].ty, vals@[j]));
                                assert(entries@[j].0@ == fields@[j].name@);
                                assert(lowers_to(m, fields@[j].ty, vals@[j], entries@[j].1));
                            }
                        },
                        _ => {},
                    }
                },
                _ => {},
            }
        },
        _ => {},
    }
}

/// A record value that inhabits the record type has one well-typed value
/// per declared field.
proof fn lemma_record_elim(m: Model, i: usize, fields: Vec<crate::model::Field>, vals: Vec<WitVal>)
    requires
        wf(m),
        i < m.types.len(),
        m.types[i as int].kind == (TypeDefKind::Record(fields)),
        has_type(m, TypeRef::Id(i), WitVal::RecordVal(vals)),
    ensures
        vals@.len() == fields@.len(),
        forall|j: int| 0 <= j < vals@.len() ==> has_type(m, fields@[j].ty, #[trigger] vals@[j]),
{
    let v0 = WitVal::RecordVal(vals);
    let kind0 = m.types[i as int].kind;
    match kind0 {
        TypeDefKind::Record(f2) => {
            match v0 {
                WitVal::RecordVal(vs2) => {
                    assert(f2 == fields && vs2 == vals);
                    assert forall|j: int| 0 <= j < vals@.len() implies has_type(
                        m,
                        fields@[j].ty,
                        #[trigger] vals@[j],
                    ) by {
                        assert(has_type(m, f2[j].ty, vs2[j]));
                    }
                },
                _ => {},
            }
        },
        _ => {},
    }
}

/// A tuple value with well-typed, lowered elements inhabits and lowers at
/// the tuple type.
proof fn lemma_tuple_intro(
    m: Model,
    i: usize,
    elems: Vec<TypeRef>,
    vals: Vec<WitVal>,
    items: Vec<GuestVal>,
)
    requires
        wf(m),
        i < m.types.len(),
        m.types[i as int].kind == (TypeDefKind::Tuple(elems)),
        vals@.len() == elems@.len(),
        items@.len() == vals@.len(),
        forall|j: int|
            0 <= j < vals@.len() ==> lowers_to(m, elems@[j], #[trigger] vals@[j], items@[j])
                && has_type(m, elems@[j], vals@[j]),
    ensures
        has_type(m, TypeRef::Id(i), WitVal::TupleVal(vals)),
        lowers_to(m, TypeRef::Id(i), WitVal::TupleVal(vals), GuestVal::Arr(items)),
{
    let v0 = WitVal::TupleVal(vals);
    let g0 = GuestVal::Arr(items);
    let kind0 = m.types[i as int].kind;
    match kind0 {
        TypeDefKind::Tuple(e2) => {
            match v0 {
                WitVal::TupleVal(vs2) => {
                    match g0 {
                        GuestVal::Arr(is2) => {
                            assert(e2 == elems && vs2 == vals && is2 == items);
                            assert forall|j: int| 0 <= j < vs2@.len() implies has_type(
                                m,
                                e2[j],
                                #[trigger] vs2[j],
                            ) by {
                                assert(has_type(m, elems@[j], vals@[j]));
                            }
                            assert forall|j: int| 0 <= j < vs2@.len() implies lowers_to(
                                m,
                                e2[j],
                                #[trigger] vs2[j],
                                is2[j],
                            ) by {
                                assert(has_type(m, elems@[j], vals@[j]));
                                assert(lowers_to(m, elems@[j], vals@[j], items@[j]));
                            }
                        },
                        _ => {},
                    }
                },
                _ => {},
            }
        },
        _ => {},
    }
}

/// A tuple value that inhabits the tuple type has one well-typed value
/// per element type.
proof fn lemma_tuple_elim(m: Model, i: usize, elems: Vec<TypeRef>, vals: Vec<WitVal>)
    requires
        wf(m),
        i < m.types.len(),
        m.types[i as int].kind == (TypeDefKind::Tuple(elems)),
        has_type(m, TypeRef::Id(i), WitVal::TupleVal(vals)),
    ensures
        vals@.len() == elems@.len(),
        forall|j: int| 0 <= j < vals@.len() ==> has_type(m, elems@[j], #[trigger] vals@[j]),
{
    let v0 = WitVal::TupleVal(vals);
    let kind0 = m.types[i as int].kind;
    match kind0 {
        TypeDefKind::Tuple(e2) => {
            match v0 {
                WitVal::TupleVal(vs2) => {
                    assert(e2 == elems && vs2 == vals);
                    assert forall|j: int| 0 <= j < vals@.len() implies has_type(
                        m,
                        elems@[j],
                        #[trigger] vals@[j],
                    ) by {
                        assert(has_type(m, e2[j], vs2[j]));
                    }
                },
                _ => {},
            }
        },
        _ => {},
    }
}

/// A list value with well-typed, lowered elements inhabits and lowers at
/// the list type.
proof fn lemma_list_intro(m: Model, i: usize, et: TypeRef, vals: Vec<WitVal>, items: Vec<GuestVal>)
    requires
        wf(m),
        i < m.types.len(),
        m.types[i as int].kind == (TypeDefKind::ListOf(et)),
        items@.len() == vals@.len(),
        forall|j: int|
            0 <= j < vals@.len() ==> lowers_to(m, et, #[trigger] vals@[j], items@[j]) && has_type(
                m,
                et,
                vals@[j],
            ),
    ensures
        has_type(m, TypeRef::Id(i), WitVal::ListVal(vals)),
        lowers_to(m, TypeRef::Id(i), WitVal::ListVal(vals), GuestVal::Arr(items)),
{
    let v0 = WitVal::ListVal(vals);
    let g0 = GuestVal::Arr(items);
    let kind0 = m.types[i as int].kind;
    match kind0 {
        TypeDefKind::ListOf(e2) => {
            match v0 {
                WitVal::ListVal(vs2) => {
                    match g0 {
                        GuestVal::Arr(is2) => {
                            assert(e2 == et && vs2 == vals && is2 == items);
                            assert forall|j: int| 0 <= j < vs2@.len() implies has_type(
                                m,
                                e2,
                                #[trigger] vs2[j],
                            ) by {
                                assert(has_type(m, et, vals@[j]));
                            }
                            assert forall|j: int| 0 <= j < vs2@.len() implies lowers_to(
                                m,
                                e2,
                                #[trigger] vs2[j],
                                is2[j],
                            ) by {
                                assert(has_type(m, et, vals@[j]));
                                assert(lowers_to(m, et, vals@[j], items@[j]));
                            }
                        },
                        _ => {},
                    }
                },
                _ => {},
            }
        },
        _ => {},
    }
}

/// A list value that inhabits the list type has well-typed elements.
proof fn lemma_list_elim(m: Model, i: usize, et: TypeRef, vals: Vec<WitVal>)
    requires
        wf(m),
        i < m.types.len(),
        m.types[i as int].kind == (TypeDefKind::ListOf(et)),
        has_type(m, TypeRef::Id(i), WitVal::ListVal(vals)),
    ensures
        forall|j: int| 0 <= j < vals@.len() ==> has_type(m, et, #[trigger] vals@[j]),
{
    let v0 = WitVal::ListVal(vals);
    let kind0 = m.types[i as int].kind;
    match kind0 {
        TypeDefKind::ListOf(e2) => {
            match v0 {
                WitVal::ListVal(vs2) => {
                    assert(e2 == et && vs2 == vals);
                    assert forall|j: int| 0 <= j < vals@.len() implies has_type(
                        m,
                        et,
                        #[trigger] vals@[j],
                    ) by {
                        assert(has_type(m, e2, vs2[j]));
                    }
                },
                _ => {},
            }
        },
        _ => {},
    }
}

/// Converts a host value of type `t` to its guest representation.
/// Succeeds exactly on values that inhabit the type, and the result is
/// the value's canonical guest form.
pub fn lower(m: &Model, t: &TypeRef, v: &WitVal) -> (r: Result<GuestVal, ConvError>)
    requires
        wf(*m),
        ref_wf(*m, *t),
    ensures
        r is Ok <==> has_type(*m, *t, *v),
        (match r {
            Ok(g) => lowers_to(*m, *t, *v, g),
            Err(_) => true,
        }),
    decreases *v, type_rank(*t),
{
    match t {
        TypeRef::Prim(pk) => (match (pk, v) {
            (PrimKind::Bool, WitVal::BoolVal(b)) => Ok(GuestVal::BoolVal(*b)),
            (PrimKind::U8, WitVal::U8Val(x)) => Ok(GuestVal::Num(*x as i128)),
            (PrimKind::U16, WitVal::U16Val(x)) => Ok(GuestVal::Num(*x as i128)),
            (PrimKind::U32, WitVal::U32Val(x)) => Ok(GuestVal::Num(*x as i128)),
            (PrimKind::U64, WitVal::U64Val(x)) => Ok(GuestVal::Num(*x as i128)),
            (PrimKind::S8, WitVal::S8Val(x)) => Ok(GuestVal::Num(*x as i128)),
            (PrimKind::S16, WitVal::S16Val(x)) => Ok(GuestVal::Num(*x as i128)),
            (PrimKind::S32, WitVal::S32Val(x)) => Ok(GuestVal::Num(*x as i128)),
            (PrimKind::S64, WitVal::S64Val(x)) => Ok(GuestVal::Num(*x as i128)),
            (PrimKind::Char, WitVal::CharVal(c)) => {
                let mut s = String::new();
                string_push_char(&mut s, *c);
                proof {
                    assert(s@ =~= seq![*c]);
                }
                Ok(GuestVal::StrVal(s))
            },
            (PrimKind::Str, WitVal::StrVal(hs)) => Ok(GuestVal::StrVal(hs.clone())),
            _ => Err(ConvError::Mismatch),
        }),
        TypeRef::Id(i) => {
            proof {
                assert(typedef_wf(*m, *i as int, m.types@[*i as int]));
            }
            match (&m.types[*i].kind, v) {
                (TypeDefKind::Record(fields), WitVal::RecordVal(vals)) => {
                    if vals.len() != fields.len() {
                        proof {
                            if has_type(*m, *t, *v) {
                                lemma_record_elim(*m, *i, *fields, *vals);
                                assert(false);
                            }
                        }
                        return Err(ConvError::BadFields);
                    }
                    proof {
                        lemma_record_wf(*m, *i, *fields);
                    }
                    match lower_record_fields(m, fields, vals) {
                        Ok(entries) => {
                            proof {
                                lemma_record_intro(*m, *i, *fields, *vals, entries);
                            }
                            Ok(GuestVal::Obj(entries))
                        },
                        Err(e) => {
                            proof {
                                if has_type(*m, *t, *v) {
                                    lemma_record_elim(*m, *i, *fields, *vals);
                                    assert(false);
                                }
                            }
                            Err(e)
                        },
                    }
                },
                (TypeDefKind::Variant(cases), WitVal::VariantVal(k, p)) => {
                    if *k >= cases.len() {
                        return Err(ConvError::UnknownTag);
                    }
                    let case = &cases[*k];
                    let mut entries: Vec<(String, GuestVal)> = Vec::new();
                    entries.push((key_tag(), GuestVal::StrVal(case.name.clone())));
                    match (&case.payload, p) {
                        (Some(pt), Some(pv)) => {
                            proof {
                                assert(kind_wf(*m, *i as int, m.types@[*i as int].kind));
                            }
                            match lower(m, pt, pv) {
                                Ok(gv) => {
                                    entries.push((key_val(), gv));
                                    proof {
                                        assert(lowers_to(*m, *t, *v, GuestVal::Obj(entries)));
                                    }
                                    Ok(GuestVal::Obj(entries))
                                },
                                Err(e) => Err(e),
                            }
                        },
                        (None, None) => {
                            proof {
                                assert(lowers_to(*m, *t, *v, GuestVal::Obj(entries)));
                            }
                            Ok(GuestVal::Obj(entries))
                        },
                        _ => Err(ConvError::Mismatch),
                    }
                },
                (TypeDefKind::Enumeration(names), WitVal::EnumVal(k)) => {
                    if *k >= names.len() {
                        return Err(ConvError::UnknownTag);
                    }
                    Ok(GuestVal::StrVal(names[*k].clone()))
                },
                (TypeDefKind::Flags(names), WitVal::FlagsVal(bits)) => {
                    if bits.len() != names.len() {
                        return Err(ConvError::BadFields);
                    }
                    let mut entries: Vec<(String, GuestVal)> = Vec::new();
                    let mut k: usize = 0;
                    while k < bits.len()
                        invariant
                            bits@.len() == names@.len(),
                            k <= bits@.len(),
                            entries@.len() == k,
                            forall|j: int|
                                0 <= j < k ==> (#[trigger] entries@[j]).0@ == names@[j]@
                                    && entries@[j].1 == (GuestVal::BoolVal(bits@[j])),
                        decreases bits@.len() - k,
                    {
                        entries.push((names[k].clone(), GuestVal::BoolVal(bits[k])));
                        k += 1;
                    }
                    proof {
                        assert(lowers_to(*m, *t, *v, GuestVal::Obj(entries)));
                    }
                    Ok(GuestVal::Obj(entries))
                },
                (TypeDefKind::Tuple(elems), WitVal::TupleVal(vals)) => {
                    if vals.len() != elems.len() {
                        proof {
                            if has_type(*m, *t, *v) {
                                lemma_tuple_elim(*m, *i, *elems, *vals);
                                assert(false);
                            }
                        }
                        return Err(ConvError::BadFields);
                    }
                    proof {
                        lemma_tuple_wf(*m, *i, *elems);
                    }
                    match lower_tuple_elems(m, elems, vals) {
                        Ok(items) => {
                            proof {
                                lemma_tuple_intro(*m, *i, *elems, *vals, items);
                            }
                            Ok(GuestVal::Arr(items))
                        },
                        Err(e) => {
                            proof {
                                if has_type(*m, *t, *v) {
                                    lemma_tuple_elim(*m, *i, *elems, *vals);
                                    assert(false);
                                }
                            }
                            Err(e)
                        },
                    }
                },
                (TypeDefKind::OptionOf(et), WitVal::OptionVal(p)) => {
                    let mut entries: Vec<(String, GuestVal)> = Vec::new();
                    match p {
                        Some(pv) => {
                            entries.push((key_tag(), GuestVal::StrVal(word_some())));
                            proof {
                                assert(kind_wf(*m, *i as int, m.types@[*i as int].kind));
                            }
                            match lower(m, et, pv) {
                                Ok(gv) => {
                                    entries.push((key_val(), gv));
                                    proof {
                                        assert(lowers_to(*m, *t, *v, GuestVal::Obj(entries)));
                                    }
                                    Ok(GuestVal::Obj(entries))
                                },
                                Err(e) => Err(e),
                            }
                        },
                        None => {
                            entries.push((key_tag(), GuestVal::StrVal(word_none())));
                            proof {
                                assert(lowers_to(*m, *t, *v, GuestVal::Obj(entries)));
                            }
                            Ok(GuestVal::Obj(entries))
                        },
                    }
                },
                (TypeDefKind::ResultOf(okt, errt), WitVal::ResultVal(ok, p)) => {
                    let mut entries: Vec<(String, GuestVal)> = Vec::new();
                    if *ok {
                        entries.push((key_tag(), GuestVal::StrVal(word_ok())));
                    } else {
                        entries.push((key_tag(), GuestVal::StrVal(word_err())));
                    }
                    let side = if *ok {
                        okt
                    } else {
                        errt
                    };
                    match (side, p) {
                        (Some(pt), Some(pv)) => {
                            proof {
                                assert(kind_wf(*m, *i as int, m.types@[*i as int].kind));
                            }
                            match lower(m, pt, pv) {
                                Ok(gv) => {
                                    entries.push((key_val(), gv));
                                    proof {
                                        assert(lowers_to(*m, *t, *v, GuestVal::Obj(entries)));
                                    }
                                    Ok(GuestVal::Obj(entries))
                                },
                                Err(e) => Err(e),
                            }
                        },
                        (None, None) => {
                            proof {
                                assert(lowers_to(*m, *t, *v, GuestVal::Obj(entries)));
                            }
                            Ok(GuestVal::Obj(entries))
                        },
                        _ => Err(ConvError::Mismatch),
                    }
                },
                (TypeDefKind::ListOf(et), WitVal::ListVal(vals)) => {
                    proof {
                        assert(kind_wf(*m, *i as int, m.types@[*i as int].kind));
                    }
                    match lower_list_elems(m, et, vals) {
                        Ok(items) => {
                            proof {
                                lemma_list_intro(*m, *i, *et, *vals, items);
                            }
                            Ok(GuestVal::Arr(items))
                        },
                        Err(e) => {
                            proof {
                                if has_type(*m, *t, *v) {
                                    lemma_list_elim(*m, *i, *et, *vals);
                                    assert(false);
                                }
                            }
                            Err(e)
                        },
                    }
                },
                (TypeDefKind::Resource, _) => Err(ConvError::Mismatch),
                (TypeDefKind::Handle(_), _) => Err(ConvError::Mismatch),
                (TypeDefKind::Alias(at), _) => {
                    proof {
                        assert(kind_wf(*m, *i as int, m.types@[*i as int].kind));
                    }
                    lower(m, at, v)
                },
                _ => Err(ConvError::Mismatch),
            }
        },
    }
}


/// Lowers each field value of a record, pairing it with its field name.
fn lower_record_fields(m: &Model, fields: &Vec<crate::model::Field>, vals: &Vec<WitVal>) -> (r:
    Result<Vec<(String, GuestVal)>, ConvError>)
    requires
        wf(*m),
        vals@.len() == fields@.len(),
        forall|j: int| 0 <= j < fields@.len() ==> ref_wf(*m, (#[trigger] fields@[j]).ty),
    ensures
        (match r {
            Ok(entries) => entries@.len() == vals@.len() && (forall|j: int|
                0 <= j < vals@.len() ==> (#[trigger] entries@[j]).0@ == fields@[j].name@) && (
            forall|j: int|
                0 <= j < vals@.len() ==> lowers_to(
                    *m,
                    fields@[j].ty,
                    #[trigger] vals@[j],
                    entries@[j].1,
                ) && has_type(*m, fields@[j].ty, vals@[j])),
            Err(_) => exists|j: int|
                0 <= j < vals@.len() && !has_type(*m, fields@[j].ty, #[trigger] vals@[j]),
        }),
    decreases *vals, 0int,
{
    let mut entries: Vec<(String, GuestVal)> = Vec::new();
    let mut k: usize = 0;
    while k < vals.len()
        invariant
            wf(*m),
            vals@.len() == fields@.len(),
            forall|j: int| 0 <= j < fields@.len() ==> ref_wf(*m, (#[trigger] fields@[j]).ty),
            k <= vals@.len(),
            entries@.len() == k,
            forall|j: int| 0 <= j < k ==> (#[trigger] entries@[j]).0@ == fields@[j].name@,
            forall|j: int|
                0 <= j < k ==> lowers_to(
                    *m,
                    fields@[j].ty,
                    #[trigger] vals@[j],
                    entries@[j].1,
                ) && has_type(*m, fields@[j].ty, vals@[j]),
        decreases vals@.len() - k,
    {
        let fname = fields[k].name.clone();
        match lower(m, &fields[k].ty, &vals[k]) {
            Ok(gv) => {
                let ghost pre_entries = entries@;
                let ghost gpair = (fname, gv);
                proof {
                    assert(gpair.0@ == fields@[k as int].name@);
                    assert(lowers_to(*m, fields@[k as int].ty, vals@[k as int], gpair.1));
                    assert(has_type(*m, fields@[k as int].ty, vals@[k as int]));
                }
                entries.push((fname, gv));
                proof {
                    assert(entries@ == pre_entries.push(gpair));
                }
            },
            Err(e) => {
                proof {
                    assert(!has_type(*m, fields@[k as int].ty, vals@[k as int]));
                }
                return Err(e);
            },
        }
        k += 1;
    }
    Ok(entries)
}

/// Lowers each element of a tuple against its declared element type.
fn lower_tuple_elems(m: &Model, elems: &Vec<TypeRef>, vals: &Vec<WitVal>) -> (r: Result<
    Vec<GuestVal>,
    ConvError,
>)
    requires
        wf(*m),
        vals@.len() == elems@.len(),
        forall|j: int| 0 <= j < elems@.len() ==> ref_wf(*m, #[trigger] elems@[j]),
    ensures
        (match r {
            Ok(items) => items@.len() == vals@.len() && (forall|j: int|
                0 <= j < vals@.len() ==> lowers_to(*m, elems@[j], #[trigger] vals@[j], items@[j])
                    && has_type(*m, elems@[j], vals@[j])),
            Err(_) => exists|j: int|
                0 <= j < vals@.len() && !has_type(*m, elems@[j], #[trigger] vals@[j]),
        }),
    decreases *vals, 0int,
{
    let mut items: Vec<GuestVal> = Vec::new();
    let mut k: usize = 0;
    while k < vals.len()
        invariant
            wf(*m),
            vals@.len() == elems@.len(),
            forall|j: int| 0 <= j < elems@.len() ==> ref_wf(*m, #[trigger] elems@[j]),
            k <= vals@.len(),
            items@.len() == k,
            forall|j: int|
                0 <= j < k ==> lowers_to(*m, elems@[j], #[trigger] vals@[j], items@[j])
                    && has_type(*m, elems@[j], vals@[j]),
        decreases vals@.len() - k,
    {
        match lower(m, &elems[k], &vals[k]) {
            Ok(gv) => {
                items.push(gv);
            },
            Err(e) => {
                proof {
                    assert(!has_type(*m, elems@[k as int], vals@[k as int]));
                }
                return Err(e);
            },
        }
        k += 1;
    }
    Ok(items)
}

/// Lowers each element of a list against the list's element type.
fn lower_list_elems(m: &Model, et: &TypeRef, vals: &Vec<WitVal>) -> (r: Result<
    Vec<GuestVal>,
    ConvError,
>)
    requires
        wf(*m),
        ref_wf(*m, *et),
    ensures
        (match r {
            Ok(items) => items@.len() == vals@.len() && (forall|j: int|
                0 <= j < vals@.len() ==> lowers_to(*m, *et, #[trigger] vals@[j], items@[j])
                    && has_type(*m, *et, vals@[j])),
            Err(_) => exists|j: int|
                0 <= j < vals@.len() && !has_type(*m, *et, #[trigger] vals@[j]),
        }),
    decreases *vals, 0int,
{
    let mut items: Vec<GuestVal> = Vec::new();
    let mut k: usize = 0;
    while k < vals.len()
        invariant
            wf(*m),
            ref_wf(*m, *et),
            k <= vals@.len(),
            items@.len() == k,
            forall|j: int|
                0 <= j < k ==> lowers_to(*m, *et, #[trigger] vals@[j], items@[j]) && has_type(
                    *m,
                    *et,
                    vals@[j],
                ),
        decreases vals@.len() - k,
    {
        match lower(m, et, &vals[k]) {
            Ok(gv) => {
                items.push(gv);
            },
            Err(e) => {
                proof {
                    assert(!has_type(*m, *et, vals@[k as int]));
                }
                return Err(e);
            },
        }
        k += 1;
    }
    Ok(items)
}


/// Two variant cases with the same name are the same case.
proof fn lemma_variant_case_unique(
    m: Model,
    i: usize,
    cases: Vec<crate::model::Case>,
    k1: int,
    k2: int,
)
    requires
        wf(m),
        i < m.types.len(),
        m.types[i as int].kind == (TypeDefKind::Variant(cases)),
        0 <= k1 < cases@.len(),
        0 <= k2 < cases@.len(),
        cases@[k1].name@ == cases@[k2].name@,
    ensures
        k1 == k2,
{
    assert(typedef_wf(m, i as int, m.types[i as int]));
    let kind0 = m.types[i as int].kind;
    match kind0 {
        TypeDefKind::Variant(c2) => {
            assert(c2 == cases);
            let names = crate::model::case_names(c2@);
            assert(names[k1] == c2@[k1].name@);
            assert(names[k2] == c2@[k2].name@);
            if k1 != k2 {
                if k1 < k2 {
                    assert(names[k1] != names[k2]);
                } else {
                    assert(names[k2] != names[k1]);
                }
            }
        },
        _ => {},
    }
}

/// Lifts each value of a record object back to a host field value.
fn lift_record_fields(m: &Model, fields: &Vec<crate::model::Field>, entries: &Vec<(String, GuestVal)>) -> (r:
    Result<Vec<WitVal>, (usize, ConvError)>)
    requires
        wf(*m),
        entries@.len() == fields@.len(),
        forall|j: int| 0 <= j < fields@.len() ==> ref_wf(*m, (#[trigger] fields@[j]).ty),
    ensures
        (match r {
            Ok(vals) => vals@.len() == fields@.len() && (forall|j: int|
                0 <= j < vals@.len() ==> (#[trigger] entries@[j]).0@ == fields@[j].name@) && (
            forall|j: int|
                0 <= j < vals@.len() ==> lowers_to(
                    *m,
                    fields@[j].ty,
                    #[trigger] vals@[j],
                    entries@[j].1,
                ) && has_type(*m, fields@[j].ty, vals@[j])),
            Err(p) => p.0 < fields@.len() && (entries@[p.0 as int].0@ != fields@[p.0 as int].name@
                || (forall|pv: WitVal|
                !(has_type(*m, fields@[p.0 as int].ty, pv) && #[trigger] lowers_to(
                    *m,
                    fields@[p.0 as int].ty,
                    pv,
                    entries@[p.0 as int].1,
                )))),
        }),
    decreases *entries, 0int,
{
    let mut vals: Vec<WitVal> = Vec::new();
    let mut k: usize = 0;
    while k < entries.len()
        invariant
            wf(*m),
            entries@.len() == fields@.len(),
            forall|j: int| 0 <= j < fields@.len() ==> ref_wf(*m, (#[trigger] fields@[j]).ty),
            k <= entries@.len(),
            vals@.len() == k,
            forall|j: int| 0 <= j < k ==> (#[trigger] entries@[j]).0@ == fields@[j].name@,
            forall|j: int|
                0 <= j < k ==> lowers_to(*m, fields@[j].ty, #[trigger] vals@[j], entries@[j].1)
                    && has_type(*m, fields@[j].ty, vals@[j]),
        decreases entries@.len() - k,
    {
        if !(entries[k].0 == fields[k].name) {
            proof {
                assert(entries@[k as int].0@ != fields@[k as int].name@);
            }
            return Err((k, ConvError::BadFields));
        }
        match lift(m, &fields[k].ty, &entries[k].1) {
            Ok(pv) => {
                vals.push(pv);
            },
            Err(e) => {
                proof {
                    assert(forall|pv: WitVal|
                        !(has_type(*m, fields@[k as int].ty, pv) && #[trigger] lowers_to(
                            *m,
                            fields@[k as int].ty,
                            pv,
                            entries@[k as int].1,
                        )));
                }
                return Err((k, e));
            },
        }
        k += 1;
    }
    Ok(vals)
}

/// Lifts each element of a guest array back to a host tuple element.
fn lift_tuple_elems(m: &Model, elems: &Vec<TypeRef>, items: &Vec<GuestVal>) -> (r: Result<
    Vec<WitVal>,
    (usize, ConvError),
>)
    requires
        wf(*m),
        items@.len() == elems@.len(),
        forall|j: int| 0 <= j < elems@.len() ==> ref_wf(*m, #[trigger] elems@[j]),
    ensures
        (match r {
            Ok(vals) => vals@.len() == elems@.len() && (forall|j: int|
                0 <= j < vals@.len() ==> lowers_to(*m, elems@[j], #[trigger] vals@[j], items@[j])
                    && has_type(*m, elems@[j], vals@[j])),
            Err(p) => p.0 < elems@.len() && (forall|pv: WitVal|
                !(has_type(*m, elems@[p.0 as int], pv) && #[trigger] lowers_to(
                    *m,
                    elems@[p.0 as int],
                    pv,
                    items@[p.0 as int],
                ))),
        }),
    decreases *items, 0int,
{
    let mut vals: Vec<WitVal> = Vec::new();
    let mut k: usize = 0;
    while k < items.len()
        invariant
            wf(*m),
            items@.len() == elems@.len(),
            forall|j: int| 0 <= j < elems@.len() ==> ref_wf(*m, #[trigger] elems@[j]),
            k <= items@.len(),
            vals@.len() == k,
            forall|j: int|
                0 <= j < k ==> lowers_to(*m, elems@[j], #[trigger] vals@[j], items@[j])
                    && has_type(*m, elems@[j], vals@[j]),
        decreases items@.len() - k,
    {
        match lift(m, &elems[k], &items[k]) {
            Ok(pv) => {
                vals.push(pv);
            },
            Err(e) => {
                proof {
                    assert(forall|pv: WitVal|
                        !(has_type(*m, elems@[k as int], pv) && #[trigger] lowers_to(
                            *m,
                            elems@[k as int],
                            pv,
                            items@[k as int],
                        )));
                }
                return Err((k, e));
            },
        }
        k += 1;
    }
    Ok(vals)
}

/// Lifts each element of a guest array back to a host list element.
fn lift_list_elems(m: &Model, et: &TypeRef, items: &Vec<GuestVal>) -> (r: Result<
    Vec<WitVal>,
    (usize, ConvError),
>)
    requires
        wf(*m),
        ref_wf(*m, *et),
    ensures
        (match r {
            Ok(vals) => vals@.len() == items@.len() && (forall|j: int|
                0 <= j < vals@.len() ==> lowers_to(*m, *et, #[trigger] vals@[j], items@[j])
                    && has_type(*m, *et, vals@[j])),
            Err(p) => p.0 < items@.len() && (forall|pv: WitVal|
                !(has_type(*m, *et, pv) && #[trigger] lowers_to(
                    *m,
                    *et,
                    pv,
                    items@[p.0 as int],
                ))),
        }),
    decreases *items, 0int,
{
    let mut vals: Vec<WitVal> = Vec::new();
    let mut k: usize = 0;
    while k < items.len()
        invariant
            wf(*m),
            ref_wf(*m, *et),
            k <= items@.len(),
            vals@.len() == k,
            forall|j: int|
                0 <= j < k ==> lowers_to(*m, *et, #[trigger] vals@[j], items@[j]) && has_type(
                    *m,
                    *et,
                    vals@[j],
                ),
        decreases items@.len() - k,
    {
        match lift(m, et, &items[k]) {
            Ok(pv) => {
                vals.push(pv);
            },
            Err(e) => {
                proof {
                    assert(forall|pv: WitVal|
                        !(has_type(*m, *et, pv) && #[trigger] lowers_to(
                            *m,
                            *et,
                            pv,
                            items@[k as int],
                        )));
                }
                return Err((k, e));
            },
        }
        k += 1;
    }
    Ok(vals)
}


/// Converts a guest value back to the host value of type `t` it lowered
/// from. Succeeds exactly on the canonical guest forms of well-typed host
/// values: a wrong shape, an out-of-range number, an unknown tag or flag
/// name, and absent or extra object entries are all conversion errors.
#[verifier::rlimit(100)]
#[verifier::spinoff_prover]
pub fn lift(m: &Model, t: &TypeRef, g: &GuestVal) -> (r: Result<WitVal, ConvError>)
    requires
        wf(*m),
        ref_wf(*m, *t),
    ensures
        (match r {
            Ok(v) => has_type(*m, *t, v) && lowers_to(*m, *t, v, *g),
            Err(_) => true,
        }),
        forall|v: WitVal|
            has_type(*m, *t, v) && #[trigger] lowers_to(*m, *t, v, *g) ==> r is Ok,
    decreases *g, type_rank(*t),
{
    match t {
        TypeRef::Prim(pk) => (match (pk, g) {
            (PrimKind::Bool, GuestVal::BoolVal(b)) => Ok(WitVal::BoolVal(*b)),
            (PrimKind::U8, GuestVal::Num(n)) => {
                if 0 <= *n && *n <= u8::MAX as i128 {
                    Ok(WitVal::U8Val(*n as u8))
                } else {
                    proof {
                        assert forall|v: WitVal|
                            !(has_type(*m, *t, v) && #[trigger] lowers_to(*m, *t, v, *g)) by {}
                    }
                    Err(ConvError::OutOfRange)
                }
            },
            (PrimKind::U16, GuestVal::Num(n)) => {
                if 0 <= *n && *n <= u16::MAX as i128 {
                    Ok(WitVal::U16Val(*n as u16))
                } else {
                    proof {
                        assert forall|v: WitVal|
                            !(has_type(*m, *t, v) && #[trigger] lowers_to(*m, *t, v, *g)) by {}
                    }
                    Err(ConvError::OutOfRange)
                }
            },
            (PrimKind::U32, GuestVal::Num(n)) => {
                if 0 <= *n && *n <= u32::MAX as i128 {
                    Ok(WitVal::U32Val(*n as u32))
                } else {
                    proof {
                        assert forall|v: WitVal|
                            !(has_type(*m, *t, v) && #[trigger] lowers_to(*m, *t, v, *g)) by {}
                    }
                    Err(ConvError::OutOfRange)
                }
            },
            (PrimKind::U64, GuestVal::Num(n)) => {
                if 0 <= *n && *n <= u64::MAX as i128 {
                    Ok(WitVal::U64Val(*n as u64))
                } else {
                    proof {
                        assert forall|v: WitVal|
                            !(has_type(*m, *t, v) && #[trigger] lowers_to(*m, *t, v, *g)) by {}
                    }
                    Err(ConvError::OutOfRange)
                }
            },
            (PrimKind::S8, GuestVal::Num(n)) => {
                if i8::MIN as i128 <= *n && *n <= i8::MAX as i128 {
                    Ok(WitVal::S8Val(*n as i8))
                } else {
                    proof {
                        assert forall|v: WitVal|
                            !(has_type(*m, *t, v) && #[trigger] lowers_to(*m, *t, v, *g)) by {}
                    }
                    Err(ConvError::OutOfRange)
                }
            },
            (PrimKind::S16, GuestVal::Num(n)) => {
                if i16::MIN as i128 <= *n && *n <= i16::MAX as i128 {
                    Ok(WitVal::S16Val(*n as i16))
                } else {
                    proof {
                        assert forall|v: WitVal|
                            !(has_type(*m, *t, v) && #[trigger] lowers_to(*m, *t, v, *g)) by {}
                    }
                    Err(ConvError::OutOfRange)
                }
            },
            (PrimKind::S32, GuestVal::Num(n)) => {
                if i32::MIN as i128 <= *n && *n <= i32::MAX as i128 {
                    Ok(WitVal::S32Val(*n as i32))
                } else {
                    proof {
                        assert forall|v: WitVal|
                            !(has_type(*m, *t, v) && #[trigger] lowers_to(*m, *t, v, *g)) by {}
                    }
                    Err(ConvError::OutOfRange)
                }
            },
            (PrimKind::S64, GuestVal::Num(n)) => {
                if i64::MIN as i128 <= *n && *n <= i64::MAX as i128 {
                    Ok(WitVal::S64Val(*n as i64))
                } else {
                    proof {
                        assert forall|v: WitVal|
                            !(has_type(*m, *t, v) && #[trigger] lowers_to(*m, *t, v, *g)) by {}
                    }
                    Err(ConvError::OutOfRange)
                }
            },
            (PrimKind::Char, GuestVal::StrVal(cs)) => {
                let n = cs.as_str().unicode_len();
                if n == 1 {
                    let c = cs.as_str().get_char(0);
                    proof {
                        assert(cs@ =~= seq![c]);
                    }
                    Ok(WitVal::CharVal(c))
                } else {
                    proof {
                        assert forall|v: WitVal|
                            !(has_type(*m, *t, v) && #[trigger] lowers_to(*m, *t, v, *g)) by {}
                    }
                    Err(ConvError::Mismatch)
                }
            },
            (PrimKind::Str, GuestVal::StrVal(hs)) => Ok(WitVal::StrVal(hs.clone())),
            _ => {
                proof {
                    assert forall|v: WitVal|
                        !(has_type(*m, *t, v) && #[trigger] lowers_to(*m, *t, v, *g)) by {
                        if has_type(*m, *t, v) && lowers_to(*m, *t, v, *g) {
                            match *pk {
                                PrimKind::Bool => {
                                    assert(*g is BoolVal);
                                },
                                PrimKind::U8 => {
                                    assert(*g is Num);
                                },
                                PrimKind::U16 => {
                                    assert(*g is Num);
                                },
                                PrimKind::U32 => {
                                    assert(*g is Num);
                                },
                                PrimKind::U64 => {
                                    assert(*g is Num);
                                },
                                PrimKind::S8 => {
                                    assert(*g is Num);
                                },
                                PrimKind::S16 => {
                                    assert(*g is Num);
                                },
                                PrimKind::S32 => {
                                    assert(*g is Num);
                                },
                                PrimKind::S64 => {
                                    assert(*g is Num);
                                },
                                PrimKind::Char => {
                                    assert(*g is StrVal);
                                },
                                PrimKind::Str => {
                                    assert(*g is StrVal);
                                },
                                PrimKind::Float32 => {},
                                PrimKind::Float64 => {},
                            }
                            assert(false);
                        }
                    }
                }
                Err(ConvError::Mismatch)
            },
        }),
        TypeRef::Id(i) => {
            proof {
                assert(typedef_wf(*m, *i as int, m.types@[*i as int]));
            }
            match (&m.types[*i].kind, g) {
                (TypeDefKind::Record(fields), GuestVal::Obj(entries)) => {
                    if entries.len() != fields.len() {
                        return Err(ConvError::BadFields);
                    }
                    proof {
                        lemma_record_wf(*m, *i, *fields);
                    }
                    match lift_record_fields(m, fields, entries) {
                        Ok(vals) => {
                            proof {
                                lemma_record_intro(*m, *i, *fields, vals, *entries);
                            }
                            Ok(WitVal::RecordVal(vals))
                        },
                        Err((bad, e)) => {
                            proof {
                                assert forall|v: WitVal|
                                    !(has_type(*m, *t, v) && #[trigger] lowers_to(
                                        *m,
                                        *t,
                                        v,
                                        *g,
                                    )) by {
                                    if has_type(*m, *t, v) && lowers_to(*m, *t, v, *g) {
                                        assert(v is RecordVal);
                                        let vals2 = v->RecordVal_0;
                                        assert forall|j: int|
                                            0 <= j < fields@.len() implies (
                                        #[trigger] entries@[j]).0@ == fields@[j].name@ && has_type(
                                            *m,
                                            fields@[j].ty,
                                            vals2@[j],
                                        ) && lowers_to(
                                            *m,
                                            fields@[j].ty,
                                            vals2@[j],
                                            entries@[j].1,
                                        ) by {}
                                        assert(entries@[bad as int].0@ == fields@[bad as int].name@);
                                        assert(has_type(*m, fields@[bad as int].ty, vals2@[bad as int])
                                            && lowers_to(
                                            *m,
                                            fields@[bad as int].ty,
                                            vals2@[bad as int],
                                            entries@[bad as int].1,
                                        ));
                                        assert(false);
                                    }
                                }
                            }
                            Err(e)
                        },
                    }
                },
                (TypeDefKind::Variant(cases), GuestVal::Obj(entries)) => {
                    let tag = match check_tagged_obj(entries) {
                        Ok(tag) => tag,
                        Err(e) => {
                            proof {
                                assert forall|v: WitVal|
                                    !(has_type(*m, *t, v) && #[trigger] lowers_to(
                                        *m,
                                        *t,
                                        v,
                                        *g,
                                    )) by {}
                            }
                            return Err(e);
                        },
                    };
                    let mut found: Option<usize> = None;
                    let mut j: usize = 0;
                    while j < cases.len()
                        invariant
                            j <= cases@.len(),
                            (match found {
                                Some(fj) => fj < cases@.len() && cases@[fj as int].name@ == tag@,
                                None => forall|q: int|
                                    0 <= q < j ==> (#[trigger] cases@[q].name@) != tag@,
                            }),
                        decreases cases@.len() - j,
                    {
                        if found.is_none() && cases[j].name == *tag {
                            found = Some(j);
                        }
                        j += 1;
                    }
                    let k = match found {
                        Some(k) => k,
                        None => {
                            proof {
                                assert forall|v: WitVal|
                                    !(has_type(*m, *t, v) && #[trigger] lowers_to(
                                        *m,
                                        *t,
                                        v,
                                        *g,
                                    )) by {
                                    if has_type(*m, *t, v) && lowers_to(*m, *t, v, *g) {
                                        assert(v is VariantVal);
                                        let k2 = v->VariantVal_0;
                                        assert(cases@[k2 as int].name@ == tag@);
                                        assert(false);
                                    }
                                }
                            }
                            return Err(ConvError::UnknownTag);
                        },
                    };
                    match (&cases[k].payload, entries.len()) {
                        (Some(pt), 2) => {
                            if !entry_key_is(entries, 1, "val") {
                                proof {
                                    reveal_strlit("val");
                                    assert("val"@ =~= val_key());
                                    variant_err_helper(*m, *i, *cases, k, tag@, *entries);
                                }
                                return Err(ConvError::BadFields);
                            }
                            proof {
                                reveal_strlit("val");
                                assert("val"@ =~= val_key());
                            }
                            match lift(m, pt, &entries[1].1) {
                                Ok(pv) => {
                                    proof {
                                        assert(lowers_to(
                                            *m,
                                            *t,
                                            WitVal::VariantVal(k, Some(Box::new(pv))),
                                            *g,
                                        ));
                                    }
                                    Ok(WitVal::VariantVal(k, Some(Box::new(pv))))
                                },
                                Err(e) => {
                                    proof {
                                        assert forall|v: WitVal|
                                            !(has_type(*m, *t, v) && #[trigger] lowers_to(
                                                *m,
                                                *t,
                                                v,
                                                *g,
                                            )) by {
                                            if has_type(*m, *t, v) && lowers_to(*m, *t, v, *g) {
                                                assert(v is VariantVal);
                                                let k2 = v->VariantVal_0;
                                                let p2 = v->VariantVal_1;
                                                assert(cases@[k2 as int].name@ == tag@);
                                                lemma_variant_case_unique(
                                                    *m,
                                                    *i,
                                                    *cases,
                                                    k2 as int,
                                                    k as int,
                                                );
                                                assert(p2 is Some);
                                                assert(has_type(*m, cases@[k as int].payload->0, *p2->0)
                                                    && lowers_to(
                                                    *m,
                                                    cases@[k as int].payload->0,
                                                    *p2->0,
                                                    entries@[1].1,
                                                ));
                                                assert(false);
                                            }
                                        }
                                    }
                                    Err(e)
                                },
                            }
                        },
                        (None, 1) => {
                            proof {
                                assert(lowers_to(*m, *t, WitVal::VariantVal(k, None), *g));
                            }
                            Ok(WitVal::VariantVal(k, None))
                        },
                        _ => {
                            proof {
                                variant_err_helper(*m, *i, *cases, k, tag@, *entries);
                                assert forall|v: WitVal|
                                    !(has_type(*m, *t, v) && #[trigger] lowers_to(
                                        *m,
                                        *t,
                                        v,
                                        *g,
                                    )) by {
                                    if has_type(*m, *t, v) && lowers_to(*m, *t, v, *g) {
                                        assert(v is VariantVal && v->VariantVal_0 == k);
                                        assert(false);
                                    }
                                }
                            }
                            Err(ConvError::BadFields)
                        },
                    }
                },
                (TypeDefKind::Enumeration(names), GuestVal::StrVal(s)) => {
                    let mut found: Option<usize> = None;
                    let mut j: usize = 0;
                    while j < names.len()
                        invariant
                            j <= names@.len(),
                            (match found {
                                Some(fj) => fj < names@.len() && names@[fj as int]@ == s@,
                                None => forall|q: int|
                                    0 <= q < j ==> (#[trigger] names@[q]@) != s@,
                            }),
                        decreases names@.len() - j,
                    {
                        if found.is_none() && names[j] == *s {
                            found = Some(j);
                        }
                        j += 1;
                    }
                    match found {
                        Some(k) => Ok(WitVal::EnumVal(k)),
                        None => {
                            proof {
                                assert forall|v: WitVal|
                                    !(has_type(*m, *t, v) && #[trigger] lowers_to(
                                        *m,
                                        *t,
                                        v,
                                        *g,
                                    )) by {
                                    if has_type(*m, *t, v) && lowers_to(*m, *t, v, *g) {
                                        assert(v is EnumVal);
                                        let k2 = v->EnumVal_0;
                                        assert(names@[k2 as int]@ == s@);
                                        assert(false);
                                    }
                                }
                            }
                            Err(ConvError::UnknownTag)
                        },
                    }
                },
                (TypeDefKind::Flags(names), GuestVal::Obj(entries)) => {
                    if entries.len() != names.len() {
                        return Err(ConvError::BadFields);
                    }
                    let mut bits: Vec<bool> = Vec::new();
                    let mut k: usize = 0;
                    while k < entries.len()
                        invariant
                            wf(*m),
                            *t == (TypeRef::Id(*i)),
                            *i < m.types.len(),
                            m.types[*i as int].kind == (TypeDefKind::Flags(*names)),
                            g == &(GuestVal::Obj(*entries)),
                            entries@.len() == names@.len(),
                            k <= entries@.len(),
                            bits@.len() == k,
                            forall|q: int|
                                0 <= q < k ==> (#[trigger] entries@[q]).0@ == names@[q]@
                                    && entries@[q].1 == (GuestVal::BoolVal(bits@[q])),
                        decreases entries@.len() - k,
                    {
                        if !(entries[k].0 == names[k]) {
                            proof {
                                assert forall|v: WitVal|
                                    !(has_type(*m, *t, v) && #[trigger] lowers_to(
                                        *m,
                                        *t,
                                        v,
                                        *g,
                                    )) by {
                                    if has_type(*m, *t, v) && lowers_to(*m, *t, v, *g) {
                                        assert(v is FlagsVal);
                                        assert(entries@[k as int].0@ == names@[k as int]@);
                                        assert(false);
                                    }
                                }
                            }
                            return Err(ConvError::UnknownTag);
                        }
                        match &entries[k].1 {
                            GuestVal::BoolVal(b) => {
                                bits.push(*b);
                            },
                            _ => {
                                proof {
                                    assert forall|v: WitVal|
                                        !(has_type(*m, *t, v) && #[trigger] lowers_to(
                                            *m,
                                            *t,
                                            v,
                                            *g,
                                        )) by {
                                        if has_type(*m, *t, v) && lowers_to(*m, *t, v, *g) {
                                            assert(v is FlagsVal);
                                            let bits2 = v->FlagsVal_0;
                                            assert(entries@[k as int].1 == (GuestVal::BoolVal(
                                                bits2@[k as int],
                                            )));
                                            assert(false);
                                        }
                                    }
                                }
                                return Err(ConvError::Mismatch);
                            },
                        }
                        k += 1;
                    }
                    proof {
                        assert(lowers_to(*m, *t, WitVal::FlagsVal(bits), *g));
                    }
                    Ok(WitVal::FlagsVal(bits))
                },
                (TypeDefKind::Tuple(elems), GuestVal::Arr(items)) => {
                    if items.len() != elems.len() {
                        return Err(ConvError::BadFields);
                    }
                    proof {
                        lemma_tuple_wf(*m, *i, *elems);
                    }
                    match lift_tuple_elems(m, elems, items) {
                        Ok(vals) => {
                            proof {
                                lemma_tuple_intro(*m, *i, *elems, vals, *items);
                            }
                            Ok(WitVal::TupleVal(vals))
                        },
                        Err((bad, e)) => {
                            proof {
                                assert forall|v: WitVal|
                                    !(has_type(*m, *t, v) && #[trigger] lowers_to(
                                        *m,
                                        *t,
                                        v,
                                        *g,
                                    )) by {
                                    if has_type(*m, *t, v) && lowers_to(*m, *t, v, *g) {
                                        assert(v is TupleVal);
                                        let vals2 = v->TupleVal_0;
                                        assert forall|j: int|
                                            0 <= j < elems@.len() implies has_type(
                                            *m,
                                            #[trigger] elems@[j],
                                            vals2@[j],
                                        ) && lowers_to(*m, elems@[j], vals2@[j], items@[j]) by {}
                                        assert(has_type(*m, elems@[bad as int], vals2@[bad as int])
                                            && lowers_to(
                                            *m,
                                            elems@[bad as int],
                                            vals2@[bad as int],
                                            items@[bad as int],
                                        ));
                                        assert(false);
                                    }
                                }
                            }
                            Err(e)
                        },
                    }
                },
                (TypeDefKind::OptionOf(et), GuestVal::Obj(entries)) => {
                    let tag = match check_tagged_obj(entries) {
                        Ok(tag) => tag,
                        Err(e) => {
                            proof {
                                assert forall|v: WitVal|
                                    !(has_type(*m, *t, v) && #[trigger] lowers_to(
                                        *m,
                                        *t,
                                        v,
                                        *g,
                                    )) by {}
                            }
                            return Err(e);
                        },
                    };
                    let some_s = word_some();
                    let none_s = word_none();
                    if *tag == some_s {
                        if entries.len() != 2 {
                            return Err(ConvError::BadFields);
                        }
                        if !entry_key_is(entries, 1, "val") {
                            proof {
                                reveal_strlit("val");
                                assert("val"@ =~= val_key());
                            }
                            return Err(ConvError::BadFields);
                        }
                        proof {
                            reveal_strlit("val");
                            assert("val"@ =~= val_key());
                        }
                        match lift(m, et, &entries[1].1) {
                            Ok(pv) => {
                                proof {
                                    assert(lowers_to(
                                        *m,
                                        *t,
                                        WitVal::OptionVal(Some(Box::new(pv))),
                                        *g,
                                    ));
                                }
                                Ok(WitVal::OptionVal(Some(Box::new(pv))))
                            },
                            Err(e) => {
                                proof {
                                    assert(some_tag() != none_tag()) by {
                                        reveal_strlit("some");
                                        reveal_strlit("none");
                                        assert(some_tag()[0] != none_tag()[0]);
                                    }
                                    assert forall|v: WitVal|
                                        !(has_type(*m, *t, v) && #[trigger] lowers_to(
                                            *m,
                                            *t,
                                            v,
                                            *g,
                                        )) by {
                                        if has_type(*m, *t, v) && lowers_to(*m, *t, v, *g) {
                                            assert(v is OptionVal);
                                            let p2 = v->OptionVal_0;
                                            assert(p2 is Some);
                                            assert(has_type(*m, *et, *p2->0) && lowers_to(
                                                *m,
                                                *et,
                                                *p2->0,
                                                entries@[1].1,
                                            ));
                                            assert(false);
                                        }
                                    }
                                }
                                Err(e)
                            },
                        }
                    } else if *tag == none_s {
                        if entries.len() != 1 {
                            return Err(ConvError::BadFields);
                        }
                        proof {
                            assert(lowers_to(*m, *t, WitVal::OptionVal(None), *g));
                        }
                        Ok(WitVal::OptionVal(None))
                    } else {
                        proof {
                            assert forall|v: WitVal|
                                !(has_type(*m, *t, v) && #[trigger] lowers_to(
                                    *m,
                                    *t,
                                    v,
                                    *g,
                                )) by {
                                if has_type(*m, *t, v) && lowers_to(*m, *t, v, *g) {
                                    assert(v is OptionVal);
                                    assert(false);
                                }
                            }
                        }
                        Err(ConvError::UnknownTag)
                    }
                },
                (TypeDefKind::ResultOf(okt, errt), GuestVal::Obj(entries)) => {
                    let tag = match check_tagged_obj(entries) {
                        Ok(tag) => tag,
                        Err(e) => {
                            proof {
                                assert forall|v: WitVal|
                                    !(has_type(*m, *t, v) && #[trigger] lowers_to(
                                        *m,
                                        *t,
                                        v,
                                        *g,
                                    )) by {}
                            }
                            return Err(e);
                        },
                    };
                    let ok_s = word_ok();
                    let err_s = word_err();
                    let is_ok = *tag == ok_s;
                    let is_err = *tag == err_s;
                    proof {
                        assert(ok_tag() != err_tag()) by {
                            assert(ok_tag().len() != err_tag().len());
                        }
                    }
                    if !is_ok && !is_err {
                        proof {
                            assert forall|v: WitVal|
                                !(has_type(*m, *t, v) && #[trigger] lowers_to(
                                    *m,
                                    *t,
                                    v,
                                    *g,
                                )) by {
                                if has_type(*m, *t, v) && lowers_to(*m, *t, v, *g) {
                                    assert(v is ResultVal);
                                    assert(false);
                                }
                            }
                        }
                        return Err(ConvError::UnknownTag);
                    }
                    let side = if is_ok {
                        okt
                    } else {
                        errt
                    };
                    match (side, entries.len()) {
                        (Some(pt), 2) => {
                            if !entry_key_is(entries, 1, "val") {
                                proof {
                                    reveal_strlit("val");
                                    assert("val"@ =~= val_key());
                                }
                                return Err(ConvError::BadFields);
                            }
                            proof {
                                reveal_strlit("val");
                                assert("val"@ =~= val_key());
                            }
                            match lift(m, pt, &entries[1].1) {
                                Ok(pv) => {
                                    proof {
                                        assert(lowers_to(
                                            *m,
                                            *t,
                                            WitVal::ResultVal(is_ok, Some(Box::new(pv))),
                                            *g,
                                        ));
                                    }
                                    Ok(WitVal::ResultVal(is_ok, Some(Box::new(pv))))
                                },
                                Err(e) => {
                                    proof {
                                        assert forall|v: WitVal|
                                            !(has_type(*m, *t, v) && #[trigger] lowers_to(
                                                *m,
                                                *t,
                                                v,
                                                *g,
                                            )) by {
                                            if has_type(*m, *t, v) && lowers_to(*m, *t, v, *g) {
                                                assert(v is ResultVal);
                                                assert(v->ResultVal_0 == is_ok);
                                                let p2 = v->ResultVal_1;
                                                assert(p2 is Some);
                                                assert(has_type(*m, *pt, *p2->0) && lowers_to(
                                                    *m,
                                                    *pt,
                                                    *p2->0,
                                                    entries@[1].1,
                                                ));
                                                assert(false);
                                            }
                                        }
                                    }
                                    Err(e)
                                },
                            }
                        },
                        (None, 1) => {
                            proof {
                                assert(lowers_to(*m, *t, WitVal::ResultVal(is_ok, None), *g));
                            }
                            Ok(WitVal::ResultVal(is_ok, None))
                        },
                        _ => {
                            proof {
                                assert forall|v: WitVal|
                                    !(has_type(*m, *t, v) && #[trigger] lowers_to(
                                        *m,
                                        *t,
                                        v,
                                        *g,
                                    )) by {
                                    if has_type(*m, *t, v) && lowers_to(*m, *t, v, *g) {
                                        assert(v is ResultVal);
                                        assert(v->ResultVal_0 == is_ok);
                                        assert(false);
                                    }
                                }
                            }
                            Err(ConvError::BadFields)
                        },
                    }
                },
                (TypeDefKind::ListOf(et), GuestVal::Arr(items)) => {
                    proof {
                        assert(kind_wf(*m, *i as int, m.types@[*i as int].kind));
                    }
                    match lift_list_elems(m, et, items) {
                        Ok(vals) => {
                            proof {
                                lemma_list_intro(*m, *i, *et, vals, *items);
                            }
                            Ok(WitVal::ListVal(vals))
                        },
                        Err((bad, e)) => {
                            proof {
                                assert forall|v: WitVal|
                                    !(has_type(*m, *t, v) && #[trigger] lowers_to(
                                        *m,
                                        *t,
                                        v,
                                        *g,
                                    )) by {
                                    if has_type(*m, *t, v) && lowers_to(*m, *t, v, *g) {
                                        assert(v is ListVal);
                                        let vals2 = v->ListVal_0;
                                        assert forall|j: int|
                                            0 <= j < items@.len() implies has_type(
                                            *m,
                                            *et,
                                            vals2@[j],
                                        ) && lowers_to(
                                            *m,
                                            *et,
                                            vals2@[j],
                                            #[trigger] items@[j],
                                        ) by {}
                                        assert(has_type(*m, *et, vals2@[bad as int]) && lowers_to(
                                            *m,
                                            *et,
                                            vals2@[bad as int],
                                            items@[bad as int],
                                        ));
                                        assert(false);
                                    }
                                }
                            }
                            Err(e)
                        },
                    }
                },
                (TypeDefKind::Resource, _) => {
                    proof {
                        assert forall|v: WitVal|
                            !(has_type(*m, *t, v) && #[trigger] lowers_to(*m, *t, v, *g)) by {}
                    }
                    Err(ConvError::Mismatch)
                },
                (TypeDefKind::Handle(_), _) => {
                    proof {
                        assert forall|v: WitVal|
                            !(has_type(*m, *t, v) && #[trigger] lowers_to(*m, *t, v, *g)) by {}
                    }
                    Err(ConvError::Mismatch)
                },
                (TypeDefKind::Alias(at), _) => {
                    proof {
                        assert(kind_wf(*m, *i as int, m.types@[*i as int].kind));
                    }
                    let res = lift(m, at, g);
                    proof {
                        assert forall|v: WitVal|
                            has_type(*m, *t, v) && #[trigger] lowers_to(*m, *t, v, *g) implies res
                            is Ok by {
                            assert(has_type(*m, *at, v) && lowers_to(*m, *at, v, *g));
                        }
                    }
                    res
                },
                _ => {
                    proof {
                        assert forall|v: WitVal|
                            !(has_type(*m, *t, v) && #[trigger] lowers_to(*m, *t, v, *g)) by {
                            if has_type(*m, *t, v) && lowers_to(*m, *t, v, *g) {
                                let kind0 = m.types@[*i as int].kind;
                                match kind0 {
                                    TypeDefKind::Record(_) => {
                                        assert(*g is Obj);
                                    },
                                    TypeDefKind::Variant(_) => {
                                        assert(*g is Obj);
                                    },
                                    TypeDefKind::Enumeration(_) => {
                                        assert(*g is StrVal);
                                    },
                                    TypeDefKind::Flags(_) => {
                                        assert(*g is Obj);
                                    },
                                    TypeDefKind::Tuple(_) => {
                                        assert(*g is Arr);
                                    },
                                    TypeDefKind::OptionOf(_) => {
                                        assert(*g is Obj);
                                    },
                                    TypeDefKind::ResultOf(_, _) => {
                                        assert(*g is Obj);
                                    },
                                    TypeDefKind::ListOf(_) => {
                                        assert(*g is Arr);
                                    },
                                    TypeDefKind::Resource => {},
                                    TypeDefKind::Handle(_) => {},
                                    TypeDefKind::Alias(_) => {},
                                }
                                assert(false);
                            }
                        }
                    }
                    Err(ConvError::Mismatch)
                },
            }
        },
    }
}

/// Checks the shape shared by all tagged objects: a first entry under the
/// `tag` key holding a string, which is returned.
fn check_tagged_obj<'a>(entries: &'a Vec<(String, GuestVal)>) -> (r: Result<&'a String, ConvError>)
    ensures
        (match r {
            Ok(tag) => entries@.len() >= 1 && entries@[0].0@ == tag_key() && (entries@[0].1
                matches GuestVal::StrVal(s) && s@ == tag@),
            Err(_) => !(entries@.len() >= 1 && entries@[0].0@ == tag_key() && entries@[0].1
                is StrVal),
        }),
{
    if entries.len() == 0 {
        return Err(ConvError::BadFields);
    }
    if !entry_key_is(entries, 0, "tag") {
        proof {
            reveal_strlit("tag");
            assert("tag"@ =~= tag_key());
        }
        return Err(ConvError::BadFields);
    }
    proof {
        reveal_strlit("tag");
        assert("tag"@ =~= tag_key());
    }
    match &entries[0].1 {
        GuestVal::StrVal(s) => Ok(s),
        _ => Err(ConvError::Mismatch),
    }
}

/// Whether entry `idx` of an object has the given key.
fn entry_key_is(entries: &Vec<(String, GuestVal)>, idx: usize, key: &str) -> (r: bool)
    requires
        idx < entries@.len(),
    ensures
        r == (entries@[idx as int].0@ == key@),
{
    let ks = String::from_str(key);
    entries[idx].0 == ks
}

/// When a variant object's tag names case `k`, any host value lowering
/// to that object is a value of case `k`, carries a payload exactly when
/// the case declares one, and if so the object has a `val` entry.
proof fn variant_err_helper(
    m: Model,
    i: usize,
    cases: Vec<crate::model::Case>,
    k: usize,
    tag: Seq<char>,
    entries: Vec<(String, GuestVal)>,
)
    requires
        wf(m),
        i < m.types.len(),
        m.types[i as int].kind == (TypeDefKind::Variant(cases)),
        k < cases@.len(),
        cases@[k as int].name@ == tag,
        entries@.len() >= 1,
        entries@[0].1 matches GuestVal::StrVal(sv) && sv@ == tag,
    ensures
        forall|v: WitVal|
            has_type(m, TypeRef::Id(i), v) && #[trigger] lowers_to(
                m,
                TypeRef::Id(i),
                v,
                GuestVal::Obj(entries),
            ) ==> v is VariantVal && v->VariantVal_0 == k && (match cases@[k as int].payload {
                Some(_) => entries@.len() == 2 && entries@[1].0@ == val_key(),
                None => entries@.len() == 1,
            }),
{
    assert forall|v: WitVal|
        has_type(m, TypeRef::Id(i), v) && #[trigger] lowers_to(
            m,
            TypeRef::Id(i),
            v,
            GuestVal::Obj(entries),
        ) implies v is VariantVal && v->VariantVal_0 == k && (match cases@[k as int].payload {
        Some(_) => entries@.len() == 2 && entries@[1].0@ == val_key(),
        None => entries@.len() == 1,
    }) by {
        assert(v is VariantVal);
        let k2 = v->VariantVal_0;
        assert(cases@[k2 as int].name@ == tag);
        lemma_variant_case_unique(m, i, cases, k2 as int, k as int);
    }
}


/// Two enumeration cases with the same name are the same case.
proof fn lemma_enum_name_unique(m: Model, i: usize, names: Vec<String>, k1: int, k2: int)
    requires
        wf(m),
        i < m.types.len(),
        m.types[i as int].kind == (TypeDefKind::Enumeration(names)),
        0 <= k1 < names@.len(),
        0 <= k2 < names@.len(),
        names@[k1]@ == names@[k2]@,
    ensures
        k1 == k2,
{
    assert(typedef_wf(m, i as int, m.types[i as int]));
    let kind0 = m.types[i as int].kind;
    match kind0 {
        TypeDefKind::Enumeration(n2) => {
            assert(n2 == names);
            let views = crate::model::string_views(n2@);
            assert(views[k1] == n2@[k1]@);
            assert(views[k2] == n2@[k2]@);
            if k1 != k2 {
                if k1 < k2 {
                    assert(views[k1] != views[k2]);
                } else {
                    assert(views[k2] != views[k1]);
                }
            }
        },
        _ => {},
    }
}

/// Round-trip, host side: two well-typed host values that lower to the
/// same guest value are structurally equal. Together with the contracts
/// of `lower` and `lift`, lowering a well-typed host value and lifting
/// the result back yields an equal host value.
pub proof fn lemma_lower_injective(m: Model, t: TypeRef, v1: WitVal, v2: WitVal, g: GuestVal)
    requires
        wf(m),
        ref_wf(m, t),
        has_type(m, t, v1),
        has_type(m, t, v2),
        lowers_to(m, t, v1, g),
        lowers_to(m, t, v2, g),
    ensures
        wit_eq(v1, v2),
    decreases v1, type_rank(t),
{
    match t {
        TypeRef::Prim(pk) => {
            match pk {
                PrimKind::Char => {
                    match (v1, v2, g) {
                        (WitVal::CharVal(c1), WitVal::CharVal(c2), GuestVal::StrVal(sv)) => {
                            assert(sv@ == seq![c1] && sv@ == seq![c2]);
                            assert(c1 == sv@[0] && c2 == sv@[0]);
                        },
                        _ => {},
                    }
                },
                _ => {},
            }
        },
        TypeRef::Id(i) => {
            assert(typedef_wf(m, i as int, m.types[i as int]));
            let kind0 = m.types[i as int].kind;
            match kind0 {
                TypeDefKind::Record(fields) => {
                    match (v1, v2, g) {
                        (WitVal::RecordVal(vals1), WitVal::RecordVal(vals2), GuestVal::Obj(
                            entries,
                        )) => {
                            assert forall|k: int| 0 <= k < vals1@.len() implies wit_eq(
                                #[trigger] vals1@[k],
                                vals2@[k],
                            ) by {
                                assert(lowers_to(m, fields@[k].ty, vals1@[k], entries@[k].1));
                                assert(lowers_to(m, fields@[k].ty, vals2@[k], entries@[k].1));
                                assert(has_type(m, fields@[k].ty, vals1@[k]));
                                assert(has_type(m, fields@[k].ty, vals2@[k]));
                                assert(ref_wf(m, fields@[k].ty));
                                lemma_lower_injective(
                                    m,
                                    fields@[k].ty,
                                    vals1@[k],
                                    vals2@[k],
                                    entries@[k].1,
                                );
                            }
                        },
                        _ => {},
                    }
                },
                TypeDefKind::Variant(cases) => {
                    match (v1, v2, g) {
                        (WitVal::VariantVal(k1, p1), WitVal::VariantVal(k2, p2), GuestVal::Obj(
                            entries,
                        )) => {
                            assert(cases@[k1 as int].name@ == cases@[k2 as int].name@);
                            lemma_variant_case_unique(m, i, cases, k1 as int, k2 as int);
                            match (cases@[k1 as int].payload, p1, p2) {
                                (Some(pt), Some(b1), Some(b2)) => {
                                    assert(ref_wf(m, pt));
                                    lemma_lower_injective(m, pt, *b1, *b2, entries@[1].1);
                                },
                                _ => {},
                            }
                        },
                        _ => {},
                    }
                },
                TypeDefKind::Enumeration(names) => {
                    match (v1, v2, g) {
                        (WitVal::EnumVal(k1), WitVal::EnumVal(k2), GuestVal::StrVal(sv)) => {
                            assert(names@[k1 as int]@ == sv@ && names@[k2 as int]@ == sv@);
                            lemma_enum_name_unique(m, i, names, k1 as int, k2 as int);
                        },
                        _ => {},
                    }
                },
                TypeDefKind::Flags(names) => {
                    match (v1, v2, g) {
                        (WitVal::FlagsVal(b1), WitVal::FlagsVal(b2), GuestVal::Obj(entries)) => {
                            assert forall|k: int| 0 <= k < b1@.len() implies b1@[k] == b2@[k] by {
                                assert(entries@[k].1 == (GuestVal::BoolVal(b1@[k])));
                                assert(entries@[k].1 == (GuestVal::BoolVal(b2@[k])));
                            }
                            assert(b1@ =~= b2@);
                        },
                        _ => {},
                    }
                },
                TypeDefKind::Tuple(elems) => {
                    match (v1, v2, g) {
                        (WitVal::TupleVal(vals1), WitVal::TupleVal(vals2), GuestVal::Arr(
                            items,
                        )) => {
                            assert forall|k: int| 0 <= k < vals1@.len() implies wit_eq(
                                #[trigger] vals1@[k],
                                vals2@[k],
                            ) by {
                                assert(lowers_to(m, elems@[k], vals1@[k], items@[k]));
                                assert(lowers_to(m, elems@[k], vals2@[k], items@[k]));
                                assert(has_type(m, elems@[k], vals1@[k]));
                                assert(has_type(m, elems@[k], vals2@[k]));
                                assert(ref_wf(m, elems@[k]));
                                lemma_lower_injective(
                                    m,
                                    elems@[k],
                                    vals1@[k],
                                    vals2@[k],
                                    items@[k],
                                );
                            }
                        },
                        _ => {},
                    }
                },
                TypeDefKind::OptionOf(et) => {
                    match (v1, v2) {
                        (WitVal::OptionVal(p1), WitVal::OptionVal(p2)) => {
                            assert(some_tag() != none_tag()) by {
                                reveal_strlit("some");
                                reveal_strlit("none");
                                assert(some_tag()[0] != none_tag()[0]);
                            }
                            match (p1, p2, g) {
                                (Some(b1), Some(b2), GuestVal::Obj(entries)) => {
                                    assert(ref_wf(m, et));
                                    lemma_lower_injective(m, et, *b1, *b2, entries@[1].1);
                                },
                                _ => {},
                            }
                        },
                        _ => {},
                    }
                },
                TypeDefKind::ResultOf(okt, errt) => {
                    match (v1, v2) {
                        (WitVal::ResultVal(ok1, p1), WitVal::ResultVal(ok2, p2)) => {
                            assert(ok_tag() != err_tag()) by {
                                assert(ok_tag().len() != err_tag().len());
                            }
                            assert(ok1 == ok2);
                            let side = if ok1 {
                                okt
                            } else {
                                errt
                            };
                            match (side, p1, p2, g) {
                                (Some(pt), Some(b1), Some(b2), GuestVal::Obj(entries)) => {
                                    assert(ref_wf(m, pt));
                                    lemma_lower_injective(m, pt, *b1, *b2, entries@[1].1);
                                },
                                _ => {},
                            }
                        },
                        _ => {},
                    }
                },
                TypeDefKind::ListOf(et) => {
                    match (v1, v2, g) {
                        (WitVal::ListVal(vals1), WitVal::ListVal(vals2), GuestVal::Arr(items)) => {
                            assert(ref_wf(m, et));
                            assert forall|k: int| 0 <= k < vals1@.len() implies wit_eq(
                                #[trigger] vals1@[k],
                                vals2@[k],
                            ) by {
                                assert(lowers_to(m, et, vals1@[k], items@[k]));
                                assert(lowers_to(m, et, vals2@[k], items@[k]));
                                assert(has_type(m, et, vals1@[k]));
                                assert(has_type(m, et, vals2@[k]));
                                lemma_lower_injective(m, et, vals1@[k], vals2@[k], items@[k]);
                            }
                        },
                        _ => {},
                    }
                },
                TypeDefKind::Resource => {},
                TypeDefKind::Handle(_) => {},
                TypeDefKind::Alias(at) => {
                    lemma_lower_injective(m, at, v1, v2, g);
                },
            }
        },
    }
}


/// Round-trip, guest side: a well-typed host value lowers to a unique
/// guest value up to structural equality. Together with the contracts of
/// `lift` and `lower`, lifting a guest value and lowering the result
/// back yields an equal guest value.
pub proof fn lemma_lower_functional(m: Model, t: TypeRef, v: WitVal, g1: GuestVal, g2: GuestVal)
    requires
        wf(m),
        ref_wf(m, t),
        has_type(m, t, v),
        lowers_to(m, t, v, g1),
        lowers_to(m, t, v, g2),
    ensures
        guest_eq(g1, g2),
    decreases v, type_rank(t),
{
    match t {
        TypeRef::Prim(_) => {},
        TypeRef::Id(i) => {
            assert(typedef_wf(m, i as int, m.types[i as int]));
            let kind0 = m.types[i as int].kind;
            match kind0 {
                TypeDefKind::Record(fields) => {
                    match (v, g1, g2) {
                        (WitVal::RecordVal(vals), GuestVal::Obj(e1), GuestVal::Obj(e2)) => {
                            assert forall|k: int|
                                0 <= k < e1@.len() implies (#[trigger] e1@[k]).0@ == e2@[k].0@
                                && guest_eq(e1@[k].1, e2@[k].1) by {
                                assert(e1@[k].0@ == fields@[k].name@);
                                assert(e2@[k].0@ == fields@[k].name@);
                                assert(lowers_to(m, fields@[k].ty, vals@[k], e1@[k].1));
                                assert(lowers_to(m, fields@[k].ty, vals@[k], e2@[k].1));
                                assert(has_type(m, fields@[k].ty, vals@[k]));
                                assert(ref_wf(m, fields@[k].ty));
                                lemma_lower_functional(
                                    m,
                                    fields@[k].ty,
                                    vals@[k],
                                    e1@[k].1,
                                    e2@[k].1,
                                );
                            }
                        },
                        _ => {},
                    }
                },
                TypeDefKind::Variant(cases) => {
                    match (v, g1, g2) {
                        (WitVal::VariantVal(k, p), GuestVal::Obj(e1), GuestVal::Obj(e2)) => {
                            assert(e1@[0].0@ == tag_key() && e2@[0].0@ == tag_key());
                            assert(guest_eq(e1@[0].1, e2@[0].1));
                            match (cases@[k as int].payload, p) {
                                (Some(pt), Some(b1)) => {
                                    assert(ref_wf(m, pt));
                                    lemma_lower_functional(m, pt, *b1, e1@[1].1, e2@[1].1);
                                    assert(e1@[1].0@ == val_key() && e2@[1].0@ == val_key());
                                },
                                _ => {},
                            }
                        },
                        _ => {},
                    }
                },
                TypeDefKind::Enumeration(_) => {},
                TypeDefKind::Flags(names) => {
                    match (v, g1, g2) {
                        (WitVal::FlagsVal(bits), GuestVal::Obj(e1), GuestVal::Obj(e2)) => {
                            assert forall|k: int|
                                0 <= k < e1@.len() implies (#[trigger] e1@[k]).0@ == e2@[k].0@
                                && guest_eq(e1@[k].1, e2@[k].1) by {
                                assert(e1@[k].0@ == names@[k]@ && e2@[k].0@ == names@[k]@);
                                assert(e1@[k].1 == (GuestVal::BoolVal(bits@[k])));
                                assert(e2@[k].1 == (GuestVal::BoolVal(bits@[k])));
                            }
                        },
                        _ => {},
                    }
                },
                TypeDefKind::Tuple(elems) => {
                    match (v, g1, g2) {
                        (WitVal::TupleVal(vals), GuestVal::Arr(i1), GuestVal::Arr(i2)) => {
                            assert forall|k: int| 0 <= k < i1@.len() implies guest_eq(
                                #[trigger] i1@[k],
                                i2@[k],
                            ) by {
                                assert(lowers_to(m, elems@[k], vals@[k], i1@[k]));
                                assert(lowers_to(m, elems@[k], vals@[k], i2@[k]));
                                assert(has_type(m, elems@[k], vals@[k]));
                                assert(ref_wf(m, elems@[k]));
                                lemma_lower_functional(m, elems@[k], vals@[k], i1@[k], i2@[k]);
                            }
                        },
                        _ => {},
                    }
                },
                TypeDefKind::OptionOf(et) => {
                    match (v, g1, g2) {
                        (WitVal::OptionVal(p), GuestVal::Obj(e1), GuestVal::Obj(e2)) => {
                            assert(guest_eq(e1@[0].1, e2@[0].1));
                            match p {
                                Some(b1) => {
                                    assert(ref_wf(m, et));
                                    lemma_lower_functional(m, et, *b1, e1@[1].1, e2@[1].1);
                                },
                                None => {},
                            }
                        },
                        _ => {},
                    }
                },
                TypeDefKind::ResultOf(okt, errt) => {
                    match (v, g1, g2) {
                        (WitVal::ResultVal(ok, p), GuestVal::Obj(e1), GuestVal::Obj(e2)) => {
                            assert(guest_eq(e1@[0].1, e2@[0].1));
                            let side = if ok {
                                okt
                            } else {
                                errt
                            };
                            match (side, p) {
                                (Some(pt), Some(b1)) => {
                                    assert(ref_wf(m, pt));
                                    lemma_lower_functional(m, pt, *b1, e1@[1].1, e2@[1].1);
                                },
                                _ => {},
                            }
                        },
                        _ => {},
                    }
                },
                TypeDefKind::ListOf(et) => {
                    match (v, g1, g2) {
                        (WitVal::ListVal(vals), GuestVal::Arr(i1), GuestVal::Arr(i2)) => {
                            assert(ref_wf(m, et));
                            assert forall|k: int| 0 <= k < i1@.len() implies guest_eq(
                                #[trigger] i1@[k],
                                i2@[k],
                            ) by {
                                assert(lowers_to(m, et, vals@[k], i1@[k]));
                                assert(lowers_to(m, et, vals@[k], i2@[k]));
                                assert(has_type(m, et, vals@[k]));
                                lemma_lower_functional(m, et, vals@[k], i1@[k], i2@[k]);
                            }
                        },
                        _ => {},
                    }
                },
                TypeDefKind::Resource => {},
                TypeDefKind::Handle(_) => {},
                TypeDefKind::Alias(at) => {
                    lemma_lower_functional(m, at, v, g1, g2);
                },
            }
        },
    }
}

} // verus!
