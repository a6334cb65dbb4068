//! Host-side and guest-side value models for the conversion pipeline.

use vstd::prelude::*;

verus! {

/// A host-side WIT value.
#[derive(Debug)]
pub enum WitVal {
    BoolVal(bool),
    U8Val(u8),
    U16Val(u16),
    U32Val(u32),
    U64Val(u64),
    S8Val(i8),
    S16Val(i16),
    S32Val(i32),
    S64Val(i64),
    CharVal(char),
    StrVal(String),
    RecordVal(Vec<WitVal>),
    VariantVal(usize, Option<Box<WitVal>>),
    EnumVal(usize),
    FlagsVal(Vec<bool>),
    TupleVal(Vec<WitVal>),
    OptionVal(Option<Box<WitVal>>),
    ResultVal(bool, Option<Box<WitVal>>),
    ListVal(Vec<WitVal>),
}

/// A guest-side (JavaScript-shaped) value.
#[derive(Debug)]
pub enum GuestVal {
    Null,
    BoolVal(bool),
    Num(i128),
    StrVal(String),
    Arr(Vec<GuestVal>),
    Obj(Vec<(String, GuestVal)>),
}

/// Structural equality of host values: equal shapes, equal scalars, and
/// string contents compared by their characters.
pub open spec fn wit_eq(a: WitVal, b: WitVal) -> bool
    decreases a,
{
    match (a, b) {
        (WitVal::BoolVal(x), WitVal::BoolVal(y)) => x == y,
        (WitVal::U8Val(x), WitVal::U8Val(y)) => x == y,
        (WitVal::U16Val(x), WitVal::U16Val(y)) => x == y,
        (WitVal::U32Val(x), WitVal::U32Val(y)) => x == y,
        (WitVal::U64Val(x), WitVal::U64Val(y)) => x == y,
        (WitVal::S8Val(x), WitVal::S8Val(y)) => x == y,
        (WitVal::S16Val(x), WitVal::S16Val(y)) => x == y,
        (WitVal::S32Val(x), WitVal::S32Val(y)) => x == y,
        (WitVal::S64Val(x), WitVal::S64Val(y)) => x == y,
        (WitVal::CharVal(x), WitVal::CharVal(y)) => x == y,
        (WitVal::StrVal(x), WitVal::StrVal(y)) => x@ == y@,
        (WitVal::RecordVal(xs), WitVal::RecordVal(ys)) => xs.len() == ys.len() && (forall|k: int|
            0 <= k < xs.len() ==> wit_eq(#[trigger] xs[k], ys[k])),
        (WitVal::VariantVal(i, p), WitVal::VariantVal(j, q)) => i == j && (match (p, q) {
            (Some(x), Some(y)) => wit_eq(*x, *y),
            (None, None) => true,
            _ => false,
        }),
        (WitVal::EnumVal(i), WitVal::EnumVal(j)) => i == j,
        (WitVal::FlagsVal(xs), WitVal::FlagsVal(ys)) => xs@ == ys@,
        (WitVal::TupleVal(xs), WitVal::TupleVal(ys)) => xs.len() == ys.len() && (forall|k: int|
            0 <= k < xs.len() ==> wit_eq(#[trigger] xs[k], ys[k])),
        (WitVal::OptionVal(p), WitVal::OptionVal(q)) => (match (p, q) {
            (Some(x), Some(y)) => wit_eq(*x, *y),
            (None, None) => true,
            _ => false,
        }),
        (WitVal::ResultVal(i, p), WitVal::ResultVal(j, q)) => i == j && (match (p, q) {
            (Some(x), Some(y)) => wit_eq(*x, *y),
            (None, None) => true,
            _ => false,
        }),
        (WitVal::ListVal(xs), WitVal::ListVal(ys)) => xs.len() == ys.len() && (forall|k: int|
            0 <= k < xs.len() ==> wit_eq(#[trigger] xs[k], ys[k])),
        _ => false,
    }
}

} // verus!
