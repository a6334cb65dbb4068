use wasm_rquickjs::convert::{lift, lower, ConvError};
use wasm_rquickjs::model::{
    Case, Field, Model, Package, PackageName, PrimKind, TypeDef, TypeDefKind, TypeOwner, TypeRef,
};
use wasm_rquickjs::values::{GuestVal, WitVal};

/// An arena exercising every value-convertible shape:
/// 0: record { n: u32, s: string }
/// 1: variant { none-case, some-case(u32) }
/// 2: enum { red, green }
/// 3: flags { a, b, c }
/// 4: tuple<bool, char>
/// 5: option<u32>
/// 6: result<u32, string>
/// 7: list<u32>
/// 8: alias to 0
fn type_model() -> Model {
    let td = |kind| TypeDef { name: None, owner: TypeOwner::NoOwner, kind };
    Model {
        packages: vec![Package {
            name: PackageName {
                namespace: "ns".to_string(),
                name: "pkg".to_string(),
                version: None,
            },
            worlds: vec![],
        }],
        interfaces: vec![],
        worlds: vec![],
        types: vec![
            td(TypeDefKind::Record(vec![
                Field { name: "n".to_string(), ty: TypeRef::Prim(PrimKind::U32) },
                Field { name: "s".to_string(), ty: TypeRef::Prim(PrimKind::Str) },
            ])),
            td(TypeDefKind::Variant(vec![
                Case { name: "empty".to_string(), payload: None },
                Case { name: "filled".to_string(), payload: Some(TypeRef::Prim(PrimKind::U32)) },
            ])),
            td(TypeDefKind::Enumeration(vec!["red".to_string(), "green".to_string()])),
            td(TypeDefKind::Flags(vec!["a".to_string(), "b".to_string(), "c".to_string()])),
            td(TypeDefKind::Tuple(vec![
                TypeRef::Prim(PrimKind::Bool),
                TypeRef::Prim(PrimKind::Char),
            ])),
            td(TypeDefKind::OptionOf(TypeRef::Prim(PrimKind::U32))),
            td(TypeDefKind::ResultOf(
                Some(TypeRef::Prim(PrimKind::U32)),
                Some(TypeRef::Prim(PrimKind::Str)),
            )),
            td(TypeDefKind::ListOf(TypeRef::Prim(PrimKind::U32))),
            td(TypeDefKind::Alias(TypeRef::Id(0))),
        ],
    }
}

fn round_trip(m: &Model, t: TypeRef, v: &WitVal) -> WitVal {
    let g = lower(m, &t, v).expect("lowering a well-typed value succeeds");
    lift(m, &t, &g).expect("lifting a lowered value succeeds")
}

fn expect_u32(v: &WitVal) -> u32 {
    match v {
        WitVal::U32Val(x) => *x,
        other => panic!("expected a u32 value, got {other:?}"),
    }
}

#[test]
fn primitives_round_trip() {
    let m = type_model();
    let v = round_trip(&m, TypeRef::Prim(PrimKind::U32), &WitVal::U32Val(5));
    assert_eq!(expect_u32(&v), 5);
    let v = round_trip(&m, TypeRef::Prim(PrimKind::S64), &WitVal::S64Val(-7));
    assert!(matches!(v, WitVal::S64Val(-7)));
    let v = round_trip(&m, TypeRef::Prim(PrimKind::Char), &WitVal::CharVal('q'));
    assert!(matches!(v, WitVal::CharVal('q')));
    let v = round_trip(&m, TypeRef::Prim(PrimKind::Str), &WitVal::StrVal("hey".to_string()));
    assert!(matches!(v, WitVal::StrVal(s) if s == "hey"));
}

#[test]
fn record_round_trips_and_field_order_is_kept() {
    let m = type_model();
    let v = WitVal::RecordVal(vec![WitVal::U32Val(9), WitVal::StrVal("x".to_string())]);
    let g = lower(&m, &TypeRef::Id(0), &v).unwrap();
    match &g {
        GuestVal::Obj(entries) => {
            assert_eq!(entries[0].0, "n");
            assert_eq!(entries[1].0, "s");
        }
        other => panic!("expected an object, got {other:?}"),
    }
    let v2 = lift(&m, &TypeRef::Id(0), &g).unwrap();
    match v2 {
        WitVal::RecordVal(vals) => {
            assert_eq!(expect_u32(&vals[0]), 9);
            assert!(matches!(&vals[1], WitVal::StrVal(s) if s == "x"));
        }
        other => panic!("expected a record, got {other:?}"),
    }
}

#[test]
fn variant_round_trips_by_tag() {
    let m = type_model();
    let t = TypeRef::Id(1);
    let v = round_trip(&m, t, &WitVal::VariantVal(1, Some(Box::new(WitVal::U32Val(3)))));
    assert!(matches!(v, WitVal::VariantVal(1, Some(p)) if expect_u32(&p) == 3));
    let v = round_trip(&m, t, &WitVal::VariantVal(0, None));
    assert!(matches!(v, WitVal::VariantVal(0, None)));
    // An unknown tag is an error, not a silent skip.
    let bad = GuestVal::Obj(vec![(
        "tag".to_string(),
        GuestVal::StrVal("missing".to_string()),
    )]);
    assert_eq!(lift(&m, &t, &bad).unwrap_err(), ConvError::UnknownTag);
}

#[test]
fn enum_round_trips_as_name() {
    let m = type_model();
    let t = TypeRef::Id(2);
    let g = lower(&m, &t, &WitVal::EnumVal(1)).unwrap();
    assert!(matches!(&g, GuestVal::StrVal(s) if s == "green"));
    assert!(matches!(lift(&m, &t, &g).unwrap(), WitVal::EnumVal(1)));
    let bad = GuestVal::StrVal("blue".to_string());
    assert_eq!(lift(&m, &t, &bad).unwrap_err(), ConvError::UnknownTag);
}

#[test]
fn flags_round_trip_keyed_by_name() {
    let m = type_model();
    let t = TypeRef::Id(3);
    let v = WitVal::FlagsVal(vec![true, false, true]);
    let g = lower(&m, &t, &v).unwrap();
    match &g {
        GuestVal::Obj(entries) => {
            assert_eq!(entries.len(), 3);
            assert_eq!(entries[0].0, "a");
            assert!(matches!(entries[1].1, GuestVal::BoolVal(false)));
        }
        other => panic!("expected an object, got {other:?}"),
    }
    assert!(matches!(
        lift(&m, &t, &g).unwrap(),
        WitVal::FlagsVal(bits) if bits == vec![true, false, true]
    ));
    // An unrecognized flag name is an error.
    let bad = GuestVal::Obj(vec![
        ("a".to_string(), GuestVal::BoolVal(true)),
        ("nope".to_string(), GuestVal::BoolVal(false)),
        ("c".to_string(), GuestVal::BoolVal(false)),
    ]);
    assert_eq!(lift(&m, &t, &bad).unwrap_err(), ConvError::UnknownTag);
}

#[test]
fn tuple_option_result_list_round_trip() {
    let m = type_model();
    let v = round_trip(
        &m,
        TypeRef::Id(4),
        &WitVal::TupleVal(vec![WitVal::BoolVal(true), WitVal::CharVal('z')]),
    );
    assert!(matches!(v, WitVal::TupleVal(_)));
    let v = round_trip(&m, TypeRef::Id(5), &WitVal::OptionVal(None));
    assert!(matches!(v, WitVal::OptionVal(None)));
    let v = round_trip(&m, TypeRef::Id(5), &WitVal::OptionVal(Some(Box::new(WitVal::U32Val(1)))));
    assert!(matches!(v, WitVal::OptionVal(Some(_))));
    let v = round_trip(
        &m,
        TypeRef::Id(6),
        &WitVal::ResultVal(false, Some(Box::new(WitVal::StrVal("bad".to_string())))),
    );
    assert!(matches!(v, WitVal::ResultVal(false, Some(_))));
    let v = round_trip(
        &m,
        TypeRef::Id(7),
        &WitVal::ListVal(vec![WitVal::U32Val(1), WitVal::U32Val(2)]),
    );
    assert!(matches!(v, WitVal::ListVal(vals) if vals.len() == 2));
}

#[test]
fn alias_converts_as_its_target() {
    let m = type_model();
    let v = WitVal::RecordVal(vec![WitVal::U32Val(4), WitVal::StrVal("y".to_string())]);
    let v2 = round_trip(&m, TypeRef::Id(8), &v);
    assert!(matches!(v2, WitVal::RecordVal(_)));
}

#[test]
fn guest_overflow_is_an_error_not_a_wraparound() {
    let m = type_model();
    let t = TypeRef::Prim(PrimKind::U32);
    // 2 and 3 convert; their sum computed guest-side converts back.
    assert_eq!(expect_u32(&lift(&m, &t, &GuestVal::Num(5)).unwrap()), 5);
    // A value past u32::MAX comes back as a conversion error.
    let too_big = GuestVal::Num(u32::MAX as i128 + 1);
    assert_eq!(lift(&m, &t, &too_big).unwrap_err(), ConvError::OutOfRange);
    let negative = GuestVal::Num(-1);
    assert_eq!(lift(&m, &t, &negative).unwrap_err(), ConvError::OutOfRange);
}

#[test]
fn record_with_wrong_fields_is_an_error() {
    let m = type_model();
    let t = TypeRef::Id(0);
    let absent = GuestVal::Obj(vec![("n".to_string(), GuestVal::Num(1))]);
    assert_eq!(lift(&m, &t, &absent).unwrap_err(), ConvError::BadFields);
    let renamed = GuestVal::Obj(vec![
        ("n".to_string(), GuestVal::Num(1)),
        ("other".to_string(), GuestVal::StrVal("x".to_string())),
    ]);
    assert_eq!(lift(&m, &t, &renamed).unwrap_err(), ConvError::BadFields);
    let mistyped = GuestVal::Num(3);
    assert_eq!(lift(&m, &t, &mistyped).unwrap_err(), ConvError::Mismatch);
}
