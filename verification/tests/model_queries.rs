use wasm_rquickjs::context::{select_world, GeneratorContext};
use wasm_rquickjs::errors::GenError;
use wasm_rquickjs::model::{
    Field, Function, FunctionKind, Interface, Model, Package, PackageName, PrimKind, TypeDef,
    TypeDefKind, TypeOwner, TypeRef, World, WorldItem,
};

fn pkg_name(ns: &str, name: &str, version: Option<&str>) -> PackageName {
    PackageName {
        namespace: ns.to_string(),
        name: name.to_string(),
        version: version.map(|v| v.to_string()),
    }
}

fn add_fn() -> Function {
    Function {
        name: "add".to_string(),
        kind: FunctionKind::Freestanding,
        params: vec![
            Field { name: "a".to_string(), ty: TypeRef::Prim(PrimKind::U32) },
            Field { name: "b".to_string(), ty: TypeRef::Prim(PrimKind::U32) },
        ],
        result: Some(TypeRef::Prim(PrimKind::U32)),
    }
}

/// A model with one package owning two worlds, one interface, and a
/// record type owned by the interface.
fn sample_model() -> Model {
    let iface = Interface {
        name: Some("calc".to_string()),
        package: Some(0),
        functions: vec![add_fn()],
    };
    let record = TypeDef {
        name: Some("pair".to_string()),
        owner: TypeOwner::Interface(0),
        kind: TypeDefKind::Record(vec![
            Field { name: "x".to_string(), ty: TypeRef::Prim(PrimKind::U32) },
            Field { name: "y".to_string(), ty: TypeRef::Prim(PrimKind::Str) },
        ]),
    };
    let main_world = World {
        name: "main".to_string(),
        exports: vec![
            ("add".to_string(), WorldItem::Function(add_fn())),
            ("calc".to_string(), WorldItem::Interface(0)),
        ],
        imports: vec![("log".to_string(), WorldItem::Function(add_fn()))],
    };
    let other_world = World {
        name: "other".to_string(),
        exports: vec![],
        imports: vec![],
    };
    Model {
        packages: vec![Package { name: pkg_name("ns", "pkg", Some("1.0.0")), worlds: vec![0, 1] }],
        interfaces: vec![iface],
        worlds: vec![main_world, other_world],
        types: vec![record],
    }
}

#[test]
fn select_world_by_name() {
    let m = sample_model();
    let w = select_world(&m, 0, Some(&"other".to_string()));
    assert_eq!(w, Ok(1));
}

#[test]
fn select_world_missing_name() {
    let m = sample_model();
    let w = select_world(&m, 0, Some(&"nope".to_string()));
    assert_eq!(w, Err(GenError::WorldNotFound));
}

#[test]
fn select_world_ambiguous_default() {
    let m = sample_model();
    let w = select_world(&m, 0, None);
    assert_eq!(w, Err(GenError::NoUniqueWorld));
}

#[test]
fn exported_interface_and_type() {
    let m = sample_model();
    let c = GeneratorContext::new(m, 0, Some(&"main".to_string())).unwrap();
    assert!(c.is_exported_interface(0));
    // The record is owned by the exported interface, so it counts as exported.
    assert!(c.is_exported_type(0));
    assert!(!c.is_exported_type(7));
}

#[test]
fn unknown_type_is_an_error() {
    let m = sample_model();
    let c = GeneratorContext::new(m, 0, Some(&"main".to_string())).unwrap();
    assert!(c.typ(0).is_ok());
    assert_eq!(c.typ(9).unwrap_err(), GenError::UnknownType(9));
}

#[test]
fn imported_interface_names() {
    let m = sample_model();
    let c = GeneratorContext::new(m, 0, Some(&"main".to_string())).unwrap();
    let v = c.get_imported_interface(0).unwrap();
    assert_eq!(v.module_name().unwrap(), "ns_pkg_1_0_0_calc");
    assert_eq!(v.rust_interface_name(), "JsCalcModule");
    assert_eq!(v.fully_qualified_interface_name(), "ns:pkg/calc@1.0.0");
    assert_eq!(v.interface_stack(), vec![0]);
    let (name, id) = v.name_and_interface().unwrap();
    assert_eq!((name.as_str(), id), ("calc", 0));
}

#[test]
fn root_package_name_renders_with_version() {
    let m = sample_model();
    let c = GeneratorContext::new(m, 0, Some(&"main".to_string())).unwrap();
    assert_eq!(c.root_package_name(), "ns:pkg@1.0.0");
}
