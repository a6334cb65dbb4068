use wasm_rquickjs::context::GeneratorContext;
use wasm_rquickjs::errors::GenError;
use wasm_rquickjs::model::{
    Field, Function, FunctionKind, Interface, Model, Package, PackageName, PrimKind, TypeDef,
    TypeDefKind, TypeOwner, TypeRef, World, WorldItem,
};
use wasm_rquickjs::plans::{export_plan, import_plan, register_world_types, ExportKind, ImportBinding};
use wasm_rquickjs::registry::{register_type, VisitedSet};

fn f(name: &str, tys: Vec<TypeRef>, result: Option<TypeRef>) -> Function {
    Function {
        name: name.to_string(),
        kind: FunctionKind::Freestanding,
        params: tys
            .into_iter()
            .enumerate()
            .map(|(i, ty)| Field { name: format!("p{i}"), ty })
            .collect(),
        result,
    }
}

/// Types 0 and 1 form a cycle: a record holding a list of itself.
fn cyclic_model() -> Model {
    let record = TypeDef {
        name: Some("node".to_string()),
        owner: TypeOwner::NoOwner,
        kind: TypeDefKind::Record(vec![Field {
            name: "children".to_string(),
            ty: TypeRef::Id(1),
        }]),
    };
    let list = TypeDef {
        name: None,
        owner: TypeOwner::NoOwner,
        kind: TypeDefKind::ListOf(TypeRef::Id(0)),
    };
    let world = World {
        name: "w".to_string(),
        exports: vec![(
            "walk".to_string(),
            WorldItem::Function(f("walk", vec![TypeRef::Id(0)], None)),
        )],
        imports: vec![],
    };
    Model {
        packages: vec![Package {
            name: PackageName {
                namespace: "ns".to_string(),
                name: "pkg".to_string(),
                version: None,
            },
            worlds: vec![0],
        }],
        interfaces: vec![],
        worlds: vec![world],
        types: vec![record, list],
    }
}

#[test]
fn registration_is_idempotent_and_terminates_on_cycles() {
    let m = cyclic_model();
    let mut visited = VisitedSet::new(m.types.len());
    let mut out = Vec::new();
    register_type(&m, &mut visited, TypeRef::Id(0), &mut out);
    assert_eq!(out, vec![0, 1]);
    // Running classification again emits nothing new.
    register_type(&m, &mut visited, TypeRef::Id(0), &mut out);
    register_type(&m, &mut visited, TypeRef::Id(1), &mut out);
    assert_eq!(out, vec![0, 1]);
}

#[test]
fn world_registration_covers_signatures_once() {
    let m = cyclic_model();
    let mut c = GeneratorContext::new(m, 0, Some(&"w".to_string())).unwrap();
    let mut out = Vec::new();
    register_world_types(&mut c, &mut out);
    assert_eq!(out, vec![0, 1]);
}

fn plan_model(anonymous_import: bool) -> Model {
    let iface = Interface {
        name: if anonymous_import { None } else { Some("host-api".to_string()) },
        package: Some(0),
        functions: vec![f("ping", vec![], None)],
    };
    let world = World {
        name: "w".to_string(),
        exports: vec![
            ("run".to_string(), WorldItem::Function(f("run", vec![], None))),
            ("t".to_string(), WorldItem::Type(0)),
        ],
        imports: vec![
            ("host-api".to_string(), WorldItem::Interface(0)),
            ("now".to_string(), WorldItem::Function(f("now", vec![], None))),
        ],
    };
    Model {
        packages: vec![Package {
            name: PackageName {
                namespace: "acme".to_string(),
                name: "clock".to_string(),
                version: None,
            },
            worlds: vec![0],
        }],
        interfaces: vec![iface],
        worlds: vec![world],
        types: vec![TypeDef {
            name: Some("t".to_string()),
            owner: TypeOwner::World(0),
            kind: TypeDefKind::Resource,
        }],
    }
}

#[test]
fn export_plan_is_complete_and_unique() {
    let m = plan_model(false);
    let c = GeneratorContext::new(m, 0, None).unwrap();
    let plan = export_plan(&c);
    assert_eq!(plan.len(), 2);
    assert_eq!(plan[0].export_name, "run");
    assert!(matches!(plan[0].kind, ExportKind::Function));
    assert_eq!(plan[1].export_name, "t");
    assert!(matches!(plan[1].kind, ExportKind::Type(0)));
}

#[test]
fn import_plan_groups_interfaces_under_qualified_names() {
    let m = plan_model(false);
    let c = GeneratorContext::new(m, 0, None).unwrap();
    let plan = import_plan(&c).unwrap();
    assert_eq!(plan.len(), 2);
    match &plan[0].binding {
        ImportBinding::Interface { id, module } => {
            assert_eq!(*id, 0);
            assert_eq!(module, "acme_clock_host_api");
        }
        other => panic!("expected an interface binding, got {other:?}"),
    }
    assert!(matches!(plan[1].binding, ImportBinding::Function));
}

#[test]
fn anonymous_interface_import_fails_the_plan() {
    let m = plan_model(true);
    let c = GeneratorContext::new(m, 0, None).unwrap();
    assert_eq!(import_plan(&c).unwrap_err(), GenError::UnnamedInterface(0));
}

#[test]
fn world_registration_is_complete_for_signature_types() {
    // A world whose import signature mentions a type not mentioned by the
    // exports: registration must still visit and emit it.
    let extra = TypeDef {
        name: Some("extra".to_string()),
        owner: TypeOwner::NoOwner,
        kind: TypeDefKind::Record(vec![]),
    };
    let world = World {
        name: "w".to_string(),
        exports: vec![(
            "walk".to_string(),
            WorldItem::Function(f("walk", vec![TypeRef::Id(0)], None)),
        )],
        imports: vec![(
            "feed".to_string(),
            WorldItem::Function(f("feed", vec![], Some(TypeRef::Id(2)))),
        )],
    };
    let mut m = cyclic_model();
    m.worlds = vec![world];
    m.types.push(extra);
    let mut c = GeneratorContext::new(m, 0, Some(&"w".to_string())).unwrap();
    let mut out = Vec::new();
    register_world_types(&mut c, &mut out);
    assert_eq!(out, vec![0, 1, 2]);
}
