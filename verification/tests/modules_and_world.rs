use wasm_rquickjs::errors::GenError;
use wasm_rquickjs::names::replace_all_exec;
use wasm_rquickjs::handles::HandleTable;
use wasm_rquickjs::model::{
    Model, Package, PackageName, PrimKind, TypeDef, TypeDefKind, TypeOwner, TypeRef, World,
    WorldItem,
};
use wasm_rquickjs::typescript::{export_surface_dts, import_surface_dts, ts_type_name};
use wasm_rquickjs::context::GeneratorContext;
use wasm_rquickjs::model::{Case, Field, Function, FunctionKind, Interface};
use wasm_rquickjs::values::WitVal;
use wasm_rquickjs::witgen::add_get_script_import;
use wasm_rquickjs::{
    js_copy_plan, parse_js_module_spec, uses_composition, EmbeddingMode, JsModuleSpec,
};

fn spec(name: &str, mode: EmbeddingMode) -> JsModuleSpec {
    JsModuleSpec { name: name.to_string(), mode }
}

#[test]
fn file_name_flattens_slashes() {
    let s = spec("bundle/script_module", EmbeddingMode::Composition);
    assert_eq!(s.file_name(), "bundle_script_module.js");
    let s = spec("plain", EmbeddingMode::Composition);
    assert_eq!(s.file_name(), "plain.js");
}

#[test]
fn module_spec_strings_parse() {
    let parsed = parse_js_module_spec("extra=@composition").unwrap();
    assert_eq!(parsed.name, "extra");
    assert!(matches!(parsed.mode, EmbeddingMode::Composition));

    let parsed = parse_js_module_spec("main=./src/main.js").unwrap();
    assert_eq!(parsed.name, "main");
    assert!(matches!(parsed.mode, EmbeddingMode::EmbedFile(p) if p == "./src/main.js"));

    assert_eq!(
        parse_js_module_spec("no-equals-here").unwrap_err(),
        GenError::InvalidModuleSpec
    );
}

#[test]
fn composition_modules_are_not_copied() {
    let mods = vec![
        spec("main", EmbeddingMode::EmbedFile("./main.js".to_string())),
        spec("extra", EmbeddingMode::Composition),
    ];
    assert!(uses_composition(&mods));
    let plan = js_copy_plan(&mods);
    assert_eq!(plan, vec![("./main.js".to_string(), "main.js".to_string())]);

    let only_files = vec![spec("main", EmbeddingMode::EmbedFile("./main.js".to_string()))];
    assert!(!uses_composition(&only_files));
}

#[test]
fn composition_adds_the_synthetic_import() {
    let w = World {
        name: "w".to_string(),
        exports: vec![],
        imports: vec![],
    };
    let w2 = add_get_script_import(w).unwrap();
    assert_eq!(w2.imports.len(), 1);
    assert_eq!(w2.imports[0].0, "get-script");
    match &w2.imports[0].1 {
        WorldItem::Function(f) => {
            assert_eq!(f.name, "get-script");
            assert!(f.params.is_empty());
            assert_eq!(f.result, Some(TypeRef::Prim(PrimKind::Str)));
        }
        other => panic!("expected a function import, got {other:?}"),
    }
    // Adding it twice is rejected rather than duplicated.
    assert_eq!(
        add_get_script_import(w2).unwrap_err(),
        GenError::ImportNameTaken
    );
}

#[test]
fn disposed_handles_stay_dead() {
    let mut table = HandleTable::new();
    let h = table.insert(WitVal::U32Val(42));
    match table.get(h) {
        Some(WitVal::U32Val(42)) => {}
        other => panic!("expected the stored value back, got {other:?}"),
    }
    assert!(table.drop_handle(h));
    assert!(table.get(h).is_none());
    assert!(!table.drop_handle(h));
    // A fresh handle is unaffected.
    let h2 = table.insert(WitVal::U32Val(7));
    assert_ne!(h, h2);
    assert!(table.get(h2).is_some());
}

#[test]
fn placeholder_replacement_handles_repeats() {
    assert_eq!(replace_all_exec("aXbXc", "X", "__"), "a__b__c");
    assert_eq!(replace_all_exec("nothing", "X", "__"), "nothing");
    assert_eq!(replace_all_exec("XX", "X", "Y"), "YY");
}

#[test]
fn typescript_references_follow_the_shape() {
    let td = |name: Option<&str>, kind| TypeDef {
        name: name.map(|n| n.to_string()),
        owner: TypeOwner::NoOwner,
        kind,
    };
    let m = Model {
        packages: vec![Package {
            name: PackageName {
                namespace: "ns".to_string(),
                name: "pkg".to_string(),
                version: None,
            },
            worlds: vec![],
        }],
        interfaces: vec![],
        worlds: vec![],
        types: vec![
            td(Some("my-record"), TypeDefKind::Record(vec![])),
            td(None, TypeDefKind::ListOf(TypeRef::Id(0))),
            td(None, TypeDefKind::OptionOf(TypeRef::Prim(PrimKind::U64))),
        ],
    };
    assert_eq!(ts_type_name(&m, &TypeRef::Prim(PrimKind::Bool)).unwrap(), "boolean");
    assert_eq!(ts_type_name(&m, &TypeRef::Prim(PrimKind::U32)).unwrap(), "number");
    assert_eq!(ts_type_name(&m, &TypeRef::Prim(PrimKind::Str)).unwrap(), "string");
    assert_eq!(ts_type_name(&m, &TypeRef::Id(0)).unwrap(), "MyRecord");
    assert_eq!(ts_type_name(&m, &TypeRef::Id(1)).unwrap(), "MyRecord[]");
    assert_eq!(ts_type_name(&m, &TypeRef::Id(2)).unwrap(), "(bigint | null)");
}

#[test]
fn declaration_surfaces_mirror_the_world() {
    let add = Function {
        name: "add-one".to_string(),
        kind: FunctionKind::Freestanding,
        params: vec![Field { name: "input-value".to_string(), ty: TypeRef::Prim(PrimKind::U32) }],
        result: Some(TypeRef::Prim(PrimKind::U32)),
    };
    let color = TypeDef {
        name: Some("color".to_string()),
        owner: TypeOwner::World(0),
        kind: TypeDefKind::Enumeration(vec!["red".to_string(), "green".to_string()]),
    };
    let shape = TypeDef {
        name: Some("shape".to_string()),
        owner: TypeOwner::World(0),
        kind: TypeDefKind::Variant(vec![
            Case { name: "dot".to_string(), payload: None },
            Case { name: "line".to_string(), payload: Some(TypeRef::Prim(PrimKind::U32)) },
        ]),
    };
    let host = Interface {
        name: Some("host-api".to_string()),
        package: Some(0),
        functions: vec![Function {
            name: "now".to_string(),
            kind: FunctionKind::Freestanding,
            params: vec![],
            result: Some(TypeRef::Prim(PrimKind::U64)),
        }],
    };
    let m = Model {
        packages: vec![Package {
            name: PackageName {
                namespace: "acme".to_string(),
                name: "demo".to_string(),
                version: None,
            },
            worlds: vec![0],
        }],
        interfaces: vec![host],
        worlds: vec![World {
            name: "w".to_string(),
            exports: vec![
                ("add-one".to_string(), WorldItem::Function(add)),
                ("color".to_string(), WorldItem::Type(0)),
                ("shape".to_string(), WorldItem::Type(1)),
            ],
            imports: vec![("host-api".to_string(), WorldItem::Interface(0))],
        }],
        types: vec![color, shape],
    };
    let c = GeneratorContext::new(m, 0, None).unwrap();
    let exports = export_surface_dts(&c).unwrap();
    assert_eq!(
        exports,
        "export function addOne(inputValue: number, ): number;\n\
         export type Color = | \"red\" | \"green\" ;\n\
         export type Shape = | { tag: \"dot\" } | { tag: \"line\", val: number } ;\n"
    );
    let imports = import_surface_dts(&c).unwrap();
    assert_eq!(imports.len(), 1);
    assert_eq!(imports[0].0, "acme_demo_host_api");
    assert_eq!(
        imports[0].1,
        "declare module \"acme_demo_host_api\" {\nexport function now(): bigint;\n}\n"
    );
}
