use wasm_rquickjs::context::GeneratorContext;
use wasm_rquickjs::errors::GenError;
use wasm_rquickjs::manifest::{
    generate_app_manifest, generate_cargo_toml, parent_exec, strip_root_exec, wit_dependency_table,
    PackageSources,
};
use wasm_rquickjs::model::{Model, Package, PackageName, World};

fn pkg(ns: &str, name: &str, version: Option<&str>, worlds: Vec<usize>) -> Package {
    Package {
        name: PackageName {
            namespace: ns.to_string(),
            name: name.to_string(),
            version: version.map(|v| v.to_string()),
        },
        worlds,
    }
}

fn manifest_model() -> Model {
    Model {
        packages: vec![
            pkg("root", "main", None, vec![0]),
            pkg("dep", "one", Some("0.1.0"), vec![]),
            pkg("dep", "two", None, vec![]),
        ],
        interfaces: vec![],
        worlds: vec![World {
            name: "my-world".to_string(),
            exports: vec![],
            imports: vec![],
        }],
        types: vec![],
    }
}

fn sources(entries: &[(usize, &[&str])]) -> Vec<PackageSources> {
    entries
        .iter()
        .map(|(p, paths)| PackageSources {
            package: *p,
            paths: paths.iter().map(|s| s.to_string()).collect(),
        })
        .collect()
}

#[test]
fn one_row_per_dependency_directory() {
    let m = manifest_model();
    let map = sources(&[
        (0, &["/wit/main.wit"]),
        (1, &["/wit/deps/one/a.wit", "/wit/deps/one/b.wit"]),
        (2, &["/wit/deps/two/two.wit"]),
    ]);
    let rows = wit_dependency_table(&m, "/wit", &map).unwrap();
    assert_eq!(
        rows,
        vec![
            ("dep:one".to_string(), "wit/deps/one".to_string()),
            ("dep:two".to_string(), "wit/deps/two".to_string()),
        ]
    );
}

#[test]
fn split_package_sources_fail_generation() {
    let m = manifest_model();
    let map = sources(&[(1, &["/wit/deps/one/a.wit", "/wit/other/b.wit"])]);
    assert_eq!(
        wit_dependency_table(&m, "/wit", &map).unwrap_err(),
        GenError::SplitPackageSources(1)
    );
}

#[test]
fn package_without_sources_fails_generation() {
    let m = manifest_model();
    let map = sources(&[(2, &[])]);
    assert_eq!(
        wit_dependency_table(&m, "/wit", &map).unwrap_err(),
        GenError::NoPackageSources(2)
    );
}

#[test]
fn path_helpers_follow_the_wit_root() {
    assert_eq!(strip_root_exec("/wit", "/wit/deps/one/a.wit"), "deps/one/a.wit");
    assert_eq!(strip_root_exec("/wit", "/wit"), "");
    assert_eq!(strip_root_exec("/wit", "/elsewhere/a.wit"), "/elsewhere/a.wit");
    assert_eq!(parent_exec("deps/one/a.wit"), Some("deps/one".to_string()));
    assert_eq!(parent_exec("a.wit"), Some("".to_string()));
    assert_eq!(parent_exec(""), None);
}

#[test]
fn cargo_manifest_is_rewritten_from_the_skeleton() {
    let m = manifest_model();
    let c = GeneratorContext::new(m, 0, None).unwrap();
    let map = sources(&[
        (1, &["/wit/deps/one/a.wit"]),
        (2, &["/wit/deps/two/two.wit"]),
    ]);
    let skeleton = "[package]\nname = \"skeleton\"\nversion = \"0.1.0\"\n";
    let out = generate_cargo_toml(&c, skeleton, "/wit", &map).unwrap();
    let doc: toml_edit::DocumentMut = out.parse().unwrap();
    assert_eq!(doc["package"]["name"].as_str(), Some("my-world"));
    assert_eq!(
        doc["package"]["metadata"]["component"]["target"]["dependencies"]["dep:one"]["path"]
            .as_str(),
        Some("wit/deps/one")
    );
    assert_eq!(
        doc["package"]["metadata"]["component"]["target"]["dependencies"]["dep:two"]["path"]
            .as_str(),
        Some("wit/deps/two")
    );
}

#[test]
fn bad_skeleton_is_rejected() {
    let m = manifest_model();
    let c = GeneratorContext::new(m, 0, None).unwrap();
    let out = generate_cargo_toml(&c, "= not toml =", "/wit", &vec![]);
    assert_eq!(out.unwrap_err(), GenError::BadSkeleton);
}

#[test]
fn non_table_package_item_is_rejected_not_a_panic() {
    let m = manifest_model();
    let c = GeneratorContext::new(m, 0, None).unwrap();
    // `package` parses as an integer, so the name cannot be set under it.
    let out = generate_cargo_toml(&c, "package = 1\n", "/wit", &vec![]);
    assert_eq!(out.unwrap_err(), GenError::BadSkeleton);
}

#[test]
fn non_table_dependency_level_is_rejected_not_a_panic() {
    let m = manifest_model();
    let c = GeneratorContext::new(m, 0, None).unwrap();
    let map = sources(&[(1, &["/wit/deps/one/a.wit"])]);
    let skeleton = "[package]\nname = \"skeleton\"\nmetadata = 3\n";
    let out = generate_cargo_toml(&c, skeleton, "/wit", &map);
    assert_eq!(out.unwrap_err(), GenError::BadSkeleton);
}

#[test]
fn error_messages_are_fixed() {
    assert_eq!(
        GenError::BadSkeleton.message(),
        "skeleton file is missing or cannot be rewritten"
    );
    assert_eq!(
        GenError::WorldNotFound.message(),
        "the requested world does not exist in the root package"
    );
}

#[test]
fn app_manifest_substitutes_both_placeholders() {
    let m = manifest_model();
    let c = GeneratorContext::new(m, 0, None).unwrap();
    let template = "name: component_name\npackage: root:package\n";
    assert_eq!(
        generate_app_manifest(&c, template),
        "name: my_world\npackage: root:main\n"
    );
}
