//! The resolved WIT model: packages, interfaces, worlds, types and functions
//! as plain data, with the well-formedness conditions the generator relies on.
//!
//! The resolver that parses WIT text is an external collaborator; it hands
//! this crate a fully resolved graph, re-expressed with the arenas below.
//! Identifiers are indices into the arenas of [`Model`].

use vstd::prelude::*;

verus! {

/// A primitive WIT type.
#[derive(Debug, Clone, Copy, PartialEq, Eq, Structural)]
pub enum PrimKind {
    Bool,
    U8,
    U16,
    U32,
    U64,
    S8,
    S16,
    S32,
    S64,
    Float32,
    Float64,
    Char,
    Str,
}

/// A reference to a type: either a primitive or an entry of the type arena.
#[derive(Debug, Clone, Copy, PartialEq, Eq, Structural)]
pub enum TypeRef {
    Prim(PrimKind),
    Id(usize),
}

/// The owner of a non-anonymous type: a world, an interface, or nobody.
#[derive(Debug, Clone, Copy, PartialEq, Eq, Structural)]
pub enum TypeOwner {
    World(usize),
    Interface(usize),
    NoOwner,
}

/// A named field of a record, or a named function parameter.
#[derive(Debug, Clone)]
pub struct Field {
    pub name: String,
    pub ty: TypeRef,
}

/// One case of a variant, with an optional payload type.
#[derive(Debug, Clone)]
pub struct Case {
    pub name: String,
    pub payload: Option<TypeRef>,
}

/// The shape of an entry in the type arena.
#[derive(Debug, Clone)]
pub enum TypeDefKind {
    Record(Vec<Field>),
    Variant(Vec<Case>),
    Enumeration(Vec<String>),
    Flags(Vec<String>),
    Tuple(Vec<TypeRef>),
    OptionOf(TypeRef),
    ResultOf(Option<TypeRef>, Option<TypeRef>),
    ListOf(TypeRef),
    Resource,
    Handle(usize),
    Alias(TypeRef),
}

/// An entry of the type arena.
#[derive(Debug, Clone)]
pub struct TypeDef {
    pub name: Option<String>,
    pub owner: TypeOwner,
    pub kind: TypeDefKind,
}

/// How a function is attached to a resource, if at all.
#[derive(Debug, Clone, Copy, PartialEq, Eq, Structural)]
pub enum FunctionKind {
    Freestanding,
    Method(usize),
    Static(usize),
    Constructor(usize),
}

/// A WIT function signature.
#[derive(Debug, Clone)]
pub struct Function {
    pub name: String,
    pub kind: FunctionKind,
    pub params: Vec<Field>,
    pub result: Option<TypeRef>,
}

/// One binding of a world's export or import table.
#[derive(Debug, Clone)]
pub enum WorldItem {
    Function(Function),
    Interface(usize),
    Type(usize),
}

/// A world: a named set of exports and imports.
#[derive(Debug, Clone)]
pub struct World {
    pub name: String,
    pub exports: Vec<(String, WorldItem)>,
    pub imports: Vec<(String, WorldItem)>,
}

/// A package name: `namespace:name`, optionally with an `@version` suffix.
#[derive(Debug, Clone)]
pub struct PackageName {
    pub namespace: String,
    pub name: String,
    pub version: Option<String>,
}

/// A package: its name and the worlds it owns.
#[derive(Debug, Clone)]
pub struct Package {
    pub name: PackageName,
    pub worlds: Vec<usize>,
}

/// A named collection of functions, owned by a package unless anonymous.
#[derive(Debug, Clone)]
pub struct Interface {
    pub name: Option<String>,
    pub package: Option<usize>,
    pub functions: Vec<Function>,
}

/// The resolved model: the four arenas all identifiers point into.
#[derive(Debug, Clone)]
pub struct Model {
    pub packages: Vec<Package>,
    pub interfaces: Vec<Interface>,
    pub worlds: Vec<World>,
    pub types: Vec<TypeDef>,
}

/// A type reference points into the arena (or is a primitive).
pub open spec fn ref_wf(m: Model, t: TypeRef) -> bool {
    match t {
        TypeRef::Prim(_) => true,
        TypeRef::Id(i) => i < m.types.len(),
    }
}

/// The rank of a type reference, used to show that alias chains end.
pub open spec fn type_rank(t: TypeRef) -> int {
    match t {
        TypeRef::Prim(_) => 0,
        TypeRef::Id(i) => i + 1,
    }
}

/// The names in a sequence are pairwise distinct.
pub open spec fn distinct_names(names: Seq<Seq<char>>) -> bool {
    forall|i: int, j: int| 0 <= i < j < names.len() ==> names[i] != names[j]
}

pub open spec fn field_names(fields: Seq<Field>) -> Seq<Seq<char>> {
    fields.map_values(|f: Field| f.name@)
}

pub open spec fn case_names(cases: Seq<Case>) -> Seq<Seq<char>> {
    cases.map_values(|c: Case| c.name@)
}

pub open spec fn string_views(names: Seq<String>) -> Seq<Seq<char>> {
    names.map_values(|s: String| s@)
}

/// Well-formedness of one entry of the type arena, at index `self_id`.
///
/// All child references stay inside the arena; an alias refers to a
/// strictly earlier entry, so alias chains cannot cycle; the names of
/// record fields, variant cases, enumeration cases and flags are distinct;
/// a handle refers to a resource entry.
pub open spec fn kind_wf(m: Model, self_id: int, kind: TypeDefKind) -> bool {
    match kind {
        TypeDefKind::Record(fields) => {
            &&& forall|i: int| 0 <= i < fields.len() ==> ref_wf(m, #[trigger] fields[i].ty)
            &&& distinct_names(field_names(fields@))
        },
        TypeDefKind::Variant(cases) => {
            &&& forall|i: int|
                0 <= i < cases.len() ==> (match #[trigger] cases[i].payload {
                    Some(t) => ref_wf(m, t),
                    None => true,
                })
            &&& distinct_names(case_names(cases@))
        },
        TypeDefKind::Enumeration(names) => distinct_names(string_views(names@)),
        TypeDefKind::Flags(names) => distinct_names(string_views(names@)),
        TypeDefKind::Tuple(elems) => forall|i: int|
            0 <= i < elems.len() ==> ref_wf(m, #[trigger] elems[i]),
        TypeDefKind::OptionOf(t) => ref_wf(m, t),
        TypeDefKind::ResultOf(ok, err) => {
            &&& (match ok {
                Some(t) => ref_wf(m, t),
                None => true,
            })
            &&& (match err {
                Some(t) => ref_wf(m, t),
                None => true,
            })
        },
        TypeDefKind::ListOf(t) => ref_wf(m, t),
        TypeDefKind::Resource => true,
        TypeDefKind::Handle(resource) => {
            &&& resource < m.types.len()
            &&& m.types[resource as int].kind is Resource
        },
        TypeDefKind::Alias(t) => {
            &&& ref_wf(m, t)
            &&& type_rank(t) <= self_id
        },
    }
}

pub open spec fn owner_wf(m: Model, owner: TypeOwner) -> bool {
    match owner {
        TypeOwner::World(w) => w < m.worlds.len(),
        TypeOwner::Interface(i) => i < m.interfaces.len(),
        TypeOwner::NoOwner => true,
    }
}

pub open spec fn typedef_wf(m: Model, self_id: int, td: TypeDef) -> bool {
    &&& owner_wf(m, td.owner)
    &&& kind_wf(m, self_id, td.kind)
}

pub open spec fn function_wf(m: Model, f: Function) -> bool {
    &&& forall|i: int| 0 <= i < f.params.len() ==> ref_wf(m, #[trigger] f.params[i].ty)
    &&& (match f.result {
        Some(t) => ref_wf(m, t),
        None => true,
    })
}

pub open spec fn world_item_wf(m: Model, item: WorldItem) -> bool {
    match item {
        WorldItem::Function(f) => function_wf(m, f),
        WorldItem::Interface(i) => i < m.interfaces.len(),
        WorldItem::Type(t) => t < m.types.len(),
    }
}

pub open spec fn item_table_wf(m: Model, table: Seq<(String, WorldItem)>) -> bool {
    &&& forall|i: int| 0 <= i < table.len() ==> world_item_wf(m, (#[trigger] table[i]).1)
    &&& distinct_names(table.map_values(|e: (String, WorldItem)| e.0@))
}

pub open spec fn world_wf(m: Model, w: World) -> bool {
    &&& item_table_wf(m, w.exports@)
    &&& item_table_wf(m, w.imports@)
}

pub open spec fn package_wf(m: Model, p: Package) -> bool {
    forall|i: int| 0 <= i < p.worlds.len() ==> (#[trigger] p.worlds[i]) < m.worlds.len()
}

pub open spec fn interface_wf(m: Model, it: Interface) -> bool {
    &&& (match it.package {
        Some(p) => p < m.packages.len(),
        None => true,
    })
    &&& forall|i: int| 0 <= i < it.functions.len() ==> function_wf(m, #[trigger] it.functions[i])
}

/// Well-formedness of the whole model: every identifier stored anywhere in
/// the four arenas points into the proper arena, alias chains end, and the
/// name lists that the conversion and lookup logic searches are distinct.
pub open spec fn wf(m: Model) -> bool {
    &&& forall|i: int| 0 <= i < m.packages.len() ==> package_wf(m, #[trigger] m.packages[i])
    &&& forall|i: int| 0 <= i < m.interfaces.len() ==> interface_wf(m, #[trigger] m.interfaces[i])
    &&& forall|i: int| 0 <= i < m.worlds.len() ==> world_wf(m, #[trigger] m.worlds[i])
    &&& forall|i: int| 0 <= i < m.types.len() ==> typedef_wf(m, i, #[trigger] m.types[i])
}

} // verus!
