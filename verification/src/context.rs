//! The generator context: the resolved model, the selected world, and the
//! read-only queries the generators make against them.

use vstd::prelude::*;
use crate::errors::GenError;
use crate::model::{
    interface_wf, wf, Function, Model, PackageName, TypeDef, TypeOwner, WorldItem,
};
use crate::names::{
    interface_id_display, package_name_display, snake_of, to_snake, to_upper_camel,
    upper_camel_of,
};
use crate::registry::VisitedSet;

verus! {

/// The first world of `ws` (a list of world identifiers) whose name reads
/// `name`, searching front to back.
pub open spec fn first_world_named(m: Model, ws: Seq<usize>, name: Seq<char>) -> Option<usize>
    decreases ws.len(),
{
    if ws.len() == 0 {
        None
    } else if m.worlds[ws[0] as int].name@ == name {
        Some(ws[0])
    } else {
        first_world_named(m, ws.drop_first(), name)
    }
}

/// The world the generation run works on, selected from the root package:
/// the named world if a name is given, otherwise the package's single
/// world. Fails if the name is absent, or if no unambiguous default exists.
pub fn select_world(m: &Model, root_package: usize, world: Option<&String>) -> (r: Result<
    usize,
    GenError,
>)
    requires
        wf(*m),
        root_package < m.packages.len(),
    ensures
        (match r {
            Ok(w) => w < m.worlds.len() && (match world {
                Some(n) => Some(w) == first_world_named(*m, m.packages[root_package as int].worlds@, n@),
                None => m.packages[root_package as int].worlds@.len() == 1 && w
                    == m.packages[root_package as int].worlds@[0],
            }),
            Err(e) => (match world {
                Some(n) => e == GenError::WorldNotFound && first_world_named(
                    *m,
                    m.packages[root_package as int].worlds@,
                    n@,
                ) is None,
                None => e == GenError::NoUniqueWorld && m.packages[root_package as int].worlds@.len()
                    != 1,
            }),
        }),
{
    let pkg = &m.packages[root_package];
    match world {
        Some(n) => {
            let ghost all = pkg.worlds@;
            let mut i: usize = 0;
            proof {
                assert(all.skip(0) =~= all);
            }
            while i < pkg.worlds.len()
                invariant
                    wf(*m),
                    root_package < m.packages.len(),
                    world == Some(n),
                    pkg == &m.packages[root_package as int],
                    all == pkg.worlds@,
                    i <= all.len(),
                    first_world_named(*m, all, n@) == first_world_named(
                        *m,
                        all.skip(i as int),
                        n@,
                    ),
                decreases all.len() - i,
            {
                let w = pkg.worlds[i];
                proof {
                    lemma_package_wf_unfold(*m, root_package as int);
                    assert(all.skip(i as int)[0] == all[i as int]);
                    assert(all.skip(i as int).drop_first() =~= all.skip(i + 1));
                }
                if m.worlds[w].name == *n {
                    proof {
                        assert(*pkg == m.packages[root_package as int]);
                        assert(all == m.packages[root_package as int].worlds@);
                        assert(w == all[i as int]);
                        assert(m.packages[root_package as int].worlds@[i as int] < m.worlds.len());
                        assert(w < m.worlds.len());
                        assert(first_world_named(*m, all.skip(i as int), n@) == Some(w));
                        assert(Some(w) == first_world_named(*m, all, n@));
                    }
                    return Ok(w);
                }
                i += 1;
            }
            proof {
                assert(all.skip(all.len() as int) =~= Seq::<usize>::empty());
            }
            Err(GenError::WorldNotFound)
        },
        None => {
            if pkg.worlds.len() == 1 {
                proof {
                    lemma_package_wf_unfold(*m, root_package as int);
                }
                Ok(pkg.worlds[0])
            } else {
                Err(GenError::NoUniqueWorld)
            }
        },
    }
}

/// Every world identifier of a package points into the world arena.
pub open spec fn package_wf_unfold(m: Model, p: int) -> bool {
    0 <= p < m.packages.len() ==> forall|i: int|
        0 <= i < m.packages[p].worlds@.len() ==> (#[trigger] m.packages[p].worlds@[i])
            < m.worlds.len()
}

/// `package_wf_unfold` follows from model well-formedness.
pub proof fn lemma_package_wf_unfold(m: Model, p: int)
    requires
        wf(m),
    ensures
        package_wf_unfold(m, p),
{
    if 0 <= p < m.packages.len() {
        assert(crate::model::package_wf(m, m.packages[p]));
    }
}

/// The generation context: the model, the selected world, and the
/// visited-type set of the conversion registry.
pub struct GeneratorContext {
    pub model: Model,
    pub root_package: usize,
    pub world: usize,
    pub world_name: String,
    pub visited: VisitedSet,
}

/// Well-formedness of the context: the model is well-formed, the selected
/// identifiers point into its arenas, the cached world name matches, and
/// the visited set ranges over the type arena.
pub open spec fn ctx_wf(c: GeneratorContext) -> bool {
    &&& wf(c.model)
    &&& c.root_package < c.model.packages.len()
    &&& c.world < c.model.worlds.len()
    &&& c.world_name@ == c.model.worlds[c.world as int].name@
    &&& c.visited.size() == c.model.types.len()
}

/// The selected world's export table binds `interface_id` somewhere.
pub open spec fn world_exports_interface(m: Model, w: int, interface_id: int) -> bool {
    exists|k: int|
        0 <= k < m.worlds[w].exports@.len() && ((#[trigger] m.worlds[w].exports@[k].1) matches
            WorldItem::Interface(id) && id == interface_id)
}

/// The selected world's export table binds `type_id` directly.
pub open spec fn world_exports_type(m: Model, w: int, type_id: int) -> bool {
    exists|k: int|
        0 <= k < m.worlds[w].exports@.len() && ((#[trigger] m.worlds[w].exports@[k].1) matches
            WorldItem::Type(id) && id == type_id)
}

/// A type counts as exported exactly when its owner chain reaches the
/// selected world's export table: a type owned by the selected world must
/// be bound in that table, a type owned by an interface is exported when
/// that interface is, and an unowned type never is. Exported-ness is a
/// pure function of the owner chain and the export table.
pub open spec fn is_exported_type_spec(m: Model, w: int, type_id: int) -> bool {
    if 0 <= type_id < m.types.len() {
        match m.types[type_id].owner {
            TypeOwner::World(wid) => wid == w && world_exports_type(m, w, type_id),
            TypeOwner::Interface(iid) => world_exports_interface(m, w, iid as int),
            TypeOwner::NoOwner => false,
        }
    } else {
        false
    }
}

impl GeneratorContext {
    /// Builds the context for a model, selecting the world by name or by
    /// the root package's unambiguous default.
    pub fn new(model: Model, root_package: usize, world: Option<&String>) -> (r: Result<
        GeneratorContext,
        GenError,
    >)
        requires
            wf(model),
            root_package < model.packages.len(),
        ensures
            (match r {
                Ok(c) => ctx_wf(c) && c.model == model && c.root_package == root_package && (
                match world {
                    Some(n) => Some(c.world) == first_world_named(
                        model,
                        model.packages[root_package as int].worlds@,
                        n@,
                    ),
                    None => model.packages[root_package as int].worlds@.len() == 1 && c.world
                        == model.packages[root_package as int].worlds@[0],
                }) && (forall|i: int| !c.visited.has(i)),
                Err(e) => (match world {
                    Some(n) => e == GenError::WorldNotFound && first_world_named(
                        model,
                        model.packages[root_package as int].worlds@,
                        n@,
                    ) is None,
                    None => e == GenError::NoUniqueWorld
                        && model.packages[root_package as int].worlds@.len() != 1,
                }),
            }),
    {
        let w = match select_world(&model, root_package, world) {
            Ok(w) => w,
            Err(e) => {
                return Err(e);
            },
        };
        let world_name = model.worlds[w].name.clone();
        let n = model.types.len();
        Ok(GeneratorContext {
            model,
            root_package,
            world: w,
            world_name,
            visited: VisitedSet::new(n),
        })
    }

    /// The name of the root package, rendered as `namespace:name[@version]`.
    pub fn root_package_name(&self) -> (r: String)
        requires
            ctx_wf(*self),
        ensures
            r@ == package_name_display(self.model.packages[self.root_package as int].name),
    {
        self.model.packages[self.root_package].name.display()
    }

    /// Records that a conversion implementation was emitted for a type.
    pub fn record_visited_type(&mut self, type_id: usize)
        requires
            ctx_wf(*old(self)),
            type_id < old(self).model.types.len(),
        ensures
            ctx_wf(*final(self)),
            final(self).model == old(self).model,
            final(self).world == old(self).world,
            final(self).root_package == old(self).root_package,
            final(self).visited.has(type_id as int),
            forall|j: int| j != type_id ==> final(self).visited.has(j) == old(self).visited.has(j),
    {
        self.visited.record(type_id);
    }

    /// Whether the selected world exports the given interface.
    pub fn is_exported_interface(&self, interface_id: usize) -> (r: bool)
        requires
            ctx_wf(*self),
        ensures
            r == world_exports_interface(self.model, self.world as int, interface_id as int),
    {
        let world = &self.model.worlds[self.world];
        let mut k: usize = 0;
        while k < world.exports.len()
            invariant
                world == &self.model.worlds[self.world as int],
                k <= world.exports@.len(),
                forall|j: int|
                    0 <= j < k ==> !((#[trigger] world.exports@[j].1) matches WorldItem::Interface(
                        id,
                    ) && id == interface_id),
            decreases world.exports@.len() - k,
        {
            match &world.exports[k].1 {
                WorldItem::Interface(id) => {
                    if *id == interface_id {
                        proof {
                            assert(self.model.worlds[self.world as int].exports@[k as int].1
                                matches WorldItem::Interface(id2) && id2 == interface_id);
                        }
                        return true;
                    }
                },
                WorldItem::Function(_) => {},
                WorldItem::Type(_) => {},
            }
            k += 1;
        }
        false
    }

    /// Whether the given type counts as exported from the selected world,
    /// through its owner chain.
    pub fn is_exported_type(&self, type_id: usize) -> (r: bool)
        requires
            ctx_wf(*self),
        ensures
            r == is_exported_type_spec(self.model, self.world as int, type_id as int),
    {
        if type_id >= self.model.types.len() {
            return false;
        }
        match &self.model.types[type_id].owner {
            TypeOwner::World(wid) => {
                if *wid != self.world {
                    return false;
                }
                let world = &self.model.worlds[self.world];
                let mut k: usize = 0;
                while k < world.exports.len()
                    invariant
                        ctx_wf(*self),
                        type_id < self.model.types.len(),
                        (self.model.types[type_id as int].owner matches TypeOwner::World(w0)
                            && w0 == self.world),
                        world == &self.model.worlds[self.world as int],
                        k <= world.exports@.len(),
                        forall|j: int|
                            0 <= j < k ==> !((#[trigger] world.exports@[j].1) matches
                                WorldItem::Type(id) && id == type_id),
                    decreases world.exports@.len() - k,
                {
                    match &world.exports[k].1 {
                        WorldItem::Type(id) => {
                            if *id == type_id {
                                proof {
                                    assert(self.model.worlds[self.world as int].exports@[k as int].1
                                        matches WorldItem::Type(id2) && id2 == type_id);
                                }
                                return true;
                            }
                        },
                        WorldItem::Function(_) => {},
                        WorldItem::Interface(_) => {},
                    }
                    k += 1;
                }
                false
            },
            TypeOwner::Interface(iid) => self.is_exported_interface(*iid),
            TypeOwner::NoOwner => false,
        }
    }

    /// Looks a type up by identifier; an identifier outside the arena is a
    /// model-consistency error.
    pub fn typ(&self, type_id: usize) -> (r: Result<&TypeDef, GenError>)
        ensures
            (match r {
                Ok(td) => type_id < self.model.types.len() && td == &self.model.types[type_id as int],
                Err(e) => e == (GenError::UnknownType(type_id)) && type_id
                    >= self.model.types.len(),
            }),
    {
        if type_id < self.model.types.len() {
            Ok(&self.model.types[type_id])
        } else {
            Err(GenError::UnknownType(type_id))
        }
    }

    /// The import-site view of an interface: its qualified names and
    /// functions, for generating one native module per imported interface.
    /// Fails on an interface without a name or without an owning package,
    /// since anonymous-interface imports are unsupported.
    pub fn get_imported_interface(&self, interface_id: usize) -> (r: Result<
        ImportedInterface<'_>,
        GenError,
    >)
        requires
            ctx_wf(*self),
            interface_id < self.model.interfaces.len(),
        ensures
            (match r {
                Ok(v) => {
                    let it = self.model.interfaces[interface_id as int];
                    &&& it.name is Some
                    &&& it.package is Some
                    &&& v.name@ == it.name->0@
                    &&& v.package_name is Some
                    &&& v.package_name->0 == self.model.packages[it.package->0 as int].name
                    &&& v.functions@ == it.functions@
                    &&& v.interface_id == (Some(interface_id))
                },
                Err(e) => {
                    let it = self.model.interfaces[interface_id as int];
                    ||| (e == (GenError::UnnamedInterface(interface_id)) && it.name is None)
                    ||| (e == (GenError::AnonymousInterfaceImport(interface_id)) && it.package
                        is None)
                },
            }),
    {
        let it = &self.model.interfaces[interface_id];
        let name = match &it.name {
            Some(n) => n.clone(),
            None => {
                return Err(GenError::UnnamedInterface(interface_id));
            },
        };
        let package_id = match &it.package {
            Some(p) => *p,
            None => {
                return Err(GenError::AnonymousInterfaceImport(interface_id));
            },
        };
        proof {
            assert(interface_wf(self.model, self.model.interfaces[interface_id as int]));
        }
        Ok(ImportedInterface {
            package_name: Some(&self.model.packages[package_id].name),
            name,
            functions: &it.functions,
            interface_id: Some(interface_id),
        })
    }
}

/// The import-site projection of an interface: what an import generator
/// needs to emit one native module. Created on demand per import site and
/// borrowing from the model; not persisted.
pub struct ImportedInterface<'a> {
    pub package_name: Option<&'a PackageName>,
    pub name: String,
    pub functions: &'a Vec<Function>,
    pub interface_id: Option<usize>,
}

impl<'a> ImportedInterface<'a> {
    /// The module name guest code imports from: the snake_case package
    /// name and the snake_case interface name, joined by an underscore.
    /// Collision-free because package and interface pairs are unique in
    /// the resolved model.
    pub fn module_name(&self) -> (r: Result<String, GenError>)
        ensures
            (match r {
                Ok(s) => self.package_name is Some && s@ == snake_of(
                    package_name_display(*self.package_name->0),
                ) + seq!['_'] + snake_of(self.name@),
                Err(e) => e == GenError::MissingPackageName && self.package_name is None,
            }),
    {
        let pn = match &self.package_name {
            Some(pn) => *pn,
            None => {
                return Err(GenError::MissingPackageName);
            },
        };
        let mut out = to_snake(pn.display().as_str());
        out.append("_");
        proof {
            reveal_strlit("_");
            assert("_"@ =~= seq!['_']);
        }
        let tail = to_snake(self.name.as_str());
        out.append(tail.as_str());
        Ok(out)
    }

    /// The name of the generated native-module trait for this interface:
    /// `Js` plus the UpperCamelCase interface name plus `Module`.
    pub fn rust_interface_name(&self) -> (r: String)
        ensures
            r@ == "Js"@ + upper_camel_of(self.name@) + "Module"@,
    {
        let mut out = String::from_str("Js");
        let camel = to_upper_camel(self.name.as_str());
        out.append(camel.as_str());
        out.append("Module");
        out
    }

    /// The interface's name together with its identifier, when it has one.
    pub fn name_and_interface(&self) -> (r: Option<(&String, usize)>)
        ensures
            (match r {
                Some(p) => self.interface_id == (Some(p.1)) && p.0@ == self.name@,
                None => self.interface_id is None,
            }),
    {
        match &self.interface_id {
            Some(id) => Some((&self.name, *id)),
            None => None,
        }
    }

    /// The fully qualified interface name: qualified by the owning package
    /// when there is one, bare otherwise.
    pub fn fully_qualified_interface_name(&self) -> (r: String)
        ensures
            (match self.package_name {
                Some(pn) => r@ == interface_id_display(*pn, self.name@),
                None => r@ == self.name@,
            }),
    {
        match &self.package_name {
            Some(pn) => pn.interface_id(self.name.as_str()),
            None => self.name.clone(),
        }
    }

    /// The stack of interface identifiers to resolve types against:
    /// this interface alone, when it has an identifier.
    pub fn interface_stack(&self) -> (r: Vec<usize>)
        ensures
            (match self.interface_id {
                Some(id) => r@ =~= seq![id],
                None => r@ =~= Seq::<usize>::empty(),
            }),
    {
        let mut r: Vec<usize> = Vec::new();
        match &self.interface_id {
            Some(id) => {
                r.push(*id);
            },
            None => {},
        }
        r
    }
}

} // verus!
