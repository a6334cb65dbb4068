//! Export and import plans: for each entry of the selected world's export
//! and import tables, exactly one trampoline or native module, with the
//! types of every planned signature registered for conversion first.

use vstd::prelude::*;
use crate::context::{ctx_wf, GeneratorContext};
use crate::errors::GenError;
use crate::model::{
    function_wf, interface_wf, item_table_wf, wf, world_item_wf, world_wf, Function, Model,
    TypeRef, WorldItem,
};
use crate::names::{package_name_display, snake_of};
use crate::registry::{lemma_reg_step_trans, reg_step, register_type, VisitedSet};

verus! {

/// What one export-table entry turns into.
#[derive(Debug, Clone)]
pub enum ExportKind {
    /// A bare function export: one host-callable trampoline.
    Function,
    /// An interface export: one trampoline group for the interface.
    Interface(usize),
    /// A type export: its conversions, and handle plumbing for a resource.
    Type(usize),
}

/// One planned export trampoline.
#[derive(Debug, Clone)]
pub struct ExportPlanEntry {
    pub export_name: String,
    pub kind: ExportKind,
}

/// The planned entry corresponds to the world-table item of the same index.
pub open spec fn export_entry_matches(entry: ExportPlanEntry, item: WorldItem) -> bool {
    match item {
        WorldItem::Function(_) => entry.kind is Function,
        WorldItem::Interface(id) => entry.kind matches ExportKind::Interface(i) && i == id,
        WorldItem::Type(id) => entry.kind matches ExportKind::Type(i) && i == id,
    }
}

/// Plans the export trampolines of the selected world: exactly one entry
/// per export-table binding, in table order, under the table's name; no
/// entry is duplicated (the names are pairwise distinct) and none is
/// missing (the plan has the table's length).
pub fn export_plan(c: &GeneratorContext) -> (r: Vec<ExportPlanEntry>)
    requires
        ctx_wf(*c),
    ensures
        r@.len() == c.model.worlds[c.world as int].exports@.len(),
        forall|k: int|
            0 <= k < r@.len() ==> (#[trigger] r@[k]).export_name@
                == c.model.worlds[c.world as int].exports@[k].0@ && export_entry_matches(
                r@[k],
                c.model.worlds[c.world as int].exports@[k].1,
            ),
        forall|k1: int, k2: int|
            0 <= k1 < k2 < r@.len() ==> r@[k1].export_name@ != r@[k2].export_name@,
{
    let world = &c.model.worlds[c.world];
    let mut r: Vec<ExportPlanEntry> = Vec::new();
    let mut k: usize = 0;
    proof {
        assert(world_wf(c.model, c.model.worlds@[c.world as int]));
    }
    while k < world.exports.len()
        invariant
            ctx_wf(*c),
            world == &c.model.worlds[c.world as int],
            k <= world.exports@.len(),
            r@.len() == k,
            forall|j: int|
                0 <= j < k ==> (#[trigger] r@[j]).export_name@ == world.exports@[j].0@
                    && export_entry_matches(r@[j], world.exports@[j].1),
        decreases world.exports@.len() - k,
    {
        let (name, item) = &world.exports[k];
        let kind = match item {
            WorldItem::Function(_) => ExportKind::Function,
            WorldItem::Interface(id) => ExportKind::Interface(*id),
            WorldItem::Type(id) => ExportKind::Type(*id),
        };
        r.push(ExportPlanEntry { export_name: name.clone(), kind });
        k += 1;
    }
    proof {
        assert(world_wf(c.model, c.model.worlds@[c.world as int]));
        assert(item_table_wf(c.model, c.model.worlds@[c.world as int].exports@));
        assert forall|k1: int, k2: int|
            0 <= k1 < k2 < r@.len() implies r@[k1].export_name@ != r@[k2].export_name@ by {
            let names = c.model.worlds@[c.world as int].exports@.map_values(
                |e: (String, WorldItem)| e.0@,
            );
            assert(names[k1] == c.model.worlds@[c.world as int].exports@[k1].0@);
            assert(names[k2] == c.model.worlds@[c.world as int].exports@[k2].0@);
        }
    }
    r
}

/// What one import-table entry turns into.
#[derive(Debug, Clone)]
pub enum ImportBinding {
    /// A bare imported function: one guest-callable entry.
    Function,
    /// An imported interface: one native module under a qualified name.
    Interface { id: usize, module: String },
    /// An imported type: conversions only, no module.
    Type(usize),
}

/// One planned import module or entry.
#[derive(Debug, Clone)]
pub struct ImportPlanEntry {
    pub import_name: String,
    pub binding: ImportBinding,
}

/// The qualified module name an imported interface is grouped under.
pub open spec fn import_module_name(m: Model, id: int) -> Seq<char> {
    snake_of(package_name_display(m.packages[m.interfaces[id].package->0 as int].name))
        + seq!['_'] + snake_of(m.interfaces[id].name->0@)
}

/// The planned entry corresponds to the import-table item of the same index.
pub open spec fn import_entry_matches(m: Model, entry: ImportPlanEntry, item: WorldItem) -> bool {
    match item {
        WorldItem::Function(_) => entry.binding is Function,
        WorldItem::Interface(id) => entry.binding matches ImportBinding::Interface {
            id: i,
            module,
        } && i == id && m.interfaces[id as int].name is Some && m.interfaces[id as int].package
            is Some && module@ == import_module_name(m, id as int),
        WorldItem::Type(id) => entry.binding matches ImportBinding::Type(i) && i == id,
    }
}

/// Plans the import modules of the selected world: exactly one entry per
/// import-table binding, in table order; an interface import is grouped
/// under its qualified module name. An anonymous-interface import (one
/// without a name or without an owning package) fails the whole plan
/// rather than being silently omitted.
pub fn import_plan(c: &GeneratorContext) -> (r: Result<Vec<ImportPlanEntry>, GenError>)
    requires
        ctx_wf(*c),
    ensures
        (match r {
            Ok(plan) => {
                &&& plan@.len() == c.model.worlds[c.world as int].imports@.len()
                &&& forall|k: int|
                    0 <= k < plan@.len() ==> (#[trigger] plan@[k]).import_name@
                        == c.model.worlds[c.world as int].imports@[k].0@ && import_entry_matches(
                        c.model,
                        plan@[k],
                        c.model.worlds[c.world as int].imports@[k].1,
                    )
            },
            Err(e) => exists|k: int|
                0 <= k < c.model.worlds[c.world as int].imports@.len()
                    && ((#[trigger] c.model.worlds[c.world as int].imports@[k].1) matches
                WorldItem::Interface(id) && (
                    (e == (GenError::UnnamedInterface(id)) && c.model.interfaces[id as int].name
                        is None) || (e == (GenError::AnonymousInterfaceImport(id))
                        && c.model.interfaces[id as int].package is None))),
        }),
{
    let world = &c.model.worlds[c.world];
    let mut plan: Vec<ImportPlanEntry> = Vec::new();
    let mut k: usize = 0;
    proof {
        assert(world_wf(c.model, c.model.worlds@[c.world as int]));
    }
    while k < world.imports.len()
        invariant
            ctx_wf(*c),
            world == &c.model.worlds[c.world as int],
            k <= world.imports@.len(),
            plan@.len() == k,
            forall|j: int|
                0 <= j < k ==> (#[trigger] plan@[j]).import_name@ == world.imports@[j].0@
                    && import_entry_matches(c.model, plan@[j], world.imports@[j].1),
        decreases world.imports@.len() - k,
    {
        let (name, item) = &world.imports[k];
        proof {
            assert(item_table_wf(c.model, c.model.worlds@[c.world as int].imports@));
            assert(world_item_wf(c.model, c.model.worlds@[c.world as int].imports@[k as int].1));
        }
        let binding = match item {
            WorldItem::Function(_) => ImportBinding::Function,
            WorldItem::Interface(id) => {
                let view = match c.get_imported_interface(*id) {
                    Ok(v) => v,
                    Err(e) => {
                        proof {
                            assert(c.model.worlds[c.world as int].imports@[k as int].1 matches
                                WorldItem::Interface(id2) && id2 == id);
                        }
                        return Err(e);
                    },
                };
                let module = match view.module_name() {
                    Ok(s) => s,
                    Err(_) => {
                        proof {
                            assert(false);
                        }
                        return Err(GenError::MissingPackageName);
                    },
                };
                ImportBinding::Interface { id: *id, module }
            },
            WorldItem::Type(id) => ImportBinding::Type(*id),
        };
        plan.push(ImportPlanEntry { import_name: name.clone(), binding });
        k += 1;
    }
    Ok(plan)
}

/// A function signature mentions arena type `i`: some parameter or the
/// result refers to it.
pub open spec fn fn_mentions(f: Function, i: int) -> bool {
    (exists|p: int|
        0 <= p < f.params@.len() && ((#[trigger] f.params@[p]).ty matches TypeRef::Id(u) && u
            == i)) || (f.result matches Some(t) && t matches TypeRef::Id(u) && u == i)
}

/// A world-table item mentions arena type `i`: a bare function through
/// its signature, an interface through any of its functions' signatures,
/// and a type binding directly.
pub open spec fn item_mentions(m: Model, item: WorldItem, i: int) -> bool {
    match item {
        WorldItem::Function(f) => fn_mentions(f, i),
        WorldItem::Interface(id) => exists|q: int|
            0 <= q < m.interfaces[id as int].functions@.len() && fn_mentions(
                #[trigger] m.interfaces[id as int].functions@[q],
                i,
            ),
        WorldItem::Type(t) => t == i,
    }
}

/// Some entry of the table mentions arena type `i`.
pub open spec fn table_mentions(m: Model, table: Seq<(String, WorldItem)>, i: int) -> bool {
    exists|k: int| 0 <= k < table.len() && item_mentions(m, (#[trigger] table[k]).1, i)
}

/// The selected world's export or import table mentions arena type `i`.
pub open spec fn world_mentions(m: Model, w: int, i: int) -> bool {
    table_mentions(m, m.worlds[w].exports@, i) || table_mentions(m, m.worlds[w].imports@, i)
}

/// Registers every type referenced by a function signature: each
/// parameter's type, then the result type.
pub fn register_function_types(
    m: &Model,
    f: &Function,
    visited: &mut VisitedSet,
    out: &mut Vec<usize>,
)
    requires
        wf(*m),
        function_wf(*m, *f),
        old(visited).size() == m.types.len(),
    ensures
        reg_step(*m, *old(visited), *final(visited), old(out)@, final(out)@),
        forall|q: int| fn_mentions(*f, q) ==> final(visited).has(q),
{
    let mut i: usize = 0;
    while i < f.params.len()
        invariant
            wf(*m),
            function_wf(*m, *f),
            old(visited).size() == m.types.len(),
            i <= f.params@.len(),
            reg_step(*m, *old(visited), *visited, old(out)@, out@),
            forall|p: int|
                0 <= p < i ==> ((#[trigger] f.params@[p]).ty matches TypeRef::Id(u)
                    ==> visited.has(u as int)),
        decreases f.params@.len() - i,
    {
        let ghost pre = *visited;
        let ghost pre_out = out@;
        register_type(m, visited, f.params[i].ty, out);
        proof {
            lemma_reg_step_trans(*m, *old(visited), pre, *visited, old(out)@, pre_out, out@);
        }
        i += 1;
    }
    let ghost pre = *visited;
    let ghost pre_out = out@;
    match &f.result {
        Some(t) => {
            register_type(m, visited, *t, out);
            proof {
                lemma_reg_step_trans(*m, *old(visited), pre, *visited, old(out)@, pre_out, out@);
            }
        },
        None => {},
    }
    proof {
        assert forall|q: int| fn_mentions(*f, q) implies visited.has(q) by {
            if exists|p: int|
                0 <= p < f.params@.len() && ((#[trigger] f.params@[p]).ty matches TypeRef::Id(u)
                    && u == q) {
                let p = choose|p: int|
                    0 <= p < f.params@.len() && ((#[trigger] f.params@[p]).ty matches TypeRef::Id(
                        u,
                    ) && u == q);
                assert(pre.has(q));
            }
        }
    }
}

/// Registers every type referenced from the selected world's export and
/// import tables: the signature types of bare functions, the signature
/// types of every function of a bound interface, and directly bound
/// types. This establishes "register conversions before referencing them"
/// by construction, and visits each distinct type exactly once.
pub fn register_world_types(c: &mut GeneratorContext, out: &mut Vec<usize>)
    requires
        ctx_wf(*old(c)),
    ensures
        ctx_wf(*final(c)),
        final(c).model == old(c).model,
        final(c).world == old(c).world,
        final(c).root_package == old(c).root_package,
        reg_step(old(c).model, old(c).visited, final(c).visited, old(out)@, final(out)@),
        forall|q: int|
            world_mentions(old(c).model, old(c).world as int, q) ==> final(c).visited.has(q),
{
    let ghost m0 = c.model;
    let mut table: usize = 0;
    while table < 2
        invariant
            ctx_wf(*c),
            table <= 2,
            c.model == old(c).model,
            c.world == old(c).world,
            c.root_package == old(c).root_package,
            c.world_name == old(c).world_name,
            reg_step(c.model, old(c).visited, c.visited, old(out)@, out@),
            forall|q: int|
                table >= 1 && table_mentions(
                    c.model,
                    c.model.worlds[c.world as int].exports@,
                    q,
                ) ==> c.visited.has(q),
            forall|q: int|
                table >= 2 && table_mentions(
                    c.model,
                    c.model.worlds[c.world as int].imports@,
                    q,
                ) ==> c.visited.has(q),
        decreases 2 - table,
    {
        let items = if table == 0 {
            &c.model.worlds[c.world].exports
        } else {
            &c.model.worlds[c.world].imports
        };
        proof {
            assert(world_wf(c.model, c.model.worlds@[c.world as int]));
        }
        let mut k: usize = 0;
        while k < items.len()
            invariant
                ctx_wf(*c),
                c.model == old(c).model,
                c.world == old(c).world,
                c.root_package == old(c).root_package,
                c.world_name == old(c).world_name,
                k <= items@.len(),
                table < 2,
                table == 0 ==> items == &c.model.worlds[c.world as int].exports,
                table == 1 ==> items == &c.model.worlds[c.world as int].imports,
                item_table_wf(c.model, items@),
                reg_step(c.model, old(c).visited, c.visited, old(out)@, out@),
                forall|q: int|
                    table >= 1 && table_mentions(
                        c.model,
                        c.model.worlds[c.world as int].exports@,
                        q,
                    ) ==> c.visited.has(q),
                forall|j: int, q: int|
                    0 <= j < k && #[trigger] item_mentions(c.model, items@[j].1, q)
                        ==> c.visited.has(q),
            decreases items@.len() - k,
        {
            let ghost pre = c.visited;
            let ghost pre_out = out@;
            proof {
                assert(world_item_wf(c.model, items@[k as int].1));
            }
            match &items[k].1 {
                WorldItem::Function(f) => {
                    register_function_types(&c.model, f, &mut c.visited, out);
                },
                WorldItem::Interface(id) => {
                    let funcs = &c.model.interfaces[*id].functions;
                    proof {
                        assert(interface_wf(c.model, c.model.interfaces@[*id as int]));
                    }
                    let mut fi: usize = 0;
                    while fi < funcs.len()
                        invariant
                            ctx_wf(*c),
                            c.model == old(c).model,
                            c.world == old(c).world,
                            c.root_package == old(c).root_package,
                            c.world_name == old(c).world_name,
                            item_table_wf(c.model, items@),
                            funcs == &c.model.interfaces[*id as int].functions,
                            *id < c.model.interfaces.len(),
                            fi <= funcs@.len(),
                            forall|q: int|
                                0 <= q < funcs@.len() ==> function_wf(
                                    c.model,
                                    #[trigger] funcs@[q],
                                ),
                            reg_step(c.model, pre, c.visited, pre_out, out@),
                            forall|q: int|
                                table >= 1 && table_mentions(
                                    c.model,
                                    c.model.worlds[c.world as int].exports@,
                                    q,
                                ) ==> c.visited.has(q),
                            forall|j: int, q: int|
                                0 <= j < k && #[trigger] item_mentions(c.model, items@[j].1, q)
                                    ==> c.visited.has(q),
                            forall|ql: int, q: int|
                                0 <= ql < fi && #[trigger] fn_mentions(funcs@[ql], q)
                                    ==> c.visited.has(q),
                        decreases funcs@.len() - fi,
                    {
                        let ghost pre2 = c.visited;
                        let ghost pre_out2 = out@;
                        register_function_types(&c.model, &funcs[fi], &mut c.visited, out);
                        proof {
                            lemma_reg_step_trans(
                                c.model,
                                pre,
                                pre2,
                                c.visited,
                                pre_out,
                                pre_out2,
                                out@,
                            );
                        }
                        fi += 1;
                    }
                    proof {
                        assert forall|q: int|
                            item_mentions(c.model, items@[k as int].1, q) implies c.visited.has(
                            q,
                        ) by {
                            let ql = choose|ql: int|
                                0 <= ql < c.model.interfaces[*id as int].functions@.len()
                                    && fn_mentions(
                                    #[trigger] c.model.interfaces[*id as int].functions@[ql],
                                    q,
                                );
                            assert(fn_mentions(funcs@[ql], q));
                        }
                    }
                },
                WorldItem::Type(id) => {
                    register_type(&c.model, &mut c.visited, TypeRef::Id(*id), out);
                },
            }
            proof {
                lemma_reg_step_trans(
                    c.model,
                    old(c).visited,
                    pre,
                    c.visited,
                    old(out)@,
                    pre_out,
                    out@,
                );
            }
            k += 1;
        }
        proof {
            assert forall|q: int|
                table_mentions(c.model, items@, q) implies c.visited.has(q) by {
                let kw = choose|kw: int|
                    0 <= kw < items@.len() && item_mentions(c.model, (#[trigger] items@[kw]).1, q);
                assert(item_mentions(c.model, items@[kw].1, q));
            }
        }
        table += 1;
    }
}

} // verus!
