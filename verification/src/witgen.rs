//! Rewriting the WIT world for composition mode: adding the synthetic
//! import through which the script source is fetched at run time.

use vstd::prelude::*;
use crate::errors::GenError;
use crate::model::{
    distinct_names, item_table_wf, world_wf, Function, FunctionKind, Model, PrimKind, TypeRef,
    World, WorldItem,
};

verus! {

/// The name of the synthetic import added for composition mode.
pub open spec fn get_script_name() -> Seq<char> {
    seq!['g', 'e', 't', '-', 's', 'c', 'r', 'i', 'p', 't']
}

/// Whether a world already binds an import under the synthetic name.
pub open spec fn has_get_script_import(w: World) -> bool {
    exists|k: int|
        0 <= k < w.imports@.len() && (#[trigger] w.imports@[k].0@) == get_script_name()
}

/// Adds the synthetic `get-script` import to a world: a parameterless
/// imported function returning the script source as a string. The export
/// table and every existing import stay untouched; the rewrite fails only
/// if the world already binds that import name, so the import table's
/// names stay distinct.
pub fn add_get_script_import(w: World) -> (r: Result<World, GenError>)
    ensures
        (match r {
            Ok(w2) => {
                &&& !has_get_script_import(w)
                &&& w2.name@ == w.name@
                &&& w2.exports@ == w.exports@
                &&& w2.imports@.len() == w.imports@.len() + 1
                &&& forall|k: int| 0 <= k < w.imports@.len() ==> w2.imports@[k] == w.imports@[k]
                &&& w2.imports@.last().0@ == get_script_name()
                &&& (w2.imports@.last().1 matches WorldItem::Function(f) && f.name@
                    == get_script_name() && f.params@.len() == 0 && f.result == (Some(
                    TypeRef::Prim(PrimKind::Str),
                )))
            },
            Err(e) => e == GenError::ImportNameTaken,
        }),
        r is Err <==> has_get_script_import(w),
{
    let name = mk_get_script_name();
    let mut k: usize = 0;
    while k < w.imports.len()
        invariant
            name@ == get_script_name(),
            k <= w.imports@.len(),
            forall|q: int| 0 <= q < k ==> (#[trigger] w.imports@[q].0@) != get_script_name(),
        decreases w.imports@.len() - k,
    {
        if w.imports[k].0 == name {
            return Err(GenError::ImportNameTaken);
        }
        k += 1;
    }
    let f = Function {
        name: name.clone(),
        kind: FunctionKind::Freestanding,
        params: Vec::new(),
        result: Some(TypeRef::Prim(PrimKind::Str)),
    };
    let mut w2 = w;
    w2.imports.push((name, WorldItem::Function(f)));
    Ok(w2)
}

/// Builds the synthetic import's name.
fn mk_get_script_name() -> (r: String)
    ensures
        r@ == get_script_name(),
{
    let s = String::from_str("get-script");
    proof {
        reveal_strlit("get-script");
        assert("get-script"@ =~= get_script_name());
    }
    s
}

/// Adding the synthetic import keeps a well-formed world well-formed: the
/// new import's name differs from every existing one and the new item is
/// a well-formed function, so the import table stays a valid table.
pub proof fn lemma_get_script_preserves_wf(m: Model, w: World, w2: World)
    requires
        world_wf(m, w),
        !has_get_script_import(w),
        w2.exports@ == w.exports@,
        w2.imports@.len() == w.imports@.len() + 1,
        forall|k: int| 0 <= k < w.imports@.len() ==> w2.imports@[k] == w.imports@[k],
        w2.imports@.last().0@ == get_script_name(),
        (w2.imports@.last().1 matches WorldItem::Function(f) && f.params@.len() == 0 && f.result
            == (Some(TypeRef::Prim(PrimKind::Str)))),
    ensures
        world_wf(m, w2),
{
    let t2 = w2.imports@.map_values(|e: (String, WorldItem)| e.0@);
    let t1 = w.imports@.map_values(|e: (String, WorldItem)| e.0@);
    assert(item_table_wf(m, w.imports@));
    assert forall|i: int|
        0 <= i < w2.imports@.len() implies crate::model::world_item_wf(
        m,
        (#[trigger] w2.imports@[i]).1,
    ) by {
        if i < w.imports@.len() {
            assert(crate::model::world_item_wf(m, w.imports@[i].1));
        }
    }
    assert forall|i: int, j: int| 0 <= i < j < t2.len() implies t2[i] != t2[j] by {
        assert(t2[i] == w2.imports@[i].0@);
        assert(t2[j] == w2.imports@[j].0@);
        if j < w.imports@.len() {
            assert(t1[i] == w.imports@[i].0@ && t1[j] == w.imports@[j].0@);
            assert(t1[i] != t1[j]);
        } else {
            assert(w2.imports@[j].0@ == get_script_name());
            assert(w2.imports@[i].0@ != get_script_name());
        }
    }
    assert(distinct_names(t2));
}

} // verus!
