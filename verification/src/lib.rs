//! A generator core for wrapping JavaScript modules as WebAssembly components.
//!
//! The crate models a resolved WIT package graph (packages, interfaces,
//! worlds, types and functions) as plain data, and verifies the decisions a
//! binding generator makes over that graph: which types get conversion code,
//! which exports and imports get trampolines, how modules and interfaces are
//! named, and what the generated package manifest must contain.

use vstd::prelude::*;

pub mod model;
pub mod errors;
pub mod registry;
pub mod names;
pub mod context;
pub mod plans;
pub mod manifest;
pub mod values;
pub mod convert;
pub mod witgen;
pub mod handles;
pub mod typescript;

use crate::errors::GenError;
use crate::names::push_char_from;

verus! {

/// How a JavaScript module is embedded into the generated crate.
#[derive(Debug, Clone)]
pub enum EmbeddingMode {
    /// The module source at this path is copied into the generated crate.
    EmbedFile(String),
    /// The module source is fetched at run time through an imported WIT
    /// interface added to the world.
    Composition,
}

/// One JavaScript module to be evaluated in the generated component.
///
/// The first module of a generation run is the one implementing the
/// world's exports; any further modules are side-loaded at initialization.
#[derive(Debug, Clone)]
pub struct JsModuleSpec {
    pub name: String,
    pub mode: EmbeddingMode,
}

/// `s` with every `/` replaced by `_`.
pub open spec fn replace_slash(s: Seq<char>) -> Seq<char> {
    s.map_values(|c: char| if c == '/' { '_' } else { c })
}

impl JsModuleSpec {
    /// The file name the module is stored under in the generated crate:
    /// the module name with `/` flattened to `_`, plus a `.js` suffix.
    pub fn file_name(&self) -> (r: String)
        ensures
            r@ == replace_slash(self.name@) + seq!['.', 'j', 's'],
    {
        let s = self.name.as_str();
        let n = s.unicode_len();
        let mut out = String::new();
        let mut i: usize = 0;
        while i < n
            invariant
                i <= n,
                n == s@.len(),
                out@ =~= replace_slash(s@).subrange(0, i as int),
            decreases n - i,
        {
            let c = s.get_char(i);
            if c == '/' {
                out.append("_");
                proof {
                    reveal_strlit("_");
                    assert("_"@ =~= seq!['_']);
                }
            } else {
                push_char_from(&mut out, s, i);
            }
            proof {
                assert(out@ =~= replace_slash(s@).subrange(0, i + 1 as int));
            }
            i += 1;
        }
        out.append(".js");
        proof {
            reveal_strlit(".js");
            assert(".js"@ =~= seq!['.', 'j', 's']);
            assert(replace_slash(s@).subrange(0, n as int) =~= replace_slash(self.name@));
        }
        out
    }
}

/// Whether any module of the list uses the composition embedding mode.
pub open spec fn spec_uses_composition(mods: Seq<JsModuleSpec>) -> bool {
    exists|i: int| 0 <= i < mods.len() && (#[trigger] mods[i].mode) is Composition
}

/// Checks if any of the provided JS modules uses composition mode.
pub fn uses_composition(js_modules: &Vec<JsModuleSpec>) -> (r: bool)
    ensures
        r == spec_uses_composition(js_modules@),
{
    let mut i: usize = 0;
    while i < js_modules.len()
        invariant
            i <= js_modules@.len(),
            forall|k: int| 0 <= k < i ==> !((#[trigger] js_modules@[k].mode) is Composition),
        decreases js_modules@.len() - i,
    {
        match &js_modules[i].mode {
            EmbeddingMode::Composition => {
                return true;
            },
            EmbeddingMode::EmbedFile(_) => {},
        }
        i += 1;
    }
    false
}

/// The copy plan for a list of module specs: for each module embedded from
/// a file, in order, the pair of its source path and its destination file
/// name. Modules in composition mode contribute nothing: no JavaScript
/// file is copied for them.
pub open spec fn spec_js_copy_plan(mods: Seq<JsModuleSpec>) -> Seq<(Seq<char>, Seq<char>)>
    decreases mods.len(),
{
    if mods.len() == 0 {
        Seq::empty()
    } else {
        let head = (match mods[0].mode {
            EmbeddingMode::EmbedFile(p) => seq![
                (p@, replace_slash(mods[0].name@) + seq!['.', 'j', 's']),
            ],
            EmbeddingMode::Composition => Seq::<(Seq<char>, Seq<char>)>::empty(),
        });
        head + spec_js_copy_plan(mods.drop_first())
    }
}

/// Computes which JavaScript module files must be copied into the
/// generated crate, and under what file name.
pub fn js_copy_plan(js_modules: &Vec<JsModuleSpec>) -> (r: Vec<(String, String)>)
    ensures
        r@.map_values(|pr: (String, String)| (pr.0@, pr.1@)) == spec_js_copy_plan(js_modules@),
{
    let mut r: Vec<(String, String)> = Vec::new();
    let mut i: usize = 0;
    proof {
        assert(js_modules@.skip(0) =~= js_modules@);
    }
    while i < js_modules.len()
        invariant
            i <= js_modules@.len(),
            r@.map_values(|pr: (String, String)| (pr.0@, pr.1@)) + spec_js_copy_plan(
                js_modules@.skip(i as int),
            ) =~= spec_js_copy_plan(js_modules@),
        decreases js_modules@.len() - i,
    {
        let m = &js_modules[i];
        match &m.mode {
            EmbeddingMode::EmbedFile(p) => {
                let dest = m.file_name();
                r.push((p.clone(), dest));
            },
            EmbeddingMode::Composition => {},
        }
        proof {
            assert(js_modules@.skip(i as int).drop_first() =~= js_modules@.skip(i + 1));
            assert(js_modules@.skip(i as int)[0] == js_modules@[i as int]);
            assert(r@.map_values(|pr: (String, String)| (pr.0@, pr.1@)) + spec_js_copy_plan(
                js_modules@.skip(i + 1),
            ) =~= spec_js_copy_plan(js_modules@));
        }
        i += 1;
    }
    proof {
        assert(js_modules@.skip(js_modules@.len() as int) =~= Seq::<JsModuleSpec>::empty());
    }
    r
}

/// Splits a textual module spec `name=from` into its name and embedding
/// mode: `@composition` selects composition mode, anything else is the
/// path of a module file to embed. A string without `=` is rejected.
pub fn parse_js_module_spec(s: &str) -> (r: Result<JsModuleSpec, GenError>)
    ensures
        (match r {
            Ok(arg) => !arg.name@.contains('=') && (match arg.mode {
                EmbeddingMode::Composition => s@ == arg.name@ + seq!['='] + "@composition"@,
                EmbeddingMode::EmbedFile(p) => s@ == arg.name@ + seq!['='] + p@ && p@
                    != "@composition"@,
            }),
            Err(e) => e == GenError::InvalidModuleSpec && !s@.contains('='),
        }),
{
    let n = s.unicode_len();
    let mut i: usize = 0;
    while i < n
        invariant
            i <= n,
            n == s@.len(),
            forall|k: int| 0 <= k < i ==> s@[k] != '=',
        decreases n - i,
    {
        if s.get_char(i) == '=' {
            let name = s.substring_char(0, i);
            let rest = s.substring_char(i + 1, n);
            proof {
                assert(s@ =~= name@ + seq!['='] + rest@);
                assert(forall|k: int| 0 <= k < name@.len() ==> name@[k] == s@[k]);
                assert(!name@.contains('='));
            }
            let rest_string = String::from_str(rest);
            let comp = String::from_str("@composition");
            if rest_string == comp {
                return Ok(JsModuleSpec {
                    name: String::from_str(name),
                    mode: EmbeddingMode::Composition,
                });
            } else {
                return Ok(JsModuleSpec {
                    name: String::from_str(name),
                    mode: EmbeddingMode::EmbedFile(rest_string),
                });
            }
        }
        i += 1;
    }
    proof {
        assert(!s@.contains('='));
    }
    Err(GenError::InvalidModuleSpec)
}

} // verus!
