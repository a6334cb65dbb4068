//! Naming: case conversion, package-name rendering and placeholder
//! substitution for the generated package's manifests and modules.

use vstd::prelude::*;
use crate::model::PackageName;

verus! {

/// The snake_case form of a string, as the case-conversion library
/// computes it from the characters alone.
pub uninterp spec fn snake_of(s: Seq<char>) -> Seq<char>;

/// The UpperCamelCase form of a string, as the case-conversion library
/// computes it from the characters alone.
pub uninterp spec fn upper_camel_of(s: Seq<char>) -> Seq<char>;

/// Relies on heck::ToSnakeCase::to_snake_case: the result depends on the
/// input characters alone; an empty input segments into no words, so the
/// output is empty too.
#[verifier::external_body]
pub fn to_snake(s: &str) -> (r: String)
    ensures
        r@ == snake_of(s@),
        s@.len() == 0 ==> r@.len() == 0,
{
    heck::ToSnakeCase::to_snake_case(s)
}

/// Relies on heck::ToUpperCamelCase::to_upper_camel_case: the result
/// depends on the input characters alone.
#[verifier::external_body]
pub fn to_upper_camel(s: &str) -> (r: String)
    ensures
        r@ == upper_camel_of(s@),
{
    heck::ToUpperCamelCase::to_upper_camel_case(s)
}

/// The lowerCamelCase form of a string, as the case-conversion library
/// computes it from the characters alone.
pub uninterp spec fn lower_camel_of(s: Seq<char>) -> Seq<char>;

/// Relies on heck::ToLowerCamelCase::to_lower_camel_case: the result
/// depends on the input characters alone.
#[verifier::external_body]
pub fn to_lower_camel(s: &str) -> (r: String)
    ensures
        r@ == lower_camel_of(s@),
{
    heck::ToLowerCamelCase::to_lower_camel_case(s)
}

/// Appends character `i` of `s` to `out`.
pub fn push_char_from(out: &mut String, s: &str, i: usize)
    requires
        i < s@.len(),
        s@.len() <= usize::MAX as int,
    ensures
        final(out)@ == old(out)@ + seq![s@[i as int]],
{
    let piece = s.substring_char(i, i + 1);
    proof {
        assert(piece@ =~= seq![s@[i as int]]);
    }
    out.append(piece);
}

/// Whether `pat` is a prefix of `s`.
pub fn has_prefix(s: &str, pat: &str) -> (r: bool)
    ensures
        r == (pat@.len() <= s@.len() && s@.subrange(0, pat@.len() as int) =~= pat@),
{
    let sl = s.unicode_len();
    let pl = pat.unicode_len();
    if pl > sl {
        return false;
    }
    let mut i: usize = 0;
    while i < pl
        invariant
            0 <= i <= pl,
            pl == pat@.len(),
            sl == s@.len(),
            pl <= sl,
            forall|k: int| 0 <= k < i ==> s@[k] == pat@[k],
        decreases pl - i,
    {
        if s.get_char(i) != pat.get_char(i) {
            proof {
                assert(s@[i as int] != pat@[i as int]);
                assert(!(s@.subrange(0, pat@.len() as int) =~= pat@)) by {
                    assert(s@.subrange(0, pat@.len() as int)[i as int] == s@[i as int]);
                }
            }
            return false;
        }
        i += 1;
    }
    proof {
        assert(s@.subrange(0, pat@.len() as int) =~= pat@);
    }
    true
}

/// `s` with every occurrence of `pat` replaced by `rep`, scanning left to
/// right and never rescanning replaced text.
pub open spec fn replace_all(s: Seq<char>, pat: Seq<char>, rep: Seq<char>) -> Seq<char>
    decreases s.len(),
    when pat.len() > 0
{
    if s.len() < pat.len() {
        s
    } else if s.subrange(0, pat.len() as int) == pat {
        rep + replace_all(s.subrange(pat.len() as int, s.len() as int), pat, rep)
    } else {
        seq![s[0]] + replace_all(s.subrange(1, s.len() as int), pat, rep)
    }
}

/// Replaces every occurrence of `pat` in `s` by `rep`.
pub fn replace_all_exec(s: &str, pat: &str, rep: &str) -> (r: String)
    requires
        pat@.len() > 0,
    ensures
        r@ == replace_all(s@, pat@, rep@),
    decreases s@.len(),
{
    let sl = s.unicode_len();
    let pl = pat.unicode_len();
    if sl < pl {
        return String::from_str(s);
    }
    if has_prefix(s, pat) {
        let rest = s.substring_char(pl, sl);
        let tail = replace_all_exec(rest, pat, rep);
        let mut out = String::from_str(rep);
        out.append(tail.as_str());
        proof {
            assert(s@.subrange(0, pat@.len() as int) == pat@);
        }
        out
    } else {
        let rest = s.substring_char(1, sl);
        let tail = replace_all_exec(rest, pat, rep);
        let mut out = String::new();
        push_char_from(&mut out, s, 0);
        out.append(tail.as_str());
        proof {
            assert(out@ =~= seq![s@[0]] + tail@);
        }
        out
    }
}

/// The rendered form of a package name: `namespace:name`, with `@version`
/// appended when a version is present.
pub open spec fn package_name_display(pn: PackageName) -> Seq<char> {
    let base = pn.namespace@ + seq![':'] + pn.name@;
    match pn.version {
        Some(v) => base + seq!['@'] + v@,
        None => base,
    }
}

/// The rendered form of an interface qualified by its owning package:
/// `namespace:name/interface`, with `@version` appended when present.
pub open spec fn interface_id_display(pn: PackageName, interface: Seq<char>) -> Seq<char> {
    let base = pn.namespace@ + seq![':'] + pn.name@ + seq!['/'] + interface;
    match pn.version {
        Some(v) => base + seq!['@'] + v@,
        None => base,
    }
}

impl PackageName {
    /// Renders the package name as `namespace:name[@version]`.
    pub fn display(&self) -> (r: String)
        ensures
            r@ == package_name_display(*self),
    {
        let mut out = self.namespace.clone();
        out.append(":");
        proof {
            reveal_strlit(":");
            assert(":"@ =~= seq![':']);
        }
        out.append(self.name.as_str());
        match &self.version {
            Some(v) => {
                out.append("@");
                proof {
                    reveal_strlit("@");
                    assert("@"@ =~= seq!['@']);
                }
                out.append(v.as_str());
            },
            None => {},
        }
        out
    }

    /// Renders `namespace:name/interface[@version]`.
    pub fn interface_id(&self, interface: &str) -> (r: String)
        ensures
            r@ == interface_id_display(*self, interface@),
    {
        let mut out = self.namespace.clone();
        out.append(":");
        proof {
            reveal_strlit(":");
            assert(":"@ =~= seq![':']);
        }
        out.append(self.name.as_str());
        out.append("/");
        proof {
            reveal_strlit("/");
            assert("/"@ =~= seq!['/']);
        }
        out.append(interface);
        match &self.version {
            Some(v) => {
                out.append("@");
                proof {
                    reveal_strlit("@");
                    assert("@"@ =~= seq!['@']);
                }
                out.append(v.as_str());
            },
            None => {},
        }
        out
    }
}

} // verus!
