//! The router-side fragment registry: each fragment definition keyed by
//! name, with the alias under which it selects `__typename`, when it
//! does.

use vstd::prelude::*;
use crate::ast::{Selection, FragmentDef, SpecSelection, SpecFragmentDef, view_sel, view_sels, view_frag_defs, lemma_view_sels, lemma_view_frag_defs, opt_str_view, string_is, clone_sels, clone_opt_string};

verus! {

/// One registered fragment.
pub struct Fragment {
    pub type_condition: String,
    pub selection_set: Vec<Selection>,
    /// The alias under which the fragment selects `__typename`, if any.
    pub aliased_typename: Option<String>,
}

/// The fragments of a query, keyed by name.
pub struct Fragments {
    pub map: Vec<(String, Fragment)>,
}

/// The alias of the last aliased `__typename` field among the
/// selections from position `i` on.
pub open spec fn spec_aliased_typename(sels: Seq<SpecSelection>, i: nat) -> Option<Seq<char>>
    decreases sels.len() - i,
{
    if i >= sels.len() {
        Option::None
    } else {
        let rest = spec_aliased_typename(sels, (i + 1) as nat);
        if rest is Some {
            rest
        } else {
            match sels[i as int] {
                SpecSelection::Field { alias: Option::Some(a), name, .. } => if name == "__typename"@ {
                    Option::Some(a)
                } else {
                    Option::None
                },
                _ => Option::None,
            }
        }
    }
}

fn aliased_typename_exec(sels: &Vec<Selection>, i: usize) -> (r: Option<String>)
    ensures
        opt_str_view(r) == spec_aliased_typename(view_sels(sels@), i as nat),
    decreases sels@.len() - i,
{
    proof {
        lemma_view_sels(sels@);
    }
    if i >= sels.len() {
        Option::None
    } else {
        let rest = aliased_typename_exec(sels, i + 1);
        match rest {
            Option::Some(a) => Option::Some(a),
            Option::None => match &sels[i] {
                Selection::Field(f) => match &f.alias {
                    Option::Some(a) => if string_is(&f.name, "__typename") {
                        Option::Some(a.clone())
                    } else {
                        Option::None
                    },
                    Option::None => Option::None,
                },
                _ => Option::None,
            },
        }
    }
}

impl Fragments {
    /// Builds the registry from the fragment definitions of a document:
    /// each fragment keyed by its name, in order, with its aliased
    /// `__typename` noted.
    pub fn from_defs(defs: &Vec<FragmentDef>) -> (r: Fragments)
        ensures
            r.map@.len() == defs@.len(),
            forall|i: int| 0 <= i < defs@.len() ==> (#[trigger] r.map@[i]).0@ == defs@[i].name@
                && r.map@[i].1.type_condition@ == defs@[i].type_condition@
                && view_sels(r.map@[i].1.selection_set@) == view_sels(defs@[i].selection_set@)
                && opt_str_view(r.map@[i].1.aliased_typename)
                    == spec_aliased_typename(view_sels(defs@[i].selection_set@), 0),
    {
        let mut map: Vec<(String, Fragment)> = Vec::new();
        let mut i: usize = 0;
        while i < defs.len()
            invariant
                i <= defs@.len(),
                map@.len() == i,
                forall|k: int| 0 <= k < i ==> (#[trigger] map@[k]).0@ == defs@[k].name@
                    && map@[k].1.type_condition@ == defs@[k].type_condition@
                    && view_sels(map@[k].1.selection_set@) == view_sels(defs@[k].selection_set@)
                    && opt_str_view(map@[k].1.aliased_typename)
                        == spec_aliased_typename(view_sels(defs@[k].selection_set@), 0),
            decreases defs@.len() - i,
        {
            let d = &defs[i];
            let at = aliased_typename_exec(&d.selection_set, 0);
            let frag = Fragment {
                type_condition: d.type_condition.clone(),
                selection_set: clone_sels(&d.selection_set),
                aliased_typename: at,
            };
            map.push((d.name.clone(), frag));
            i = i + 1;
        }
        Fragments { map }
    }

    /// The first registered fragment with the given name.
    pub fn get<'a>(&'a self, key: &String) -> (r: Option<&'a Fragment>)
        ensures
            match r {
                Option::Some(f) => exists|i: int| 0 <= i < self.map@.len()
                    && (#[trigger] self.map@[i]).0@ == key@ && self.map@[i].1 == *f,
                Option::None => forall|i: int| 0 <= i < self.map@.len()
                    ==> (#[trigger] self.map@[i]).0@ != key@,
            },
    {
        let mut i: usize = 0;
        while i < self.map.len()
            invariant
                i <= self.map@.len(),
                forall|k: int| 0 <= k < i ==> (#[trigger] self.map@[k]).0@ != key@,
            decreases self.map@.len() - i,
        {
            if self.map[i].0 == *key {
                return Option::Some(&self.map[i].1);
            }
            i = i + 1;
        }
        Option::None
    }
}

} // verus!
