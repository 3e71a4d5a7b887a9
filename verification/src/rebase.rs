//! Projecting named fragments, built against a supergraph-shaped schema,
//! onto a subgraph schema: fields and type conditions the target cannot
//! satisfy are dropped; `__typename` is dropped too unless its enclosing
//! type is an interface-object in the target schema's metadata, where the
//! federation layer still needs the discriminator; a fragment whose
//! projection selects nothing meaningful is excluded from the result.

use vstd::prelude::*;
use crate::ast::{Selection, Field, InlineFragment, FragmentSpread, FragmentDef, SpecSelection, SpecFragmentDef, view_sel, view_sels, view_frag_defs, lemma_view_sels, lemma_view_frag_defs, opt_str_view, string_is, clone_sel, clone_sels, clone_opt_string, clone_args, clone_dirs};
use crate::schema::{Schema, SpecSchema, find_type_from, find_field_from, name_in_from, view_strings, name_in_exec};
use crate::containment::{is_plain_typename};
use crate::normalize::{find_frag_from};

verus! {

/// A selection set that selects nothing meaningful: empty, or only bare
/// `__typename` fields.
pub open spec fn is_trivial_from(sels: Seq<SpecSelection>, i: nat) -> bool
    decreases sels.len() - i,
{
    i >= sels.len() || (is_plain_typename(sels[i as int]) && is_trivial_from(sels, (i + 1) as nat))
}

fn is_trivial_exec(sels: &Vec<Selection>, i: usize) -> (res: bool)
    ensures
        res == is_trivial_from(view_sels(sels@), i as nat),
    decreases sels@.len() - i,
{
    proof {
        lemma_view_sels(sels@);
    }
    if i >= sels.len() {
        true
    } else {
        let p = match &sels[i] {
            Selection::Field(f) => f.alias.is_none() && f.directives.len() == 0 && string_is(&f.name, "__typename"),
            _ => false,
        };
        p && is_trivial_exec(sels, i + 1)
    }
}

/// The projection of one selection onto the target schema: none, one, or
/// (for a spliced inline fragment) several sibling selections.  A bare
/// `__typename` is dropped unless the enclosing type is an
/// interface-object in the target's metadata, re-evaluating the
/// normalizer's discriminator rule per target.
pub open spec fn rebase_one(
    sel: SpecSelection,
    parent: Seq<char>,
    schema: SpecSchema,
    ifos: Seq<Seq<char>>,
    frags: Seq<SpecFragmentDef>,
    fuel: nat,
) -> Seq<SpecSelection>
    decreases fuel, sel, 0int, 0int,
{
    match sel {
        SpecSelection::Field { alias, name, arguments, directives, selection_set } => {
            if name == "__typename"@ && alias is None {
                if name_in_from(ifos, parent, 0) {
                    seq![sel]
                } else {
                    Seq::empty()
                }
            } else {
                match find_type_from(schema.types, parent, 0) {
                    Option::None => Seq::empty(),
                    Option::Some(t) => match find_field_from(t.fields, name, 0) {
                        Option::None => Seq::empty(),
                        Option::Some(child) => {
                            let sub = rebase_list(selection_set, child, schema, ifos, frags, fuel, 0);
                            if selection_set.len() > 0 && sub.len() == 0 {
                                Seq::empty()
                            } else {
                                seq![SpecSelection::Field { alias, name, arguments, directives, selection_set: sub }]
                            }
                        },
                    },
                }
            }
        },
        SpecSelection::InlineFragment { type_condition, directives, selection_set } => {
            let cond_ok = match type_condition {
                Option::Some(c) => find_type_from(schema.types, c, 0) is Some
                    && crate::schema::spec_types_intersect(schema, parent, c),
                Option::None => true,
            };
            if !cond_ok {
                Seq::empty()
            } else {
                let p2 = match type_condition {
                    Option::Some(c) => c,
                    Option::None => parent,
                };
                let sub = rebase_list(selection_set, p2, schema, ifos, frags, fuel, 0);
                if sub.len() == 0 {
                    Seq::empty()
                } else if directives.len() == 0 && (type_condition is None || type_condition == Option::Some(parent)) {
                    sub
                } else {
                    seq![SpecSelection::InlineFragment { type_condition, directives, selection_set: sub }]
                }
            }
        },
        SpecSelection::FragmentSpread { name, directives, .. } => {
            if fuel == 0 {
                Seq::empty()
            } else {
                match find_frag_from(frags, name, 0) {
                    Option::None => Seq::empty(),
                    Option::Some(fr) => match spec_rebase_frag(fr, schema, ifos, frags, (fuel - 1) as nat) {
                        Option::None => Seq::empty(),
                        Option::Some(rf) => seq![SpecSelection::FragmentSpread {
                            name,
                            directives,
                            selection_set: rf.selection_set,
                        }],
                    },
                }
            }
        },
    }
}

/// The projection of the selections from position `i` on, concatenated.
pub open spec fn rebase_list(
    sels: Seq<SpecSelection>,
    parent: Seq<char>,
    schema: SpecSchema,
    ifos: Seq<Seq<char>>,
    frags: Seq<SpecFragmentDef>,
    fuel: nat,
    i: nat,
) -> Seq<SpecSelection>
    decreases fuel, sels, 1int, sels.len() - i,
{
    if i >= sels.len() {
        Seq::empty()
    } else {
        rebase_one(sels[i as int], parent, schema, ifos, frags, fuel)
            + rebase_list(sels, parent, schema, ifos, frags, fuel, (i + 1) as nat)
    }
}

/// The projection of one fragment: `None` when its type condition is
/// absent from the target or its projected body selects nothing
/// meaningful.
pub open spec fn spec_rebase_frag(
    fr: SpecFragmentDef,
    schema: SpecSchema,
    ifos: Seq<Seq<char>>,
    frags: Seq<SpecFragmentDef>,
    fuel: nat,
) -> Option<SpecFragmentDef>
    decreases fuel, fr.selection_set, 2int, 0int,
{
    if find_type_from(schema.types, fr.type_condition, 0) is None {
        Option::None
    } else {
        let body = rebase_list(fr.selection_set, fr.type_condition, schema, ifos, frags, fuel, 0);
        if is_trivial_from(body, 0) {
            Option::None
        } else {
            Option::Some(SpecFragmentDef { name: fr.name, type_condition: fr.type_condition, selection_set: body })
        }
    }
}

/// The projected fragment map from position `f` on: only fragments that
/// still select something meaningful in the target schema.
pub open spec fn spec_rebase_map(
    frags: Seq<SpecFragmentDef>,
    schema: SpecSchema,
    ifos: Seq<Seq<char>>,
    fuel: nat,
    f: nat,
) -> Seq<SpecFragmentDef>
    decreases frags.len() - f,
{
    if f >= frags.len() {
        Seq::empty()
    } else {
        (match spec_rebase_frag(frags[f as int], schema, ifos, frags, fuel) {
            Option::Some(rf) => seq![rf],
            Option::None => Seq::empty(),
        }) + spec_rebase_map(frags, schema, ifos, fuel, (f + 1) as nat)
    }
}

/// Every top-level selection of the set is a field, not `__typename`,
/// that the target schema does not define on the given type.
pub open spec fn all_fields_unknown(sels: Seq<SpecSelection>, parent: Seq<char>, schema: SpecSchema, i: nat) -> bool
    decreases sels.len() - i,
{
    i >= sels.len() || ((match sels[i as int] {
        SpecSelection::Field { alias, name, .. } => !(name == "__typename"@ && alias is None)
            && (match find_type_from(schema.types, parent, 0) {
                Option::Some(t) => find_field_from(t.fields, name, 0) is None,
                Option::None => true,
            }),
        _ => false,
    }) && all_fields_unknown(sels, parent, schema, (i + 1) as nat))
}

/// Rebasing a fragment onto a schema that lacks every one of its selected
/// fields excludes the fragment from the result.
pub proof fn lemma_rebase_excludes_unknown(
    fr: SpecFragmentDef,
    schema: SpecSchema,
    ifos: Seq<Seq<char>>,
    frags: Seq<SpecFragmentDef>,
    fuel: nat,
)
    requires
        all_fields_unknown(fr.selection_set, fr.type_condition, schema, 0),
    ensures
        spec_rebase_frag(fr, schema, ifos, frags, fuel) is None,
{
    lemma_rebase_list_unknown(fr.selection_set, fr.type_condition, schema, ifos, frags, fuel, 0);
    let body = rebase_list(fr.selection_set, fr.type_condition, schema, ifos, frags, fuel, 0);
    assert(body =~= Seq::<SpecSelection>::empty());
    assert(is_trivial_from(body, 0));
}

proof fn lemma_rebase_list_unknown(
    sels: Seq<SpecSelection>,
    parent: Seq<char>,
    schema: SpecSchema,
    ifos: Seq<Seq<char>>,
    frags: Seq<SpecFragmentDef>,
    fuel: nat,
    i: nat,
)
    requires
        all_fields_unknown(sels, parent, schema, i),
    ensures
        rebase_list(sels, parent, schema, ifos, frags, fuel, i) =~= Seq::<SpecSelection>::empty(),
    decreases sels.len() - i,
{
    if i < sels.len() {
        assert(rebase_one(sels[i as int], parent, schema, ifos, frags, fuel) =~= Seq::<SpecSelection>::empty());
        lemma_rebase_list_unknown(sels, parent, schema, ifos, frags, fuel, (i + 1) as nat);
    }
}

/// Appends the selections of `b` to `a`.
fn sels_concat(a: Vec<Selection>, b: Vec<Selection>) -> (r: Vec<Selection>)
    ensures
        view_sels(r@) =~= view_sels(a@) + view_sels(b@),
{
    let ghost av = a@;
    let ghost bv = b@;
    let mut a = a;
    let mut b = b;
    while b.len() > 0
        invariant
            a@.len() == av.len() + bv.len() - b@.len(),
            b@.len() <= bv.len(),
            forall|k: int| 0 <= k < av.len() ==> #[trigger] a@[k] == av[k],
            forall|k: int| av.len() <= k < a@.len() ==> #[trigger] a@[k] == bv[k - av.len()],
            forall|k: int| 0 <= k < b@.len() ==> #[trigger] b@[k] == bv[k + bv.len() - b@.len()],
        decreases b@.len(),
    {
        let el = b.remove(0);
        a.push(el);
    }
    proof {
        lemma_view_sels(a@);
        lemma_view_sels(av);
        lemma_view_sels(bv);
    }
    a
}

fn rebase_one_exec(
    sel: &Selection,
    parent: &String,
    schema: &Schema,
    ifos: &Vec<String>,
    frags: &Vec<FragmentDef>,
    fuel: usize,
) -> (r: Vec<Selection>)
    ensures
        view_sels(r@) == rebase_one(view_sel(*sel), parent@, schema@, view_strings(ifos@), view_frag_defs(frags@), fuel as nat),
    decreases fuel, *sel, 0int, 0int,
{
    match sel {
        Selection::Field(f) => {
            if f.alias.is_none() && string_is(&f.name, "__typename") {
                if name_in_exec(ifos, parent, 0) {
                    let mut out: Vec<Selection> = Vec::new();
                    out.push(clone_sel(sel));
                    proof {
                        lemma_view_sels(out@);
                        assert(view_sels(out@) =~= seq![view_sel(*sel)]);
                    }
                    out
                } else {
                    let out: Vec<Selection> = Vec::new();
                    proof {
                        lemma_view_sels(out@);
                        assert(view_sels(out@) =~= Seq::<SpecSelection>::empty());
                    }
                    out
                }
            } else {
                match schema.field_type(parent, &f.name) {
                    Option::None => {
                        let out: Vec<Selection> = Vec::new();
                        proof {
                            lemma_view_sels(out@);
                            assert(view_sels(out@) =~= Seq::<SpecSelection>::empty());
                        }
                        out
                    },
                    Option::Some(child) => {
                        let sub = rebase_list_exec(&f.selection_set, &child, schema, ifos, frags, fuel, 0);
                        if f.selection_set.len() > 0 && sub.len() == 0 {
                            let out: Vec<Selection> = Vec::new();
                            proof {
                                lemma_view_sels(out@);
                                lemma_view_sels(sub@);
                                assert(view_sels(out@) =~= Seq::<SpecSelection>::empty());
                            }
                            out
                        } else {
                            let mut out: Vec<Selection> = Vec::new();
                            out.push(Selection::Field(Field {
                                alias: clone_opt_string(&f.alias),
                                name: f.name.clone(),
                                arguments: clone_args(&f.arguments),
                                directives: clone_dirs(&f.directives),
                                selection_set: sub,
                            }));
                            proof {
                                lemma_view_sels(out@);
                                lemma_view_sels(f.selection_set@);
                                assert(view_sels(out@) =~= seq![view_sel(out@[0])]);
                            }
                            out
                        }
                    },
                }
            }
        },
        Selection::InlineFragment(f) => {
            let cond_ok = match &f.type_condition {
                Option::Some(c) => schema.has_type(c) && schema.types_intersect(parent, c),
                Option::None => true,
            };
            if !cond_ok {
                let out: Vec<Selection> = Vec::new();
                proof {
                    lemma_view_sels(out@);
                    assert(view_sels(out@) =~= Seq::<SpecSelection>::empty());
                }
                out
            } else {
                let p2 = match &f.type_condition {
                    Option::Some(c) => c,
                    Option::None => parent,
                };
                let sub = rebase_list_exec(&f.selection_set, p2, schema, ifos, frags, fuel, 0);
                proof {
                    lemma_view_sels(sub@);
                }
                if sub.len() == 0 {
                    let out: Vec<Selection> = Vec::new();
                    proof {
                        lemma_view_sels(out@);
                        assert(view_sels(out@) =~= Seq::<SpecSelection>::empty());
                    }
                    out
                } else {
                    let trivial_cond = match &f.type_condition {
                        Option::None => true,
                        Option::Some(c) => *c == *parent,
                    };
                    if f.directives.len() == 0 && trivial_cond {
                        sub
                    } else {
                        let mut out: Vec<Selection> = Vec::new();
                        out.push(Selection::InlineFragment(InlineFragment {
                            type_condition: clone_opt_string(&f.type_condition),
                            directives: clone_dirs(&f.directives),
                            selection_set: sub,
                        }));
                        proof {
                            lemma_view_sels(out@);
                            assert(view_sels(out@) =~= seq![view_sel(out@[0])]);
                        }
                        out
                    }
                }
            }
        },
        Selection::FragmentSpread(f) => {
            if fuel == 0 {
                let out: Vec<Selection> = Vec::new();
                proof {
                    lemma_view_sels(out@);
                    assert(view_sels(out@) =~= Seq::<SpecSelection>::empty());
                }
                out
            } else {
                match crate::normalize::find_frag_exec2(frags, &f.name, 0) {
                    Option::None => {
                        let out: Vec<Selection> = Vec::new();
                        proof {
                            lemma_view_sels(out@);
                            assert(view_sels(out@) =~= Seq::<SpecSelection>::empty());
                        }
                        out
                    },
                    Option::Some(fr) => {
                        match rebase_fragment(fr, schema, ifos, frags, fuel - 1) {
                            Option::None => {
                                let out: Vec<Selection> = Vec::new();
                                proof {
                                    lemma_view_sels(out@);
                                    assert(view_sels(out@) =~= Seq::<SpecSelection>::empty());
                                }
                                out
                            },
                            Option::Some(rf) => {
                                let mut out: Vec<Selection> = Vec::new();
                                out.push(Selection::FragmentSpread(FragmentSpread {
                                    name: f.name.clone(),
                                    directives: clone_dirs(&f.directives),
                                    selection_set: rf.selection_set,
                                }));
                                proof {
                                    lemma_view_sels(out@);
                                    assert(view_sels(out@) =~= seq![view_sel(out@[0])]);
                                }
                                out
                            },
                        }
                    },
                }
            }
        },
    }
}

fn rebase_list_exec(
    sels: &Vec<Selection>,
    parent: &String,
    schema: &Schema,
    ifos: &Vec<String>,
    frags: &Vec<FragmentDef>,
    fuel: usize,
    i: usize,
) -> (r: Vec<Selection>)
    ensures
        view_sels(r@) == rebase_list(view_sels(sels@), parent@, schema@, view_strings(ifos@), view_frag_defs(frags@), fuel as nat, i as nat),
    decreases fuel, sels@, 1int, sels@.len() - i,
{
    proof {
        lemma_view_sels(sels@);
    }
    if i >= sels.len() {
        let out: Vec<Selection> = Vec::new();
        proof {
            lemma_view_sels(out@);
            assert(view_sels(out@) =~= Seq::<SpecSelection>::empty());
        }
        out
    } else {
        let head = rebase_one_exec(&sels[i], parent, schema, ifos, frags, fuel);
        let tail = rebase_list_exec(sels, parent, schema, ifos, frags, fuel, i + 1);
        sels_concat(head, tail)
    }
}

/// Projects one fragment onto the target schema, or excludes it.
pub fn rebase_fragment(
    fr: &FragmentDef,
    schema: &Schema,
    ifos: &Vec<String>,
    frags: &Vec<FragmentDef>,
    fuel: usize,
) -> (r: Option<FragmentDef>)
    ensures
        ({
            let s = spec_rebase_frag(fr@, schema@, view_strings(ifos@), view_frag_defs(frags@), fuel as nat);
            match r {
                Option::Some(rf) => s == Option::Some(rf@),
                Option::None => s is None,
            }
        }),
    decreases fuel, fr.selection_set@, 2int, 0int,
{
    if !schema.has_type(&fr.type_condition) {
        Option::None
    } else {
        let body = rebase_list_exec(&fr.selection_set, &fr.type_condition, schema, ifos, frags, fuel, 0);
        if is_trivial_exec(&body, 0) {
            Option::None
        } else {
            Option::Some(FragmentDef {
                name: fr.name.clone(),
                type_condition: fr.type_condition.clone(),
                selection_set: body,
            })
        }
    }
}

/// Projects a whole fragment map onto the target schema, keeping only
/// fragments that still select something meaningful there.
pub fn rebase_on(fragments: &Vec<FragmentDef>, schema: &Schema, interface_objects: &Vec<String>) -> (r: Vec<FragmentDef>)
    ensures
        view_frag_defs(r@) == spec_rebase_map(view_frag_defs(fragments@), schema@, view_strings(interface_objects@), fragments@.len() as nat, 0),
{
    rebase_map_exec(fragments, schema, interface_objects, fragments.len(), 0)
}

fn rebase_map_exec(fragments: &Vec<FragmentDef>, schema: &Schema, ifos: &Vec<String>, fuel: usize, f: usize) -> (r: Vec<FragmentDef>)
    ensures
        view_frag_defs(r@) == spec_rebase_map(view_frag_defs(fragments@), schema@, view_strings(ifos@), fuel as nat, f as nat),
    decreases fragments@.len() - f,
{
    proof {
        lemma_view_frag_defs(fragments@);
    }
    if f >= fragments.len() {
        let out: Vec<FragmentDef> = Vec::new();
        proof {
            lemma_view_frag_defs(out@);
            assert(view_frag_defs(out@) =~= Seq::<SpecFragmentDef>::empty());
        }
        out
    } else {
        let tail = rebase_map_exec(fragments, schema, ifos, fuel, f + 1);
        match rebase_fragment(&fragments[f], schema, ifos, fragments, fuel) {
            Option::Some(rf) => {
                let mut out: Vec<FragmentDef> = Vec::new();
                out.push(rf);
                let ghost firstv = out@[0]@;
                let ghost tv = tail@;
                let mut tail = tail;
                while tail.len() > 0
                    invariant
                        out@.len() >= 1,
                        out@[0]@ == firstv,
                        out@.len() - 1 + tail@.len() == tv.len(),
                        forall|k: int| 1 <= k < out@.len() ==> (#[trigger] out@[k])@ == tv[k - 1]@,
                        forall|k: int| 0 <= k < tail@.len() ==> #[trigger] tail@[k] == tv[k + out@.len() - 1],
                    decreases tail@.len(),
                {
                    let el = tail.remove(0);
                    out.push(el);
                }
                proof {
                    lemma_view_frag_defs(out@);
                    lemma_view_frag_defs(tv);
                    assert(view_frag_defs(out@) =~= seq![firstv] + view_frag_defs(tv));
                }
                out
            },
            Option::None => tail,
        }
    }
}

/// The first fragment with the given name, if any.
pub fn find_fragment<'a>(fragments: &'a Vec<FragmentDef>, name: &String) -> (r: Option<&'a FragmentDef>)
    ensures
        ({
            let s = find_frag_from(view_frag_defs(fragments@), name@, 0);
            match r {
                Option::Some(fr) => s == Option::Some(fr@),
                Option::None => s is None,
            }
        }),
{
    crate::normalize::find_frag_exec2(fragments, name, 0)
}

} // verus!
