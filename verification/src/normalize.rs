//! Selection-set normalization: expansion of named fragments, merging of
//! duplicate sibling selections, pruning of introspection fields, and the
//! sibling `__typename` rule.

use vstd::prelude::*;
use crate::ast::{SpecSelection, SpecFragmentDef, SpecOperation, Selection, Field, InlineFragment, FragmentSpread, FragmentDef, Operation, view_sel, view_sels, view_frag_defs, lemma_view_sels, lemma_view_frag_defs, opt_str_view, string_is, clone_sel, clone_sels, clone_opt_string, clone_args, clone_dirs, clone_val, VariableDef, view_var_defs};
use crate::containment::{sel_head_eq, sel_has_defer, is_plain_typename, has_plain_typename_from, sel_sub, sel_head_eq_exec, sel_has_defer_exec};
use crate::schema::{SpecSchema, Schema, find_type_from, find_field_from, name_in_from, view_strings, name_in_exec};

verus! {

/// An error raised while normalizing an operation.
#[derive(Debug)]
pub enum NormalizeError {
    /// A spread references a fragment name that is not defined.
    UndefinedFragment(String),
    /// Fragment expansion did not terminate: the definitions form a cycle.
    FragmentCycle(String),
    /// A selection is scoped to a type the schema does not define.
    UnknownType(String),
    /// A selection targets a field absent from the named type.
    UnknownField(String, String),
}

/// Mathematical value of a normalization error.
pub enum SpecNormErr {
    UndefinedFragment(Seq<char>),
    FragmentCycle(Seq<char>),
    UnknownType(Seq<char>),
    UnknownField(Seq<char>, Seq<char>),
}

impl View for NormalizeError {
    type V = SpecNormErr;

    open spec fn view(&self) -> SpecNormErr {
        match self {
            NormalizeError::UndefinedFragment(n) => SpecNormErr::UndefinedFragment(n@),
            NormalizeError::FragmentCycle(n) => SpecNormErr::FragmentCycle(n@),
            NormalizeError::UnknownType(n) => SpecNormErr::UnknownType(n@),
            NormalizeError::UnknownField(t, f) => SpecNormErr::UnknownField(t@, f@),
        }
    }
}

/// The first fragment with the given name, searched from position `i`.
pub open spec fn find_frag_from(frags: Seq<SpecFragmentDef>, name: Seq<char>, i: nat) -> Option<SpecFragmentDef>
    decreases frags.len() - i,
{
    if i >= frags.len() {
        Option::None
    } else if frags[i as int].name == name {
        Option::Some(frags[i as int])
    } else {
        find_frag_from(frags, name, (i + 1) as nat)
    }
}

/// The selection with its nested selection set replaced.
pub open spec fn with_sub(s: SpecSelection, sub: Seq<SpecSelection>) -> SpecSelection {
    match s {
        SpecSelection::Field { alias, name, arguments, directives, .. } =>
            SpecSelection::Field { alias, name, arguments, directives, selection_set: sub },
        SpecSelection::InlineFragment { type_condition, directives, .. } =>
            SpecSelection::InlineFragment { type_condition, directives, selection_set: sub },
        SpecSelection::FragmentSpread { name, directives, .. } =>
            SpecSelection::FragmentSpread { name, directives, selection_set: sub },
    }
}

/// The first accumulated selection a new sibling can merge into: equal
/// head, searched from position `k`.
pub open spec fn find_merge_from(acc: Seq<SpecSelection>, sel: SpecSelection, k: nat) -> Option<int>
    decreases acc.len() - k,
{
    if k >= acc.len() {
        Option::None
    } else if sel_head_eq(acc[k as int], sel) {
        Option::Some(k as int)
    } else {
        find_merge_from(acc, sel, (k + 1) as nat)
    }
}

/// Merges one selection into an accumulated sibling list.  A selection
/// that carries `@defer`, or has no sibling with an equal head, is
/// appended; otherwise its nested selections are merged into those of the
/// matching sibling, recursively.
pub open spec fn merge_one(acc: Seq<SpecSelection>, sel: SpecSelection) -> Seq<SpecSelection>
    decreases sel, 3int, 0int,
{
    if sel_has_defer(sel) {
        acc.push(sel)
    } else {
        match find_merge_from(acc, sel, 0) {
            Option::None => acc.push(sel),
            Option::Some(k) => {
                let sub = match sel {
                    SpecSelection::Field { selection_set, .. } => selection_set,
                    SpecSelection::InlineFragment { selection_set, .. } => selection_set,
                    SpecSelection::FragmentSpread { selection_set, .. } => selection_set,
                };
                acc.update(k, with_sub(acc[k], merge_list(sel_sub(acc[k]), sub, 0)))
            },
        }
    }
}

/// Merges every selection of `b` from position `j` on into `a`.
pub open spec fn merge_list(a: Seq<SpecSelection>, b: Seq<SpecSelection>, j: nat) -> Seq<SpecSelection>
    decreases b, 4int, b.len() - j,
{
    if j >= b.len() {
        a
    } else {
        merge_list(merge_one(a, b[j as int]), b, (j + 1) as nat)
    }
}

/// The list with every bare `__typename` selection removed, from
/// position `i` on.
pub open spec fn remove_tn_from(sels: Seq<SpecSelection>, i: nat) -> Seq<SpecSelection>
    decreases sels.len() - i,
{
    if i >= sels.len() {
        Seq::empty()
    } else if is_plain_typename(sels[i as int]) {
        remove_tn_from(sels, (i + 1) as nat)
    } else {
        seq![sels[i as int]] + remove_tn_from(sels, (i + 1) as nat)
    }
}

/// The sibling `__typename` rule: a bare `__typename` beside at least one
/// other selection is dropped, unless the parent type is an
/// interface-object type (the federation layer needs the discriminator).
pub open spec fn prune_tn(sels: Seq<SpecSelection>, parent: Seq<char>, ifos: Seq<Seq<char>>, prune: bool) -> Seq<SpecSelection> {
    if prune && sels.len() >= 2 && has_plain_typename_from(sels, 0) && !name_in_from(ifos, parent, 0) {
        remove_tn_from(sels, 0)
    } else {
        sels
    }
}

/// Normalizes one selection into a list of sibling selections: fields are
/// checked against the schema and their nested selections normalized;
/// inline fragments and (when `expand` is set) fragment spreads whose type
/// condition adds nothing and which carry no directives are spliced into
/// their parent; root introspection fields are dropped.
pub open spec fn expand_one(
    sel: SpecSelection,
    parent: Seq<char>,
    schema: SpecSchema,
    frags: Seq<SpecFragmentDef>,
    ifos: Seq<Seq<char>>,
    prune: bool,
    expand: bool,
    fuel: nat,
) -> Result<Seq<SpecSelection>, SpecNormErr>
    decreases fuel, sel, 0int, 0int,
{
    match sel {
        SpecSelection::Field { alias, name, arguments, directives, selection_set } => {
            if name == "__schema"@ || name == "__type"@ {
                Result::Ok(Seq::empty())
            } else if name == "__typename"@ {
                Result::Ok(seq![sel])
            } else {
                match find_type_from(schema.types, parent, 0) {
                    Option::None => Result::Err(SpecNormErr::UnknownType(parent)),
                    Option::Some(t) => match find_field_from(t.fields, name, 0) {
                        Option::None => Result::Err(SpecNormErr::UnknownField(parent, name)),
                        Option::Some(child) => match norm_sels(selection_set, child, schema, frags, ifos, prune, expand, fuel) {
                            Result::Err(e) => Result::Err(e),
                            Result::Ok(sub) => Result::Ok(
                                seq![SpecSelection::Field { alias, name, arguments, directives, selection_set: sub }],
                            ),
                        },
                    },
                }
            }
        },
        SpecSelection::InlineFragment { type_condition, directives, selection_set } => {
            let p2 = match type_condition {
                Option::Some(c) => c,
                Option::None => parent,
            };
            match norm_sels(selection_set, p2, schema, frags, ifos, prune, expand, fuel) {
                Result::Err(e) => Result::Err(e),
                Result::Ok(sub) => {
                    if directives.len() == 0 && (type_condition is None || type_condition == Option::Some(parent)) {
                        Result::Ok(sub)
                    } else {
                        Result::Ok(seq![SpecSelection::InlineFragment { type_condition, directives, selection_set: sub }])
                    }
                },
            }
        },
        SpecSelection::FragmentSpread { name, directives, selection_set } => {
            if !expand {
                Result::Ok(seq![sel])
            } else {
                match find_frag_from(frags, name, 0) {
                    Option::None => Result::Err(SpecNormErr::UndefinedFragment(name)),
                    Option::Some(fr) => {
                        if fuel == 0 {
                            Result::Err(SpecNormErr::FragmentCycle(name))
                        } else {
                            match norm_sels(fr.selection_set, fr.type_condition, schema, frags, ifos, prune, expand, (fuel - 1) as nat) {
                                Result::Err(e) => Result::Err(e),
                                Result::Ok(body) => {
                                    if directives.len() == 0 && fr.type_condition == parent {
                                        Result::Ok(body)
                                    } else {
                                        Result::Ok(seq![SpecSelection::InlineFragment {
                                            type_condition: Option::Some(fr.type_condition),
                                            directives,
                                            selection_set: body,
                                        }])
                                    }
                                },
                            }
                        }
                    },
                }
            }
        },
    }
}

/// Normalizes the selections from position `i` on, concatenating the
/// results.
pub open spec fn expand_list(
    sels: Seq<SpecSelection>,
    parent: Seq<char>,
    schema: SpecSchema,
    frags: Seq<SpecFragmentDef>,
    ifos: Seq<Seq<char>>,
    prune: bool,
    expand: bool,
    fuel: nat,
    i: nat,
) -> Result<Seq<SpecSelection>, SpecNormErr>
    decreases fuel, sels, 1int, sels.len() - i,
{
    if i >= sels.len() {
        Result::Ok(Seq::empty())
    } else {
        match expand_one(sels[i as int], parent, schema, frags, ifos, prune, expand, fuel) {
            Result::Err(e) => Result::Err(e),
            Result::Ok(head) => match expand_list(sels, parent, schema, frags, ifos, prune, expand, fuel, (i + 1) as nat) {
                Result::Err(e) => Result::Err(e),
                Result::Ok(tail) => Result::Ok(head + tail),
            },
        }
    }
}

/// A fully normalized selection set: expanded, merged, and with the
/// sibling `__typename` rule applied when `prune` is set.
pub open spec fn norm_sels(
    sels: Seq<SpecSelection>,
    parent: Seq<char>,
    schema: SpecSchema,
    frags: Seq<SpecFragmentDef>,
    ifos: Seq<Seq<char>>,
    prune: bool,
    expand: bool,
    fuel: nat,
) -> Result<Seq<SpecSelection>, SpecNormErr>
    decreases fuel, sels, 2int, 0int,
{
    match expand_list(sels, parent, schema, frags, ifos, prune, expand, fuel, 0) {
        Result::Err(e) => Result::Err(e),
        Result::Ok(ex) => Result::Ok(prune_tn(merge_list(Seq::empty(), ex, 0), parent, ifos, prune)),
    }
}

/// Normalized forms of the fragment definitions from position `i` on:
/// bodies are validated and merged against each fragment's own type
/// condition, with spreads kept as references.
pub open spec fn norm_frags_from(
    frags: Seq<SpecFragmentDef>,
    schema: SpecSchema,
    ifos: Seq<Seq<char>>,
    fuel: nat,
    i: nat,
) -> Result<Seq<SpecFragmentDef>, SpecNormErr>
    decreases frags.len() - i,
{
    if i >= frags.len() {
        Result::Ok(Seq::empty())
    } else {
        let fr = frags[i as int];
        match norm_sels(fr.selection_set, fr.type_condition, schema, frags, ifos, false, false, fuel) {
            Result::Err(e) => Result::Err(e),
            Result::Ok(body) => match norm_frags_from(frags, schema, ifos, fuel, (i + 1) as nat) {
                Result::Err(e) => Result::Err(e),
                Result::Ok(tail) => Result::Ok(
                    seq![SpecFragmentDef { name: fr.name, type_condition: fr.type_condition, selection_set: body }] + tail,
                ),
            },
        }
    }
}

/// The normalized form of an operation: its selection set expanded against
/// the schema and fragment definitions, merged and pruned; its named
/// fragments normalized alongside.
pub open spec fn spec_normalize_operation(
    op: SpecOperation,
    frags: Seq<SpecFragmentDef>,
    schema: SpecSchema,
    ifos: Seq<Seq<char>>,
) -> Result<SpecOperation, SpecNormErr> {
    match norm_sels(op.selection_set, schema.query_type, schema, frags, ifos, true, true, frags.len()) {
        Result::Err(e) => Result::Err(e),
        Result::Ok(sels) => match norm_frags_from(frags, schema, ifos, frags.len(), 0) {
            Result::Err(e) => Result::Err(e),
            Result::Ok(nf) => Result::Ok(SpecOperation {
                kind: op.kind,
                name: op.name,
                variables: op.variables,
                selection_set: sels,
                named_fragments: nf,
            }),
        },
    }
}

/// Whether `b`, as a later sibling, could merge into `a`: equal heads
/// and `b` not guarded by `@defer`.
pub open spec fn could_merge(a: SpecSelection, b: SpecSelection) -> bool {
    sel_head_eq(a, b) && !sel_has_defer(b)
}

/// No selection of the list could merge into an earlier sibling.
pub open spec fn merged_siblings(sels: Seq<SpecSelection>) -> bool {
    forall|k1: int, k2: int| 0 <= k1 < k2 < sels.len() ==> !#[trigger] could_merge(sels[k1], sels[k2])
}

proof fn lemma_find_merge_none(acc: Seq<SpecSelection>, sel: SpecSelection, k: nat)
    requires
        forall|k2: int| k <= k2 < acc.len() ==> !sel_head_eq(#[trigger] acc[k2], sel),
    ensures
        find_merge_from(acc, sel, k) is None,
    decreases acc.len() - k,
{
    if k < acc.len() {
        lemma_find_merge_none(acc, sel, (k + 1) as nat);
    }
}

proof fn lemma_merge_keeps(acc: Seq<SpecSelection>, sels: Seq<SpecSelection>, j: nat)
    requires
        j <= sels.len(),
        merged_siblings(sels),
        forall|k: int, j2: int| 0 <= k < acc.len() && j <= j2 < sels.len()
            ==> !#[trigger] could_merge(acc[k], sels[j2]),
    ensures
        merge_list(acc, sels, j) =~= acc + sels.subrange(j as int, sels.len() as int),
    decreases sels.len() - j,
{
    if j >= sels.len() {
        assert(merge_list(acc, sels, j) == acc);
        assert(acc + sels.subrange(j as int, sels.len() as int) =~= acc);
    } else {
        let sel = sels[j as int];
        let acc2 = acc.push(sel);
        if sel_has_defer(sel) {
            assert(merge_one(acc, sel) == acc.push(sel));
        } else {
            assert forall|k2: int| 0 <= k2 < acc.len() implies !sel_head_eq(#[trigger] acc[k2], sel) by {
                assert(!could_merge(acc[k2], sel));
            }
            lemma_find_merge_none(acc, sel, 0);
            assert(merge_one(acc, sel) == acc.push(sel));
        }
        assert forall|k: int, j2: int| 0 <= k < acc2.len() && j + 1 <= j2 < sels.len()
            implies !#[trigger] could_merge(acc2[k], sels[j2]) by {
            if k < acc.len() {
                assert(!could_merge(acc[k], sels[j2]));
            } else {
                assert(acc2[k] == sels[j as int]);
                assert(!could_merge(sels[j as int], sels[j2]));
            }
        }
        lemma_merge_keeps(acc2, sels, (j + 1) as nat);
        assert(merge_list(acc, sels, j) == merge_list(merge_one(acc, sel), sels, (j + 1) as nat));
        assert(acc2 + sels.subrange(j as int + 1, sels.len() as int) =~= acc + sels.subrange(j as int, sels.len() as int));
    }
}

/// Merge idempotence at the sibling level: a sibling list in which no
/// selection could merge into an earlier one -- which holds of every
/// merged output -- is left exactly as it is by another merge pass.
pub proof fn lemma_merge_idempotent_siblings(sels: Seq<SpecSelection>)
    requires
        merged_siblings(sels),
    ensures
        merge_list(Seq::empty(), sels, 0) =~= sels,
{
    lemma_merge_keeps(Seq::empty(), sels, 0);
    assert(Seq::<SpecSelection>::empty() + sels.subrange(0, sels.len() as int) =~= sels);
}

pub fn find_frag_exec2<'a>(frags: &'a Vec<FragmentDef>, name: &String, i: usize) -> (res: Option<&'a FragmentDef>)
    ensures
        match res {
            Option::Some(fr) => find_frag_from(view_frag_defs(frags@), name@, i as nat) == Option::Some(fr@),
            Option::None => find_frag_from(view_frag_defs(frags@), name@, i as nat) is None,
        },
    decreases frags@.len() - i,
{
    proof {
        lemma_view_frag_defs(frags@);
    }
    if i >= frags.len() {
        Option::None
    } else if frags[i].name == *name {
        Option::Some(&frags[i])
    } else {
        find_frag_exec2(frags, name, i + 1)
    }
}

fn find_merge_exec(acc: &Vec<Selection>, sel: &Selection, k: usize) -> (res: Option<usize>)
    ensures
        match res {
            Option::Some(i) => find_merge_from(view_sels(acc@), view_sel(*sel), k as nat) == Option::Some(i as int)
                && i < acc@.len(),
            Option::None => find_merge_from(view_sels(acc@), view_sel(*sel), k as nat) is None,
        },
    decreases acc@.len() - k,
{
    proof {
        lemma_view_sels(acc@);
    }
    if k >= acc.len() {
        Option::None
    } else if sel_head_eq_exec(&acc[k], sel) {
        Option::Some(k)
    } else {
        find_merge_exec(acc, sel, k + 1)
    }
}

/// Merges one selection into an accumulated sibling list.
fn merge_one_exec(acc: Vec<Selection>, sel: &Selection) -> (res: Vec<Selection>)
    ensures
        view_sels(res@) == merge_one(view_sels(acc@), view_sel(*sel)),
    decreases *sel, 3int, 0int,
{
    let ghost acc0 = acc@;
    if sel_has_defer_exec(sel) {
        let mut acc = acc;
        let c = clone_sel(sel);
        acc.push(c);
        proof {
            crate::ast::lemma_view_sels_push(acc0, c);
        }
        acc
    } else {
        match find_merge_exec(&acc, sel, 0) {
            Option::None => {
                let mut acc = acc;
                let c = clone_sel(sel);
                acc.push(c);
                proof {
                    crate::ast::lemma_view_sels_push(acc0, c);
                }
                acc
            },
            Option::Some(k) => {
                let mut acc = acc;
                let old_sel = acc.remove(k);
                let subref = match sel {
                    Selection::Field(f) => &f.selection_set,
                    Selection::InlineFragment(f) => &f.selection_set,
                    Selection::FragmentSpread(f) => &f.selection_set,
                };
                let rebuilt = match old_sel {
                    Selection::Field(f) => Selection::Field(Field {
                        alias: f.alias,
                        name: f.name,
                        arguments: f.arguments,
                        directives: f.directives,
                        selection_set: merge_list_exec(f.selection_set, subref, 0),
                    }),
                    Selection::InlineFragment(f) => Selection::InlineFragment(InlineFragment {
                        type_condition: f.type_condition,
                        directives: f.directives,
                        selection_set: merge_list_exec(f.selection_set, subref, 0),
                    }),
                    Selection::FragmentSpread(f) => Selection::FragmentSpread(FragmentSpread {
                        name: f.name,
                        directives: f.directives,
                        selection_set: merge_list_exec(f.selection_set, subref, 0),
                    }),
                };
                acc.insert(k, rebuilt);
                proof {
                    lemma_view_sels(acc0);
                    lemma_view_sels(acc@);
                    assert(acc@ =~= acc0.update(k as int, rebuilt));
                    crate::ast::lemma_view_sels_update(acc0, k as int, rebuilt);
                }
                acc
            },
        }
    }
}

/// Merges every selection of `b` from position `j` on into `acc`.
fn merge_list_exec(acc: Vec<Selection>, b: &Vec<Selection>, j: usize) -> (res: Vec<Selection>)
    ensures
        view_sels(res@) == merge_list(view_sels(acc@), view_sels(b@), j as nat),
    decreases b@, 4int, b@.len() - j,
{
    proof {
        lemma_view_sels(b@);
    }
    if j >= b.len() {
        acc
    } else {
        let acc2 = merge_one_exec(acc, &b[j]);
        merge_list_exec(acc2, b, j + 1)
    }
}

fn is_plain_typename_exec2(s: &Selection) -> (res: bool)
    ensures
        res == is_plain_typename(view_sel(*s)),
{
    match s {
        Selection::Field(f) => {
            f.alias.is_none() && f.directives.len() == 0 && string_is(&f.name, "__typename")
        },
        _ => false,
    }
}

fn has_plain_typename_exec2(l: &Vec<Selection>, i: usize) -> (res: bool)
    ensures
        res == has_plain_typename_from(view_sels(l@), i as nat),
    decreases l@.len() - i,
{
    proof {
        lemma_view_sels(l@);
    }
    if i >= l.len() {
        false
    } else {
        is_plain_typename_exec2(&l[i]) || has_plain_typename_exec2(l, i + 1)
    }
}

fn remove_tn_exec(sels: Vec<Selection>, i: usize) -> (res: Vec<Selection>)
    requires
        i <= sels@.len(),
    ensures
        view_sels(res@) == remove_tn_from(view_sels(sels@), i as nat),
    decreases sels@.len() - i,
{
    let ghost sels0 = sels@;
    proof {
        lemma_view_sels(sels@);
    }
    if i >= sels.len() {
        let out: Vec<Selection> = Vec::new();
        proof {
            lemma_view_sels(out@);
            assert(view_sels(out@) =~= remove_tn_from(view_sels(sels0), i as nat));
        }
        out
    } else if is_plain_typename_exec2(&sels[i]) {
        remove_tn_exec(sels, i + 1)
    } else {
        let c = clone_sel(&sels[i]);
        let tail = remove_tn_exec(sels, i + 1);
        let mut out: Vec<Selection> = Vec::new();
        out.push(c);
        let mut tail = tail;
        let mut t: usize = 0;
        let ghost tail0 = tail@;
        while t < tail.len()
            invariant
                t <= tail0.len(),
                tail@ == tail0,
                out@.len() == 1 + t,
                view_sel(out@[0]) == view_sel(sels0[i as int]),
                forall|m: int| 1 <= m < 1 + t ==> view_sel(#[trigger] out@[m]) == view_sel(tail0[m - 1]),
            decreases tail0.len() - t,
        {
            let c2 = clone_sel(&tail[t]);
            out.push(c2);
            t = t + 1;
        }
        proof {
            lemma_view_sels(out@);
            lemma_view_sels(tail0);
            assert(view_sels(out@) =~= seq![view_sel(sels0[i as int])] + view_sels(tail0));
        }
        out
    }
}

fn prune_tn_exec(sels: Vec<Selection>, parent: &String, ifos: &Vec<String>, prune: bool) -> (res: Vec<Selection>)
    ensures
        view_sels(res@) == prune_tn(view_sels(sels@), parent@, view_strings(ifos@), prune),
{
    proof {
        lemma_view_sels(sels@);
    }
    if prune && sels.len() >= 2 && has_plain_typename_exec2(&sels, 0) && !name_in_exec(ifos, parent, 0) {
        remove_tn_exec(sels, 0)
    } else {
        sels
    }
}

/// Normalizes one selection into a list of sibling selections.
fn expand_one_exec(
    sel: &Selection,
    parent: &String,
    schema: &Schema,
    frags: &Vec<FragmentDef>,
    ifos: &Vec<String>,
    prune: bool,
    expand: bool,
    fuel: usize,
) -> (res: Result<Vec<Selection>, NormalizeError>)
    ensures
        ({
            let s = expand_one(view_sel(*sel), parent@, schema@, view_frag_defs(frags@), view_strings(ifos@), prune, expand, fuel as nat);
            match res {
                Result::Ok(v) => s == Result::<Seq<SpecSelection>, SpecNormErr>::Ok(view_sels(v@)),
                Result::Err(e) => s == Result::<Seq<SpecSelection>, SpecNormErr>::Err(e@),
            }
        }),
    decreases fuel, *sel, 0int, 0int,
{
    match sel {
        Selection::Field(f) => {
            if string_is(&f.name, "__schema") || string_is(&f.name, "__type") {
                let out: Vec<Selection> = Vec::new();
                proof {
                    lemma_view_sels(out@);
                    assert(view_sels(out@) =~= Seq::<SpecSelection>::empty());
                }
                Result::Ok(out)
            } else if string_is(&f.name, "__typename") {
                let mut out: Vec<Selection> = Vec::new();
                out.push(clone_sel(sel));
                proof {
                    lemma_view_sels(out@);
                    assert(view_sels(out@) =~= seq![view_sel(*sel)]);
                }
                Result::Ok(out)
            } else {
                match schema.field_type(parent, &f.name) {
                    Option::None => {
                        if schema.has_type(parent) {
                            Result::Err(NormalizeError::UnknownField(parent.clone(), f.name.clone()))
                        } else {
                            Result::Err(NormalizeError::UnknownType(parent.clone()))
                        }
                    },
                    Option::Some(child) => {
                        match norm_sels_exec(&f.selection_set, &child, schema, frags, ifos, prune, expand, fuel) {
                            Result::Err(e) => Result::Err(e),
                            Result::Ok(sub) => {
                                let mut out: Vec<Selection> = Vec::new();
                                out.push(Selection::Field(Field {
                                    alias: clone_opt_string(&f.alias),
                                    name: f.name.clone(),
                                    arguments: clone_args(&f.arguments),
                                    directives: clone_dirs(&f.directives),
                                    selection_set: sub,
                                }));
                                proof {
                                    lemma_view_sels(out@);
                                    assert(view_sels(out@) =~= seq![view_sel(out@[0])]);
                                }
                                Result::Ok(out)
                            },
                        }
                    },
                }
            }
        },
        Selection::InlineFragment(f) => {
            let p2 = match &f.type_condition {
                Option::Some(c) => c,
                Option::None => parent,
            };
            match norm_sels_exec(&f.selection_set, p2, schema, frags, ifos, prune, expand, fuel) {
                Result::Err(e) => Result::Err(e),
                Result::Ok(sub) => {
                    let trivial_cond = match &f.type_condition {
                        Option::None => true,
                        Option::Some(c) => *c == *parent,
                    };
                    if f.directives.len() == 0 && trivial_cond {
                        Result::Ok(sub)
                    } else {
                        let mut out: Vec<Selection> = Vec::new();
                        out.push(Selection::InlineFragment(InlineFragment {
                            type_condition: clone_opt_string(&f.type_condition),
                            directives: clone_dirs(&f.directives),
                            selection_set: sub,
                        }));
                        proof {
                            lemma_view_sels(out@);
                            assert(view_sels(out@) =~= seq![view_sel(out@[0])]);
                        }
                        Result::Ok(out)
                    }
                },
            }
        },
        Selection::FragmentSpread(f) => {
            if !expand {
                let mut out: Vec<Selection> = Vec::new();
                out.push(clone_sel(sel));
                proof {
                    lemma_view_sels(out@);
                    assert(view_sels(out@) =~= seq![view_sel(*sel)]);
                }
                Result::Ok(out)
            } else {
                match find_frag_exec2(frags, &f.name, 0) {
                    Option::None => Result::Err(NormalizeError::UndefinedFragment(f.name.clone())),
                    Option::Some(fr) => {
                        if fuel == 0 {
                            Result::Err(NormalizeError::FragmentCycle(f.name.clone()))
                        } else {
                            match norm_sels_exec(&fr.selection_set, &fr.type_condition, schema, frags, ifos, prune, expand, fuel - 1) {
                                Result::Err(e) => Result::Err(e),
                                Result::Ok(body) => {
                                    if f.directives.len() == 0 && fr.type_condition == *parent {
                                        Result::Ok(body)
                                    } else {
                                        let mut out: Vec<Selection> = Vec::new();
                                        out.push(Selection::InlineFragment(InlineFragment {
                                            type_condition: Option::Some(fr.type_condition.clone()),
                                            directives: clone_dirs(&f.directives),
                                            selection_set: body,
                                        }));
                                        proof {
                                            lemma_view_sels(out@);
                                            assert(view_sels(out@) =~= seq![view_sel(out@[0])]);
                                        }
                                        Result::Ok(out)
                                    }
                                },
                            }
                        }
                    },
                }
            }
        },
    }
}

fn expand_list_exec(
    sels: &Vec<Selection>,
    parent: &String,
    schema: &Schema,
    frags: &Vec<FragmentDef>,
    ifos: &Vec<String>,
    prune: bool,
    expand: bool,
    fuel: usize,
    i: usize,
) -> (res: Result<Vec<Selection>, NormalizeError>)
    ensures
        ({
            let s = expand_list(view_sels(sels@), parent@, schema@, view_frag_defs(frags@), view_strings(ifos@), prune, expand, fuel as nat, i as nat);
            match res {
                Result::Ok(v) => s == Result::<Seq<SpecSelection>, SpecNormErr>::Ok(view_sels(v@)),
                Result::Err(e) => s == Result::<Seq<SpecSelection>, SpecNormErr>::Err(e@),
            }
        }),
    decreases fuel, sels@, 1int, sels@.len() - i,
{
    proof {
        lemma_view_sels(sels@);
    }
    if i >= sels.len() {
        let out: Vec<Selection> = Vec::new();
        proof {
            lemma_view_sels(out@);
            assert(view_sels(out@) =~= Seq::<SpecSelection>::empty());
        }
        Result::Ok(out)
    } else {
        match expand_one_exec(&sels[i], parent, schema, frags, ifos, prune, expand, fuel) {
            Result::Err(e) => Result::Err(e),
            Result::Ok(head) => match expand_list_exec(sels, parent, schema, frags, ifos, prune, expand, fuel, i + 1) {
                Result::Err(e) => Result::Err(e),
                Result::Ok(tail) => {
                    let ghost headv = head@;
                    let ghost tailv = tail@;
                    let mut head = head;
                    let mut tail = tail;
                    let mut t: usize = 0;
                    while t < tail.len()
                        invariant
                            t <= tailv.len(),
                            tail@ == tailv,
                            head@.len() == headv.len() + t,
                            forall|m: int| 0 <= m < headv.len() ==> #[trigger] head@[m] == headv[m],
                            forall|m: int| headv.len() <= m < headv.len() + t ==> view_sel(#[trigger] head@[m]) == view_sel(tailv[m - headv.len()]),
                        decreases tailv.len() - t,
                    {
                        let c2 = clone_sel(&tail[t]);
                        head.push(c2);
                        t = t + 1;
                    }
                    proof {
                        lemma_view_sels(head@);
                        lemma_view_sels(headv);
                        lemma_view_sels(tailv);
                        assert(view_sels(head@) =~= view_sels(headv) + view_sels(tailv));
                    }
                    Result::Ok(head)
                },
            },
        }
    }
}

/// Fully normalizes a selection set against the schema: expansion,
/// sibling merging, and the `__typename` rule when `prune` is set.
pub fn norm_sels_exec(
    sels: &Vec<Selection>,
    parent: &String,
    schema: &Schema,
    frags: &Vec<FragmentDef>,
    ifos: &Vec<String>,
    prune: bool,
    expand: bool,
    fuel: usize,
) -> (res: Result<Vec<Selection>, NormalizeError>)
    ensures
        ({
            let s = norm_sels(view_sels(sels@), parent@, schema@, view_frag_defs(frags@), view_strings(ifos@), prune, expand, fuel as nat);
            match res {
                Result::Ok(v) => s == Result::<Seq<SpecSelection>, SpecNormErr>::Ok(view_sels(v@)),
                Result::Err(e) => s == Result::<Seq<SpecSelection>, SpecNormErr>::Err(e@),
            }
        }),
    decreases fuel, sels@, 2int, 0int,
{
    match expand_list_exec(sels, parent, schema, frags, ifos, prune, expand, fuel, 0) {
        Result::Err(e) => Result::Err(e),
        Result::Ok(ex) => {
            let acc: Vec<Selection> = Vec::new();
            proof {
                lemma_view_sels(acc@);
                assert(view_sels(acc@) =~= Seq::<SpecSelection>::empty());
            }
            let merged = merge_list_exec(acc, &ex, 0);
            Result::Ok(prune_tn_exec(merged, parent, ifos, prune))
        },
    }
}

fn norm_frags_exec(
    frags: &Vec<FragmentDef>,
    schema: &Schema,
    ifos: &Vec<String>,
    fuel: usize,
    i: usize,
) -> (res: Result<Vec<FragmentDef>, NormalizeError>)
    ensures
        ({
            let s = norm_frags_from(view_frag_defs(frags@), schema@, view_strings(ifos@), fuel as nat, i as nat);
            match res {
                Result::Ok(v) => s == Result::<Seq<SpecFragmentDef>, SpecNormErr>::Ok(view_frag_defs(v@)),
                Result::Err(e) => s == Result::<Seq<SpecFragmentDef>, SpecNormErr>::Err(e@),
            }
        }),
    decreases frags@.len() - i,
{
    proof {
        lemma_view_frag_defs(frags@);
    }
    if i >= frags.len() {
        let out: Vec<FragmentDef> = Vec::new();
        proof {
            lemma_view_frag_defs(out@);
            assert(view_frag_defs(out@) =~= Seq::<SpecFragmentDef>::empty());
        }
        Result::Ok(out)
    } else {
        let fr = &frags[i];
        match norm_sels_exec(&fr.selection_set, &fr.type_condition, schema, frags, ifos, false, false, fuel) {
            Result::Err(e) => Result::Err(e),
            Result::Ok(body) => match norm_frags_exec(frags, schema, ifos, fuel, i + 1) {
                Result::Err(e) => Result::Err(e),
                Result::Ok(tail) => {
                    let mut out: Vec<FragmentDef> = Vec::new();
                    out.push(FragmentDef {
                        name: fr.name.clone(),
                        type_condition: fr.type_condition.clone(),
                        selection_set: body,
                    });
                    let ghost tailv = tail@;
                    let ghost firstv = out@[0]@;
                    let mut tail = tail;
                    let mut t: usize = 0;
                    while t < tail.len()
                        invariant
                            t <= tailv.len(),
                            tail@ == tailv,
                            out@.len() == 1 + t,
                            out@[0]@ == firstv,
                            forall|m: int| 1 <= m < 1 + t ==> (#[trigger] out@[m])@ == tailv[m - 1]@,
                        decreases tailv.len() - t,
                    {
                        let c2 = FragmentDef {
                            name: tail[t].name.clone(),
                            type_condition: tail[t].type_condition.clone(),
                            selection_set: clone_sels(&tail[t].selection_set),
                        };
                        out.push(c2);
                        t = t + 1;
                    }
                    proof {
                        lemma_view_frag_defs(out@);
                        lemma_view_frag_defs(tailv);
                        assert(view_frag_defs(out@) =~= seq![firstv] + view_frag_defs(tailv));
                    }
                    Result::Ok(out)
                },
            },
        }
    }
}

/// Normalizes an operation: expands and merges its selection set against
/// the schema and fragment definitions, applies the sibling `__typename`
/// rule, and normalizes the named fragments alongside.
pub fn normalize_operation(
    operation: &Operation,
    fragments: &Vec<FragmentDef>,
    schema: &Schema,
    interface_objects: &Vec<String>,
) -> (res: Result<Operation, NormalizeError>)
    ensures
        ({
            let s = spec_normalize_operation(operation@, view_frag_defs(fragments@), schema@, view_strings(interface_objects@));
            match res {
                Result::Ok(op) => s == Result::<SpecOperation, SpecNormErr>::Ok(op@),
                Result::Err(e) => s == Result::<SpecOperation, SpecNormErr>::Err(e@),
            }
        }),
{
    proof {
        lemma_view_frag_defs(fragments@);
    }
    let sels = match norm_sels_exec(&operation.selection_set, &schema.query_type, schema, fragments, interface_objects, true, true, fragments.len()) {
        Result::Ok(v) => v,
        Result::Err(e) => {
            return Result::Err(e);
        },
    };
    let nf = match norm_frags_exec(fragments, schema, interface_objects, fragments.len(), 0) {
        Result::Ok(v) => v,
        Result::Err(e) => {
            return Result::Err(e);
        },
    };
    let out = Operation {
        kind: operation.kind,
        name: clone_opt_string(&operation.name),
        variables: clone_var_defs(&operation.variables),
        selection_set: sels,
        named_fragments: nf,
    };
    proof {
        assert(out@ =~= ({
            let s = spec_normalize_operation(operation@, view_frag_defs(fragments@), schema@, view_strings(interface_objects@));
            s->Ok_0
        }));
    }
    Result::Ok(out)
}

/// Clones a list of variable definitions.
fn clone_var_defs(q: &Vec<VariableDef>) -> (r: Vec<VariableDef>)
    ensures
        view_var_defs(r@) =~= view_var_defs(q@),
{
    let mut out: Vec<VariableDef> = Vec::new();
    let mut i: usize = 0;
    while i < q.len()
        invariant
            i <= q.len(),
            out@.len() == i,
            forall|k: int| 0 <= k < i ==> (#[trigger] out@[k])@ == q@[k]@,
        decreases q@.len() - i,
    {
        out.push(VariableDef { name: q[i].name.clone(), var_type: q[i].var_type.clone() });
        i = i + 1;
    }
    proof {
        assert(view_var_defs(out@) =~= view_var_defs(q@));
    }
    out
}

} // verus!
