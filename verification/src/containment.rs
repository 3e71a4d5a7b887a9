//! Three-way structural containment between two selection sets: whether
//! every observable result producible by the right set is also producible
//! by the left one.  Fields are matched by name, alias, canonical argument
//! values and canonical directive sets; fragment spreads by name and body;
//! a selection guarded by `@defer` never contains and is never contained.

use vstd::prelude::*;
use crate::ast::{SpecSelection, SpecDirective, Selection, Directive, view_sel, view_sels, view_dirs, view_args, lemma_view_sels, opt_str_view, string_is, opt_string_eq};
use crate::canon::{pairs_eq, dirs_eq, args_eq, dirs_eq_exec, lemma_pairs_eq_refl, lemma_dirs_eq_refl};

verus! {

/// Three-way result of a containment comparison.
#[derive(Clone, Copy, Debug, PartialEq, Eq, Structural)]
pub enum Containment {
    Equal,
    StrictlyContained,
    NotContained,
}

/// Options for a containment comparison.
#[derive(Clone, Copy, Debug, PartialEq, Eq, Structural)]
pub struct ContainmentOptions {
    /// When set, a plain `__typename` selection present only on the right
    /// side of a sibling group does not by itself block containment.
    pub ignore_missing_typename: bool,
}

/// The nested selection set of any selection variant.
pub open spec fn sel_sub(s: SpecSelection) -> Seq<SpecSelection> {
    match s {
        SpecSelection::Field { selection_set, .. } => selection_set,
        SpecSelection::InlineFragment { selection_set, .. } => selection_set,
        SpecSelection::FragmentSpread { selection_set, .. } => selection_set,
    }
}

/// The directives of any selection variant.
pub open spec fn sel_directives(s: SpecSelection) -> Seq<SpecDirective> {
    match s {
        SpecSelection::Field { directives, .. } => directives,
        SpecSelection::InlineFragment { directives, .. } => directives,
        SpecSelection::FragmentSpread { directives, .. } => directives,
    }
}

/// Some directive at position `k` or later is named `defer`.
pub open spec fn dirs_have_defer_from(ds: Seq<SpecDirective>, k: nat) -> bool
    decreases ds.len() - k,
{
    k < ds.len() && (ds[k as int].name == "defer"@ || dirs_have_defer_from(ds, (k + 1) as nat))
}

/// The selection itself carries a `@defer` directive.
pub open spec fn sel_has_defer(s: SpecSelection) -> bool {
    dirs_have_defer_from(sel_directives(s), 0)
}

/// A bare `__typename` field selection: no alias, no directives.
pub open spec fn is_plain_typename(s: SpecSelection) -> bool {
    match s {
        SpecSelection::Field { alias, name, directives, .. } =>
            alias is None && name == "__typename"@ && directives.len() == 0,
        _ => false,
    }
}

/// Some selection at position `i` or later is a bare `__typename` field.
pub open spec fn has_plain_typename_from(l: Seq<SpecSelection>, i: nat) -> bool
    decreases l.len() - i,
{
    i < l.len() && (is_plain_typename(l[i as int]) || has_plain_typename_from(l, (i + 1) as nat))
}

/// The two selections have equal heads: same variant, same name and alias
/// or type condition, canonically equal arguments and directive sets.
pub open spec fn sel_head_eq(a: SpecSelection, b: SpecSelection) -> bool {
    match (a, b) {
        (
            SpecSelection::Field { alias: aa, name: an, arguments: ar, directives: ad, .. },
            SpecSelection::Field { alias: ba, name: bn, arguments: br, directives: bd, .. },
        ) => aa == ba && an == bn && pairs_eq(ar, br) && dirs_eq(ad, bd),
        (
            SpecSelection::InlineFragment { type_condition: at, directives: ad, .. },
            SpecSelection::InlineFragment { type_condition: bt, directives: bd, .. },
        ) => at == bt && dirs_eq(ad, bd),
        (
            SpecSelection::FragmentSpread { name: an, directives: ad, .. },
            SpecSelection::FragmentSpread { name: bn, directives: bd, .. },
        ) => an == bn && dirs_eq(ad, bd),
        _ => false,
    }
}

/// The first position `i` or later in `l` that is not yet used and whose
/// head equals that of `rsel`.
pub open spec fn find_match_from(l: Seq<SpecSelection>, used: Seq<bool>, rsel: SpecSelection, i: nat) -> Option<int>
    decreases l.len() - i,
{
    if i >= l.len() {
        Option::None
    } else if !used[i as int] && sel_head_eq(l[i as int], rsel) {
        Option::Some(i as int)
    } else {
        find_match_from(l, used, rsel, (i + 1) as nat)
    }
}

/// Every flag at position `i` or later is set.
pub open spec fn all_used_from(used: Seq<bool>, i: nat) -> bool
    decreases used.len() - i,
{
    i >= used.len() || (used[i as int] && all_used_from(used, (i + 1) as nat))
}

/// One step of the containment walk over the right-hand selections, with
/// `used` recording which left-hand selections were already matched and
/// `all_eq` whether every match so far was an exact one.
pub open spec fn cont_from(
    l: Seq<SpecSelection>,
    r: Seq<SpecSelection>,
    used: Seq<bool>,
    j: nat,
    all_eq: bool,
    ign: bool,
) -> Containment
    decreases r, 1int, r.len() - j,
{
    if j >= r.len() {
        if all_eq && all_used_from(used, 0) {
            Containment::Equal
        } else {
            Containment::StrictlyContained
        }
    } else {
        let rj = r[j as int];
        if sel_has_defer(rj) {
            Containment::NotContained
        } else {
            match find_match_from(l, used, rj, 0) {
                Option::Some(i) => {
                    let rsub = match rj {
                        SpecSelection::Field { selection_set, .. } => selection_set,
                        SpecSelection::InlineFragment { selection_set, .. } => selection_set,
                        SpecSelection::FragmentSpread { selection_set, .. } => selection_set,
                    };
                    let c = cont_sets(sel_sub(l[i]), rsub, ign);
                    if c == Containment::NotContained {
                        Containment::NotContained
                    } else {
                        cont_from(l, r, used.update(i, true), (j + 1) as nat, all_eq && c == Containment::Equal, ign)
                    }
                },
                Option::None => {
                    if ign && is_plain_typename(rj) && !has_plain_typename_from(l, 0) {
                        cont_from(l, r, used, (j + 1) as nat, all_eq, ign)
                    } else {
                        Containment::NotContained
                    }
                },
            }
        }
    }
}

/// Containment of the right selection set in the left one.
pub open spec fn cont_sets(l: Seq<SpecSelection>, r: Seq<SpecSelection>, ign: bool) -> Containment
    decreases r, 2int, 0int,
{
    cont_from(l, r, Seq::new(l.len(), |i: int| false), 0, true, ign)
}

/// View of an optional index.
pub open spec fn opt_idx_view(o: Option<usize>) -> Option<int> {
    match o {
        Option::Some(k) => Option::Some(k as int),
        Option::None => Option::None,
    }
}

/// The nested selection set of a selection.
fn sel_sub_ref(s: &Selection) -> (res: &Vec<Selection>)
    ensures
        view_sels(res@) == sel_sub(view_sel(*s)),
{
    match s {
        Selection::Field(f) => &f.selection_set,
        Selection::InlineFragment(f) => &f.selection_set,
        Selection::FragmentSpread(f) => &f.selection_set,
    }
}

/// The directives of a selection.
fn sel_dirs_ref(s: &Selection) -> (res: &Vec<Directive>)
    ensures
        view_dirs(res@) == sel_directives(view_sel(*s)),
{
    match s {
        Selection::Field(f) => &f.directives,
        Selection::InlineFragment(f) => &f.directives,
        Selection::FragmentSpread(f) => &f.directives,
    }
}

fn dirs_have_defer_exec(ds: &Vec<Directive>, k: usize) -> (res: bool)
    ensures
        res == dirs_have_defer_from(view_dirs(ds@), k as nat),
    decreases ds@.len() - k,
{
    proof {
        crate::ast::lemma_view_dirs(ds@);
    }
    if k >= ds.len() {
        false
    } else {
        string_is(&ds[k].name, "defer") || dirs_have_defer_exec(ds, k + 1)
    }
}

/// Decides whether a selection carries a `@defer` directive.
pub fn sel_has_defer_exec(s: &Selection) -> (res: bool)
    ensures
        res == sel_has_defer(view_sel(*s)),
{
    dirs_have_defer_exec(sel_dirs_ref(s), 0)
}

fn is_plain_typename_exec(s: &Selection) -> (res: bool)
    ensures
        res == is_plain_typename(view_sel(*s)),
{
    match s {
        Selection::Field(f) => {
            f.alias.is_none() && f.directives.len() == 0 && string_is(&f.name, "__typename")
        },
        _ => false,
    }
}

fn has_plain_typename_exec(l: &Vec<Selection>, i: usize) -> (res: bool)
    ensures
        res == has_plain_typename_from(view_sels(l@), i as nat),
    decreases l@.len() - i,
{
    proof {
        lemma_view_sels(l@);
    }
    if i >= l.len() {
        false
    } else {
        is_plain_typename_exec(&l[i]) || has_plain_typename_exec(l, i + 1)
    }
}

/// Decides head equality of two selections.
pub fn sel_head_eq_exec(a: &Selection, b: &Selection) -> (res: bool)
    ensures
        res == sel_head_eq(view_sel(*a), view_sel(*b)),
{
    match (a, b) {
        (Selection::Field(x), Selection::Field(y)) => {
            opt_string_eq(&x.alias, &y.alias) && x.name == y.name
                && args_eq(&x.arguments, &y.arguments) && dirs_eq_exec(&x.directives, &y.directives)
        },
        (Selection::InlineFragment(x), Selection::InlineFragment(y)) => {
            opt_string_eq(&x.type_condition, &y.type_condition)
                && dirs_eq_exec(&x.directives, &y.directives)
        },
        (Selection::FragmentSpread(x), Selection::FragmentSpread(y)) => {
            x.name == y.name && dirs_eq_exec(&x.directives, &y.directives)
        },
        _ => false,
    }
}

fn find_match_exec(l: &Vec<Selection>, used: &Vec<bool>, rsel: &Selection, i: usize) -> (res: Option<usize>)
    requires
        used@.len() == l@.len(),
    ensures
        opt_idx_view(res) == find_match_from(view_sels(l@), used@, view_sel(*rsel), i as nat),
    decreases l@.len() - i,
{
    proof {
        lemma_view_sels(l@);
    }
    if i >= l.len() {
        Option::None
    } else if !used[i] && sel_head_eq_exec(&l[i], rsel) {
        Option::Some(i)
    } else {
        find_match_exec(l, used, rsel, i + 1)
    }
}

fn all_used_exec(used: &Vec<bool>, i: usize) -> (res: bool)
    ensures
        res == all_used_from(used@, i as nat),
    decreases used@.len() - i,
{
    if i >= used.len() {
        true
    } else {
        used[i] && all_used_exec(used, i + 1)
    }
}

fn mk_flags(n: usize) -> (res: Vec<bool>)
    ensures
        res@ =~= Seq::new(n as nat, |i: int| false),
{
    let mut v: Vec<bool> = Vec::new();
    while v.len() < n
        invariant
            v@.len() <= n,
            forall|k: int| 0 <= k < v@.len() ==> !(#[trigger] v@[k]),
        decreases n - v@.len(),
    {
        v.push(false);
    }
    v
}

fn cont_from_exec(l: &Vec<Selection>, r: &Vec<Selection>, used: Vec<bool>, j: usize, all_eq: bool, ign: bool) -> (res: Containment)
    requires
        used@.len() == l@.len(),
    ensures
        res == cont_from(view_sels(l@), view_sels(r@), used@, j as nat, all_eq, ign),
    decreases r@, 1int, r@.len() - j,
{
    proof {
        lemma_view_sels(l@);
        lemma_view_sels(r@);
    }
    if j >= r.len() {
        if all_eq && all_used_exec(&used, 0) {
            Containment::Equal
        } else {
            Containment::StrictlyContained
        }
    } else {
        let rj = &r[j];
        if sel_has_defer_exec(rj) {
            Containment::NotContained
        } else {
            match find_match_exec(l, &used, rj, 0) {
                Option::Some(i) => {
                    proof {
                        lemma_find_match_in_range(view_sels(l@), used@, view_sel(*rj), 0);
                    }
                    let rsub = match rj {
                        Selection::Field(f) => &f.selection_set,
                        Selection::InlineFragment(f) => &f.selection_set,
                        Selection::FragmentSpread(f) => &f.selection_set,
                    };
                    let c = containment_sets(sel_sub_ref(&l[i]), rsub, ign);
                    if c == Containment::NotContained {
                        Containment::NotContained
                    } else {
                        let mut used2 = used;
                        used2.set(i, true);
                        cont_from_exec(l, r, used2, j + 1, all_eq && c == Containment::Equal, ign)
                    }
                },
                Option::None => {
                    if ign && is_plain_typename_exec(rj) && !has_plain_typename_exec(l, 0) {
                        cont_from_exec(l, r, used, j + 1, all_eq, ign)
                    } else {
                        Containment::NotContained
                    }
                },
            }
        }
    }
}

/// A found match lies inside the left selection set.
proof fn lemma_find_match_in_range(l: Seq<SpecSelection>, used: Seq<bool>, rsel: SpecSelection, i: nat)
    ensures
        match find_match_from(l, used, rsel, i) {
            Option::Some(k) => i <= k < l.len() && !used[k] && sel_head_eq(l[k], rsel),
            Option::None => true,
        },
    decreases l.len() - i,
{
    if i < l.len() && !(!used[i as int] && sel_head_eq(l[i as int], rsel)) {
        lemma_find_match_in_range(l, used, rsel, (i + 1) as nat);
    }
}

/// Containment of the selection set `r` in the selection set `l`.
pub fn containment_sets(l: &Vec<Selection>, r: &Vec<Selection>, ign: bool) -> (res: Containment)
    ensures
        res == cont_sets(view_sels(l@), view_sels(r@), ign),
    decreases r@, 2int, 0int,
{
    proof {
        lemma_view_sels(l@);
    }
    let used = mk_flags(l.len());
    cont_from_exec(l, r, used, 0, true, ign)
}

/// Decides whether the selection set `left` contains the selection set
/// `right`, to the granularity of fields, arguments, directives and
/// fragment identity.
pub fn containment(left: &Vec<Selection>, right: &Vec<Selection>, options: ContainmentOptions) -> (res: Containment)
    ensures
        res == cont_sets(view_sels(left@), view_sels(right@), options.ignore_missing_typename),
{
    containment_sets(left, right, options.ignore_missing_typename)
}

/// No selection in the set, at any depth, carries a `@defer` directive.
pub open spec fn sel_defer_free(s: SpecSelection) -> bool
    decreases s, 0int, 0int,
{
    !sel_has_defer(s) && match s {
        SpecSelection::Field { selection_set, .. } => sels_defer_free_from(selection_set, 0),
        SpecSelection::InlineFragment { selection_set, .. } => sels_defer_free_from(selection_set, 0),
        SpecSelection::FragmentSpread { selection_set, .. } => sels_defer_free_from(selection_set, 0),
    }
}

/// Every selection at position `i` or later is free of `@defer`.
pub open spec fn sels_defer_free_from(q: Seq<SpecSelection>, i: nat) -> bool
    decreases q, 1int, q.len() - i,
{
    i >= q.len() || (sel_defer_free(q[i as int]) && sels_defer_free_from(q, (i + 1) as nat))
}

proof fn lemma_sels_defer_free_at(q: Seq<SpecSelection>, i: nat, j: nat)
    requires
        i <= j < q.len(),
        sels_defer_free_from(q, i),
    ensures
        sel_defer_free(q[j as int]),
    decreases j - i,
{
    if i < j {
        lemma_sels_defer_free_at(q, (i + 1) as nat, j);
    }
}

/// Head equality is reflexive.
proof fn lemma_head_eq_refl(s: SpecSelection)
    ensures
        sel_head_eq(s, s),
{
    match s {
        SpecSelection::Field { arguments, directives, .. } => {
            lemma_pairs_eq_refl(arguments);
            lemma_dirs_eq_refl(directives);
        },
        SpecSelection::InlineFragment { directives, .. } => {
            lemma_dirs_eq_refl(directives);
        },
        SpecSelection::FragmentSpread { directives, .. } => {
            lemma_dirs_eq_refl(directives);
        },
    }
}

/// Flags with exactly the first `n` positions set.
pub open spec fn prefix_flags(n: nat, len: nat) -> Seq<bool> {
    Seq::new(len, |i: int| i < n)
}

proof fn lemma_all_used_prefix_full(n: nat, i: nat)
    requires
        i <= n,
    ensures
        all_used_from(prefix_flags(n, n), i),
    decreases n - i,
{
    if i < n {
        lemma_all_used_prefix_full(n, (i + 1) as nat);
    }
}

proof fn lemma_find_match_self(s: Seq<SpecSelection>, j: nat, i: nat)
    requires
        i <= j < s.len(),
    ensures
        find_match_from(s, prefix_flags(j, s.len()), s[j as int], i) == Option::Some(j as int),
    decreases j - i,
{
    if i < j {
        lemma_find_match_self(s, j, (i + 1) as nat);
    } else {
        lemma_head_eq_refl(s[j as int]);
    }
}

proof fn lemma_cont_self_from(s: Seq<SpecSelection>, j: nat, ign: bool)
    requires
        j <= s.len(),
        sels_defer_free_from(s, 0),
    ensures
        cont_from(s, s, prefix_flags(j, s.len()), j, true, ign) == Containment::Equal,
    decreases s, 3int, s.len() - j,
{
    if j == s.len() {
        lemma_all_used_prefix_full(s.len(), 0);
    } else {
        let rj = s[j as int];
        lemma_sels_defer_free_at(s, 0, j);
        lemma_find_match_self(s, j, 0);
        let rsub = match rj {
            SpecSelection::Field { selection_set, .. } => selection_set,
            SpecSelection::InlineFragment { selection_set, .. } => selection_set,
            SpecSelection::FragmentSpread { selection_set, .. } => selection_set,
        };
        lemma_cont_sets_self(rsub, ign);
        assert(prefix_flags(j, s.len()).update(j as int, true) =~= prefix_flags((j + 1) as nat, s.len()));
        lemma_cont_self_from(s, (j + 1) as nat, ign);
    }
}

proof fn lemma_cont_sets_self(s: Seq<SpecSelection>, ign: bool)
    requires
        sels_defer_free_from(s, 0),
    ensures
        cont_sets(s, s, ign) == Containment::Equal,
    decreases s, 4int, 0int,
{
    assert(Seq::new(s.len(), |i: int| false) =~= prefix_flags(0, s.len()));
    lemma_cont_self_from(s, 0, ign);
}

/// Containment is reflexive: comparing any `@defer`-free selection set
/// with itself yields `Equal`.
pub proof fn lemma_containment_self(s: Seq<SpecSelection>, ign: bool)
    requires
        sels_defer_free_from(s, 0),
    ensures
        cont_sets(s, s, ign) == Containment::Equal,
{
    lemma_cont_sets_self(s, ign);
}

proof fn lemma_defer_from(l: Seq<SpecSelection>, r: Seq<SpecSelection>, used: Seq<bool>, j: nat, ae: bool, ign: bool, j0: nat)
    requires
        j <= j0 < r.len(),
        sel_has_defer(r[j0 as int]),
    ensures
        cont_from(l, r, used, j, ae, ign) == Containment::NotContained,
    decreases j0 - j,
{
    if j < j0 {
        let rj = r[j as int];
        if !sel_has_defer(rj) {
            match find_match_from(l, used, rj, 0) {
                Option::Some(i) => {
                    let rsub = match rj {
                        SpecSelection::Field { selection_set, .. } => selection_set,
                        SpecSelection::InlineFragment { selection_set, .. } => selection_set,
                        SpecSelection::FragmentSpread { selection_set, .. } => selection_set,
                    };
                    let c = cont_sets(sel_sub(l[i]), rsub, ign);
                    if c != Containment::NotContained {
                        lemma_defer_from(l, r, used.update(i, true), (j + 1) as nat, ae && c == Containment::Equal, ign, j0);
                    }
                },
                Option::None => {
                    if ign && is_plain_typename(rj) && !has_plain_typename_from(l, 0) {
                        lemma_defer_from(l, r, used, (j + 1) as nat, ae, ign, j0);
                    }
                },
            }
        }
    }
}

/// A selection guarded by `@defer` on the right-hand side makes the whole
/// comparison `NotContained`, whatever stands on the left -- including a
/// structurally identical set.
pub proof fn lemma_defer_never_contained(l: Seq<SpecSelection>, r: Seq<SpecSelection>, ign: bool, j0: nat)
    requires
        j0 < r.len(),
        sel_has_defer(r[j0 as int]),
    ensures
        cont_sets(l, r, ign) == Containment::NotContained,
{
    lemma_defer_from(l, r, Seq::new(l.len(), |i: int| false), 0, true, ign, j0);
}

/// The node count of a selection tree: one for the selection itself plus
/// its nested selections, arguments and directives uncounted.
pub open spec fn sel_weight(s: SpecSelection) -> nat
    decreases s, 0int, 0int,
{
    1 + sels_weight_from(sel_sub(s), 0)
}

/// The node count of the selections from position `i` on.
pub open spec fn sels_weight_from(q: Seq<SpecSelection>, i: nat) -> nat
    decreases q, 1int, q.len() - i,
{
    if i >= q.len() {
        0
    } else {
        sel_weight(q[i as int]) + sels_weight_from(q, (i + 1) as nat)
    }
}

/// The node count of the left selections not yet used, from position `k`.
pub open spec fn unused_weight_from(l: Seq<SpecSelection>, used: Seq<bool>, k: nat) -> nat
    decreases l.len() - k,
{
    if k >= l.len() {
        0
    } else {
        (if !used[k as int] {
            sel_weight(l[k as int])
        } else {
            0
        }) + unused_weight_from(l, used, (k + 1) as nat)
    }
}

proof fn lemma_unused_weight_update(l: Seq<SpecSelection>, used: Seq<bool>, k: nat, i: int)
    requires
        0 <= i < l.len(),
        used.len() == l.len(),
        !used[i],
    ensures
        unused_weight_from(l, used, k) == unused_weight_from(l, used.update(i, true), k)
            + if k <= i { sel_weight(l[i]) } else { 0 },
    decreases l.len() - k,
{
    if k < l.len() {
        lemma_unused_weight_update(l, used, (k + 1) as nat, i);
    }
}

/// The weight bookkeeping of one containment walk, with `ign` unset:
/// an `Equal` outcome needs every exactness so far and equal remaining
/// weights; a `StrictlyContained` outcome needs at least as much unused
/// weight on the left, strictly more when every match so far was exact.
proof fn lemma_cont_weight(l: Seq<SpecSelection>, r: Seq<SpecSelection>, used: Seq<bool>, j: nat, ae: bool)
    requires
        used.len() == l.len(),
    ensures
        cont_from(l, r, used, j, ae, false) == Containment::Equal
            ==> ae && unused_weight_from(l, used, 0) == sels_weight_from(r, j),
        cont_from(l, r, used, j, ae, false) == Containment::StrictlyContained
            ==> unused_weight_from(l, used, 0) >= sels_weight_from(r, j)
                && (ae ==> unused_weight_from(l, used, 0) > sels_weight_from(r, j)),
    decreases r, 3int, r.len() - j,
{
    if j >= r.len() {
        if ae && all_used_from(used, 0) {
            lemma_all_used_no_weight(l, used, 0);
        } else if !all_used_from(used, 0) {
            lemma_some_unused_weight(l, used, 0);
        } else {
            lemma_all_used_no_weight(l, used, 0);
        }
    } else {
        let rj = r[j as int];
        if !sel_has_defer(rj) {
            lemma_find_match_in_range(l, used, rj, 0);
            match find_match_from(l, used, rj, 0) {
                Option::Some(i) => {
                    let rsub = match rj {
                        SpecSelection::Field { selection_set, .. } => selection_set,
                        SpecSelection::InlineFragment { selection_set, .. } => selection_set,
                        SpecSelection::FragmentSpread { selection_set, .. } => selection_set,
                    };
                    let c = cont_sets(sel_sub(l[i]), rsub, false);
                    if c != Containment::NotContained {
                        lemma_cont_sets_weight(sel_sub(l[i]), rsub);
                        lemma_cont_weight(l, r, used.update(i, true), (j + 1) as nat, ae && c == Containment::Equal);
                        lemma_unused_weight_update(l, used, 0, i);
                        assert(rsub == sel_sub(rj));
                        assert(sel_weight(l[i]) == 1 + sels_weight_from(sel_sub(l[i]), 0));
                        assert(sel_weight(rj) == 1 + sels_weight_from(rsub, 0));
                        assert(sels_weight_from(r, j) == sel_weight(rj) + sels_weight_from(r, (j + 1) as nat));
                        assert(cont_from(l, r, used, j, ae, false)
                            == cont_from(l, r, used.update(i, true), (j + 1) as nat, ae && c == Containment::Equal, false));
                    }
                },
                Option::None => {},
            }
        }
    }
}

/// An `Equal` or `StrictlyContained` comparison of two whole selection
/// sets relates their node counts: equal for `Equal`, strictly greater
/// on the left for `StrictlyContained`.
proof fn lemma_cont_sets_weight(l2: Seq<SpecSelection>, r2: Seq<SpecSelection>)
    ensures
        cont_sets(l2, r2, false) == Containment::Equal
            ==> sels_weight_from(l2, 0) == sels_weight_from(r2, 0),
        cont_sets(l2, r2, false) == Containment::StrictlyContained
            ==> sels_weight_from(l2, 0) > sels_weight_from(r2, 0),
    decreases r2, 4int, 0int,
{
    let used0 = Seq::new(l2.len(), |i: int| false);
    lemma_cont_weight(l2, r2, used0, 0, true);
    lemma_fresh_unused_weight(l2, used0, 0);
}

proof fn lemma_fresh_unused_weight(l: Seq<SpecSelection>, used: Seq<bool>, k: nat)
    requires
        used.len() == l.len(),
        forall|i: int| 0 <= i < used.len() ==> !(#[trigger] used[i]),
    ensures
        unused_weight_from(l, used, k) == sels_weight_from(l, k),
    decreases l.len() - k,
{
    if k < l.len() {
        lemma_fresh_unused_weight(l, used, (k + 1) as nat);
    }
}

proof fn lemma_all_used_no_weight(l: Seq<SpecSelection>, used: Seq<bool>, k: nat)
    requires
        used.len() == l.len(),
        all_used_from(used, k),
    ensures
        unused_weight_from(l, used, k) == 0,
    decreases l.len() - k,
{
    if k < l.len() {
        lemma_all_used_no_weight(l, used, (k + 1) as nat);
    }
}

proof fn lemma_some_unused_weight(l: Seq<SpecSelection>, used: Seq<bool>, k: nat)
    requires
        used.len() == l.len(),
        !all_used_from(used, k),
        k <= l.len(),
    ensures
        unused_weight_from(l, used, k) > 0,
    decreases l.len() - k,
{
    if k < l.len() {
        if used[k as int] {
            lemma_some_unused_weight(l, used, (k + 1) as nat);
        } else {
            assert(sel_weight(l[k as int]) >= 1);
        }
    }
}

/// Containment is antisymmetric: when the left set strictly contains the
/// right one, the comparison the other way round is `NotContained`.
pub proof fn lemma_containment_antisymmetric(l: Seq<SpecSelection>, r: Seq<SpecSelection>)
    requires
        cont_sets(l, r, false) == Containment::StrictlyContained,
    ensures
        cont_sets(r, l, false) == Containment::NotContained,
{
    lemma_cont_sets_weight(l, r);
    if cont_sets(r, l, false) != Containment::NotContained {
        lemma_cont_sets_weight(r, l);
    }
}

} // verus!
