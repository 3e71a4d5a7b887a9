//! Building the batched `representations` payload for an entity fetch:
//! evaluating the `requires` selection at every matched response path,
//! deduplicating structurally equal representations, and keeping the
//! inverted-paths table from each unique representation back to the
//! response paths that need its result.

use vstd::prelude::*;
use vstd::string::StringExecFns;
use crate::ast::{SpecSelection, Selection, view_sel, view_sels, lemma_view_sels, opt_str_view};
use crate::json::{Json, SpecJson, Path, SpecPathElem, PathElem, view_json, view_jsons, view_members, lemma_view_members, lemma_view_jsons, lemma_view_path_elems, clone_json, json_eq, json_eq_exec, select_vp, select_values_and_paths, view_matches, lemma_view_matches, spec_data_at, data_at_path, obj_get_from, spec_get, lemma_json_eq_is_eq};
use crate::rewrites::{DataRewrite, SpecDataRewrite, view_rewrites, lemma_view_rewrites, spec_apply_rewrites, apply_rewrites};
use crate::serialize::{dec_nat, fmt_usize};

verus! {

/// The index of the last `Key` step strictly before position `j`, or zero
/// when there is none.
pub open spec fn last_key_before(cur: Seq<SpecPathElem>, j: nat) -> nat
    decreases j,
{
    if j == 0 {
        0
    } else if cur[j - 1] is Key {
        (j - 1) as nat
    } else {
        last_key_before(cur, (j - 1) as nat)
    }
}

/// Resolves a `..`-relative context path against a matched path: each
/// leading `..` drops the trailing steps of the matched path up to and
/// including its last field key; the remaining context steps are appended.
pub open spec fn spec_merge_cp(cur: Seq<SpecPathElem>, ctx: Seq<SpecPathElem>, i: nat, j: nat) -> Seq<SpecPathElem>
    decreases ctx.len() - i,
{
    if i < ctx.len() && ctx[i as int] == SpecPathElem::Key(".."@) {
        spec_merge_cp(cur, ctx, (i + 1) as nat, last_key_before(cur, j))
    } else {
        cur.take(j as int) + ctx.skip(i as int)
    }
}

fn last_key_before_exec(cur: &Path, j: usize) -> (r: usize)
    requires
        j <= cur@.len(),
    ensures
        r == last_key_before(cur@, j as nat),
        r <= j,
    decreases j,
{
    proof {
        lemma_view_path_elems(cur.elements@);
    }
    if j == 0 {
        0
    } else if matches!(&cur.elements[j - 1], PathElem::Key(_)) {
        j - 1
    } else {
        last_key_before_exec(cur, j - 1)
    }
}

fn merge_scan(current_dir: &Path, context_path: &Path, i: usize, j: usize) -> (r: (usize, usize))
    requires
        i <= context_path@.len(),
        j <= current_dir@.len(),
    ensures
        r.0 <= context_path@.len(),
        r.1 <= current_dir@.len(),
        current_dir@.take(r.1 as int) + context_path@.skip(r.0 as int)
            == spec_merge_cp(current_dir@, context_path@, i as nat, j as nat),
    decreases context_path@.len() - i,
{
    proof {
        lemma_view_path_elems(context_path.elements@);
    }
    let cont = if i < context_path.len() {
        match &context_path.elements[i] {
            PathElem::Key(k) => string_is_dotdot(k),
            _ => false,
        }
    } else {
        false
    };
    if cont {
        let j2 = last_key_before_exec(current_dir, j);
        merge_scan(current_dir, context_path, i + 1, j2)
    } else {
        (i, j)
    }
}

fn string_is_dotdot(s: &String) -> (res: bool)
    ensures
        res == (s@ == ".."@),
{
    let d = String::from_str("..");
    *s == d
}

/// Resolves a `..`-relative context path against the matched path.
pub fn merge_context_path(current_dir: &Path, context_path: &Path) -> (r: Path)
    ensures
        r@ == spec_merge_cp(current_dir@, context_path@, 0, current_dir@.len()),
{
    proof {
        lemma_view_path_elems(current_dir.elements@);
        lemma_view_path_elems(context_path.elements@);
    }
    let j0 = current_dir.len();
    let (i, j) = merge_scan(current_dir, context_path, 0, j0);
    let prefix = current_dir.prefix(j);
    let out = prefix.with_suffix(context_path, i);
    proof {
        assert(current_dir@.take(j as int) =~= current_dir@.subrange(0, j as int));
        assert(context_path@.skip(i as int) =~= context_path@.subrange(i as int, context_path@.len() as int));
    }
    out
}

/// The response key of a field: its alias when present, else its name.
pub open spec fn resp_key(alias: Option<Seq<char>>, name: Seq<char>) -> Seq<char> {
    match alias {
        Option::Some(a) => a,
        Option::None => name,
    }
}

/// The members produced by evaluating the selections from position `i`
/// against a value: a field present in the value contributes one member
/// (recursively evaluated when it has sub-selections, else copied); an
/// absent field contributes nothing; type conditions guard on
/// `__typename`.
pub open spec fn eval_list(sels: Seq<SpecSelection>, i: nat, value: SpecJson) -> Seq<(Seq<char>, SpecJson)>
    decreases sels, 0int, sels.len() - i,
{
    if i >= sels.len() {
        Seq::empty()
    } else {
        (match sels[i as int] {
            SpecSelection::Field { alias, name, selection_set, .. } => match spec_get(value, name) {
                Option::Some(m) => seq![(resp_key(alias, name), if selection_set.len() > 0 {
                    SpecJson::Obj(eval_list(selection_set, 0, m))
                } else {
                    m
                })],
                Option::None => Seq::empty(),
            },
            SpecSelection::InlineFragment { type_condition, selection_set, .. } => match type_condition {
                Option::Some(t) => if crate::json::spec_typename_is(value, t) {
                    eval_list(selection_set, 0, value)
                } else {
                    Seq::empty()
                },
                Option::None => eval_list(selection_set, 0, value),
            },
            SpecSelection::FragmentSpread { selection_set, .. } => eval_list(selection_set, 0, value),
        }) + eval_list(sels, (i + 1) as nat, value)
    }
}

/// Appends the members of `b` to `a`.
fn member_concat(a: Vec<(String, Json)>, b: Vec<(String, Json)>) -> (r: Vec<(String, Json)>)
    ensures
        view_members(r@) =~= view_members(a@) + view_members(b@),
{
    let ghost av = a@;
    let ghost bv = b@;
    let mut a = a;
    let mut b = b;
    while b.len() > 0
        invariant
            a@.len() == av.len() + bv.len() - b@.len(),
            b@.len() <= bv.len(),
            forall|k: int| 0 <= k < av.len() ==> #[trigger] a@[k] == av[k],
            forall|k: int| av.len() <= k < a@.len() ==> #[trigger] a@[k] == bv[k - av.len()],
            forall|k: int| 0 <= k < b@.len() ==> #[trigger] b@[k] == bv[k + bv.len() - b@.len()],
        decreases b@.len(),
    {
        let el = b.remove(0);
        a.push(el);
    }
    proof {
        lemma_view_members(a@);
        lemma_view_members(av);
        lemma_view_members(bv);
    }
    a
}

fn eval_list_exec(sels: &Vec<Selection>, i: usize, value: &Json) -> (r: Vec<(String, Json)>)
    ensures
        view_members(r@) == eval_list(view_sels(sels@), i as nat, view_json(*value)),
    decreases sels@, 0int, sels@.len() - i,
{
    proof {
        lemma_view_sels(sels@);
    }
    if i >= sels.len() {
        let out: Vec<(String, Json)> = Vec::new();
        proof {
            lemma_view_members(out@);
            assert(view_members(out@) =~= Seq::<(Seq<char>, SpecJson)>::empty());
        }
        out
    } else {
        let head: Vec<(String, Json)> = match &sels[i] {
            Selection::Field(f) => {
                match value.get(f.name.as_str()) {
                    Option::Some(m) => {
                        let key = match &f.alias {
                            Option::Some(a) => a.clone(),
                            Option::None => f.name.clone(),
                        };
                        let child = if f.selection_set.len() > 0 {
                            Json::Obj(eval_list_exec(&f.selection_set, 0, m))
                        } else {
                            clone_json(m)
                        };
                        let mut out: Vec<(String, Json)> = Vec::new();
                        out.push((key, child));
                        proof {
                            lemma_view_members(out@);
                            assert(view_members(out@) =~= seq![(out@[0].0@, view_json(out@[0].1))]);
                        }
                        out
                    },
                    Option::None => {
                        let out: Vec<(String, Json)> = Vec::new();
                        proof {
                            lemma_view_members(out@);
                            assert(view_members(out@) =~= Seq::<(Seq<char>, SpecJson)>::empty());
                        }
                        out
                    },
                }
            },
            Selection::InlineFragment(f) => {
                let pass = match &f.type_condition {
                    Option::Some(t) => crate::json::typename_is_exec(value, t),
                    Option::None => true,
                };
                if pass {
                    eval_list_exec(&f.selection_set, 0, value)
                } else {
                    let out: Vec<(String, Json)> = Vec::new();
                    proof {
                        lemma_view_members(out@);
                        assert(view_members(out@) =~= Seq::<(Seq<char>, SpecJson)>::empty());
                    }
                    out
                }
            },
            Selection::FragmentSpread(f) => eval_list_exec(&f.selection_set, 0, value),
        };
        let tail = eval_list_exec(sels, i + 1, value);
        member_concat(head, tail)
    }
}

/// Evaluates a `requires` selection against a value, producing the entity
/// representation object.
pub fn execute_selection_set(value: &Json, requires_selection: &Vec<Selection>) -> (r: Json)
    ensures
        view_json(r) == SpecJson::Obj(eval_list(view_sels(requires_selection@), 0, view_json(*value))),
{
    Json::Obj(eval_list_exec(requires_selection, 0, value))
}

/// The result of building the variables for one fetch: the variable
/// object, the inverted-paths table, and the contextual-argument
/// descriptor when per-entity values had to be split.
pub struct Variables {
    pub variables: Vec<(String, Json)>,
    pub inverted_paths: Vec<Vec<Path>>,
    pub contextual_args: Option<(Vec<String>, usize)>,
}

pub open spec fn view_path_list(q: Seq<Path>) -> Seq<Seq<SpecPathElem>> {
    Seq::new(q.len(), |i: int| q[i]@)
}

pub open spec fn view_path_table(q: Seq<Vec<Path>>) -> Seq<Seq<Seq<SpecPathElem>>> {
    Seq::new(q.len(), |i: int| view_path_list(q[i]@))
}

pub open spec fn view_named_table(q: Seq<Vec<(String, Json)>>) -> Seq<Seq<(Seq<char>, SpecJson)>> {
    Seq::new(q.len(), |i: int| view_members(q[i]@))
}

pub open spec fn view_string_list(q: Seq<String>) -> Seq<Seq<char>> {
    Seq::new(q.len(), |i: int| q[i]@)
}

/// The rewrites a maybe-absent rewrite list stands for.
pub open spec fn view_rw_opt(o: Option<Vec<DataRewrite>>) -> Seq<SpecDataRewrite> {
    match o {
        Option::Some(v) => view_rewrites(v@),
        Option::None => Seq::empty(),
    }
}

/// Whether a name already stands in a member list.
pub open spec fn names_contain(acc: Seq<(Seq<char>, SpecJson)>, name: Seq<char>, i: nat) -> bool
    decreases acc.len() - i,
{
    i < acc.len() && (acc[i as int].0 == name || names_contain(acc, name, (i + 1) as nat))
}

/// The contextual values required at one matched path: for each
/// key-renaming context rewrite, in order and first occurrence of a name
/// winning, the value found at the `..`-resolved path.
pub open spec fn ctx_pairs(rws: Seq<SpecDataRewrite>, r: nat, data: SpecJson, mpath: Seq<SpecPathElem>, acc: Seq<(Seq<char>, SpecJson)>) -> Seq<(Seq<char>, SpecJson)>
    decreases rws.len() - r,
{
    if r >= rws.len() {
        acc
    } else {
        match rws[r as int] {
            SpecDataRewrite::KeyRenamer { path, rename_key_to } => {
                if names_contain(acc, rename_key_to, 0) {
                    ctx_pairs(rws, (r + 1) as nat, data, mpath, acc)
                } else {
                    match spec_data_at(data, spec_merge_cp(mpath, path, 0, mpath.len()), 0) {
                        Option::Some(v) => ctx_pairs(rws, (r + 1) as nat, data, mpath, acc.push((rename_key_to, v))),
                        Option::None => ctx_pairs(rws, (r + 1) as nat, data, mpath, acc),
                    }
                }
            },
            SpecDataRewrite::ValueSetter { .. } => ctx_pairs(rws, (r + 1) as nat, data, mpath, acc),
        }
    }
}

/// The first representation structurally equal to `v`.
pub open spec fn find_rep(reps: Seq<SpecJson>, r: nat, v: SpecJson) -> Option<int>
    decreases reps.len() - r,
{
    if r >= reps.len() {
        Option::None
    } else if json_eq(reps[r as int], v) {
        Option::Some(r as int)
    } else {
        find_rep(reps, (r + 1) as nat, v)
    }
}

/// One step of the deduplicating fold over the matched paths: an empty
/// representation is skipped; a representation equal to an already-issued
/// one only adds its path to that entry's inverted paths; a new one opens
/// a new entry.
pub open spec fn dedup_fold(
    matches: Seq<(Seq<SpecPathElem>, SpecJson)>,
    i: nat,
    req: Seq<SpecSelection>,
    irw: Seq<SpecDataRewrite>,
    crw: Seq<SpecDataRewrite>,
    data: SpecJson,
    reps: Seq<SpecJson>,
    paths: Seq<Seq<Seq<SpecPathElem>>>,
    named: Seq<Seq<(Seq<char>, SpecJson)>>,
) -> (Seq<SpecJson>, Seq<Seq<Seq<SpecPathElem>>>, Seq<Seq<(Seq<char>, SpecJson)>>)
    decreases matches.len() - i,
{
    if i >= matches.len() {
        (reps, paths, named)
    } else {
        let mpath = matches[i as int].0;
        let mval = matches[i as int].1;
        let members = eval_list(req, 0, mval);
        if members.len() == 0 {
            dedup_fold(matches, (i + 1) as nat, req, irw, crw, data, reps, paths, named)
        } else {
            let ctx = ctx_pairs(crw, 0, data, mpath, Seq::empty());
            let rep = spec_apply_rewrites(SpecJson::Obj(members), irw, 0);
            match find_rep(reps, 0, rep) {
                Option::Some(k) => dedup_fold(matches, (i + 1) as nat, req, irw, crw, data,
                    reps, paths.update(k, paths[k].push(mpath)), named.push(ctx)),
                Option::None => dedup_fold(matches, (i + 1) as nat, req, irw, crw, data,
                    reps.push(rep), paths.push(seq![mpath]), named.push(ctx)),
            }
        }
    }
}

/// Positional equality of two contextual-value maps.
pub open spec fn maps_eq(a: Seq<(Seq<char>, SpecJson)>, b: Seq<(Seq<char>, SpecJson)>, i: nat) -> bool
    decreases a.len() - i,
{
    i >= a.len() || (a[i as int].0 == b[i as int].0 && json_eq(a[i as int].1, b[i as int].1)
        && maps_eq(a, b, (i + 1) as nat))
}

/// Whether every contextual map equals the first one.
pub open spec fn all_named_eq(named: Seq<Seq<(Seq<char>, SpecJson)>>, i: nat) -> bool
    decreases named.len() - i,
{
    i >= named.len() || (named[i as int].len() == named[0].len() && maps_eq(named[0], named[i as int], 0)
        && all_named_eq(named, (i + 1) as nat))
}

/// The entries of one contextual map with `_<idx>` appended to each name.
pub open spec fn suffix_map(mp: Seq<(Seq<char>, SpecJson)>, e: nat, idx: nat) -> Seq<(Seq<char>, SpecJson)>
    decreases mp.len() - e,
{
    if e >= mp.len() {
        Seq::empty()
    } else {
        seq![(mp[e as int].0 + "_"@ + dec_nat(idx), mp[e as int].1)] + suffix_map(mp, (e + 1) as nat, idx)
    }
}

/// Every contextual map suffixed with its index, concatenated.
pub open spec fn suffix_all(named: Seq<Seq<(Seq<char>, SpecJson)>>, idx: nat) -> Seq<(Seq<char>, SpecJson)>
    decreases named.len() - idx,
{
    if idx >= named.len() {
        Seq::empty()
    } else {
        suffix_map(named[idx as int], 0, idx) + suffix_all(named, (idx + 1) as nat)
    }
}

/// The names of the entries of a contextual map.
pub open spec fn names_of(mp: Seq<(Seq<char>, SpecJson)>, e: nat) -> Seq<Seq<char>>
    decreases mp.len() - e,
{
    if e >= mp.len() {
        Seq::empty()
    } else {
        seq![mp[e as int].0] + names_of(mp, (e + 1) as nat)
    }
}

/// The requested variables, in usage order, taken from the enclosing
/// request where present.
pub open spec fn pick_vars(usages: Seq<Seq<char>>, u: nat, reqvars: Seq<(Seq<char>, SpecJson)>) -> Seq<(Seq<char>, SpecJson)>
    decreases usages.len() - u,
{
    if u >= usages.len() {
        Seq::empty()
    } else {
        (match obj_get_from(reqvars, usages[u as int], 0) {
            Option::Some(v) => seq![(usages[u as int], v)],
            Option::None => Seq::empty(),
        }) + pick_vars(usages, (u + 1) as nat, reqvars)
    }
}

/// The mathematical value of the variables built for one fetch.
pub open spec fn spec_build_variables(
    req: Seq<SpecSelection>,
    usages: Seq<Seq<char>>,
    data: SpecJson,
    current_dir: Seq<SpecPathElem>,
    reqvars: Seq<(Seq<char>, SpecJson)>,
    irw: Seq<SpecDataRewrite>,
    crw: Seq<SpecDataRewrite>,
) -> Option<(Seq<(Seq<char>, SpecJson)>, Seq<Seq<Seq<SpecPathElem>>>, Option<(Seq<Seq<char>>, int)>)> {
    if req.len() > 0 {
        let matches = select_vp(data, current_dir, 0, Seq::empty());
        let folded = dedup_fold(matches, 0, req, irw, crw, data, Seq::empty(), Seq::empty(), Seq::empty());
        if folded.0.len() == 0 {
            Option::None
        } else {
            let same = all_named_eq(folded.2, 1);
            let extended = if same { folded.2[0] } else { suffix_all(folded.2, 0) };
            let ctx_args = if same { Option::None } else {
                Option::Some((names_of(folded.2[0], 0), folded.2.len() as int))
            };
            Option::Some((
                extended + pick_vars(usages, 0, reqvars)
                    + seq![("representations"@, SpecJson::Arr(folded.0))],
                folded.1,
                ctx_args,
            ))
        }
    } else {
        if current_dir.len() > 0 && (match spec_data_at(data, current_dir, 0) {
            Option::Some(v) => v is Null,
            Option::None => true,
        }) {
            Option::None
        } else {
            Option::Some((pick_vars(usages, 0, reqvars), Seq::empty(), Option::None))
        }
    }
}

/// The representation one match produces: the evaluated `requires`
/// members after input rewrites, or nothing when no member was produced.
pub open spec fn rep_of(m: (Seq<SpecPathElem>, SpecJson), req: Seq<SpecSelection>, irw: Seq<SpecDataRewrite>) -> Option<SpecJson> {
    if eval_list(req, 0, m.1).len() == 0 {
        Option::None
    } else {
        Option::Some(spec_apply_rewrites(SpecJson::Obj(eval_list(req, 0, m.1)), irw, 0))
    }
}

/// The paths of the matches from position `i` on whose representation is
/// `target`, in discovery order.
pub open spec fn paths_filter(matches: Seq<(Seq<SpecPathElem>, SpecJson)>, i: nat, req: Seq<SpecSelection>, irw: Seq<SpecDataRewrite>, target: SpecJson) -> Seq<Seq<SpecPathElem>>
    decreases matches.len() - i,
{
    if i >= matches.len() {
        Seq::empty()
    } else {
        (if rep_of(matches[i as int], req, irw) == Option::Some(target) {
            seq![matches[i as int].0]
        } else {
            Seq::empty()
        }) + paths_filter(matches, (i + 1) as nat, req, irw, target)
    }
}

/// The representations are pairwise distinct.
pub open spec fn reps_distinct(reps: Seq<SpecJson>) -> bool {
    forall|k1: int, k2: int| 0 <= k1 < k2 < reps.len() ==> #[trigger] reps[k1] != #[trigger] reps[k2]
}

proof fn lemma_find_rep_props(reps: Seq<SpecJson>, r: nat, v: SpecJson)
    ensures
        match find_rep(reps, r, v) {
            Option::Some(k) => r <= k < reps.len() && reps[k] == v
                && forall|k2: int| r <= k2 < k ==> #[trigger] reps[k2] != v,
            Option::None => forall|k2: int| r <= k2 < reps.len() ==> #[trigger] reps[k2] != v,
        },
    decreases reps.len() - r,
{
    if r < reps.len() {
        lemma_json_eq_is_eq(reps[r as int], v);
        if !json_eq(reps[r as int], v) {
            lemma_find_rep_props(reps, (r + 1) as nat, v);
        }
    }
}

/// Representation deduplication: starting from distinct representations
/// whose inverted-path entries already collect exactly the earlier paths
/// of their representation, the fold keeps the representations pairwise
/// distinct, and the inverted paths of each representation are exactly
/// the matched paths that produced it, in path-discovery order.
pub proof fn lemma_dedup_fold(
    matches: Seq<(Seq<SpecPathElem>, SpecJson)>,
    i: nat,
    req: Seq<SpecSelection>,
    irw: Seq<SpecDataRewrite>,
    crw: Seq<SpecDataRewrite>,
    data: SpecJson,
    reps: Seq<SpecJson>,
    paths: Seq<Seq<Seq<SpecPathElem>>>,
    named: Seq<Seq<(Seq<char>, SpecJson)>>,
)
    requires
        reps.len() == paths.len(),
        reps_distinct(reps),
    ensures
        ({
            let f = dedup_fold(matches, i, req, irw, crw, data, reps, paths, named);
            &&& reps_distinct(f.0)
            &&& f.0.len() == f.1.len()
            &&& reps.len() <= f.0.len()
            &&& (forall|k: int| 0 <= k < reps.len() ==> #[trigger] f.0[k] == reps[k])
            &&& (forall|k: int| 0 <= k < f.0.len() ==> #[trigger] f.1[k] =~= (if k < paths.len() {
                    paths[k]
                } else {
                    Seq::<Seq<SpecPathElem>>::empty()
                }) + paths_filter(matches, i, req, irw, f.0[k]))
        }),
    decreases matches.len() - i,
{
    let f = dedup_fold(matches, i, req, irw, crw, data, reps, paths, named);
    if i >= matches.len() {
        assert forall|k: int| 0 <= k < f.0.len() implies #[trigger] f.1[k] =~= (if k < paths.len() {
            paths[k]
        } else {
            Seq::<Seq<SpecPathElem>>::empty()
        }) + paths_filter(matches, i, req, irw, f.0[k]) by {}
    } else {
        let mpath = matches[i as int].0;
        let mval = matches[i as int].1;
        let members = eval_list(req, 0, mval);
        if members.len() == 0 {
            lemma_dedup_fold(matches, (i + 1) as nat, req, irw, crw, data, reps, paths, named);
            assert forall|k: int| 0 <= k < f.0.len() implies #[trigger] f.1[k] =~= (if k < paths.len() {
                paths[k]
            } else {
                Seq::<Seq<SpecPathElem>>::empty()
            }) + paths_filter(matches, i, req, irw, f.0[k]) by {
                assert(rep_of(matches[i as int], req, irw) is None);
                assert(paths_filter(matches, i, req, irw, f.0[k])
                    =~= paths_filter(matches, (i + 1) as nat, req, irw, f.0[k]));
            }
        } else {
            let rep = spec_apply_rewrites(SpecJson::Obj(members), irw, 0);
            let ctx = ctx_pairs(crw, 0, data, mpath, Seq::empty());
            lemma_find_rep_props(reps, 0, rep);
            match find_rep(reps, 0, rep) {
                Option::Some(k0) => {
                    let paths2 = paths.update(k0, paths[k0].push(mpath));
                    lemma_dedup_fold(matches, (i + 1) as nat, req, irw, crw, data, reps, paths2, named.push(ctx));
                    assert forall|k: int| 0 <= k < f.0.len() implies #[trigger] f.1[k] =~= (if k < paths.len() {
                        paths[k]
                    } else {
                        Seq::<Seq<SpecPathElem>>::empty()
                    }) + paths_filter(matches, i, req, irw, f.0[k]) by {
                        assert(rep_of(matches[i as int], req, irw) == Option::Some(rep));
                        if k < paths.len() {
                            if k == k0 {
                                assert(f.0[k] == reps[k0]);
                                assert(reps[k0] == rep);
                                assert(paths_filter(matches, i, req, irw, f.0[k])
                                    =~= seq![mpath] + paths_filter(matches, (i + 1) as nat, req, irw, f.0[k]));
                            } else {
                                assert(f.0[k] == reps[k]);
                                assert(reps[k] != rep);
                                assert(paths_filter(matches, i, req, irw, f.0[k])
                                    =~= paths_filter(matches, (i + 1) as nat, req, irw, f.0[k]));
                            }
                        } else {
                            assert(reps_distinct(reps));
                            assert(f.0[k] != rep) by {
                                if f.0[k] == rep {
                                    assert(f.0[k0] == reps[k0]);
                                    assert(reps[k0] == rep);
                                }
                            }
                            assert(paths_filter(matches, i, req, irw, f.0[k])
                                =~= paths_filter(matches, (i + 1) as nat, req, irw, f.0[k]));
                        }
                    }
                },
                Option::None => {
                    let reps2 = reps.push(rep);
                    let paths2 = paths.push(seq![mpath]);
                    assert(reps_distinct(reps2)) by {
                        assert forall|k1: int, k2: int| 0 <= k1 < k2 < reps2.len() implies
                            #[trigger] reps2[k1] != #[trigger] reps2[k2] by {
                            if k2 == reps.len() {
                                assert(reps2[k1] == reps[k1]);
                                assert(reps[k1] != rep);
                            }
                        }
                    }
                    lemma_dedup_fold(matches, (i + 1) as nat, req, irw, crw, data, reps2, paths2, named.push(ctx));
                    assert forall|k: int| 0 <= k < f.0.len() implies #[trigger] f.1[k] =~= (if k < paths.len() {
                        paths[k]
                    } else {
                        Seq::<Seq<SpecPathElem>>::empty()
                    }) + paths_filter(matches, i, req, irw, f.0[k]) by {
                        assert(rep_of(matches[i as int], req, irw) == Option::Some(rep));
                        if k < paths.len() {
                            assert(f.0[k] == reps[k]);
                            assert(reps[k] != rep);
                            assert(paths_filter(matches, i, req, irw, f.0[k])
                                =~= paths_filter(matches, (i + 1) as nat, req, irw, f.0[k]));
                        } else if k == paths.len() {
                            assert(f.0[k] == rep);
                            assert(f.1[k] =~= paths2[k] + paths_filter(matches, (i + 1) as nat, req, irw, rep));
                            assert(paths_filter(matches, i, req, irw, rep)
                                =~= seq![mpath] + paths_filter(matches, (i + 1) as nat, req, irw, rep));
                        } else {
                            assert(f.0[k] != rep) by {
                                if f.0[k] == rep {
                                    assert(f.0[paths2.len() - 1] == reps2[paths2.len() - 1]);
                                    assert(reps2[paths2.len() - 1] == rep);
                                    assert(reps_distinct(f.0));
                                }
                            }
                            assert(paths_filter(matches, i, req, irw, f.0[k])
                                =~= paths_filter(matches, (i + 1) as nat, req, irw, f.0[k]));
                        }
                    }
                },
            }
        }
    }
}

/// Representation deduplication at the builder's boundary: for an entity
/// fetch that produced anything, the `representations` list the builder
/// hands out is pairwise distinct, the inverted-paths table has one entry
/// per representation, and each entry holds exactly the matched paths --
/// in path-discovery order -- whose evaluated, rewritten representation
/// is that entry's.
pub proof fn lemma_build_variables_dedup(
    req: Seq<SpecSelection>,
    usages: Seq<Seq<char>>,
    data: SpecJson,
    current_dir: Seq<SpecPathElem>,
    reqvars: Seq<(Seq<char>, SpecJson)>,
    irw: Seq<SpecDataRewrite>,
    crw: Seq<SpecDataRewrite>,
)
    requires
        req.len() > 0,
    ensures
        ({
            let matches = select_vp(data, current_dir, 0, Seq::empty());
            let f = dedup_fold(matches, 0, req, irw, crw, data, Seq::empty(), Seq::empty(), Seq::empty());
            &&& reps_distinct(f.0)
            &&& f.0.len() == f.1.len()
            &&& (forall|k: int| 0 <= k < f.0.len() ==> #[trigger] f.1[k] =~= paths_filter(matches, 0, req, irw, f.0[k]))
            &&& (match spec_build_variables(req, usages, data, current_dir, reqvars, irw, crw) {
                Option::Some(v) => v.1 == f.1
                    && v.0.len() > 0
                    && v.0.last() == ("representations"@, SpecJson::Arr(f.0)),
                Option::None => f.0.len() == 0,
            })
        }),
{
    let matches = select_vp(data, current_dir, 0, Seq::empty());
    lemma_dedup_fold(matches, 0, req, irw, crw, data, Seq::empty(), Seq::empty(), Seq::empty());
    let f = dedup_fold(matches, 0, req, irw, crw, data, Seq::empty(), Seq::empty(), Seq::empty());
    assert forall|k: int| 0 <= k < f.0.len() implies #[trigger] f.1[k] =~= paths_filter(matches, 0, req, irw, f.0[k]) by {
        assert(f.1[k] =~= (if k < Seq::<Seq<Seq<SpecPathElem>>>::empty().len() {
            Seq::<Seq<Seq<SpecPathElem>>>::empty()[k]
        } else {
            Seq::<Seq<SpecPathElem>>::empty()
        }) + paths_filter(matches, 0, req, irw, f.0[k]));
    }
}

fn names_contain_exec(acc: &Vec<(String, Json)>, name: &String, i: usize) -> (res: bool)
    ensures
        res == names_contain(view_members(acc@), name@, i as nat),
    decreases acc@.len() - i,
{
    proof {
        lemma_view_members(acc@);
    }
    if i >= acc.len() {
        false
    } else {
        acc[i].0 == *name || names_contain_exec(acc, name, i + 1)
    }
}

fn ctx_pairs_exec(rws: &Vec<DataRewrite>, r: usize, data: &Json, mpath: &Path, acc: Vec<(String, Json)>) -> (res: Vec<(String, Json)>)
    ensures
        view_members(res@) == ctx_pairs(view_rewrites(rws@), r as nat, view_json(*data), mpath@, view_members(acc@)),
    decreases rws@.len() - r,
{
    proof {
        lemma_view_rewrites(rws@);
        lemma_view_members(acc@);
    }
    if r >= rws.len() {
        acc
    } else {
        match &rws[r] {
            DataRewrite::KeyRenamer { path, rename_key_to } => {
                if names_contain_exec(&acc, rename_key_to, 0) {
                    ctx_pairs_exec(rws, r + 1, data, mpath, acc)
                } else {
                    let dp = merge_context_path(mpath, path);
                    match data_at_path(data, &dp, 0) {
                        Option::Some(v) => {
                            let ghost acc0 = acc@;
                            let mut acc = acc;
                            acc.push((rename_key_to.clone(), v));
                            proof {
                                lemma_view_members(acc0);
                                lemma_view_members(acc@);
                                assert(view_members(acc@) =~= view_members(acc0).push(
                                    (acc@[acc0.len() as int].0@, view_json(acc@[acc0.len() as int].1))));
                            }
                            ctx_pairs_exec(rws, r + 1, data, mpath, acc)
                        },
                        Option::None => ctx_pairs_exec(rws, r + 1, data, mpath, acc),
                    }
                }
            },
            DataRewrite::ValueSetter { .. } => ctx_pairs_exec(rws, r + 1, data, mpath, acc),
        }
    }
}

fn find_rep_exec(reps: &Vec<Json>, r: usize, v: &Json) -> (res: Option<usize>)
    ensures
        match res {
            Option::Some(k) => find_rep(view_jsons(reps@), r as nat, view_json(*v)) == Option::Some(k as int)
                && k < reps@.len(),
            Option::None => find_rep(view_jsons(reps@), r as nat, view_json(*v)) is None,
        },
    decreases reps@.len() - r,
{
    proof {
        lemma_view_jsons(reps@);
    }
    if r >= reps.len() {
        Option::None
    } else if json_eq_exec(&reps[r], v) {
        Option::Some(r)
    } else {
        find_rep_exec(reps, r + 1, v)
    }
}

fn maps_eq_exec(a: &Vec<(String, Json)>, b: &Vec<(String, Json)>, i: usize) -> (res: bool)
    requires
        a@.len() <= b@.len(),
    ensures
        res == maps_eq(view_members(a@), view_members(b@), i as nat),
    decreases a@.len() - i,
{
    proof {
        lemma_view_members(a@);
        lemma_view_members(b@);
    }
    if i >= a.len() {
        true
    } else {
        a[i].0 == b[i].0 && json_eq_exec(&a[i].1, &b[i].1) && maps_eq_exec(a, b, i + 1)
    }
}

fn all_named_eq_exec(named: &Vec<Vec<(String, Json)>>, i: usize) -> (res: bool)
    ensures
        res == all_named_eq(view_named_table(named@), i as nat),
    decreases named@.len() - i,
{
    if i >= named.len() {
        true
    } else {
        proof {
            lemma_view_members(named@[0]@);
            lemma_view_members(named@[i as int]@);
        }
        if named[i].len() == named[0].len() && maps_eq_exec(&named[0], &named[i], 0) {
            all_named_eq_exec(named, i + 1)
        } else {
            false
        }
    }
}

fn suffix_map_exec(mp: &Vec<(String, Json)>, e: usize, idx: usize) -> (res: Vec<(String, Json)>)
    ensures
        view_members(res@) == suffix_map(view_members(mp@), e as nat, idx as nat),
    decreases mp@.len() - e,
{
    proof {
        lemma_view_members(mp@);
    }
    if e >= mp.len() {
        let out: Vec<(String, Json)> = Vec::new();
        proof {
            lemma_view_members(out@);
            assert(view_members(out@) =~= Seq::<(Seq<char>, SpecJson)>::empty());
        }
        out
    } else {
        let mut nm = mp[e].0.clone();
        nm.append("_");
        let sfx = fmt_usize(idx);
        nm.append(sfx.as_str());
        let c = clone_json(&mp[e].1);
        let mut head: Vec<(String, Json)> = Vec::new();
        head.push((nm, c));
        proof {
            lemma_view_members(head@);
            assert(view_members(head@) =~= seq![(head@[0].0@, view_json(head@[0].1))]);
        }
        let tail = suffix_map_exec(mp, e + 1, idx);
        member_concat(head, tail)
    }
}

fn suffix_all_exec(named: &Vec<Vec<(String, Json)>>, idx: usize) -> (res: Vec<(String, Json)>)
    ensures
        view_members(res@) == suffix_all(view_named_table(named@), idx as nat),
    decreases named@.len() - idx,
{
    if idx >= named.len() {
        let out: Vec<(String, Json)> = Vec::new();
        proof {
            lemma_view_members(out@);
            assert(view_members(out@) =~= Seq::<(Seq<char>, SpecJson)>::empty());
        }
        out
    } else {
        let head = suffix_map_exec(&named[idx], 0, idx);
        let tail = suffix_all_exec(named, idx + 1);
        member_concat(head, tail)
    }
}

fn names_of_exec(mp: &Vec<(String, Json)>, e: usize) -> (res: Vec<String>)
    ensures
        view_string_list(res@) == names_of(view_members(mp@), e as nat),
    decreases mp@.len() - e,
{
    proof {
        lemma_view_members(mp@);
    }
    if e >= mp.len() {
        let out: Vec<String> = Vec::new();
        proof {
            assert(view_string_list(out@) =~= Seq::<Seq<char>>::empty());
        }
        out
    } else {
        let tail = names_of_exec(mp, e + 1);
        let mut out: Vec<String> = Vec::new();
        out.push(mp[e].0.clone());
        let ghost tv = tail@;
        let mut tail = tail;
        while tail.len() > 0
            invariant
                out@.len() >= 1,
                out@[0]@ == mp@[e as int].0@,
                out@.len() - 1 + tail@.len() == tv.len(),
                forall|k: int| 1 <= k < out@.len() ==> (#[trigger] out@[k])@ == tv[k - 1]@,
                forall|k: int| 0 <= k < tail@.len() ==> #[trigger] tail@[k] == tv[k + out@.len() - 1],
            decreases tail@.len(),
        {
            let el = tail.remove(0);
            out.push(el);
        }
        proof {
            assert(view_string_list(out@) =~= seq![mp@[e as int].0@] + view_string_list(tv));
        }
        out
    }
}

fn pick_vars_exec(usages: &Vec<String>, u: usize, reqvars: &Vec<(String, Json)>) -> (res: Vec<(String, Json)>)
    ensures
        view_members(res@) == pick_vars(view_string_list(usages@), u as nat, view_members(reqvars@)),
    decreases usages@.len() - u,
{
    proof {
        lemma_view_members(reqvars@);
    }
    if u >= usages.len() {
        let out: Vec<(String, Json)> = Vec::new();
        proof {
            lemma_view_members(out@);
            assert(view_members(out@) =~= Seq::<(Seq<char>, SpecJson)>::empty());
        }
        out
    } else {
        let head: Vec<(String, Json)> = match lookup_var(reqvars, &usages[u], 0) {
            Option::Some(v) => {
                let mut out: Vec<(String, Json)> = Vec::new();
                out.push((usages[u].clone(), v));
                proof {
                    lemma_view_members(out@);
                    assert(view_members(out@) =~= seq![(out@[0].0@, view_json(out@[0].1))]);
                }
                out
            },
            Option::None => {
                let out: Vec<(String, Json)> = Vec::new();
                proof {
                    lemma_view_members(out@);
                    assert(view_members(out@) =~= Seq::<(Seq<char>, SpecJson)>::empty());
                }
                out
            },
        };
        let tail = pick_vars_exec(usages, u + 1, reqvars);
        member_concat(head, tail)
    }
}

fn lookup_var(reqvars: &Vec<(String, Json)>, name: &String, i: usize) -> (res: Option<Json>)
    ensures
        match res {
            Option::Some(v) => obj_get_from(view_members(reqvars@), name@, i as nat) == Option::Some(view_json(v)),
            Option::None => obj_get_from(view_members(reqvars@), name@, i as nat) is None,
        },
    decreases reqvars@.len() - i,
{
    proof {
        lemma_view_members(reqvars@);
    }
    if i >= reqvars.len() {
        Option::None
    } else if reqvars[i].0 == *name {
        Option::Some(clone_json(&reqvars[i].1))
    } else {
        lookup_var(reqvars, name, i + 1)
    }
}

fn dedup_exec(
    matches: &Vec<(Path, Json)>,
    i: usize,
    req: &Vec<Selection>,
    irw: &Option<Vec<DataRewrite>>,
    crw: &Vec<DataRewrite>,
    data: &Json,
    reps: Vec<Json>,
    paths: Vec<Vec<Path>>,
    named: Vec<Vec<(String, Json)>>,
) -> (res: (Vec<Json>, Vec<Vec<Path>>, Vec<Vec<(String, Json)>>))
    requires
        reps@.len() == paths@.len(),
        named@.len() >= reps@.len(),
    ensures
        res.0@.len() == res.1@.len(),
        res.2@.len() >= res.0@.len(),
        ({
            let f = dedup_fold(view_matches(matches@), i as nat, view_sels(req@),
                view_rw_opt(*irw), view_rewrites(crw@), view_json(*data),
                view_jsons(reps@), view_path_table(paths@), view_named_table(named@));
            view_jsons(res.0@) == f.0 && view_path_table(res.1@) == f.1 && view_named_table(res.2@) == f.2
        }),
    decreases matches@.len() - i,
{
    proof {
        lemma_view_matches(matches@);
        lemma_view_jsons(reps@);
    }
    if i >= matches.len() {
        (reps, paths, named)
    } else {
        let mval = &matches[i].1;
        let members = eval_list_exec(req, 0, mval);
        proof {
            lemma_view_members(members@);
        }
        if members.len() == 0 {
            dedup_exec(matches, i + 1, req, irw, crw, data, reps, paths, named)
        } else {
            let ctx = ctx_pairs_exec(crw, 0, data, &matches[i].0, Vec::new());
            let rep = apply_rewrites(Json::Obj(members), irw);
            let ghost repv = view_json(rep);
            proof {
                lemma_view_members(Seq::<(String, Json)>::empty());
                assert(view_members(Seq::<(String, Json)>::empty()) =~= Seq::<(Seq<char>, SpecJson)>::empty());
            }
            match find_rep_exec(&reps, 0, &rep) {
                Option::Some(k) => {
                    let ghost paths0 = paths@;
                    let mut paths = paths;
                    let mut entry = paths.remove(k);
                    let ghost entry0 = entry@;
                    entry.push(matches[i].0.clone_path());
                    paths.insert(k, entry);
                    proof {
                        assert(paths@ =~= paths0.update(k as int, paths@[k as int]));
                        assert(view_path_list(paths@[k as int]@) =~= view_path_list(entry0).push(matches@[i as int].0@));
                        assert(view_path_table(paths@) =~= view_path_table(paths0).update(k as int,
                            view_path_table(paths0)[k as int].push(matches@[i as int].0@)));
                    }
                    let ghost named0 = named@;
                    let mut named = named;
                    named.push(ctx);
                    proof {
                        assert(view_named_table(named@) =~= view_named_table(named0).push(
                            view_members(named@[named0.len() as int]@)));
                    }
                    dedup_exec(matches, i + 1, req, irw, crw, data, reps, paths, named)
                },
                Option::None => {
                    let ghost reps0 = reps@;
                    let mut reps = reps;
                    reps.push(rep);
                    proof {
                        lemma_view_jsons(reps@);
                        lemma_view_jsons(reps0);
                        assert(view_jsons(reps@) =~= view_jsons(reps0).push(repv));
                    }
                    let ghost paths0 = paths@;
                    let mut paths = paths;
                    let mut entry: Vec<Path> = Vec::new();
                    entry.push(matches[i].0.clone_path());
                    paths.push(entry);
                    proof {
                        assert(view_path_list(paths@[paths0.len() as int]@) =~= seq![matches@[i as int].0@]);
                        assert(view_path_table(paths@) =~= view_path_table(paths0).push(seq![matches@[i as int].0@]));
                    }
                    let ghost named0 = named@;
                    let mut named = named;
                    named.push(ctx);
                    proof {
                        assert(view_named_table(named@) =~= view_named_table(named0).push(
                            view_members(named@[named0.len() as int]@)));
                    }
                    dedup_exec(matches, i + 1, req, irw, crw, data, reps, paths, named)
                },
            }
        }
    }
}

impl Variables {
    /// Builds the variables for one fetch: for an entity fetch, the
    /// deduplicated `representations` list with its inverted-paths table
    /// and contextual arguments; for a plain fetch, the requested subset
    /// of the request variables, or nothing when the upstream data is
    /// already null.
    pub fn new(
        requires_selection: &Vec<Selection>,
        variable_usages: &Vec<String>,
        data: &Json,
        current_dir: &Path,
        request_variables: &Vec<(String, Json)>,
        input_rewrites: &Option<Vec<DataRewrite>>,
        context_rewrites: &Option<Vec<DataRewrite>>,
    ) -> (res: Option<Variables>)
        ensures
            ({
                let s = spec_build_variables(view_sels(requires_selection@), view_string_list(variable_usages@),
                    view_json(*data), current_dir@, view_members(request_variables@),
                    view_rw_opt(*input_rewrites), view_rw_opt(*context_rewrites));
                match res {
                    Option::Some(v) => s == Option::Some((view_members(v.variables@),
                        view_path_table(v.inverted_paths@),
                        match v.contextual_args {
                            Option::Some((ns, n)) => Option::Some((view_string_list(ns@), n as int)),
                            Option::None => Option::<(Seq<Seq<char>>, int)>::None,
                        })),
                    Option::None => s is None,
                }
            }),
    {
        proof {
            lemma_view_sels(requires_selection@);
        }
        if requires_selection.len() > 0 {
            let empty_path = Path::empty();
            let matches = select_values_and_paths(data, current_dir, 0, &empty_path);
            let crw_list: Vec<DataRewrite> = Vec::new();
            let (reps, paths, named) = match context_rewrites {
                Option::Some(c) => {
                    let r = dedup_exec(&matches, 0, requires_selection, input_rewrites, c, data,
                        Vec::new(), Vec::new(), Vec::new());
                    r
                },
                Option::None => {
                    let r = dedup_exec(&matches, 0, requires_selection, input_rewrites, &crw_list, data,
                        Vec::new(), Vec::new(), Vec::new());
                    r
                },
            };
            proof {
                lemma_view_jsons(reps@);
                lemma_view_jsons(Seq::<Json>::empty());
                assert(view_jsons(Seq::<Json>::empty()) =~= Seq::<SpecJson>::empty());
                assert(view_path_table(Seq::<Vec<Path>>::empty()) =~= Seq::<Seq<Seq<SpecPathElem>>>::empty());
                assert(view_named_table(Seq::<Vec<(String, Json)>>::empty()) =~= Seq::<Seq<(Seq<char>, SpecJson)>>::empty());
                assert(view_rewrites(crw_list@) =~= Seq::<SpecDataRewrite>::empty());
            }
            if reps.len() == 0 {
                Option::None
            } else {
                let same = all_named_eq_exec(&named, 1);
                let mut variables: Vec<(String, Json)> = if same {
                    let mut out: Vec<(String, Json)> = Vec::new();
                    let mut e: usize = 0;
                    proof {
                        lemma_view_members(named@[0]@);
                    }
                    while e < named[0].len()
                        invariant
                            named@.len() > 0,
                            e <= named@[0]@.len(),
                            out@.len() == e,
                            forall|k: int| 0 <= k < e ==> (#[trigger] out@[k]).0@ == named@[0]@[k].0@
                                && view_json(out@[k].1) == view_json(named@[0]@[k].1),
                        decreases named@[0]@.len() - e,
                    {
                        let c = clone_json(&named[0][e].1);
                        out.push((named[0][e].0.clone(), c));
                        e = e + 1;
                    }
                    proof {
                        lemma_view_members(out@);
                        lemma_view_members(named@[0]@);
                        assert(view_members(out@) =~= view_members(named@[0]@));
                    }
                    out
                } else {
                    suffix_all_exec(&named, 0)
                };
                let picked = pick_vars_exec(variable_usages, 0, request_variables);
                variables = member_concat(variables, picked);
                let ghost vars0 = variables@;
                let reps_arr = Json::Arr(reps);
                variables.push((String::from_str("representations"), reps_arr));
                proof {
                    lemma_view_members(variables@);
                    lemma_view_members(vars0);
                    assert(view_members(variables@) =~= view_members(vars0).push(
                        (variables@[vars0.len() as int].0@, view_json(variables@[vars0.len() as int].1))));
                }
                let contextual_args = if same {
                    Option::None
                } else {
                    let ns = names_of_exec(&named[0], 0);
                    Option::Some((ns, named.len()))
                };
                Option::Some(Variables { variables, inverted_paths: paths, contextual_args })
            }
        } else {
            let skip = if current_dir.len() > 0 {
                match data_at_path(data, current_dir, 0) {
                    Option::Some(v) => v.is_null(),
                    Option::None => true,
                }
            } else {
                false
            };
            if skip {
                Option::None
            } else {
                let variables = pick_vars_exec(variable_usages, 0, request_variables);
                proof {
                    assert(view_path_table(Seq::<Vec<Path>>::empty()) =~= Seq::<Seq<Seq<SpecPathElem>>>::empty());
                }
                Option::Some(Variables { variables, inverted_paths: Vec::new(), contextual_args: Option::None })
            }
        }
    }
}

} // verus!
