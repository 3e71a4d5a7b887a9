//! Declarative data rewrites applied to response and request value trees:
//! renaming a key at a path, or setting a literal value at a path.
//! Absence of the path is a no-op, never an error.

use vstd::prelude::*;
use crate::json::{Json, SpecJson, Path, SpecPathElem, PathElem, view_json, view_members, view_jsons, lemma_view_members, lemma_view_jsons, lemma_view_path_elems, clone_json, path_elem_at};

verus! {

/// One declarative rewrite of a value tree.
pub enum DataRewrite {
    /// Renames the object member reached by the path to a new key.
    KeyRenamer { path: Path, rename_key_to: String },
    /// Sets the value reached by the path to a literal.
    ValueSetter { path: Path, value: Json },
}

/// Mathematical value of a rewrite.
pub enum SpecDataRewrite {
    KeyRenamer { path: Seq<SpecPathElem>, rename_key_to: Seq<char> },
    ValueSetter { path: Seq<SpecPathElem>, value: SpecJson },
}

impl View for DataRewrite {
    type V = SpecDataRewrite;

    open spec fn view(&self) -> SpecDataRewrite {
        match self {
            DataRewrite::KeyRenamer { path, rename_key_to } =>
                SpecDataRewrite::KeyRenamer { path: path@, rename_key_to: rename_key_to@ },
            DataRewrite::ValueSetter { path, value } =>
                SpecDataRewrite::ValueSetter { path: path@, value: value@ },
        }
    }
}

pub open spec fn view_rewrites(q: Seq<DataRewrite>) -> Seq<SpecDataRewrite> {
    Seq::new(q.len(), |i: int| q[i]@)
}

pub proof fn lemma_view_rewrites(q: Seq<DataRewrite>)
    ensures
        view_rewrites(q).len() == q.len(),
        forall|i: int| 0 <= i < q.len() ==> #[trigger] view_rewrites(q)[i] == q[i]@,
{
}

/// The member list with the first member named `k` renamed to `to`.
pub open spec fn rename_member(m: Seq<(Seq<char>, SpecJson)>, i: nat, k: Seq<char>, to: Seq<char>) -> Seq<(Seq<char>, SpecJson)>
    decreases m.len() - i,
{
    if i >= m.len() {
        m
    } else if m[i as int].0 == k {
        m.update(i as int, (to, m[i as int].1))
    } else {
        rename_member(m, (i + 1) as nat, k, to)
    }
}

/// The tree with the object member at the path renamed to `to`; a path
/// that cannot be followed leaves the tree unchanged.
pub open spec fn spec_rename_at(data: SpecJson, path: Seq<SpecPathElem>, j: nat, to: Seq<char>) -> SpecJson
    decreases data, 0int, path.len() - j,
{
    if j >= path.len() {
        data
    } else if j + 1 == path.len() {
        match (path[j as int], data) {
            (SpecPathElem::Key(k), SpecJson::Obj(m)) => SpecJson::Obj(rename_member(m, 0, k, to)),
            _ => data,
        }
    } else {
        match path[j as int] {
            SpecPathElem::Key(k) => match data {
                SpecJson::Obj(m) => SpecJson::Obj(rename_walk_member(m, 0, k, path, (j + 1) as nat, to)),
                _ => data,
            },
            SpecPathElem::Index(i) => match data {
                SpecJson::Arr(a) => if 0 <= i < a.len() {
                    SpecJson::Arr(a.update(i, spec_rename_at(a[i], path, (j + 1) as nat, to)))
                } else {
                    data
                },
                _ => data,
            },
            SpecPathElem::Fragment(t) => if crate::json::spec_typename_is(data, t) {
                spec_rename_at(data, path, (j + 1) as nat, to)
            } else {
                data
            },
            SpecPathElem::Flatten => match data {
                SpecJson::Arr(a) => SpecJson::Arr(rename_each(a, path, (j + 1) as nat, to)),
                _ => data,
            },
        }
    }
}

pub open spec fn rename_walk_member(m: Seq<(Seq<char>, SpecJson)>, i: nat, k: Seq<char>, path: Seq<SpecPathElem>, j: nat, to: Seq<char>) -> Seq<(Seq<char>, SpecJson)>
    decreases m, 1int, m.len() - i,
{
    if i >= m.len() {
        m
    } else if m[i as int].0 == k {
        m.update(i as int, (k, spec_rename_at(m[i as int].1, path, j, to)))
    } else {
        rename_walk_member(m, (i + 1) as nat, k, path, j, to)
    }
}

pub open spec fn rename_each(a: Seq<SpecJson>, path: Seq<SpecPathElem>, j: nat, to: Seq<char>) -> Seq<SpecJson>
    decreases a, 1int, 0int,
{
    if a.len() == 0 {
        Seq::empty()
    } else {
        seq![spec_rename_at(a[0], path, j, to)] + rename_each(a.subrange(1, a.len() as int), path, j, to)
    }
}

/// The tree with the value at the path replaced by `v`; a path that
/// cannot be followed leaves the tree unchanged.
pub open spec fn spec_set_at(data: SpecJson, path: Seq<SpecPathElem>, j: nat, v: SpecJson) -> SpecJson
    decreases data, 0int, path.len() - j,
{
    if j >= path.len() {
        v
    } else {
        match path[j as int] {
            SpecPathElem::Key(k) => match data {
                SpecJson::Obj(m) => SpecJson::Obj(set_walk_member(m, 0, k, path, (j + 1) as nat, v)),
                _ => data,
            },
            SpecPathElem::Index(i) => match data {
                SpecJson::Arr(a) => if 0 <= i < a.len() {
                    SpecJson::Arr(a.update(i, spec_set_at(a[i], path, (j + 1) as nat, v)))
                } else {
                    data
                },
                _ => data,
            },
            SpecPathElem::Fragment(t) => if crate::json::spec_typename_is(data, t) {
                spec_set_at(data, path, (j + 1) as nat, v)
            } else {
                data
            },
            SpecPathElem::Flatten => match data {
                SpecJson::Arr(a) => SpecJson::Arr(set_each(a, path, (j + 1) as nat, v)),
                _ => data,
            },
        }
    }
}

pub open spec fn set_walk_member(m: Seq<(Seq<char>, SpecJson)>, i: nat, k: Seq<char>, path: Seq<SpecPathElem>, j: nat, v: SpecJson) -> Seq<(Seq<char>, SpecJson)>
    decreases m, 1int, m.len() - i,
{
    if i >= m.len() {
        m
    } else if m[i as int].0 == k {
        m.update(i as int, (k, spec_set_at(m[i as int].1, path, j, v)))
    } else {
        set_walk_member(m, (i + 1) as nat, k, path, j, v)
    }
}

pub open spec fn set_each(a: Seq<SpecJson>, path: Seq<SpecPathElem>, j: nat, v: SpecJson) -> Seq<SpecJson>
    decreases a, 1int, 0int,
{
    if a.len() == 0 {
        Seq::empty()
    } else {
        seq![spec_set_at(a[0], path, j, v)] + set_each(a.subrange(1, a.len() as int), path, j, v)
    }
}

/// The tree after one rewrite.
pub open spec fn spec_apply_one(data: SpecJson, rw: SpecDataRewrite) -> SpecJson {
    match rw {
        SpecDataRewrite::KeyRenamer { path, rename_key_to } => spec_rename_at(data, path, 0, rename_key_to),
        SpecDataRewrite::ValueSetter { path, value } => spec_set_at(data, path, 0, value),
    }
}

/// The tree after the rewrites from position `i` on, applied in order.
pub open spec fn spec_apply_rewrites(data: SpecJson, rws: Seq<SpecDataRewrite>, i: nat) -> SpecJson
    decreases rws.len() - i,
{
    if i >= rws.len() {
        data
    } else {
        spec_apply_rewrites(spec_apply_one(data, rws[i as int]), rws, (i + 1) as nat)
    }
}

fn rename_member_exec(m: Vec<(String, Json)>, i: usize, k: &String, to: &String) -> (r: Vec<(String, Json)>)
    requires
        i <= m@.len(),
    ensures
        view_members(r@) == rename_member(view_members(m@), i as nat, k@, to@),
    decreases m@.len() - i,
{
    proof {
        lemma_view_members(m@);
    }
    let ghost m0 = m@;
    if i >= m.len() {
        m
    } else if m[i].0 == *k {
        let mut m = m;
        let (_, vv) = m.remove(i);
        m.insert(i, (to.clone(), vv));
        proof {
            lemma_view_members(m@);
            lemma_view_members(m0);
            assert(m@ =~= m0.update(i as int, m@[i as int]));
            assert(view_members(m@) =~= view_members(m0).update(i as int, (to@, view_json(m@[i as int].1))));
        }
        m
    } else {
        rename_member_exec(m, i + 1, k, to)
    }
}

/// A list with `head` followed by the elements of `tail`.
fn json_prepend(head: Json, tail: Vec<Json>) -> (r: Vec<Json>)
    ensures
        view_jsons(r@) =~= seq![view_json(head)] + view_jsons(tail@),
{
    let ghost hv = view_json(head);
    let ghost tv = tail@;
    let mut out: Vec<Json> = Vec::new();
    out.push(head);
    let mut tail = tail;
    while tail.len() > 0
        invariant
            out@.len() >= 1,
            view_json(out@[0]) == hv,
            out@.len() - 1 + tail@.len() == tv.len(),
            forall|k: int| 1 <= k < out@.len() ==> view_json(#[trigger] out@[k]) == view_json(tv[k - 1]),
            forall|k: int| 0 <= k < tail@.len() ==> view_json(#[trigger] tail@[k]) == view_json(tv[k + out@.len() - 1]),
        decreases tail@.len(),
    {
        let el = tail.remove(0);
        out.push(el);
    }
    proof {
        lemma_view_jsons(out@);
        lemma_view_jsons(tv);
    }
    out
}

/// The tree with the object member at the path renamed.
pub fn rename_at_own(data: Json, path: &Path, j: usize, to: &String) -> (r: Json)
    ensures
        view_json(r) == spec_rename_at(view_json(data), path@, j as nat, to@),
    decreases data, 0int, path@.len() - j,
{
    proof {
        lemma_view_path_elems(path.elements@);
    }
    if j >= path.elements.len() {
        data
    } else if j + 1 == path.elements.len() {
        match &path.elements[j] {
            PathElem::Key(k) => match data {
                Json::Obj(m) => Json::Obj(rename_member_exec(m, 0, k, to)),
                d => d,
            },
            _ => data,
        }
    } else {
        match &path.elements[j] {
            PathElem::Key(k) => match data {
                Json::Obj(m) => Json::Obj(rename_walk_member_own(m, 0, k, path, j + 1, to)),
                d => d,
            },
            PathElem::Index(iref) => match data {
                Json::Arr(a) => {
                    let i = *iref;
                    let mut a = a;
                    if i < a.len() {
                        let ghost a0 = a@;
                        let el = a.remove(i);
                        let el2 = rename_at_own(el, path, j + 1, to);
                        a.insert(i, el2);
                        proof {
                            lemma_view_jsons(a0);
                            lemma_view_jsons(a@);
                            assert(a@ =~= a0.update(i as int, a@[i as int]));
                            assert(view_jsons(a@) =~= view_jsons(a0).update(i as int, view_json(a@[i as int])));
                        }
                    } else {
                        proof {
                            lemma_view_jsons(a@);
                        }
                    }
                    Json::Arr(a)
                },
                d => d,
            },
            PathElem::Fragment(t) => {
                if crate::json::typename_is_exec(&data, t) {
                    rename_at_own(data, path, j + 1, to)
                } else {
                    data
                }
            },
            PathElem::Flatten => match data {
                Json::Arr(a) => {
                    let ghost d0 = SpecJson::Arr(view_jsons(a@));
                    let r3 = Json::Arr(rename_each_own(a, path, j + 1, to));
                    proof {
                        assert(view_json(r3) == spec_rename_at(d0, path@, j as nat, to@));
                    }
                    r3
                },
                d => d,
            },
        }
    }
}

fn rename_walk_member_own(m: Vec<(String, Json)>, i: usize, k: &String, path: &Path, j: usize, to: &String) -> (r: Vec<(String, Json)>)
    requires
        i <= m@.len(),
    ensures
        view_members(r@) == rename_walk_member(view_members(m@), i as nat, k@, path@, j as nat, to@),
    decreases m@, 1int, m@.len() - i,
{
    proof {
        lemma_view_members(m@);
    }
    let ghost m0 = m@;
    if i >= m.len() {
        m
    } else if m[i].0 == *k {
        let mut m = m;
        let (kk, vv) = m.remove(i);
        let vv2 = rename_at_own(vv, path, j, to);
        m.insert(i, (kk, vv2));
        proof {
            lemma_view_members(m@);
            lemma_view_members(m0);
            assert(m@ =~= m0.update(i as int, m@[i as int]));
            assert(view_members(m@) =~= view_members(m0).update(i as int, (k@, view_json(m@[i as int].1))));
        }
        m
    } else {
        rename_walk_member_own(m, i + 1, k, path, j, to)
    }
}

fn rename_each_own(a: Vec<Json>, path: &Path, j: usize, to: &String) -> (r: Vec<Json>)
    ensures
        view_jsons(r@) == rename_each(view_jsons(a@), path@, j as nat, to@),
    decreases a@, 1int, 0int,
{
    proof {
        lemma_view_jsons(a@);
    }
    let ghost a0 = a@;
    if a.len() == 0 {
        a
    } else {
        let mut a = a;
        let el = a.remove(0);
        let el2 = rename_at_own(el, path, j, to);
        let rest = rename_each_own(a, path, j, to);
        proof {
            lemma_view_jsons(a0);
            assert(view_jsons(a0.subrange(1, a0.len() as int)) =~= view_jsons(a0).subrange(1, a0.len() as int)) by {
                lemma_view_jsons(a0.subrange(1, a0.len() as int));
            }
        }
        json_prepend(el2, rest)
    }
}

/// The tree with the value at the path replaced.
pub fn set_at_own(data: Json, path: &Path, j: usize, v: &Json) -> (r: Json)
    ensures
        view_json(r) == spec_set_at(view_json(data), path@, j as nat, view_json(*v)),
    decreases data, 0int, path@.len() - j,
{
    proof {
        lemma_view_path_elems(path.elements@);
    }
    if j >= path.elements.len() {
        clone_json(v)
    } else {
        match &path.elements[j] {
            PathElem::Key(k) => match data {
                Json::Obj(m) => Json::Obj(set_walk_member_own(m, 0, k, path, j + 1, v)),
                d => d,
            },
            PathElem::Index(iref) => match data {
                Json::Arr(a) => {
                    let i = *iref;
                    let mut a = a;
                    if i < a.len() {
                        let ghost a0 = a@;
                        let el = a.remove(i);
                        let el2 = set_at_own(el, path, j + 1, v);
                        a.insert(i, el2);
                        proof {
                            lemma_view_jsons(a0);
                            lemma_view_jsons(a@);
                            assert(a@ =~= a0.update(i as int, a@[i as int]));
                            assert(view_jsons(a@) =~= view_jsons(a0).update(i as int, view_json(a@[i as int])));
                        }
                    } else {
                        proof {
                            lemma_view_jsons(a@);
                        }
                    }
                    Json::Arr(a)
                },
                d => d,
            },
            PathElem::Fragment(t) => {
                if crate::json::typename_is_exec(&data, t) {
                    set_at_own(data, path, j + 1, v)
                } else {
                    data
                }
            },
            PathElem::Flatten => match data {
                Json::Arr(a) => Json::Arr(set_each_own(a, path, j + 1, v)),
                d => d,
            },
        }
    }
}

fn set_walk_member_own(m: Vec<(String, Json)>, i: usize, k: &String, path: &Path, j: usize, v: &Json) -> (r: Vec<(String, Json)>)
    requires
        i <= m@.len(),
    ensures
        view_members(r@) == set_walk_member(view_members(m@), i as nat, k@, path@, j as nat, view_json(*v)),
    decreases m@, 1int, m@.len() - i,
{
    proof {
        lemma_view_members(m@);
    }
    let ghost m0 = m@;
    if i >= m.len() {
        m
    } else if m[i].0 == *k {
        let mut m = m;
        let (kk, vv) = m.remove(i);
        let vv2 = set_at_own(vv, path, j, v);
        m.insert(i, (kk, vv2));
        proof {
            lemma_view_members(m@);
            lemma_view_members(m0);
            assert(m@ =~= m0.update(i as int, m@[i as int]));
            assert(view_members(m@) =~= view_members(m0).update(i as int, (k@, view_json(m@[i as int].1))));
        }
        m
    } else {
        set_walk_member_own(m, i + 1, k, path, j, v)
    }
}

fn set_each_own(a: Vec<Json>, path: &Path, j: usize, v: &Json) -> (r: Vec<Json>)
    ensures
        view_jsons(r@) == set_each(view_jsons(a@), path@, j as nat, view_json(*v)),
    decreases a@, 1int, 0int,
{
    proof {
        lemma_view_jsons(a@);
    }
    let ghost a0 = a@;
    if a.len() == 0 {
        a
    } else {
        let mut a = a;
        let el = a.remove(0);
        let el2 = set_at_own(el, path, j, v);
        let rest = set_each_own(a, path, j, v);
        proof {
            lemma_view_jsons(a0);
            assert(view_jsons(a0.subrange(1, a0.len() as int)) =~= view_jsons(a0).subrange(1, a0.len() as int)) by {
                lemma_view_jsons(a0.subrange(1, a0.len() as int));
            }
        }
        json_prepend(el2, rest)
    }
}

/// Applies one rewrite to a value tree.
pub fn apply_single_rewrite(data: Json, rw: &DataRewrite) -> (r: Json)
    ensures
        view_json(r) == spec_apply_one(view_json(data), rw@),
{
    match rw {
        DataRewrite::KeyRenamer { path, rename_key_to } => rename_at_own(data, path, 0, rename_key_to),
        DataRewrite::ValueSetter { path, value } => set_at_own(data, path, 0, value),
    }
}

/// Applies a list of rewrites in order; `None` stands for no rewrites.
pub fn apply_rewrites(data: Json, rewrites: &Option<Vec<DataRewrite>>) -> (r: Json)
    ensures
        view_json(r) == match rewrites {
            Option::Some(rws) => spec_apply_rewrites(view_json(data), view_rewrites(rws@), 0),
            Option::None => view_json(data),
        },
{
    match rewrites {
        Option::Some(rws) => {
            proof {
                lemma_view_rewrites(rws@);
            }
            let ghost d0 = view_json(data);
            let mut cur = data;
            let mut i: usize = 0;
            while i < rws.len()
                invariant
                    i <= rws@.len(),
                    forall|k: int| 0 <= k < rws@.len() ==> #[trigger] view_rewrites(rws@)[k] == rws@[k]@,
                    view_rewrites(rws@).len() == rws@.len(),
                    spec_apply_rewrites(view_json(cur), view_rewrites(rws@), i as nat)
                        == spec_apply_rewrites(d0, view_rewrites(rws@), 0),
                decreases rws@.len() - i,
            {
                cur = apply_single_rewrite(cur, &rws[i]);
                i = i + 1;
            }
            cur
        },
        Option::None => data,
    }
}

} // verus!
