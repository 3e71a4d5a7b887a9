//! The response-value model: a JSON-like tree with object member order
//! preserved, addressed by response paths (keys, list indices,
//! type-condition guards and flatten markers).

use vstd::prelude::*;
use vstd::string::StringExecFns;

verus! {

/// Mathematical value of a response value.
pub enum SpecJson {
    Null,
    Bool(bool),
    Int(int),
    Text(Seq<char>),
    Arr(Seq<SpecJson>),
    Obj(Seq<(Seq<char>, SpecJson)>),
}

/// A response value.
pub enum Json {
    Null,
    Bool(bool),
    Int(i64),
    Text(String),
    Arr(Vec<Json>),
    Obj(Vec<(String, Json)>),
}

/// One step of a response path.
pub enum PathElem {
    /// A field key of an object.
    Key(String),
    /// An index of a list.
    Index(usize),
    /// A type-condition guard: descend only where `__typename` matches.
    Fragment(String),
    /// A marker standing for every element of a list.
    Flatten,
}

/// Mathematical value of a path step.
pub enum SpecPathElem {
    Key(Seq<char>),
    Index(int),
    Fragment(Seq<char>),
    Flatten,
}

impl View for PathElem {
    type V = SpecPathElem;

    open spec fn view(&self) -> SpecPathElem {
        match self {
            PathElem::Key(k) => SpecPathElem::Key(k@),
            PathElem::Index(i) => SpecPathElem::Index(*i as int),
            PathElem::Fragment(t) => SpecPathElem::Fragment(t@),
            PathElem::Flatten => SpecPathElem::Flatten,
        }
    }
}

/// An ordered sequence of response-tree steps.
pub struct Path {
    pub elements: Vec<PathElem>,
}

pub open spec fn view_path_elems(q: Seq<PathElem>) -> Seq<SpecPathElem> {
    Seq::new(q.len(), |i: int| q[i]@)
}

impl View for Path {
    type V = Seq<SpecPathElem>;

    open spec fn view(&self) -> Seq<SpecPathElem> {
        view_path_elems(self.elements@)
    }
}

pub open spec fn view_json(v: Json) -> SpecJson
    decreases v,
{
    match v {
        Json::Null => SpecJson::Null,
        Json::Bool(b) => SpecJson::Bool(b),
        Json::Int(i) => SpecJson::Int(i as int),
        Json::Text(s) => SpecJson::Text(s@),
        Json::Arr(items) => SpecJson::Arr(view_jsons(items@)),
        Json::Obj(members) => SpecJson::Obj(view_members(members@)),
    }
}

pub open spec fn view_jsons(q: Seq<Json>) -> Seq<SpecJson>
    decreases q,
{
    if q.len() == 0 {
        Seq::empty()
    } else {
        seq![view_json(q[0])] + view_jsons(q.subrange(1, q.len() as int))
    }
}

pub open spec fn view_members(q: Seq<(String, Json)>) -> Seq<(Seq<char>, SpecJson)>
    decreases q,
{
    if q.len() == 0 {
        Seq::empty()
    } else {
        seq![(q[0].0@, view_json(q[0].1))] + view_members(q.subrange(1, q.len() as int))
    }
}

impl View for Json {
    type V = SpecJson;

    open spec fn view(&self) -> SpecJson {
        view_json(*self)
    }
}

pub proof fn lemma_view_jsons(q: Seq<Json>)
    ensures
        view_jsons(q).len() == q.len(),
        forall|i: int| 0 <= i < q.len() ==> view_jsons(q)[i] == view_json(#[trigger] q[i]),
        forall|i: int| 0 <= i < q.len() ==> #[trigger] view_jsons(q)[i] == view_json(q[i]),
    decreases q,
{
    if q.len() > 0 {
        let tail = q.subrange(1, q.len() as int);
        lemma_view_jsons(tail);
        assert forall|i: int| 0 < i < q.len() implies #[trigger] view_jsons(q)[i] == view_jsons(tail)[i - 1] by {}
        assert forall|i: int| 0 < i < q.len() implies tail[i - 1] == q[i] by {}
    }
}

pub proof fn lemma_view_members(q: Seq<(String, Json)>)
    ensures
        view_members(q).len() == q.len(),
        forall|i: int| 0 <= i < q.len() ==> view_members(q)[i] == ((#[trigger] q[i]).0@, view_json(q[i].1)),
        forall|i: int| 0 <= i < q.len() ==> #[trigger] view_members(q)[i] == (q[i].0@, view_json(q[i].1)),
    decreases q,
{
    if q.len() > 0 {
        let tail = q.subrange(1, q.len() as int);
        lemma_view_members(tail);
        assert forall|i: int| 0 < i < q.len() implies #[trigger] view_members(q)[i] == view_members(tail)[i - 1] by {}
        assert forall|i: int| 0 < i < q.len() implies tail[i - 1] == q[i] by {}
    }
}

pub proof fn lemma_view_path_elems(q: Seq<PathElem>)
    ensures
        view_path_elems(q).len() == q.len(),
        forall|i: int| 0 <= i < q.len() ==> #[trigger] view_path_elems(q)[i] == q[i]@,
{
}

/// Structural equality of two response values.
pub open spec fn json_eq(a: SpecJson, b: SpecJson) -> bool
    decreases a, 0int, 0int,
{
    match (a, b) {
        (SpecJson::Null, SpecJson::Null) => true,
        (SpecJson::Bool(x), SpecJson::Bool(y)) => x == y,
        (SpecJson::Int(x), SpecJson::Int(y)) => x == y,
        (SpecJson::Text(x), SpecJson::Text(y)) => x == y,
        (SpecJson::Arr(x), SpecJson::Arr(y)) => x.len() == y.len() && jsons_eq_from(x, y, 0),
        (SpecJson::Obj(x), SpecJson::Obj(y)) => x.len() == y.len() && members_eq_from(x, y, 0),
        _ => false,
    }
}

pub open spec fn jsons_eq_from(x: Seq<SpecJson>, y: Seq<SpecJson>, i: nat) -> bool
    decreases x, 1int, x.len() - i,
{
    i >= x.len() || (json_eq(x[i as int], y[i as int]) && jsons_eq_from(x, y, (i + 1) as nat))
}

pub open spec fn members_eq_from(x: Seq<(Seq<char>, SpecJson)>, y: Seq<(Seq<char>, SpecJson)>, i: nat) -> bool
    decreases x, 1int, x.len() - i,
{
    i >= x.len() || (x[i as int].0 == y[i as int].0 && json_eq(x[i as int].1, y[i as int].1)
        && members_eq_from(x, y, (i + 1) as nat))
}

/// Decides structural equality of two response values.
pub fn json_eq_exec(a: &Json, b: &Json) -> (res: bool)
    ensures
        res == json_eq(view_json(*a), view_json(*b)),
    decreases *a, 0int, 0int,
{
    match (a, b) {
        (Json::Null, Json::Null) => true,
        (Json::Bool(x), Json::Bool(y)) => *x == *y,
        (Json::Int(x), Json::Int(y)) => *x == *y,
        (Json::Text(x), Json::Text(y)) => *x == *y,
        (Json::Arr(x), Json::Arr(y)) => {
            proof {
                lemma_view_jsons(x@);
                lemma_view_jsons(y@);
            }
            x.len() == y.len() && jsons_eq_exec(x, y, 0)
        },
        (Json::Obj(x), Json::Obj(y)) => {
            proof {
                lemma_view_members(x@);
                lemma_view_members(y@);
            }
            x.len() == y.len() && members_eq_exec(x, y, 0)
        },
        _ => false,
    }
}

fn jsons_eq_exec(x: &Vec<Json>, y: &Vec<Json>, i: usize) -> (res: bool)
    requires
        x@.len() == y@.len(),
    ensures
        res == jsons_eq_from(view_jsons(x@), view_jsons(y@), i as nat),
    decreases x@, 1int, x@.len() - i,
{
    proof {
        lemma_view_jsons(x@);
        lemma_view_jsons(y@);
    }
    if i >= x.len() {
        true
    } else {
        json_eq_exec(&x[i], &y[i]) && jsons_eq_exec(x, y, i + 1)
    }
}

fn members_eq_exec(x: &Vec<(String, Json)>, y: &Vec<(String, Json)>, i: usize) -> (res: bool)
    requires
        x@.len() == y@.len(),
    ensures
        res == members_eq_from(view_members(x@), view_members(y@), i as nat),
    decreases x@, 1int, x@.len() - i,
{
    proof {
        lemma_view_members(x@);
        lemma_view_members(y@);
    }
    if i >= x.len() {
        true
    } else {
        x[i].0 == y[i].0 && json_eq_exec(&x[i].1, &y[i].1) && members_eq_exec(x, y, i + 1)
    }
}

/// Structural equality is reflexive.
pub proof fn lemma_json_eq_refl(a: SpecJson)
    ensures
        json_eq(a, a),
    decreases a, 2int, 0int,
{
    match a {
        SpecJson::Arr(x) => {
            lemma_jsons_eq_refl(x, 0);
        },
        SpecJson::Obj(x) => {
            lemma_members_eq_refl(x, 0);
        },
        _ => {},
    }
}

proof fn lemma_jsons_eq_refl(x: Seq<SpecJson>, i: nat)
    ensures
        jsons_eq_from(x, x, i),
    decreases x, 3int, x.len() - i,
{
    if i < x.len() {
        lemma_json_eq_refl(x[i as int]);
        lemma_jsons_eq_refl(x, (i + 1) as nat);
    }
}

proof fn lemma_members_eq_refl(x: Seq<(Seq<char>, SpecJson)>, i: nat)
    ensures
        members_eq_from(x, x, i),
    decreases x, 3int, x.len() - i,
{
    if i < x.len() {
        lemma_json_eq_refl(x[i as int].1);
        lemma_members_eq_refl(x, (i + 1) as nat);
    }
}

/// Structural equality of response values coincides with equality.
pub proof fn lemma_json_eq_is_eq(a: SpecJson, b: SpecJson)
    ensures
        json_eq(a, b) == (a == b),
    decreases a, 2int, 0int,
{
    if json_eq(a, b) {
        match (a, b) {
            (SpecJson::Arr(x), SpecJson::Arr(y)) => {
                lemma_jsons_eq_implies_eq(x, y, 0);
                assert(x =~= y);
            },
            (SpecJson::Obj(x), SpecJson::Obj(y)) => {
                lemma_members_eq_implies_eq(x, y, 0);
                assert(x =~= y);
            },
            _ => {},
        }
    }
    if a == b {
        lemma_json_eq_refl(a);
    }
}

proof fn lemma_jsons_eq_implies_eq(x: Seq<SpecJson>, y: Seq<SpecJson>, i: nat)
    requires
        x.len() == y.len(),
        jsons_eq_from(x, y, i),
    ensures
        forall|k: int| i <= k < x.len() ==> x[k] == #[trigger] y[k],
    decreases x, 3int, x.len() - i,
{
    if i < x.len() {
        lemma_json_eq_is_eq(x[i as int], y[i as int]);
        lemma_jsons_eq_implies_eq(x, y, (i + 1) as nat);
    }
}

proof fn lemma_members_eq_implies_eq(x: Seq<(Seq<char>, SpecJson)>, y: Seq<(Seq<char>, SpecJson)>, i: nat)
    requires
        x.len() == y.len(),
        members_eq_from(x, y, i),
    ensures
        forall|k: int| i <= k < x.len() ==> x[k] == #[trigger] y[k],
    decreases x, 3int, x.len() - i,
{
    if i < x.len() {
        lemma_json_eq_is_eq(x[i as int].1, y[i as int].1);
        lemma_members_eq_implies_eq(x, y, (i + 1) as nat);
    }
}

/// Deep-clones a response value.
pub fn clone_json(v: &Json) -> (r: Json)
    ensures
        view_json(r) == view_json(*v),
    decreases *v, 0int,
{
    match v {
        Json::Null => Json::Null,
        Json::Bool(b) => Json::Bool(*b),
        Json::Int(i) => Json::Int(*i),
        Json::Text(s) => Json::Text(s.clone()),
        Json::Arr(items) => Json::Arr(clone_jsons(items)),
        Json::Obj(members) => Json::Obj(clone_members(members)),
    }
}

/// Deep-clones a list of response values.
pub fn clone_jsons(q: &Vec<Json>) -> (r: Vec<Json>)
    ensures
        view_jsons(r@) == view_jsons(q@),
    decreases q@, 1int,
{
    let mut out: Vec<Json> = Vec::new();
    let mut i: usize = 0;
    while i < q.len()
        invariant
            i <= q@.len(),
            out@.len() == i,
            forall|k: int| 0 <= k < i ==> view_json(#[trigger] out@[k]) == view_json(q@[k]),
        decreases q@.len() - i,
    {
        let c = clone_json(&q[i]);
        out.push(c);
        i = i + 1;
    }
    proof {
        lemma_view_jsons(out@);
        lemma_view_jsons(q@);
        assert(view_jsons(out@) =~= view_jsons(q@));
    }
    out
}

/// Deep-clones the member list of an object value.
pub fn clone_members(q: &Vec<(String, Json)>) -> (r: Vec<(String, Json)>)
    ensures
        view_members(r@) == view_members(q@),
    decreases q@, 1int,
{
    let mut out: Vec<(String, Json)> = Vec::new();
    let mut i: usize = 0;
    while i < q.len()
        invariant
            i <= q@.len(),
            out@.len() == i,
            forall|k: int| 0 <= k < i ==> (#[trigger] out@[k]).0@ == q@[k].0@
                && view_json(out@[k].1) == view_json(q@[k].1),
        decreases q@.len() - i,
    {
        let c = clone_json(&q[i].1);
        let n = q[i].0.clone();
        out.push((n, c));
        i = i + 1;
    }
    proof {
        lemma_view_members(out@);
        lemma_view_members(q@);
        assert(view_members(out@) =~= view_members(q@));
    }
    out
}

/// The value of the first member with the given key, searched from
/// position `i`.
pub open spec fn obj_get_from(m: Seq<(Seq<char>, SpecJson)>, k: Seq<char>, i: nat) -> Option<SpecJson>
    decreases m.len() - i,
{
    if i >= m.len() {
        Option::None
    } else if m[i as int].0 == k {
        Option::Some(m[i as int].1)
    } else {
        obj_get_from(m, k, (i + 1) as nat)
    }
}

/// The member value an object holds for a key, or `None` for any other
/// shape of value.
pub open spec fn spec_get(v: SpecJson, k: Seq<char>) -> Option<SpecJson> {
    match v {
        SpecJson::Obj(m) => obj_get_from(m, k, 0),
        _ => Option::None,
    }
}

fn obj_get_exec<'a>(m: &'a Vec<(String, Json)>, k: &String, i: usize) -> (res: Option<&'a Json>)
    ensures
        match res {
            Option::Some(v) => obj_get_from(view_members(m@), k@, i as nat) == Option::Some(view_json(*v)),
            Option::None => obj_get_from(view_members(m@), k@, i as nat) is None,
        },
    decreases m@.len() - i,
{
    proof {
        lemma_view_members(m@);
    }
    if i >= m.len() {
        Option::None
    } else if m[i].0 == *k {
        Option::Some(&m[i].1)
    } else {
        obj_get_exec(m, k, i + 1)
    }
}

impl Json {
    /// The member value this object holds for a key.
    pub fn get<'a>(&'a self, k: &str) -> (res: Option<&'a Json>)
        ensures
            match res {
                Option::Some(v) => spec_get(self@, k@) == Option::Some(view_json(*v)),
                Option::None => spec_get(self@, k@) is None,
            },
    {
        let ks = String::from_str(k);
        match self {
            Json::Obj(m) => obj_get_exec(m, &ks, 0),
            _ => Option::None,
        }
    }

    /// Whether this value is `null`.
    pub fn is_null(&self) -> (res: bool)
        ensures
            res == (self@ is Null),
    {
        matches!(self, Json::Null)
    }
}

/// Whether an object value carries the given `__typename`.
pub open spec fn spec_typename_is(v: SpecJson, t: Seq<char>) -> bool {
    spec_get(v, "__typename"@) == Option::Some(SpecJson::Text(t))
}

/// Every step from position `j` on is a list index.
pub open spec fn rest_all_indexes(path: Seq<SpecPathElem>, j: nat) -> bool
    decreases path.len() - j,
{
    j >= path.len() || (path[j as int] is Index && rest_all_indexes(path, (j + 1) as nat))
}

/// The value reached by following the path from position `j`, reading
/// keys, list indices and `__typename` guards; `None` when a step cannot
/// be taken.  An index into a value that is not a list, or past its end,
/// reads null, which further index steps keep reading; a key or guard
/// step on null finds nothing.
pub open spec fn spec_data_at(data: SpecJson, path: Seq<SpecPathElem>, j: nat) -> Option<SpecJson>
    decreases data, 0int, path.len() - j,
{
    if j >= path.len() {
        Option::Some(data)
    } else {
        match path[j as int] {
            SpecPathElem::Key(k) => match data {
                SpecJson::Obj(m) => data_at_member(m, 0, k, path, (j + 1) as nat),
                _ => Option::None,
            },
            SpecPathElem::Index(i) => match data {
                SpecJson::Arr(a) => if 0 <= i < a.len() {
                    spec_data_at(a[i], path, (j + 1) as nat)
                } else if rest_all_indexes(path, (j + 1) as nat) {
                    Option::Some(SpecJson::Null)
                } else {
                    Option::None
                },
                _ => if rest_all_indexes(path, (j + 1) as nat) {
                    Option::Some(SpecJson::Null)
                } else {
                    Option::None
                },
            },
            SpecPathElem::Fragment(t) => if spec_typename_is(data, t) {
                spec_data_at(data, path, (j + 1) as nat)
            } else {
                Option::None
            },
            SpecPathElem::Flatten => Option::None,
        }
    }
}

/// Searches the members for the key and follows the rest of the path in
/// the found value.
pub open spec fn data_at_member(m: Seq<(Seq<char>, SpecJson)>, i: nat, k: Seq<char>, path: Seq<SpecPathElem>, j: nat) -> Option<SpecJson>
    decreases m, 1int, m.len() - i,
{
    if i >= m.len() {
        Option::None
    } else if m[i as int].0 == k {
        spec_data_at(m[i as int].1, path, j)
    } else {
        data_at_member(m, (i + 1) as nat, k, path, j)
    }
}

fn rest_all_indexes_exec(path: &Path, j: usize) -> (res: bool)
    ensures
        res == rest_all_indexes(path@, j as nat),
    decreases path@.len() - j,
{
    proof {
        lemma_view_path_elems(path.elements@);
    }
    if j >= path.elements.len() {
        true
    } else {
        matches!(&path.elements[j], PathElem::Index(_)) && rest_all_indexes_exec(path, j + 1)
    }
}

/// Follows a response path in a value, reading keys, list indices and
/// `__typename` guards.
pub fn data_at_path(data: &Json, path: &Path, j: usize) -> (res: Option<Json>)
    ensures
        match res {
            Option::Some(v) => spec_data_at(data@, path@, j as nat) == Option::Some(view_json(v)),
            Option::None => spec_data_at(data@, path@, j as nat) is None,
        },
    decreases *data, 0int, path@.len() - j,
{
    proof {
        lemma_view_path_elems(path.elements@);
    }
    if j >= path.elements.len() {
        Option::Some(clone_json(data))
    } else {
        match &path.elements[j] {
            PathElem::Key(k) => match data {
                Json::Obj(m) => data_at_member_exec(m, 0, k, path, j + 1),
                _ => Option::None,
            },
            PathElem::Index(i) => match data {
                Json::Arr(a) => {
                    proof {
                        lemma_view_jsons(a@);
                    }
                    if *i < a.len() {
                        data_at_path(&a[*i], path, j + 1)
                    } else if rest_all_indexes_exec(path, j + 1) {
                        Option::Some(Json::Null)
                    } else {
                        Option::None
                    }
                },
                _ => {
                    if rest_all_indexes_exec(path, j + 1) {
                        Option::Some(Json::Null)
                    } else {
                        Option::None
                    }
                },
            },
            PathElem::Fragment(t) => {
                if typename_is_exec(data, t) {
                    data_at_path(data, path, j + 1)
                } else {
                    Option::None
                }
            },
            PathElem::Flatten => Option::None,
        }
    }
}

fn data_at_member_exec(m: &Vec<(String, Json)>, i: usize, k: &String, path: &Path, j: usize) -> (res: Option<Json>)
    ensures
        match res {
            Option::Some(v) => data_at_member(view_members(m@), i as nat, k@, path@, j as nat) == Option::Some(view_json(v)),
            Option::None => data_at_member(view_members(m@), i as nat, k@, path@, j as nat) is None,
        },
    decreases m@, 1int, m@.len() - i,
{
    proof {
        lemma_view_members(m@);
    }
    if i >= m.len() {
        Option::None
    } else if m[i].0 == *k {
        data_at_path(&m[i].1, path, j)
    } else {
        data_at_member_exec(m, i + 1, k, path, j)
    }
}

/// Whether a value is an object whose `__typename` is the given text.
pub fn typename_is_exec(v: &Json, t: &String) -> (res: bool)
    ensures
        res == spec_typename_is(v@, t@),
{
    match v.get("__typename") {
        Option::Some(tv) => match tv {
            Json::Text(s) => *s == *t,
            _ => false,
        },
        Option::None => false,
    }
}

/// Equality of two path steps.
pub fn path_elem_eq(a: &PathElem, b: &PathElem) -> (res: bool)
    ensures
        res == (a@ == b@),
{
    match (a, b) {
        (PathElem::Key(x), PathElem::Key(y)) => *x == *y,
        (PathElem::Index(x), PathElem::Index(y)) => *x == *y,
        (PathElem::Fragment(x), PathElem::Fragment(y)) => *x == *y,
        (PathElem::Flatten, PathElem::Flatten) => true,
        _ => false,
    }
}

/// Clones a path step.
pub fn clone_path_elem(e: &PathElem) -> (r: PathElem)
    ensures
        r@ == e@,
{
    match e {
        PathElem::Key(k) => PathElem::Key(k.clone()),
        PathElem::Index(i) => PathElem::Index(*i),
        PathElem::Fragment(t) => PathElem::Fragment(t.clone()),
        PathElem::Flatten => PathElem::Flatten,
    }
}

/// One path is a prefix of the other.
pub open spec fn path_starts_with(a: Seq<SpecPathElem>, b: Seq<SpecPathElem>) -> bool {
    b.len() <= a.len() && forall|i: int| 0 <= i < b.len() ==> a[i] == #[trigger] b[i]
}

impl Path {
    /// The empty path.
    pub fn empty() -> (r: Path)
        ensures
            r@ =~= Seq::<SpecPathElem>::empty(),
    {
        Path { elements: Vec::new() }
    }

    /// The number of steps.
    pub fn len(&self) -> (r: usize)
        ensures
            r == self@.len(),
    {
        proof {
            lemma_view_path_elems(self.elements@);
        }
        self.elements.len()
    }

    /// Whether the path has no steps.
    pub fn is_empty(&self) -> (r: bool)
        ensures
            r == (self@.len() == 0),
    {
        self.len() == 0
    }

    /// A copy of this path.
    pub fn clone_path(&self) -> (r: Path)
        ensures
            r@ =~= self@,
    {
        let mut out: Vec<PathElem> = Vec::new();
        let mut i: usize = 0;
        while i < self.elements.len()
            invariant
                i <= self.elements@.len(),
                out@.len() == i,
                forall|k: int| 0 <= k < i ==> (#[trigger] out@[k])@ == self.elements@[k]@,
            decreases self.elements@.len() - i,
        {
            let c = clone_path_elem(&self.elements[i]);
            out.push(c);
            i = i + 1;
        }
        proof {
            lemma_view_path_elems(out@);
            lemma_view_path_elems(self.elements@);
        }
        Path { elements: out }
    }

    /// A copy of this path with one more step at the end.
    pub fn appended(&self, e: PathElem) -> (r: Path)
        ensures
            r@ =~= self@.push(e@),
    {
        let mut out = self.clone_path();
        let ghost before = out.elements@;
        out.elements.push(e);
        proof {
            lemma_view_path_elems(before);
            lemma_view_path_elems(out.elements@);
        }
        out
    }

    /// Whether this path starts with the other one.
    pub fn starts_with(&self, other: &Path) -> (res: bool)
        ensures
            res == path_starts_with(self@, other@),
    {
        proof {
            lemma_view_path_elems(self.elements@);
            lemma_view_path_elems(other.elements@);
        }
        if other.elements.len() > self.elements.len() {
            return false;
        }
        let mut i: usize = 0;
        while i < other.elements.len()
            invariant
                i <= other.elements@.len(),
                other.elements@.len() <= self.elements@.len(),
                forall|k: int| 0 <= k < i ==> self.elements@[k]@ == (#[trigger] other.elements@[k])@,
            decreases other.elements@.len() - i,
        {
            if !path_elem_eq(&self.elements[i], &other.elements[i]) {
                proof {
                    lemma_view_path_elems(self.elements@);
                    lemma_view_path_elems(other.elements@);
                    assert(self@[i as int] != other@[i as int]);
                }
                return false;
            }
            i = i + 1;
        }
        proof {
            lemma_view_path_elems(self.elements@);
            lemma_view_path_elems(other.elements@);
        }
        true
    }

    /// Whether the last step is a flatten marker.
    pub fn last_is_flatten(&self) -> (res: bool)
        ensures
            res == (self@.len() > 0 && self@.last() is Flatten),
    {
        proof {
            lemma_view_path_elems(self.elements@);
        }
        if self.elements.len() == 0 {
            false
        } else {
            matches!(&self.elements[self.elements.len() - 1], PathElem::Flatten)
        }
    }

    /// A copy of the first `n` steps.
    pub fn prefix(&self, n: usize) -> (r: Path)
        requires
            n <= self@.len(),
        ensures
            r@ =~= self@.subrange(0, n as int),
    {
        proof {
            lemma_view_path_elems(self.elements@);
        }
        let mut out: Vec<PathElem> = Vec::new();
        let mut i: usize = 0;
        while i < n
            invariant
                i <= n,
                n <= self.elements@.len(),
                out@.len() == i,
                forall|k: int| 0 <= k < i ==> (#[trigger] out@[k])@ == self.elements@[k]@,
            decreases n - i,
        {
            let c = clone_path_elem(&self.elements[i]);
            out.push(c);
            i = i + 1;
        }
        proof {
            lemma_view_path_elems(out@);
            lemma_view_path_elems(self.elements@);
        }
        Path { elements: out }
    }

    /// This path followed by the steps of `other` from position `from` on.
    pub fn with_suffix(&self, other: &Path, from: usize) -> (r: Path)
        requires
            from <= other@.len(),
        ensures
            r@ =~= self@ + other@.subrange(from as int, other@.len() as int),
    {
        proof {
            lemma_view_path_elems(self.elements@);
            lemma_view_path_elems(other.elements@);
        }
        let mut out = self.clone_path();
        let ghost base = out.elements@;
        let mut i: usize = from;
        while i < other.elements.len()
            invariant
                from <= i <= other.elements@.len(),
                out.elements@.len() == base.len() + i - from,
                forall|k: int| 0 <= k < base.len() ==> #[trigger] out.elements@[k] == base[k],
                forall|k: int| base.len() <= k < out.elements@.len()
                    ==> (#[trigger] out.elements@[k])@ == other.elements@[k - base.len() + from]@,
            decreases other.elements@.len() - i,
        {
            let c = clone_path_elem(&other.elements[i]);
            out.elements.push(c);
            i = i + 1;
        }
        proof {
            lemma_view_path_elems(out.elements@);
            lemma_view_path_elems(base);
            lemma_view_path_elems(other.elements@);
        }
        out
    }
}

/// A list of `n` nulls, with the inserted value at position `i`.
pub open spec fn arr_with_at(n: nat, i: int, v: SpecJson) -> Seq<SpecJson> {
    Seq::new(n, |m: int| if m == i { v } else { SpecJson::Null })
}

/// The value tree created for a path suffix: objects for keys, padded
/// lists for indices; guards and flatten markers create nothing.
pub open spec fn spec_from_path(path: Seq<SpecPathElem>, j: nat, v: SpecJson) -> SpecJson
    decreases path.len() - j,
{
    if j >= path.len() {
        v
    } else {
        match path[j as int] {
            SpecPathElem::Key(k) => SpecJson::Obj(seq![(k, spec_from_path(path, (j + 1) as nat, v))]),
            SpecPathElem::Index(i) => if i >= 0 {
                SpecJson::Arr(arr_with_at((i + 1) as nat, i, spec_from_path(path, (j + 1) as nat, v)))
            } else {
                spec_from_path(path, (j + 1) as nat, v)
            },
            SpecPathElem::Fragment(_) => spec_from_path(path, (j + 1) as nat, v),
            SpecPathElem::Flatten => spec_from_path(path, (j + 1) as nat, v),
        }
    }
}

/// The tree with `v` grafted at the path: existing objects and lists are
/// descended and extended, other values are overwritten by the created
/// structure.
pub open spec fn spec_insert(data: SpecJson, path: Seq<SpecPathElem>, j: nat, v: SpecJson) -> SpecJson
    decreases data, 0int, path.len() - j,
{
    if j >= path.len() {
        v
    } else {
        match path[j as int] {
            SpecPathElem::Key(k) => match data {
                SpecJson::Obj(m) => SpecJson::Obj(insert_member(m, 0, k, path, (j + 1) as nat, v)),
                _ => spec_from_path(path, j, v),
            },
            SpecPathElem::Index(i) => match data {
                SpecJson::Arr(a) => if 0 <= i < a.len() {
                    SpecJson::Arr(a.update(i, spec_insert(a[i], path, (j + 1) as nat, v)))
                } else if i >= 0 {
                    SpecJson::Arr(Seq::new((i + 1) as nat, |m: int| if m == i {
                        spec_from_path(path, (j + 1) as nat, v)
                    } else if m < a.len() {
                        a[m]
                    } else {
                        SpecJson::Null
                    }))
                } else {
                    data
                },
                _ => spec_from_path(path, j, v),
            },
            SpecPathElem::Fragment(_) => spec_insert(data, path, (j + 1) as nat, v),
            SpecPathElem::Flatten => spec_insert(data, path, (j + 1) as nat, v),
        }
    }
}

/// Grafts into the member with the key, or appends a new member.
pub open spec fn insert_member(m: Seq<(Seq<char>, SpecJson)>, i: nat, k: Seq<char>, path: Seq<SpecPathElem>, j: nat, v: SpecJson) -> Seq<(Seq<char>, SpecJson)>
    decreases m, 1int, m.len() - i,
{
    if i >= m.len() {
        m.push((k, spec_from_path(path, j, v)))
    } else if m[i as int].0 == k {
        m.update(i as int, (k, spec_insert(m[i as int].1, path, j, v)))
    } else {
        insert_member(m, (i + 1) as nat, k, path, j, v)
    }
}

/// Builds the value tree for a path suffix.
pub fn from_path_exec(path: &Path, j: usize, v: Json) -> (r: Json)
    ensures
        view_json(r) == spec_from_path(path@, j as nat, view_json(v)),
    decreases path@.len() - j,
{
    proof {
        lemma_view_path_elems(path.elements@);
    }
    if j >= path.elements.len() {
        v
    } else {
        match &path.elements[j] {
            PathElem::Key(k) => {
                let inner = from_path_exec(path, j + 1, v);
                let mut members: Vec<(String, Json)> = Vec::new();
                members.push((k.clone(), inner));
                proof {
                    lemma_view_members(members@);
                    assert(view_members(members@) =~= seq![(k@, view_json(members@[0].1))]);
                }
                Json::Obj(members)
            },
            PathElem::Index(i) => {
                let inner = from_path_exec(path, j + 1, v);
                let mut items: Vec<Json> = Vec::new();
                let n = *i;
                while items.len() < n
                    invariant
                        items@.len() <= n,
                        forall|m: int| 0 <= m < items@.len() ==> view_json(#[trigger] items@[m]) == SpecJson::Null,
                    decreases n - items@.len(),
                {
                    items.push(Json::Null);
                }
                items.push(inner);
                proof {
                    lemma_view_jsons(items@);
                    assert(view_jsons(items@) =~= arr_with_at((n + 1) as nat, n as int, view_json(items@[n as int])));
                }
                Json::Arr(items)
            },
            PathElem::Fragment(_) => from_path_exec(path, j + 1, v),
            PathElem::Flatten => from_path_exec(path, j + 1, v),
        }
    }
}

/// Grafts `v` into the tree at the path, creating what is missing along
/// the way.
pub fn json_insert_exec(data: &mut Json, path: &Path, j: usize, v: Json)
    ensures
        view_json(*final(data)) == spec_insert(view_json(*old(data)), path@, j as nat, view_json(v)),
    decreases *old(data), 0int, path@.len() - j,
{
    proof {
        lemma_view_path_elems(path.elements@);
    }
    if j >= path.elements.len() {
        *data = v;
    } else {
        let is_obj_key = matches!((&path.elements[j], &*data), (PathElem::Key(_), Json::Obj(_)));
        let is_arr_idx = matches!((&path.elements[j], &*data), (PathElem::Index(_), Json::Arr(_)));
        let is_skip = matches!(&path.elements[j], PathElem::Fragment(_) | PathElem::Flatten);
        if is_skip {
            json_insert_exec(data, path, j + 1, v);
        } else if is_obj_key {
            let mut taken = Json::Null;
            core::mem::swap(data, &mut taken);
            match (&path.elements[j], taken) {
                (PathElem::Key(k), Json::Obj(m)) => {
                    let m2 = insert_member_exec(m, 0, k, path, j + 1, v);
                    *data = Json::Obj(m2);
                },
                (_, t) => {
                    *data = t;
                    proof {
                        assert(false);
                    }
                },
            }
        } else if is_arr_idx {
            let mut taken = Json::Null;
            core::mem::swap(data, &mut taken);
            match (&path.elements[j], taken) {
                (PathElem::Index(iref), Json::Arr(a)) => {
                    let i = *iref;
                    let mut a = a;
                    if i < a.len() {
                        let ghost a0 = a@;
                        let el = a.remove(i);
                        let mut el = el;
                        json_insert_exec(&mut el, path, j + 1, v);
                        a.insert(i, el);
                        proof {
                            lemma_view_jsons(a0);
                            lemma_view_jsons(a@);
                            assert(a@ =~= a0.update(i as int, a@[i as int]));
                            assert(view_jsons(a@) =~= view_jsons(a0).update(i as int, view_json(a@[i as int])));
                        }
                        *data = Json::Arr(a);
                    } else {
                        let inner = from_path_exec(path, j + 1, v);
                        let ghost a0 = a@;
                        while a.len() < i
                            invariant
                                a0.len() <= a@.len() <= i,
                                forall|m: int| 0 <= m < a0.len() ==> #[trigger] a@[m] == a0[m],
                                forall|m: int| a0.len() <= m < a@.len() ==> view_json(#[trigger] a@[m]) == SpecJson::Null,
                            decreases i - a@.len(),
                        {
                            a.push(Json::Null);
                        }
                        a.push(inner);
                        proof {
                            lemma_view_jsons(a@);
                            lemma_view_jsons(a0);
                            assert(view_jsons(a@) =~= Seq::new((i + 1) as nat, |m: int| if m == i as int {
                                spec_from_path(path@, (j + 1) as nat, view_json(v))
                            } else if m < a0.len() {
                                view_jsons(a0)[m]
                            } else {
                                SpecJson::Null
                            }));
                        }
                        *data = Json::Arr(a);
                    }
                },
                (_, t) => {
                    *data = t;
                    proof {
                        assert(false);
                    }
                },
            }
        } else {
            let created = from_path_exec(path, j, v);
            *data = created;
        }
    }
}

fn insert_member_exec(m: Vec<(String, Json)>, i: usize, k: &String, path: &Path, j: usize, v: Json) -> (r: Vec<(String, Json)>)
    requires
        i <= m@.len(),
    ensures
        view_members(r@) == insert_member(view_members(m@), i as nat, k@, path@, j as nat, view_json(v)),
    decreases m@, 1int, m@.len() - i,
{
    proof {
        lemma_view_members(m@);
    }
    let ghost m0 = m@;
    if i >= m.len() {
        let mut m = m;
        let inner = from_path_exec(path, j, v);
        m.push((k.clone(), inner));
        proof {
            lemma_view_members(m@);
            lemma_view_members(m0);
            assert(view_members(m@) =~= view_members(m0).push((k@, view_json(m@[m0.len() as int].1))));
        }
        m
    } else if m[i].0 == *k {
        let mut m = m;
        let (kk, vv) = m.remove(i);
        let mut vv = vv;
        json_insert_exec(&mut vv, path, j, v);
        m.insert(i, (kk, vv));
        proof {
            lemma_view_members(m@);
            lemma_view_members(m0);
            assert(m@ =~= m0.update(i as int, m@[i as int]));
            assert(view_members(m@) =~= view_members(m0).update(i as int, (k@, view_json(m@[i as int].1))));
        }
        m
    } else {
        insert_member_exec(m, i + 1, k, path, j, v)
    }
}

/// View of a list of matched (path, value) pairs.
pub open spec fn view_matches(q: Seq<(Path, Json)>) -> Seq<(Seq<SpecPathElem>, SpecJson)> {
    Seq::new(q.len(), |i: int| (q[i].0@, view_json(q[i].1)))
}

pub proof fn lemma_view_matches(q: Seq<(Path, Json)>)
    ensures
        view_matches(q).len() == q.len(),
        forall|i: int| 0 <= i < q.len() ==> #[trigger] view_matches(q)[i] == (q[i].0@, view_json(q[i].1)),
{
}

/// Every concrete (path, value) pair reached by following the path
/// pattern from position `j` in the value, with `at` the concrete path
/// walked so far.  A flatten marker, and a list at the end of the
/// pattern, stand for every element of the list; a type-condition guard
/// descends only where `__typename` matches; a missing step yields
/// nothing.
pub open spec fn select_vp(data: SpecJson, pattern: Seq<SpecPathElem>, j: nat, at: Seq<SpecPathElem>) -> Seq<(Seq<SpecPathElem>, SpecJson)>
    decreases data, 0int, pattern.len() - j,
{
    if j >= pattern.len() {
        match data {
            SpecJson::Arr(a) => select_each(a, pattern, j, at, 0),
            _ => seq![(at, data)],
        }
    } else {
        match pattern[j as int] {
            SpecPathElem::Key(k) => match data {
                SpecJson::Obj(m) => select_member(m, 0, k, pattern, (j + 1) as nat, at),
                _ => Seq::empty(),
            },
            SpecPathElem::Index(i) => match data {
                SpecJson::Arr(a) => if 0 <= i < a.len() {
                    select_vp(a[i], pattern, (j + 1) as nat, at.push(SpecPathElem::Index(i)))
                } else {
                    Seq::empty()
                },
                _ => Seq::empty(),
            },
            SpecPathElem::Fragment(t) => if spec_typename_is(data, t) {
                select_vp(data, pattern, (j + 1) as nat, at)
            } else {
                Seq::empty()
            },
            SpecPathElem::Flatten => match data {
                SpecJson::Arr(a) => select_each(a, pattern, (j + 1) as nat, at, 0),
                _ => Seq::empty(),
            },
        }
    }
}

/// Walks the member with the key, appending the key to the concrete path.
pub open spec fn select_member(m: Seq<(Seq<char>, SpecJson)>, i: nat, k: Seq<char>, pattern: Seq<SpecPathElem>, j: nat, at: Seq<SpecPathElem>) -> Seq<(Seq<SpecPathElem>, SpecJson)>
    decreases m, 1int, m.len() - i,
{
    if i >= m.len() {
        Seq::empty()
    } else if m[i as int].0 == k {
        select_vp(m[i as int].1, pattern, j, at.push(SpecPathElem::Key(k)))
    } else {
        select_member(m, (i + 1) as nat, k, pattern, j, at)
    }
}

/// Walks every element of a list, appending each index to the path.
pub open spec fn select_each(a: Seq<SpecJson>, pattern: Seq<SpecPathElem>, j: nat, at: Seq<SpecPathElem>, idx: nat) -> Seq<(Seq<SpecPathElem>, SpecJson)>
    decreases a, 1int, a.len() - idx,
{
    if idx >= a.len() {
        Seq::empty()
    } else {
        select_vp(a[idx as int], pattern, j, at.push(SpecPathElem::Index(idx as int)))
            + select_each(a, pattern, j, at, (idx + 1) as nat)
    }
}

/// Appends cloned matches of `src` to `dst`.
fn append_matches(dst: Vec<(Path, Json)>, src: Vec<(Path, Json)>) -> (r: Vec<(Path, Json)>)
    ensures
        view_matches(r@) =~= view_matches(dst@) + view_matches(src@),
{
    let ghost dstv = dst@;
    let ghost srcv = src@;
    let mut dst = dst;
    let mut src = src;
    let mut i: usize = 0;
    while i < src.len()
        invariant
            i <= srcv.len(),
            src@ == srcv,
            dst@.len() == dstv.len() + i,
            forall|k: int| 0 <= k < dstv.len() ==> #[trigger] dst@[k] == dstv[k],
            forall|k: int| dstv.len() <= k < dst@.len() ==> (#[trigger] dst@[k]).0@ == srcv[k - dstv.len()].0@
                && view_json(dst@[k].1) == view_json(srcv[k - dstv.len()].1),
        decreases srcv.len() - i,
    {
        let p = src[i].0.clone_path();
        let v = clone_json(&src[i].1);
        dst.push((p, v));
        i = i + 1;
    }
    proof {
        lemma_view_matches(dst@);
        lemma_view_matches(dstv);
        lemma_view_matches(srcv);
    }
    dst
}

/// Collects every concrete (path, value) pair the path pattern reaches in
/// the value.
pub fn select_values_and_paths(data: &Json, pattern: &Path, j: usize, at: &Path) -> (r: Vec<(Path, Json)>)
    ensures
        view_matches(r@) =~= select_vp(data@, pattern@, j as nat, at@),
    decreases *data, 0int, pattern@.len() - j,
{
    proof {
        lemma_view_path_elems(pattern.elements@);
    }
    if j >= pattern.elements.len() {
        match data {
            Json::Arr(a) => select_each_exec(a, pattern, j, at, 0),
            _ => {
                let mut out: Vec<(Path, Json)> = Vec::new();
                out.push((at.clone_path(), clone_json(data)));
                proof {
                    lemma_view_matches(out@);
                    assert(view_matches(out@) =~= seq![(at@, data@)]);
                }
                out
            },
        }
    } else {
        match &path_elem_at(pattern, j) {
            PathElem::Key(k) => match data {
                Json::Obj(m) => select_member_exec(m, 0, k, pattern, j + 1, at),
                _ => Vec::new(),
            },
            PathElem::Index(i) => match data {
                Json::Arr(a) => {
                    proof {
                        lemma_view_jsons(a@);
                    }
                    if *i < a.len() {
                        let at2 = at.appended(PathElem::Index(*i));
                        select_values_and_paths(&a[*i], pattern, j + 1, &at2)
                    } else {
                        Vec::new()
                    }
                },
                _ => Vec::new(),
            },
            PathElem::Fragment(t) => {
                if typename_is_exec(data, t) {
                    select_values_and_paths(data, pattern, j + 1, at)
                } else {
                    Vec::new()
                }
            },
            PathElem::Flatten => match data {
                Json::Arr(a) => select_each_exec(a, pattern, j + 1, at, 0),
                _ => Vec::new(),
            },
        }
    }
}

/// Clones the pattern element at a position.
pub fn path_elem_at(p: &Path, j: usize) -> (r: PathElem)
    requires
        j < p@.len(),
    ensures
        r@ == p@[j as int],
{
    proof {
        lemma_view_path_elems(p.elements@);
    }
    clone_path_elem(&p.elements[j])
}

fn select_member_exec(m: &Vec<(String, Json)>, i: usize, k: &String, pattern: &Path, j: usize, at: &Path) -> (r: Vec<(Path, Json)>)
    ensures
        view_matches(r@) =~= select_member(view_members(m@), i as nat, k@, pattern@, j as nat, at@),
    decreases m@, 1int, m@.len() - i,
{
    proof {
        lemma_view_members(m@);
    }
    if i >= m.len() {
        Vec::new()
    } else if m[i].0 == *k {
        let at2 = at.appended(PathElem::Key(k.clone()));
        select_values_and_paths(&m[i].1, pattern, j, &at2)
    } else {
        select_member_exec(m, i + 1, k, pattern, j, at)
    }
}

fn select_each_exec(a: &Vec<Json>, pattern: &Path, j: usize, at: &Path, idx: usize) -> (r: Vec<(Path, Json)>)
    ensures
        view_matches(r@) =~= select_each(view_jsons(a@), pattern@, j as nat, at@, idx as nat),
    decreases a@, 1int, a@.len() - idx,
{
    proof {
        lemma_view_jsons(a@);
    }
    if idx >= a.len() {
        Vec::new()
    } else {
        let at2 = at.appended(PathElem::Index(idx));
        let head = select_values_and_paths(&a[idx], pattern, j, &at2);
        let tail = select_each_exec(a, pattern, j, at, idx + 1);
        append_matches(head, tail)
    }
}

} // verus!
