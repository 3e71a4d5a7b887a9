//! Re-threading a subgraph response into the caller's response tree:
//! relocating entity errors to the caller paths recorded for each
//! representation index, fanning each entity value out to its paths, and
//! grafting plain responses at the current path.

use vstd::prelude::*;
use vstd::string::StringExecFns;
use crate::json::{Json, SpecJson, Path, SpecPathElem, PathElem, view_json, view_jsons, view_members, lemma_view_jsons, lemma_view_members, lemma_view_path_elems, clone_json, spec_get, spec_insert, json_insert_exec, spec_from_path, from_path_exec, path_starts_with};
use crate::rewrites::{DataRewrite, spec_apply_rewrites, apply_rewrites, view_rewrites};
use crate::representations::{view_path_list, view_path_table, view_rw_opt};

verus! {

/// One GraphQL error carried in a response.
pub struct GraphqlError {
    pub message: String,
    /// Source positions in the subgraph's own operation text.
    pub locations: Vec<(u64, u64)>,
    /// The response path the error applies to.
    pub path: Option<Path>,
    pub extensions: Json,
}

/// Mathematical value of a GraphQL error.
pub struct SpecError {
    pub message: Seq<char>,
    pub locations: Seq<(int, int)>,
    pub path: Option<Seq<SpecPathElem>>,
    pub extensions: SpecJson,
}

pub open spec fn view_locations(q: Seq<(u64, u64)>) -> Seq<(int, int)> {
    Seq::new(q.len(), |i: int| (q[i].0 as int, q[i].1 as int))
}

impl View for GraphqlError {
    type V = SpecError;

    open spec fn view(&self) -> SpecError {
        SpecError {
            message: self.message@,
            locations: view_locations(self.locations@),
            path: match self.path {
                Option::Some(p) => Option::Some(p@),
                Option::None => Option::None,
            },
            extensions: self.extensions@,
        }
    }
}

pub open spec fn view_errors(q: Seq<GraphqlError>) -> Seq<SpecError> {
    Seq::new(q.len(), |i: int| q[i]@)
}

pub proof fn lemma_view_errors(q: Seq<GraphqlError>)
    ensures
        view_errors(q).len() == q.len(),
        forall|i: int| 0 <= i < q.len() ==> #[trigger] view_errors(q)[i] == q[i]@,
{
}

/// A subgraph response: optional data and a list of errors.
pub struct Response {
    pub data: Option<Json>,
    pub errors: Vec<GraphqlError>,
}

/// The extension members of a transport-failure error: the error code,
/// the subgraph name, the reason, and the HTTP status code when known.
pub open spec fn spec_http_error_extensions(service: Seq<char>, reason: Seq<char>, status: Option<int>) -> Seq<(Seq<char>, SpecJson)> {
    seq![
        ("code"@, SpecJson::Text("SUBREQUEST_HTTP_ERROR"@)),
        ("service"@, SpecJson::Text(service)),
        ("reason"@, SpecJson::Text(reason)),
    ] + match status {
        Option::Some(c) => seq![("statusCode"@, SpecJson::Int(c))],
        Option::None => Seq::<(Seq<char>, SpecJson)>::empty(),
    }
}

/// The error a fetch reports when the transport failed to reach the
/// subgraph: attributed at the caller path, source locations empty, with
/// the subgraph name, the reason, and the status code (when one is
/// known) in the extensions.
pub fn subrequest_http_error(service: &String, reason: &String, status_code: Option<u16>, current_dir: &Path) -> (r: GraphqlError)
    ensures
        r@.message == "HTTP fetch failed from '"@ + service@ + "': "@ + reason@,
        r@.locations =~= Seq::<(int, int)>::empty(),
        r@.path == Option::Some(current_dir@),
        r@.extensions == SpecJson::Obj(spec_http_error_extensions(service@, reason@, match status_code {
            Option::Some(c) => Option::Some(c as int),
            Option::None => Option::None,
        })),
{
    let mut message = String::from_str("HTTP fetch failed from '");
    message.append(service.as_str());
    message.append("': ");
    message.append(reason.as_str());
    let mut members: Vec<(String, Json)> = Vec::new();
    members.push((String::from_str("code"), Json::Text(String::from_str("SUBREQUEST_HTTP_ERROR"))));
    members.push((String::from_str("service"), Json::Text(service.clone())));
    members.push((String::from_str("reason"), Json::Text(reason.clone())));
    match status_code {
        Option::Some(c) => {
            members.push((String::from_str("statusCode"), Json::Int(c as i64)));
        },
        Option::None => {},
    }
    proof {
        lemma_view_members(members@);
        assert(view_members(members@) =~= spec_http_error_extensions(service@, reason@, match status_code {
            Option::Some(c) => Option::Some(c as int),
            Option::None => Option::None,
        }));
        assert(view_locations(Seq::<(u64, u64)>::empty()) =~= Seq::<(int, int)>::empty());
    }
    GraphqlError {
        message,
        locations: Vec::new(),
        path: Option::Some(current_dir.clone_path()),
        extensions: Json::Obj(members),
    }
}

/// The error a fetch reports when the subgraph answered with an
/// incremental payload where a primary response was expected: attributed
/// at the caller path, naming the offending subgraph.
pub fn subrequest_unexpected_patch_error(service: &String, current_dir: &Path) -> (r: GraphqlError)
    ensures
        r@.message == "subgraph '"@ + service@ + "' returned an unexpected patch response"@,
        r@.locations =~= Seq::<(int, int)>::empty(),
        r@.path == Option::Some(current_dir@),
        r@.extensions == SpecJson::Obj(seq![
            ("code"@, SpecJson::Text("SUBREQUEST_UNEXPECTED_PATCH_RESPONSE"@)),
            ("service"@, SpecJson::Text(service@)),
        ]),
{
    let mut message = String::from_str("subgraph '");
    message.append(service.as_str());
    message.append("' returned an unexpected patch response");
    let mut members: Vec<(String, Json)> = Vec::new();
    members.push((String::from_str("code"), Json::Text(String::from_str("SUBREQUEST_UNEXPECTED_PATCH_RESPONSE"))));
    members.push((String::from_str("service"), Json::Text(service.clone())));
    proof {
        lemma_view_members(members@);
        assert(view_members(members@) =~= seq![
            ("code"@, SpecJson::Text("SUBREQUEST_UNEXPECTED_PATCH_RESPONSE"@)),
            ("service"@, SpecJson::Text(service@)),
        ]);
        assert(view_locations(Seq::<(u64, u64)>::empty()) =~= Seq::<(int, int)>::empty());
    }
    GraphqlError {
        message,
        locations: Vec::new(),
        path: Option::Some(current_dir.clone_path()),
        extensions: Json::Obj(members),
    }
}

/// The path of an error on an entity fetch: `_entities`, then the
/// representation index, then the rest.
pub open spec fn entities_error_index(p: Seq<SpecPathElem>) -> Option<int> {
    if p.len() >= 1 && p[0] == SpecPathElem::Key("_entities"@) {
        if p.len() >= 2 {
            match p[1] {
                SpecPathElem::Index(i) => Option::Some(i),
                _ => Option::None,
            }
        } else {
            Option::None
        }
    } else {
        Option::None
    }
}

/// The errors produced for one index-addressed entity error: one copy per
/// caller path recorded for the index, each at that path extended with
/// the error's remaining steps, with source locations cleared.
pub open spec fn fanned_errors(e: SpecError, p: Seq<SpecPathElem>, plist: Seq<Seq<SpecPathElem>>, k: nat) -> Seq<SpecError>
    decreases plist.len() - k,
{
    if k >= plist.len() {
        Seq::empty()
    } else {
        seq![SpecError {
            message: e.message,
            locations: Seq::empty(),
            path: Option::Some(plist[k as int] + p.skip(2)),
            extensions: e.extensions,
        }] + fanned_errors(e, p, plist, (k + 1) as nat)
    }
}

/// Relocation of one entity-fetch error: an `_entities/<i>/...` error is
/// fanned out to every caller path recorded for index `i`; any other
/// error -- with an unrecognized path or with no path at all -- is
/// attributed to the current path directly; subgraph source locations
/// are always discarded.
pub open spec fn relocate_one(e: SpecError, ipaths: Seq<Seq<Seq<SpecPathElem>>>, cur: Seq<SpecPathElem>) -> Seq<SpecError> {
    match e.path {
        Option::Some(p) => {
            if p.len() >= 1 && p[0] == SpecPathElem::Key("_entities"@) {
                match entities_error_index(p) {
                    Option::Some(i) => if 0 <= i < ipaths.len() {
                        fanned_errors(e, p, ipaths[i], 0)
                    } else {
                        Seq::empty()
                    },
                    Option::None => seq![SpecError {
                        message: e.message,
                        locations: Seq::empty(),
                        path: Option::Some(cur),
                        extensions: e.extensions,
                    }],
                }
            } else {
                seq![SpecError {
                    message: e.message,
                    locations: Seq::empty(),
                    path: Option::Some(cur),
                    extensions: e.extensions,
                }]
            }
        },
        Option::None => seq![SpecError {
            message: e.message,
            locations: Seq::empty(),
            path: Option::Some(cur),
            extensions: e.extensions,
        }],
    }
}

/// Relocation of all errors of an entity fetch, in order.
pub open spec fn relocate_errors(errs: Seq<SpecError>, e: nat, ipaths: Seq<Seq<Seq<SpecPathElem>>>, cur: Seq<SpecPathElem>) -> Seq<SpecError>
    decreases errs.len() - e,
{
    if e >= errs.len() {
        Seq::empty()
    } else {
        relocate_one(errs[e as int], ipaths, cur) + relocate_errors(errs, (e + 1) as nat, ipaths, cur)
    }
}

/// Error relocation: an `_entities/<i>/x` error is relocated to one copy
/// per caller path recorded for index `i`, each with the caller path
/// extended by `x` and its source locations cleared, keeping the message
/// and extensions.
pub proof fn lemma_error_relocation(e: SpecError, p: Seq<SpecPathElem>, ipaths: Seq<Seq<Seq<SpecPathElem>>>, cur: Seq<SpecPathElem>)
    requires
        e.path == Option::Some(p),
        p.len() >= 2,
        p[0] == SpecPathElem::Key("_entities"@),
        p[1] is Index,
        0 <= p[1]->Index_0 < ipaths.len(),
    ensures
        ({
            let out = relocate_one(e, ipaths, cur);
            let plist = ipaths[p[1]->Index_0];
            &&& out.len() == plist.len()
            &&& forall|k: int| 0 <= k < plist.len() ==> (#[trigger] out[k]).path == Option::Some(plist[k] + p.skip(2))
                && out[k].locations =~= Seq::<(int, int)>::empty()
                && out[k].message == e.message
                && out[k].extensions == e.extensions
        }),
{
    let plist = ipaths[p[1]->Index_0];
    lemma_fanned(e, p, plist, 0);
}

/// Relocating a whole error list is relocating each error in order: the
/// relocated list splits, at any position, into the copies of the error
/// there followed by the relocation of the rest.
pub proof fn lemma_relocate_errors_decompose(errs: Seq<SpecError>, e: nat, ipaths: Seq<Seq<Seq<SpecPathElem>>>, cur: Seq<SpecPathElem>)
    requires
        e < errs.len(),
    ensures
        relocate_errors(errs, e, ipaths, cur)
            =~= relocate_one(errs[e as int], ipaths, cur) + relocate_errors(errs, (e + 1) as nat, ipaths, cur),
{
}

proof fn lemma_fanned(e: SpecError, p: Seq<SpecPathElem>, plist: Seq<Seq<SpecPathElem>>, k: nat)
    ensures
        ({
            let out = fanned_errors(e, p, plist, k);
            &&& out.len() == if k <= plist.len() { plist.len() - k } else { 0 }
            &&& forall|m: int| 0 <= m < out.len() ==> (#[trigger] out[m]).path == Option::Some(plist[m + k] + p.skip(2))
                && out[m].locations =~= Seq::<(int, int)>::empty()
                && out[m].message == e.message
                && out[m].extensions == e.extensions
        }),
    decreases plist.len() - k,
{
    if k < plist.len() {
        lemma_fanned(e, p, plist, (k + 1) as nat);
    }
}

/// Clones an error.
pub fn clone_error(e: &GraphqlError) -> (r: GraphqlError)
    ensures
        r@ == e@,
{
    let mut locs: Vec<(u64, u64)> = Vec::new();
    let mut i: usize = 0;
    while i < e.locations.len()
        invariant
            i <= e.locations@.len(),
            locs@.len() == i,
            forall|k: int| 0 <= k < i ==> #[trigger] locs@[k] == e.locations@[k],
        decreases e.locations@.len() - i,
    {
        locs.push(e.locations[i]);
        i = i + 1;
    }
    proof {
        assert(view_locations(locs@) =~= view_locations(e.locations@));
    }
    GraphqlError {
        message: e.message.clone(),
        locations: locs,
        path: match &e.path {
            Option::Some(p) => Option::Some(p.clone_path()),
            Option::None => Option::None,
        },
        extensions: clone_json(&e.extensions),
    }
}

/// Appends the errors of `b` to `a`, preserving order.
fn error_concat(a: Vec<GraphqlError>, b: Vec<GraphqlError>) -> (r: Vec<GraphqlError>)
    ensures
        view_errors(r@) =~= view_errors(a@) + view_errors(b@),
{
    let ghost av = a@;
    let ghost bv = b@;
    let mut a = a;
    let mut b = b;
    while b.len() > 0
        invariant
            a@.len() == av.len() + bv.len() - b@.len(),
            b@.len() <= bv.len(),
            forall|k: int| 0 <= k < av.len() ==> #[trigger] a@[k] == av[k],
            forall|k: int| av.len() <= k < a@.len() ==> #[trigger] a@[k] == bv[k - av.len()],
            forall|k: int| 0 <= k < b@.len() ==> #[trigger] b@[k] == bv[k + bv.len() - b@.len()],
        decreases b@.len(),
    {
        let el = b.remove(0);
        a.push(el);
    }
    proof {
        lemma_view_errors(a@);
        lemma_view_errors(av);
        lemma_view_errors(bv);
    }
    a
}

fn fanned_errors_exec(e: &GraphqlError, p: &Path, plist: &Vec<Path>, k: usize) -> (r: Vec<GraphqlError>)
    requires
        p@.len() >= 2,
    ensures
        view_errors(r@) == fanned_errors(e@, p@, view_path_list(plist@), k as nat),
    decreases plist@.len() - k,
{
    if k >= plist.len() {
        let out: Vec<GraphqlError> = Vec::new();
        proof {
            lemma_view_errors(out@);
            assert(view_errors(out@) =~= Seq::<SpecError>::empty());
        }
        out
    } else {
        let np = plist[k].with_suffix(p, 2);
        let head_err = GraphqlError {
            message: e.message.clone(),
            locations: Vec::new(),
            path: Option::Some(np),
            extensions: clone_json(&e.extensions),
        };
        let mut head: Vec<GraphqlError> = Vec::new();
        head.push(head_err);
        proof {
            lemma_view_errors(head@);
            assert(view_locations(Seq::<(u64, u64)>::empty()) =~= Seq::<(int, int)>::empty());
            assert(p@.skip(2) =~= p@.subrange(2, p@.len() as int));
            assert(view_errors(head@) =~= seq![head@[0]@]);
        }
        let tail = fanned_errors_exec(e, p, plist, k + 1);
        error_concat(head, tail)
    }
}

/// Relocates the errors of an entity-fetch response to caller paths.
pub fn relocate_errors_exec(errs: &Vec<GraphqlError>, e: usize, inverted_paths: &Vec<Vec<Path>>, cur: &Path) -> (r: Vec<GraphqlError>)
    ensures
        view_errors(r@) == relocate_errors(view_errors(errs@), e as nat, view_path_table(inverted_paths@), cur@),
    decreases errs@.len() - e,
{
    proof {
        lemma_view_errors(errs@);
    }
    if e >= errs.len() {
        let out: Vec<GraphqlError> = Vec::new();
        proof {
            lemma_view_errors(out@);
            assert(view_errors(out@) =~= Seq::<SpecError>::empty());
        }
        out
    } else {
        let err = &errs[e];
        let head: Vec<GraphqlError> = match &err.path {
            Option::Some(p) => {
                proof {
                    lemma_view_path_elems(p.elements@);
                }
                let starts_entities = if p.len() >= 1 {
                    match &p.elements[0] {
                        PathElem::Key(k) => crate::ast::string_is(k, "_entities"),
                        _ => false,
                    }
                } else {
                    false
                };
                if starts_entities {
                    let idx: Option<usize> = if p.len() >= 2 {
                        match &p.elements[1] {
                            PathElem::Index(i) => Option::Some(*i),
                            _ => Option::None,
                        }
                    } else {
                        Option::None
                    };
                    match idx {
                        Option::Some(i) => {
                            if i < inverted_paths.len() {
                                fanned_errors_exec(err, p, &inverted_paths[i], 0)
                            } else {
                                let out: Vec<GraphqlError> = Vec::new();
                                proof {
                                    lemma_view_errors(out@);
                                    assert(view_errors(out@) =~= Seq::<SpecError>::empty());
                                }
                                out
                            }
                        },
                        Option::None => {
                            let mut out: Vec<GraphqlError> = Vec::new();
                            out.push(GraphqlError {
                                message: err.message.clone(),
                                locations: Vec::new(),
                                path: Option::Some(cur.clone_path()),
                                extensions: clone_json(&err.extensions),
                            });
                            proof {
                                lemma_view_errors(out@);
                                assert(view_locations(Seq::<(u64, u64)>::empty()) =~= Seq::<(int, int)>::empty());
                                assert(view_errors(out@) =~= seq![out@[0]@]);
                            }
                            out
                        },
                    }
                } else {
                    let mut out: Vec<GraphqlError> = Vec::new();
                    out.push(GraphqlError {
                        message: err.message.clone(),
                        locations: Vec::new(),
                        path: Option::Some(cur.clone_path()),
                        extensions: clone_json(&err.extensions),
                    });
                    proof {
                        lemma_view_errors(out@);
                        assert(view_locations(Seq::<(u64, u64)>::empty()) =~= Seq::<(int, int)>::empty());
                        assert(view_errors(out@) =~= seq![out@[0]@]);
                    }
                    out
                }
            },
            Option::None => {
                let mut out: Vec<GraphqlError> = Vec::new();
                out.push(GraphqlError {
                    message: err.message.clone(),
                    locations: Vec::new(),
                    path: Option::Some(cur.clone_path()),
                    extensions: clone_json(&err.extensions),
                });
                proof {
                    lemma_view_errors(out@);
                    assert(view_locations(Seq::<(u64, u64)>::empty()) =~= Seq::<(int, int)>::empty());
                    assert(view_errors(out@) =~= seq![out@[0]@]);
                }
                out
            },
        };
        let tail = relocate_errors_exec(errs, e + 1, inverted_paths, cur);
        error_concat(head, tail)
    }
}

/// The accumulated value after writing one entity to its recorded paths:
/// the paths after the first receive the value first, the first path
/// last.
pub open spec fn insert_at_paths(acc: SpecJson, plist: Seq<Seq<SpecPathElem>>, k: nat, v: SpecJson) -> SpecJson
    decreases plist.len() - k,
{
    if k >= plist.len() {
        acc
    } else {
        insert_at_paths(spec_insert(acc, plist[k as int], 0, v), plist, (k + 1) as nat, v)
    }
}

/// The stitched value of an entity fetch: entity `i`, after output
/// rewrites, is written to every caller path recorded for index `i`.
pub open spec fn stitch_entities(entities: Seq<SpecJson>, idx: nat, ipaths: Seq<Seq<Seq<SpecPathElem>>>, orw: Seq<crate::rewrites::SpecDataRewrite>, acc: SpecJson) -> SpecJson
    decreases entities.len() - idx,
{
    if idx >= entities.len() {
        acc
    } else {
        let ent = spec_apply_rewrites(entities[idx as int], orw, 0);
        let acc2 = if idx < ipaths.len() && ipaths[idx as int].len() > 0 {
            spec_insert(insert_at_paths(acc, ipaths[idx as int], 1, ent), ipaths[idx as int][0], 0, ent)
        } else {
            acc
        };
        stitch_entities(entities, (idx + 1) as nat, ipaths, orw, acc2)
    }
}

fn insert_at_paths_exec(acc: Json, plist: &Vec<Path>, k: usize, v: &Json) -> (r: Json)
    ensures
        view_json(r) == insert_at_paths(view_json(acc), view_path_list(plist@), k as nat, view_json(*v)),
    decreases plist@.len() - k,
{
    if k >= plist.len() {
        acc
    } else {
        let c = clone_json(v);
        let mut acc = acc;
        json_insert_exec(&mut acc, &plist[k], 0, c);
        insert_at_paths_exec(acc, plist, k + 1, v)
    }
}

fn stitch_entities_exec(entities: &Vec<Json>, idx: usize, inverted_paths: &Vec<Vec<Path>>, output_rewrites: &Option<Vec<DataRewrite>>, acc: Json) -> (r: Json)
    ensures
        view_json(r) == stitch_entities(view_jsons(entities@), idx as nat, view_path_table(inverted_paths@), view_rw_opt(*output_rewrites), view_json(acc)),
    decreases entities@.len() - idx,
{
    proof {
        lemma_view_jsons(entities@);
    }
    if idx >= entities.len() {
        acc
    } else {
        let ent = apply_rewrites(clone_json(&entities[idx]), output_rewrites);
        let acc2 = if idx < inverted_paths.len() && inverted_paths[idx].len() > 0 {
            let partial = insert_at_paths_exec(acc, &inverted_paths[idx], 1, &ent);
            let mut partial = partial;
            json_insert_exec(&mut partial, &inverted_paths[idx][0], 0, ent);
            partial
        } else {
            acc
        };
        stitch_entities_exec(entities, idx + 1, inverted_paths, output_rewrites, acc2)
    }
}

/// The stitched result of an entity fetch: the relocated errors, and the
/// `_entities` list fanned out through the inverted-paths table; a
/// response whose data misses the `_entities` list contributes only a
/// null value.
pub open spec fn spec_entity_response(data: Option<SpecJson>, errs: Seq<SpecError>, ipaths: Seq<Seq<Seq<SpecPathElem>>>, orw: Seq<crate::rewrites::SpecDataRewrite>, cur: Seq<SpecPathElem>) -> (SpecJson, Seq<SpecError>) {
    let errors2 = relocate_errors(errs, 0, ipaths, cur);
    match data {
        Option::Some(d) => match spec_get(d, "_entities"@) {
            Option::Some(SpecJson::Arr(arr)) => (stitch_entities(arr, 0, ipaths, orw, SpecJson::Null), errors2),
            _ => (SpecJson::Null, errors2),
        },
        Option::None => (SpecJson::Null, errors2),
    }
}

/// Stitches the response of an entity fetch back into the caller's tree.
pub fn entity_response(response: &Response, inverted_paths: &Vec<Vec<Path>>, output_rewrites: &Option<Vec<DataRewrite>>, current_dir: &Path) -> (r: (Json, Vec<GraphqlError>))
    ensures
        ({
            let s = spec_entity_response(
                match response.data { Option::Some(d) => Option::Some(d@), Option::None => Option::None },
                view_errors(response.errors@), view_path_table(inverted_paths@),
                view_rw_opt(*output_rewrites), current_dir@);
            view_json(r.0) == s.0 && view_errors(r.1@) == s.1
        }),
{
    let errors2 = relocate_errors_exec(&response.errors, 0, inverted_paths, current_dir);
    let value: Json = match &response.data {
        Option::Some(d) => match d.get("_entities") {
            Option::Some(ents) => match ents {
                Json::Arr(arr) => stitch_entities_exec(arr, 0, inverted_paths, output_rewrites, Json::Null),
                _ => Json::Null,
            },
            Option::None => Json::Null,
        },
        Option::None => Json::Null,
    };
    (value, errors2)
}

/// The errors of a plain fetch prefixed with the caller path (without a
/// trailing flatten marker), with subgraph source locations discarded:
/// they refer to the subgraph's own operation text.
pub open spec fn prefix_errors(errs: Seq<SpecError>, e: nat, slice: Seq<SpecPathElem>) -> Seq<SpecError>
    decreases errs.len() - e,
{
    if e >= errs.len() {
        Seq::empty()
    } else {
        seq![SpecError {
            message: errs[e as int].message,
            locations: Seq::empty(),
            path: match errs[e as int].path {
                Option::Some(p) => Option::Some(slice + p),
                Option::None => Option::None,
            },
            extensions: errs[e as int].extensions,
        }] + prefix_errors(errs, (e + 1) as nat, slice)
    }
}

fn prefix_errors_exec(errs: &Vec<GraphqlError>, e: usize, slice: &Path) -> (r: Vec<GraphqlError>)
    ensures
        view_errors(r@) == prefix_errors(view_errors(errs@), e as nat, slice@),
    decreases errs@.len() - e,
{
    proof {
        lemma_view_errors(errs@);
    }
    if e >= errs.len() {
        let out: Vec<GraphqlError> = Vec::new();
        proof {
            lemma_view_errors(out@);
            assert(view_errors(out@) =~= Seq::<SpecError>::empty());
        }
        out
    } else {
        let err = &errs[e];
        let np = match &err.path {
            Option::Some(p) => {
                let ws = slice.with_suffix(p, 0);
                proof {
                    assert(p@.subrange(0, p@.len() as int) =~= p@);
                }
                Option::Some(ws)
            },
            Option::None => Option::None,
        };
        let head_err = GraphqlError {
            message: err.message.clone(),
            locations: Vec::new(),
            path: np,
            extensions: clone_json(&err.extensions),
        };
        let mut head: Vec<GraphqlError> = Vec::new();
        head.push(head_err);
        proof {
            lemma_view_errors(head@);
            assert(view_locations(Seq::<(u64, u64)>::empty()) =~= Seq::<(int, int)>::empty());
            assert(view_errors(head@) =~= seq![head@[0]@]);
        }
        let tail = prefix_errors_exec(errs, e + 1, slice);
        error_concat(head, tail)
    }
}

/// The grafted result of a plain fetch: the data, after output rewrites,
/// wrapped at the caller path; error paths prefixed with the caller path
/// minus a trailing flatten marker.
pub open spec fn spec_plain_response(data: Option<SpecJson>, errs: Seq<SpecError>, orw: Seq<crate::rewrites::SpecDataRewrite>, cur: Seq<SpecPathElem>) -> (SpecJson, Seq<SpecError>) {
    let slice = if cur.len() > 0 && cur.last() is Flatten {
        cur.take(cur.len() - 1)
    } else {
        cur
    };
    let d0 = match data {
        Option::Some(d) => d,
        Option::None => SpecJson::Null,
    };
    let d1 = spec_apply_rewrites(d0, orw, 0);
    (spec_from_path(cur, 0, d1), prefix_errors(errs, 0, slice))
}

/// Grafts the response of a plain fetch at the caller path.
pub fn plain_response(response: Response, output_rewrites: &Option<Vec<DataRewrite>>, current_dir: &Path) -> (r: (Json, Vec<GraphqlError>))
    ensures
        ({
            let s = spec_plain_response(
                match response.data { Option::Some(d) => Option::Some(d@), Option::None => Option::None },
                view_errors(response.errors@), view_rw_opt(*output_rewrites), current_dir@);
            view_json(r.0) == s.0 && view_errors(r.1@) == s.1
        }),
{
    proof {
        lemma_view_path_elems(current_dir.elements@);
    }
    let slice = if current_dir.last_is_flatten() {
        let n = current_dir.len() - 1;
        let pfx = current_dir.prefix(n);
        proof {
            assert(current_dir@.subrange(0, n as int) =~= current_dir@.take(current_dir@.len() - 1));
        }
        pfx
    } else {
        current_dir.clone_path()
    };
    let errors2 = prefix_errors_exec(&response.errors, 0, &slice);
    let d0 = match response.data {
        Option::Some(d) => d,
        Option::None => Json::Null,
    };
    let d1 = apply_rewrites(d0, output_rewrites);
    let value = from_path_exec(current_dir, 0, d1);
    (value, errors2)
}

} // verus!
