//! The fetch node: one subgraph request unit, its dual-form operation
//! body, its schema-aware hash and authorization key, and the rewriting
//! of an operation for contextual-argument batching.

use vstd::prelude::*;
use vstd::string::StringExecFns;
use crate::ast::{Selection, Field, InlineFragment, FragmentSpread, SpecSelection, ArgVal, Argument, Directive, SpecArgVal, Operation, SpecOperation, OperationKind, VariableDef, SpecVariableDef, view_sel, view_sels, view_args, view_dirs, view_var_defs, lemma_view_sels, lemma_view_args, lemma_view_dirs, opt_str_view, clone_opt_string, clone_sel, clone_sels, clone_args, clone_dirs, clone_val};
use crate::json::{Json, Path};
use crate::rewrites::DataRewrite;
use crate::serialize::{dec_nat, fmt_usize, txt_operation, operation_to_string};
use crate::schema::view_strings;

verus! {

impl OperationKind {
    /// The default name of the root type for this operation kind.
    pub fn default_type_name(&self) -> (r: &'static str)
        ensures
            r@ == spec_default_type_name(*self),
    {
        match self {
            OperationKind::Query => "Query",
            OperationKind::Mutation => "Mutation",
            OperationKind::Subscription => "Subscription",
        }
    }

    /// The lowercase operation-type label used by the telemetry exporter.
    pub fn as_apollo_operation_type(&self) -> (r: &'static str)
        ensures
            r@ == spec_apollo_operation_type(*self),
    {
        match self {
            OperationKind::Query => "query",
            OperationKind::Mutation => "mutation",
            OperationKind::Subscription => "subscription",
        }
    }
}

pub open spec fn spec_default_type_name(k: OperationKind) -> Seq<char> {
    match k {
        OperationKind::Query => "Query"@,
        OperationKind::Mutation => "Mutation"@,
        OperationKind::Subscription => "Subscription"@,
    }
}

pub open spec fn spec_apollo_operation_type(k: OperationKind) -> Seq<char> {
    match k {
        OperationKind::Query => "query"@,
        OperationKind::Mutation => "mutation"@,
        OperationKind::Subscription => "subscription"@,
    }
}

/// The lowercase hexadecimal digit for one value below sixteen.
pub open spec fn hex_digit(d: nat) -> char {
    if d == 0 { '0' } else if d == 1 { '1' } else if d == 2 { '2' } else if d == 3 { '3' }
    else if d == 4 { '4' } else if d == 5 { '5' } else if d == 6 { '6' } else if d == 7 { '7' }
    else if d == 8 { '8' } else if d == 9 { '9' } else if d == 10 { 'a' } else if d == 11 { 'b' }
    else if d == 12 { 'c' } else if d == 13 { 'd' } else if d == 14 { 'e' } else { 'f' }
}

/// The lowercase hexadecimal rendering of a byte string: two digits per
/// byte, high digit first.
pub open spec fn hex_of(bytes: Seq<u8>) -> Seq<char>
    decreases bytes.len(),
{
    if bytes.len() == 0 {
        Seq::empty()
    } else {
        seq![hex_digit((bytes[0] / 16) as nat), hex_digit((bytes[0] % 16) as nat)]
            + hex_of(bytes.subrange(1, bytes.len() as int))
    }
}

/// Relies on `hex::encode`: the lowercase hexadecimal rendering of the
/// bytes, two digits per byte, high digit first.
#[verifier::external_body]
fn hex_encode(bytes: &Vec<u8>) -> (r: String)
    ensures
        r@ == hex_of(bytes@),
{
    hex::encode(bytes)
}

/// A hash over the subgraph query and the parts of the schema that affect
/// it; two schemas that agree on those parts give the same hash.
pub struct QueryHash {
    pub bytes: Vec<u8>,
}

impl QueryHash {
    /// An empty hash, for a node whose hash was not yet computed.
    pub fn new_empty() -> (r: QueryHash)
        ensures
            r.bytes@ =~= Seq::<u8>::empty(),
    {
        QueryHash { bytes: Vec::new() }
    }

    /// The lowercase hexadecimal text of the hash.
    pub fn to_hex(&self) -> (r: String)
        ensures
            r@ == hex_of(self.bytes@),
    {
        hex_encode(&self.bytes)
    }
}

/// The authorization cache key attached to a subgraph query; its content
/// is supplied by the authorization collaborator and consumed verbatim.
pub struct CacheKeyMetadata {
    pub value: Option<String>,
}

impl Default for CacheKeyMetadata {
    fn default() -> (r: Self)
        ensures
            r.value is None,
    {
        CacheKeyMetadata { value: Option::None }
    }
}

/// The dual representation of a subgraph operation: at least one of the
/// serialized text and the parsed form is present; the other is computed
/// on first demand and kept.
pub struct SubgraphOperation {
    pub serialized: Option<String>,
    pub parsed: Option<Operation>,
}

impl SubgraphOperation {
    /// At least one representation is present.
    pub open spec fn wf(self) -> bool {
        self.serialized is Some || self.parsed is Some
    }

    /// An operation from its serialized text.
    pub fn from_string(serialized: String) -> (r: SubgraphOperation)
        ensures
            r.wf(),
            r.serialized == Option::Some(serialized),
            r.parsed is None,
    {
        SubgraphOperation { serialized: Option::Some(serialized), parsed: Option::None }
    }

    /// An operation from its parsed form.
    pub fn from_parsed(parsed: Operation) -> (r: SubgraphOperation)
        ensures
            r.wf(),
            r.serialized is None,
            r.parsed == Option::Some(parsed),
    {
        SubgraphOperation { serialized: Option::None, parsed: Option::Some(parsed) }
    }

    /// The serialized text, computed from the parsed form on first demand
    /// and kept.
    pub fn as_serialized(&mut self) -> (r: String)
        requires
            old(self).wf(),
        ensures
            final(self).wf(),
            final(self).parsed == old(self).parsed,
            match old(self).serialized {
                Option::Some(s) => r == s && final(self).serialized == old(self).serialized,
                Option::None => r@ == txt_operation(old(self).parsed->0@)
                    && final(self).serialized == Option::Some(r),
            },
    {
        match &self.serialized {
            Option::Some(s) => s.clone(),
            Option::None => {
                let t = match &self.parsed {
                    Option::Some(op) => operation_to_string(op),
                    Option::None => {
                        proof {
                            assert(false);
                        }
                        String::new()
                    },
                };
                self.serialized = Option::Some(t.clone());
                t
            },
        }
    }

    /// The parsed form, when present.  Parsing serialized text is the
    /// collaborating parser's work: the caller parses and hands the
    /// result to `set_parsed`.
    pub fn as_parsed(&self) -> (r: &Option<Operation>)
        ensures
            r == self.parsed,
    {
        &self.parsed
    }

    /// Stores the parsed form computed by the collaborating parser.
    pub fn set_parsed(&mut self, parsed: Operation)
        ensures
            final(self).parsed == Option::Some(parsed),
            final(self).serialized == old(self).serialized,
            final(self).wf(),
    {
        self.parsed = Option::Some(parsed);
    }
}

/// One subgraph request unit of a query plan.
pub struct FetchNode {
    /// The name of the service or subgraph that the fetch is querying.
    pub service_name: String,
    /// The data that is required for the subgraph fetch.
    pub requires_selection: Vec<Selection>,
    /// The variables that are used for the subgraph fetch.
    pub variable_usages: Vec<String>,
    /// The GraphQL subquery that is used for the fetch.
    pub operation: SubgraphOperation,
    /// The GraphQL subquery operation name.
    pub operation_name: Option<String>,
    /// The GraphQL operation kind that is used for the fetch.
    pub operation_kind: OperationKind,
    /// Optional id used by deferred nodes.
    pub id: Option<String>,
    /// Rewrites to apply to the data sent as input of this fetch.
    pub input_rewrites: Option<Vec<DataRewrite>>,
    /// Rewrites to apply to the data received from this fetch.
    pub output_rewrites: Option<Vec<DataRewrite>>,
    /// Rewrites reading data received further up the tree.
    pub context_rewrites: Option<Vec<DataRewrite>>,
    /// Hash over the query and the parts of the schema that affect it.
    pub schema_aware_hash: QueryHash,
    /// Authorization metadata for the subgraph query.
    pub authorization: CacheKeyMetadata,
}

impl FetchNode {
    /// The name of the subgraph service this fetch addresses.
    pub fn service_name(&self) -> (r: &String)
        ensures
            r == self.service_name,
    {
        &self.service_name
    }

    /// The operation kind of this fetch.
    pub fn operation_kind(&self) -> (r: &OperationKind)
        ensures
            r == self.operation_kind,
    {
        &self.operation_kind
    }

    /// Stores the schema-aware hash computed for this node's subquery.
    pub fn store_subquery_hash(&mut self, hash: Vec<u8>)
        ensures
            final(self).schema_aware_hash.bytes == hash,
            final(self).service_name == old(self).service_name,
            final(self).requires_selection == old(self).requires_selection,
            final(self).variable_usages == old(self).variable_usages,
            final(self).operation == old(self).operation,
            final(self).operation_name == old(self).operation_name,
            final(self).operation_kind == old(self).operation_kind,
            final(self).id == old(self).id,
            final(self).input_rewrites == old(self).input_rewrites,
            final(self).output_rewrites == old(self).output_rewrites,
            final(self).context_rewrites == old(self).context_rewrites,
            final(self).authorization == old(self).authorization,
    {
        self.schema_aware_hash = QueryHash { bytes: hash };
    }

    /// Stores the intersected authorization cache key computed for this
    /// node's subquery.
    pub fn set_authorization(&mut self, authorization: CacheKeyMetadata)
        ensures
            final(self).authorization == authorization,
            final(self).service_name == old(self).service_name,
            final(self).requires_selection == old(self).requires_selection,
            final(self).variable_usages == old(self).variable_usages,
            final(self).operation == old(self).operation,
            final(self).operation_name == old(self).operation_name,
            final(self).operation_kind == old(self).operation_kind,
            final(self).id == old(self).id,
            final(self).input_rewrites == old(self).input_rewrites,
            final(self).output_rewrites == old(self).output_rewrites,
            final(self).context_rewrites == old(self).context_rewrites,
            final(self).schema_aware_hash == old(self).schema_aware_hash,
    {
        self.authorization = authorization;
    }
}

/// An argument list with every argument whose value is exactly the
/// variable `from` now referencing `to`.
pub open spec fn rn_args(args: Seq<(Seq<char>, SpecArgVal)>, from: Seq<char>, to: Seq<char>) -> Seq<(Seq<char>, SpecArgVal)> {
    Seq::new(args.len(), |i: int| if args[i].1 == SpecArgVal::Var(from) {
        (args[i].0, SpecArgVal::Var(to))
    } else {
        args[i]
    })
}

/// A selection with the variable `from` renamed to `to` in its own
/// arguments and, recursively, in its nested selections; fragment spreads
/// are left untouched.
pub open spec fn rn_sel(s: SpecSelection, from: Seq<char>, to: Seq<char>) -> SpecSelection
    decreases s, 0int, 0int,
{
    match s {
        SpecSelection::Field { alias, name, arguments, directives, selection_set } =>
            SpecSelection::Field {
                alias,
                name,
                arguments: rn_args(arguments, from, to),
                directives,
                selection_set: rn_sels(selection_set, from, to),
            },
        SpecSelection::InlineFragment { type_condition, directives, selection_set } =>
            SpecSelection::InlineFragment {
                type_condition,
                directives,
                selection_set: rn_sels(selection_set, from, to),
            },
        SpecSelection::FragmentSpread { .. } => s,
    }
}

pub open spec fn rn_sels(q: Seq<SpecSelection>, from: Seq<char>, to: Seq<char>) -> Seq<SpecSelection>
    decreases q, 1int, 0int,
{
    if q.len() == 0 {
        Seq::empty()
    } else {
        seq![rn_sel(q[0], from, to)] + rn_sels(q.subrange(1, q.len() as int), from, to)
    }
}

fn rn_args_exec(args: &Vec<Argument>, from: &String, to: &String) -> (r: Vec<Argument>)
    ensures
        view_args(r@) == rn_args(view_args(args@), from@, to@),
{
    proof {
        lemma_view_args(args@);
    }
    let mut out: Vec<Argument> = Vec::new();
    let mut i: usize = 0;
    while i < args.len()
        invariant
            i <= args@.len(),
            out@.len() == i,
            forall|k: int| 0 <= k < i ==> (#[trigger] out@[k]).name@ == args@[k].name@
                && crate::ast::view_val(out@[k].value) == (
                    if crate::ast::view_val(args@[k].value) == SpecArgVal::Var(from@) {
                        SpecArgVal::Var(to@)
                    } else {
                        crate::ast::view_val(args@[k].value)
                    }),
        decreases args@.len() - i,
    {
        let is_from = match &args[i].value {
            ArgVal::Var(v) => *v == *from,
            _ => false,
        };
        let na = if is_from {
            Argument { name: args[i].name.clone(), value: ArgVal::Var(to.clone()) }
        } else {
            Argument { name: args[i].name.clone(), value: clone_val(&args[i].value) }
        };
        out.push(na);
        i = i + 1;
    }
    proof {
        lemma_view_args(out@);
        assert(view_args(out@) =~= rn_args(view_args(args@), from@, to@));
    }
    out
}

/// Renames a variable reference throughout one selection.
pub fn rename_variables(selection: &Selection, from: &String, to: &String) -> (r: Selection)
    ensures
        view_sel(r) == rn_sel(view_sel(*selection), from@, to@),
    decreases *selection, 0int, 0int,
{
    match selection {
        Selection::Field(f) => Selection::Field(Field {
            alias: clone_opt_string(&f.alias),
            name: f.name.clone(),
            arguments: rn_args_exec(&f.arguments, from, to),
            directives: clone_dirs(&f.directives),
            selection_set: rename_variables_sels(&f.selection_set, from, to),
        }),
        Selection::InlineFragment(f) => Selection::InlineFragment(InlineFragment {
            type_condition: clone_opt_string(&f.type_condition),
            directives: clone_dirs(&f.directives),
            selection_set: rename_variables_sels(&f.selection_set, from, to),
        }),
        Selection::FragmentSpread(_) => clone_sel(selection),
    }
}

fn rename_variables_sels(q: &Vec<Selection>, from: &String, to: &String) -> (r: Vec<Selection>)
    ensures
        view_sels(r@) == rn_sels(view_sels(q@), from@, to@),
    decreases q@, 1int, 0int,
{
    proof {
        lemma_view_sels(q@);
    }
    let mut out: Vec<Selection> = Vec::new();
    let mut i: usize = 0;
    while i < q.len()
        invariant
            i <= q@.len(),
            out@.len() == i,
            forall|k: int| 0 <= k < i ==> view_sel(#[trigger] out@[k]) == rn_sel(view_sels(q@)[k], from@, to@),
            view_sels(q@).len() == q@.len(),
            forall|k: int| 0 <= k < q@.len() ==> #[trigger] view_sels(q@)[k] == view_sel(q@[k]),
        decreases q@.len() - i,
    {
        let c = rename_variables(&q[i], from, to);
        out.push(c);
        i = i + 1;
    }
    proof {
        lemma_view_sels(out@);
        lemma_rn_sels_index(view_sels(q@), from@, to@);
        assert(view_sels(out@) =~= rn_sels(view_sels(q@), from@, to@));
    }
    out
}

proof fn lemma_rn_sels_index(q: Seq<SpecSelection>, from: Seq<char>, to: Seq<char>)
    ensures
        rn_sels(q, from, to).len() == q.len(),
        forall|k: int| 0 <= k < q.len() ==> #[trigger] rn_sels(q, from, to)[k] == rn_sel(q[k], from, to),
    decreases q,
{
    if q.len() > 0 {
        lemma_rn_sels_index(q.subrange(1, q.len() as int), from, to);
        assert forall|k: int| 0 < k < q.len() implies #[trigger] rn_sels(q, from, to)[k]
            == rn_sels(q.subrange(1, q.len() as int), from, to)[k - 1] by {}
        assert forall|k: int| 0 < k < q.len() implies q.subrange(1, q.len() as int)[k - 1] == q[k] by {}
    }
}

/// The variable name with `_<idx>` appended.
pub open spec fn suffixed_name(name: Seq<char>, idx: nat) -> Seq<char> {
    name + "_"@ + dec_nat(idx)
}

fn suffixed_name_exec(name: &String, idx: usize) -> (r: String)
    ensures
        r@ == suffixed_name(name@, idx as nat),
{
    let mut out = name.clone();
    out.append("_");
    let sfx = fmt_usize(idx);
    out.append(sfx.as_str());
    out
}

/// Whether some variable from position `i` on has its name in the set.
pub open spec fn any_var_in(vars: Seq<SpecVariableDef>, i: nat, ctx: Seq<Seq<char>>) -> bool
    decreases vars.len() - i,
{
    i < vars.len() && (crate::schema::name_in_from(ctx, vars[i as int].name, 0) || any_var_in(vars, (i + 1) as nat, ctx))
}

fn any_var_in_exec(vars: &Vec<VariableDef>, i: usize, ctx: &Vec<String>) -> (res: bool)
    ensures
        res == any_var_in(view_var_defs(vars@), i as nat, view_strings(ctx@)),
    decreases vars@.len() - i,
{
    if i >= vars.len() {
        false
    } else {
        crate::schema::name_in_exec(ctx, &vars[i].name, 0) || any_var_in_exec(vars, i + 1, ctx)
    }
}

/// One batched replica of the first selection: aliased `_<idx>` when it
/// is a field, with every contextual variable renamed to its suffixed
/// form, walking the variable list from position `vi`.
pub open spec fn batch_one(s: SpecSelection, vars: Seq<SpecVariableDef>, vi: nat, ctx: Seq<Seq<char>>, idx: nat) -> SpecSelection
    decreases vars.len() - vi,
{
    if vi >= vars.len() {
        s
    } else if crate::schema::name_in_from(ctx, vars[vi as int].name, 0) {
        batch_one(rn_sel(s, vars[vi as int].name, suffixed_name(vars[vi as int].name, idx)), vars, (vi + 1) as nat, ctx, idx)
    } else {
        batch_one(s, vars, (vi + 1) as nat, ctx, idx)
    }
}

/// The selection with its alias set to `_<idx>` when it is a field.
pub open spec fn with_batch_alias(s: SpecSelection, idx: nat) -> SpecSelection {
    match s {
        SpecSelection::Field { name, arguments, directives, selection_set, .. } =>
            SpecSelection::Field {
                alias: Option::Some("_"@ + dec_nat(idx)),
                name,
                arguments,
                directives,
                selection_set,
            },
        _ => s,
    }
}

/// The batched selection list: one aliased, renamed replica of the first
/// selection per index from `idx` up to `times`.
pub open spec fn batch_sels(first: SpecSelection, vars: Seq<SpecVariableDef>, ctx: Seq<Seq<char>>, times: nat, idx: nat) -> Seq<SpecSelection>
    decreases times - idx,
{
    if idx >= times {
        Seq::empty()
    } else {
        seq![batch_one(with_batch_alias(first, idx), vars, 0, ctx, idx)]
            + batch_sels(first, vars, ctx, times, (idx + 1) as nat)
    }
}

/// Whether a variable of the given name was already collected.
pub open spec fn has_var_name(acc: Seq<SpecVariableDef>, name: Seq<char>, k: nat) -> bool
    decreases acc.len() - k,
{
    k < acc.len() && (acc[k as int].name == name || has_var_name(acc, name, (k + 1) as nat))
}

/// The collected variable definitions for one batch index from variable
/// position `vi` on: contextual variables appear suffixed per index,
/// other variables once.
pub open spec fn batch_vars_one(vars: Seq<SpecVariableDef>, vi: nat, ctx: Seq<Seq<char>>, idx: nat, acc: Seq<SpecVariableDef>) -> Seq<SpecVariableDef>
    decreases vars.len() - vi,
{
    if vi >= vars.len() {
        acc
    } else {
        let v = vars[vi as int];
        if crate::schema::name_in_from(ctx, v.name, 0) {
            batch_vars_one(vars, (vi + 1) as nat, ctx, idx,
                acc.push(SpecVariableDef { name: suffixed_name(v.name, idx), var_type: v.var_type }))
        } else if has_var_name(acc, v.name, 0) {
            batch_vars_one(vars, (vi + 1) as nat, ctx, idx, acc)
        } else {
            batch_vars_one(vars, (vi + 1) as nat, ctx, idx, acc.push(v))
        }
    }
}

/// The collected variable definitions over all batch indices.
pub open spec fn batch_vars(vars: Seq<SpecVariableDef>, ctx: Seq<Seq<char>>, times: nat, idx: nat, acc: Seq<SpecVariableDef>) -> Seq<SpecVariableDef>
    decreases times - idx,
{
    if idx >= times {
        acc
    } else {
        batch_vars(vars, ctx, times, (idx + 1) as nat, batch_vars_one(vars, 0, ctx, idx, acc))
    }
}

/// The operation rewritten for contextual-argument batching: when some
/// operation variable is contextual, the first selection is replicated
/// once per entity index, aliased `_<i>`, with the contextual variables
/// suffixed per index; otherwise nothing.
pub open spec fn spec_query_batching(op: SpecOperation, ctx: Option<(Seq<Seq<char>>, int)>) -> Option<SpecOperation> {
    match ctx {
        Option::Some((cs, times)) => {
            if any_var_in(op.variables, 0, cs) && op.selection_set.len() > 0 && times >= 0 {
                Option::Some(SpecOperation {
                    kind: op.kind,
                    name: op.name,
                    variables: batch_vars(op.variables, cs, times as nat, 0, Seq::empty()),
                    selection_set: batch_sels(op.selection_set[0], op.variables, cs, times as nat, 0),
                    named_fragments: Seq::empty(),
                })
            } else {
                Option::None
            }
        },
        Option::None => Option::None,
    }
}

fn has_var_name_exec(acc: &Vec<VariableDef>, name: &String, k: usize) -> (res: bool)
    ensures
        res == has_var_name(view_var_defs(acc@), name@, k as nat),
    decreases acc@.len() - k,
{
    if k >= acc.len() {
        false
    } else {
        acc[k].name == *name || has_var_name_exec(acc, name, k + 1)
    }
}

fn batch_one_exec(s: Selection, vars: &Vec<VariableDef>, vi: usize, ctx: &Vec<String>, idx: usize) -> (r: Selection)
    ensures
        view_sel(r) == batch_one(view_sel(s), view_var_defs(vars@), vi as nat, view_strings(ctx@), idx as nat),
    decreases vars@.len() - vi,
{
    if vi >= vars.len() {
        s
    } else if crate::schema::name_in_exec(ctx, &vars[vi].name, 0) {
        let to = suffixed_name_exec(&vars[vi].name, idx);
        let s2 = rename_variables(&s, &vars[vi].name, &to);
        batch_one_exec(s2, vars, vi + 1, ctx, idx)
    } else {
        batch_one_exec(s, vars, vi + 1, ctx, idx)
    }
}

fn with_batch_alias_exec(s: &Selection, idx: usize) -> (r: Selection)
    ensures
        view_sel(r) == with_batch_alias(view_sel(*s), idx as nat),
{
    match s {
        Selection::Field(f) => {
            let mut alias = String::from_str("_");
            let sfx = fmt_usize(idx);
            alias.append(sfx.as_str());
            Selection::Field(Field {
                alias: Option::Some(alias),
                name: f.name.clone(),
                arguments: clone_args(&f.arguments),
                directives: clone_dirs(&f.directives),
                selection_set: clone_sels(&f.selection_set),
            })
        },
        _ => clone_sel(s),
    }
}

fn batch_vars_one_exec(vars: &Vec<VariableDef>, vi: usize, ctx: &Vec<String>, idx: usize, acc: Vec<VariableDef>) -> (r: Vec<VariableDef>)
    ensures
        view_var_defs(r@) == batch_vars_one(view_var_defs(vars@), vi as nat, view_strings(ctx@), idx as nat, view_var_defs(acc@)),
    decreases vars@.len() - vi,
{
    if vi >= vars.len() {
        acc
    } else {
        let v = &vars[vi];
        if crate::schema::name_in_exec(ctx, &v.name, 0) {
            let ghost acc0 = acc@;
            let mut acc = acc;
            let nn = suffixed_name_exec(&v.name, idx);
            acc.push(VariableDef { name: nn, var_type: v.var_type.clone() });
            proof {
                assert(view_var_defs(acc@) =~= view_var_defs(acc0).push(acc@[acc0.len() as int]@));
            }
            batch_vars_one_exec(vars, vi + 1, ctx, idx, acc)
        } else if has_var_name_exec(&acc, &v.name, 0) {
            batch_vars_one_exec(vars, vi + 1, ctx, idx, acc)
        } else {
            let ghost acc0 = acc@;
            let mut acc = acc;
            acc.push(VariableDef { name: v.name.clone(), var_type: v.var_type.clone() });
            proof {
                assert(view_var_defs(acc@) =~= view_var_defs(acc0).push(acc@[acc0.len() as int]@));
                assert(acc@[acc0.len() as int]@ == vars@[vi as int]@);
            }
            batch_vars_one_exec(vars, vi + 1, ctx, idx, acc)
        }
    }
}

fn batch_vars_exec(vars: &Vec<VariableDef>, ctx: &Vec<String>, times: usize, idx: usize, acc: Vec<VariableDef>) -> (r: Vec<VariableDef>)
    ensures
        view_var_defs(r@) == batch_vars(view_var_defs(vars@), view_strings(ctx@), times as nat, idx as nat, view_var_defs(acc@)),
    decreases times - idx,
{
    if idx >= times {
        acc
    } else {
        let acc2 = batch_vars_one_exec(vars, 0, ctx, idx, acc);
        batch_vars_exec(vars, ctx, times, idx + 1, acc2)
    }
}

fn batch_sels_exec(first: &Selection, vars: &Vec<VariableDef>, ctx: &Vec<String>, times: usize, idx: usize) -> (r: Vec<Selection>)
    ensures
        view_sels(r@) == batch_sels(view_sel(*first), view_var_defs(vars@), view_strings(ctx@), times as nat, idx as nat),
    decreases times - idx,
{
    if idx >= times {
        let out: Vec<Selection> = Vec::new();
        proof {
            lemma_view_sels(out@);
            assert(view_sels(out@) =~= Seq::<SpecSelection>::empty());
        }
        out
    } else {
        let aliased = with_batch_alias_exec(first, idx);
        let head = batch_one_exec(aliased, vars, 0, ctx, idx);
        let tail = batch_sels_exec(first, vars, ctx, times, idx + 1);
        let ghost tv = tail@;
        let ghost hv = view_sel(head);
        let mut out: Vec<Selection> = Vec::new();
        out.push(head);
        let mut tail = tail;
        while tail.len() > 0
            invariant
                out@.len() >= 1,
                view_sel(out@[0]) == hv,
                out@.len() - 1 + tail@.len() == tv.len(),
                forall|k: int| 1 <= k < out@.len() ==> view_sel(#[trigger] out@[k]) == view_sel(tv[k - 1]),
                forall|k: int| 0 <= k < tail@.len() ==> #[trigger] tail@[k] == tv[k + out@.len() - 1],
            decreases tail@.len(),
        {
            let el = tail.remove(0);
            out.push(el);
        }
        proof {
            lemma_view_sels(out@);
            lemma_view_sels(tv);
            assert(view_sels(out@) =~= seq![hv] + view_sels(tv));
        }
        out
    }
}

/// Rewrites an operation for contextual-argument batching: the first
/// selection is replicated once per entity index with an `_<i>` alias and
/// per-index contextual variable names; nothing is produced when no
/// operation variable is contextual.
pub fn query_batching_for_contextual_args(operation: &Operation, contextual_args: &Option<(Vec<String>, usize)>) -> (r: Option<Operation>)
    ensures
        ({
            let s = spec_query_batching(operation@, match contextual_args {
                Option::Some((cs, n)) => Option::Some((view_strings(cs@), *n as int)),
                Option::None => Option::None,
            });
            match r {
                Option::Some(op) => s == Option::Some(op@),
                Option::None => s is None,
            }
        }),
{
    proof {
        lemma_view_sels(operation.selection_set@);
    }
    match contextual_args {
        Option::Some((cs, times)) => {
            if any_var_in_exec(&operation.variables, 0, cs) && operation.selection_set.len() > 0 {
                let first = &operation.selection_set[0];
                let sels = batch_sels_exec(first, &operation.variables, cs, *times, 0);
                let vars = batch_vars_exec(&operation.variables, cs, *times, 0, Vec::new());
                let out = Operation {
                    kind: operation.kind,
                    name: clone_opt_string(&operation.name),
                    variables: vars,
                    selection_set: sels,
                    named_fragments: Vec::new(),
                };
                proof {
                    assert(view_var_defs(Seq::<VariableDef>::empty()) =~= Seq::<SpecVariableDef>::empty());
                    assert(crate::ast::view_frag_defs(Seq::<crate::ast::FragmentDef>::empty())
                        =~= Seq::<crate::ast::SpecFragmentDef>::empty());
                    assert(out@ =~= spec_query_batching(operation@, Option::Some((view_strings(cs@), *times as int)))->0);
                }
                Option::Some(out)
            } else {
                Option::None
            }
        },
        Option::None => Option::None,
    }
}

} // verus!
