//! Model of GraphQL operations: argument values, directives, selections,
//! fragments and operations, together with their mathematical views.

use vstd::prelude::*;
use vstd::string::StringExecFns;

verus! {

/// Mathematical value of a GraphQL argument.
pub enum SpecArgVal {
    Null,
    Bool(bool),
    Int(int),
    Str(Seq<char>),
    Enum(Seq<char>),
    Var(Seq<char>),
    List(Seq<SpecArgVal>),
    Object(Seq<(Seq<char>, SpecArgVal)>),
}

/// Mathematical value of a directive: name plus named arguments.
pub struct SpecDirective {
    pub name: Seq<char>,
    pub arguments: Seq<(Seq<char>, SpecArgVal)>,
}

/// Mathematical value of one selection node.
pub enum SpecSelection {
    Field {
        alias: Option<Seq<char>>,
        name: Seq<char>,
        arguments: Seq<(Seq<char>, SpecArgVal)>,
        directives: Seq<SpecDirective>,
        selection_set: Seq<SpecSelection>,
    },
    InlineFragment {
        type_condition: Option<Seq<char>>,
        directives: Seq<SpecDirective>,
        selection_set: Seq<SpecSelection>,
    },
    FragmentSpread {
        name: Seq<char>,
        directives: Seq<SpecDirective>,
        selection_set: Seq<SpecSelection>,
    },
}

/// GraphQL operation type.
#[derive(Clone, Copy, Debug, PartialEq, Eq, Hash, Structural)]
pub enum OperationKind {
    Query,
    Mutation,
    Subscription,
}

impl Default for OperationKind {
    fn default() -> (r: Self)
        ensures
            r == OperationKind::Query,
    {
        OperationKind::Query
    }
}

/// A literal GraphQL argument value as it appears in an operation.
pub enum ArgVal {
    Null,
    Bool(bool),
    Int(i64),
    Str(String),
    Enum(String),
    Var(String),
    List(Vec<ArgVal>),
    Object(Vec<Argument>),
}

/// A named argument, used both for field arguments and object fields.
pub struct Argument {
    pub name: String,
    pub value: ArgVal,
}

/// A directive application, such as `@skip(if: $a)`.
pub struct Directive {
    pub name: String,
    pub arguments: Vec<Argument>,
}

/// One node of a selection set.
pub enum Selection {
    Field(Field),
    InlineFragment(InlineFragment),
    FragmentSpread(FragmentSpread),
}

/// A field selection: `alias: name(args) @directives { sub }`.
pub struct Field {
    pub alias: Option<String>,
    pub name: String,
    pub arguments: Vec<Argument>,
    pub directives: Vec<Directive>,
    pub selection_set: Vec<Selection>,
}

/// An inline fragment: `... on T @directives { sub }`.
pub struct InlineFragment {
    pub type_condition: Option<String>,
    pub directives: Vec<Directive>,
    pub selection_set: Vec<Selection>,
}

/// A named fragment spread: `...name @directives`, carrying the resolved
/// body of the named fragment so that structural comparisons need no
/// external lookup.
pub struct FragmentSpread {
    pub name: String,
    pub directives: Vec<Directive>,
    pub selection_set: Vec<Selection>,
}

/// View of an optional string.
pub open spec fn opt_str_view(o: Option<String>) -> Option<Seq<char>> {
    match o {
        Option::Some(s) => Option::Some(s@),
        Option::None => Option::None,
    }
}

pub open spec fn view_val(v: ArgVal) -> SpecArgVal
    decreases v,
{
    match v {
        ArgVal::Null => SpecArgVal::Null,
        ArgVal::Bool(b) => SpecArgVal::Bool(b),
        ArgVal::Int(i) => SpecArgVal::Int(i as int),
        ArgVal::Str(s) => SpecArgVal::Str(s@),
        ArgVal::Enum(s) => SpecArgVal::Enum(s@),
        ArgVal::Var(s) => SpecArgVal::Var(s@),
        ArgVal::List(items) => SpecArgVal::List(view_vals(items@)),
        ArgVal::Object(fields) => SpecArgVal::Object(view_args(fields@)),
    }
}

pub open spec fn view_vals(q: Seq<ArgVal>) -> Seq<SpecArgVal>
    decreases q,
{
    if q.len() == 0 {
        Seq::empty()
    } else {
        seq![view_val(q[0])] + view_vals(q.subrange(1, q.len() as int))
    }
}

pub open spec fn view_args(q: Seq<Argument>) -> Seq<(Seq<char>, SpecArgVal)>
    decreases q,
{
    if q.len() == 0 {
        Seq::empty()
    } else {
        seq![(q[0].name@, view_val(q[0].value))] + view_args(q.subrange(1, q.len() as int))
    }
}

impl View for ArgVal {
    type V = SpecArgVal;

    open spec fn view(&self) -> SpecArgVal {
        view_val(*self)
    }
}

pub open spec fn view_dir(d: Directive) -> SpecDirective {
    SpecDirective { name: d.name@, arguments: view_args(d.arguments@) }
}

impl View for Directive {
    type V = SpecDirective;

    open spec fn view(&self) -> SpecDirective {
        view_dir(*self)
    }
}

pub open spec fn view_dirs(q: Seq<Directive>) -> Seq<SpecDirective>
    decreases q,
{
    if q.len() == 0 {
        Seq::empty()
    } else {
        seq![view_dir(q[0])] + view_dirs(q.subrange(1, q.len() as int))
    }
}

pub open spec fn view_sel(s: Selection) -> SpecSelection
    decreases s,
{
    match s {
        Selection::Field(f) => SpecSelection::Field {
            alias: opt_str_view(f.alias),
            name: f.name@,
            arguments: view_args(f.arguments@),
            directives: view_dirs(f.directives@),
            selection_set: view_sels(f.selection_set@),
        },
        Selection::InlineFragment(f) => SpecSelection::InlineFragment {
            type_condition: opt_str_view(f.type_condition),
            directives: view_dirs(f.directives@),
            selection_set: view_sels(f.selection_set@),
        },
        Selection::FragmentSpread(f) => SpecSelection::FragmentSpread {
            name: f.name@,
            directives: view_dirs(f.directives@),
            selection_set: view_sels(f.selection_set@),
        },
    }
}

/// View of a whole selection set.
pub open spec fn view_sels(q: Seq<Selection>) -> Seq<SpecSelection>
    decreases q,
{
    if q.len() == 0 {
        Seq::empty()
    } else {
        seq![view_sel(q[0])] + view_sels(q.subrange(1, q.len() as int))
    }
}

impl View for Selection {
    type V = SpecSelection;

    open spec fn view(&self) -> SpecSelection {
        view_sel(*self)
    }
}

pub proof fn lemma_view_vals(q: Seq<ArgVal>)
    ensures
        view_vals(q).len() == q.len(),
        forall|i: int| 0 <= i < q.len() ==> view_vals(q)[i] == view_val(#[trigger] q[i]),
        forall|i: int| 0 <= i < q.len() ==> #[trigger] view_vals(q)[i] == view_val(q[i]),
    decreases q,
{
    if q.len() > 0 {
        let tail = q.subrange(1, q.len() as int);
        lemma_view_vals(tail);
        assert forall|i: int| 0 < i < q.len() implies #[trigger] view_vals(q)[i] == view_vals(tail)[i - 1] by {
        }
        assert forall|i: int| 0 < i < q.len() implies tail[i - 1] == q[i] by {
        }
    }
}

pub proof fn lemma_view_args(q: Seq<Argument>)
    ensures
        view_args(q).len() == q.len(),
        forall|i: int| 0 <= i < q.len() ==> view_args(q)[i] == ((#[trigger] q[i]).name@, view_val(q[i].value)),
        forall|i: int| 0 <= i < q.len() ==> #[trigger] view_args(q)[i] == (q[i].name@, view_val(q[i].value)),
    decreases q,
{
    if q.len() > 0 {
        let tail = q.subrange(1, q.len() as int);
        lemma_view_args(tail);
        assert forall|i: int| 0 < i < q.len() implies #[trigger] view_args(q)[i] == view_args(tail)[i - 1] by {
        }
        assert forall|i: int| 0 < i < q.len() implies tail[i - 1] == q[i] by {
        }
    }
}

pub proof fn lemma_view_dirs(q: Seq<Directive>)
    ensures
        view_dirs(q).len() == q.len(),
        forall|i: int| 0 <= i < q.len() ==> view_dirs(q)[i] == view_dir(#[trigger] q[i]),
        forall|i: int| 0 <= i < q.len() ==> #[trigger] view_dirs(q)[i] == view_dir(q[i]),
    decreases q,
{
    if q.len() > 0 {
        let tail = q.subrange(1, q.len() as int);
        lemma_view_dirs(tail);
        assert forall|i: int| 0 < i < q.len() implies #[trigger] view_dirs(q)[i] == view_dirs(tail)[i - 1] by {
        }
        assert forall|i: int| 0 < i < q.len() implies tail[i - 1] == q[i] by {
        }
    }
}

pub proof fn lemma_view_sels(q: Seq<Selection>)
    ensures
        view_sels(q).len() == q.len(),
        forall|i: int| 0 <= i < q.len() ==> view_sels(q)[i] == view_sel(#[trigger] q[i]),
        forall|i: int| 0 <= i < q.len() ==> #[trigger] view_sels(q)[i] == view_sel(q[i]),
    decreases q,
{
    if q.len() > 0 {
        let tail = q.subrange(1, q.len() as int);
        lemma_view_sels(tail);
        assert forall|i: int| 0 < i < q.len() implies #[trigger] view_sels(q)[i] == view_sels(tail)[i - 1] by {
        }
        assert forall|i: int| 0 < i < q.len() implies tail[i - 1] == q[i] by {
        }
    }
}

/// Compares a string against a literal.
pub fn string_is(s: &String, lit: &str) -> (res: bool)
    ensures
        res == (s@ == lit@),
{
    let t = String::from_str(lit);
    *s == t
}

/// Compares two optional strings.
pub fn opt_string_eq(a: &Option<String>, b: &Option<String>) -> (res: bool)
    ensures
        res == (opt_str_view(*a) == opt_str_view(*b)),
{
    match (a, b) {
        (Option::None, Option::None) => true,
        (Option::Some(x), Option::Some(y)) => *x == *y,
        _ => false,
    }
}

/// A variable definition of an operation, with its type as written.
pub struct VariableDef {
    pub name: String,
    pub var_type: String,
}

/// Mathematical value of a variable definition.
pub struct SpecVariableDef {
    pub name: Seq<char>,
    pub var_type: Seq<char>,
}

impl View for VariableDef {
    type V = SpecVariableDef;

    open spec fn view(&self) -> SpecVariableDef {
        SpecVariableDef { name: self.name@, var_type: self.var_type@ }
    }
}

pub open spec fn view_var_defs(q: Seq<VariableDef>) -> Seq<SpecVariableDef> {
    Seq::new(q.len(), |i: int| q[i]@)
}

/// A named fragment definition.
pub struct FragmentDef {
    pub name: String,
    pub type_condition: String,
    pub selection_set: Vec<Selection>,
}

/// Mathematical value of a fragment definition.
pub struct SpecFragmentDef {
    pub name: Seq<char>,
    pub type_condition: Seq<char>,
    pub selection_set: Seq<SpecSelection>,
}

impl View for FragmentDef {
    type V = SpecFragmentDef;

    open spec fn view(&self) -> SpecFragmentDef {
        SpecFragmentDef {
            name: self.name@,
            type_condition: self.type_condition@,
            selection_set: view_sels(self.selection_set@),
        }
    }
}

pub open spec fn view_frag_defs(q: Seq<FragmentDef>) -> Seq<SpecFragmentDef> {
    Seq::new(q.len(), |i: int| q[i]@)
}

pub proof fn lemma_view_frag_defs(q: Seq<FragmentDef>)
    ensures
        view_frag_defs(q).len() == q.len(),
        forall|i: int| 0 <= i < q.len() ==> view_frag_defs(q)[i] == (#[trigger] q[i])@,
{
}

/// An operation: kind, optional name, variable definitions, selection set,
/// and the named fragments that belong to it.
pub struct Operation {
    pub kind: OperationKind,
    pub name: Option<String>,
    pub variables: Vec<VariableDef>,
    pub selection_set: Vec<Selection>,
    pub named_fragments: Vec<FragmentDef>,
}

/// Mathematical value of an operation.
pub struct SpecOperation {
    pub kind: OperationKind,
    pub name: Option<Seq<char>>,
    pub variables: Seq<SpecVariableDef>,
    pub selection_set: Seq<SpecSelection>,
    pub named_fragments: Seq<SpecFragmentDef>,
}

impl View for Operation {
    type V = SpecOperation;

    open spec fn view(&self) -> SpecOperation {
        SpecOperation {
            kind: self.kind,
            name: opt_str_view(self.name),
            variables: view_var_defs(self.variables@),
            selection_set: view_sels(self.selection_set@),
            named_fragments: view_frag_defs(self.named_fragments@),
        }
    }
}

pub proof fn lemma_view_sels_push(q: Seq<Selection>, c: Selection)
    ensures
        view_sels(q.push(c)) =~= view_sels(q).push(view_sel(c)),
{
    lemma_view_sels(q);
    lemma_view_sels(q.push(c));
}

pub proof fn lemma_view_sels_update(q: Seq<Selection>, k: int, v: Selection)
    requires
        0 <= k < q.len(),
    ensures
        view_sels(q.update(k, v)) =~= view_sels(q).update(k, view_sel(v)),
{
    lemma_view_sels(q);
    lemma_view_sels(q.update(k, v));
}

pub proof fn lemma_view_sels_concat(a: Seq<Selection>, b: Seq<Selection>)
    ensures
        view_sels(a + b) =~= view_sels(a) + view_sels(b),
{
    lemma_view_sels(a);
    lemma_view_sels(b);
    lemma_view_sels(a + b);
}

/// Clones an optional string.
pub fn clone_opt_string(o: &Option<String>) -> (r: Option<String>)
    ensures
        opt_str_view(r) == opt_str_view(*o),
{
    match o {
        Option::Some(s) => Option::Some(s.clone()),
        Option::None => Option::None,
    }
}

/// Deep-clones an argument value, preserving its mathematical value.
pub fn clone_val(v: &ArgVal) -> (r: ArgVal)
    ensures
        view_val(r) == view_val(*v),
    decreases *v, 0int,
{
    match v {
        ArgVal::Null => ArgVal::Null,
        ArgVal::Bool(b) => ArgVal::Bool(*b),
        ArgVal::Int(i) => ArgVal::Int(*i),
        ArgVal::Str(s) => ArgVal::Str(s.clone()),
        ArgVal::Enum(s) => ArgVal::Enum(s.clone()),
        ArgVal::Var(s) => ArgVal::Var(s.clone()),
        ArgVal::List(items) => ArgVal::List(clone_vals(items)),
        ArgVal::Object(fields) => ArgVal::Object(clone_args(fields)),
    }
}

/// Deep-clones a list of argument values.
pub fn clone_vals(q: &Vec<ArgVal>) -> (r: Vec<ArgVal>)
    ensures
        view_vals(r@) == view_vals(q@),
    decreases q@, 1int,
{
    let mut out: Vec<ArgVal> = Vec::new();
    let mut i: usize = 0;
    while i < q.len()
        invariant
            i <= q.len(),
            out@.len() == i,
            forall|k: int| 0 <= k < i ==> view_val(#[trigger] out@[k]) == view_val(q@[k]),
        decreases q@.len() - i,
    {
        let c = clone_val(&q[i]);
        out.push(c);
        i = i + 1;
    }
    proof {
        lemma_view_vals(out@);
        lemma_view_vals(q@);
        assert(view_vals(out@) =~= view_vals(q@));
    }
    out
}

/// Deep-clones an argument list.
pub fn clone_args(q: &Vec<Argument>) -> (r: Vec<Argument>)
    ensures
        view_args(r@) == view_args(q@),
    decreases q@, 1int,
{
    let mut out: Vec<Argument> = Vec::new();
    let mut i: usize = 0;
    while i < q.len()
        invariant
            i <= q.len(),
            out@.len() == i,
            forall|k: int| 0 <= k < i ==> (#[trigger] out@[k]).name@ == q@[k].name@
                && view_val(out@[k].value) == view_val(q@[k].value),
        decreases q@.len() - i,
    {
        let a = Argument { name: q[i].name.clone(), value: clone_val(&q[i].value) };
        out.push(a);
        i = i + 1;
    }
    proof {
        lemma_view_args(out@);
        lemma_view_args(q@);
        assert(view_args(out@) =~= view_args(q@));
    }
    out
}

/// Deep-clones a directive list.
pub fn clone_dirs(q: &Vec<Directive>) -> (r: Vec<Directive>)
    ensures
        view_dirs(r@) == view_dirs(q@),
{
    let mut out: Vec<Directive> = Vec::new();
    let mut i: usize = 0;
    while i < q.len()
        invariant
            i <= q.len(),
            out@.len() == i,
            forall|k: int| 0 <= k < i ==> view_dir(#[trigger] out@[k]) == view_dir(q@[k]),
        decreases q@.len() - i,
    {
        let d = Directive { name: q[i].name.clone(), arguments: clone_args(&q[i].arguments) };
        out.push(d);
        i = i + 1;
    }
    proof {
        lemma_view_dirs(out@);
        lemma_view_dirs(q@);
        assert(view_dirs(out@) =~= view_dirs(q@));
    }
    out
}

/// Deep-clones a selection, preserving its mathematical value.
pub fn clone_sel(s: &Selection) -> (r: Selection)
    ensures
        view_sel(r) == view_sel(*s),
    decreases *s, 0int,
{
    match s {
        Selection::Field(f) => Selection::Field(Field {
            alias: clone_opt_string(&f.alias),
            name: f.name.clone(),
            arguments: clone_args(&f.arguments),
            directives: clone_dirs(&f.directives),
            selection_set: clone_sels(&f.selection_set),
        }),
        Selection::InlineFragment(f) => Selection::InlineFragment(InlineFragment {
            type_condition: clone_opt_string(&f.type_condition),
            directives: clone_dirs(&f.directives),
            selection_set: clone_sels(&f.selection_set),
        }),
        Selection::FragmentSpread(f) => Selection::FragmentSpread(FragmentSpread {
            name: f.name.clone(),
            directives: clone_dirs(&f.directives),
            selection_set: clone_sels(&f.selection_set),
        }),
    }
}

/// Deep-clones a selection set.
pub fn clone_sels(q: &Vec<Selection>) -> (r: Vec<Selection>)
    ensures
        view_sels(r@) == view_sels(q@),
    decreases q@, 1int,
{
    let mut out: Vec<Selection> = Vec::new();
    let mut i: usize = 0;
    while i < q.len()
        invariant
            i <= q.len(),
            out@.len() == i,
            forall|k: int| 0 <= k < i ==> view_sel(#[trigger] out@[k]) == view_sel(q@[k]),
        decreases q@.len() - i,
    {
        let c = clone_sel(&q[i]);
        out.push(c);
        i = i + 1;
    }
    proof {
        lemma_view_sels(out@);
        lemma_view_sels(q@);
        assert(view_sels(out@) =~= view_sels(q@));
    }
    out
}

} // verus!
