//! Deterministic GraphQL text for operations, fragments and selection
//! sets, in the two layouts used downstream: an indented document form and
//! a single-line form for outgoing subgraph operations.

use vstd::prelude::*;
use vstd::string::StringExecFns;
use crate::ast::{SpecArgVal, SpecDirective, SpecSelection, SpecFragmentDef, SpecOperation, SpecVariableDef, ArgVal, Argument, Directive, Selection, FragmentDef, Operation, OperationKind, VariableDef, view_val, view_vals, view_args, view_dirs, view_dir, view_sel, view_sels, view_var_defs, view_frag_defs, lemma_view_vals, lemma_view_args, lemma_view_dirs, lemma_view_sels, opt_str_view};

verus! {

/// The decimal digit character for one digit value.
pub open spec fn dec_digit(d: nat) -> char {
    if d == 0 { '0' } else if d == 1 { '1' } else if d == 2 { '2' } else if d == 3 { '3' }
    else if d == 4 { '4' } else if d == 5 { '5' } else if d == 6 { '6' } else if d == 7 { '7' }
    else if d == 8 { '8' } else { '9' }
}

/// The decimal rendering of a natural number.
pub open spec fn dec_nat(n: nat) -> Seq<char>
    decreases n,
{
    if n < 10 {
        seq![dec_digit(n)]
    } else {
        dec_nat(n / 10) + seq![dec_digit(n % 10)]
    }
}

/// The decimal rendering of an integer, with a leading `-` when negative.
pub open spec fn dec_int(i: int) -> Seq<char> {
    if i < 0 {
        seq!['-'] + dec_nat((-i) as nat)
    } else {
        dec_nat(i as nat)
    }
}

/// Relies on the `Display` implementation of `i64`: the decimal digits of
/// the value, with a leading `-` when it is negative.
#[verifier::external_body]
fn fmt_i64(n: i64) -> (r: String)
    ensures
        r@ == dec_int(n as int),
{
    format!("{}", n)
}

/// Relies on the `Display` implementation of `u64`: the decimal digits of
/// the value.
#[verifier::external_body]
fn fmt_u64(n: u64) -> (r: String)
    ensures
        r@ == dec_nat(n as nat),
{
    format!("{}", n)
}

/// Renders a natural number in decimal.
pub fn fmt_usize(n: usize) -> (r: String)
    ensures
        r@ == dec_nat(n as nat),
{
    fmt_u64(n as u64)
}

/// Text of an argument value.
pub open spec fn txt_val(v: SpecArgVal) -> Seq<char>
    decreases v, 0int,
{
    match v {
        SpecArgVal::Null => "null"@,
        SpecArgVal::Bool(b) => if b { "true"@ } else { "false"@ },
        SpecArgVal::Int(i) => dec_int(i),
        SpecArgVal::Str(s) => "\""@ + s + "\""@,
        SpecArgVal::Enum(s) => s,
        SpecArgVal::Var(s) => "$"@ + s,
        SpecArgVal::List(items) => "["@ + txt_vals(items, 0) + "]"@,
        SpecArgVal::Object(fields) => "{"@ + txt_pairs(fields, 0) + "}"@,
    }
}

/// Comma-joined text of a value list, from position `i` on.
pub open spec fn txt_vals(items: Seq<SpecArgVal>, i: nat) -> Seq<char>
    decreases items, 1int, items.len() - i,
{
    if i >= items.len() {
        Seq::empty()
    } else if i + 1 == items.len() {
        txt_val(items[i as int])
    } else {
        txt_val(items[i as int]) + ", "@ + txt_vals(items, (i + 1) as nat)
    }
}

/// Comma-joined `name: value` text of a named-value list, from position
/// `i` on.
pub open spec fn txt_pairs(pairs: Seq<(Seq<char>, SpecArgVal)>, i: nat) -> Seq<char>
    decreases pairs, 1int, pairs.len() - i,
{
    if i >= pairs.len() {
        Seq::empty()
    } else if i + 1 == pairs.len() {
        pairs[i as int].0 + ": "@ + txt_val(pairs[i as int].1)
    } else {
        pairs[i as int].0 + ": "@ + txt_val(pairs[i as int].1) + ", "@ + txt_pairs(pairs, (i + 1) as nat)
    }
}

/// Text of an argument list: parenthesized when non-empty.
pub open spec fn txt_arg_list(args: Seq<(Seq<char>, SpecArgVal)>) -> Seq<char> {
    if args.len() == 0 {
        Seq::empty()
    } else {
        "("@ + txt_pairs(args, 0) + ")"@
    }
}

/// Text of one directive application.
pub open spec fn txt_dir(d: SpecDirective) -> Seq<char> {
    "@"@ + d.name + txt_arg_list(d.arguments)
}

/// Text of a directive list: each directive preceded by one space.
pub open spec fn txt_dirs(ds: Seq<SpecDirective>, i: nat) -> Seq<char>
    decreases ds.len() - i,
{
    if i >= ds.len() {
        Seq::empty()
    } else {
        " "@ + txt_dir(ds[i as int]) + txt_dirs(ds, (i + 1) as nat)
    }
}

/// The head of a field selection: optional alias, name, arguments and
/// directives.
pub open spec fn txt_field_head(alias: Option<Seq<char>>, name: Seq<char>, args: Seq<(Seq<char>, SpecArgVal)>, dirs: Seq<SpecDirective>) -> Seq<char> {
    (match alias {
        Option::Some(a) => a + ": "@,
        Option::None => Seq::empty(),
    }) + name + txt_arg_list(args) + txt_dirs(dirs, 0)
}

/// `n` levels of two-space indentation.
pub open spec fn spaces(n: nat) -> Seq<char>
    decreases n,
{
    if n == 0 {
        Seq::empty()
    } else {
        spaces((n - 1) as nat) + "  "@
    }
}

/// Indented text of one selection, ending in a newline.
pub open spec fn txt_sel_ind(s: SpecSelection, d: nat) -> Seq<char>
    decreases s, 2int, 0int,
{
    match s {
        SpecSelection::Field { alias, name, arguments, directives, selection_set } => {
            spaces(d) + txt_field_head(alias, name, arguments, directives) + (
                if selection_set.len() > 0 {
                    " {\n"@ + txt_sels_ind(selection_set, (d + 1) as nat, 0) + spaces(d) + "}"@
                } else {
                    Seq::empty()
                }
            ) + "\n"@
        },
        SpecSelection::InlineFragment { type_condition, directives, selection_set } => {
            spaces(d) + "..."@ + (match type_condition {
                Option::Some(c) => " on "@ + c,
                Option::None => Seq::empty(),
            }) + txt_dirs(directives, 0) + " {\n"@ + txt_sels_ind(selection_set, (d + 1) as nat, 0)
                + spaces(d) + "}\n"@
        },
        SpecSelection::FragmentSpread { name, directives, .. } => {
            spaces(d) + "..."@ + name + txt_dirs(directives, 0) + "\n"@
        },
    }
}

/// Indented text of a selection list from position `i` on.
pub open spec fn txt_sels_ind(sels: Seq<SpecSelection>, d: nat, i: nat) -> Seq<char>
    decreases sels, 3int, sels.len() - i,
{
    if i >= sels.len() {
        Seq::empty()
    } else {
        txt_sel_ind(sels[i as int], d) + txt_sels_ind(sels, d, (i + 1) as nat)
    }
}

/// Single-line text of one selection.
pub open spec fn txt_sel_flat(s: SpecSelection) -> Seq<char>
    decreases s, 2int, 0int,
{
    match s {
        SpecSelection::Field { alias, name, arguments, directives, selection_set } => {
            txt_field_head(alias, name, arguments, directives) + (
                if selection_set.len() > 0 {
                    " { "@ + txt_sels_flat(selection_set, 0) + " }"@
                } else {
                    Seq::empty()
                }
            )
        },
        SpecSelection::InlineFragment { type_condition, directives, selection_set } => {
            "..."@ + (match type_condition {
                Option::Some(c) => " on "@ + c,
                Option::None => Seq::empty(),
            }) + txt_dirs(directives, 0) + " { "@ + txt_sels_flat(selection_set, 0) + " }"@
        },
        SpecSelection::FragmentSpread { name, directives, .. } => {
            "..."@ + name + txt_dirs(directives, 0)
        },
    }
}

/// Space-joined single-line text of a selection list from position `i`.
pub open spec fn txt_sels_flat(sels: Seq<SpecSelection>, i: nat) -> Seq<char>
    decreases sels, 3int, sels.len() - i,
{
    if i >= sels.len() {
        Seq::empty()
    } else if i + 1 == sels.len() {
        txt_sel_flat(sels[i as int])
    } else {
        txt_sel_flat(sels[i as int]) + " "@ + txt_sels_flat(sels, (i + 1) as nat)
    }
}

/// Comma-joined `$name: Type` text of the variable definitions.
pub open spec fn txt_vars(vars: Seq<SpecVariableDef>, i: nat) -> Seq<char>
    decreases vars.len() - i,
{
    if i >= vars.len() {
        Seq::empty()
    } else if i + 1 == vars.len() {
        "$"@ + vars[i as int].name + ": "@ + vars[i as int].var_type
    } else {
        "$"@ + vars[i as int].name + ": "@ + vars[i as int].var_type + ", "@ + txt_vars(vars, (i + 1) as nat)
    }
}

/// The keyword of an operation kind.
pub open spec fn txt_kind(k: OperationKind) -> Seq<char> {
    match k {
        OperationKind::Query => "query"@,
        OperationKind::Mutation => "mutation"@,
        OperationKind::Subscription => "subscription"@,
    }
}

/// The header of an operation, up to and including the space before the
/// opening brace; empty for a bare anonymous query.
pub open spec fn txt_op_header(op: SpecOperation) -> Seq<char> {
    if op.name is None && op.variables.len() == 0 && op.kind == OperationKind::Query {
        Seq::empty()
    } else {
        txt_kind(op.kind) + (match op.name {
            Option::Some(n) => " "@ + n,
            Option::None => Seq::empty(),
        }) + (if op.variables.len() > 0 {
            "("@ + txt_vars(op.variables, 0) + ")"@
        } else {
            Seq::empty()
        }) + " "@
    }
}

/// Indented document text of an operation.
pub open spec fn txt_operation(op: SpecOperation) -> Seq<char> {
    txt_op_header(op) + "{\n"@ + txt_sels_ind(op.selection_set, 1, 0) + "}"@
}

/// Single-line text of an operation.
pub open spec fn txt_operation_flat(op: SpecOperation) -> Seq<char> {
    txt_op_header(op) + "{ "@ + txt_sels_flat(op.selection_set, 0) + " }"@
}

/// Indented document text of a fragment definition.
pub open spec fn txt_fragment(f: SpecFragmentDef) -> Seq<char> {
    "fragment "@ + f.name + " on "@ + f.type_condition + " {\n"@ + txt_sels_ind(f.selection_set, 1, 0) + "}"@
}

fn w_val(out: &mut String, v: &ArgVal)
    ensures
        final(out)@ == old(out)@ + txt_val(view_val(*v)),
    decreases *v, 0int, 0int,
{
    match v {
        ArgVal::Null => {
            out.append("null");
        },
        ArgVal::Bool(b) => {
            if *b {
                out.append("true");
            } else {
                out.append("false");
            }
        },
        ArgVal::Int(i) => {
            let t = fmt_i64(*i);
            out.append(t.as_str());
        },
        ArgVal::Str(sv) => {
            out.append("\"");
            out.append(sv.as_str());
            out.append("\"");
        },
        ArgVal::Enum(sv) => {
            out.append(sv.as_str());
        },
        ArgVal::Var(sv) => {
            out.append("$");
            out.append(sv.as_str());
        },
        ArgVal::List(items) => {
            out.append("[");
            w_vals(out, items, 0);
            out.append("]");
        },
        ArgVal::Object(fields) => {
            out.append("{");
            w_pairs(out, fields, 0);
            out.append("}");
        },
    }
}

fn w_vals(out: &mut String, items: &Vec<ArgVal>, i: usize)
    ensures
        final(out)@ == old(out)@ + txt_vals(view_vals(items@), i as nat),
    decreases items@, 1int, items@.len() - i,
{
    proof {
        lemma_view_vals(items@);
    }
    if i < items.len() {
        w_val(out, &items[i]);
        if i + 1 < items.len() {
            out.append(", ");
            w_vals(out, items, i + 1);
        }
    }
}

fn w_pairs(out: &mut String, args: &Vec<Argument>, i: usize)
    ensures
        final(out)@ == old(out)@ + txt_pairs(view_args(args@), i as nat),
    decreases args@, 1int, args@.len() - i,
{
    proof {
        lemma_view_args(args@);
    }
    if i < args.len() {
        out.append(args[i].name.as_str());
        out.append(": ");
        w_val(out, &args[i].value);
        if i + 1 < args.len() {
            out.append(", ");
            w_pairs(out, args, i + 1);
        }
    }
}

fn w_arg_list(out: &mut String, args: &Vec<Argument>)
    ensures
        final(out)@ == old(out)@ + txt_arg_list(view_args(args@)),
{
    proof {
        lemma_view_args(args@);
    }
    if args.len() > 0 {
        out.append("(");
        w_pairs(out, args, 0);
        out.append(")");
    }
}

fn w_dir(out: &mut String, d: &Directive)
    ensures
        final(out)@ == old(out)@ + txt_dir(view_dir(*d)),
{
    out.append("@");
    out.append(d.name.as_str());
    w_arg_list(out, &d.arguments);
}

fn w_dirs(out: &mut String, ds: &Vec<Directive>, i: usize)
    ensures
        final(out)@ == old(out)@ + txt_dirs(view_dirs(ds@), i as nat),
    decreases ds@.len() - i,
{
    proof {
        lemma_view_dirs(ds@);
    }
    if i < ds.len() {
        out.append(" ");
        w_dir(out, &ds[i]);
        w_dirs(out, ds, i + 1);
    }
}

fn w_field_head(out: &mut String, f: &crate::ast::Field)
    ensures
        final(out)@ == old(out)@ + txt_field_head(
            opt_str_view(f.alias),
            f.name@,
            view_args(f.arguments@),
            view_dirs(f.directives@),
        ),
{
    match &f.alias {
        Option::Some(a) => {
            out.append(a.as_str());
            out.append(": ");
        },
        Option::None => {},
    }
    out.append(f.name.as_str());
    w_arg_list(out, &f.arguments);
    w_dirs(out, &f.directives, 0);
}

fn w_sel_ind(out: &mut String, s: &Selection, ind: &String, Ghost(d): Ghost<nat>)
    requires
        ind@ == spaces(d),
    ensures
        final(out)@ == old(out)@ + txt_sel_ind(view_sel(*s), d),
    decreases *s, 2int, 0int,
{
    match s {
        Selection::Field(f) => {
            out.append(ind.as_str());
            w_field_head(out, f);
            if f.selection_set.len() > 0 {
                out.append(" {\n");
                let mut ind2 = ind.clone();
                ind2.append("  ");
                w_sels_ind(out, &f.selection_set, &ind2, Ghost(d + 1), 0);
                out.append(ind.as_str());
                out.append("}");
            } else {
                proof {
                    lemma_view_sels(f.selection_set@);
                }
            }
            out.append("\n");
        },
        Selection::InlineFragment(f) => {
            out.append(ind.as_str());
            out.append("...");
            match &f.type_condition {
                Option::Some(c) => {
                    out.append(" on ");
                    out.append(c.as_str());
                },
                Option::None => {},
            }
            w_dirs(out, &f.directives, 0);
            out.append(" {\n");
            let mut ind2 = ind.clone();
            ind2.append("  ");
            w_sels_ind(out, &f.selection_set, &ind2, Ghost(d + 1), 0);
            out.append(ind.as_str());
            out.append("}\n");
        },
        Selection::FragmentSpread(f) => {
            out.append(ind.as_str());
            out.append("...");
            out.append(f.name.as_str());
            w_dirs(out, &f.directives, 0);
            out.append("\n");
        },
    }
}

fn w_sels_ind(out: &mut String, sels: &Vec<Selection>, ind: &String, Ghost(d): Ghost<nat>, i: usize)
    requires
        ind@ == spaces(d),
    ensures
        final(out)@ == old(out)@ + txt_sels_ind(view_sels(sels@), d, i as nat),
    decreases sels@, 3int, sels@.len() - i,
{
    proof {
        lemma_view_sels(sels@);
    }
    if i < sels.len() {
        w_sel_ind(out, &sels[i], ind, Ghost(d));
        w_sels_ind(out, sels, ind, Ghost(d), i + 1);
    }
}

fn w_sel_flat(out: &mut String, s: &Selection)
    ensures
        final(out)@ == old(out)@ + txt_sel_flat(view_sel(*s)),
    decreases *s, 2int, 0int,
{
    match s {
        Selection::Field(f) => {
            w_field_head(out, f);
            if f.selection_set.len() > 0 {
                out.append(" { ");
                w_sels_flat(out, &f.selection_set, 0);
                out.append(" }");
            } else {
                proof {
                    lemma_view_sels(f.selection_set@);
                }
            }
        },
        Selection::InlineFragment(f) => {
            out.append("...");
            match &f.type_condition {
                Option::Some(c) => {
                    out.append(" on ");
                    out.append(c.as_str());
                },
                Option::None => {},
            }
            w_dirs(out, &f.directives, 0);
            out.append(" { ");
            w_sels_flat(out, &f.selection_set, 0);
            out.append(" }");
        },
        Selection::FragmentSpread(f) => {
            out.append("...");
            out.append(f.name.as_str());
            w_dirs(out, &f.directives, 0);
        },
    }
}

fn w_sels_flat(out: &mut String, sels: &Vec<Selection>, i: usize)
    ensures
        final(out)@ == old(out)@ + txt_sels_flat(view_sels(sels@), i as nat),
    decreases sels@, 3int, sels@.len() - i,
{
    proof {
        lemma_view_sels(sels@);
    }
    if i < sels.len() {
        w_sel_flat(out, &sels[i]);
        if i + 1 < sels.len() {
            out.append(" ");
            w_sels_flat(out, sels, i + 1);
        }
    }
}

fn w_vars(out: &mut String, vars: &Vec<VariableDef>, i: usize)
    ensures
        final(out)@ == old(out)@ + txt_vars(view_var_defs(vars@), i as nat),
    decreases vars@.len() - i,
{
    if i < vars.len() {
        out.append("$");
        out.append(vars[i].name.as_str());
        out.append(": ");
        out.append(vars[i].var_type.as_str());
        if i + 1 < vars.len() {
            out.append(", ");
            w_vars(out, vars, i + 1);
        }
    }
}

fn w_op_header(out: &mut String, op: &Operation)
    ensures
        final(out)@ == old(out)@ + txt_op_header(op@),
{
    let anonymous = op.name.is_none() && op.variables.len() == 0 && matches!(op.kind, OperationKind::Query);
    if !anonymous {
        match op.kind {
            OperationKind::Query => out.append("query"),
            OperationKind::Mutation => out.append("mutation"),
            OperationKind::Subscription => out.append("subscription"),
        }
        match &op.name {
            Option::Some(n) => {
                out.append(" ");
                out.append(n.as_str());
            },
            Option::None => {},
        }
        if op.variables.len() > 0 {
            out.append("(");
            w_vars(out, &op.variables, 0);
            out.append(")");
        }
        out.append(" ");
    }
}

/// The indented document text of an operation.
pub fn operation_to_string(op: &Operation) -> (r: String)
    ensures
        r@ == txt_operation(op@),
{
    let mut out = String::new();
    w_op_header(&mut out, op);
    out.append("{\n");
    let ind = String::from_str("  ");
    proof {
        reveal_with_fuel(spaces, 3);
        assert(spaces(1) =~= "  "@);
    }
    w_sels_ind(&mut out, &op.selection_set, &ind, Ghost(1nat), 0);
    out.append("}");
    proof {
        assert(out@ =~= txt_operation(op@));
    }
    out
}

/// The single-line text of an operation, as sent to a subgraph.
pub fn operation_to_flat_string(op: &Operation) -> (r: String)
    ensures
        r@ == txt_operation_flat(op@),
{
    let mut out = String::new();
    w_op_header(&mut out, op);
    out.append("{ ");
    w_sels_flat(&mut out, &op.selection_set, 0);
    out.append(" }");
    proof {
        assert(out@ =~= txt_operation_flat(op@));
    }
    out
}

/// The indented document text of a fragment definition.
pub fn fragment_to_string(f: &FragmentDef) -> (r: String)
    ensures
        r@ == txt_fragment(f@),
{
    let mut out = String::new();
    out.append("fragment ");
    out.append(f.name.as_str());
    out.append(" on ");
    out.append(f.type_condition.as_str());
    out.append(" {\n");
    let ind = String::from_str("  ");
    proof {
        reveal_with_fuel(spaces, 3);
        assert(spaces(1) =~= "  "@);
    }
    w_sels_ind(&mut out, &f.selection_set, &ind, Ghost(1nat), 0);
    out.append("}");
    proof {
        assert(out@ =~= txt_fragment(f@));
    }
    out
}

} // verus!
