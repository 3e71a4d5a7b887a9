//! Canonical (declaration-order-insensitive) equality of argument values,
//! argument lists and directive lists.  Two object values are equal when
//! they carry the same named fields with equal values, whatever the order
//! in which the fields were written.

use vstd::prelude::*;
use crate::ast::{SpecArgVal, SpecDirective, ArgVal, Argument, Directive, view_val, view_vals, view_args, view_dirs, view_dir, lemma_view_vals, lemma_view_args, lemma_view_dirs};

verus! {

/// Canonical equality of two argument values: structural, except that
/// object fields are matched by name, not by position.
pub open spec fn sval_eq(a: SpecArgVal, b: SpecArgVal) -> bool
    decreases a, 0int, 0int,
{
    match (a, b) {
        (SpecArgVal::Null, SpecArgVal::Null) => true,
        (SpecArgVal::Bool(x), SpecArgVal::Bool(y)) => x == y,
        (SpecArgVal::Int(x), SpecArgVal::Int(y)) => x == y,
        (SpecArgVal::Str(x), SpecArgVal::Str(y)) => x == y,
        (SpecArgVal::Enum(x), SpecArgVal::Enum(y)) => x == y,
        (SpecArgVal::Var(x), SpecArgVal::Var(y)) => x == y,
        (SpecArgVal::List(x), SpecArgVal::List(y)) => x.len() == y.len() && lists_eq_from(x, y, 0),
        (SpecArgVal::Object(x), SpecArgVal::Object(y)) => pairs_eq(x, y),
        _ => false,
    }
}

/// The elements of `x` and `y` from position `i` on are pairwise equal.
pub open spec fn lists_eq_from(x: Seq<SpecArgVal>, y: Seq<SpecArgVal>, i: nat) -> bool
    decreases x, 1int, x.len() - i,
{
    i >= x.len() || (sval_eq(x[i as int], y[i as int]) && lists_eq_from(x, y, i + 1))
}

/// Some entry of `y` at position `j` or later carries the name of `p` and a
/// value canonically equal to `p`'s value.
pub open spec fn find_pair_from(
    p: (Seq<char>, SpecArgVal),
    y: Seq<(Seq<char>, SpecArgVal)>,
    j: nat,
) -> bool
    decreases p, 1int, y.len() - j,
{
    j < y.len() && ((y[j as int].0 == p.0 && sval_eq(p.1, y[j as int].1)) || find_pair_from(p, y, j + 1))
}

/// Some entry of `x` at position `i` or later carries the name of `q` and a
/// value canonically equal to `q`'s value, with the entry of `x` on the
/// left of the comparison.
pub open spec fn find_pair_rev_from(
    q: (Seq<char>, SpecArgVal),
    x: Seq<(Seq<char>, SpecArgVal)>,
    i: nat,
) -> bool
    decreases x, 1int, x.len() - i,
{
    i < x.len() && ((x[i as int].0 == q.0 && sval_eq(x[i as int].1, q.1)) || find_pair_rev_from(q, x, i + 1))
}

/// Every entry of `x` from position `i` on is matched by name in `y`.
pub open spec fn pairs_sub_from(
    x: Seq<(Seq<char>, SpecArgVal)>,
    y: Seq<(Seq<char>, SpecArgVal)>,
    i: nat,
) -> bool
    decreases x, 2int, x.len() - i,
{
    i >= x.len() || (find_pair_from(x[i as int], y, 0) && pairs_sub_from(x, y, i + 1))
}

/// Every entry of `w` from position `j` on is matched by name in `x`, with
/// the entry of `x` on the left of each comparison.
pub open spec fn pairs_sub_rev_from(
    w: Seq<(Seq<char>, SpecArgVal)>,
    x: Seq<(Seq<char>, SpecArgVal)>,
    j: nat,
) -> bool
    decreases x, 2int, w.len() - j,
{
    j >= w.len() || (find_pair_rev_from(w[j as int], x, 0) && pairs_sub_rev_from(w, x, j + 1))
}

/// Canonical equality of two named-value lists (object fields or argument
/// lists): same length, and each side's entries are matched by name on the
/// other side with canonically equal values.
pub open spec fn pairs_eq(x: Seq<(Seq<char>, SpecArgVal)>, y: Seq<(Seq<char>, SpecArgVal)>) -> bool
    decreases x, 3int, 0int,
{
    x.len() == y.len() && pairs_sub_from(x, y, 0) && pairs_sub_rev_from(y, x, 0)
}

/// Canonical equality of two directives.
pub open spec fn dir_eq(a: SpecDirective, b: SpecDirective) -> bool
    decreases a, 4int, 0int,
{
    a.name == b.name && pairs_eq(a.arguments, b.arguments)
}

/// Some directive of `y` at position `j` or later canonically equals `d`.
pub open spec fn find_dir_from(d: SpecDirective, y: Seq<SpecDirective>, j: nat) -> bool
    decreases d, 5int, y.len() - j,
{
    j < y.len() && (dir_eq(d, y[j as int]) || find_dir_from(d, y, j + 1))
}

/// Some directive of `x` at position `i` or later canonically equals `e`,
/// with the directive of `x` on the left of the comparison.
pub open spec fn find_dir_rev_from(e: SpecDirective, x: Seq<SpecDirective>, i: nat) -> bool
    decreases x, 5int, x.len() - i,
{
    i < x.len() && (dir_eq(x[i as int], e) || find_dir_rev_from(e, x, i + 1))
}

/// Every directive of `x` from position `i` on is matched in `y`.
pub open spec fn dirs_sub_from(x: Seq<SpecDirective>, y: Seq<SpecDirective>, i: nat) -> bool
    decreases x, 6int, x.len() - i,
{
    i >= x.len() || (find_dir_from(x[i as int], y, 0) && dirs_sub_from(x, y, i + 1))
}

/// Every directive of `w` from position `j` on is matched in `x`, with the
/// directive of `x` on the left of each comparison.
pub open spec fn dirs_sub_rev_from(w: Seq<SpecDirective>, x: Seq<SpecDirective>, j: nat) -> bool
    decreases x, 6int, w.len() - j,
{
    j >= w.len() || (find_dir_rev_from(w[j as int], x, 0) && dirs_sub_rev_from(w, x, j + 1))
}

/// Canonical equality of two directive lists as sets: same length, and
/// each side's directives are matched on the other side.
pub open spec fn dirs_eq(x: Seq<SpecDirective>, y: Seq<SpecDirective>) -> bool
    decreases x, 7int, 0int,
{
    x.len() == y.len() && dirs_sub_from(x, y, 0) && dirs_sub_rev_from(y, x, 0)
}

pub proof fn lemma_sval_eq_refl(a: SpecArgVal)
    ensures
        sval_eq(a, a),
    decreases a, 0int, 0int,
{
    match a {
        SpecArgVal::List(x) => {
            lemma_lists_eq_from_refl(x, 0);
        },
        SpecArgVal::Object(x) => {
            lemma_pairs_eq_refl(x);
        },
        _ => {},
    }
}

proof fn lemma_lists_eq_from_refl(x: Seq<SpecArgVal>, i: nat)
    ensures
        lists_eq_from(x, x, i),
    decreases x, 1int, x.len() - i,
{
    if i < x.len() {
        lemma_sval_eq_refl(x[i as int]);
        lemma_lists_eq_from_refl(x, i + 1);
    }
}

/// A match found from a later position is also found searching from any
/// earlier position.
proof fn lemma_find_pair_from_widen(p: (Seq<char>, SpecArgVal), y: Seq<(Seq<char>, SpecArgVal)>, j: nat, k: nat)
    requires
        0 <= j <= k,
        find_pair_from(p, y, k),
    ensures
        find_pair_from(p, y, j),
    decreases k - j,
{
    if j < k {
        lemma_find_pair_from_widen(p, y, j + 1, k);
    }
}

proof fn lemma_pairs_sub_from_refl(x: Seq<(Seq<char>, SpecArgVal)>, i: nat)
    ensures
        pairs_sub_from(x, x, i),
    decreases x, 2int, x.len() - i,
{
    if i < x.len() {
        lemma_sval_eq_refl(x[i as int].1);
        assert(find_pair_from(x[i as int], x, i));
        lemma_find_pair_from_widen(x[i as int], x, 0, i);
        lemma_pairs_sub_from_refl(x, i + 1);
    }
}

proof fn lemma_find_pair_rev_from_widen(q: (Seq<char>, SpecArgVal), x: Seq<(Seq<char>, SpecArgVal)>, i: nat, k: nat)
    requires
        0 <= i <= k,
        find_pair_rev_from(q, x, k),
    ensures
        find_pair_rev_from(q, x, i),
    decreases k - i,
{
    if i < k {
        lemma_find_pair_rev_from_widen(q, x, i + 1, k);
    }
}

proof fn lemma_pairs_sub_rev_from_refl(x: Seq<(Seq<char>, SpecArgVal)>, j: nat)
    ensures
        pairs_sub_rev_from(x, x, j),
    decreases x, 3int, x.len() - j,
{
    if j < x.len() {
        lemma_sval_eq_refl(x[j as int].1);
        assert(find_pair_rev_from(x[j as int], x, j));
        lemma_find_pair_rev_from_widen(x[j as int], x, 0, j);
        lemma_pairs_sub_rev_from_refl(x, j + 1);
    }
}

pub proof fn lemma_pairs_eq_refl(x: Seq<(Seq<char>, SpecArgVal)>)
    ensures
        pairs_eq(x, x),
    decreases x, 4int, 0int,
{
    lemma_pairs_sub_from_refl(x, 0);
    lemma_pairs_sub_rev_from_refl(x, 0);
}

pub proof fn lemma_dir_eq_refl(d: SpecDirective)
    ensures
        dir_eq(d, d),
{
    lemma_pairs_eq_refl(d.arguments);
}

proof fn lemma_find_dir_from_widen(d: SpecDirective, y: Seq<SpecDirective>, j: nat, k: nat)
    requires
        0 <= j <= k,
        find_dir_from(d, y, k),
    ensures
        find_dir_from(d, y, j),
    decreases k - j,
{
    if j < k {
        lemma_find_dir_from_widen(d, y, j + 1, k);
    }
}

proof fn lemma_find_dir_rev_from_widen(e: SpecDirective, x: Seq<SpecDirective>, i: nat, k: nat)
    requires
        0 <= i <= k,
        find_dir_rev_from(e, x, k),
    ensures
        find_dir_rev_from(e, x, i),
    decreases k - i,
{
    if i < k {
        lemma_find_dir_rev_from_widen(e, x, i + 1, k);
    }
}

proof fn lemma_dirs_sub_from_refl(x: Seq<SpecDirective>, i: nat)
    ensures
        dirs_sub_from(x, x, i),
    decreases x.len() - i,
{
    if i < x.len() {
        lemma_dir_eq_refl(x[i as int]);
        assert(find_dir_from(x[i as int], x, i));
        lemma_find_dir_from_widen(x[i as int], x, 0, i);
        lemma_dirs_sub_from_refl(x, i + 1);
    }
}

proof fn lemma_dirs_sub_rev_from_refl(x: Seq<SpecDirective>, j: nat)
    ensures
        dirs_sub_rev_from(x, x, j),
    decreases x.len() - j,
{
    if j < x.len() {
        lemma_dir_eq_refl(x[j as int]);
        assert(find_dir_rev_from(x[j as int], x, j));
        lemma_find_dir_rev_from_widen(x[j as int], x, 0, j);
        lemma_dirs_sub_rev_from_refl(x, j + 1);
    }
}

pub proof fn lemma_dirs_eq_refl(x: Seq<SpecDirective>)
    ensures
        dirs_eq(x, x),
{
    lemma_dirs_sub_from_refl(x, 0);
    lemma_dirs_sub_rev_from_refl(x, 0);
}

proof fn lemma_sval_eq_sym_imp(a: SpecArgVal, b: SpecArgVal)
    ensures
        sval_eq(a, b) ==> sval_eq(b, a),
    decreases a, 8int, 0int,
{
    match (a, b) {
        (SpecArgVal::List(x), SpecArgVal::List(y)) => {
            if sval_eq(a, b) {
                lemma_lists_eq_from_sym_imp(x, y, 0);
            }
        },
        (SpecArgVal::Object(x), SpecArgVal::Object(y)) => {
            lemma_pairs_eq_sym_imp(x, y);
        },
        _ => {},
    }
}

proof fn lemma_lists_eq_from_sym_imp(x: Seq<SpecArgVal>, y: Seq<SpecArgVal>, i: nat)
    requires
        x.len() == y.len(),
        lists_eq_from(x, y, i),
    ensures
        lists_eq_from(y, x, i),
    decreases x, 9int, x.len() - i,
{
    if i < x.len() {
        lemma_sval_eq_sym_imp(x[i as int], y[i as int]);
        lemma_lists_eq_from_sym_imp(x, y, i + 1);
    }
}

/// A match found with the searched entry on the left can be turned round.
proof fn lemma_find_pair_flip(p: (Seq<char>, SpecArgVal), y: Seq<(Seq<char>, SpecArgVal)>, j: nat)
    requires
        find_pair_from(p, y, j),
    ensures
        find_pair_rev_from(p, y, j),
    decreases p, 9int, y.len() - j,
{
    if j < y.len() {
        if y[j as int].0 == p.0 && sval_eq(p.1, y[j as int].1) {
            lemma_sval_eq_sym_imp(p.1, y[j as int].1);
        } else {
            lemma_find_pair_flip(p, y, j + 1);
        }
    }
}

proof fn lemma_find_pair_rev_flip(q: (Seq<char>, SpecArgVal), x: Seq<(Seq<char>, SpecArgVal)>, i: nat)
    requires
        find_pair_rev_from(q, x, i),
    ensures
        find_pair_from(q, x, i),
    decreases x, 9int, x.len() - i,
{
    if i < x.len() {
        if x[i as int].0 == q.0 && sval_eq(x[i as int].1, q.1) {
            lemma_sval_eq_sym_imp(x[i as int].1, q.1);
        } else {
            lemma_find_pair_rev_flip(q, x, i + 1);
        }
    }
}

proof fn lemma_pairs_sub_flip(x: Seq<(Seq<char>, SpecArgVal)>, y: Seq<(Seq<char>, SpecArgVal)>, i: nat)
    requires
        pairs_sub_from(x, y, i),
    ensures
        pairs_sub_rev_from(x, y, i),
    decreases x, 10int, x.len() - i,
{
    if i < x.len() {
        lemma_find_pair_flip(x[i as int], y, 0);
        lemma_pairs_sub_flip(x, y, i + 1);
    }
}

proof fn lemma_pairs_sub_rev_flip(w: Seq<(Seq<char>, SpecArgVal)>, x: Seq<(Seq<char>, SpecArgVal)>, j: nat)
    requires
        pairs_sub_rev_from(w, x, j),
    ensures
        pairs_sub_from(w, x, j),
    decreases x, 10int, w.len() - j,
{
    if j < w.len() {
        lemma_find_pair_rev_flip(w[j as int], x, 0);
        lemma_pairs_sub_rev_flip(w, x, j + 1);
    }
}

proof fn lemma_pairs_eq_sym_imp(x: Seq<(Seq<char>, SpecArgVal)>, y: Seq<(Seq<char>, SpecArgVal)>)
    ensures
        pairs_eq(x, y) ==> pairs_eq(y, x),
    decreases x, 11int, 0int,
{
    if pairs_eq(x, y) {
        lemma_pairs_sub_rev_flip(y, x, 0);
        lemma_pairs_sub_flip(x, y, 0);
    }
}

pub proof fn lemma_sval_eq_sym(a: SpecArgVal, b: SpecArgVal)
    ensures
        sval_eq(a, b) == sval_eq(b, a),
{
    lemma_sval_eq_sym_imp(a, b);
    lemma_sval_eq_sym_imp(b, a);
}

pub proof fn lemma_pairs_eq_sym(x: Seq<(Seq<char>, SpecArgVal)>, y: Seq<(Seq<char>, SpecArgVal)>)
    ensures
        pairs_eq(x, y) == pairs_eq(y, x),
{
    lemma_pairs_eq_sym_imp(x, y);
    lemma_pairs_eq_sym_imp(y, x);
}

proof fn lemma_dir_eq_sym_imp(a: SpecDirective, b: SpecDirective)
    ensures
        dir_eq(a, b) ==> dir_eq(b, a),
    decreases a, 12int, 0int,
{
    lemma_pairs_eq_sym_imp(a.arguments, b.arguments);
}

pub proof fn lemma_dir_eq_sym(a: SpecDirective, b: SpecDirective)
    ensures
        dir_eq(a, b) == dir_eq(b, a),
{
    lemma_dir_eq_sym_imp(a, b);
    lemma_dir_eq_sym_imp(b, a);
}

proof fn lemma_find_dir_flip(d: SpecDirective, y: Seq<SpecDirective>, j: nat)
    requires
        find_dir_from(d, y, j),
    ensures
        find_dir_rev_from(d, y, j),
    decreases d, 13int, y.len() - j,
{
    if j < y.len() {
        if dir_eq(d, y[j as int]) {
            lemma_dir_eq_sym_imp(d, y[j as int]);
        } else {
            lemma_find_dir_flip(d, y, j + 1);
        }
    }
}

proof fn lemma_find_dir_rev_flip(e: SpecDirective, x: Seq<SpecDirective>, i: nat)
    requires
        find_dir_rev_from(e, x, i),
    ensures
        find_dir_from(e, x, i),
    decreases x, 13int, x.len() - i,
{
    if i < x.len() {
        if dir_eq(x[i as int], e) {
            lemma_dir_eq_sym_imp(x[i as int], e);
        } else {
            lemma_find_dir_rev_flip(e, x, i + 1);
        }
    }
}

proof fn lemma_dirs_sub_flip(x: Seq<SpecDirective>, y: Seq<SpecDirective>, i: nat)
    requires
        dirs_sub_from(x, y, i),
    ensures
        dirs_sub_rev_from(x, y, i),
    decreases x.len() - i,
{
    if i < x.len() {
        lemma_find_dir_flip(x[i as int], y, 0);
        lemma_dirs_sub_flip(x, y, i + 1);
    }
}

proof fn lemma_dirs_sub_rev_flip(w: Seq<SpecDirective>, x: Seq<SpecDirective>, j: nat)
    requires
        dirs_sub_rev_from(w, x, j),
    ensures
        dirs_sub_from(w, x, j),
    decreases w.len() - j,
{
    if j < w.len() {
        lemma_find_dir_rev_flip(w[j as int], x, 0);
        lemma_dirs_sub_rev_flip(w, x, j + 1);
    }
}

proof fn lemma_dirs_eq_sym_imp(x: Seq<SpecDirective>, y: Seq<SpecDirective>)
    ensures
        dirs_eq(x, y) ==> dirs_eq(y, x),
{
    if dirs_eq(x, y) {
        lemma_dirs_sub_rev_flip(y, x, 0);
        lemma_dirs_sub_flip(x, y, 0);
    }
}

pub proof fn lemma_dirs_eq_sym(x: Seq<SpecDirective>, y: Seq<SpecDirective>)
    ensures
        dirs_eq(x, y) == dirs_eq(y, x),
{
    lemma_dirs_eq_sym_imp(x, y);
    lemma_dirs_eq_sym_imp(y, x);
}

/// Decides canonical equality of two argument values.
pub fn arg_val_eq(a: &ArgVal, b: &ArgVal) -> (res: bool)
    ensures
        res == sval_eq(view_val(*a), view_val(*b)),
    decreases *a, 0int, 0int,
{
    match (a, b) {
        (ArgVal::Null, ArgVal::Null) => true,
        (ArgVal::Bool(x), ArgVal::Bool(y)) => *x == *y,
        (ArgVal::Int(x), ArgVal::Int(y)) => *x == *y,
        (ArgVal::Str(x), ArgVal::Str(y)) => *x == *y,
        (ArgVal::Enum(x), ArgVal::Enum(y)) => *x == *y,
        (ArgVal::Var(x), ArgVal::Var(y)) => *x == *y,
        (ArgVal::List(x), ArgVal::List(y)) => {
            proof {
                lemma_view_vals(x@);
                lemma_view_vals(y@);
            }
            x.len() == y.len() && lists_eq_exec(x, y, 0)
        },
        (ArgVal::Object(x), ArgVal::Object(y)) => args_eq(x, y),
        _ => false,
    }
}

fn lists_eq_exec(x: &Vec<ArgVal>, y: &Vec<ArgVal>, i: usize) -> (res: bool)
    requires
        x@.len() == y@.len(),
    ensures
        res == lists_eq_from(view_vals(x@), view_vals(y@), i as nat),
    decreases x@, 1int, x@.len() - i,
{
    proof {
        lemma_view_vals(x@);
        lemma_view_vals(y@);
    }
    if i >= x.len() {
        true
    } else {
        arg_val_eq(&x[i], &y[i]) && lists_eq_exec(x, y, i + 1)
    }
}

fn find_pair_exec(p: &Argument, y: &Vec<Argument>, j: usize) -> (res: bool)
    ensures
        res == find_pair_from((p.name@, view_val(p.value)), view_args(y@), j as nat),
    decreases *p, 1int, y@.len() - j,
{
    proof {
        lemma_view_args(y@);
    }
    if j >= y.len() {
        false
    } else {
        let q = &y[j];
        (q.name == p.name && arg_val_eq(&p.value, &q.value)) || find_pair_exec(p, y, j + 1)
    }
}

fn find_pair_rev_exec(q: &Argument, x: &Vec<Argument>, i: usize) -> (res: bool)
    ensures
        res == find_pair_rev_from((q.name@, view_val(q.value)), view_args(x@), i as nat),
    decreases x@, 1int, x@.len() - i,
{
    proof {
        lemma_view_args(x@);
    }
    if i >= x.len() {
        false
    } else {
        let p = &x[i];
        (p.name == q.name && arg_val_eq(&p.value, &q.value)) || find_pair_rev_exec(q, x, i + 1)
    }
}

fn pairs_sub_exec(x: &Vec<Argument>, y: &Vec<Argument>, i: usize) -> (res: bool)
    ensures
        res == pairs_sub_from(view_args(x@), view_args(y@), i as nat),
    decreases x@, 2int, x@.len() - i,
{
    proof {
        lemma_view_args(x@);
    }
    if i >= x.len() {
        true
    } else {
        find_pair_exec(&x[i], y, 0) && pairs_sub_exec(x, y, i + 1)
    }
}

fn pairs_sub_rev_exec(w: &Vec<Argument>, x: &Vec<Argument>, j: usize) -> (res: bool)
    ensures
        res == pairs_sub_rev_from(view_args(w@), view_args(x@), j as nat),
    decreases x@, 2int, w@.len() - j,
{
    proof {
        lemma_view_args(w@);
    }
    if j >= w.len() {
        true
    } else {
        find_pair_rev_exec(&w[j], x, 0) && pairs_sub_rev_exec(w, x, j + 1)
    }
}

/// Decides canonical equality of two argument lists.
pub fn args_eq(x: &Vec<Argument>, y: &Vec<Argument>) -> (res: bool)
    ensures
        res == pairs_eq(view_args(x@), view_args(y@)),
    decreases x@, 3int, 0int,
{
    proof {
        lemma_view_args(x@);
        lemma_view_args(y@);
    }
    x.len() == y.len() && pairs_sub_exec(x, y, 0) && pairs_sub_rev_exec(y, x, 0)
}

/// Decides canonical equality of two directives.
pub fn dir_eq_exec(a: &Directive, b: &Directive) -> (res: bool)
    ensures
        res == dir_eq(view_dir(*a), view_dir(*b)),
    decreases *a, 4int, 0int,
{
    a.name == b.name && args_eq(&a.arguments, &b.arguments)
}

fn find_dir_exec(d: &Directive, y: &Vec<Directive>, j: usize) -> (res: bool)
    ensures
        res == find_dir_from(view_dir(*d), view_dirs(y@), j as nat),
    decreases *d, 5int, y@.len() - j,
{
    proof {
        lemma_view_dirs(y@);
    }
    if j >= y.len() {
        false
    } else {
        dir_eq_exec(d, &y[j]) || find_dir_exec(d, y, j + 1)
    }
}

fn find_dir_rev_exec(e: &Directive, x: &Vec<Directive>, i: usize) -> (res: bool)
    ensures
        res == find_dir_rev_from(view_dir(*e), view_dirs(x@), i as nat),
    decreases x@, 5int, x@.len() - i,
{
    proof {
        lemma_view_dirs(x@);
    }
    if i >= x.len() {
        false
    } else {
        dir_eq_exec(&x[i], e) || find_dir_rev_exec(e, x, i + 1)
    }
}

fn dirs_sub_exec(x: &Vec<Directive>, y: &Vec<Directive>, i: usize) -> (res: bool)
    ensures
        res == dirs_sub_from(view_dirs(x@), view_dirs(y@), i as nat),
    decreases x@, 6int, x@.len() - i,
{
    proof {
        lemma_view_dirs(x@);
    }
    if i >= x.len() {
        true
    } else {
        find_dir_exec(&x[i], y, 0) && dirs_sub_exec(x, y, i + 1)
    }
}

fn dirs_sub_rev_exec(w: &Vec<Directive>, x: &Vec<Directive>, j: usize) -> (res: bool)
    ensures
        res == dirs_sub_rev_from(view_dirs(w@), view_dirs(x@), j as nat),
    decreases x@, 6int, w@.len() - j,
{
    proof {
        lemma_view_dirs(w@);
    }
    if j >= w.len() {
        true
    } else {
        find_dir_rev_exec(&w[j], x, 0) && dirs_sub_rev_exec(w, x, j + 1)
    }
}

/// Decides canonical equality of two directive lists.
pub fn dirs_eq_exec(x: &Vec<Directive>, y: &Vec<Directive>) -> (res: bool)
    ensures
        res == dirs_eq(view_dirs(x@), view_dirs(y@)),
    decreases x@, 7int, 0int,
{
    proof {
        lemma_view_dirs(x@);
        lemma_view_dirs(y@);
    }
    x.len() == y.len() && dirs_sub_exec(x, y, 0) && dirs_sub_rev_exec(y, x, 0)
}

} // verus!
