use vstd::prelude::*;

use crate::datastructures::goal_vars;
use crate::model::{
    SAtom, SEntailment, SExpr, SOp, SPure, add_op, atoms_of, first_index, fresh_name,
    lemma_first_index_spec, neq_witnessed, ops_of, swap_out,
};
use crate::rules::cleanup::{canon_goal, cleanup_premisses};
use crate::rules::emptyls::{empty_ls_at, empty_ls_premisses};
use crate::rules::eqreflexivel::{eq_reflexive_l_premisses, refl_eq_at};
use crate::rules::eqreflexiver::eq_reflexive_r_premisses;
use crate::rules::frame::{frame_premisses, shared_atom_col, shared_atom_row};
use crate::rules::hypothesis::{hypothesis_premisses, shared_op_col, shared_op_row};
use crate::rules::nilnotlval::{nil_not_lval_premisses, unwitnessed_cell_at};
use crate::rules::nonemptyls::{cell_at, non_empty_ls_premisses, unfoldable_at};
use crate::rules::starpartial::{pair_col, pair_row, star_partial_premisses};
use crate::rules::substitution::{eq_at, goal_subst, substitution_premisses};
use crate::rules::unrollcollapse::{ls_at, unroll_collapse_premisses};

verus! {

/// How many elements of `s` satisfy `p`.
pub open spec fn count<A>(s: Seq<A>, p: spec_fn(A) -> bool) -> nat
    decreases s.len(),
{
    if s.len() == 0 {
        0
    } else {
        count(s.drop_last(), p) + if p(s.last()) {
            1nat
        } else {
            0nat
        }
    }
}

pub open spec fn ind(b: bool) -> nat {
    if b {
        1
    } else {
        0
    }
}

pub proof fn lemma_count_push<A>(s: Seq<A>, x: A, p: spec_fn(A) -> bool)
    ensures
        count(s.push(x), p) == count(s, p) + ind(p(x)),
{
    assert(s.push(x).drop_last() =~= s);
}

pub proof fn lemma_count_update<A>(s: Seq<A>, i: int, x: A, p: spec_fn(A) -> bool)
    requires
        0 <= i < s.len(),
    ensures
        count(s.update(i, x), p) + ind(p(s[i])) == count(s, p) + ind(p(x)),
    decreases s.len(),
{
    let u = s.update(i, x);
    if i == s.len() - 1 {
        assert(u.drop_last() =~= s.drop_last());
    } else {
        assert(u.drop_last() =~= s.drop_last().update(i, x));
        lemma_count_update(s.drop_last(), i, x, p);
    }
}

pub proof fn lemma_count_swap_out<A>(s: Seq<A>, i: int, p: spec_fn(A) -> bool)
    requires
        0 <= i < s.len(),
    ensures
        count(swap_out(s, i), p) + ind(p(s[i])) == count(s, p),
{
    lemma_count_update(s, i, s.last(), p);
}

pub proof fn lemma_count_remove<A>(s: Seq<A>, i: int, p: spec_fn(A) -> bool)
    requires
        0 <= i < s.len(),
    ensures
        count(s.remove(i), p) + ind(p(s[i])) == count(s, p),
    decreases s.len(),
{
    if i == s.len() - 1 {
        assert(s.remove(i) =~= s.drop_last());
    } else {
        assert(s.remove(i).drop_last() =~= s.drop_last().remove(i));
        lemma_count_remove(s.drop_last(), i, p);
    }
}

/// Two sequences that agree index by index under `p` and `q` have equal counts.
pub proof fn lemma_count_pointwise<A, B>(
    s: Seq<A>,
    t: Seq<B>,
    p: spec_fn(A) -> bool,
    q: spec_fn(B) -> bool,
)
    requires
        s.len() == t.len(),
        forall|i: int| 0 <= i < s.len() ==> p(#[trigger] s[i]) == q(t[i]),
    ensures
        count(s, p) == count(t, q),
    decreases s.len(),
{
    if s.len() > 0 {
        lemma_count_pointwise(s.drop_last(), t.drop_last(), p, q);
        assert(p(s[s.len() - 1]) == q(t[t.len() - 1]));
    }
}

/// A weaker predicate counts no more.
pub proof fn lemma_count_mono<A>(s: Seq<A>, p: spec_fn(A) -> bool, q: spec_fn(A) -> bool)
    requires
        forall|i: int| 0 <= i < s.len() && p(#[trigger] s[i]) ==> q(s[i]),
    ensures
        count(s, p) <= count(s, q),
    decreases s.len(),
{
    if s.len() > 0 {
        lemma_count_mono(s.drop_last(), p, q);
        assert(p(s[s.len() - 1]) ==> q(s[s.len() - 1]));
    }
}

/// A weaker predicate that misses an element counts strictly less.
pub proof fn lemma_count_strict<A>(s: Seq<A>, p: spec_fn(A) -> bool, q: spec_fn(A) -> bool, k: int)
    requires
        forall|i: int| 0 <= i < s.len() && p(#[trigger] s[i]) ==> q(s[i]),
        0 <= k < s.len(),
        q(s[k]),
        !p(s[k]),
    ensures
        count(s, p) < count(s, q),
    decreases s.len(),
{
    if k == s.len() - 1 {
        lemma_count_mono(s.drop_last(), p, q);
    } else {
        lemma_count_strict(s.drop_last(), p, q, k);
        assert(p(s[s.len() - 1]) ==> q(s[s.len() - 1]));
    }
}

pub open spec fn ls_pred() -> spec_fn(SAtom) -> bool {
    |a: SAtom| a is LS
}

pub open spec fn pts_pred() -> spec_fn(SAtom) -> bool {
    |a: SAtom| a is PtsTo
}

pub open spec fn eq_pred() -> spec_fn(SOp) -> bool {
    |o: SOp| o is Eq
}

/// A cell whose address `p` does not state to be non-nil.
pub open spec fn cell_pred(p: SPure) -> spec_fn(SAtom) -> bool {
    |a: SAtom| a is PtsTo && !neq_witnessed(p, a.lhs(), SExpr::Nil)
}

/// A cell paired with `a`, at a different address that `p` does not state to differ.
pub open spec fn pair_pred(p: SPure, a: SAtom) -> spec_fn(SAtom) -> bool {
    |b: SAtom|
        a is PtsTo && b is PtsTo && a.lhs() != b.lhs() && !neq_witnessed(p, a.lhs(), b.lhs())
}

/// The number of unwitnessed pairs with first member in `rows` and second in `all`.
pub open spec fn pair_total(rows: Seq<SAtom>, all: Seq<SAtom>, p: SPure) -> nat
    decreases rows.len(),
{
    if rows.len() == 0 {
        0
    } else {
        pair_total(rows.drop_last(), all, p) + count(all, pair_pred(p, rows.last()))
    }
}

/// Every disequality that `p` states, `q` states too.
pub open spec fn witnesses_more(q: SPure, p: SPure) -> bool {
    forall|a: SExpr, b: SExpr| #[trigger] neq_witnessed(p, a, b) ==> neq_witnessed(q, a, b)
}

pub proof fn lemma_add_op_witnesses_more(p: SPure, o: SOp)
    ensures
        witnesses_more(add_op(p, o), p),
{
    assert forall|a: SExpr, b: SExpr| #[trigger] neq_witnessed(p, a, b) implies neq_witnessed(
        add_op(p, o),
        a,
        b,
    ) by {
        let k = choose|k: int|
            0 <= k < ops_of(p).len() && (#[trigger] ops_of(p)[k] == SOp::Neq(a, b) || ops_of(p)[k]
                == SOp::Neq(b, a));
        assert(ops_of(add_op(p, o))[k] == ops_of(p)[k]);
    }
}

pub proof fn lemma_pair_mono(rows: Seq<SAtom>, all: Seq<SAtom>, p: SPure, q: SPure)
    requires
        witnesses_more(q, p),
    ensures
        pair_total(rows, all, q) <= pair_total(rows, all, p),
    decreases rows.len(),
{
    if rows.len() > 0 {
        lemma_pair_mono(rows.drop_last(), all, p, q);
        let r = rows.last();
        assert forall|i: int| 0 <= i < all.len() && pair_pred(q, r)(#[trigger] all[i]) implies pair_pred(
            p,
            r,
        )(all[i]) by {
            if neq_witnessed(p, r.lhs(), all[i].lhs()) {
                assert(neq_witnessed(q, r.lhs(), all[i].lhs()));
            }
        }
        lemma_count_mono(all, pair_pred(q, r), pair_pred(p, r));
    }
}

pub proof fn lemma_pair_strict(
    rows: Seq<SAtom>,
    all: Seq<SAtom>,
    p: SPure,
    q: SPure,
    i: int,
    j: int,
)
    requires
        witnesses_more(q, p),
        0 <= i < rows.len(),
        0 <= j < all.len(),
        pair_pred(p, rows[i])(all[j]),
        !pair_pred(q, rows[i])(all[j]),
    ensures
        pair_total(rows, all, q) < pair_total(rows, all, p),
    decreases rows.len(),
{
    let r = rows.last();
    assert forall|x: int| 0 <= x < all.len() && pair_pred(q, r)(#[trigger] all[x]) implies pair_pred(
        p,
        r,
    )(all[x]) by {
        if neq_witnessed(p, r.lhs(), all[x].lhs()) {
            assert(neq_witnessed(q, r.lhs(), all[x].lhs()));
        }
    }
    if i == rows.len() - 1 {
        lemma_pair_mono(rows.drop_last(), all, p, q);
        lemma_count_strict(all, pair_pred(q, r), pair_pred(p, r), j);
    } else {
        lemma_pair_strict(rows.drop_last(), all, p, q, i, j);
        lemma_count_mono(all, pair_pred(q, r), pair_pred(p, r));
    }
}

pub proof fn lemma_cell_mono(atoms: Seq<SAtom>, p: SPure, q: SPure)
    requires
        witnesses_more(q, p),
    ensures
        count(atoms, cell_pred(q)) <= count(atoms, cell_pred(p)),
{
    assert forall|i: int| 0 <= i < atoms.len() && cell_pred(q)(#[trigger] atoms[i]) implies cell_pred(
        p,
    )(atoms[i]) by {
        if neq_witnessed(p, atoms[i].lhs(), SExpr::Nil) {
            assert(neq_witnessed(q, atoms[i].lhs(), SExpr::Nil));
        }
    }
    lemma_count_mono(atoms, cell_pred(q), cell_pred(p));
}

/// Lists whose segments remain to be split.
pub open spec fn m_segments(g: SEntailment) -> nat {
    count(atoms_of(g.ant.spatial), ls_pred())
}

/// Equalities of the antecedent that remain to be eliminated.
pub open spec fn m_equalities(g: SEntailment) -> nat {
    count(ops_of(g.ant.pure), eq_pred())
}

/// Atoms of the consequent, and cells of the antecedent, that remain to be matched.
pub open spec fn m_atoms(g: SEntailment) -> nat {
    ops_of(g.cons.pure).len() + atoms_of(g.cons.spatial).len() + count(
        atoms_of(g.ant.spatial),
        pts_pred(),
    )
}

/// Disequalities between cell addresses, and with `Nil`, that remain to be made explicit.
pub open spec fn m_witnesses(g: SEntailment) -> nat {
    let atoms = atoms_of(g.ant.spatial);
    count(atoms, cell_pred(g.ant.pure)) + pair_total(atoms, atoms, g.ant.pure)
}

/// Parts of the goal that are empty but not in canonical form.
pub open spec fn m_uncanonical(g: SEntailment) -> nat {
    ind(g.ant.pure is And && ops_of(g.ant.pure).len() == 0) + ind(g.ant.spatial is SepConj
        && atoms_of(g.ant.spatial).len() == 0) + ind(g.cons.pure is And && ops_of(g.cons.pure).len()
        == 0) + ind(g.cons.spatial is SepConj && atoms_of(g.cons.spatial).len() == 0)
}

/// `h` is below `g` in the lexicographic order of the five measures above.
pub open spec fn smaller(h: SEntailment, g: SEntailment) -> bool {
    m_segments(h) < m_segments(g) || (m_segments(h) == m_segments(g) && (m_equalities(h)
        < m_equalities(g) || (m_equalities(h) == m_equalities(g) && (m_atoms(h) < m_atoms(g) || (
    m_atoms(h) == m_atoms(g) && (m_witnesses(h) < m_witnesses(g) || (m_witnesses(h)
        == m_witnesses(g) && m_uncanonical(h) < m_uncanonical(g))))))))
}

/// Conjoining a disequality adds no equality.
pub proof fn lemma_add_neq_equalities(p: SPure, o: SOp)
    requires
        o is Neq,
    ensures
        count(ops_of(add_op(p, o)), eq_pred()) == count(ops_of(p), eq_pred()),
{
    assert(ops_of(add_op(p, o)) =~= ops_of(p).push(o));
    lemma_count_push(ops_of(p), o, eq_pred());
}

pub proof fn lemma_cell_strict(atoms: Seq<SAtom>, p: SPure, q: SPure, k: int)
    requires
        witnesses_more(q, p),
        0 <= k < atoms.len(),
        cell_pred(p)(atoms[k]),
        !cell_pred(q)(atoms[k]),
    ensures
        count(atoms, cell_pred(q)) < count(atoms, cell_pred(p)),
{
    assert forall|i: int| 0 <= i < atoms.len() && cell_pred(q)(#[trigger] atoms[i]) implies cell_pred(
        p,
    )(atoms[i]) by {
        if neq_witnessed(p, atoms[i].lhs(), SExpr::Nil) {
            assert(neq_witnessed(q, atoms[i].lhs(), SExpr::Nil));
        }
    }
    lemma_count_strict(atoms, cell_pred(q), cell_pred(p), k);
}

/// The last atom of `add_op(p, o)` is `o`, so `o` is witnessed there.
pub proof fn lemma_add_op_witnesses(p: SPure, a: SExpr, b: SExpr)
    ensures
        neq_witnessed(add_op(p, SOp::Neq(a, b)), a, b),
{
    let q = add_op(p, SOp::Neq(a, b));
    assert(ops_of(q)[ops_of(q).len() - 1] == SOp::Neq(a, b));
}

/// Substitution keeps the number of segments and of equalities.
pub proof fn lemma_subst_counts(v: Seq<char>, by: SExpr, g: SEntailment)
    ensures
        m_segments(goal_subst(v, by, g)) == m_segments(g),
        m_equalities(goal_subst(v, by, g)) == m_equalities(g),
{
    let h = goal_subst(v, by, g);
    let a = atoms_of(g.ant.spatial);
    let b = atoms_of(h.ant.spatial);
    assert(b.len() == a.len());
    assert forall|i: int| 0 <= i < b.len() implies ls_pred()(#[trigger] b[i]) == ls_pred()(a[i]) by {}
    lemma_count_pointwise(b, a, ls_pred(), ls_pred());
    let o = ops_of(g.ant.pure);
    let q = ops_of(h.ant.pure);
    assert(q.len() == o.len());
    assert forall|i: int| 0 <= i < q.len() implies eq_pred()(#[trigger] q[i]) == eq_pred()(o[i]) by {}
    lemma_count_pointwise(q, o, eq_pred(), eq_pred());
}

pub proof fn lemma_substitution_decreases(g: SEntailment)
    requires
        substitution_premisses(g) is Some,
    ensures
        forall|i: int|
            0 <= i < substitution_premisses(g)->Some_0.len() ==> smaller(
                #[trigger] substitution_premisses(g)->Some_0[i],
                g,
            ),
{
    let ops = ops_of(g.ant.pure);
    let k = first_index(ops.len(), eq_at(ops));
    lemma_first_index_spec(ops.len(), eq_at(ops));
    let rest = SEntailment {
        ant: crate::model::SFormula { pure: SPure::And(swap_out(ops, k)), spatial: g.ant.spatial },
        cons: g.cons,
    };
    lemma_count_swap_out(ops, k, eq_pred());
    let l = ops[k].lhs();
    let r = ops[k].rhs();
    match l {
        SExpr::Var(v) => lemma_subst_counts(v, r, rest),
        SExpr::Nil => match r {
            SExpr::Var(v) => lemma_subst_counts(v, l, rest),
            SExpr::Nil => {},
        },
    }
}

pub proof fn lemma_eq_reflexive_l_decreases(g: SEntailment)
    requires
        eq_reflexive_l_premisses(g) is Some,
    ensures
        forall|i: int|
            0 <= i < eq_reflexive_l_premisses(g)->Some_0.len() ==> smaller(
                #[trigger] eq_reflexive_l_premisses(g)->Some_0[i],
                g,
            ),
{
    let ops = ops_of(g.ant.pure);
    let k = first_index(ops.len(), refl_eq_at(ops));
    lemma_first_index_spec(ops.len(), refl_eq_at(ops));
    lemma_count_swap_out(ops, k, eq_pred());
}

pub proof fn lemma_nil_not_lval_decreases(g: SEntailment)
    requires
        nil_not_lval_premisses(g) is Some,
    ensures
        forall|i: int|
            0 <= i < nil_not_lval_premisses(g)->Some_0.len() ==> smaller(
                #[trigger] nil_not_lval_premisses(g)->Some_0[i],
                g,
            ),
{
    let atoms = atoms_of(g.ant.spatial);
    let p = g.ant.pure;
    let k = first_index(atoms.len(), unwitnessed_cell_at(p, atoms));
    lemma_first_index_spec(atoms.len(), unwitnessed_cell_at(p, atoms));
    let q = add_op(p, SOp::Neq(atoms[k].lhs(), SExpr::Nil));
    lemma_add_neq_equalities(p, SOp::Neq(atoms[k].lhs(), SExpr::Nil));
    lemma_add_op_witnesses_more(p, SOp::Neq(atoms[k].lhs(), SExpr::Nil));
    lemma_add_op_witnesses(p, atoms[k].lhs(), SExpr::Nil);
    lemma_cell_strict(atoms, p, q, k);
    lemma_pair_mono(atoms, atoms, p, q);
}

pub proof fn lemma_star_partial_decreases(g: SEntailment)
    requires
        star_partial_premisses(g) is Some,
    ensures
        forall|i: int|
            0 <= i < star_partial_premisses(g)->Some_0.len() ==> smaller(
                #[trigger] star_partial_premisses(g)->Some_0[i],
                g,
            ),
{
    let atoms = atoms_of(g.ant.spatial);
    let p = g.ant.pure;
    let i = first_index(atoms.len(), pair_row(p, atoms));
    lemma_first_index_spec(atoms.len(), pair_row(p, atoms));
    assert(pair_row(p, atoms)(i));
    let jj = choose|jj: int|
        0 <= jj < atoms.len() && #[trigger] crate::rules::starpartial::unwitnessed_pair(
            p,
            atoms,
            i,
            jj,
        );
    assert(pair_col(p, atoms, i)(jj));
    let j = first_index(atoms.len(), pair_col(p, atoms, i));
    lemma_first_index_spec(atoms.len(), pair_col(p, atoms, i));
    let o = SOp::Neq(atoms[i].lhs(), atoms[j].lhs());
    let q = add_op(p, o);
    lemma_add_neq_equalities(p, o);
    lemma_add_op_witnesses_more(p, o);
    lemma_add_op_witnesses(p, atoms[i].lhs(), atoms[j].lhs());
    lemma_cell_mono(atoms, p, q);
    lemma_pair_strict(atoms, atoms, p, q, i, j);
}

pub proof fn lemma_unroll_collapse_decreases(g: SEntailment)
    requires
        unroll_collapse_premisses(g) is Some,
    ensures
        forall|i: int|
            0 <= i < unroll_collapse_premisses(g)->Some_0.len() ==> smaller(
                #[trigger] unroll_collapse_premisses(g)->Some_0[i],
                g,
            ),
{
    let atoms = atoms_of(g.ant.spatial);
    let k = first_index(atoms.len(), ls_at(atoms));
    lemma_first_index_spec(atoms.len(), ls_at(atoms));
    let rest = swap_out(atoms, k);
    lemma_count_swap_out(atoms, k, ls_pred());
    let l = atoms[k].lhs();
    let r = atoms[k].rhs();
    if let SExpr::Var(n) = l {
        let x = SExpr::Var(fresh_name(n, goal_vars(g)));
        lemma_count_push(rest, SAtom::PtsTo(l, x), ls_pred());
        lemma_count_push(rest.push(SAtom::PtsTo(l, x)), SAtom::PtsTo(x, r), ls_pred());
    }
}

pub proof fn lemma_eq_reflexive_r_decreases(g: SEntailment)
    requires
        eq_reflexive_r_premisses(g) is Some,
    ensures
        forall|i: int|
            0 <= i < eq_reflexive_r_premisses(g)->Some_0.len() ==> smaller(
                #[trigger] eq_reflexive_r_premisses(g)->Some_0[i],
                g,
            ),
{
    let ops = ops_of(g.cons.pure);
    lemma_first_index_spec(ops.len(), refl_eq_at(ops));
}

pub proof fn lemma_empty_ls_decreases(g: SEntailment)
    requires
        empty_ls_premisses(g) is Some,
    ensures
        forall|i: int|
            0 <= i < empty_ls_premisses(g)->Some_0.len() ==> smaller(
                #[trigger] empty_ls_premisses(g)->Some_0[i],
                g,
            ),
{
    let atoms = atoms_of(g.cons.spatial);
    lemma_first_index_spec(atoms.len(), empty_ls_at(atoms));
}

pub proof fn lemma_hypothesis_decreases(g: SEntailment)
    requires
        hypothesis_premisses(g) is Some,
    ensures
        forall|i: int|
            0 <= i < hypothesis_premisses(g)->Some_0.len() ==> smaller(
                #[trigger] hypothesis_premisses(g)->Some_0[i],
                g,
            ),
{
    let a = ops_of(g.ant.pure);
    let c = ops_of(g.cons.pure);
    let i = first_index(a.len(), shared_op_row(a, c));
    lemma_first_index_spec(a.len(), shared_op_row(a, c));
    assert(shared_op_row(a, c)(i));
    let jj = choose|jj: int| 0 <= jj < c.len() && #[trigger] crate::model::same_op(a[i], c[jj]);
    assert(shared_op_col(a, c, i)(jj));
    lemma_first_index_spec(c.len(), shared_op_col(a, c, i));
    lemma_count_remove(a, i, eq_pred());
}

pub proof fn lemma_frame_decreases(g: SEntailment)
    requires
        frame_premisses(g) is Some,
    ensures
        forall|i: int|
            0 <= i < frame_premisses(g)->Some_0.len() ==> smaller(
                #[trigger] frame_premisses(g)->Some_0[i],
                g,
            ),
{
    let a = atoms_of(g.ant.spatial);
    let c = atoms_of(g.cons.spatial);
    let i = first_index(a.len(), shared_atom_row(a, c));
    lemma_first_index_spec(a.len(), shared_atom_row(a, c));
    assert(shared_atom_row(a, c)(i));
    let jj = choose|jj: int| 0 <= jj < c.len() && #[trigger] crate::model::same_atom(a[i], c[jj]);
    assert(shared_atom_col(a, c, i)(jj));
    lemma_first_index_spec(c.len(), shared_atom_col(a, c, i));
    lemma_count_remove(a, i, ls_pred());
    lemma_count_remove(a, i, pts_pred());
}

pub proof fn lemma_non_empty_ls_decreases(g: SEntailment)
    requires
        non_empty_ls_premisses(g) is Some,
    ensures
        forall|i: int|
            0 <= i < non_empty_ls_premisses(g)->Some_0.len() ==> smaller(
                #[trigger] non_empty_ls_premisses(g)->Some_0[i],
                g,
            ),
{
    let a = atoms_of(g.ant.spatial);
    let c = atoms_of(g.cons.spatial);
    let k = first_index(c.len(), unfoldable_at(g.ant.pure, a, c));
    lemma_first_index_spec(c.len(), unfoldable_at(g.ant.pure, a, c));
    assert(unfoldable_at(g.ant.pure, a, c)(k));
    let n = first_index(a.len(), cell_at(a, c[k].lhs()));
    lemma_first_index_spec(a.len(), cell_at(a, c[k].lhs()));
    lemma_count_swap_out(a, n, ls_pred());
    lemma_count_swap_out(a, n, pts_pred());
}

pub proof fn lemma_cleanup_decreases(g: SEntailment)
    requires
        cleanup_premisses(g) is Some,
    ensures
        forall|i: int|
            0 <= i < cleanup_premisses(g)->Some_0.len() ==> smaller(
                #[trigger] cleanup_premisses(g)->Some_0[i],
                g,
            ),
{
    let h = canon_goal(g);
    assert(ops_of(h.ant.pure) =~= ops_of(g.ant.pure));
    assert(ops_of(h.cons.pure) =~= ops_of(g.cons.pure));
    assert(atoms_of(h.ant.spatial) =~= atoms_of(g.ant.spatial));
    assert(atoms_of(h.cons.spatial) =~= atoms_of(g.cons.spatial));
    let atoms = atoms_of(g.ant.spatial);
    assert(witnesses_more(h.ant.pure, g.ant.pure));
    assert(witnesses_more(g.ant.pure, h.ant.pure));
    lemma_cell_mono(atoms, g.ant.pure, h.ant.pure);
    lemma_cell_mono(atoms, h.ant.pure, g.ant.pure);
    lemma_pair_mono(atoms, atoms, g.ant.pure, h.ant.pure);
    lemma_pair_mono(atoms, atoms, h.ant.pure, g.ant.pure);
}

} // verus!
