use vstd::prelude::*;

use crate::datastructures::{Entailment, Formula, Op, Pure, goals_view, lemma_ops_remove, ops_view};
use crate::model::{SEntailment, SFormula, SOp, SPure, first_index, lemma_first_index, same_op};
use crate::rules::Rule;

verus! {

/// Atom `i` of `a` matches some atom of `c`.
pub open spec fn shared_op_row(a: Seq<SOp>, c: Seq<SOp>) -> spec_fn(int) -> bool {
    |i: int| exists|j: int| 0 <= j < c.len() && #[trigger] same_op(a[i], c[j])
}

/// Atom `j` of `c` matches atom `i` of `a`.
pub open spec fn shared_op_col(a: Seq<SOp>, c: Seq<SOp>, i: int) -> spec_fn(int) -> bool {
    |j: int| same_op(a[i], c[j])
}

/// `Π ∧ P | Σ |- Π' ∧ P | Σ'` follows from `Π | Σ |- Π' | Σ'`: the first atom of the antecedent
/// that the consequent shares, and its first match there, are removed; order is kept.
pub open spec fn hypothesis_premisses(g: SEntailment) -> Option<Seq<SEntailment>> {
    match (g.ant.pure, g.cons.pure) {
        (SPure::And(a), SPure::And(c)) => {
            let i = first_index(a.len(), shared_op_row(a, c));
            if i < 0 {
                None
            } else {
                let j = first_index(c.len(), shared_op_col(a, c, i));
                Some(
                    seq![SEntailment { ant: SFormula { pure: SPure::And(a.remove(i)), spatial: g.ant.spatial }, cons: SFormula { pure: SPure::And(c.remove(j)), spatial: g.cons.spatial } }],
                )
            }
        },
        _ => None,
    }
}

/// The first pair of matching atoms, in row-major order.
fn find_shared_op(av: &Vec<Op>, cv: &Vec<Op>) -> (r: Option<(usize, usize)>)
    ensures
        ({
            let a = ops_view(av@);
            let c = ops_view(cv@);
            let i = first_index(a.len(), shared_op_row(a, c));
            match r {
                Some((x, y)) => x == i && y == first_index(c.len(), shared_op_col(a, c, i)) && 0
                    <= x < a.len() && 0 <= y < c.len(),
                None => i < 0,
            }
        }),
{
    let ghost a = ops_view(av@);
    let ghost c = ops_view(cv@);
    let ghost row = shared_op_row(a, c);
    let mut i: usize = 0;
    while i < av.len()
        invariant
            i <= av@.len(),
            a == ops_view(av@),
            c == ops_view(cv@),
            row == shared_op_row(a, c),
            forall|x: int, y: int| 0 <= x < i && 0 <= y < c.len() ==> !#[trigger] same_op(a[x], c[y]),
        decreases av.len() - i,
    {
        let ghost col = shared_op_col(a, c, i as int);
        let mut j: usize = 0;
        while j < cv.len()
            invariant
                i < av@.len(),
                j <= cv@.len(),
                a == ops_view(av@),
                c == ops_view(cv@),
                row == shared_op_row(a, c),
                col == shared_op_col(a, c, i as int),
                forall|x: int, y: int|
                    0 <= x < i && 0 <= y < c.len() ==> !#[trigger] same_op(a[x], c[y]),
                forall|y: int| 0 <= y < j ==> !#[trigger] same_op(a[i as int], c[y]),
            decreases cv.len() - j,
        {
            if av[i].matches(&cv[j]) {
                proof {
                    assert(same_op(a[i as int], c[j as int]));
                    assert(row(i as int));
                    assert forall|x: int| 0 <= x < i implies !#[trigger] row(x) by {
                        assert forall|y: int| 0 <= y < c.len() implies !same_op(a[x], c[y]) by {}
                    }
                    lemma_first_index(a.len(), row, i as int);
                    assert forall|y: int| 0 <= y < j implies !#[trigger] col(y) by {}
                    lemma_first_index(c.len(), col, j as int);
                }
                return Some((i, j));
            }
            j += 1;
        }
        i += 1;
    }
    proof {
        assert forall|x: int| 0 <= x < a.len() implies !#[trigger] row(x) by {
            assert forall|y: int| 0 <= y < c.len() implies !same_op(a[x], c[y]) by {}
        }
        lemma_first_index(a.len(), row, -1);
    }
    None
}

pub struct Hypothesis;

impl Rule for Hypothesis {
    open spec fn spec_predicate(&self, g: SEntailment) -> bool {
        true
    }

    open spec fn spec_premisses(&self, g: SEntailment) -> Option<Seq<SEntailment>> {
        hypothesis_premisses(g)
    }

    fn predicate(&self, _goal: &Entailment) -> (r: bool) {
        true
    }

    fn premisses(&self, goal: Entailment) -> (r: Option<Vec<Entailment>>) {
        let (antecedent, consequent) = goal.destroy();
        let (ant_pure, ant_spatial) = antecedent.destroy();
        let (cons_pure, cons_spatial) = consequent.destroy();
        if let Pure::And(mut pure_ant_vec) = ant_pure {
            if let Pure::And(mut pure_cons_vec) = cons_pure {
                if let Some((i, j)) = find_shared_op(&pure_ant_vec, &pure_cons_vec) {
                    proof {
                        lemma_ops_remove(pure_ant_vec@, i as int);
                        lemma_ops_remove(pure_cons_vec@, j as int);
                    }
                    pure_ant_vec.remove(i);
                    pure_cons_vec.remove(j);
                    let r = vec![
                        Entailment {
                            antecedent: Formula(Pure::And(pure_ant_vec), ant_spatial),
                            consequent: Formula(Pure::And(pure_cons_vec), cons_spatial),
                        },
                    ];
                    assert(goals_view(r@) =~= hypothesis_premisses(goal@).unwrap());
                    return Some(r);
                }
            }
        }
        None
    }
}

} // verus!
