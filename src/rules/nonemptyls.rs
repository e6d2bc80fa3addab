use vstd::prelude::*;

use crate::datastructures::{
    AtomSpatial, Entailment, Expr, Formula, Pure, Spatial, atoms_view, goals_view, is_normal,
    lemma_atoms_push, lemma_atoms_swap_out,
};
use crate::model::{
    SAtom, SEntailment, SExpr, SFormula, SPure, SSpatial, atoms_of, first_index, lemma_first_index,
    lemma_first_index_spec, neq_witnessed, swap_out,
};
use crate::rules::Rule;

verus! {

/// Index `n` of `atoms` is a cell at address `e`.
pub open spec fn cell_at(atoms: Seq<SAtom>, e: SExpr) -> spec_fn(int) -> bool {
    |n: int| atoms[n] is PtsTo && atoms[n].lhs() == e
}

/// Consequent atom `k` is a segment `ls(E1, E2)` whose ends the antecedent states to be
/// different, and whose start is the address of a cell of the antecedent.
pub open spec fn unfoldable(p: SPure, a: Seq<SAtom>, c: Seq<SAtom>, k: int) -> bool {
    &&& c[k] is LS
    &&& neq_witnessed(p, c[k].lhs(), c[k].rhs())
    &&& exists|n: int| 0 <= n < a.len() && #[trigger] cell_at(a, c[k].lhs())(n)
}

pub open spec fn unfoldable_at(p: SPure, a: Seq<SAtom>, c: Seq<SAtom>) -> spec_fn(int) -> bool {
    |k: int| unfoldable(p, a, c, k)
}

/// `Π ∧ E1 != E2 | E1 -> E3 * Σ |- Π' | ls(E1, E2) * Σ'` follows from
/// `Π ∧ E1 != E2 | Σ |- Π' | ls(E3, E2) * Σ'`, for the first such segment of the consequent and
/// the first cell at `E1`; both are taken out as `Vec::swap_remove` does, and the shorter
/// segment goes last.
pub open spec fn non_empty_ls_premisses(g: SEntailment) -> Option<Seq<SEntailment>> {
    let a = atoms_of(g.ant.spatial);
    let c = atoms_of(g.cons.spatial);
    let k = first_index(c.len(), unfoldable_at(g.ant.pure, a, c));
    if k < 0 {
        None
    } else {
        let n = first_index(a.len(), cell_at(a, c[k].lhs()));
        Some(
            seq![SEntailment { ant: SFormula { pure: g.ant.pure, spatial: SSpatial::SepConj(swap_out(a, n)) }, cons: SFormula { pure: g.cons.pure, spatial: SSpatial::SepConj(swap_out(c, k).push(SAtom::LS(a[n].rhs(), c[k].rhs()))) } }],
        )
    }
}

/// The index of the first cell at address `e`.
fn find_cell(atoms: &Vec<AtomSpatial>, e: &Expr) -> (r: Option<usize>)
    ensures
        ({
            let a = atoms_view(atoms@);
            let n = first_index(a.len(), cell_at(a, e@));
            match r {
                Some(i) => i == n && 0 <= n < a.len(),
                None => n < 0,
            }
        }),
{
    let ghost a = atoms_view(atoms@);
    let ghost p = cell_at(a, e@);
    let mut i: usize = 0;
    while i < atoms.len()
        invariant
            i <= atoms@.len(),
            a == atoms_view(atoms@),
            p == cell_at(a, e@),
            forall|j: int| 0 <= j < i ==> !#[trigger] p(j),
        decreases atoms.len() - i,
    {
        if let AtomSpatial::PtsTo(l, _) = &atoms[i] {
            if l.same(e) {
                assert(a[i as int] == atoms@[i as int]@);
                proof {
                    lemma_first_index(a.len(), p, i as int);
                }
                return Some(i);
            }
        }
        assert(a[i as int] == atoms@[i as int]@);
        i += 1;
    }
    proof {
        lemma_first_index(a.len(), p, -1);
    }
    None
}

/// The first unfoldable segment of the consequent, and the first cell at its start.
fn find_unfoldable(pure: &Pure, ant: &Vec<AtomSpatial>, cons: &Vec<AtomSpatial>) -> (r: Option<
    (usize, usize),
>)
    ensures
        ({
            let a = atoms_view(ant@);
            let c = atoms_view(cons@);
            let k = first_index(c.len(), unfoldable_at(pure@, a, c));
            match r {
                Some((x, y)) => x == k && 0 <= k < c.len() && y == first_index(
                    a.len(),
                    cell_at(a, c[k].lhs()),
                ) && 0 <= y < a.len(),
                None => k < 0,
            }
        }),
{
    let ghost a = atoms_view(ant@);
    let ghost c = atoms_view(cons@);
    let ghost p = unfoldable_at(pure@, a, c);
    let mut k: usize = 0;
    while k < cons.len()
        invariant
            k <= cons@.len(),
            a == atoms_view(ant@),
            c == atoms_view(cons@),
            p == unfoldable_at(pure@, a, c),
            forall|j: int| 0 <= j < k ==> !#[trigger] p(j),
        decreases cons.len() - k,
    {
        assert(c[k as int] == cons@[k as int]@);
        if let AtomSpatial::LS(e1, e2) = &cons[k] {
            if pure.has_neq(e1, e2) {
                if let Some(n) = find_cell(ant, e1) {
                    proof {
                        lemma_first_index_spec(a.len(), cell_at(a, e1@));
                        assert(cell_at(a, e1@)(n as int));
                        assert(p(k as int));
                        lemma_first_index(c.len(), p, k as int);
                    }
                    return Some((k, n));
                }
                proof {
                    lemma_first_index_spec(a.len(), cell_at(a, e1@));
                }
            }
        }
        k += 1;
    }
    proof {
        lemma_first_index(c.len(), p, -1);
    }
    None
}

pub struct NonEmptyLS;

impl Rule for NonEmptyLS {
    open spec fn spec_predicate(&self, g: SEntailment) -> bool {
        is_normal(g.ant)
    }

    open spec fn spec_premisses(&self, g: SEntailment) -> Option<Seq<SEntailment>> {
        non_empty_ls_premisses(g)
    }

    fn predicate(&self, goal: &Entailment) -> (r: bool) {
        goal.is_normal_form()
    }

    fn premisses(&self, goal: Entailment) -> (r: Option<Vec<Entailment>>) {
        let (antecedent, consequent) = goal.destroy();
        let (ant_pure, ant_spatial) = antecedent.destroy();
        let (cons_pure, cons_spatial) = consequent.destroy();
        if let Spatial::SepConj(mut ant_spatials) = ant_spatial {
            if let Spatial::SepConj(mut cons_spatials) = cons_spatial {
                if let Some((k, n)) = find_unfoldable(&ant_pure, &ant_spatials, &cons_spatials) {
                    let ghost a = atoms_view(ant_spatials@);
                    let ghost c = atoms_view(cons_spatials@);
                    let ghost a0 = ant_spatials@;
                    let ghost c0 = cons_spatials@;
                    assert(c[k as int] == c0[k as int]@);
                    assert(a[n as int] == a0[n as int]@);
                    let cell = ant_spatials.swap_remove(n);
                    let seg = cons_spatials.swap_remove(k);
                    let e6 = match cell {
                        AtomSpatial::PtsTo(_, r) => r,
                        AtomSpatial::LS(_, r) => r,
                    };
                    let e2 = match seg {
                        AtomSpatial::PtsTo(_, r) => r,
                        AtomSpatial::LS(_, r) => r,
                    };
                    let new_seg = AtomSpatial::LS(e6, e2);
                    proof {
                        lemma_atoms_swap_out(a0, n as int);
                        lemma_atoms_swap_out(c0, k as int);
                        lemma_atoms_push(cons_spatials@, new_seg);
                    }
                    cons_spatials.push(new_seg);
                    let r = vec![
                        Entailment {
                            antecedent: Formula(ant_pure, Spatial::SepConj(ant_spatials)),
                            consequent: Formula(cons_pure, Spatial::SepConj(cons_spatials)),
                        },
                    ];
                    assert(goals_view(r@) =~= non_empty_ls_premisses(goal@).unwrap());
                    return Some(r);
                }
            } else {
                proof {
                    lemma_first_index(0, unfoldable_at(goal@.ant.pure, atoms_view(ant_spatials@), Seq::empty()), -1);
                }
            }
        } else {
            proof {
                let a = atoms_of(goal@.ant.spatial);
                let c = atoms_of(goal@.cons.spatial);
                assert forall|j: int| 0 <= j < c.len() implies !#[trigger] unfoldable_at(goal@.ant.pure, a, c)(j) by {}
                lemma_first_index(c.len(), unfoldable_at(goal@.ant.pure, a, c), -1);
            }
        }
        None
    }
}

} // verus!
