use vstd::prelude::*;

use crate::datastructures::{AtomSpatial, Entailment, Expr, Formula, Op, Pure, Spatial, atoms_view, goals_view};
use crate::model::{
    SAtom, SEntailment, SExpr, SFormula, SOp, SPure, add_op, atoms_of, first_index,
    lemma_first_index, lemma_first_index_spec, neq_witnessed,
};
use crate::rules::Rule;

verus! {

/// Index `k` of `atoms` is a cell whose address `p` does not state to be non-nil.
pub open spec fn unwitnessed_cell_at(p: SPure, atoms: Seq<SAtom>) -> spec_fn(int) -> bool {
    |k: int| atoms[k] is PtsTo && !neq_witnessed(p, atoms[k].lhs(), SExpr::Nil)
}

/// Some cell of the antecedent has an address not yet stated to be non-nil.
pub open spec fn nil_not_lval_applies(g: SEntailment) -> bool {
    let atoms = atoms_of(g.ant.spatial);
    exists|k: int| 0 <= k < atoms.len() && #[trigger] unwitnessed_cell_at(g.ant.pure, atoms)(k)
}

/// `Π | E -> F * Σ |- Π' | Σ'` follows from `Π ∧ E != nil | E -> F * Σ |- Π' | Σ'`: the address
/// of the first unwitnessed cell is stated to be non-nil.
pub open spec fn nil_not_lval_premisses(g: SEntailment) -> Option<Seq<SEntailment>> {
    let atoms = atoms_of(g.ant.spatial);
    let k = first_index(atoms.len(), unwitnessed_cell_at(g.ant.pure, atoms));
    if k < 0 {
        None
    } else {
        Some(
            seq![SEntailment { ant: SFormula { pure: add_op(g.ant.pure, SOp::Neq(atoms[k].lhs(), SExpr::Nil)), spatial: g.ant.spatial }, cons: g.cons }],
        )
    }
}

/// The index of the first cell whose address `pure` does not state to be non-nil.
fn find_unwitnessed_cell(pure: &Pure, spatial: &Spatial) -> (r: Option<usize>)
    ensures
        ({
            let atoms = atoms_of(spatial@);
            let k = first_index(atoms.len(), unwitnessed_cell_at(pure@, atoms));
            match r {
                Some(i) => i == k && 0 <= k < atoms.len(),
                None => k < 0,
            }
        }),
{
    let ghost atoms = atoms_of(spatial@);
    let ghost p = unwitnessed_cell_at(pure@, atoms);
    if let Spatial::SepConj(atom_spatials) = spatial {
        let nil = Expr::Nil;
        let mut i: usize = 0;
        while i < atom_spatials.len()
            invariant
                i <= atom_spatials@.len(),
                atoms == atoms_view(atom_spatials@),
                atoms == atoms_of(spatial@),
                p == unwitnessed_cell_at(pure@, atoms),
                nil@ == SExpr::Nil,
                forall|j: int| 0 <= j < i ==> !#[trigger] p(j),
            decreases atom_spatials.len() - i,
        {
            if let AtomSpatial::PtsTo(l, _) = &atom_spatials[i] {
                if !pure.has_neq(l, &nil) {
                    assert(atoms[i as int] == atom_spatials@[i as int]@);
                    assert(p(i as int));
                    proof {
                        lemma_first_index(atoms.len(), p, i as int);
                    }
                    return Some(i);
                }
            }
            i += 1;
        }
    }
    proof {
        lemma_first_index(atoms.len(), p, -1);
    }
    None
}

pub struct NilNotLVal;

impl Rule for NilNotLVal {
    open spec fn spec_predicate(&self, g: SEntailment) -> bool {
        nil_not_lval_applies(g)
    }

    open spec fn spec_premisses(&self, g: SEntailment) -> Option<Seq<SEntailment>> {
        nil_not_lval_premisses(g)
    }

    fn predicate(&self, goal: &Entailment) -> (r: bool) {
        let found = find_unwitnessed_cell(goal.antecedent.get_pure(), goal.antecedent.get_spatial());
        proof {
            let atoms = atoms_of(goal@.ant.spatial);
            let p = unwitnessed_cell_at(goal@.ant.pure, atoms);
            lemma_first_index_spec(atoms.len(), p);
        }
        found.is_some()
    }

    fn premisses(&self, goal: Entailment) -> (r: Option<Vec<Entailment>>) {
        let (antecedent, consequent) = goal.destroy();
        let (ant_pure, ant_spatial) = antecedent.destroy();
        if let Some(k) = find_unwitnessed_cell(&ant_pure, &ant_spatial) {
            if let Spatial::SepConj(atom_spatials) = &ant_spatial {
                let l = match &atom_spatials[k] {
                    AtomSpatial::PtsTo(l, _) => l.cloned(),
                    AtomSpatial::LS(l, _) => l.cloned(),
                };
                let new_pure = ant_pure.conjoin(Op::AtomNeq(l, Expr::Nil));
                let r = vec![
                    Entailment { antecedent: Formula(new_pure, ant_spatial), consequent },
                ];
                assert(goals_view(r@) =~= nil_not_lval_premisses(goal@).unwrap());
                return Some(r);
            }
        }
        None
    }
}

} // verus!
