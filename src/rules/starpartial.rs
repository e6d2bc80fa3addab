use vstd::prelude::*;

use crate::datastructures::{AtomSpatial, Entailment, Formula, Op, Pure, Spatial, atoms_view, goals_view};
use crate::model::{
    SAtom, SEntailment, SFormula, SOp, SPure, add_op, atoms_of, first_index, lemma_first_index,
    neq_witnessed,
};
use crate::rules::Rule;

verus! {

/// Atoms `i` and `j` are cells at different addresses that `p` does not state to be different.
pub open spec fn unwitnessed_pair(p: SPure, atoms: Seq<SAtom>, i: int, j: int) -> bool {
    &&& atoms[i] is PtsTo
    &&& atoms[j] is PtsTo
    &&& atoms[i].lhs() != atoms[j].lhs()
    &&& !neq_witnessed(p, atoms[i].lhs(), atoms[j].lhs())
}

/// Atom `i` belongs to some unwitnessed pair as its first member.
pub open spec fn pair_row(p: SPure, atoms: Seq<SAtom>) -> spec_fn(int) -> bool {
    |i: int| exists|j: int| 0 <= j < atoms.len() && #[trigger] unwitnessed_pair(p, atoms, i, j)
}

/// Atoms `i` and `j` form an unwitnessed pair, for a fixed `i`.
pub open spec fn pair_col(p: SPure, atoms: Seq<SAtom>, i: int) -> spec_fn(int) -> bool {
    |j: int| unwitnessed_pair(p, atoms, i, j)
}

/// Two cells of the antecedent have addresses not yet stated to be different.
pub open spec fn star_partial_applies(g: SEntailment) -> bool {
    let atoms = atoms_of(g.ant.spatial);
    exists|i: int, j: int|
        0 <= i < atoms.len() && 0 <= j < atoms.len() && #[trigger] unwitnessed_pair(
            g.ant.pure,
            atoms,
            i,
            j,
        )
}

/// `Π | E1 -> F1 * E2 -> F2 * Σ |- Π' | Σ'` follows from the same goal with `E1 != E2`
/// conjoined to the antecedent, for the first unwitnessed pair in row-major order.
pub open spec fn star_partial_premisses(g: SEntailment) -> Option<Seq<SEntailment>> {
    let atoms = atoms_of(g.ant.spatial);
    let i = first_index(atoms.len(), pair_row(g.ant.pure, atoms));
    if i < 0 {
        None
    } else {
        let j = first_index(atoms.len(), pair_col(g.ant.pure, atoms, i));
        Some(
            seq![SEntailment { ant: SFormula { pure: add_op(g.ant.pure, SOp::Neq(atoms[i].lhs(), atoms[j].lhs())), spatial: g.ant.spatial }, cons: g.cons }],
        )
    }
}

/// The first unwitnessed pair of cells, in row-major order.
fn find_unwitnessed_pair(pure: &Pure, spatial: &Spatial) -> (r: Option<(usize, usize)>)
    ensures
        ({
            let atoms = atoms_of(spatial@);
            let i = first_index(atoms.len(), pair_row(pure@, atoms));
            match r {
                Some((a, b)) => a == i && b == first_index(atoms.len(), pair_col(pure@, atoms, i))
                    && 0 <= a < atoms.len() && 0 <= b < atoms.len() && unwitnessed_pair(
                    pure@,
                    atoms,
                    a as int,
                    b as int,
                ),
                None => i < 0 && forall|a: int, b: int|
                    0 <= a < atoms.len() && 0 <= b < atoms.len() ==> !#[trigger] unwitnessed_pair(
                        pure@,
                        atoms,
                        a,
                        b,
                    ),
            }
        }),
{
    let ghost atoms = atoms_of(spatial@);
    let ghost row = pair_row(pure@, atoms);
    if let Spatial::SepConj(atom_spatials) = spatial {
        let mut i: usize = 0;
        while i < atom_spatials.len()
            invariant
                i <= atom_spatials@.len(),
                atoms == atoms_view(atom_spatials@),
                atoms == atoms_of(spatial@),
                row == pair_row(pure@, atoms),
                forall|a: int, b: int|
                    0 <= a < i && 0 <= b < atoms.len() ==> !#[trigger] unwitnessed_pair(
                        pure@,
                        atoms,
                        a,
                        b,
                    ),
            decreases atom_spatials.len() - i,
        {
            let ghost col = pair_col(pure@, atoms, i as int);
            let mut j: usize = 0;
            while j < atom_spatials.len()
                invariant
                    i < atom_spatials@.len(),
                    j <= atom_spatials@.len(),
                    atoms == atoms_view(atom_spatials@),
                    atoms == atoms_of(spatial@),
                    row == pair_row(pure@, atoms),
                    col == pair_col(pure@, atoms, i as int),
                    forall|a: int, b: int|
                        0 <= a < i && 0 <= b < atoms.len() ==> !#[trigger] unwitnessed_pair(
                            pure@,
                            atoms,
                            a,
                            b,
                        ),
                    forall|b: int| 0 <= b < j ==> !#[trigger] unwitnessed_pair(pure@, atoms, i as int, b),
                decreases atom_spatials.len() - j,
            {
                if let AtomSpatial::PtsTo(l1, _) = &atom_spatials[i] {
                    if let AtomSpatial::PtsTo(l2, _) = &atom_spatials[j] {
                        if !l1.same(l2) && !pure.has_neq(l1, l2) {
                            assert(atoms[i as int] == atom_spatials@[i as int]@);
                            assert(atoms[j as int] == atom_spatials@[j as int]@);
                            assert(unwitnessed_pair(pure@, atoms, i as int, j as int));
                            proof {
                                assert(row(i as int));
                                assert forall|a: int| 0 <= a < i implies !#[trigger] row(a) by {
                                    assert forall|b: int| 0 <= b < atoms.len() implies !unwitnessed_pair(
                                        pure@,
                                        atoms,
                                        a,
                                        b,
                                    ) by {}
                                }
                                lemma_first_index(atoms.len(), row, i as int);
                                assert forall|b: int| 0 <= b < j implies !#[trigger] col(b) by {}
                                lemma_first_index(atoms.len(), col, j as int);
                            }
                            return Some((i, j));
                        }
                    }
                }
                assert(atoms[i as int] == atom_spatials@[i as int]@);
                assert(atoms[j as int] == atom_spatials@[j as int]@);
                j += 1;
            }
            i += 1;
        }
    }
    proof {
        assert forall|a: int| 0 <= a < atoms.len() implies !#[trigger] row(a) by {
            assert forall|b: int| 0 <= b < atoms.len() implies !unwitnessed_pair(pure@, atoms, a, b) by {}
        }
        lemma_first_index(atoms.len(), row, -1);
    }
    None
}

pub struct StarPartial;

impl Rule for StarPartial {
    open spec fn spec_predicate(&self, g: SEntailment) -> bool {
        star_partial_applies(g)
    }

    open spec fn spec_premisses(&self, g: SEntailment) -> Option<Seq<SEntailment>> {
        star_partial_premisses(g)
    }

    fn predicate(&self, goal: &Entailment) -> (r: bool) {
        let found = find_unwitnessed_pair(goal.antecedent.get_pure(), goal.antecedent.get_spatial());
        found.is_some()
    }

    fn premisses(&self, goal: Entailment) -> (r: Option<Vec<Entailment>>) {
        let (antecedent, consequent) = goal.destroy();
        let (ant_pure, ant_spatial) = antecedent.destroy();
        if let Some((i, j)) = find_unwitnessed_pair(&ant_pure, &ant_spatial) {
            if let Spatial::SepConj(atom_spatials) = &ant_spatial {
                let l1 = match &atom_spatials[i] {
                    AtomSpatial::PtsTo(l, _) => l.cloned(),
                    AtomSpatial::LS(l, _) => l.cloned(),
                };
                let l2 = match &atom_spatials[j] {
                    AtomSpatial::PtsTo(l, _) => l.cloned(),
                    AtomSpatial::LS(l, _) => l.cloned(),
                };
                let new_pure = ant_pure.conjoin(Op::AtomNeq(l1, l2));
                let r = vec![
                    Entailment { antecedent: Formula(new_pure, ant_spatial), consequent },
                ];
                assert(goals_view(r@) =~= star_partial_premisses(goal@).unwrap());
                return Some(r);
            }
        }
        None
    }
}

} // verus!
