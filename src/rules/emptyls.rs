use vstd::prelude::*;

use crate::datastructures::{
    AtomSpatial, Entailment, Formula, Spatial, atoms_view, goals_view, lemma_atoms_swap_out,
};
use crate::misc::find_and_remove;
use crate::model::{SAtom, SEntailment, SFormula, SSpatial, first_index, lemma_first_index, swap_out};
use crate::rules::Rule;

verus! {

/// An empty list segment `ls(E, E)`.
pub open spec fn is_empty_ls(a: SAtom) -> bool {
    a is LS && a.lhs() == a.rhs()
}

/// Index `k` of `atoms` holds an empty list segment.
pub open spec fn empty_ls_at(atoms: Seq<SAtom>) -> spec_fn(int) -> bool {
    |k: int| is_empty_ls(atoms[k])
}

/// `Π | Σ |- Π' | ls(E, E) * Σ'` follows from `Π | Σ |- Π' | Σ'`: the first empty segment of the
/// consequent is dropped.
pub open spec fn empty_ls_premisses(g: SEntailment) -> Option<Seq<SEntailment>> {
    match g.cons.spatial {
        SSpatial::SepConj(atoms) => {
            let k = first_index(atoms.len(), empty_ls_at(atoms));
            if k < 0 {
                None
            } else {
                Some(
                    seq![SEntailment { ant: g.ant, cons: SFormula { pure: g.cons.pure, spatial: SSpatial::SepConj(swap_out(atoms, k)) } }],
                )
            }
        },
        SSpatial::Emp => None,
    }
}

pub struct EmptyLs;

impl Rule for EmptyLs {
    open spec fn spec_predicate(&self, g: SEntailment) -> bool {
        true
    }

    open spec fn spec_premisses(&self, g: SEntailment) -> Option<Seq<SEntailment>> {
        empty_ls_premisses(g)
    }

    fn predicate(&self, _goal: &Entailment) -> (r: bool) {
        true
    }

    fn premisses(&self, goal: Entailment) -> (r: Option<Vec<Entailment>>) {
        let (antecedent, consequent) = goal.destroy();
        let (pure, spatial) = consequent.destroy();
        if let Spatial::SepConj(mut spatial_vec) = spatial {
            let ghost old_v = spatial_vec@;
            let ghost atoms = atoms_view(old_v);
            let empty = |x: &AtomSpatial| -> (b: bool)
                ensures
                    b == is_empty_ls(x@),
                {
                    match x {
                        AtomSpatial::LS(l, r) => l.same(r),
                        _ => false,
                    }
                };
            if let Some(_) = find_and_remove(&mut spatial_vec, empty) {
                proof {
                    let i = choose|i: int|
                        0 <= i < old_v.len() && is_empty_ls(old_v[i]@) && (forall|j: int|
                            0 <= j < i ==> !is_empty_ls(#[trigger] old_v[j]@)) && spatial_vec@
                            == swap_out(old_v, i);
                    assert forall|j: int| 0 <= j < i implies !#[trigger] empty_ls_at(atoms)(j) by {
                        assert(!is_empty_ls(old_v[j]@));
                    }
                    lemma_first_index(atoms.len(), empty_ls_at(atoms), i);
                    lemma_atoms_swap_out(old_v, i);
                }
                let r = vec![
                    Entailment { antecedent, consequent: Formula(pure, Spatial::SepConj(spatial_vec)) },
                ];
                assert(goals_view(r@) =~= empty_ls_premisses(goal@).unwrap());
                return Some(r);
            }
            proof {
                assert forall|j: int| 0 <= j < atoms.len() implies !#[trigger] empty_ls_at(atoms)(j) by {
                    assert(!is_empty_ls(old_v[j]@));
                }
                lemma_first_index(atoms.len(), empty_ls_at(atoms), -1);
            }
        }
        None
    }
}

} // verus!
