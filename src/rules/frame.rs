use vstd::prelude::*;

use crate::datastructures::{
    AtomSpatial, Entailment, Formula, Spatial, atoms_view, goals_view, is_normal,
    lemma_atoms_remove,
};
use crate::model::{SAtom, SEntailment, SFormula, SSpatial, first_index, lemma_first_index, same_atom};
use crate::rules::Rule;

verus! {

/// Atom `i` of `a` matches some atom of `c`.
pub open spec fn shared_atom_row(a: Seq<SAtom>, c: Seq<SAtom>) -> spec_fn(int) -> bool {
    |i: int| exists|j: int| 0 <= j < c.len() && #[trigger] same_atom(a[i], c[j])
}

/// Atom `j` of `c` matches atom `i` of `a`.
pub open spec fn shared_atom_col(a: Seq<SAtom>, c: Seq<SAtom>, i: int) -> spec_fn(int) -> bool {
    |j: int| same_atom(a[i], c[j])
}

/// `Π | S * Σ |- Π' | S * Σ'` follows from `Π | Σ |- Π' | Σ'`: the first spatial atom of the
/// antecedent that the consequent shares, and its first match there, are removed; order is
/// kept.
pub open spec fn frame_premisses(g: SEntailment) -> Option<Seq<SEntailment>> {
    match (g.ant.spatial, g.cons.spatial) {
        (SSpatial::SepConj(a), SSpatial::SepConj(c)) => {
            let i = first_index(a.len(), shared_atom_row(a, c));
            if i < 0 {
                None
            } else {
                let j = first_index(c.len(), shared_atom_col(a, c, i));
                Some(
                    seq![SEntailment { ant: SFormula { pure: g.ant.pure, spatial: SSpatial::SepConj(a.remove(i)) }, cons: SFormula { pure: g.cons.pure, spatial: SSpatial::SepConj(c.remove(j)) } }],
                )
            }
        },
        _ => None,
    }
}

/// The first pair of matching atoms, in row-major order.
fn find_shared_atom(av: &Vec<AtomSpatial>, cv: &Vec<AtomSpatial>) -> (r: Option<(usize, usize)>)
    ensures
        ({
            let a = atoms_view(av@);
            let c = atoms_view(cv@);
            let i = first_index(a.len(), shared_atom_row(a, c));
            match r {
                Some((x, y)) => x == i && y == first_index(c.len(), shared_atom_col(a, c, i)) && 0
                    <= x < a.len() && 0 <= y < c.len(),
                None => i < 0,
            }
        }),
{
    let ghost a = atoms_view(av@);
    let ghost c = atoms_view(cv@);
    let ghost row = shared_atom_row(a, c);
    let mut i: usize = 0;
    while i < av.len()
        invariant
            i <= av@.len(),
            a == atoms_view(av@),
            c == atoms_view(cv@),
            row == shared_atom_row(a, c),
            forall|x: int, y: int|
                0 <= x < i && 0 <= y < c.len() ==> !#[trigger] same_atom(a[x], c[y]),
        decreases av.len() - i,
    {
        let ghost col = shared_atom_col(a, c, i as int);
        let mut j: usize = 0;
        while j < cv.len()
            invariant
                i < av@.len(),
                j <= cv@.len(),
                a == atoms_view(av@),
                c == atoms_view(cv@),
                row == shared_atom_row(a, c),
                col == shared_atom_col(a, c, i as int),
                forall|x: int, y: int|
                    0 <= x < i && 0 <= y < c.len() ==> !#[trigger] same_atom(a[x], c[y]),
                forall|y: int| 0 <= y < j ==> !#[trigger] same_atom(a[i as int], c[y]),
            decreases cv.len() - j,
        {
            if av[i].matches(&cv[j]) {
                proof {
                    assert(same_atom(a[i as int], c[j as int]));
                    assert(row(i as int));
                    assert forall|x: int| 0 <= x < i implies !#[trigger] row(x) by {
                        assert forall|y: int| 0 <= y < c.len() implies !same_atom(a[x], c[y]) by {}
                    }
                    lemma_first_index(a.len(), row, i as int);
                    assert forall|y: int| 0 <= y < j implies !#[trigger] col(y) by {}
                    lemma_first_index(c.len(), col, j as int);
                }
                return Some((i, j));
            }
            j += 1;
        }
        i += 1;
    }
    proof {
        assert forall|x: int| 0 <= x < a.len() implies !#[trigger] row(x) by {
            assert forall|y: int| 0 <= y < c.len() implies !same_atom(a[x], c[y]) by {}
        }
        lemma_first_index(a.len(), row, -1);
    }
    None
}

pub struct Frame;

impl Rule for Frame {
    open spec fn spec_predicate(&self, g: SEntailment) -> bool {
        is_normal(g.ant)
    }

    open spec fn spec_premisses(&self, g: SEntailment) -> Option<Seq<SEntailment>> {
        frame_premisses(g)
    }

    fn predicate(&self, goal: &Entailment) -> (r: bool) {
        goal.is_normal_form()
    }

    fn premisses(&self, goal: Entailment) -> (r: Option<Vec<Entailment>>) {
        let (antecedent, consequent) = goal.destroy();
        let (ant_pure, ant_spatial) = antecedent.destroy();
        let (cons_pure, cons_spatial) = consequent.destroy();
        if let Spatial::SepConj(mut spatial_ant_vec) = ant_spatial {
            if let Spatial::SepConj(mut spatial_cons_vec) = cons_spatial {
                if let Some((i, j)) = find_shared_atom(&spatial_ant_vec, &spatial_cons_vec) {
                    proof {
                        lemma_atoms_remove(spatial_ant_vec@, i as int);
                        lemma_atoms_remove(spatial_cons_vec@, j as int);
                    }
                    spatial_ant_vec.remove(i);
                    spatial_cons_vec.remove(j);
                    let r = vec![
                        Entailment {
                            antecedent: Formula(ant_pure, Spatial::SepConj(spatial_ant_vec)),
                            consequent: Formula(cons_pure, Spatial::SepConj(spatial_cons_vec)),
                        },
                    ];
                    assert(goals_view(r@) =~= frame_premisses(goal@).unwrap());
                    return Some(r);
                }
            }
        }
        None
    }
}

} // verus!
