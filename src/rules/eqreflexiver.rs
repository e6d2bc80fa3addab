use vstd::prelude::*;

use crate::datastructures::{Entailment, Formula, Pure, goals_view};
use crate::model::{SEntailment, SFormula, SPure, first_index, swap_out};
use crate::rules::Rule;
use crate::rules::eqreflexivel::{refl_eq_at, remove_refl_eq};

verus! {

/// `Π | Σ |- Π' ∧ E = E | Σ'` follows from `Π | Σ |- Π' | Σ'`: the first trivial equality of
/// the consequent is dropped.
pub open spec fn eq_reflexive_r_premisses(g: SEntailment) -> Option<Seq<SEntailment>> {
    match g.cons.pure {
        SPure::And(ops) => {
            let k = first_index(ops.len(), refl_eq_at(ops));
            if k < 0 {
                None
            } else {
                Some(
                    seq![SEntailment { ant: g.ant, cons: SFormula { pure: SPure::And(swap_out(ops, k)), spatial: g.cons.spatial } }],
                )
            }
        },
        SPure::True => None,
    }
}

pub struct EqReflexiveR;

impl Rule for EqReflexiveR {
    open spec fn spec_predicate(&self, g: SEntailment) -> bool {
        true
    }

    open spec fn spec_premisses(&self, g: SEntailment) -> Option<Seq<SEntailment>> {
        eq_reflexive_r_premisses(g)
    }

    fn predicate(&self, _goal: &Entailment) -> (r: bool) {
        true
    }

    fn premisses(&self, goal: Entailment) -> (r: Option<Vec<Entailment>>) {
        let (antecedent, consequent) = goal.destroy();
        let (pure, spatial) = consequent.destroy();
        if let Pure::And(mut pure_vec) = pure {
            if remove_refl_eq(&mut pure_vec) {
                let r = vec![
                    Entailment { antecedent, consequent: Formula(Pure::And(pure_vec), spatial) },
                ];
                assert(goals_view(r@) =~= eq_reflexive_r_premisses(goal@).unwrap());
                return Some(r);
            }
        }
        None
    }
}

} // verus!
