use vstd::prelude::*;

use crate::datastructures::{Entailment, Pure, Spatial, goals_view};
use crate::model::SEntailment;
use crate::rules::Rule;

verus! {

/// `Π | emp |- true | emp` closes the goal.
pub open spec fn tautology_premisses(g: SEntailment) -> Option<Seq<SEntailment>> {
    if g.ant.spatial is Emp && g.cons.spatial is Emp && g.cons.pure is True {
        Some(Seq::empty())
    } else {
        None
    }
}

pub struct Tautology;

impl Rule for Tautology {
    open spec fn spec_predicate(&self, g: SEntailment) -> bool {
        true
    }

    open spec fn spec_premisses(&self, g: SEntailment) -> Option<Seq<SEntailment>> {
        tautology_premisses(g)
    }

    fn predicate(&self, _goal: &Entailment) -> (r: bool) {
        true
    }

    fn premisses(&self, goal: Entailment) -> (r: Option<Vec<Entailment>>) {
        if let Spatial::Emp = goal.antecedent.get_spatial() {
            if let Spatial::Emp = goal.consequent.get_spatial() {
                if let Pure::True = goal.consequent.get_pure() {
                    let r: Vec<Entailment> = Vec::new();
                    assert(goals_view(r@) =~= Seq::empty());
                    return Some(r);
                }
            }
        }
        None
    }
}

} // verus!
