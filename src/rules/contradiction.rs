use vstd::prelude::*;

use crate::datastructures::{Entailment, Op, Pure, goals_view};
use crate::model::{SEntailment, SOp, ops_of};
use crate::rules::Rule;

verus! {

/// The antecedent's pure part states `e != e` for some `e`.
pub open spec fn has_self_neq(g: SEntailment) -> bool {
    exists|k: int|
        0 <= k < ops_of(g.ant.pure).len() && (#[trigger] ops_of(g.ant.pure)[k] is Neq)
            && ops_of(g.ant.pure)[k].lhs() == ops_of(g.ant.pure)[k].rhs()
}

/// `Π ∧ E != E | Σ |- Π' | Σ'` closes the goal: its hypothesis is unsatisfiable.
pub open spec fn contradiction_premisses(g: SEntailment) -> Option<Seq<SEntailment>> {
    if has_self_neq(g) {
        Some(Seq::empty())
    } else {
        None
    }
}

pub struct Contradiction;

impl Rule for Contradiction {
    open spec fn spec_predicate(&self, g: SEntailment) -> bool {
        true
    }

    open spec fn spec_premisses(&self, g: SEntailment) -> Option<Seq<SEntailment>> {
        contradiction_premisses(g)
    }

    fn predicate(&self, _goal: &Entailment) -> (r: bool) {
        true
    }

    fn premisses(&self, goal: Entailment) -> (r: Option<Vec<Entailment>>) {
        if let Pure::And(pure_sub) = goal.antecedent.get_pure() {
            let ghost ops = ops_of(goal@.ant.pure);
            let mut i: usize = 0;
            while i < pure_sub.len()
                invariant
                    i <= pure_sub@.len(),
                    goal@.ant.pure == (Pure::And(*pure_sub))@,
                    ops == ops_of(goal@.ant.pure),
                    forall|k: int|
                        0 <= k < i ==> !((#[trigger] ops[k] is Neq) && ops[k].lhs() == ops[k].rhs()),
                decreases pure_sub.len() - i,
            {
                if let Op::AtomNeq(l, r) = &pure_sub[i] {
                    if l.same(r) {
                        assert(ops[i as int] == SOp::Neq(l@, r@));
                        let r: Vec<Entailment> = Vec::new();
                        assert(goals_view(r@) =~= Seq::empty());
                        return Some(r);
                    }
                }
                i += 1;
            }
        }
        None
    }
}

} // verus!
