use vstd::prelude::*;

use crate::datastructures::{Entailment, Formula, Pure, Spatial, goals_view};
use crate::model::{SEntailment, SFormula, SPure, SSpatial};
use crate::rules::Rule;

verus! {

/// `And([])` becomes `True`; anything else stays.
pub open spec fn canon_pure(p: SPure) -> SPure {
    match p {
        SPure::And(ops) => if ops.len() == 0 {
            SPure::True
        } else {
            p
        },
        SPure::True => SPure::True,
    }
}

/// `SepConj([])` becomes `Emp`; anything else stays.
pub open spec fn canon_spatial(s: SSpatial) -> SSpatial {
    match s {
        SSpatial::SepConj(atoms) => if atoms.len() == 0 {
            SSpatial::Emp
        } else {
            s
        },
        SSpatial::Emp => SSpatial::Emp,
    }
}

pub open spec fn canon_formula(f: SFormula) -> SFormula {
    SFormula { pure: canon_pure(f.pure), spatial: canon_spatial(f.spatial) }
}

/// The goal with all four parts in canonical form.
pub open spec fn canon_goal(g: SEntailment) -> SEntailment {
    SEntailment { ant: canon_formula(g.ant), cons: canon_formula(g.cons) }
}

/// One premise, the canonical goal, when that differs from the goal; `None` otherwise.
pub open spec fn cleanup_premisses(g: SEntailment) -> Option<Seq<SEntailment>> {
    if canon_goal(g) == g {
        None
    } else {
        Some(seq![canon_goal(g)])
    }
}

fn canon_formula_exec(f: Formula) -> (r: (Formula, bool))
    ensures
        r.0@ == canon_formula(f@),
        r.1 == (canon_formula(f@) != f@),
{
    let (pure, spatial) = f.destroy();
    let change_p = if let Pure::And(v) = &pure {
        v.len() == 0
    } else {
        false
    };
    let change_s = if let Spatial::SepConj(v) = &spatial {
        v.len() == 0
    } else {
        false
    };
    let new_pure = if change_p {
        Pure::True
    } else {
        pure
    };
    let new_spatial = if change_s {
        Spatial::Emp
    } else {
        spatial
    };
    (Formula(new_pure, new_spatial), change_p || change_s)
}

pub struct Cleanup;

impl Rule for Cleanup {
    open spec fn spec_predicate(&self, g: SEntailment) -> bool {
        true
    }

    open spec fn spec_premisses(&self, g: SEntailment) -> Option<Seq<SEntailment>> {
        cleanup_premisses(g)
    }

    fn predicate(&self, _goal: &Entailment) -> (r: bool) {
        true
    }

    fn premisses(&self, goal: Entailment) -> (r: Option<Vec<Entailment>>) {
        let (antecedent, consequent) = goal.destroy();
        let (antecedent, change_a) = canon_formula_exec(antecedent);
        let (consequent, change_c) = canon_formula_exec(consequent);
        if change_a || change_c {
            let r = vec![Entailment { antecedent, consequent }];
            assert(goals_view(r@) =~= seq![canon_goal(goal@)]);
            Some(r)
        } else {
            None
        }
    }
}

} // verus!
