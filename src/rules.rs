use vstd::prelude::*;

use crate::datastructures::{Entailment, premisses_view};
use crate::model::SEntailment;

pub mod cleanup;
pub mod contradiction;
pub mod emptyls;
pub mod eqreflexivel;
pub mod eqreflexiver;
pub mod frame;
pub mod hypothesis;
pub mod nilnotlval;
pub mod nonemptyls;
pub mod starpartial;
pub mod substitution;
pub mod tautology;
pub mod unrollcollapse;

pub use cleanup::Cleanup;
pub use contradiction::Contradiction;
pub use emptyls::EmptyLs;
pub use eqreflexivel::EqReflexiveL;
pub use eqreflexiver::EqReflexiveR;
pub use frame::Frame;
pub use hypothesis::Hypothesis;
pub use nilnotlval::NilNotLVal;
pub use nonemptyls::NonEmptyLS;
pub use starpartial::StarPartial;
pub use substitution::Substitution;
pub use tautology::Tautology;
pub use unrollcollapse::UnrollCollapse;

verus! {

/// An inference rule: an applicability test, and a transformation of a goal into the goals
/// that together prove it.
pub trait Rule {
    /// When the rule is to be tried on a goal.
    spec fn spec_predicate(&self, g: SEntailment) -> bool;

    /// What the rule makes of a goal: `None` when it cannot transform it, `Some` of the
    /// premisses otherwise (none at all for a closed goal).
    spec fn spec_premisses(&self, g: SEntailment) -> Option<Seq<SEntailment>>;

    fn predicate(&self, goal: &Entailment) -> (r: bool)
        ensures
            r == self.spec_predicate(goal@),
    ;

    fn premisses(&self, goal: Entailment) -> (r: Option<Vec<Entailment>>)
        ensures
            premisses_view(r) == self.spec_premisses(goal@),
    ;
}

} // verus!
