use vstd::prelude::*;

use crate::datastructures::{Entailment, goals_view, is_normal, premisses_view};
use crate::model::{SEntailment, first_index, lemma_first_index};
use crate::rules::cleanup::cleanup_premisses;
use crate::rules::contradiction::contradiction_premisses;
use crate::rules::emptyls::empty_ls_premisses;
use crate::rules::eqreflexivel::eq_reflexive_l_premisses;
use crate::rules::eqreflexiver::eq_reflexive_r_premisses;
use crate::rules::frame::frame_premisses;
use crate::rules::hypothesis::hypothesis_premisses;
use crate::rules::nilnotlval::{nil_not_lval_applies, nil_not_lval_premisses};
use crate::rules::nonemptyls::non_empty_ls_premisses;
use crate::rules::starpartial::{star_partial_applies, star_partial_premisses};
use crate::rules::substitution::substitution_premisses;
use crate::rules::tautology::tautology_premisses;
use crate::rules::unrollcollapse::unroll_collapse_premisses;
use crate::rules::{
    Cleanup, Contradiction, EmptyLs, EqReflexiveL, EqReflexiveR, Frame, Hypothesis, NilNotLVal,
    NonEmptyLS, Rule, StarPartial, Substitution, Tautology, UnrollCollapse,
};
use crate::termination::{
    lemma_cleanup_decreases, lemma_empty_ls_decreases, lemma_eq_reflexive_l_decreases,
    lemma_eq_reflexive_r_decreases, lemma_frame_decreases, lemma_hypothesis_decreases,
    lemma_nil_not_lval_decreases, lemma_non_empty_ls_decreases, lemma_star_partial_decreases,
    lemma_substitution_decreases, lemma_unroll_collapse_decreases, m_atoms, m_equalities,
    m_segments, m_uncanonical, m_witnesses, smaller,
};

verus! {

/// The number of rules in the table.
pub const RULE_COUNT: usize = 13;

/// The applicability test of the rule at position `k` of the table.
pub open spec fn rule_applies(k: int, g: SEntailment) -> bool {
    if k == 4 {
        nil_not_lval_applies(g)
    } else if k == 5 {
        star_partial_applies(g)
    } else if k == 10 || k == 11 {
        is_normal(g.ant)
    } else {
        true
    }
}

/// The transformation of the rule at position `k` of the table. The order is: tautology,
/// contradiction, substitution, reflexive equality on the left, nil is no l-value, partial
/// star, unroll/collapse, reflexive equality on the right, empty segment, hypothesis, frame,
/// non-empty segment, cleanup.
pub open spec fn rule_step(k: int, g: SEntailment) -> Option<Seq<SEntailment>> {
    if k == 0 {
        tautology_premisses(g)
    } else if k == 1 {
        contradiction_premisses(g)
    } else if k == 2 {
        substitution_premisses(g)
    } else if k == 3 {
        eq_reflexive_l_premisses(g)
    } else if k == 4 {
        nil_not_lval_premisses(g)
    } else if k == 5 {
        star_partial_premisses(g)
    } else if k == 6 {
        unroll_collapse_premisses(g)
    } else if k == 7 {
        eq_reflexive_r_premisses(g)
    } else if k == 8 {
        empty_ls_premisses(g)
    } else if k == 9 {
        hypothesis_premisses(g)
    } else if k == 10 {
        frame_premisses(g)
    } else if k == 11 {
        non_empty_ls_premisses(g)
    } else {
        cleanup_premisses(g)
    }
}

/// Rule `k` applies to `g` and transforms it.
pub open spec fn fires(g: SEntailment) -> spec_fn(int) -> bool {
    |k: int| rule_applies(k, g) && rule_step(k, g) is Some
}

/// The premisses of the first rule of the table that fires on `g`, if any does.
pub open spec fn selected(g: SEntailment) -> Option<Seq<SEntailment>> {
    let k = first_index(RULE_COUNT as nat, fires(g));
    if k < 0 {
        None
    } else {
        rule_step(k, g)
    }
}

/// Proof search closes `g` with recursion at most `d` deep.
pub open spec fn derivable(g: SEntailment, d: nat) -> bool
    decreases d,
{
    match selected(g) {
        None => false,
        Some(ps) => d > 0 && forall|i: int|
            0 <= i < ps.len() ==> derivable(#[trigger] ps[i], (d - 1) as nat),
    }
}

/// Proof search closes `g`.
pub open spec fn provable(g: SEntailment) -> bool {
    exists|d: nat| derivable(g, d)
}

pub proof fn lemma_derivable_mono(g: SEntailment, d: nat, e: nat)
    requires
        derivable(g, d),
        d <= e,
    ensures
        derivable(g, e),
    decreases d,
{
    if let Some(ps) = selected(g) {
        assert forall|i: int| 0 <= i < ps.len() implies derivable(
            #[trigger] ps[i],
            (e - 1) as nat,
        ) by {
            lemma_derivable_mono(ps[i], (d - 1) as nat, (e - 1) as nat);
        }
    }
}

/// A goal whose selected rule leaves an unprovable premise is not provable.
pub proof fn lemma_not_provable(g: SEntailment, ps: Seq<SEntailment>, i: int)
    requires
        selected(g) == Some(ps),
        0 <= i < ps.len(),
        !provable(ps[i]),
    ensures
        !provable(g),
{
    assert forall|d: nat| !derivable(g, d) by {
        if d > 0 {
            assert(!derivable(ps[i], (d - 1) as nat));
            if derivable(g, d) {
                let qs = selected(g)->Some_0;
                assert(qs == ps);
                assert(forall|j: int| 0 <= j < qs.len() ==> derivable(#[trigger] qs[j], (d - 1) as nat));
                assert(derivable(qs[i], (d - 1) as nat));
            }
        }
    }
}

/// Every premise that a rule of the table makes of a goal is smaller than the goal in a
/// well-founded order (`smaller`, lexicographic over five natural numbers), so proof search
/// terminates on every input.
pub proof fn lemma_premisses_decrease(k: int, g: SEntailment)
    requires
        0 <= k < RULE_COUNT,
        rule_step(k, g) is Some,
    ensures
        forall|i: int|
            0 <= i < rule_step(k, g)->Some_0.len() ==> smaller(
                #[trigger] rule_step(k, g)->Some_0[i],
                g,
            ),
{
    if k == 2 {
        lemma_substitution_decreases(g);
    } else if k == 3 {
        lemma_eq_reflexive_l_decreases(g);
    } else if k == 4 {
        lemma_nil_not_lval_decreases(g);
    } else if k == 5 {
        lemma_star_partial_decreases(g);
    } else if k == 6 {
        lemma_unroll_collapse_decreases(g);
    } else if k == 7 {
        lemma_eq_reflexive_r_decreases(g);
    } else if k == 8 {
        lemma_empty_ls_decreases(g);
    } else if k == 9 {
        lemma_hypothesis_decreases(g);
    } else if k == 10 {
        lemma_frame_decreases(g);
    } else if k == 11 {
        lemma_non_empty_ls_decreases(g);
    } else if k == 12 {
        lemma_cleanup_decreases(g);
    }
}

/// The applicability test of rule `k` of the table.
fn rule_predicate(k: usize, goal: &Entailment) -> (r: bool)
    requires
        k < RULE_COUNT,
    ensures
        r == rule_applies(k as int, goal@),
{
    match k {
        0 => Tautology.predicate(goal),
        1 => Contradiction.predicate(goal),
        2 => Substitution.predicate(goal),
        3 => EqReflexiveL.predicate(goal),
        4 => NilNotLVal.predicate(goal),
        5 => StarPartial.predicate(goal),
        6 => UnrollCollapse.predicate(goal),
        7 => EqReflexiveR.predicate(goal),
        8 => EmptyLs.predicate(goal),
        9 => Hypothesis.predicate(goal),
        10 => Frame.predicate(goal),
        11 => NonEmptyLS.predicate(goal),
        _ => Cleanup.predicate(goal),
    }
}

/// The transformation of rule `k` of the table.
fn rule_premisses(k: usize, goal: Entailment) -> (r: Option<Vec<Entailment>>)
    requires
        k < RULE_COUNT,
    ensures
        premisses_view(r) == rule_step(k as int, goal@),
{
    match k {
        0 => Tautology.premisses(goal),
        1 => Contradiction.premisses(goal),
        2 => Substitution.premisses(goal),
        3 => EqReflexiveL.premisses(goal),
        4 => NilNotLVal.premisses(goal),
        5 => StarPartial.premisses(goal),
        6 => UnrollCollapse.premisses(goal),
        7 => EqReflexiveR.premisses(goal),
        8 => EmptyLs.premisses(goal),
        9 => Hypothesis.premisses(goal),
        10 => Frame.premisses(goal),
        11 => NonEmptyLS.premisses(goal),
        _ => Cleanup.premisses(goal),
    }
}

/// Proof search: the first rule of the table that applies and transforms the goal decides
/// it, and the goal holds when all of that rule's premisses do, searched depth first and
/// left to right; when no rule fires, the entailment is invalid.
pub fn ps(goal: Entailment) -> (r: Result<(), String>)
    ensures
        r is Ok <==> provable(goal@),
        r is Err ==> r->Err_0@ == "Entailment is invalid!"@,
    decreases m_segments(goal@), m_equalities(goal@), m_atoms(goal@), m_witnesses(goal@),
        m_uncanonical(goal@),
{
    let ghost g = goal@;
    let mut k: usize = 0;
    while k < RULE_COUNT
        invariant
            k <= RULE_COUNT,
            g == goal@,
            forall|j: int| 0 <= j < k ==> !#[trigger] fires(g)(j),
        decreases RULE_COUNT - k,
    {
        if rule_predicate(k, &goal) {
            if let Some(new_goals) = rule_premisses(k, goal.cloned()) {
                let ghost ps_ = goals_view(new_goals@);
                proof {
                    lemma_first_index(RULE_COUNT as nat, fires(g), k as int);
                    lemma_premisses_decrease(k as int, g);
                    assert(rule_step(k as int, g) == Some(ps_));
                    assert(selected(g) == Some(ps_));
                    assert forall|j: int| 0 <= j < ps_.len() implies smaller(#[trigger] ps_[j], g) by {
                        assert(rule_step(k as int, g)->Some_0[j] == ps_[j]);
                    }
                }
                let ghost mut depth: nat = 0;
                let mut i: usize = 0;
                while i < new_goals.len()
                    invariant
                        i <= new_goals@.len(),
                        g == goal@,
                        ps_ == goals_view(new_goals@),
                        selected(g) == Some(ps_),
                        forall|j: int| 0 <= j < ps_.len() ==> smaller(#[trigger] ps_[j], g),
                        forall|j: int| 0 <= j < i ==> derivable(#[trigger] ps_[j], depth),
                    decreases new_goals.len() - i,
                {
                    let sub = new_goals[i].cloned();
                    assert(sub@ == ps_[i as int]);
                    assert(smaller(ps_[i as int], g));
                    match ps(sub) {
                        Ok(()) => {
                            proof {
                                let d = choose|d: nat| derivable(ps_[i as int], d);
                                let m: nat = if d > depth {
                                    d
                                } else {
                                    depth
                                };
                                assert forall|j: int| 0 <= j < i + 1 implies derivable(
                                    #[trigger] ps_[j],
                                    m,
                                ) by {
                                    if j < i {
                                        lemma_derivable_mono(ps_[j], depth, m);
                                    } else {
                                        lemma_derivable_mono(ps_[j], d, m);
                                    }
                                }
                                depth = m;
                            }
                        },
                        Err(e) => {
                            proof {
                                lemma_not_provable(g, ps_, i as int);
                            }
                            return Err(e);
                        },
                    }
                    i += 1;
                }
                assert(derivable(g, depth + 1));
                return Ok(());
            }
        }
        k += 1;
    }
    proof {
        lemma_first_index(RULE_COUNT as nat, fires(g), -1);
    }
    Err("Entailment is invalid!".to_string())
}

} // verus!
