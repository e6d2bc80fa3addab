use vstd::prelude::*;

use crate::datastructures::{Entailment, Formula, Op, Pure, goals_view, lemma_ops_swap_out, ops_view};
use crate::misc::find_and_remove;
use crate::model::{SEntailment, SFormula, SOp, SPure, first_index, lemma_first_index, swap_out};
use crate::rules::Rule;

verus! {

/// A trivial equality `E = E`.
pub open spec fn is_refl_eq(o: SOp) -> bool {
    o is Eq && o.lhs() == o.rhs()
}

/// Index `k` of `ops` holds a trivial equality.
pub open spec fn refl_eq_at(ops: Seq<SOp>) -> spec_fn(int) -> bool {
    |k: int| is_refl_eq(ops[k])
}

/// `Π | Σ |- Π' | Σ'` follows from itself with `E = E` conjoined to `Π`: the first trivial
/// equality of the antecedent is dropped.
pub open spec fn eq_reflexive_l_premisses(g: SEntailment) -> Option<Seq<SEntailment>> {
    match g.ant.pure {
        SPure::And(ops) => {
            let k = first_index(ops.len(), refl_eq_at(ops));
            if k < 0 {
                None
            } else {
                Some(
                    seq![SEntailment { ant: SFormula { pure: SPure::And(swap_out(ops, k)), spatial: g.ant.spatial }, cons: g.cons }],
                )
            }
        },
        SPure::True => None,
    }
}

/// Removes the first trivial equality from a list of pure atoms; `true` if there was one.
pub(crate) fn remove_refl_eq(v: &mut Vec<Op>) -> (r: bool)
    ensures
        ({
            let ops = ops_view(old(v)@);
            let k = first_index(ops.len(), refl_eq_at(ops));
            if k < 0 {
                !r && final(v)@ == old(v)@
            } else {
                r && ops_view(final(v)@) == swap_out(ops, k)
            }
        }),
{
    let ghost ops = ops_view(v@);
    let ghost old_v = v@;
    let refl = |x: &Op| -> (b: bool)
        ensures
            b == is_refl_eq(x@),
        {
            match x {
                Op::AtomEq(l, r) => l.same(r),
                _ => false,
            }
        };
    let found = find_and_remove(v, refl);
    proof {
        if found is Some {
            let i = choose|i: int|
                0 <= i < old_v.len() && is_refl_eq(old_v[i]@) && (forall|j: int|
                    0 <= j < i ==> !is_refl_eq(#[trigger] old_v[j]@)) && v@ == swap_out(old_v, i);
            assert forall|j: int| 0 <= j < i implies !#[trigger] refl_eq_at(ops)(j) by {
                assert(!is_refl_eq(old_v[j]@));
            }
            lemma_first_index(ops.len(), refl_eq_at(ops), i);
            lemma_ops_swap_out(old_v, i);
        } else {
            assert forall|j: int| 0 <= j < ops.len() implies !#[trigger] refl_eq_at(ops)(j) by {
                assert(!is_refl_eq(old_v[j]@));
            }
            lemma_first_index(ops.len(), refl_eq_at(ops), -1);
        }
    }
    found.is_some()
}

pub struct EqReflexiveL;

impl Rule for EqReflexiveL {
    open spec fn spec_predicate(&self, g: SEntailment) -> bool {
        true
    }

    open spec fn spec_premisses(&self, g: SEntailment) -> Option<Seq<SEntailment>> {
        eq_reflexive_l_premisses(g)
    }

    fn predicate(&self, _goal: &Entailment) -> (r: bool) {
        true
    }

    fn premisses(&self, goal: Entailment) -> (r: Option<Vec<Entailment>>) {
        let (antecedent, consequent) = goal.destroy();
        let (pure, spatial) = antecedent.destroy();
        if let Pure::And(mut pure_vec) = pure {
            if remove_refl_eq(&mut pure_vec) {
                let r = vec![
                    Entailment { antecedent: Formula(Pure::And(pure_vec), spatial), consequent },
                ];
                assert(goals_view(r@) =~= eq_reflexive_l_premisses(goal@).unwrap());
                return Some(r);
            }
        }
        None
    }
}

} // verus!
