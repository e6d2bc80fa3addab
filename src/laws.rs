use vstd::prelude::*;

use crate::datastructures::{goal_vars, is_normal, locations};
use crate::model::{
    SEntailment, SExpr, SOp, SPure, SSpatial, atoms_of, first_index, lemma_fresh_name,
    neq_witnessed, ops_of,
};
use crate::rules::cleanup::{canon_goal, cleanup_premisses};
use crate::rules::contradiction::contradiction_premisses;
use crate::rules::unrollcollapse::{ls_at, unroll_collapse_premisses};
use crate::search::rule_applies;

verus! {

/// Whatever else a goal holds, a disequality `E != E` in its antecedent lets the contradiction
/// rule close it with no premisses.
pub proof fn lemma_contradiction_closes(g: SEntailment, k: int, e: SExpr)
    requires
        0 <= k < ops_of(g.ant.pure).len(),
        ops_of(g.ant.pure)[k] == SOp::Neq(e, e),
    ensures
        contradiction_premisses(g) == Some(Seq::<SEntailment>::empty()),
{
    assert(ops_of(g.ant.pure)[k] is Neq);
}

/// A goal none of whose four parts is an empty `And` or `SepConj` is left alone by cleanup.
pub proof fn lemma_cleanup_canonical_fixed(g: SEntailment)
    requires
        !(g.ant.pure is And && ops_of(g.ant.pure).len() == 0),
        !(g.ant.spatial is SepConj && atoms_of(g.ant.spatial).len() == 0),
        !(g.cons.pure is And && ops_of(g.cons.pure).len() == 0),
        !(g.cons.spatial is SepConj && atoms_of(g.cons.spatial).len() == 0),
    ensures
        cleanup_premisses(g) is None,
{
    assert(canon_goal(g) == g);
}

/// Cleanup is idempotent: what it produces, it leaves alone.
pub proof fn lemma_cleanup_idempotent(g: SEntailment)
    ensures
        cleanup_premisses(canon_goal(g)) is None,
        cleanup_premisses(g) is Some ==> cleanup_premisses(cleanup_premisses(g)->Some_0[0]) is None,
{
    assert(canon_goal(canon_goal(g)) == canon_goal(g));
}

/// Cleanup turns an empty conjunction into `True` and an empty separating conjunction into
/// `Emp`, on both sides.
pub proof fn lemma_cleanup_canonicalises(g: SEntailment)
    ensures
        canon_goal(g).ant.pure is And ==> ops_of(canon_goal(g).ant.pure).len() > 0,
        canon_goal(g).cons.pure is And ==> ops_of(canon_goal(g).cons.pure).len() > 0,
        canon_goal(g).ant.spatial is SepConj ==> atoms_of(canon_goal(g).ant.spatial).len() > 0,
        canon_goal(g).cons.spatial is SepConj ==> atoms_of(canon_goal(g).cons.spatial).len() > 0,
        g.ant.pure == SPure::And(Seq::empty()) ==> canon_goal(g).ant.pure == SPure::True,
        g.cons.pure == SPure::And(Seq::empty()) ==> canon_goal(g).cons.pure == SPure::True,
        g.ant.spatial == SSpatial::SepConj(Seq::empty()) ==> canon_goal(g).ant.spatial
            == SSpatial::Emp,
        g.cons.spatial == SSpatial::SepConj(Seq::empty()) ==> canon_goal(g).cons.spatial
            == SSpatial::Emp,
{
}

/// The frame rule (and the non-empty segment rule) needs the antecedent in normal form: two
/// different variables of the antecedent that it does not state to differ keep them from
/// applying, whatever atoms the two sides share.
pub proof fn lemma_frame_needs_normal_form(g: SEntailment, v: Seq<char>, w: Seq<char>)
    requires
        locations(g.ant).contains(v),
        locations(g.ant).contains(w),
        v != w,
        !neq_witnessed(g.ant.pure, SExpr::Var(v), SExpr::Var(w)),
    ensures
        !is_normal(g.ant),
        !rule_applies(10, g),
        !rule_applies(11, g),
{
}

/// The unrolled case of a list segment introduces a fresh location: the cell that it adds last
/// sits at a variable that occurs nowhere in the goal, in neither formula.
pub proof fn lemma_unroll_location_fresh(g: SEntailment)
    requires
        unroll_collapse_premisses(g) is Some,
    ensures
        ({
            let unroll = unroll_collapse_premisses(g)->Some_0[1];
            let y = atoms_of(unroll.ant.spatial).last().lhs();
            &&& y is Var
            &&& !goal_vars(g).contains(y->Var_0)
        }),
{
    let atoms = atoms_of(g.ant.spatial);
    let k = first_index(atoms.len(), ls_at(atoms));
    if let SExpr::Var(n) = atoms[k].lhs() {
        lemma_fresh_name(n, goal_vars(g));
    }
}

} // verus!
