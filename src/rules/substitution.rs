use vstd::prelude::*;

use crate::datastructures::{
    AtomSpatial, Entailment, Expr, Formula, Op, Pure, Spatial, atoms_view, goals_view,
    lemma_ops_swap_out, ops_view,
};
use crate::misc::find_and_remove;
use crate::model::{
    SAtom, SEntailment, SExpr, SFormula, SOp, SPure, SSpatial, first_index, lemma_first_index,
    swap_out,
};
use crate::rules::Rule;

verus! {

/// `e` with the variable named `v` replaced by `by`.
pub open spec fn expr_subst(v: Seq<char>, by: SExpr, e: SExpr) -> SExpr {
    match e {
        SExpr::Var(w) => if w == v {
            by
        } else {
            e
        },
        SExpr::Nil => SExpr::Nil,
    }
}

pub open spec fn op_subst(v: Seq<char>, by: SExpr, o: SOp) -> SOp {
    match o {
        SOp::Eq(l, r) => SOp::Eq(expr_subst(v, by, l), expr_subst(v, by, r)),
        SOp::Neq(l, r) => SOp::Neq(expr_subst(v, by, l), expr_subst(v, by, r)),
    }
}

pub open spec fn atom_subst(v: Seq<char>, by: SExpr, a: SAtom) -> SAtom {
    match a {
        SAtom::PtsTo(l, r) => SAtom::PtsTo(expr_subst(v, by, l), expr_subst(v, by, r)),
        SAtom::LS(l, r) => SAtom::LS(expr_subst(v, by, l), expr_subst(v, by, r)),
    }
}

pub open spec fn pure_subst(v: Seq<char>, by: SExpr, p: SPure) -> SPure {
    match p {
        SPure::And(ops) => SPure::And(ops.map_values(|o: SOp| op_subst(v, by, o))),
        SPure::True => SPure::True,
    }
}

pub open spec fn spatial_subst(v: Seq<char>, by: SExpr, s: SSpatial) -> SSpatial {
    match s {
        SSpatial::SepConj(atoms) => SSpatial::SepConj(atoms.map_values(|a: SAtom| atom_subst(v, by, a))),
        SSpatial::Emp => SSpatial::Emp,
    }
}

pub open spec fn formula_subst(v: Seq<char>, by: SExpr, f: SFormula) -> SFormula {
    SFormula { pure: pure_subst(v, by, f.pure), spatial: spatial_subst(v, by, f.spatial) }
}

/// The goal with the variable named `v` replaced by `by` on both sides, everywhere.
pub open spec fn goal_subst(v: Seq<char>, by: SExpr, g: SEntailment) -> SEntailment {
    SEntailment { ant: formula_subst(v, by, g.ant), cons: formula_subst(v, by, g.cons) }
}

/// Index `k` of `ops` holds an equality.
pub open spec fn eq_at(ops: Seq<SOp>) -> spec_fn(int) -> bool {
    |k: int| ops[k] is Eq
}

/// What is left of the goal once the equality `l = r` is gone from its antecedent: where one
/// side is a variable, it is replaced by the other side throughout.
pub open spec fn eliminate(l: SExpr, r: SExpr, g: SEntailment) -> SEntailment {
    match l {
        SExpr::Var(v) => goal_subst(v, r, g),
        SExpr::Nil => match r {
            SExpr::Var(v) => goal_subst(v, l, g),
            SExpr::Nil => g,
        },
    }
}

/// `Π ∧ l = r | Σ |- Π' | Σ'`: the first equality of the antecedent is removed and used to
/// substitute one of its sides by the other.
pub open spec fn substitution_premisses(g: SEntailment) -> Option<Seq<SEntailment>> {
    match g.ant.pure {
        SPure::And(ops) => {
            let k = first_index(ops.len(), eq_at(ops));
            if k < 0 {
                None
            } else {
                let rest = SEntailment {
                    ant: SFormula { pure: SPure::And(swap_out(ops, k)), spatial: g.ant.spatial },
                    cons: g.cons,
                };
                Some(seq![eliminate(ops[k].lhs(), ops[k].rhs(), rest)])
            }
        },
        SPure::True => None,
    }
}

pub struct Substitution;

impl Substitution {
    fn subst_impl(subst: &(String, Expr), x: &Expr) -> (r: Expr)
        ensures
            r@ == expr_subst(subst.0@, subst.1@, x@),
    {
        match x {
            Expr::Var(v) => {
                if v.0 == subst.0 {
                    subst.1.cloned()
                } else {
                    Expr::Var(v.cloned())
                }
            },
            Expr::Nil => Expr::Nil,
        }
    }

    fn subst_pure(subst: &(String, Expr), p: &Pure) -> (r: Pure)
        ensures
            r@ == pure_subst(subst.0@, subst.1@, p@),
    {
        match p {
            Pure::And(pure_sub) => {
                let mut pure_vec: Vec<Op> = Vec::with_capacity(pure_sub.len());
                let mut i: usize = 0;
                while i < pure_sub.len()
                    invariant
                        i <= pure_sub@.len(),
                        pure_vec@.len() == i,
                        forall|k: int|
                            0 <= k < i ==> #[trigger] pure_vec@[k]@ == op_subst(
                                subst.0@,
                                subst.1@,
                                pure_sub@[k]@,
                            ),
                    decreases pure_sub.len() - i,
                {
                    let o = match &pure_sub[i] {
                        Op::AtomEq(l, r) => Op::AtomEq(
                            Self::subst_impl(subst, l),
                            Self::subst_impl(subst, r),
                        ),
                        Op::AtomNeq(l, r) => Op::AtomNeq(
                            Self::subst_impl(subst, l),
                            Self::subst_impl(subst, r),
                        ),
                    };
                    pure_vec.push(o);
                    i += 1;
                }
                assert(ops_view(pure_vec@) =~= ops_view(pure_sub@).map_values(
                    |o: SOp| op_subst(subst.0@, subst.1@, o),
                ));
                Pure::And(pure_vec)
            },
            Pure::True => Pure::True,
        }
    }

    fn subst_atom_spatial(subst: &(String, Expr), sp: &AtomSpatial) -> (r: AtomSpatial)
        ensures
            r@ == atom_subst(subst.0@, subst.1@, sp@),
    {
        match sp {
            AtomSpatial::PtsTo(v, e) => AtomSpatial::PtsTo(
                Self::subst_impl(subst, v),
                Self::subst_impl(subst, e),
            ),
            AtomSpatial::LS(v, e) => AtomSpatial::LS(
                Self::subst_impl(subst, v),
                Self::subst_impl(subst, e),
            ),
        }
    }

    fn subst_spatial(subst: &(String, Expr), sp: &Spatial) -> (r: Spatial)
        ensures
            r@ == spatial_subst(subst.0@, subst.1@, sp@),
    {
        match sp {
            Spatial::SepConj(atom_spatials) => {
                let mut out: Vec<AtomSpatial> = Vec::with_capacity(atom_spatials.len());
                let mut i: usize = 0;
                while i < atom_spatials.len()
                    invariant
                        i <= atom_spatials@.len(),
                        out@.len() == i,
                        forall|k: int|
                            0 <= k < i ==> #[trigger] out@[k]@ == atom_subst(
                                subst.0@,
                                subst.1@,
                                atom_spatials@[k]@,
                            ),
                    decreases atom_spatials.len() - i,
                {
                    out.push(Self::subst_atom_spatial(subst, &atom_spatials[i]));
                    i += 1;
                }
                assert(atoms_view(out@) =~= atoms_view(atom_spatials@).map_values(
                    |a: SAtom| atom_subst(subst.0@, subst.1@, a),
                ));
                Spatial::SepConj(out)
            },
            Spatial::Emp => Spatial::Emp,
        }
    }

    fn substitute(subst: (String, Expr), goal: Entailment) -> (r: Entailment)
        ensures
            r@ == goal_subst(subst.0@, subst.1@, goal@),
    {
        let (antecedent, consequent) = goal.destroy();
        let new_pure_ant = Self::subst_pure(&subst, antecedent.get_pure());
        let new_spatial_ant = Self::subst_spatial(&subst, antecedent.get_spatial());
        let new_pure_cons = Self::subst_pure(&subst, consequent.get_pure());
        let new_spatial_cons = Self::subst_spatial(&subst, consequent.get_spatial());
        Entailment {
            antecedent: Formula(new_pure_ant, new_spatial_ant),
            consequent: Formula(new_pure_cons, new_spatial_cons),
        }
    }
}

impl Rule for Substitution {
    open spec fn spec_predicate(&self, g: SEntailment) -> bool {
        true
    }

    open spec fn spec_premisses(&self, g: SEntailment) -> Option<Seq<SEntailment>> {
        substitution_premisses(g)
    }

    fn predicate(&self, _goal: &Entailment) -> (r: bool) {
        true
    }

    fn premisses(&self, goal: Entailment) -> (r: Option<Vec<Entailment>>) {
        let (antecedent, consequent) = goal.destroy();
        let (pure, spatial) = antecedent.destroy();
        if let Pure::And(mut pure_sub) = pure {
            let ghost old_v = pure_sub@;
            let ghost ops = ops_view(old_v);
            let is_eq = |x: &Op| -> (b: bool)
                ensures
                    b == (x@ is Eq),
                { x.is_eq() };
            if let Some(elem) = find_and_remove(&mut pure_sub, is_eq) {
                let ghost i = choose|i: int|
                    0 <= i < old_v.len() && (old_v[i]@ is Eq) && (forall|j: int|
                        0 <= j < i ==> !(#[trigger] old_v[j]@ is Eq)) && elem == old_v[i]
                        && pure_sub@ == swap_out(old_v, i);
                proof {
                    assert forall|j: int| 0 <= j < i implies !#[trigger] eq_at(ops)(j) by {
                        assert(!(old_v[j]@ is Eq));
                    }
                    lemma_first_index(ops.len(), eq_at(ops), i);
                    lemma_ops_swap_out(old_v, i);
                }
                let rest = Entailment { antecedent: Formula(Pure::And(pure_sub), spatial), consequent };
                let new_goal = match elem {
                    Op::AtomEq(l, r) => {
                        if let Expr::Var(v) = &l {
                            Self::substitute((v.0.clone(), r), rest)
                        } else if let Expr::Var(v) = &r {
                            Self::substitute((v.0.clone(), l), rest)
                        } else {
                            rest
                        }
                    },
                    Op::AtomNeq(_, _) => {
                        return None;
                    },
                };
                let r = vec![new_goal];
                assert(goals_view(r@) =~= substitution_premisses(goal@).unwrap());
                return Some(r);
            }
            proof {
                assert forall|j: int| 0 <= j < ops.len() implies !#[trigger] eq_at(ops)(j) by {
                    assert(!(old_v[j]@ is Eq));
                }
                lemma_first_index(ops.len(), eq_at(ops), -1);
            }
        }
        None
    }
}

} // verus!
