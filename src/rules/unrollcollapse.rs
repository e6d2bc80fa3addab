use vstd::prelude::*;
use vstd::string::StringExecFns;

use crate::datastructures::{
    AtomSpatial, Entailment, Expr, Formula, Op, Spatial, Variable, atoms_view, goal_vars,
    goals_view, lemma_atoms_swap_out, vars_view,
};
use crate::misc::find_and_remove;
use crate::model::{
    SAtom, SEntailment, SExpr, SFormula, SOp, SSpatial, add_op, first_index, fresh_from,
    fresh_name, lemma_first_index, lemma_used_not_too_long, max_len, swap_out, with_xs,
};
use crate::rules::Rule;

verus! {

/// Index `k` of `atoms` holds a list segment.
pub open spec fn ls_at(atoms: Seq<SAtom>) -> spec_fn(int) -> bool {
    |k: int| atoms[k] is LS
}

/// The first list segment `ls(l, r)` of the antecedent, with `l` a variable named `n`, is split
/// in two cases: it is empty (`l = r`), or it is two cells `l -> y -> r` with `l != r` and
/// `y != r`, where `y` is a fresh variable: `n` followed by as few letters `x` as make a name
/// that occurs nowhere in the goal. Both keep the consequent.
pub open spec fn unroll_collapse_premisses(g: SEntailment) -> Option<Seq<SEntailment>> {
    match g.ant.spatial {
        SSpatial::SepConj(atoms) => {
            let k = first_index(atoms.len(), ls_at(atoms));
            if k < 0 {
                None
            } else {
                let l = atoms[k].lhs();
                let r = atoms[k].rhs();
                let rest = swap_out(atoms, k);
                match l {
                    SExpr::Var(n) => {
                        let x = SExpr::Var(fresh_name(n, goal_vars(g)));
                        let collapse = SEntailment {
                            ant: SFormula {
                                pure: add_op(g.ant.pure, SOp::Eq(l, r)),
                                spatial: SSpatial::SepConj(rest),
                            },
                            cons: g.cons,
                        };
                        let unroll = SEntailment {
                            ant: SFormula {
                                pure: add_op(add_op(g.ant.pure, SOp::Neq(l, r)), SOp::Neq(x, r)),
                                spatial: SSpatial::SepConj(
                                    rest.push(SAtom::PtsTo(l, x)).push(SAtom::PtsTo(x, r)),
                                ),
                            },
                            cons: g.cons,
                        };
                        Some(seq![collapse, unroll])
                    },
                    SExpr::Nil => None,
                }
            }
        },
        SSpatial::Emp => None,
    }
}

/// Whether `used` holds a variable named `name`.
fn names_contain(used: &Vec<Variable>, name: &String) -> (r: bool)
    ensures
        r == vars_view(used@).contains(name@),
{
    let mut i: usize = 0;
    while i < used.len()
        invariant
            i <= used@.len(),
            forall|j: int| 0 <= j < i ==> vars_view(used@)[j] != name@,
        decreases used.len() - i,
    {
        if used[i].0 == *name {
            assert(vars_view(used@)[i as int] == name@);
            return true;
        }
        i += 1;
    }
    false
}

/// `base` followed by as few letters `x` (at least one) as make a name not in `used`.
fn fresh_variable(base: &String, used: &Vec<Variable>) -> (r: String)
    ensures
        r@ == fresh_name(base@, vars_view(used@)),
{
    let ghost u = vars_view(used@);
    let suffix = "x";
    proof {
        reveal_strlit("x");
        assert(suffix@ =~= seq!['x']);
    }
    let mut candidate = base.clone().concat(suffix);
    let ghost mut k: nat = 1;
    assert(candidate@ =~= with_xs(base@, 1));
    while names_contain(used, &candidate)
        invariant
            u == vars_view(used@),
            suffix@ == seq!['x'],
            candidate@ == with_xs(base@, k),
            1 <= k <= max_len(u) + 1,
            fresh_from(base@, u, k) == fresh_name(base@, u),
        decreases max_len(u) + 1 - k,
    {
        proof {
            lemma_used_not_too_long(base@, u, k);
            assert(with_xs(base@, k + 1) =~= with_xs(base@, k) + seq!['x']);
        }
        candidate = candidate.concat(suffix);
        proof {
            k = k + 1;
        }
    }
    candidate
}

pub struct UnrollCollapse;

impl Rule for UnrollCollapse {
    open spec fn spec_predicate(&self, g: SEntailment) -> bool {
        true
    }

    open spec fn spec_premisses(&self, g: SEntailment) -> Option<Seq<SEntailment>> {
        unroll_collapse_premisses(g)
    }

    fn predicate(&self, _goal: &Entailment) -> (r: bool) {
        true
    }

    fn premisses(&self, goal: Entailment) -> (r: Option<Vec<Entailment>>) {
        let mut used = goal.antecedent.variables();
        let mut used_cons = goal.consequent.variables();
        used.append(&mut used_cons);
        assert(vars_view(used@) =~= goal_vars(goal@));
        let (antecedent, consequent) = goal.destroy();
        let (ant_pure, ant_spatial) = antecedent.destroy();
        if let Spatial::SepConj(mut spatial_vec) = ant_spatial {
            let ghost old_v = spatial_vec@;
            let ghost atoms = atoms_view(old_v);
            let is_ls = |x: &AtomSpatial| -> (b: bool)
                ensures
                    b == (x@ is LS),
                { x.is_ls() };
            if let Some(ls) = find_and_remove(&mut spatial_vec, is_ls) {
                let ghost i = choose|i: int|
                    0 <= i < old_v.len() && (old_v[i]@ is LS) && (forall|j: int|
                        0 <= j < i ==> !(#[trigger] old_v[j]@ is LS)) && ls == old_v[i]
                        && spatial_vec@ == swap_out(old_v, i);
                proof {
                    assert forall|j: int| 0 <= j < i implies !#[trigger] ls_at(atoms)(j) by {
                        assert(!(old_v[j]@ is LS));
                    }
                    lemma_first_index(atoms.len(), ls_at(atoms), i);
                    lemma_atoms_swap_out(old_v, i);
                }
                if let AtomSpatial::LS(l, r) = ls {
                    if let Expr::Var(Variable(name_l)) = &l {
                        let rest = Spatial::SepConj(spatial_vec);
                        let new_pure1 = ant_pure.cloned().conjoin(Op::AtomEq(l.cloned(), r.cloned()));
                        let new_goal1 = Entailment {
                            antecedent: Formula(new_pure1, rest.cloned()),
                            consequent: consequent.cloned(),
                        };
                        let new_x = Expr::Var(Variable(fresh_variable(name_l, &used)));
                        let new_pure2 = ant_pure.conjoin(Op::AtomNeq(l.cloned(), r.cloned())).conjoin(
                            Op::AtomNeq(new_x.cloned(), r.cloned()),
                        );
                        let new_spatial2 = rest.add(AtomSpatial::PtsTo(l, new_x.cloned())).add(
                            AtomSpatial::PtsTo(new_x, r),
                        );
                        let new_goal2 = Entailment {
                            antecedent: Formula(new_pure2, new_spatial2),
                            consequent,
                        };
                        let r = vec![new_goal1, new_goal2];
                        assert(goals_view(r@) =~= unroll_collapse_premisses(goal@).unwrap());
                        return Some(r);
                    }
                }
                return None;
            }
            proof {
                assert forall|j: int| 0 <= j < atoms.len() implies !#[trigger] ls_at(atoms)(j) by {
                    assert(!(old_v[j]@ is LS));
                }
                lemma_first_index(atoms.len(), ls_at(atoms), -1);
            }
        }
        None
    }
}

} // verus!
