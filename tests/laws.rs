use alice::datastructures::{
    AtomSpatial::{PtsTo, LS},
    Entailment, Expr,
    Expr::Nil,
    Formula,
    Op::{AtomEq, AtomNeq},
    Pure::{And, True},
    Spatial::{Emp, SepConj},
};
use alice::rules::{Cleanup, Contradiction, EmptyLs, Frame, NonEmptyLS, Rule};

fn v(n: &str) -> Expr {
    Expr::new_var(n)
}

#[test]
fn contradiction_on_nil_disequal_to_itself() {
    let g = Entailment {
        antecedent: Formula(
            And(vec![AtomEq(v("a"), v("b")), AtomNeq(Nil, Nil)]),
            SepConj(vec![PtsTo(v("a"), Nil)]),
        ),
        consequent: Formula(True, SepConj(vec![LS(v("q"), Nil)])),
    };
    assert!(Contradiction.predicate(&g));
    assert_eq!(Some(vec![]), Contradiction.premisses(g));
}

#[test]
fn contradiction_needs_a_conjunction() {
    let g = Entailment { antecedent: Formula(True, Emp), consequent: Formula(True, Emp) };
    assert_eq!(None, Contradiction.premisses(g));
}

#[test]
fn cleanup_canonicalises_empty_forms() {
    let g = Entailment {
        antecedent: Formula(And(vec![]), SepConj(vec![PtsTo(v("x"), Nil)])),
        consequent: Formula(And(vec![AtomEq(Nil, Nil)]), SepConj(vec![])),
    };
    let expected = Entailment {
        antecedent: Formula(True, SepConj(vec![PtsTo(v("x"), Nil)])),
        consequent: Formula(And(vec![AtomEq(Nil, Nil)]), Emp),
    };
    let out = Cleanup.premisses(g).unwrap();
    assert_eq!(vec![expected.clone()], out);
    assert_eq!(None, Cleanup.premisses(expected));
}

#[test]
fn cleanup_leaves_canonical_goal() {
    let g = Entailment { antecedent: Formula(True, Emp), consequent: Formula(True, Emp) };
    assert_eq!(None, Cleanup.premisses(g));
}

#[test]
fn empty_ls_only_for_equal_ends() {
    let g = Entailment {
        antecedent: Formula(True, Emp),
        consequent: Formula(True, SepConj(vec![LS(v("x"), v("y")), LS(Nil, Nil), LS(v("y"), v("y"))])),
    };
    let expected = Entailment {
        antecedent: Formula(True, Emp),
        consequent: Formula(True, SepConj(vec![LS(v("x"), v("y")), LS(v("y"), v("y"))])),
    };
    assert_eq!(Some(vec![expected]), EmptyLs.premisses(g));
}

#[test]
fn frame_not_without_normal_form() {
    let g = Entailment {
        antecedent: Formula(
            And(vec![AtomNeq(v("x"), Nil), AtomNeq(v("y"), Nil)]),
            SepConj(vec![PtsTo(v("x"), Nil), PtsTo(v("y"), Nil)]),
        ),
        consequent: Formula(True, SepConj(vec![PtsTo(v("x"), Nil)])),
    };
    assert!(!Frame.predicate(&g));
    assert!(!NonEmptyLS.predicate(&g));

    let normal = Entailment {
        antecedent: Formula(
            And(vec![AtomNeq(v("x"), Nil), AtomNeq(v("y"), Nil), AtomNeq(v("x"), v("y"))]),
            SepConj(vec![PtsTo(v("x"), Nil), PtsTo(v("y"), Nil)]),
        ),
        consequent: Formula(True, SepConj(vec![PtsTo(v("x"), Nil)])),
    };
    assert!(Frame.predicate(&normal));
}

#[test]
fn frame_matches_operands_in_either_order() {
    let g = Entailment {
        antecedent: Formula(True, SepConj(vec![PtsTo(v("x"), v("y"))])),
        consequent: Formula(True, SepConj(vec![PtsTo(v("y"), v("x"))])),
    };
    let expected = Entailment {
        antecedent: Formula(True, SepConj(vec![])),
        consequent: Formula(True, SepConj(vec![])),
    };
    assert_eq!(Some(vec![expected]), Frame.premisses(g));
}
