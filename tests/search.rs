use alice::datastructures::{
    AtomSpatial::{PtsTo, LS},
    Entailment, Expr,
    Expr::Nil,
    Formula,
    Op::{AtomEq, AtomNeq},
    Pure::{And, True},
    Spatial::{Emp, SepConj},
};
use alice::search::ps;

#[test]
pub fn test_ps() {
    let valid = Entailment {
        antecedent: Formula(
            And(vec![AtomNeq(Expr::new_var("x"), Expr::new_var("y"))]),
            SepConj(vec![
                PtsTo(Expr::new_var("x"), Expr::new_var("y")),
                PtsTo(Expr::new_var("y"), Nil),
            ]),
        ),
        consequent: Formula(True, SepConj(vec![LS(Expr::new_var("x"), Nil)])),
    };
    assert_eq!(Ok(()), ps(valid));

    let invalid = Entailment {
        antecedent: Formula(
            True,
            SepConj(vec![PtsTo(Expr::new_var("x"), Nil), PtsTo(Expr::new_var("y"), Nil)]),
        ),
        consequent: Formula(
            And(vec![AtomEq(Expr::new_var("x"), Expr::new_var("y"))]),
            SepConj(vec![PtsTo(Expr::new_var("y"), Nil)]),
        ),
    };
    assert_eq!(Err("Entailment is invalid!".to_string()), ps(invalid));
}

fn v(n: &str) -> Expr {
    Expr::new_var(n)
}

#[test]
fn trivial_goal_is_valid() {
    let g = Entailment { antecedent: Formula(True, Emp), consequent: Formula(True, Emp) };
    assert_eq!(Ok(()), ps(g));
}

#[test]
fn empty_forms_are_cleaned_up() {
    let g = Entailment {
        antecedent: Formula(And(vec![]), SepConj(vec![])),
        consequent: Formula(And(vec![]), SepConj(vec![])),
    };
    assert_eq!(Ok(()), ps(g));
}

#[test]
fn empty_separating_conjunction_with_true() {
    let g = Entailment {
        antecedent: Formula(True, SepConj(vec![])),
        consequent: Formula(True, Emp),
    };
    assert_eq!(Ok(()), ps(g));
}

#[test]
fn segment_in_antecedent_alone_is_not_emp() {
    let g = Entailment {
        antecedent: Formula(True, SepConj(vec![LS(v("x"), Nil)])),
        consequent: Formula(True, Emp),
    };
    assert_eq!(Err("Entailment is invalid!".to_string()), ps(g));
}

#[test]
fn segment_entails_itself() {
    let g = Entailment {
        antecedent: Formula(True, SepConj(vec![LS(v("x"), Nil)])),
        consequent: Formula(True, SepConj(vec![LS(v("x"), Nil)])),
    };
    assert_eq!(Ok(()), ps(g));
}

#[test]
fn nil_cell_makes_antecedent_false() {
    let g = Entailment {
        antecedent: Formula(True, SepConj(vec![PtsTo(Nil, v("x"))])),
        consequent: Formula(And(vec![AtomEq(v("a"), v("b"))]), Emp),
    };
    assert_eq!(Ok(()), ps(g));
}

#[test]
fn equality_is_substituted_away() {
    let g = Entailment {
        antecedent: Formula(And(vec![AtomEq(v("x"), v("y"))]), SepConj(vec![PtsTo(v("x"), Nil)])),
        consequent: Formula(True, SepConj(vec![PtsTo(v("y"), Nil)])),
    };
    assert_eq!(Ok(()), ps(g));
}

#[test]
fn missing_cell_is_invalid() {
    let g = Entailment {
        antecedent: Formula(True, Emp),
        consequent: Formula(True, SepConj(vec![PtsTo(v("x"), Nil)])),
    };
    assert_eq!(Err("Entailment is invalid!".to_string()), ps(g));
}

#[test]
fn search_ends_on_assorted_goals() {
    let goals = vec![
        Entailment {
            antecedent: Formula(
                True,
                SepConj(vec![LS(v("a"), v("b")), LS(v("b"), Nil), PtsTo(v("c"), v("a"))]),
            ),
            consequent: Formula(True, SepConj(vec![LS(v("c"), Nil)])),
        },
        Entailment {
            antecedent: Formula(
                And(vec![AtomEq(v("a"), v("b")), AtomNeq(v("b"), Nil)]),
                SepConj(vec![PtsTo(v("a"), v("c")), PtsTo(v("c"), v("a")), LS(v("c"), v("a"))]),
            ),
            consequent: Formula(
                And(vec![AtomNeq(v("a"), Nil), AtomEq(v("c"), v("c"))]),
                SepConj(vec![LS(v("a"), v("a")), PtsTo(v("c"), v("a"))]),
            ),
        },
        Entailment {
            antecedent: Formula(
                And(vec![AtomNeq(v("p"), v("q"))]),
                SepConj(vec![PtsTo(v("p"), v("q")), PtsTo(v("q"), v("r")), PtsTo(v("r"), Nil)]),
            ),
            consequent: Formula(True, SepConj(vec![LS(v("p"), Nil)])),
        },
    ];
    for g in goals {
        let r = ps(g);
        assert!(r.is_ok() || r == Err("Entailment is invalid!".to_string()));
    }
}
