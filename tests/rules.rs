use alice::datastructures::{
    AtomSpatial::{PtsTo, LS},
    Entailment, Expr,
    Expr::{Nil, Var},
    Formula,
    Op::{AtomEq, AtomNeq},
    Pure::{And, True},
    Spatial::{Emp, SepConj},
    Variable,
};
use alice::rules::{
    Cleanup, Contradiction, EmptyLs, EqReflexiveL, EqReflexiveR, Frame, Hypothesis, NilNotLVal,
    NonEmptyLS, Rule, StarPartial, Substitution, Tautology, UnrollCollapse,
};

#[test]
pub fn test_tautology() -> Result<(), String> {
    let goal1 = Entailment {
        antecedent: Formula(
            And(vec![
                AtomNeq(Var(Variable("y".to_string())), Var(Variable("y".to_string()))),
                AtomEq(Nil, Nil),
            ]),
            Emp,
        ),
        consequent: Formula(True, Emp),
    };

    let premisses = Tautology.premisses(goal1);
    if let Some(prem) = premisses {
        assert_eq!(0, prem.len());
    } else {
        return Err("Expected first test to succed!".to_string());
    }

    let goal2 = Entailment {
        antecedent: Formula(
            And(vec![
                AtomNeq(Var(Variable("y".to_string())), Var(Variable("y".to_string()))),
                AtomEq(Nil, Nil),
            ]),
            Emp,
        ),
        consequent: Formula(True, SepConj(vec![])),
    };

    let premisses = Tautology.premisses(goal2);
    if let Some(_) = premisses {
        return Err("Expected second test to fail!".to_string());
    }

    return Ok(());
}

#[test]
pub fn test_contradiction() -> Result<(), String> {
    let goal = Entailment {
        antecedent: Formula(And(vec![AtomNeq(Expr::new_var("y"), Expr::new_var("y"))]), Emp),
        consequent: Formula(True, Emp),
    };

    let premisses = Contradiction.premisses(goal);
    if let Some(prem) = premisses {
        assert_eq!(0, prem.len());
    } else {
        return Err("Expected first test to succeed!".to_string());
    }

    let goal2 = Entailment {
        antecedent: Formula(And(vec![AtomNeq(Expr::new_var("y"), Expr::new_var("x"))]), Emp),
        consequent: Formula(True, Emp),
    };

    let premisses = Contradiction.premisses(goal2);
    if premisses.is_some() {
        return Err("Expected second test to fail!".to_string());
    }

    Ok(())
}

#[test]
pub fn test_substitute() {
    let goal = Entailment {
        antecedent: Formula(
            And(vec![
                AtomEq(Var(Variable("x".to_string())), Nil),
                AtomNeq(Var(Variable("y".to_string())), Var(Variable("x".to_string()))),
            ]),
            SepConj(vec![PtsTo(Var(Variable("y".to_string())), Var(Variable("x".to_string())))]),
        ),
        consequent: Formula(
            And(vec![AtomNeq(Var(Variable("z".to_string())), Var(Variable("x".to_string())))]),
            SepConj(vec![LS(Var(Variable("x".to_string())), Nil)]),
        ),
    };

    let goal_expected = Entailment {
        antecedent: Formula(
            And(vec![AtomNeq(Var(Variable("y".to_string())), Nil)]),
            SepConj(vec![PtsTo(Var(Variable("y".to_string())), Nil)]),
        ),
        consequent: Formula(
            And(vec![AtomNeq(Var(Variable("z".to_string())), Nil)]),
            SepConj(vec![LS(Nil, Nil)]),
        ),
    };

    let premisses = Substitution.premisses(goal);
    if let Some(prem) = premisses {
        assert_eq!(1, prem.len());
        assert_eq!(goal_expected, prem[0]);
    } else {
        assert!(false);
    }
}

#[test]
#[allow(non_snake_case)]
fn test_EqReflexiveL() {
    let goal1 = Entailment {
        antecedent: Formula(
            And(vec![AtomEq(Nil, Nil), AtomNeq(Nil, Var(Variable("x".to_string())))]),
            Emp,
        ),
        consequent: Formula(True, Emp),
    };
    let goal1_expected = Entailment {
        antecedent: Formula(And(vec![AtomNeq(Nil, Var(Variable("x".to_string())))]), Emp),
        consequent: Formula(True, Emp),
    };

    let premisses1 = EqReflexiveL.premisses(goal1);
    if let Some(prem) = premisses1 {
        assert_eq!(1, prem.len());
        assert_eq!(goal1_expected, prem[0]);
    } else {
        assert!(false);
    }

    let goal2 = Entailment {
        antecedent: Formula(
            And(vec![AtomEq(Nil, Nil), AtomEq(Nil, Var(Variable("x".to_string())))]),
            Emp,
        ),
        consequent: Formula(True, Emp),
    };
    let goal2_expected = Entailment {
        antecedent: Formula(And(vec![AtomEq(Nil, Var(Variable("x".to_string())))]), Emp),
        consequent: Formula(True, Emp),
    };

    let premisses2 = EqReflexiveL.premisses(goal2);
    if let Some(prem) = premisses2 {
        assert_eq!(1, prem.len());
        assert_eq!(goal2_expected, prem[0]);
    } else {
        assert!(false);
    }

    let goal3 = Entailment {
        antecedent: Formula(
            And(vec![AtomEq(Var(Variable("x".to_string())), Var(Variable("x".to_string())))]),
            Emp,
        ),
        consequent: Formula(True, Emp),
    };
    let goal3_expected = Entailment {
        antecedent: Formula(And(vec![]), Emp),
        consequent: Formula(True, Emp),
    };

    let premisses3 = EqReflexiveL.premisses(goal3);
    if let Some(prem) = premisses3 {
        assert_eq!(1, prem.len());
        assert_eq!(goal3_expected, prem[0]);
    } else {
        assert!(false);
    }
}

#[test]
fn test_eq_reflexive_l() -> Result<(), String> {
    let goal1 = Entailment {
        antecedent: Formula(True, Emp),
        consequent: Formula(And(vec![AtomEq(Nil, Nil), AtomNeq(Nil, Expr::new_var("x"))]), Emp),
    };
    let goal1_expected = Entailment {
        antecedent: Formula(True, Emp),
        consequent: Formula(And(vec![AtomNeq(Nil, Expr::new_var("x"))]), Emp),
    };

    let premisses1 = EqReflexiveR.premisses(goal1);
    if let Some(prem) = premisses1 {
        assert_eq!(1, prem.len());
        assert_eq!(goal1_expected, prem[0]);
    } else {
        return Err("Expected first test to succeed!".to_string());
    }

    let goal2 = Entailment {
        antecedent: Formula(True, Emp),
        consequent: Formula(And(vec![AtomEq(Nil, Nil), AtomEq(Nil, Expr::new_var("x"))]), Emp),
    };
    let goal2_expected = Entailment {
        antecedent: Formula(True, Emp),
        consequent: Formula(And(vec![AtomEq(Nil, Expr::new_var("x"))]), Emp),
    };

    let premisses2 = EqReflexiveR.premisses(goal2);
    if let Some(prem) = premisses2 {
        assert_eq!(1, prem.len());
        assert_eq!(goal2_expected, prem[0]);
    } else {
        return Err("Expected second test to succeed!".to_string());
    }

    let goal3 = Entailment {
        antecedent: Formula(True, Emp),
        consequent: Formula(And(vec![AtomEq(Expr::new_var("x"), Expr::new_var("x"))]), Emp),
    };
    let goal3_expected = Entailment {
        antecedent: Formula(True, Emp),
        consequent: Formula(And(vec![]), Emp),
    };

    let premisses3 = EqReflexiveR.premisses(goal3);
    if let Some(prem) = premisses3 {
        assert_eq!(1, prem.len());
        assert_eq!(goal3_expected, prem[0]);
        Ok(())
    } else {
        Err("Expected third test to succeed!".to_string())
    }
}

#[test]
fn test_emptyls() -> Result<(), String> {
    let goal1 = Entailment {
        antecedent: Formula(True, Emp),
        consequent: Formula(True, SepConj(vec![LS(Expr::new_var("x"), Expr::new_var("y"))])),
    };

    let premisses1 = EmptyLs.premisses(goal1);
    if let Some(_) = premisses1 {
        return Err("Expected first test to fail!".to_string());
    }

    let goal2 = Entailment {
        antecedent: Formula(True, Emp),
        consequent: Formula(True, SepConj(vec![LS(Expr::new_var("x"), Expr::new_var("x"))])),
    };
    let goal2_expected = Entailment {
        antecedent: Formula(True, Emp),
        consequent: Formula(True, SepConj(vec![])),
    };

    let premisses2 = EmptyLs.premisses(goal2);
    if let Some(prem) = premisses2 {
        assert_eq!(1, prem.len());
        assert_eq!(goal2_expected, prem[0]);
        Ok(())
    } else {
        Err("Expected second test to succeed!".to_string())
    }
}

#[test]
fn hypothesis_test_hypothesis() -> Result<(), String> {
    let goal1 = Entailment {
        antecedent: Formula(
            And(vec![AtomEq(Expr::new_var("y"), Nil), AtomNeq(Nil, Expr::new_var("z"))]),
            Emp,
        ),
        consequent: Formula(And(vec![AtomEq(Nil, Nil), AtomNeq(Nil, Expr::new_var("x"))]), Emp),
    };

    let premisses1 = Hypothesis.premisses(goal1);
    if let Some(_) = premisses1 {
        return Err("Expected first test to fail!".to_string());
    }

    let goal2 = Entailment {
        antecedent: Formula(
            And(vec![AtomEq(Expr::new_var("x"), Nil), AtomNeq(Nil, Expr::new_var("z"))]),
            Emp,
        ),
        consequent: Formula(And(vec![AtomEq(Nil, Nil), AtomEq(Nil, Expr::new_var("x"))]), Emp),
    };
    let goal2_expected = Entailment {
        antecedent: Formula(And(vec![AtomNeq(Nil, Expr::new_var("z"))]), Emp),
        consequent: Formula(And(vec![AtomEq(Nil, Nil)]), Emp),
    };

    let premisses2 = Hypothesis.premisses(goal2);
    if let Some(prem) = premisses2 {
        assert_eq!(1, prem.len());
        assert_eq!(goal2_expected, prem[0]);
        Ok(())
    } else {
        Err("Expected third test to succeed!".to_string())
    }
}

#[test]
fn frame_test_hypothesis() -> Result<(), String> {
    let goal1 = Entailment {
        antecedent: Formula(True, SepConj(vec![LS(Expr::new_var("x"), Nil)])),
        consequent: Formula(True, SepConj(vec![PtsTo(Expr::new_var("x"), Nil)])),
    };

    let premisses1 = Frame.premisses(goal1);
    if let Some(_) = premisses1 {
        return Err("Expected first test to fail!".to_string());
    }

    let goal2 = Entailment {
        antecedent: Formula(
            True,
            SepConj(vec![LS(Expr::new_var("x"), Nil), PtsTo(Expr::new_var("z"), Nil)]),
        ),
        consequent: Formula(True, SepConj(vec![LS(Expr::new_var("x"), Nil)])),
    };
    let goal2_expected = Entailment {
        antecedent: Formula(True, SepConj(vec![PtsTo(Expr::new_var("z"), Nil)])),
        consequent: Formula(True, SepConj(vec![])),
    };

    let premisses2 = Frame.premisses(goal2);
    if let Some(prem) = premisses2 {
        assert_eq!(1, prem.len());
        assert_eq!(goal2_expected, prem[0]);
        Ok(())
    } else {
        Err("Expected third test to succeed!".to_string())
    }
}

#[test]
pub fn nilnotlval_test_nil_not_lval() -> Result<(), ()> {
    let goal_not_applicable = Entailment {
        antecedent: Formula(
            And(vec![AtomNeq(Expr::new_var("y"), Nil), AtomNeq(Expr::new_var("x"), Nil)]),
            SepConj(vec![
                PtsTo(Expr::new_var("y"), Expr::new_var("x")),
                PtsTo(Expr::new_var("x"), Expr::new_var("z")),
            ]),
        ),
        consequent: Formula(True, Emp),
    };

    assert_eq!(false, NilNotLVal.predicate(&goal_not_applicable));

    let goal1 = Entailment {
        antecedent: Formula(
            And(vec![AtomNeq(Expr::new_var("y"), Nil)]),
            SepConj(vec![
                PtsTo(Expr::new_var("y"), Expr::new_var("x")),
                PtsTo(Expr::new_var("x"), Expr::new_var("z")),
            ]),
        ),
        consequent: Formula(True, Emp),
    };

    assert!(NilNotLVal.predicate(&goal1));

    let goal_expected1 = Entailment {
        antecedent: Formula(
            And(vec![AtomNeq(Expr::new_var("y"), Nil), AtomNeq(Expr::new_var("x"), Nil)]),
            SepConj(vec![
                PtsTo(Expr::new_var("y"), Expr::new_var("x")),
                PtsTo(Expr::new_var("x"), Expr::new_var("z")),
            ]),
        ),
        consequent: Formula(True, Emp),
    };

    let premisses = NilNotLVal.premisses(goal1);
    if let Some(prem) = premisses {
        assert_eq!(1, prem.len());
        assert_eq!(goal_expected1, prem[0]);
    } else {
        return Err(());
    }

    let goal2 = Entailment {
        antecedent: Formula(
            True,
            SepConj(vec![
                PtsTo(Expr::new_var("y"), Expr::new_var("x")),
                PtsTo(Expr::new_var("x"), Expr::new_var("z")),
            ]),
        ),
        consequent: Formula(True, Emp),
    };

    assert!(NilNotLVal.predicate(&goal2));

    let goal_expected2 = Entailment {
        antecedent: Formula(
            And(vec![AtomNeq(Expr::new_var("y"), Nil)]),
            SepConj(vec![
                PtsTo(Expr::new_var("y"), Expr::new_var("x")),
                PtsTo(Expr::new_var("x"), Expr::new_var("z")),
            ]),
        ),
        consequent: Formula(True, Emp),
    };

    let premisses = NilNotLVal.premisses(goal2);
    if let Some(prem) = premisses {
        assert_eq!(1, prem.len());
        assert_eq!(goal_expected2, prem[0]);
        return Ok(());
    } else {
        return Err(());
    }
}

#[test]
fn nonemptyls_test_nil_not_lval() -> Result<(), String> {
    let invalid_goal1 = Entailment {
        antecedent: Formula(
            And(vec![AtomNeq(Expr::new_var("x"), Nil)]),
            SepConj(vec![PtsTo(Expr::new_var("z"), Expr::new_var("x")), LS(Expr::new_var("x"), Nil)]),
        ),
        consequent: Formula(
            And(vec![AtomNeq(Expr::new_var("x"), Nil)]),
            SepConj(vec![LS(Expr::new_var("z"), Nil), LS(Expr::new_var("y"), Nil)]),
        ),
    };
    let premisses1 = NonEmptyLS.premisses(invalid_goal1);
    if let Some(_) = premisses1 {
        return Err("The first test should have failed!".to_string());
    }

    let invalid_goal2 = Entailment {
        antecedent: Formula(
            And(vec![AtomNeq(Expr::new_var("x"), Nil), AtomNeq(Expr::new_var("y"), Expr::new_var("z"))]),
            SepConj(vec![LS(Expr::new_var("x"), Nil)]),
        ),
        consequent: Formula(
            And(vec![AtomNeq(Expr::new_var("x"), Nil)]),
            SepConj(vec![LS(Expr::new_var("z"), Nil), LS(Expr::new_var("y"), Nil)]),
        ),
    };
    let premisses2 = NonEmptyLS.premisses(invalid_goal2);
    if let Some(_) = premisses2 {
        return Err("The second test should have failed!".to_string());
    }

    let valid_goal = Entailment {
        antecedent: Formula(
            And(vec![AtomNeq(Expr::new_var("x"), Nil), AtomNeq(Expr::new_var("y"), Expr::new_var("z"))]),
            SepConj(vec![PtsTo(Expr::new_var("z"), Expr::new_var("x")), LS(Expr::new_var("x"), Nil)]),
        ),
        consequent: Formula(
            And(vec![AtomNeq(Expr::new_var("x"), Nil)]),
            SepConj(vec![LS(Expr::new_var("z"), Expr::new_var("y")), LS(Expr::new_var("y"), Nil)]),
        ),
    };
    let expected = Entailment {
        antecedent: Formula(
            And(vec![AtomNeq(Expr::new_var("x"), Nil), AtomNeq(Expr::new_var("y"), Expr::new_var("z"))]),
            SepConj(vec![LS(Expr::new_var("x"), Nil)]),
        ),
        consequent: Formula(
            And(vec![AtomNeq(Expr::new_var("x"), Nil)]),
            SepConj(vec![LS(Expr::new_var("y"), Nil), LS(Expr::new_var("x"), Expr::new_var("y"))]),
        ),
    };

    let premisses3 = NonEmptyLS.premisses(valid_goal);
    if let Some(premisses) = premisses3 {
        assert_eq!(1, premisses.len());
        assert_eq!(expected, premisses[0]);
        Ok(())
    } else {
        Err("The third goal should have succeeded!".to_string())
    }
}

#[test]
pub fn test_star_partial() -> Result<(), ()> {
    let goal_not_applicable = Entailment {
        antecedent: Formula(
            And(vec![AtomNeq(Expr::new_var("z"), Nil), AtomNeq(Expr::new_var("y"), Expr::new_var("x"))]),
            SepConj(vec![
                PtsTo(Expr::new_var("y"), Expr::new_var("x")),
                PtsTo(Expr::new_var("x"), Expr::new_var("z")),
            ]),
        ),
        consequent: Formula(True, Emp),
    };

    assert_eq!(false, StarPartial.predicate(&goal_not_applicable));

    let goal1 = Entailment {
        antecedent: Formula(
            And(vec![AtomNeq(Expr::new_var("z"), Nil)]),
            SepConj(vec![
                PtsTo(Expr::new_var("y"), Expr::new_var("x")),
                PtsTo(Expr::new_var("x"), Expr::new_var("z")),
            ]),
        ),
        consequent: Formula(True, Emp),
    };

    assert!(StarPartial.predicate(&goal1));

    let goal_expected1 = Entailment {
        antecedent: Formula(
            And(vec![AtomNeq(Expr::new_var("z"), Nil), AtomNeq(Expr::new_var("y"), Expr::new_var("x"))]),
            SepConj(vec![
                PtsTo(Expr::new_var("y"), Expr::new_var("x")),
                PtsTo(Expr::new_var("x"), Expr::new_var("z")),
            ]),
        ),
        consequent: Formula(True, Emp),
    };

    let premisses = StarPartial.premisses(goal1);
    if let Some(prem) = premisses {
        assert_eq!(1, prem.len());
        assert_eq!(goal_expected1, prem[0]);
    } else {
        return Err(());
    }

    let goal2 = Entailment {
        antecedent: Formula(
            True,
            SepConj(vec![
                PtsTo(Expr::new_var("y"), Expr::new_var("x")),
                PtsTo(Expr::new_var("x"), Expr::new_var("z")),
            ]),
        ),
        consequent: Formula(True, Emp),
    };

    assert!(StarPartial.predicate(&goal2));

    let goal_expected2 = Entailment {
        antecedent: Formula(
            And(vec![AtomNeq(Expr::new_var("y"), Expr::new_var("x"))]),
            SepConj(vec![
                PtsTo(Expr::new_var("y"), Expr::new_var("x")),
                PtsTo(Expr::new_var("x"), Expr::new_var("z")),
            ]),
        ),
        consequent: Formula(True, Emp),
    };

    let premisses = StarPartial.premisses(goal2);
    if let Some(prem) = premisses {
        assert_eq!(1, prem.len());
        assert_eq!(goal_expected2, prem[0]);
        Ok(())
    } else {
        Err(())
    }
}

#[test]
pub fn test_unrollcollapse() {
    let goal = Entailment {
        antecedent: Formula(True, SepConj(vec![LS(Expr::new_var("z"), Nil)])),
        consequent: Formula(
            And(vec![AtomEq(Nil, Expr::new_var("x"))]),
            SepConj(vec![LS(Expr::new_var("x"), Nil)]),
        ),
    };

    let expected = vec![
        Entailment {
            antecedent: Formula(And(vec![AtomEq(Expr::new_var("z"), Nil)]), SepConj(vec![])),
            consequent: Formula(
                And(vec![AtomEq(Nil, Expr::new_var("x"))]),
                SepConj(vec![LS(Expr::new_var("x"), Nil)]),
            ),
        },
        Entailment {
            antecedent: Formula(
                And(vec![AtomNeq(Expr::new_var("z"), Nil), AtomNeq(Expr::new_var("zx"), Nil)]),
                SepConj(vec![
                    PtsTo(Expr::new_var("z"), Expr::new_var("zx")),
                    PtsTo(Expr::new_var("zx"), Nil),
                ]),
            ),
            consequent: Formula(
                And(vec![AtomEq(Nil, Expr::new_var("x"))]),
                SepConj(vec![LS(Expr::new_var("x"), Nil)]),
            ),
        },
    ];

    if let Some(premisses) = UnrollCollapse.premisses(goal) {
        for (expected, actual) in expected.iter().zip(premisses) {
            assert_eq!(*expected, actual);
        }
    }
}

#[test]
fn unroll_picks_a_fresh_location() {
    let goal = Entailment {
        antecedent: Formula(True, SepConj(vec![LS(Expr::new_var("x"), Nil)])),
        consequent: Formula(True, SepConj(vec![PtsTo(Expr::new_var("xx"), Nil)])),
    };
    let premisses = UnrollCollapse.premisses(goal).unwrap();
    assert_eq!(2, premisses.len());
    let expected_unroll = Entailment {
        antecedent: Formula(
            And(vec![AtomNeq(Expr::new_var("x"), Nil), AtomNeq(Expr::new_var("xxx"), Nil)]),
            SepConj(vec![
                PtsTo(Expr::new_var("x"), Expr::new_var("xxx")),
                PtsTo(Expr::new_var("xxx"), Nil),
            ]),
        ),
        consequent: Formula(True, SepConj(vec![PtsTo(Expr::new_var("xx"), Nil)])),
    };
    assert_eq!(expected_unroll, premisses[1]);
}

#[test]
fn unroll_on_nil_start_is_inapplicable() {
    let goal = Entailment {
        antecedent: Formula(True, SepConj(vec![LS(Nil, Expr::new_var("y"))])),
        consequent: Formula(True, Emp),
    };
    assert_eq!(None, UnrollCollapse.premisses(goal));
}
