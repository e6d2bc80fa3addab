use alice::datastructures::{
    AtomSpatial::{PtsTo, LS},
    Entailment, Expr,
    Expr::Nil,
    Formula, Op,
    Op::{AtomEq, AtomNeq},
    Pure::{And, True},
    Spatial::{Emp, SepConj},
    Variable,
};

#[test]
fn test_is_nomal_form() {
    let not_normal1 = Entailment {
        antecedent: Formula(True, SepConj(vec![LS(Expr::new_var("x"), Nil)])),
        consequent: Formula(True, Emp),
    };
    assert_eq!(false, not_normal1.is_normal_form());

    let normal1 = Entailment {
        antecedent: Formula(
            And(vec![Op::AtomNeq(Expr::new_var("x"), Nil)]),
            SepConj(vec![PtsTo(Expr::new_var("x"), Nil)]),
        ),
        consequent: Formula(True, Emp),
    };
    assert!(normal1.is_normal_form());
}

#[test]
fn normal_form_needs_pairwise_disequality() {
    let missing_pair = Entailment {
        antecedent: Formula(
            And(vec![AtomNeq(Expr::new_var("x"), Nil), AtomNeq(Nil, Expr::new_var("y"))]),
            SepConj(vec![PtsTo(Expr::new_var("x"), Expr::new_var("y"))]),
        ),
        consequent: Formula(True, Emp),
    };
    assert!(!missing_pair.is_normal_form());

    let witnessed = Entailment {
        antecedent: Formula(
            And(vec![
                AtomNeq(Expr::new_var("x"), Nil),
                AtomNeq(Nil, Expr::new_var("y")),
                AtomNeq(Expr::new_var("y"), Expr::new_var("x")),
            ]),
            SepConj(vec![PtsTo(Expr::new_var("x"), Expr::new_var("y"))]),
        ),
        consequent: Formula(True, Emp),
    };
    assert!(witnessed.is_normal_form());
}

#[test]
fn normal_form_with_true_pure_part() {
    let no_vars = Entailment {
        antecedent: Formula(True, SepConj(vec![PtsTo(Nil, Nil)])),
        consequent: Formula(True, Emp),
    };
    assert!(no_vars.is_normal_form());

    let one_var = Entailment {
        antecedent: Formula(True, SepConj(vec![PtsTo(Expr::new_var("x"), Nil)])),
        consequent: Formula(True, Emp),
    };
    assert!(!one_var.is_normal_form());
}

#[test]
fn variables_in_order() {
    let f = Formula(
        And(vec![AtomEq(Expr::new_var("a"), Nil), AtomNeq(Expr::new_var("b"), Expr::new_var("c"))]),
        SepConj(vec![LS(Nil, Expr::new_var("d"))]),
    );
    let names = |v: Vec<Variable>| v.into_iter().map(|x| x.0).collect::<Vec<String>>();
    assert_eq!(Some(vec!["a".to_string(), "b".to_string(), "c".to_string()]), f.get_pure_vars().map(names));
    assert_eq!(Some(vec!["d".to_string()]), f.get_spatial_vars().map(names));
    let g = Formula(True, Emp);
    assert_eq!(None, g.get_pure_vars());
    assert_eq!(None, g.get_spatial_vars());
}

#[test]
fn small_accessors() {
    assert!(AtomEq(Nil, Nil).is_eq());
    assert!(!AtomNeq(Nil, Nil).is_eq());
    assert!(PtsTo(Nil, Nil).is_points_to());
    assert!(!PtsTo(Nil, Nil).is_ls());
    assert!(LS(Nil, Nil).is_ls());
    assert_eq!(Some(Variable("q".to_string())), Expr::new_var("q").get_var_opt());
    assert_eq!(None, Nil.get_var_opt());
    assert_eq!(SepConj(vec![LS(Nil, Nil)]), Emp.add(LS(Nil, Nil)));
    assert_eq!(
        SepConj(vec![LS(Nil, Nil), PtsTo(Nil, Nil)]),
        SepConj(vec![LS(Nil, Nil)]).add(PtsTo(Nil, Nil))
    );
    let mut f = Formula(True, Emp);
    *f.get_pure_mut() = And(vec![]);
    *f.get_spatial_mut() = SepConj(vec![]);
    assert_eq!(&And(vec![]), f.get_pure());
    assert_eq!(&SepConj(vec![]), f.get_spatial());
    assert_eq!((And(vec![]), SepConj(vec![])), f.clone().destroy());
    let g = Entailment { antecedent: f.clone(), consequent: Formula(True, Emp) };
    assert_eq!((f, Formula(True, Emp)), g.destroy());
}
