use alice::datastructures::{AtomSpatial, Entailment, Expr, Formula, Op, Pure, Spatial};
use alice::parser::{
    ParseError, parse_atom_spatial, parse_entailment, parse_formula, parse_op, parse_pure,
    parse_spatial,
};

#[test]
fn tst() {
    let neq = parse_op("Neq(x,y)");
    assert!(neq.is_ok());
    assert_eq!(neq.unwrap(), Op::AtomNeq(Expr::new_var("x"), Expr::new_var("y")));

    let and = parse_pure("And[Neq(x,y)]");
    assert!(and.is_ok());
    assert_eq!(
        and.unwrap(),
        Pure::And(vec![Op::AtomNeq(Expr::new_var("x"), Expr::new_var("y"))]),
    );

    let points_to1 = parse_atom_spatial("x->y");
    assert!(points_to1.is_ok());
    assert_eq!(points_to1.unwrap(), AtomSpatial::PtsTo(Expr::new_var("x"), Expr::new_var("y")));

    let pointsto2 = parse_atom_spatial("y->Nil");
    assert!(pointsto2.is_ok());
    assert_eq!(pointsto2.unwrap(), AtomSpatial::PtsTo(Expr::new_var("y"), Expr::Nil));

    let sepconj = parse_spatial("SepConj[x->y,y->Nil]");
    assert!(sepconj.is_ok());
    assert_eq!(
        sepconj.unwrap(),
        Spatial::SepConj(vec![
            AtomSpatial::PtsTo(Expr::new_var("x"), Expr::new_var("y")),
            AtomSpatial::PtsTo(Expr::new_var("y"), Expr::Nil),
        ])
    );

    let form = parse_formula("And[Neq(x,y)]|SepConj[x->y,y->Nil]");
    assert!(form.is_ok());
    assert_eq!(
        form.unwrap(),
        Formula(
            Pure::And(vec![Op::AtomNeq(Expr::new_var("x"), Expr::new_var("y"))]),
            Spatial::SepConj(vec![
                AtomSpatial::PtsTo(Expr::new_var("x"), Expr::new_var("y")),
                AtomSpatial::PtsTo(Expr::new_var("y"), Expr::Nil),
            ]),
        )
    );

    let p_true = parse_pure("True");
    assert!(p_true.is_ok());
    assert_eq!(p_true.unwrap(), Pure::True);

    let ls = parse_atom_spatial("ls(x, Nil)");
    assert!(ls.is_ok());
    assert_eq!(ls.unwrap(), AtomSpatial::LS(Expr::new_var("x"), Expr::Nil));

    let expected = Entailment {
        antecedent: Formula(
            Pure::And(vec![Op::AtomNeq(Expr::new_var("x"), Expr::new_var("y"))]),
            Spatial::SepConj(vec![
                AtomSpatial::PtsTo(Expr::new_var("x"), Expr::new_var("y")),
                AtomSpatial::PtsTo(Expr::new_var("y"), Expr::Nil),
            ]),
        ),
        consequent: Formula(
            Pure::True,
            Spatial::SepConj(vec![AtomSpatial::LS(Expr::new_var("x"), Expr::Nil)]),
        ),
    };

    let parsed = parse_entailment("And[Neq(x,y)]|SepConj[x->y,y->Nil] |- True|SepConj[ls(x, Nil)]");
    assert!(parsed.is_ok());
    assert_eq!(expected, parsed.unwrap());
}

#[test]
fn white_space_between_tokens() {
    let parsed = parse_entailment("  And [ Eq ( a , b ) , Neq(b,Nil) ]\t|\nEmp |- True | SepConj [ a -> b ]  ");
    let expected = Entailment {
        antecedent: Formula(
            Pure::And(vec![
                Op::AtomEq(Expr::new_var("a"), Expr::new_var("b")),
                Op::AtomNeq(Expr::new_var("b"), Expr::Nil),
            ]),
            Spatial::Emp,
        ),
        consequent: Formula(
            Pure::True,
            Spatial::SepConj(vec![AtomSpatial::PtsTo(Expr::new_var("a"), Expr::new_var("b"))]),
        ),
    };
    assert_eq!(Ok(expected), parsed);
}

#[test]
fn ls_without_parenthesis_is_a_variable() {
    assert_eq!(
        Ok(AtomSpatial::PtsTo(Expr::new_var("ls"), Expr::new_var("Nile"))),
        parse_atom_spatial("ls -> Nile")
    );
}

#[test]
fn rejected_texts() {
    assert_eq!(Err(ParseError), parse_entailment(""));
    assert_eq!(Err(ParseError), parse_entailment("True|Emp |- True|Emp x"));
    assert_eq!(Err(ParseError), parse_entailment("True|Emp | True|Emp"));
    assert_eq!(Err(ParseError), parse_pure("And[]"));
    assert_eq!(Err(ParseError), parse_spatial("SepConj[x->y,]"));
    assert_eq!(Err(ParseError), parse_op("Lt(x,y)"));
    assert_eq!(Err(ParseError), parse_op("Eq(x y)"));
    assert_eq!(Err(ParseError), parse_atom_spatial("x1->y"));
    assert_eq!(Err(ParseError), parse_atom_spatial("\u{e9}->y"));
}
