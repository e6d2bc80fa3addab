use vstd::prelude::*;

use crate::model::{
    SAtom, SEntailment, SExpr, SFormula, SOp, SPure, SSpatial, add_op, atoms_of, neq_witnessed,
    ops_of, same_atom, same_op, swap_out,
};

verus! {

/// A program variable, named by a string.
#[derive(PartialEq, Eq, Clone, Debug)]
pub struct Variable(pub String);

/// A location expression: the null location or a variable.
#[derive(PartialEq, Eq, Clone, Debug)]
pub enum Expr {
    Nil,
    Var(Variable),
}

/// An atomic equality or disequality.
#[derive(PartialEq, Eq, Clone, Debug)]
pub enum Op {
    AtomEq(Expr, Expr),
    AtomNeq(Expr, Expr),
}

/// A conjunction of atomic constraints; `True` and `And([])` mean the same.
#[derive(PartialEq, Eq, Clone, Debug)]
pub enum Pure {
    And(Vec<Op>),
    True,
}

/// One heap cell, or a list segment between two locations.
#[derive(PartialEq, Eq, Clone, Debug)]
pub enum AtomSpatial {
    PtsTo(Expr, Expr),
    LS(Expr, Expr),
}

/// A separating conjunction of heap fragments; `Emp` and `SepConj([])` mean the same.
#[derive(PartialEq, Eq, Clone, Debug)]
pub enum Spatial {
    SepConj(Vec<AtomSpatial>),
    Emp,
}

/// A symbolic heap: a pure part and a spatial part.
#[derive(PartialEq, Eq, Clone, Debug)]
pub struct Formula(pub Pure, pub Spatial);

/// The proof goal: the antecedent entails the consequent.
#[derive(PartialEq, Eq, Clone, Debug)]
pub struct Entailment {
    pub antecedent: Formula,
    pub consequent: Formula,
}

pub open spec fn ops_view(s: Seq<Op>) -> Seq<SOp> {
    s.map_values(|o: Op| o@)
}

pub open spec fn atoms_view(s: Seq<AtomSpatial>) -> Seq<SAtom> {
    s.map_values(|a: AtomSpatial| a@)
}

pub open spec fn vars_view(s: Seq<Variable>) -> Seq<Seq<char>> {
    s.map_values(|v: Variable| v@)
}

pub open spec fn goals_view(s: Seq<Entailment>) -> Seq<SEntailment> {
    s.map_values(|g: Entailment| g@)
}

/// The model of what a rule hands back: `None`, or the views of the new goals.
pub open spec fn premisses_view(r: Option<Vec<Entailment>>) -> Option<Seq<SEntailment>> {
    match r {
        Some(v) => Some(goals_view(v@)),
        None => None,
    }
}

impl View for Variable {
    type V = Seq<char>;

    open spec fn view(&self) -> Seq<char> {
        self.0@
    }
}

impl View for Expr {
    type V = SExpr;

    open spec fn view(&self) -> SExpr {
        match self {
            Expr::Nil => SExpr::Nil,
            Expr::Var(v) => SExpr::Var(v@),
        }
    }
}

impl View for Op {
    type V = SOp;

    open spec fn view(&self) -> SOp {
        match self {
            Op::AtomEq(l, r) => SOp::Eq(l@, r@),
            Op::AtomNeq(l, r) => SOp::Neq(l@, r@),
        }
    }
}

impl View for Pure {
    type V = SPure;

    open spec fn view(&self) -> SPure {
        match self {
            Pure::And(v) => SPure::And(ops_view(v@)),
            Pure::True => SPure::True,
        }
    }
}

impl View for AtomSpatial {
    type V = SAtom;

    open spec fn view(&self) -> SAtom {
        match self {
            AtomSpatial::PtsTo(l, r) => SAtom::PtsTo(l@, r@),
            AtomSpatial::LS(l, r) => SAtom::LS(l@, r@),
        }
    }
}

impl View for Spatial {
    type V = SSpatial;

    open spec fn view(&self) -> SSpatial {
        match self {
            Spatial::SepConj(v) => SSpatial::SepConj(atoms_view(v@)),
            Spatial::Emp => SSpatial::Emp,
        }
    }
}

impl View for Formula {
    type V = SFormula;

    open spec fn view(&self) -> SFormula {
        SFormula { pure: self.0@, spatial: self.1@ }
    }
}

impl View for Entailment {
    type V = SEntailment;

    open spec fn view(&self) -> SEntailment {
        SEntailment { ant: self.antecedent@, cons: self.consequent@ }
    }
}

/// The names of the variables among the given locations, in order.
pub open spec fn expr_vars(e: SExpr) -> Seq<Seq<char>> {
    match e {
        SExpr::Var(n) => seq![n],
        SExpr::Nil => Seq::empty(),
    }
}

/// The variables of a list of pure atoms, left then right operand, atom by atom.
pub open spec fn pure_vars(ops: Seq<SOp>) -> Seq<Seq<char>>
    decreases ops.len(),
{
    if ops.len() == 0 {
        Seq::empty()
    } else {
        pure_vars(ops.drop_last()) + expr_vars(ops.last().lhs()) + expr_vars(ops.last().rhs())
    }
}

/// The variables of a list of spatial atoms, left then right operand, atom by atom.
pub open spec fn spatial_vars(atoms: Seq<SAtom>) -> Seq<Seq<char>>
    decreases atoms.len(),
{
    if atoms.len() == 0 {
        Seq::empty()
    } else {
        spatial_vars(atoms.drop_last()) + expr_vars(atoms.last().lhs()) + expr_vars(
            atoms.last().rhs(),
        )
    }
}

/// Every variable that occurs in a formula, pure part first.
pub open spec fn locations(f: SFormula) -> Seq<Seq<char>> {
    pure_vars(ops_of(f.pure)) + spatial_vars(atoms_of(f.spatial))
}

/// Every variable that occurs in a goal, antecedent first.
pub open spec fn goal_vars(g: SEntailment) -> Seq<Seq<char>> {
    locations(g.ant) + locations(g.cons)
}

/// The normal form that the frame rules rely on: no list segment in the spatial part, and
/// every variable that occurs is stated different from `Nil` and from every other variable.
pub open spec fn is_normal(f: SFormula) -> bool {
    &&& forall|i: int|
        0 <= i < atoms_of(f.spatial).len() ==> !(#[trigger] atoms_of(f.spatial)[i] is LS)
    &&& forall|v: Seq<char>|
        #[trigger] locations(f).contains(v) ==> neq_witnessed(f.pure, SExpr::Var(v), SExpr::Nil)
    &&& forall|v: Seq<char>, w: Seq<char>|
        #[trigger] locations(f).contains(v) && #[trigger] locations(f).contains(w) && v != w
            ==> neq_witnessed(f.pure, SExpr::Var(v), SExpr::Var(w))
}

pub proof fn lemma_ops_push(s: Seq<Op>, x: Op)
    ensures
        ops_view(s.push(x)) == ops_view(s).push(x@),
{
    assert(ops_view(s.push(x)) =~= ops_view(s).push(x@));
}

pub proof fn lemma_atoms_push(s: Seq<AtomSpatial>, x: AtomSpatial)
    ensures
        atoms_view(s.push(x)) == atoms_view(s).push(x@),
{
    assert(atoms_view(s.push(x)) =~= atoms_view(s).push(x@));
}

pub proof fn lemma_ops_swap_out(s: Seq<Op>, i: int)
    requires
        0 <= i < s.len(),
    ensures
        ops_view(swap_out(s, i)) == swap_out(ops_view(s), i),
{
    assert(ops_view(swap_out(s, i)) =~= swap_out(ops_view(s), i));
}

pub proof fn lemma_atoms_swap_out(s: Seq<AtomSpatial>, i: int)
    requires
        0 <= i < s.len(),
    ensures
        atoms_view(swap_out(s, i)) == swap_out(atoms_view(s), i),
{
    assert(atoms_view(swap_out(s, i)) =~= swap_out(atoms_view(s), i));
}

pub proof fn lemma_ops_remove(s: Seq<Op>, i: int)
    requires
        0 <= i < s.len(),
    ensures
        ops_view(s.remove(i)) == ops_view(s).remove(i),
{
    assert(ops_view(s.remove(i)) =~= ops_view(s).remove(i));
}

pub proof fn lemma_atoms_remove(s: Seq<AtomSpatial>, i: int)
    requires
        0 <= i < s.len(),
    ensures
        atoms_view(s.remove(i)) == atoms_view(s).remove(i),
{
    assert(atoms_view(s.remove(i)) =~= atoms_view(s).remove(i));
}

impl Variable {
    pub fn cloned(&self) -> (r: Variable)
        ensures
            r@ == self@,
    {
        Variable(self.0.clone())
    }
}

impl Expr {
    /// Equality of locations; variables are compared by name.
    pub fn same(&self, o: &Expr) -> (r: bool)
        ensures
            r == (self@ == o@),
    {
        match (self, o) {
            (Expr::Nil, Expr::Nil) => true,
            (Expr::Var(a), Expr::Var(b)) => a.0 == b.0,
            _ => false,
        }
    }

    pub fn cloned(&self) -> (r: Expr)
        ensures
            r@ == self@,
    {
        match self {
            Expr::Nil => Expr::Nil,
            Expr::Var(v) => Expr::Var(v.cloned()),
        }
    }

    /// The variable of this location, if it is one.
    pub fn get_var_opt(&self) -> (r: Option<Variable>)
        ensures
            match self@ {
                SExpr::Var(n) => r is Some && r->Some_0@ == n,
                SExpr::Nil => r is None,
            },
    {
        match self {
            Expr::Var(v) => Some(v.cloned()),
            Expr::Nil => None,
        }
    }

    pub fn new_var(name: &str) -> (r: Self)
        ensures
            r@ == SExpr::Var(name@),
    {
        Expr::Var(Variable(name.to_string()))
    }
}

impl Op {
    pub fn is_eq(&self) -> (r: bool)
        ensures
            r == (self@ is Eq),
    {
        match self {
            Op::AtomEq(_, _) => true,
            Op::AtomNeq(_, _) => false,
        }
    }

    /// Same constructor, same operands up to order.
    pub fn matches(&self, o: &Op) -> (r: bool)
        ensures
            r == same_op(self@, o@),
    {
        match (self, o) {
            (Op::AtomEq(l1, r1), Op::AtomEq(l2, r2)) => (l1.same(l2) && r1.same(r2)) || (l1.same(r2)
                && r1.same(l2)),
            (Op::AtomNeq(l1, r1), Op::AtomNeq(l2, r2)) => (l1.same(l2) && r1.same(r2)) || (l1.same(
                r2,
            ) && r1.same(l2)),
            _ => false,
        }
    }

    pub fn cloned(&self) -> (r: Op)
        ensures
            r@ == self@,
    {
        match self {
            Op::AtomEq(l, r) => Op::AtomEq(l.cloned(), r.cloned()),
            Op::AtomNeq(l, r) => Op::AtomNeq(l.cloned(), r.cloned()),
        }
    }
}

impl AtomSpatial {
    pub fn is_points_to(&self) -> (r: bool)
        ensures
            r == (self@ is PtsTo),
    {
        match self {
            AtomSpatial::PtsTo(_, _) => true,
            _ => false,
        }
    }

    pub fn is_ls(&self) -> (r: bool)
        ensures
            r == (self@ is LS),
    {
        match self {
            AtomSpatial::LS(_, _) => true,
            _ => false,
        }
    }

    /// Same constructor, same operands up to order.
    pub fn matches(&self, o: &AtomSpatial) -> (r: bool)
        ensures
            r == same_atom(self@, o@),
    {
        match (self, o) {
            (AtomSpatial::LS(l1, r1), AtomSpatial::LS(l2, r2)) => (l1.same(l2) && r1.same(r2)) || (
            l1.same(r2) && r1.same(l2)),
            (AtomSpatial::PtsTo(l1, r1), AtomSpatial::PtsTo(l2, r2)) => (l1.same(l2) && r1.same(r2))
                || (l1.same(r2) && r1.same(l2)),
            _ => false,
        }
    }

    pub fn cloned(&self) -> (r: AtomSpatial)
        ensures
            r@ == self@,
    {
        match self {
            AtomSpatial::PtsTo(l, r) => AtomSpatial::PtsTo(l.cloned(), r.cloned()),
            AtomSpatial::LS(l, r) => AtomSpatial::LS(l.cloned(), r.cloned()),
        }
    }
}

impl Pure {
    pub fn cloned(&self) -> (r: Pure)
        ensures
            r@ == self@,
    {
        match self {
            Pure::And(v) => {
                let mut out: Vec<Op> = Vec::with_capacity(v.len());
                let mut i: usize = 0;
                while i < v.len()
                    invariant
                        i <= v@.len(),
                        out@.len() == i,
                        forall|k: int| 0 <= k < i ==> #[trigger] out@[k]@ == v@[k]@,
                    decreases v.len() - i,
                {
                    out.push(v[i].cloned());
                    i += 1;
                }
                assert(ops_view(out@) =~= ops_view(v@));
                Pure::And(out)
            },
            Pure::True => Pure::True,
        }
    }

    /// Conjoins one more atom; `True` becomes a one-atom conjunction.
    pub fn conjoin(self, o: Op) -> (r: Pure)
        ensures
            r@ == add_op(self@, o@),
    {
        let ghost p0 = self@;
        let mut v = match self {
            Pure::And(vec) => vec,
            Pure::True => Vec::new(),
        };
        assert(ops_view(v@) == ops_of(p0));
        proof {
            lemma_ops_push(v@, o);
        }
        v.push(o);
        let r = Pure::And(v);
        assert(r@ =~= add_op(p0, o@));
        r
    }

    /// Whether this pure part states `a != b`, in either operand order.
    pub fn has_neq(&self, a: &Expr, b: &Expr) -> (r: bool)
        ensures
            r == neq_witnessed(self@, a@, b@),
    {
        match self {
            Pure::And(v) => {
                let ghost ops = ops_view(v@);
                let mut i: usize = 0;
                while i < v.len()
                    invariant
                        i <= v@.len(),
                        ops == ops_view(v@),
                        self@ == SPure::And(ops),
                        forall|k: int|
                            0 <= k < i ==> !(#[trigger] ops[k] == SOp::Neq(a@, b@) || ops[k]
                                == SOp::Neq(b@, a@)),
                    decreases v.len() - i,
                {
                    if let Op::AtomNeq(l, r) = &v[i] {
                        if (l.same(a) && r.same(b)) || (l.same(b) && r.same(a)) {
                            assert(ops[i as int] == SOp::Neq(l@, r@));
                            return true;
                        }
                    }
                    i += 1;
                }
                false
            },
            Pure::True => false,
        }
    }
}

impl Spatial {
    /// Adds one atom at the end; `Emp` becomes a one-atom conjunction.
    pub fn add(self, atom: AtomSpatial) -> (r: Self)
        ensures
            r@ == SSpatial::SepConj(atoms_of(self@).push(atom@)),
    {
        let ghost s0 = self@;
        let ghost a0 = atom@;
        let mut v = match self {
            Spatial::SepConj(vec) => vec,
            Spatial::Emp => Vec::new(),
        };
        assert(atoms_view(v@) == atoms_of(s0));
        proof {
            lemma_atoms_push(v@, atom);
        }
        v.push(atom);
        let r = Spatial::SepConj(v);
        assert(r@ == SSpatial::SepConj(atoms_of(s0).push(a0)));
        r
    }

    pub fn cloned(&self) -> (r: Spatial)
        ensures
            r@ == self@,
    {
        match self {
            Spatial::SepConj(v) => {
                let mut out: Vec<AtomSpatial> = Vec::with_capacity(v.len());
                let mut i: usize = 0;
                while i < v.len()
                    invariant
                        i <= v@.len(),
                        out@.len() == i,
                        forall|k: int| 0 <= k < i ==> #[trigger] out@[k]@ == v@[k]@,
                    decreases v.len() - i,
                {
                    out.push(v[i].cloned());
                    i += 1;
                }
                assert(atoms_view(out@) =~= atoms_view(v@));
                Spatial::SepConj(out)
            },
            Spatial::Emp => Spatial::Emp,
        }
    }
}

impl Formula {
    /// The variables of the pure part in order, or `None` when it is `True`.
    pub fn get_pure_vars(&self) -> (r: Option<Vec<Variable>>)
        ensures
            match self@.pure {
                SPure::And(ops) => r is Some && vars_view(r->Some_0@) == pure_vars(ops),
                SPure::True => r is None,
            },
    {
        if let Pure::And(pure_vec) = &self.0 {
            let ghost ops = ops_view(pure_vec@);
            let mut var_vec: Vec<Variable> = Vec::with_capacity(pure_vec.len());
            let mut i: usize = 0;
            while i < pure_vec.len()
                invariant
                    i <= pure_vec@.len(),
                    ops == ops_view(pure_vec@),
                    vars_view(var_vec@) == pure_vars(ops.take(i as int)),
                decreases pure_vec.len() - i,
            {
                let ghost before = var_vec@;
                let (l, r) = match &pure_vec[i] {
                    Op::AtomEq(l, r) => (l, r),
                    Op::AtomNeq(l, r) => (l, r),
                };
                if let Some(v) = l.get_var_opt() {
                    var_vec.push(v);
                }
                if let Some(v) = r.get_var_opt() {
                    var_vec.push(v);
                }
                proof {
                    let t = ops.take(i + 1);
                    assert(t.drop_last() =~= ops.take(i as int));
                    assert(t.last() == ops[i as int]);
                    assert(vars_view(var_vec@) =~= vars_view(before) + expr_vars(l@) + expr_vars(
                        r@,
                    ));
                }
                i += 1;
            }
            assert(ops.take(pure_vec.len() as int) =~= ops);
            return Some(var_vec);
        }
        None
    }

    /// The variables of the spatial part in order, or `None` when it is `Emp`.
    pub fn get_spatial_vars(&self) -> (r: Option<Vec<Variable>>)
        ensures
            match self@.spatial {
                SSpatial::SepConj(atoms) => r is Some && vars_view(r->Some_0@) == spatial_vars(
                    atoms,
                ),
                SSpatial::Emp => r is None,
            },
    {
        if let Spatial::SepConj(spatial_vec) = &self.1 {
            let ghost atoms = atoms_view(spatial_vec@);
            let mut var_vec: Vec<Variable> = Vec::with_capacity(spatial_vec.len());
            let mut i: usize = 0;
            while i < spatial_vec.len()
                invariant
                    i <= spatial_vec@.len(),
                    atoms == atoms_view(spatial_vec@),
                    vars_view(var_vec@) == spatial_vars(atoms.take(i as int)),
                decreases spatial_vec.len() - i,
            {
                let ghost before = var_vec@;
                let (l, r) = match &spatial_vec[i] {
                    AtomSpatial::LS(l, r) => (l, r),
                    AtomSpatial::PtsTo(l, r) => (l, r),
                };
                if let Some(v) = l.get_var_opt() {
                    var_vec.push(v);
                }
                if let Some(v) = r.get_var_opt() {
                    var_vec.push(v);
                }
                proof {
                    let t = atoms.take(i + 1);
                    assert(t.drop_last() =~= atoms.take(i as int));
                    assert(t.last() == atoms[i as int]);
                    assert(vars_view(var_vec@) =~= vars_view(before) + expr_vars(l@) + expr_vars(
                        r@,
                    ));
                }
                i += 1;
            }
            assert(atoms.take(spatial_vec.len() as int) =~= atoms);
            return Some(var_vec);
        }
        None
    }

    /// Every variable that occurs in the formula, pure part first (see `locations`).
    pub fn variables(&self) -> (r: Vec<Variable>)
        ensures
            vars_view(r@) == locations(self@),
    {
        let mut vars: Vec<Variable> = Vec::new();
        if let Some(mut v) = self.get_pure_vars() {
            vars.append(&mut v);
        }
        if let Some(mut v) = self.get_spatial_vars() {
            vars.append(&mut v);
        }
        assert(vars_view(vars@) =~= locations(self@));
        vars
    }

    pub fn get_pure(&self) -> (r: &Pure)
        ensures
            *r == self.0,
    {
        &self.0
    }

    pub fn get_pure_mut(&mut self) -> (r: &mut Pure)
        ensures
            *r == old(self).0,
            *final(self) == Formula(*final(r), old(self).1),
    {
        &mut self.0
    }

    pub fn get_spatial_mut(&mut self) -> (r: &mut Spatial)
        ensures
            *r == old(self).1,
            *final(self) == Formula(old(self).0, *final(r)),
    {
        &mut self.1
    }

    pub fn get_spatial(&self) -> (r: &Spatial)
        ensures
            *r == self.1,
    {
        &self.1
    }

    /// Takes the formula apart into its pure and spatial parts.
    pub fn destroy(self) -> (r: (Pure, Spatial))
        ensures
            r.0 == self.0,
            r.1 == self.1,
    {
        (self.0, self.1)
    }

    pub fn cloned(&self) -> (r: Formula)
        ensures
            r@ == self@,
    {
        Formula(self.0.cloned(), self.1.cloned())
    }
}

impl Entailment {
    /// Takes the goal apart into antecedent and consequent.
    pub fn destroy(self) -> (r: (Formula, Formula))
        ensures
            r.0 == self.antecedent,
            r.1 == self.consequent,
    {
        (self.antecedent, self.consequent)
    }

    pub fn cloned(&self) -> (r: Entailment)
        ensures
            r@ == self@,
    {
        Entailment { antecedent: self.antecedent.cloned(), consequent: self.consequent.cloned() }
    }

    /// Whether the antecedent is in normal form (see `is_normal`).
    pub fn is_normal_form(&self) -> (r: bool)
        ensures
            r == is_normal(self@.ant),
    {
        let ghost f = self@.ant;
        if let Spatial::SepConj(vec) = self.antecedent.get_spatial() {
            let mut i: usize = 0;
            while i < vec.len()
                invariant
                    i <= vec@.len(),
                    f == self@.ant,
                    atoms_of(f.spatial) == atoms_view(vec@),
                    forall|k: int| 0 <= k < i ==> !(#[trigger] atoms_view(vec@)[k] is LS),
                decreases vec.len() - i,
            {
                if vec[i].is_ls() {
                    assert(atoms_of(f.spatial)[i as int] is LS);
                    assert(!is_normal(f));
                    return false;
                }
                i += 1;
            }
        }
        let vars = self.antecedent.variables();
        let ghost locs = locations(f);
        let pures = self.antecedent.get_pure();
        let nil = Expr::Nil;
        let mut o: usize = 0;
        while o < vars.len()
            invariant
                o <= vars@.len(),
                f == self@.ant,
                locs == locations(f),
                locs == vars_view(vars@),
                *pures == self.antecedent.0,
                nil@ == SExpr::Nil,
                forall|a: int|
                    0 <= a < o ==> neq_witnessed(f.pure, SExpr::Var(#[trigger] locs[a]), SExpr::Nil),
                forall|a: int, b: int|
                    0 <= a < o && 0 <= b < locs.len() && #[trigger] locs[a] != #[trigger] locs[b]
                        ==> neq_witnessed(f.pure, SExpr::Var(locs[a]), SExpr::Var(locs[b])),
            decreases vars.len() - o,
        {
            let ov = Expr::Var(vars[o].cloned());
            assert(ov@ == SExpr::Var(locs[o as int]));
            if !pures.has_neq(&ov, &nil) {
                assert(locs.contains(locs[o as int]));
                assert(!is_normal(f));
                return false;
            }
            let mut i: usize = 0;
            while i < vars.len()
                invariant
                    o < vars@.len(),
                    i <= vars@.len(),
                    f == self@.ant,
                    locs == locations(f),
                    locs == vars_view(vars@),
                    *pures == self.antecedent.0,
                    ov@ == SExpr::Var(locs[o as int]),
                    forall|b: int|
                        0 <= b < i && locs[o as int] != #[trigger] locs[b] ==> neq_witnessed(
                            f.pure,
                            SExpr::Var(locs[o as int]),
                            SExpr::Var(locs[b]),
                        ),
                decreases vars.len() - i,
            {
                let same_name = vars[i].0 == vars[o].0;
                if !same_name {
                    let iv = Expr::Var(vars[i].cloned());
                    assert(iv@ == SExpr::Var(locs[i as int]));
                    if !pures.has_neq(&ov, &iv) {
                        assert(locs.contains(locs[o as int]));
                        assert(locs.contains(locs[i as int]));
                        assert(!is_normal(f));
                        return false;
                    }
                }
                i += 1;
            }
            o += 1;
        }
        assert forall|v: Seq<char>| #[trigger] locs.contains(v) implies neq_witnessed(
            f.pure,
            SExpr::Var(v),
            SExpr::Nil,
        ) by {
            let a = choose|a: int| 0 <= a < locs.len() && locs[a] == v;
            assert(neq_witnessed(f.pure, SExpr::Var(locs[a]), SExpr::Nil));
        }
        assert forall|v: Seq<char>, w: Seq<char>|
            #[trigger] locs.contains(v) && #[trigger] locs.contains(w) && v != w implies neq_witnessed(
            f.pure,
            SExpr::Var(v),
            SExpr::Var(w),
        ) by {
            let a = choose|a: int| 0 <= a < locs.len() && locs[a] == v;
            let b = choose|b: int| 0 <= b < locs.len() && locs[b] == w;
            assert(locs[a] != locs[b]);
        }
        true
    }
}

} // verus!
