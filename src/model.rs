use vstd::prelude::*;

verus! {

/// A location: the null location or a variable, known by its name.
pub enum SExpr {
    Nil,
    Var(Seq<char>),
}

/// An atomic (in)equality between two locations.
pub enum SOp {
    Eq(SExpr, SExpr),
    Neq(SExpr, SExpr),
}

/// The pure part of a symbolic heap: `True` or a conjunction of atoms.
pub enum SPure {
    And(Seq<SOp>),
    True,
}

/// One heap cell `l -> r`, or a list segment from `l` to `r`.
pub enum SAtom {
    PtsTo(SExpr, SExpr),
    LS(SExpr, SExpr),
}

/// The spatial part of a symbolic heap: `Emp` or a separating conjunction.
pub enum SSpatial {
    SepConj(Seq<SAtom>),
    Emp,
}

/// A symbolic heap.
pub struct SFormula {
    pub pure: SPure,
    pub spatial: SSpatial,
}

/// A proof goal: antecedent entails consequent.
pub struct SEntailment {
    pub ant: SFormula,
    pub cons: SFormula,
}

impl SOp {
    pub open spec fn lhs(self) -> SExpr {
        match self {
            SOp::Eq(l, _) => l,
            SOp::Neq(l, _) => l,
        }
    }

    pub open spec fn rhs(self) -> SExpr {
        match self {
            SOp::Eq(_, r) => r,
            SOp::Neq(_, r) => r,
        }
    }
}

impl SAtom {
    pub open spec fn lhs(self) -> SExpr {
        match self {
            SAtom::PtsTo(l, _) => l,
            SAtom::LS(l, _) => l,
        }
    }

    pub open spec fn rhs(self) -> SExpr {
        match self {
            SAtom::PtsTo(_, r) => r,
            SAtom::LS(_, r) => r,
        }
    }
}

/// The atoms of a pure part; `True` has none.
pub open spec fn ops_of(p: SPure) -> Seq<SOp> {
    match p {
        SPure::And(ops) => ops,
        SPure::True => Seq::empty(),
    }
}

/// The atoms of a spatial part; `Emp` has none.
pub open spec fn atoms_of(s: SSpatial) -> Seq<SAtom> {
    match s {
        SSpatial::SepConj(atoms) => atoms,
        SSpatial::Emp => Seq::empty(),
    }
}

/// The pure part holds `a != b` as an atom, in either operand order.
pub open spec fn neq_witnessed(p: SPure, a: SExpr, b: SExpr) -> bool {
    exists|k: int|
        0 <= k < ops_of(p).len() && (#[trigger] ops_of(p)[k] == SOp::Neq(a, b) || ops_of(p)[k]
            == SOp::Neq(b, a))
}

/// Two pure atoms agree in constructor and in operands, taken unordered.
pub open spec fn same_op(a: SOp, b: SOp) -> bool {
    match (a, b) {
        (SOp::Eq(l1, r1), SOp::Eq(l2, r2)) => (l1 == l2 && r1 == r2) || (l1 == r2 && r1 == l2),
        (SOp::Neq(l1, r1), SOp::Neq(l2, r2)) => (l1 == l2 && r1 == r2) || (l1 == r2 && r1 == l2),
        _ => false,
    }
}

/// Two spatial atoms agree in constructor and in operands, taken unordered.
pub open spec fn same_atom(a: SAtom, b: SAtom) -> bool {
    match (a, b) {
        (SAtom::LS(l1, r1), SAtom::LS(l2, r2)) => (l1 == l2 && r1 == r2) || (l1 == r2 && r1 == l2),
        (SAtom::PtsTo(l1, r1), SAtom::PtsTo(l2, r2)) => (l1 == l2 && r1 == r2) || (l1 == r2
            && r1 == l2),
        _ => false,
    }
}

/// Conjoins one more atom to a pure part; `True` becomes a one-atom conjunction.
pub open spec fn add_op(p: SPure, o: SOp) -> SPure {
    match p {
        SPure::And(ops) => SPure::And(ops.push(o)),
        SPure::True => SPure::And(seq![o]),
    }
}

/// Removes index `i` the way `Vec::swap_remove` does: the last element takes its place.
pub open spec fn swap_out<A>(s: Seq<A>, i: int) -> Seq<A> {
    s.update(i, s.last()).drop_last()
}

/// The least index below `n` at which `p` holds, or -1 if there is none.
pub open spec fn first_index(n: nat, p: spec_fn(int) -> bool) -> int
    decreases n,
{
    if n == 0 {
        -1
    } else {
        let k = first_index((n - 1) as nat, p);
        if k >= 0 {
            k
        } else if p(n - 1) {
            n - 1
        } else {
            -1
        }
    }
}

/// `first_index` is characterised by the two ways a linear search can end.
pub proof fn lemma_first_index(n: nat, p: spec_fn(int) -> bool, k: int)
    requires
        (k == -1 && forall|j: int| 0 <= j < n ==> !#[trigger] p(j)) || (0 <= k < n && p(k) && forall|
            j: int,
        |
            0 <= j < k ==> !#[trigger] p(j)),
    ensures
        first_index(n, p) == k,
    decreases n,
{
    if n > 0 {
        if k == n - 1 {
            lemma_first_index((n - 1) as nat, p, -1);
        } else {
            lemma_first_index((n - 1) as nat, p, k);
        }
    }
}

/// What `first_index` returns is a first witness, or there is none.
pub proof fn lemma_first_index_spec(n: nat, p: spec_fn(int) -> bool)
    ensures
        first_index(n, p) == -1 <==> forall|j: int| 0 <= j < n ==> !#[trigger] p(j),
        first_index(n, p) != -1 ==> {
            let k = first_index(n, p);
            0 <= k < n && p(k) && forall|j: int| 0 <= j < k ==> !#[trigger] p(j)
        },
    decreases n,
{
    if n > 0 {
        lemma_first_index_spec((n - 1) as nat, p);
    }
}

/// `n` followed by `k` letters `x`.
pub open spec fn with_xs(n: Seq<char>, k: nat) -> Seq<char> {
    n + Seq::new(k, |_i: int| 'x')
}

/// The length of the longest name in `used`.
pub open spec fn max_len(used: Seq<Seq<char>>) -> nat
    decreases used.len(),
{
    if used.len() == 0 {
        0
    } else {
        let m = max_len(used.drop_last());
        if used.last().len() > m {
            used.last().len()
        } else {
            m
        }
    }
}

pub proof fn lemma_max_len(used: Seq<Seq<char>>)
    ensures
        forall|i: int| 0 <= i < used.len() ==> (#[trigger] used[i]).len() <= max_len(used),
    decreases used.len(),
{
    if used.len() > 0 {
        lemma_max_len(used.drop_last());
        assert forall|i: int| 0 <= i < used.len() implies (#[trigger] used[i]).len() <= max_len(
            used,
        ) by {
            if i < used.len() - 1 {
                assert(used[i] == used.drop_last()[i]);
            }
        }
    }
}

/// From `n` followed by `k` letters `x` on, the first such name that `used` does not hold.
pub open spec fn fresh_from(n: Seq<char>, used: Seq<Seq<char>>, k: nat) -> Seq<char>
    decreases max_len(used) + 1 - k,
{
    if k > max_len(used) || !used.contains(with_xs(n, k)) {
        with_xs(n, k)
    } else {
        fresh_from(n, used, k + 1)
    }
}

/// The name `n` with letters `x` appended, as few as make it a name that `used` does not hold
/// (at least one).
pub open spec fn fresh_name(n: Seq<char>, used: Seq<Seq<char>>) -> Seq<char> {
    fresh_from(n, used, 1)
}

/// A name that `used` holds is no longer than the longest of them.
pub proof fn lemma_used_not_too_long(n: Seq<char>, used: Seq<Seq<char>>, k: nat)
    requires
        used.contains(with_xs(n, k)),
    ensures
        k <= max_len(used),
{
    lemma_max_len(used);
    let i = choose|i: int| 0 <= i < used.len() && used[i] == with_xs(n, k);
    assert(used[i].len() <= max_len(used));
}

pub proof fn lemma_fresh_from(n: Seq<char>, used: Seq<Seq<char>>, k: nat)
    ensures
        !used.contains(fresh_from(n, used, k)),
    decreases max_len(used) + 1 - k,
{
    if k > max_len(used) {
        if used.contains(with_xs(n, k)) {
            lemma_used_not_too_long(n, used, k);
        }
    } else if used.contains(with_xs(n, k)) {
        lemma_fresh_from(n, used, k + 1);
    }
}

/// A fresh name is fresh.
pub proof fn lemma_fresh_name(n: Seq<char>, used: Seq<Seq<char>>)
    ensures
        !used.contains(fresh_name(n, used)),
{
    lemma_fresh_from(n, used, 1);
}

} // verus!
