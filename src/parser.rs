use vstd::prelude::*;

use crate::datastructures::{
    AtomSpatial, Entailment, Expr, Formula, Op, Pure, Spatial, Variable, atoms_view,
    lemma_atoms_push, lemma_ops_push, ops_view,
};
use crate::model::{SAtom, SEntailment, SExpr, SFormula, SOp, SPure, SSpatial};
use vstd::string::{StringSliceAdditionalSpecFns, is_ascii};
use vstd::utf8::{
    encode_utf8, encode_utf8_decode_utf8, is_continuation_byte, encode_utf8_valid_utf8, is_ascii_chars,
    is_ascii_chars_encode_utf8, is_char_boundary_iff_not_is_continuation_byte,
    is_char_boundary_start_end_of_seq,
};

verus! {

broadcast use encode_utf8_valid_utf8, is_char_boundary_start_end_of_seq,
    is_char_boundary_iff_not_is_continuation_byte;

/// White space between tokens.
pub open spec fn is_space(c: char) -> bool {
    c == ' ' || c == '\t' || c == '\n' || c == '\r'
}

/// The letters that identifiers and keywords are made of: the ASCII letters. Identifiers are
/// cut out of the text by position, which the parser proves correct for ASCII text; a text
/// with any other character is rejected as a whole.
pub open spec fn is_letter(c: char) -> bool {
    ('a' <= c && c <= 'z') || ('A' <= c && c <= 'Z')
}

/// The first position at or after `i` that holds no white space.
pub open spec fn skip_space(s: Seq<char>, i: int) -> int
    decreases s.len() - i,
{
    if 0 <= i < s.len() && is_space(s[i]) {
        skip_space(s, i + 1)
    } else {
        i
    }
}

/// The end of the run of letters that starts at `i`.
pub open spec fn word_end(s: Seq<char>, i: int) -> int
    decreases s.len() - i,
{
    if 0 <= i < s.len() && is_letter(s[i]) {
        word_end(s, i + 1)
    } else {
        i
    }
}

/// After white space, the character `c`: the position just after it.
pub open spec fn symbol(s: Seq<char>, i: int, c: char) -> Option<int> {
    let j = skip_space(s, i);
    if 0 <= j < s.len() && s[j] == c {
        Some(j + 1)
    } else {
        None
    }
}

/// After white space, the two characters `c` and `d` in a row: the position just after them.
pub open spec fn symbol2(s: Seq<char>, i: int, c: char, d: char) -> Option<int> {
    let j = skip_space(s, i);
    if 0 <= j && j + 1 < s.len() && s[j] == c && s[j + 1] == d {
        Some(j + 2)
    } else {
        None
    }
}

/// After white space, a word of one or more letters, and the position just after it.
pub open spec fn word(s: Seq<char>, i: int) -> Option<(Seq<char>, int)> {
    let j = skip_space(s, i);
    let e = word_end(s, j);
    if e > j {
        Some((s.subrange(j, e), e))
    } else {
        None
    }
}

pub open spec fn kw_nil() -> Seq<char> {
    seq!['N', 'i', 'l']
}

/// The location that a word names: `Nil` is the null location, any other word a variable.
pub open spec fn location(w: Seq<char>) -> SExpr {
    if w == kw_nil() {
        SExpr::Nil
    } else {
        SExpr::Var(w)
    }
}

/// `Expr ::= 'Nil' | Identifier`
pub open spec fn expr(s: Seq<char>, i: int) -> Option<(SExpr, int)> {
    match word(s, i) {
        Some((w, e)) => Some((location(w), e)),
        None => None,
    }
}

/// `'(' Expr ',' Expr ')'`
pub open spec fn pair(s: Seq<char>, i: int) -> Option<(SExpr, SExpr, int)> {
    match symbol(s, i, '(') {
        None => None,
        Some(a) => match expr(s, a) {
            None => None,
            Some((l, b)) => match symbol(s, b, ',') {
                None => None,
                Some(c) => match expr(s, c) {
                    None => None,
                    Some((r, d)) => match symbol(s, d, ')') {
                        None => None,
                        Some(e) => Some((l, r, e)),
                    },
                },
            },
        },
    }
}

/// `Op ::= ('Eq' | 'Neq') '(' Expr ',' Expr ')'`
pub open spec fn op(s: Seq<char>, i: int) -> Option<(SOp, int)> {
    match word(s, i) {
        None => None,
        Some((w, e)) => if w == seq!['E', 'q'] {
            match pair(s, e) {
                Some((l, r, k)) => Some((SOp::Eq(l, r), k)),
                None => None,
            }
        } else if w == seq!['N', 'e', 'q'] {
            match pair(s, e) {
                Some((l, r, k)) => Some((SOp::Neq(l, r), k)),
                None => None,
            }
        } else {
            None
        },
    }
}

/// `AtomSpatial ::= Expr '->' Expr | 'ls' '(' Expr ',' Expr ')'`; a word `ls` that an
/// opening parenthesis follows starts a segment.
pub open spec fn atom(s: Seq<char>, i: int) -> Option<(SAtom, int)> {
    match word(s, i) {
        None => None,
        Some((w, e)) => if w == seq!['l', 's'] && symbol(s, e, '(') is Some {
            match pair(s, e) {
                Some((l, r, k)) => Some((SAtom::LS(l, r), k)),
                None => None,
            }
        } else {
            match symbol2(s, e, '-', '>') {
                None => None,
                Some(a) => match expr(s, a) {
                    Some((r, k)) => Some((SAtom::PtsTo(location(w), r), k)),
                    None => None,
                },
            }
        },
    }
}

/// The rest of a bracketed list of pure atoms after `acc`: `(',' Op)* ']'`.
pub open spec fn ops_rest(s: Seq<char>, i: int, acc: Seq<SOp>) -> Option<(Seq<SOp>, int)>
    decreases s.len() - i,
{
    match symbol(s, i, ']') {
        Some(j) => Some((acc, j)),
        None => match symbol(s, i, ',') {
            None => None,
            Some(j) => match op(s, j) {
                None => None,
                Some((o, k)) => if i < k <= s.len() {
                    ops_rest(s, k, acc.push(o))
                } else {
                    None
                },
            },
        },
    }
}

/// The rest of a bracketed list of spatial atoms after `acc`: `(',' AtomSpatial)* ']'`.
pub open spec fn atoms_rest(s: Seq<char>, i: int, acc: Seq<SAtom>) -> Option<(Seq<SAtom>, int)>
    decreases s.len() - i,
{
    match symbol(s, i, ']') {
        Some(j) => Some((acc, j)),
        None => match symbol(s, i, ',') {
            None => None,
            Some(j) => match atom(s, j) {
                None => None,
                Some((a, k)) => if i < k <= s.len() {
                    atoms_rest(s, k, acc.push(a))
                } else {
                    None
                },
            },
        },
    }
}

/// `Pure ::= 'True' | 'And' '[' Op (',' Op)* ']'`
pub open spec fn pure(s: Seq<char>, i: int) -> Option<(SPure, int)> {
    match word(s, i) {
        None => None,
        Some((w, e)) => if w == seq!['T', 'r', 'u', 'e'] {
            Some((SPure::True, e))
        } else if w == seq!['A', 'n', 'd'] {
            match symbol(s, e, '[') {
                None => None,
                Some(a) => match op(s, a) {
                    None => None,
                    Some((o, b)) => match ops_rest(s, b, seq![o]) {
                        Some((ops, k)) => Some((SPure::And(ops), k)),
                        None => None,
                    },
                },
            }
        } else {
            None
        },
    }
}

/// `Spatial ::= 'Emp' | 'SepConj' '[' AtomSpatial (',' AtomSpatial)* ']'`
pub open spec fn spatial(s: Seq<char>, i: int) -> Option<(SSpatial, int)> {
    match word(s, i) {
        None => None,
        Some((w, e)) => if w == seq!['E', 'm', 'p'] {
            Some((SSpatial::Emp, e))
        } else if w == seq!['S', 'e', 'p', 'C', 'o', 'n', 'j'] {
            match symbol(s, e, '[') {
                None => None,
                Some(a) => match atom(s, a) {
                    None => None,
                    Some((x, b)) => match atoms_rest(s, b, seq![x]) {
                        Some((atoms, k)) => Some((SSpatial::SepConj(atoms), k)),
                        None => None,
                    },
                },
            }
        } else {
            None
        },
    }
}

/// `Formula ::= Pure '|' Spatial`
pub open spec fn formula(s: Seq<char>, i: int) -> Option<(SFormula, int)> {
    match pure(s, i) {
        None => None,
        Some((p, a)) => match symbol(s, a, '|') {
            None => None,
            Some(b) => match spatial(s, b) {
                Some((x, k)) => Some((SFormula { pure: p, spatial: x }, k)),
                None => None,
            },
        },
    }
}

/// `Entailment ::= Formula '|-' Formula`
pub open spec fn entailment(s: Seq<char>, i: int) -> Option<(SEntailment, int)> {
    match formula(s, i) {
        None => None,
        Some((a, b)) => match symbol2(s, b, '|', '-') {
            None => None,
            Some(c) => match formula(s, c) {
                Some((d, k)) => Some((SEntailment { ant: a, cons: d }, k)),
                None => None,
            },
        },
    }
}

/// A parse of the whole text: nothing but white space may follow.
pub open spec fn complete<T>(s: Seq<char>, r: Option<(T, int)>) -> Option<T> {
    match r {
        Some((x, k)) => if skip_space(s, k) == s.len() {
            Some(x)
        } else {
            None
        },
        None => None,
    }
}

/// The bytes of an ASCII string are its characters, one each.
proof fn lemma_ascii_bytes(s: &str)
    requires
        is_ascii(s),
    ensures
        s.spec_bytes().len() == s@.len(),
        forall|k: int| 0 <= k < s@.len() ==> #[trigger] s.spec_bytes()[k] == s@[k] as u8,
        forall|k: int| 0 <= k < s@.len() ==> (#[trigger] s@[k] as u32) < 128,
{
    is_ascii_chars_encode_utf8(s@);
}

/// The characters `a..b` of an ASCII string, as an owned string.
fn slice_chars(s: &str, a: usize, b: usize) -> (r: String)
    requires
        is_ascii(s),
        a <= b <= s@.len(),
    ensures
        r@ == s@.subrange(a as int, b as int),
{
    proof {
        lemma_ascii_bytes(s);
        let bytes = s.spec_bytes();
        if a < s@.len() {
            assert((s@[a as int] as u32) < 128);
            assert(bytes[a as int] < 128);
            assert(!is_continuation_byte(bytes[a as int]));
        }
        assert(vstd::utf8::is_char_boundary(bytes, a as int));
    }
    let (_, tail) = s.split_at(a);
    proof {
        assert(tail.spec_bytes() =~= s.spec_bytes().subrange(a as int, s.spec_bytes().len() as int));
    }
    proof {
        let tb = tail.spec_bytes();
        if b < s@.len() {
            assert((s@[b as int] as u32) < 128);
            assert(tb[b - a] == s.spec_bytes()[b as int]);
            assert(!is_continuation_byte(tb[b - a]));
        }
        assert(vstd::utf8::is_char_boundary(tb, (b - a) as int));
    }
    let (mid, _) = tail.split_at(b - a);
    proof {
        let t = s@.subrange(a as int, b as int);
        assert(is_ascii_chars(t));
        is_ascii_chars_encode_utf8(t);
        assert(encode_utf8(t) =~= mid.spec_bytes());
        encode_utf8_decode_utf8(t);
        encode_utf8_decode_utf8(mid@);
    }
    mid.to_string()
}

/// `b` holds the bytes of the ASCII text `s`.
pub open spec fn readable(s: &str, b: &[u8]) -> bool {
    is_ascii(s) && b@ == s.spec_bytes()
}

/// The position that an optional result ends at, as an integer.
pub open spec fn at_pos(r: Option<usize>) -> Option<int> {
    match r {
        Some(k) => Some(k as int),
        None => None,
    }
}

/// Why a text is not an entailment: it holds a character other than ASCII, or it does not
/// follow the grammar.
#[derive(PartialEq, Eq, Clone, Copy, Debug)]
pub struct ParseError;

fn char_at(s: &str, b: &[u8], i: usize) -> (c: char)
    requires
        readable(s, b),
        i < s@.len(),
    ensures
        c == s@[i as int],
{
    proof {
        lemma_ascii_bytes(s);
    }
    b[i] as char
}

fn skip_space_at(s: &str, b: &[u8], i: usize) -> (j: usize)
    requires
        readable(s, b),
        i <= s@.len(),
    ensures
        j == skip_space(s@, i as int),
        i <= j <= s@.len(),
{
    proof {
        lemma_ascii_bytes(s);
    }
    let mut j = i;
    while j < b.len()
        invariant
            readable(s, b),
            b@.len() == s@.len(),
            i <= j <= s@.len(),
            skip_space(s@, j as int) == skip_space(s@, i as int),
        decreases s@.len() - j,
    {
        let c = char_at(s, b, j);
        if !(c == ' ' || c == '\t' || c == '\n' || c == '\r') {
            return j;
        }
        j += 1;
    }
    j
}

fn word_end_at(s: &str, b: &[u8], i: usize) -> (j: usize)
    requires
        readable(s, b),
        i <= s@.len(),
    ensures
        j == word_end(s@, i as int),
        i <= j <= s@.len(),
{
    proof {
        lemma_ascii_bytes(s);
    }
    let mut j = i;
    while j < b.len()
        invariant
            readable(s, b),
            b@.len() == s@.len(),
            i <= j <= s@.len(),
            word_end(s@, j as int) == word_end(s@, i as int),
        decreases s@.len() - j,
    {
        let c = char_at(s, b, j);
        if !(('a' <= c && c <= 'z') || ('A' <= c && c <= 'Z')) {
            return j;
        }
        j += 1;
    }
    j
}

fn symbol_at(s: &str, b: &[u8], i: usize, c: char) -> (r: Option<usize>)
    requires
        readable(s, b),
        i <= s@.len(),
    ensures
        at_pos(r) == symbol(s@, i as int, c),
        r matches Some(k) ==> k <= s@.len(),
{
    let j = skip_space_at(s, b, i);
    if j < b.len() && char_at(s, b, j) == c {
        Some(j + 1)
    } else {
        None
    }
}

fn symbol2_at(s: &str, b: &[u8], i: usize, c: char, d: char) -> (r: Option<usize>)
    requires
        readable(s, b),
        i <= s@.len(),
    ensures
        at_pos(r) == symbol2(s@, i as int, c, d),
        r matches Some(k) ==> k <= s@.len(),
{
    let j = skip_space_at(s, b, i);
    if j < b.len() && j + 1 < b.len() && char_at(s, b, j) == c && char_at(s, b, j + 1) == d {
        Some(j + 2)
    } else {
        None
    }
}

/// The bounds of the word after white space at `i`.
fn word_at(s: &str, b: &[u8], i: usize) -> (r: Option<(usize, usize)>)
    requires
        readable(s, b),
        i <= s@.len(),
    ensures
        match r {
            Some((j, e)) => j < e <= s@.len() && word(s@, i as int) == Some(
                (s@.subrange(j as int, e as int), e as int),
            ),
            None => word(s@, i as int) is None,
        },
{
    let j = skip_space_at(s, b, i);
    let e = word_end_at(s, b, j);
    if e > j {
        Some((j, e))
    } else {
        None
    }
}

/// Whether the characters `j..e` of `s` spell `w`.
fn spells(s: &str, b: &[u8], j: usize, e: usize, w: &[char]) -> (r: bool)
    requires
        readable(s, b),
        j <= e <= s@.len(),
    ensures
        r == (s@.subrange(j as int, e as int) == w@),
{
    if e - j != w.len() {
        return false;
    }
    let mut k: usize = 0;
    while k < w.len()
        invariant
            readable(s, b),
            j <= e <= s@.len(),
            e - j == w@.len(),
            k <= w@.len(),
            forall|x: int| 0 <= x < k ==> s@[j + x] == w@[x],
        decreases w@.len() - k,
    {
        if char_at(s, b, j + k) != w[k] {
            assert(s@.subrange(j as int, e as int)[k as int] != w@[k as int]);
            return false;
        }
        k += 1;
    }
    assert(s@.subrange(j as int, e as int) =~= w@);
    true
}

/// The location named by the characters `j..e`.
fn location_at(s: &str, b: &[u8], j: usize, e: usize) -> (r: Expr)
    requires
        readable(s, b),
        j <= e <= s@.len(),
    ensures
        r@ == location(s@.subrange(j as int, e as int)),
{
    let nil = ['N', 'i', 'l'];
    assert(nil@ == kw_nil());
    if spells(s, b, j, e, &nil) {
        Expr::Nil
    } else {
        Expr::Var(Variable(slice_chars(s, j, e)))
    }
}

fn expr_at(s: &str, b: &[u8], i: usize) -> (r: Option<(Expr, usize)>)
    requires
        readable(s, b),
        i <= s@.len(),
    ensures
        match r {
            Some((x, k)) => k <= s@.len() && expr(s@, i as int) == Some((x@, k as int)),
            None => expr(s@, i as int) is None,
        },
{
    match word_at(s, b, i) {
        Some((j, e)) => Some((location_at(s, b, j, e), e)),
        None => None,
    }
}

fn pair_at(s: &str, b: &[u8], i: usize) -> (r: Option<(Expr, Expr, usize)>)
    requires
        readable(s, b),
        i <= s@.len(),
    ensures
        match r {
            Some((x, y, k)) => k <= s@.len() && pair(s@, i as int) == Some((x@, y@, k as int)),
            None => pair(s@, i as int) is None,
        },
{
    let a = match symbol_at(s, b, i, '(') {
        Some(a) => a,
        None => return None,
    };
    let (l, c) = match expr_at(s, b, a) {
        Some(x) => x,
        None => return None,
    };
    let d = match symbol_at(s, b, c, ',') {
        Some(d) => d,
        None => return None,
    };
    let (r, e) = match expr_at(s, b, d) {
        Some(x) => x,
        None => return None,
    };
    match symbol_at(s, b, e, ')') {
        Some(k) => Some((l, r, k)),
        None => None,
    }
}

fn op_at(s: &str, b: &[u8], i: usize) -> (r: Option<(Op, usize)>)
    requires
        readable(s, b),
        i <= s@.len(),
    ensures
        match r {
            Some((x, k)) => k <= s@.len() && op(s@, i as int) == Some((x@, k as int)),
            None => op(s@, i as int) is None,
        },
{
    let (j, e) = match word_at(s, b, i) {
        Some(x) => x,
        None => return None,
    };
    let kw_eq = ['E', 'q'];
    let kw_neq = ['N', 'e', 'q'];
    assert(kw_eq@ == seq!['E', 'q']);
    assert(kw_neq@ == seq!['N', 'e', 'q']);
    if spells(s, b, j, e, &kw_eq) {
        match pair_at(s, b, e) {
            Some((l, r, k)) => Some((Op::AtomEq(l, r), k)),
            None => None,
        }
    } else if spells(s, b, j, e, &kw_neq) {
        match pair_at(s, b, e) {
            Some((l, r, k)) => Some((Op::AtomNeq(l, r), k)),
            None => None,
        }
    } else {
        None
    }
}

fn atom_at(s: &str, b: &[u8], i: usize) -> (r: Option<(AtomSpatial, usize)>)
    requires
        readable(s, b),
        i <= s@.len(),
    ensures
        match r {
            Some((x, k)) => k <= s@.len() && atom(s@, i as int) == Some((x@, k as int)),
            None => atom(s@, i as int) is None,
        },
{
    let (j, e) = match word_at(s, b, i) {
        Some(x) => x,
        None => return None,
    };
    let kw_ls = ['l', 's'];
    assert(kw_ls@ == seq!['l', 's']);
    if spells(s, b, j, e, &kw_ls) && symbol_at(s, b, e, '(').is_some() {
        match pair_at(s, b, e) {
            Some((l, r, k)) => Some((AtomSpatial::LS(l, r), k)),
            None => None,
        }
    } else {
        let a = match symbol2_at(s, b, e, '-', '>') {
            Some(a) => a,
            None => return None,
        };
        match expr_at(s, b, a) {
            Some((r, k)) => Some((AtomSpatial::PtsTo(location_at(s, b, j, e), r), k)),
            None => None,
        }
    }
}

fn ops_rest_at(s: &str, b: &[u8], start: usize, first: Vec<Op>) -> (r: Option<(Vec<Op>, usize)>)
    requires
        readable(s, b),
        start <= s@.len(),
    ensures
        match r {
            Some((v, k)) => k <= s@.len() && ops_rest(s@, start as int, ops_view(first@)) == Some(
                (ops_view(v@), k as int),
            ),
            None => ops_rest(s@, start as int, ops_view(first@)) is None,
        },
{
    let ghost target = ops_rest(s@, start as int, ops_view(first@));
    let mut acc = first;
    let mut i = start;
    loop
        invariant
            readable(s, b),
            i <= s@.len(),
            ops_rest(s@, i as int, ops_view(acc@)) == target,
            target == ops_rest(s@, start as int, ops_view(first@)),
        decreases s@.len() - i,
    {
        if let Some(j) = symbol_at(s, b, i, ']') {
            return Some((acc, j));
        }
        let j = match symbol_at(s, b, i, ',') {
            Some(j) => j,
            None => return None,
        };
        let (o, k) = match op_at(s, b, j) {
            Some(x) => x,
            None => return None,
        };
        if !(i < k) {
            return None;
        }
        proof {
            lemma_ops_push(acc@, o);
        }
        acc.push(o);
        i = k;
    }
}

fn atoms_rest_at(s: &str, b: &[u8], start: usize, first: Vec<AtomSpatial>) -> (r: Option<
    (Vec<AtomSpatial>, usize),
>)
    requires
        readable(s, b),
        start <= s@.len(),
    ensures
        match r {
            Some((v, k)) => k <= s@.len() && atoms_rest(s@, start as int, atoms_view(first@)) == Some(
                (atoms_view(v@), k as int),
            ),
            None => atoms_rest(s@, start as int, atoms_view(first@)) is None,
        },
{
    let ghost target = atoms_rest(s@, start as int, atoms_view(first@));
    let mut acc = first;
    let mut i = start;
    loop
        invariant
            readable(s, b),
            i <= s@.len(),
            atoms_rest(s@, i as int, atoms_view(acc@)) == target,
            target == atoms_rest(s@, start as int, atoms_view(first@)),
        decreases s@.len() - i,
    {
        if let Some(j) = symbol_at(s, b, i, ']') {
            return Some((acc, j));
        }
        let j = match symbol_at(s, b, i, ',') {
            Some(j) => j,
            None => return None,
        };
        let (x, k) = match atom_at(s, b, j) {
            Some(x) => x,
            None => return None,
        };
        if !(i < k) {
            return None;
        }
        proof {
            lemma_atoms_push(acc@, x);
        }
        acc.push(x);
        i = k;
    }
}

fn pure_at(s: &str, b: &[u8], i: usize) -> (r: Option<(Pure, usize)>)
    requires
        readable(s, b),
        i <= s@.len(),
    ensures
        match r {
            Some((x, k)) => k <= s@.len() && pure(s@, i as int) == Some((x@, k as int)),
            None => pure(s@, i as int) is None,
        },
{
    let (j, e) = match word_at(s, b, i) {
        Some(x) => x,
        None => return None,
    };
    let kw_true = ['T', 'r', 'u', 'e'];
    let kw_and = ['A', 'n', 'd'];
    assert(kw_true@ == seq!['T', 'r', 'u', 'e']);
    assert(kw_and@ == seq!['A', 'n', 'd']);
    if spells(s, b, j, e, &kw_true) {
        return Some((Pure::True, e));
    }
    if !spells(s, b, j, e, &kw_and) {
        return None;
    }
    let a = match symbol_at(s, b, e, '[') {
        Some(a) => a,
        None => return None,
    };
    let (o, c) = match op_at(s, b, a) {
        Some(x) => x,
        None => return None,
    };
    let ghost first = o@;
    let first_vec = vec![o];
    assert(ops_view(first_vec@) =~= seq![first]);
    match ops_rest_at(s, b, c, first_vec) {
        Some((ops, k)) => Some((Pure::And(ops), k)),
        None => None,
    }
}

fn spatial_at(s: &str, b: &[u8], i: usize) -> (r: Option<(Spatial, usize)>)
    requires
        readable(s, b),
        i <= s@.len(),
    ensures
        match r {
            Some((x, k)) => k <= s@.len() && spatial(s@, i as int) == Some((x@, k as int)),
            None => spatial(s@, i as int) is None,
        },
{
    let (j, e) = match word_at(s, b, i) {
        Some(x) => x,
        None => return None,
    };
    let kw_emp = ['E', 'm', 'p'];
    let kw_sep = ['S', 'e', 'p', 'C', 'o', 'n', 'j'];
    assert(kw_emp@ == seq!['E', 'm', 'p']);
    assert(kw_sep@ == seq!['S', 'e', 'p', 'C', 'o', 'n', 'j']);
    if spells(s, b, j, e, &kw_emp) {
        return Some((Spatial::Emp, e));
    }
    if !spells(s, b, j, e, &kw_sep) {
        return None;
    }
    let a = match symbol_at(s, b, e, '[') {
        Some(a) => a,
        None => return None,
    };
    let (x, c) = match atom_at(s, b, a) {
        Some(x) => x,
        None => return None,
    };
    let ghost first = x@;
    let first_vec = vec![x];
    assert(atoms_view(first_vec@) =~= seq![first]);
    match atoms_rest_at(s, b, c, first_vec) {
        Some((atoms, k)) => Some((Spatial::SepConj(atoms), k)),
        None => None,
    }
}

fn formula_at(s: &str, b: &[u8], i: usize) -> (r: Option<(Formula, usize)>)
    requires
        readable(s, b),
        i <= s@.len(),
    ensures
        match r {
            Some((x, k)) => k <= s@.len() && formula(s@, i as int) == Some((x@, k as int)),
            None => formula(s@, i as int) is None,
        },
{
    let (p, a) = match pure_at(s, b, i) {
        Some(x) => x,
        None => return None,
    };
    let c = match symbol_at(s, b, a, '|') {
        Some(c) => c,
        None => return None,
    };
    match spatial_at(s, b, c) {
        Some((x, k)) => Some((Formula(p, x), k)),
        None => None,
    }
}

fn entailment_at(s: &str, b: &[u8], i: usize) -> (r: Option<(Entailment, usize)>)
    requires
        readable(s, b),
        i <= s@.len(),
    ensures
        match r {
            Some((x, k)) => k <= s@.len() && entailment(s@, i as int) == Some((x@, k as int)),
            None => entailment(s@, i as int) is None,
        },
{
    let (a, c) = match formula_at(s, b, i) {
        Some(x) => x,
        None => return None,
    };
    let d = match symbol2_at(s, b, c, '|', '-') {
        Some(d) => d,
        None => return None,
    };
    match formula_at(s, b, d) {
        Some((x, k)) => Some((Entailment { antecedent: a, consequent: x }, k)),
        None => None,
    }
}

/// Reads a whole text as an entailment `Formula '|-' Formula`; white space may stand between tokens and around the text.
pub fn parse_entailment(input: &str) -> (r: Result<Entailment, ParseError>)
    ensures
        match r {
            Ok(x) => is_ascii_chars(input@) && complete(input@, entailment(input@, 0)) == Some(x@),
            Err(_) => !is_ascii_chars(input@) || complete(input@, entailment(input@, 0)) is None,
        },
{
    if !input.is_ascii() {
        return Err(ParseError);
    }
    let b = input.as_bytes();
    proof {
        lemma_ascii_bytes(input);
    }
    match entailment_at(input, b, 0) {
        Some((x, k)) => if skip_space_at(input, b, k) == b.len() {
            Ok(x)
        } else {
            Err(ParseError)
        },
        None => Err(ParseError),
    }
}

/// Reads a whole text as a formula `Pure '|' Spatial`; white space may stand between tokens and around the text.
pub fn parse_formula(input: &str) -> (r: Result<Formula, ParseError>)
    ensures
        match r {
            Ok(x) => is_ascii_chars(input@) && complete(input@, formula(input@, 0)) == Some(x@),
            Err(_) => !is_ascii_chars(input@) || complete(input@, formula(input@, 0)) is None,
        },
{
    if !input.is_ascii() {
        return Err(ParseError);
    }
    let b = input.as_bytes();
    proof {
        lemma_ascii_bytes(input);
    }
    match formula_at(input, b, 0) {
        Some((x, k)) => if skip_space_at(input, b, k) == b.len() {
            Ok(x)
        } else {
            Err(ParseError)
        },
        None => Err(ParseError),
    }
}

/// Reads a whole text as a pure part; white space may stand between tokens and around the text.
pub fn parse_pure(input: &str) -> (r: Result<Pure, ParseError>)
    ensures
        match r {
            Ok(x) => is_ascii_chars(input@) && complete(input@, pure(input@, 0)) == Some(x@),
            Err(_) => !is_ascii_chars(input@) || complete(input@, pure(input@, 0)) is None,
        },
{
    if !input.is_ascii() {
        return Err(ParseError);
    }
    let b = input.as_bytes();
    proof {
        lemma_ascii_bytes(input);
    }
    match pure_at(input, b, 0) {
        Some((x, k)) => if skip_space_at(input, b, k) == b.len() {
            Ok(x)
        } else {
            Err(ParseError)
        },
        None => Err(ParseError),
    }
}

/// Reads a whole text as a spatial part; white space may stand between tokens and around the text.
pub fn parse_spatial(input: &str) -> (r: Result<Spatial, ParseError>)
    ensures
        match r {
            Ok(x) => is_ascii_chars(input@) && complete(input@, spatial(input@, 0)) == Some(x@),
            Err(_) => !is_ascii_chars(input@) || complete(input@, spatial(input@, 0)) is None,
        },
{
    if !input.is_ascii() {
        return Err(ParseError);
    }
    let b = input.as_bytes();
    proof {
        lemma_ascii_bytes(input);
    }
    match spatial_at(input, b, 0) {
        Some((x, k)) => if skip_space_at(input, b, k) == b.len() {
            Ok(x)
        } else {
            Err(ParseError)
        },
        None => Err(ParseError),
    }
}

/// Reads a whole text as a spatial atom; white space may stand between tokens and around the text.
pub fn parse_atom_spatial(input: &str) -> (r: Result<AtomSpatial, ParseError>)
    ensures
        match r {
            Ok(x) => is_ascii_chars(input@) && complete(input@, atom(input@, 0)) == Some(x@),
            Err(_) => !is_ascii_chars(input@) || complete(input@, atom(input@, 0)) is None,
        },
{
    if !input.is_ascii() {
        return Err(ParseError);
    }
    let b = input.as_bytes();
    proof {
        lemma_ascii_bytes(input);
    }
    match atom_at(input, b, 0) {
        Some((x, k)) => if skip_space_at(input, b, k) == b.len() {
            Ok(x)
        } else {
            Err(ParseError)
        },
        None => Err(ParseError),
    }
}

/// Reads a whole text as a pure atom; white space may stand between tokens and around the text.
pub fn parse_op(input: &str) -> (r: Result<Op, ParseError>)
    ensures
        match r {
            Ok(x) => is_ascii_chars(input@) && complete(input@, op(input@, 0)) == Some(x@),
            Err(_) => !is_ascii_chars(input@) || complete(input@, op(input@, 0)) is None,
        },
{
    if !input.is_ascii() {
        return Err(ParseError);
    }
    let b = input.as_bytes();
    proof {
        lemma_ascii_bytes(input);
    }
    match op_at(input, b, 0) {
        Some((x, k)) => if skip_space_at(input, b, k) == b.len() {
            Ok(x)
        } else {
            Err(ParseError)
        },
        None => Err(ParseError),
    }
}

} // verus!
