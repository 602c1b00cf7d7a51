//! Conversion between the query's own expression tree (`Expr` over a term
//! list) and the binary, self-contained `QueryExpression` of the domain
//! layer, whose leaves carry their keyword text.
use vstd::prelude::*;
use crate::query::{
    Expr, Query, Term, PathFilter, eval_spec, all_spec, any_spec, expr_size, exprs_size,
    lemma_all_spec, lemma_any_spec, lemma_exprs_size,
};
use crate::regexes::{FancyRegex, StdRegex, fancy_regex_compiles, std_regex_compiles};

verus! {

/// A self-contained boolean query expression.
#[derive(Debug)]
pub enum QueryExpression {
    /// A keyword; case-sensitive keywords came from quoted phrases.
    Literal { value: String, case_sensitive: bool },
    /// A regular expression.
    Regex { pattern: String, case_sensitive: bool },
    And { left: Box<QueryExpression>, right: Box<QueryExpression> },
    Or { left: Box<QueryExpression>, right: Box<QueryExpression> },
    Not { expression: Box<QueryExpression> },
}

impl QueryExpression {
    /// A case-insensitive keyword.
    pub fn literal(value: String) -> (r: QueryExpression)
        ensures
            r == (QueryExpression::Literal { value, case_sensitive: false }),
    {
        QueryExpression::Literal { value, case_sensitive: false }
    }

    /// The conjunction of two expressions.
    pub fn and(left: QueryExpression, right: QueryExpression) -> (r: QueryExpression)
        ensures
            r == (QueryExpression::And { left: Box::new(left), right: Box::new(right) }),
    {
        QueryExpression::And { left: Box::new(left), right: Box::new(right) }
    }

    /// The disjunction of two expressions.
    pub fn or(left: QueryExpression, right: QueryExpression) -> (r: QueryExpression)
        ensures
            r == (QueryExpression::Or { left: Box::new(left), right: Box::new(right) }),
    {
        QueryExpression::Or { left: Box::new(left), right: Box::new(right) }
    }

    /// The negation of an expression.
    pub fn not(expression: QueryExpression) -> (r: QueryExpression)
        ensures
            r == (QueryExpression::Not { expression: Box::new(expression) }),
    {
        QueryExpression::Not { expression: Box::new(expression) }
    }
}

/// Path rules of the domain layer: glob patterns to keep and to drop.
#[derive(Debug)]
pub struct DomainPathFilter {
    pub includes: Vec<String>,
    pub excludes: Vec<String>,
}

impl DomainPathFilter {
    /// No rule.
    pub fn new() -> (r: DomainPathFilter)
        ensures
            r.includes@.len() == 0,
            r.excludes@.len() == 0,
    {
        DomainPathFilter { includes: Vec::new(), excludes: Vec::new() }
    }
}

/// A parsed query of the domain layer.
#[derive(Debug)]
pub struct ParsedQuery {
    pub expression: QueryExpression,
    pub path_filter: DomainPathFilter,
    pub encoding_filter: Option<String>,
    pub raw_query: String,
}

impl ParsedQuery {
    /// A parsed query with no path rule and no encoding.
    pub fn new(expression: QueryExpression, raw_query: String) -> (r: ParsedQuery)
        ensures
            r.expression == expression,
            r.raw_query == raw_query,
            r.path_filter.includes@.len() == 0,
            r.path_filter.excludes@.len() == 0,
            r.encoding_filter is None,
    {
        ParsedQuery { expression, path_filter: DomainPathFilter::new(), encoding_filter: None, raw_query }
    }
}

/// The keyword and regex leaves of `e`, left to right.
pub open spec fn qe_leaves(e: QueryExpression) -> Seq<QueryExpression>
    decreases e,
{
    match e {
        QueryExpression::And { left, right } => qe_leaves(*left) + qe_leaves(*right),
        QueryExpression::Or { left, right } => qe_leaves(*left) + qe_leaves(*right),
        QueryExpression::Not { expression } => qe_leaves(*expression),
        _ => seq![e],
    }
}

/// Leaf values read `n` leaves further on.
pub open spec fn later_leaves(f: spec_fn(int) -> bool, n: int) -> spec_fn(int) -> bool {
    |j: int| f(j + n)
}

/// The value of `e` when its `j`-th leaf (left to right) has the value `f(j)`.
pub open spec fn qe_eval(e: QueryExpression, f: spec_fn(int) -> bool) -> bool
    decreases e,
{
    match e {
        QueryExpression::And { left, right } => {
            let n = qe_leaves(*left).len();
            qe_eval(*left, f) && qe_eval(*right, later_leaves(f, n as int))
        },
        QueryExpression::Or { left, right } => {
            let n = qe_leaves(*left).len();
            qe_eval(*left, f) || qe_eval(*right, later_leaves(f, n as int))
        },
        QueryExpression::Not { expression } => !qe_eval(*expression, f),
        _ => f(0),
    }
}

/// The value of an expression depends only on the values of its own leaves.
pub proof fn lemma_qe_eval_congruent(e: QueryExpression, f: spec_fn(int) -> bool, g: spec_fn(int) -> bool)
    requires
        forall|j: int| 0 <= j < qe_leaves(e).len() ==> #[trigger] f(j) == g(j),
    ensures
        qe_eval(e, f) == qe_eval(e, g),
    decreases e,
{
    match e {
        QueryExpression::And { left, right } => {
            let n = qe_leaves(*left).len();
            lemma_qe_eval_congruent(*left, f, g);
            lemma_qe_eval_congruent(*right, later_leaves(f, n as int), later_leaves(g, n as int));
        },
        QueryExpression::Or { left, right } => {
            let n = qe_leaves(*left).len();
            lemma_qe_eval_congruent(*left, f, g);
            lemma_qe_eval_congruent(*right, later_leaves(f, n as int), later_leaves(g, n as int));
        },
        QueryExpression::Not { expression } => {
            lemma_qe_eval_congruent(*expression, f, g);
        },
        _ => {},
    }
}

/// Every atom of `e` is below `n`.
pub open spec fn atoms_below(e: Expr, n: int) -> bool
    decreases e, 0nat,
{
    match e {
        Expr::Atom(i) => i < n,
        Expr::Not(inner) => atoms_below(*inner, n),
        Expr::And(items) => atoms_below_all(items@, n),
        Expr::Or(items) => atoms_below_all(items@, n),
    }
}

/// Every atom of every expression of `s` is below `n`.
pub open spec fn atoms_below_all(s: Seq<Expr>, n: int) -> bool
    decreases s, 1nat,
{
    if s.len() == 0 {
        true
    } else {
        atoms_below(s[0], n) && atoms_below_all(s.drop_first(), n)
    }
}

/// `atoms_below_all` holds of a list exactly when it holds of each element.
proof fn lemma_atoms_below_all(s: Seq<Expr>, n: int)
    ensures
        atoms_below_all(s, n) <==> (forall|j: int| 0 <= j < s.len() ==> atoms_below(#[trigger] s[j], n)),
    decreases s.len(),
{
    if s.len() > 0 {
        lemma_atoms_below_all(s.drop_first(), n);
        assert forall|j: int| 0 < j < s.len() implies #[trigger] s[j] == s.drop_first()[j - 1] by {}
    }
}

/// `b` is `a` with every atom index raised by `k`.
pub open spec fn shifted(a: Expr, b: Expr, k: int) -> bool
    decreases a, 0nat,
{
    match (a, b) {
        (Expr::Atom(i), Expr::Atom(j)) => j == i + k,
        (Expr::Not(x), Expr::Not(y)) => shifted(*x, *y, k),
        (Expr::And(v), Expr::And(w)) => shifted_all(v@, w@, k),
        (Expr::Or(v), Expr::Or(w)) => shifted_all(v@, w@, k),
        _ => false,
    }
}

/// `t` is `s` with every atom index raised by `k`, element by element.
pub open spec fn shifted_all(s: Seq<Expr>, t: Seq<Expr>, k: int) -> bool
    decreases s, 1nat,
{
    if s.len() == 0 {
        t.len() == 0
    } else {
        t.len() == s.len() && shifted(s[0], t[0], k) && shifted_all(s.drop_first(), t.drop_first(), k)
    }
}

/// `shifted_all` holds of two lists exactly when they pair up element by element.
proof fn lemma_shifted_all(s: Seq<Expr>, t: Seq<Expr>, k: int)
    ensures
        shifted_all(s, t, k) <==> (t.len() == s.len() && forall|j: int| 0 <= j < s.len() ==> shifted(#[trigger] s[j], t[j], k)),
    decreases s.len(),
{
    if s.len() > 0 && t.len() == s.len() {
        lemma_shifted_all(s.drop_first(), t.drop_first(), k);
        assert forall|j: int| 0 < j < s.len() implies #[trigger] s[j] == s.drop_first()[j - 1] && t[j] == t.drop_first()[j - 1] by {}
    }
}

/// Shifting by zero relates a tree to itself: `adjust_atom_indices(e, 0)`
/// has the tree of `e` with every atom where it was.
pub proof fn lemma_shift_zero(a: Expr)
    ensures
        shifted(a, a, 0),
    decreases a,
{
    match a {
        Expr::Not(x) => lemma_shift_zero(*x),
        Expr::And(v) => {
            assert forall|j: int| 0 <= j < v@.len() implies shifted(#[trigger] v@[j], v@[j], 0) by {
                lemma_shift_zero(v@[j]);
            }
            lemma_shifted_all(v@, v@, 0);
        },
        Expr::Or(v) => {
            assert forall|j: int| 0 <= j < v@.len() implies shifted(#[trigger] v@[j], v@[j], 0) by {
                lemma_shift_zero(v@[j]);
            }
            lemma_shifted_all(v@, v@, 0);
        },
        Expr::Atom(_) => {},
    }
}

/// Two shifts compose: shifting by `k1` and then by `k2` is shifting by
/// `k1 + k2`.
pub proof fn lemma_shift_compose(a: Expr, b: Expr, c: Expr, k1: int, k2: int)
    requires
        shifted(a, b, k1),
        shifted(b, c, k2),
    ensures
        shifted(a, c, k1 + k2),
    decreases a,
{
    match (a, b, c) {
        (Expr::Not(x), Expr::Not(y), Expr::Not(z)) => lemma_shift_compose(*x, *y, *z, k1, k2),
        (Expr::And(u), Expr::And(v), Expr::And(w)) => {
            lemma_shifted_all(u@, v@, k1);
            lemma_shifted_all(v@, w@, k2);
            assert forall|j: int| 0 <= j < u@.len() implies shifted(#[trigger] u@[j], w@[j], k1 + k2) by {
                lemma_shift_compose(u@[j], v@[j], w@[j], k1, k2);
            }
            lemma_shifted_all(u@, w@, k1 + k2);
        },
        (Expr::Or(u), Expr::Or(v), Expr::Or(w)) => {
            lemma_shifted_all(u@, v@, k1);
            lemma_shifted_all(v@, w@, k2);
            assert forall|j: int| 0 <= j < u@.len() implies shifted(#[trigger] u@[j], w@[j], k1 + k2) by {
                lemma_shift_compose(u@[j], v@[j], w@[j], k1, k2);
            }
            lemma_shifted_all(u@, w@, k1 + k2);
        },
        _ => {},
    }
}

/// Atom values read `k` atoms further on.
pub open spec fn shifted_val(val: spec_fn(usize) -> bool, k: int) -> spec_fn(usize) -> bool {
    |i: usize| val((i + k) as usize)
}

/// Raising every atom by `k` is the same as reading each atom `k` further on.
pub proof fn lemma_shift_eval(a: Expr, b: Expr, k: int, n: int, val: spec_fn(usize) -> bool)
    requires
        shifted(a, b, k),
        atoms_below(a, n),
        0 <= k,
        n + k <= usize::MAX + 1,
    ensures
        eval_spec(b, val) == eval_spec(a, shifted_val(val, k)),
        atoms_below(b, n + k),
    decreases a, 0nat,
{
    let g = shifted_val(val, k);
    match (a, b) {
        (Expr::Atom(i), Expr::Atom(j)) => {},
        (Expr::Not(x), Expr::Not(y)) => {
            lemma_shift_eval(*x, *y, k, n, val);
        },
        (Expr::And(v), Expr::And(w)) => {
            lemma_shift_eval_all(v@, w@, k, n, val);
            lemma_all_spec(v@, g);
            lemma_all_spec(w@, val);
            assert(eval_spec(b, val) == all_spec(w@, val));
            assert(eval_spec(a, g) == all_spec(v@, g));
            if all_spec(w@, val) {
                assert forall|j: int| 0 <= j < v@.len() implies eval_spec(#[trigger] v@[j], g) by {
                    assert(eval_spec(w@[j], val));
                }
            }
            if all_spec(v@, g) {
                assert forall|j: int| 0 <= j < w@.len() implies eval_spec(#[trigger] w@[j], val) by {
                    assert(eval_spec(v@[j], g));
                }
            }
        },
        (Expr::Or(v), Expr::Or(w)) => {
            lemma_shift_eval_all(v@, w@, k, n, val);
            lemma_any_spec(v@, g);
            lemma_any_spec(w@, val);
            assert(eval_spec(b, val) == any_spec(w@, val));
            assert(eval_spec(a, g) == any_spec(v@, g));
            if any_spec(w@, val) {
                let j = choose|j: int| 0 <= j < w@.len() && eval_spec(#[trigger] w@[j], val);
                assert(eval_spec(v@[j], g));
            }
            if any_spec(v@, g) {
                let j = choose|j: int| 0 <= j < v@.len() && eval_spec(#[trigger] v@[j], g);
                assert(eval_spec(w@[j], val));
            }
        },
        _ => {},
    }
}

/// `lemma_shift_eval` for each element of two lists.
proof fn lemma_shift_eval_all(s: Seq<Expr>, t: Seq<Expr>, k: int, n: int, val: spec_fn(usize) -> bool)
    requires
        shifted_all(s, t, k),
        atoms_below_all(s, n),
        0 <= k,
        n + k <= usize::MAX + 1,
    ensures
        t.len() == s.len(),
        forall|j: int| 0 <= j < s.len() ==> eval_spec(#[trigger] t[j], val) == eval_spec(s[j], shifted_val(val, k)),
        atoms_below_all(t, n + k),
    decreases s, 1nat,
{
    lemma_shifted_all(s, t, k);
    lemma_atoms_below_all(s, n);
    lemma_atoms_below_all(t, n + k);
    assert forall|j: int| 0 <= j < s.len() implies eval_spec(#[trigger] t[j], val) == eval_spec(s[j], shifted_val(val, k))
        && atoms_below(t[j], n + k) by {
        lemma_shift_eval(s[j], t[j], k, n, val);
    }
}

/// Every atom below `a` is below `b` when `a <= b`.
proof fn lemma_atoms_below_mono(e: Expr, a: int, b: int)
    requires
        atoms_below(e, a),
        a <= b,
    ensures
        atoms_below(e, b),
    decreases e, 0nat,
{
    match e {
        Expr::Not(inner) => lemma_atoms_below_mono(*inner, a, b),
        Expr::And(items) => lemma_atoms_below_mono_all(items@, a, b),
        Expr::Or(items) => lemma_atoms_below_mono_all(items@, a, b),
        _ => {},
    }
}

/// `lemma_atoms_below_mono` for each element of a list.
proof fn lemma_atoms_below_mono_all(s: Seq<Expr>, a: int, b: int)
    requires
        atoms_below_all(s, a),
        a <= b,
    ensures
        atoms_below_all(s, b),
    decreases s, 1nat,
{
    lemma_atoms_below_all(s, a);
    lemma_atoms_below_all(s, b);
    assert forall|j: int| 0 <= j < s.len() implies atoms_below(#[trigger] s[j], b) by {
        lemma_atoms_below_mono(s[j], a, b);
    }
}

/// Term `t` is the one that the leaf `leaf` becomes: a case-sensitive
/// keyword a phrase, any other keyword a literal, a regex the standard
/// engine's where it accepts the pattern and the backtracking engine's
/// otherwise.
pub open spec fn leaf_term(t: Term, leaf: QueryExpression) -> bool {
    match leaf {
        QueryExpression::Literal { value, case_sensitive } => if case_sensitive {
            t matches Term::Phrase(s) && s@ == value@
        } else {
            t matches Term::Literal(s) && s@ == value@
        },
        QueryExpression::Regex { pattern, .. } => if std_regex_compiles(pattern@) {
            t matches Term::RegexStd { pattern: p, re } && p@ == pattern@ && re@ == pattern@
        } else {
            t matches Term::RegexFancy { pattern: p, re } && p@ == pattern@ && re@ == pattern@
        },
        _ => false,
    }
}

/// Some engine accepts every regex leaf of `e`.
pub open spec fn regexes_compile(e: QueryExpression) -> bool {
    forall|j: int| 0 <= j < qe_leaves(e).len() ==> (#[trigger] qe_leaves(e)[j] matches QueryExpression::Regex { pattern, .. }
        ==> (std_regex_compiles(pattern@) || fancy_regex_compiles(pattern@)))
}

/// Leaf values read from atom values: leaf `j` is atom `j`.
pub open spec fn leaf_val(val: spec_fn(usize) -> bool) -> spec_fn(int) -> bool {
    |j: int| val(j as usize)
}

/// The terms and expression that `e` becomes: one term per leaf, in leaf
/// order, and an expression over them with the value of `e`.
pub open spec fn parts_of(e: QueryExpression, terms: Seq<Term>, expr: Option<Expr>) -> bool {
    &&& terms.len() == qe_leaves(e).len()
    &&& forall|j: int| 0 <= j < terms.len() ==> leaf_term(#[trigger] terms[j], qe_leaves(e)[j])
    &&& expr matches Some(x)
    &&& atoms_below(x, terms.len() as int)
    &&& forall|val: spec_fn(usize) -> bool| #[trigger] eval_spec(x, val) == qe_eval(e, leaf_val(val))
}

/// `x` is the tree that `e` is converted into, with the atoms numbered
/// from `base`: a leaf becomes `Atom(base)`, a negation wraps its inner
/// tree, and a conjunction (disjunction) becomes an `And` (`Or`) whose
/// items are those of `and_items` (`or_items`).
pub open spec fn qe_shape(e: QueryExpression, x: Expr, base: int) -> bool
    decreases e, 1nat,
{
    match e {
        QueryExpression::And { .. } => x matches Expr::And(items) && and_items(e, items@, base),
        QueryExpression::Or { .. } => x matches Expr::Or(items) && or_items(e, items@, base),
        QueryExpression::Not { expression } => x matches Expr::Not(y) && qe_shape(*expression, *y, base),
        _ => x matches Expr::Atom(i) && i == base,
    }
}

/// The items of the `And` that the conjunction `e` becomes: the items of
/// its left side where that side is itself a conjunction (else the left
/// side's tree alone), then the right side's tree with its atoms numbered
/// after the left side's leaves.
pub open spec fn and_items(e: QueryExpression, s: Seq<Expr>, base: int) -> bool
    decreases e, 0nat,
{
    match e {
        QueryExpression::And { left, right } => {
            &&& s.len() >= 1
            &&& qe_shape(*right, s.last(), base + qe_leaves(*left).len())
            &&& if (*left) is And {
                and_items(*left, s.drop_last(), base)
            } else {
                s.len() == 2 && qe_shape(*left, s[0], base)
            }
        },
        _ => false,
    }
}

/// The items of the `Or` that the disjunction `e` becomes, as `and_items`
/// does for conjunctions.
pub open spec fn or_items(e: QueryExpression, s: Seq<Expr>, base: int) -> bool
    decreases e, 0nat,
{
    match e {
        QueryExpression::Or { left, right } => {
            &&& s.len() >= 1
            &&& qe_shape(*right, s.last(), base + qe_leaves(*left).len())
            &&& if (*left) is Or {
                or_items(*left, s.drop_last(), base)
            } else {
                s.len() == 2 && qe_shape(*left, s[0], base)
            }
        },
        _ => false,
    }
}

/// Raising every atom of a converted tree by `k` gives the tree converted
/// with its atoms numbered `k` further on.
pub proof fn lemma_shape_shift(e: QueryExpression, x: Expr, y: Expr, base: int, k: int)
    requires
        qe_shape(e, x, base),
        shifted(x, y, k),
    ensures
        qe_shape(e, y, base + k),
    decreases e, 1nat,
{
    match e {
        QueryExpression::And { .. } => {
            if let (Expr::And(v), Expr::And(w)) = (x, y) {
                lemma_shifted_all(v@, w@, k);
                lemma_items_shift(e, v@, w@, base, k);
            }
        },
        QueryExpression::Or { .. } => {
            if let (Expr::Or(v), Expr::Or(w)) = (x, y) {
                lemma_shifted_all(v@, w@, k);
                lemma_items_shift(e, v@, w@, base, k);
            }
        },
        QueryExpression::Not { expression } => {
            if let (Expr::Not(a), Expr::Not(b)) = (x, y) {
                lemma_shape_shift(*expression, *a, *b, base, k);
            }
        },
        _ => {},
    }
}

/// `lemma_shape_shift` for the item lists of conjunctions and disjunctions.
proof fn lemma_items_shift(e: QueryExpression, s: Seq<Expr>, t: Seq<Expr>, base: int, k: int)
    requires
        and_items(e, s, base) || or_items(e, s, base),
        t.len() == s.len(),
        forall|j: int| 0 <= j < s.len() ==> shifted(#[trigger] s[j], t[j], k),
    ensures
        and_items(e, s, base) ==> and_items(e, t, base + k),
        or_items(e, s, base) ==> or_items(e, t, base + k),
    decreases e, 0nat,
{
    match e {
        QueryExpression::And { left, right } => {
            let n = qe_leaves(*left).len();
            assert(shifted(s[s.len() - 1], t[t.len() - 1], k));
            lemma_shape_shift(*right, s.last(), t.last(), base + n, k);
            if (*left) is And {
                assert forall|j: int| 0 <= j < s.drop_last().len() implies shifted(#[trigger] s.drop_last()[j], t.drop_last()[j], k) by {
                    assert(s.drop_last()[j] == s[j]);
                    assert(t.drop_last()[j] == t[j]);
                }
                lemma_items_shift(*left, s.drop_last(), t.drop_last(), base, k);
            } else {
                assert(shifted(s[0], t[0], k));
                lemma_shape_shift(*left, s[0], t[0], base, k);
            }
        },
        QueryExpression::Or { left, right } => {
            let n = qe_leaves(*left).len();
            assert(shifted(s[s.len() - 1], t[t.len() - 1], k));
            lemma_shape_shift(*right, s.last(), t.last(), base + n, k);
            if (*left) is Or {
                assert forall|j: int| 0 <= j < s.drop_last().len() implies shifted(#[trigger] s.drop_last()[j], t.drop_last()[j], k) by {
                    assert(s.drop_last()[j] == s[j]);
                    assert(t.drop_last()[j] == t[j]);
                }
                lemma_items_shift(*left, s.drop_last(), t.drop_last(), base, k);
            } else {
                assert(shifted(s[0], t[0], k));
                lemma_shape_shift(*left, s[0], t[0], base, k);
            }
        },
        _ => {},
    }
}

/// The query converter between `Query` and `ParsedQuery`.
pub struct QueryConverter;

impl QueryConverter {
    /// `expr` with every atom index raised by `offset`.
    pub fn adjust_atom_indices(expr: Expr, offset: usize) -> (r: Expr)
        requires
            atoms_below(expr, usize::MAX + 1 - offset),
        ensures
            shifted(expr, r, offset as int),
        decreases expr_size(expr),
    {
        let ghost bound: int = usize::MAX + 1 - offset;
        match expr {
            Expr::Atom(i) => Expr::Atom(i + offset),
            Expr::Not(inner) => Expr::Not(Box::new(Self::adjust_atom_indices(*inner, offset))),
            Expr::And(items) => {
                let ghost orig = items@;
                let ghost n = orig.len();
                proof {
                    lemma_atoms_below_all(orig, bound);
                }
                let mut items = items;
                let mut out: Vec<Expr> = Vec::new();
                while items.len() > 0
                    invariant
                        bound == usize::MAX + 1 - offset,
                        n == orig.len(),
                        expr_size(expr) == 1 + exprs_size(orig),
                        out@.len() <= n,
                        items@ == orig.subrange(out@.len() as int, n as int),
                        forall|j: int| 0 <= j < n ==> atoms_below(#[trigger] orig[j], bound),
                        forall|j: int| 0 <= j < out@.len() ==> shifted(#[trigger] orig[j], out@[j], offset as int),
                    decreases items@.len(),
                {
                    let ghost k = out@.len() as int;
                    let it = items.remove(0);
                    proof {
                        assert(it == orig[k]);
                        lemma_exprs_size(orig, k);
                    }
                    let adjusted = Self::adjust_atom_indices(it, offset);
                    out.push(adjusted);
                }
                proof {
                    lemma_shifted_all(orig, out@, offset as int);
                }
                Expr::And(out)
            },
            Expr::Or(items) => {
                let ghost orig = items@;
                let ghost n = orig.len();
                proof {
                    lemma_atoms_below_all(orig, bound);
                }
                let mut items = items;
                let mut out: Vec<Expr> = Vec::new();
                while items.len() > 0
                    invariant
                        bound == usize::MAX + 1 - offset,
                        n == orig.len(),
                        expr_size(expr) == 1 + exprs_size(orig),
                        out@.len() <= n,
                        items@ == orig.subrange(out@.len() as int, n as int),
                        forall|j: int| 0 <= j < n ==> atoms_below(#[trigger] orig[j], bound),
                        forall|j: int| 0 <= j < out@.len() ==> shifted(#[trigger] orig[j], out@[j], offset as int),
                    decreases items@.len(),
                {
                    let ghost k = out@.len() as int;
                    let it = items.remove(0);
                    proof {
                        assert(it == orig[k]);
                        lemma_exprs_size(orig, k);
                    }
                    let adjusted = Self::adjust_atom_indices(it, offset);
                    out.push(adjusted);
                }
                proof {
                    lemma_shifted_all(orig, out@, offset as int);
                }
                Expr::Or(out)
            },
        }
    }

    /// The terms and expression of a domain expression.
    pub fn query_expression_to_parts(expr: &QueryExpression) -> (r: (Vec<Term>, Option<Expr>))
        requires
            regexes_compile(*expr),
            qe_leaves(*expr).len() <= usize::MAX,
        ensures
            parts_of(*expr, r.0@, r.1),
            r.1 matches Some(x) && qe_shape(*expr, x, 0),
        decreases expr,
    {
        match expr {
            QueryExpression::Literal { value, case_sensitive } => {
                let term = if *case_sensitive {
                    Term::Phrase(value.clone())
                } else {
                    Term::Literal(value.clone())
                };
                let mut terms: Vec<Term> = Vec::new();
                terms.push(term);
                assert forall|val: spec_fn(usize) -> bool| #[trigger] eval_spec(Expr::Atom(0), val) == qe_eval(*expr, leaf_val(val)) by {}
                (terms, Some(Expr::Atom(0)))
            },
            QueryExpression::Regex { pattern, .. } => {
                assert(qe_leaves(*expr)[0] == *expr);
                let term = match StdRegex::compile(pattern.as_str()) {
                    Some(re) => Term::RegexStd { pattern: pattern.clone(), re },
                    None => {
                        let fancy = FancyRegex::compile(pattern.as_str());
                        match fancy {
                            Some(re) => Term::RegexFancy { pattern: pattern.clone(), re },
                            None => {
                                assert(false);
                                Term::Literal(pattern.clone())
                            },
                        }
                    },
                };
                let mut terms: Vec<Term> = Vec::new();
                terms.push(term);
                assert forall|val: spec_fn(usize) -> bool| #[trigger] eval_spec(Expr::Atom(0), val) == qe_eval(*expr, leaf_val(val)) by {}
                (terms, Some(Expr::Atom(0)))
            },
            QueryExpression::And { left, right } => {
                proof {
                    Self::lemma_split_leaves(*expr, **left, **right);
                }
                let (mut terms, le) = Self::query_expression_to_parts(left);
                let (mut rt, re) = Self::query_expression_to_parts(right);
                let offset = terms.len();
                let ghost lt = terms@;
                let ghost rts = rt@;
                terms.append(&mut rt);
                let expr_out = match (le, re) {
                    (Some(le), Some(re)) => {
                        let ghost lx = le;
                        let ghost rx = re;
                        let mut items: Vec<Expr> = Vec::new();
                        match le {
                            Expr::And(v) => {
                                items = v;
                            },
                            other => {
                                items.push(other);
                            },
                        }
                        proof {
                            lemma_atoms_below_mono(rx, rts.len() as int, usize::MAX + 1 - offset);
                        }
                        let adjusted = Self::adjust_atom_indices(re, offset);
                        let ghost head = items@;
                        items.push(adjusted);
                        proof {
                            Self::lemma_and_parts(*expr, **left, **right, lx, rx, adjusted, head, items@, lt, rts);
                            lemma_shape_shift(**right, rx, adjusted, 0, offset as int);
                            assert(items@.last() == adjusted);
                            assert(items@.drop_last() =~= head);
                            if (**left) is And {
                                assert(lx is And);
                            } else {
                                assert(!(lx is And));
                                assert(items@[0] == lx);
                            }
                            assert(and_items(*expr, items@, 0));
                        }
                        assert forall|val: spec_fn(usize) -> bool| #[trigger] eval_spec(Expr::And(items), val) == qe_eval(*expr, leaf_val(val)) by {
                            assert(eval_spec(Expr::And(items), val) == all_spec(items@, val));
                        }
                        Some(Expr::And(items))
                    },
                    _ => None,
                };
                (terms, expr_out)
            },
            QueryExpression::Or { left, right } => {
                proof {
                    Self::lemma_split_leaves(*expr, **left, **right);
                }
                let (mut terms, le) = Self::query_expression_to_parts(left);
                let (mut rt, re) = Self::query_expression_to_parts(right);
                let offset = terms.len();
                let ghost lt = terms@;
                let ghost rts = rt@;
                terms.append(&mut rt);
                let expr_out = match (le, re) {
                    (Some(le), Some(re)) => {
                        let ghost lx = le;
                        let ghost rx = re;
                        let mut items: Vec<Expr> = Vec::new();
                        match le {
                            Expr::Or(v) => {
                                items = v;
                            },
                            other => {
                                items.push(other);
                            },
                        }
                        proof {
                            lemma_atoms_below_mono(rx, rts.len() as int, usize::MAX + 1 - offset);
                        }
                        let adjusted = Self::adjust_atom_indices(re, offset);
                        let ghost head = items@;
                        items.push(adjusted);
                        proof {
                            Self::lemma_or_parts(*expr, **left, **right, lx, rx, adjusted, head, items@, lt, rts);
                            lemma_shape_shift(**right, rx, adjusted, 0, offset as int);
                            assert(items@.last() == adjusted);
                            assert(items@.drop_last() =~= head);
                            if (**left) is Or {
                                assert(lx is Or);
                            } else {
                                assert(!(lx is Or));
                                assert(items@[0] == lx);
                            }
                            assert(or_items(*expr, items@, 0));
                        }
                        assert forall|val: spec_fn(usize) -> bool| #[trigger] eval_spec(Expr::Or(items), val) == qe_eval(*expr, leaf_val(val)) by {
                            assert(eval_spec(Expr::Or(items), val) == any_spec(items@, val));
                        }
                        Some(Expr::Or(items))
                    },
                    _ => None,
                };
                (terms, expr_out)
            },
            QueryExpression::Not { expression } => {
                proof {
                    assert forall|j: int| 0 <= j < qe_leaves(**expression).len() implies
                        (#[trigger] qe_leaves(**expression)[j] matches QueryExpression::Regex { pattern, .. }
                        ==> (std_regex_compiles(pattern@) || fancy_regex_compiles(pattern@))) by {
                        assert(qe_leaves(**expression)[j] == qe_leaves(*expr)[j]);
                    }
                }
                let (terms, inner) = Self::query_expression_to_parts(expression);
                let out = match inner {
                    Some(e) => {
                        assert forall|val: spec_fn(usize) -> bool| #[trigger] eval_spec(Expr::Not(Box::new(e)), val) == qe_eval(*expr, leaf_val(val)) by {
                            assert(eval_spec(Expr::Not(Box::new(e)), val) == !eval_spec(e, val));
                        }
                        Some(Expr::Not(Box::new(e)))
                    },
                    None => None,
                };
                (terms, out)
            },
        }
    }

    /// The leaves of a binary node split into those of its two sides.
    proof fn lemma_split_leaves(e: QueryExpression, left: QueryExpression, right: QueryExpression)
        requires
            e == (QueryExpression::And { left: Box::new(left), right: Box::new(right) })
                || e == (QueryExpression::Or { left: Box::new(left), right: Box::new(right) }),
            regexes_compile(e),
            qe_leaves(e).len() <= usize::MAX,
        ensures
            regexes_compile(left),
            regexes_compile(right),
            qe_leaves(left).len() + qe_leaves(right).len() <= usize::MAX,
    {
        let ll = qe_leaves(left);
        let rl = qe_leaves(right);
        assert(qe_leaves(e) == ll + rl);
        assert forall|j: int| 0 <= j < ll.len() implies
            (#[trigger] ll[j] matches QueryExpression::Regex { pattern, .. }
            ==> (std_regex_compiles(pattern@) || fancy_regex_compiles(pattern@))) by {
            assert(qe_leaves(e)[j] == ll[j]);
        }
        assert forall|j: int| 0 <= j < rl.len() implies
            (#[trigger] rl[j] matches QueryExpression::Regex { pattern, .. }
            ==> (std_regex_compiles(pattern@) || fancy_regex_compiles(pattern@))) by {
            assert(qe_leaves(e)[j + ll.len()] == rl[j]);
        }
    }

    /// The parts of a conjunction: the terms of both sides, and the left
    /// side's conjuncts followed by the shifted right side.
    proof fn lemma_and_parts(
        e: QueryExpression,
        left: QueryExpression,
        right: QueryExpression,
        lx: Expr,
        rx: Expr,
        adjusted: Expr,
        head: Seq<Expr>,
        items: Seq<Expr>,
        lt: Seq<Term>,
        rts: Seq<Term>,
    )
        requires
            e == (QueryExpression::And { left: Box::new(left), right: Box::new(right) }),
            parts_of(left, lt, Some(lx)),
            parts_of(right, rts, Some(rx)),
            shifted(rx, adjusted, lt.len() as int),
            lx matches Expr::And(v) ==> head == v@,
            !(lx is And) ==> head == seq![lx],
            items == head.push(adjusted),
            lt.len() + rts.len() <= usize::MAX,
        ensures
            (lt + rts).len() == qe_leaves(e).len(),
            forall|j: int| 0 <= j < (lt + rts).len() ==> leaf_term(#[trigger] (lt + rts)[j], qe_leaves(e)[j]),
            atoms_below_all(items, (lt + rts).len() as int),
            forall|val: spec_fn(usize) -> bool| #[trigger] all_spec(items, val) == qe_eval(e, leaf_val(val)),
    {
        let nl = lt.len() as int;
        let total = (lt + rts).len() as int;
        Self::lemma_join_terms(e, left, right, lt, rts);
        lemma_shift_eval(rx, adjusted, nl, rts.len() as int, |i: usize| true);
        lemma_atoms_below_all(items, total);
        assert forall|k: int| 0 <= k < items.len() implies atoms_below(#[trigger] items[k], total) by {
            if k == items.len() - 1 {
                assert(items[k] == adjusted);
            } else {
                assert(items[k] == head[k]);
                match lx {
                    Expr::And(v) => {
                        lemma_atoms_below_all(v@, nl);
                        assert(head[k] == v@[k]);
                        lemma_atoms_below_mono(v@[k], nl, total);
                    },
                    _ => {
                        lemma_atoms_below_mono(lx, nl, total);
                    },
                }
            }
        }
        assert forall|val: spec_fn(usize) -> bool| #[trigger] all_spec(items, val) == qe_eval(e, leaf_val(val)) by {
            lemma_shift_eval(rx, adjusted, nl, rts.len() as int, val);
            let lv = leaf_val(val);
            assert(eval_spec(adjusted, val) == eval_spec(rx, shifted_val(val, nl)));
            assert(eval_spec(rx, shifted_val(val, nl)) == qe_eval(right, leaf_val(shifted_val(val, nl))));
            assert forall|j: int| 0 <= j < qe_leaves(right).len() implies #[trigger] leaf_val(shifted_val(val, nl))(j) == later_leaves(lv, nl)(j) by {
                assert(j as usize == j);
            }
            lemma_qe_eval_congruent(right, leaf_val(shifted_val(val, nl)), later_leaves(lv, nl));
            assert(eval_spec(adjusted, val) == qe_eval(right, later_leaves(lv, nl)));
            assert(eval_spec(lx, val) == qe_eval(left, lv));
            assert(qe_eval(e, lv) == (qe_eval(left, lv) && qe_eval(right, later_leaves(lv, nl))));
            assert(qe_eval(e, lv) == (eval_spec(lx, val) && eval_spec(adjusted, val)));
            lemma_all_spec(items, val);
            lemma_all_spec(head, val);
            assert forall|k: int| 0 <= k < head.len() implies #[trigger] items[k] == head[k] by {}
            assert(items[head.len() as int] == adjusted);
            match lx {
                Expr::And(v) => {
                    assert(eval_spec(lx, val) == all_spec(v@, val));
                },
                _ => {
                    assert(head[0] == lx);
                },
            }
            assert(eval_spec(lx, val) == all_spec(head, val));
            if all_spec(items, val) {
                assert forall|k: int| 0 <= k < head.len() implies eval_spec(#[trigger] head[k], val) by {
                    assert(items[k] == head[k]);
                    assert(eval_spec(items[k], val));
                }
                assert(eval_spec(items[head.len() as int], val));
            }
            if all_spec(head, val) && eval_spec(adjusted, val) {
                assert forall|k: int| 0 <= k < items.len() implies eval_spec(#[trigger] items[k], val) by {
                    if k < head.len() {
                        assert(items[k] == head[k]);
                        assert(eval_spec(head[k], val));
                    }
                }
            }
        }
    }

    /// The parts of a disjunction: the terms of both sides, and the left
    /// side's disjuncts followed by the shifted right side.
    proof fn lemma_or_parts(
        e: QueryExpression,
        left: QueryExpression,
        right: QueryExpression,
        lx: Expr,
        rx: Expr,
        adjusted: Expr,
        head: Seq<Expr>,
        items: Seq<Expr>,
        lt: Seq<Term>,
        rts: Seq<Term>,
    )
        requires
            e == (QueryExpression::Or { left: Box::new(left), right: Box::new(right) }),
            parts_of(left, lt, Some(lx)),
            parts_of(right, rts, Some(rx)),
            shifted(rx, adjusted, lt.len() as int),
            lx matches Expr::Or(v) ==> head == v@,
            !(lx is Or) ==> head == seq![lx],
            items == head.push(adjusted),
            lt.len() + rts.len() <= usize::MAX,
        ensures
            (lt + rts).len() == qe_leaves(e).len(),
            forall|j: int| 0 <= j < (lt + rts).len() ==> leaf_term(#[trigger] (lt + rts)[j], qe_leaves(e)[j]),
            atoms_below_all(items, (lt + rts).len() as int),
            forall|val: spec_fn(usize) -> bool| #[trigger] any_spec(items, val) == qe_eval(e, leaf_val(val)),
    {
        let nl = lt.len() as int;
        let total = (lt + rts).len() as int;
        Self::lemma_join_terms(e, left, right, lt, rts);
        lemma_shift_eval(rx, adjusted, nl, rts.len() as int, |i: usize| true);
        lemma_atoms_below_all(items, total);
        assert forall|k: int| 0 <= k < items.len() implies atoms_below(#[trigger] items[k], total) by {
            if k == items.len() - 1 {
                assert(items[k] == adjusted);
            } else {
                assert(items[k] == head[k]);
                match lx {
                    Expr::Or(v) => {
                        lemma_atoms_below_all(v@, nl);
                        assert(head[k] == v@[k]);
                        lemma_atoms_below_mono(v@[k], nl, total);
                    },
                    _ => {
                        lemma_atoms_below_mono(lx, nl, total);
                    },
                }
            }
        }
        assert forall|val: spec_fn(usize) -> bool| #[trigger] any_spec(items, val) == qe_eval(e, leaf_val(val)) by {
            lemma_shift_eval(rx, adjusted, nl, rts.len() as int, val);
            let lv = leaf_val(val);
            lemma_qe_eval_congruent(right, leaf_val(shifted_val(val, nl)), later_leaves(lv, nl));
            assert(eval_spec(adjusted, val) == qe_eval(right, later_leaves(lv, nl)));
            assert(qe_eval(e, lv) == (eval_spec(lx, val) || eval_spec(adjusted, val)));
            lemma_any_spec(items, val);
            lemma_any_spec(head, val);
            assert forall|k: int| 0 <= k < head.len() implies #[trigger] items[k] == head[k] by {}
            assert(items[head.len() as int] == adjusted);
            match lx {
                Expr::Or(v) => {
                    assert(eval_spec(lx, val) == any_spec(v@, val));
                    if any_spec(items, val) {
                        let k = choose|k: int| 0 <= k < items.len() && eval_spec(#[trigger] items[k], val);
                        if k < head.len() {
                            assert(eval_spec(head[k], val));
                        }
                    }
                    if any_spec(head, val) {
                        let k = choose|k: int| 0 <= k < head.len() && eval_spec(#[trigger] head[k], val);
                        assert(eval_spec(items[k], val));
                    }
                },
                _ => {
                    assert(head[0] == lx);
                    if any_spec(items, val) {
                        let k = choose|k: int| 0 <= k < items.len() && eval_spec(#[trigger] items[k], val);
                        if k < head.len() {
                            assert(items[k] == lx);
                        }
                    }
                    if eval_spec(lx, val) {
                        assert(eval_spec(items[0], val));
                    }
                },
            }
        }
    }

    /// The terms of a binary node are those of its left side followed by
    /// those of its right side.
    proof fn lemma_join_terms(e: QueryExpression, left: QueryExpression, right: QueryExpression, lt: Seq<Term>, rts: Seq<Term>)
        requires
            e == (QueryExpression::And { left: Box::new(left), right: Box::new(right) })
                || e == (QueryExpression::Or { left: Box::new(left), right: Box::new(right) }),
            lt.len() == qe_leaves(left).len(),
            forall|j: int| 0 <= j < lt.len() ==> leaf_term(#[trigger] lt[j], qe_leaves(left)[j]),
            rts.len() == qe_leaves(right).len(),
            forall|j: int| 0 <= j < rts.len() ==> leaf_term(#[trigger] rts[j], qe_leaves(right)[j]),
        ensures
            (lt + rts).len() == qe_leaves(e).len(),
            forall|j: int| 0 <= j < (lt + rts).len() ==> leaf_term(#[trigger] (lt + rts)[j], qe_leaves(e)[j]),
    {
        let ll = qe_leaves(left);
        let rl = qe_leaves(right);
        assert(qe_leaves(e) == ll + rl);
        assert forall|j: int| 0 <= j < (lt + rts).len() implies leaf_term(#[trigger] (lt + rts)[j], qe_leaves(e)[j]) by {
            if j < lt.len() {
                assert((lt + rts)[j] == lt[j]);
                assert(qe_leaves(e)[j] == ll[j]);
            } else {
                assert((lt + rts)[j] == rts[j - lt.len()]);
                assert(qe_leaves(e)[j] == rl[j - lt.len()]);
            }
        }
    }

    /// The domain expression of an expression over the term list. An atom
    /// carries no keyword text on its own, so it has none, and neither has
    /// any expression built from atoms: the result is always `None`.
    pub fn expr_to_query_expression(expr: &Expr) -> (r: Option<QueryExpression>)
        ensures
            r is None,
        decreases expr_size(*expr),
    {
        match expr {
            Expr::Atom(_idx) => None,
            Expr::And(items) | Expr::Or(items) => {
                let is_and = match expr {
                    Expr::And(_) => true,
                    _ => false,
                };
                let mut converted: Vec<QueryExpression> = Vec::new();
                let mut k: usize = 0;
                while k < items.len()
                    invariant
                        k <= items@.len(),
                        converted@.len() == 0,
                        expr_size(*expr) == 1 + exprs_size(items@),
                    decreases items@.len() - k,
                {
                    proof {
                        lemma_exprs_size(items@, k as int);
                    }
                    match Self::expr_to_query_expression(&items[k]) {
                        Some(c) => converted.push(c),
                        None => {},
                    }
                    k += 1;
                }
                let mut result: Option<QueryExpression> = None;
                while converted.len() > 0
                    invariant
                        converted@.len() == 0,
                        result is None,
                    decreases converted@.len(),
                {
                    let item = converted.remove(0);
                    result = match result {
                        None => Some(item),
                        Some(prev) => Some(if is_and {
                            QueryExpression::and(prev, item)
                        } else {
                            QueryExpression::or(prev, item)
                        }),
                    };
                }
                result
            },
            Expr::Not(inner) => {
                match Self::expr_to_query_expression(inner) {
                    Some(e) => Some(QueryExpression::not(e)),
                    None => None,
                }
            },
        }
    }

    /// The domain form of a query. The expression cannot be carried over
    /// (see `expr_to_query_expression`), so it is the empty keyword; the
    /// path rules are not carried over either.
    pub fn to_parsed_query(query: &Query) -> (r: ParsedQuery)
        ensures
            r.expression matches QueryExpression::Literal { value, case_sensitive }
                && value@.len() == 0 && !case_sensitive,
            r.path_filter.includes@.len() == 0,
            r.path_filter.excludes@.len() == 0,
            r.encoding_filter is None,
            r.raw_query@.len() == 0,
    {
        let converted = match &query.expr {
            Some(e) => Self::expr_to_query_expression(e),
            None => None,
        };
        let expression = match converted {
            Some(x) => x,
            None => QueryExpression::literal(String::new()),
        };
        ParsedQuery {
            expression,
            path_filter: DomainPathFilter::new(),
            encoding_filter: None,
            raw_query: String::new(),
        }
    }

    /// The query of a domain query: the terms and expression of its
    /// expression, no path filter, no highlight and no byte matcher.
    pub fn from_parsed_query(parsed: &ParsedQuery) -> (r: Query)
        requires
            regexes_compile(parsed.expression),
            qe_leaves(parsed.expression).len() <= usize::MAX,
        ensures
            parts_of(parsed.expression, r.terms@, r.expr),
            r.path_filter.include_set is None,
            r.path_filter.exclude is None,
            r.path_filter.include_contains@.len() == 0,
            r.path_filter.exclude_contains@.len() == 0,
            r.highlights@.len() == 0,
            r.byte_matchers@.len() == 0,
    {
        let (terms, expr) = Self::query_expression_to_parts(&parsed.expression);
        Query { terms, expr, path_filter: PathFilter::empty(), highlights: Vec::new(), byte_matchers: Vec::new() }
    }

    /// `from_parsed_query` where some engine accepts every regex leaf of the
    /// expression, `None` where one is refused by both (or where the leaves
    /// could not be counted in a `usize`).
    pub fn try_from_parsed_query(parsed: &ParsedQuery) -> (r: Option<Query>)
        ensures
            r is Some <==> (regexes_compile(parsed.expression) && qe_leaves(parsed.expression).len() <= usize::MAX),
            r matches Some(q) ==> parts_of(parsed.expression, q.terms@, q.expr)
                && q.highlights@.len() == 0 && q.byte_matchers@.len() == 0,
    {
        match Self::leaf_count_if_compiles(&parsed.expression) {
            Some(_) => Some(Self::from_parsed_query(parsed)),
            None => None,
        }
    }

    /// The number of leaves of `e` where some engine accepts each of its
    /// regex leaves, `None` where one is refused by both.
    fn leaf_count_if_compiles(e: &QueryExpression) -> (r: Option<usize>)
        ensures
            r is Some <==> (regexes_compile(*e) && qe_leaves(*e).len() <= usize::MAX),
            r matches Some(n) ==> n == qe_leaves(*e).len(),
        decreases e,
    {
        match e {
            QueryExpression::Literal { .. } => Some(1),
            QueryExpression::Regex { pattern, .. } => {
                assert(qe_leaves(*e)[0] == *e);
                if StdRegex::compile(pattern.as_str()).is_some() || FancyRegex::compile(pattern.as_str()).is_some() {
                    Some(1)
                } else {
                    None
                }
            },
            QueryExpression::Not { expression } => {
                let r = Self::leaf_count_if_compiles(expression);
                assert(qe_leaves(*e) == qe_leaves(**expression));
                r
            },
            QueryExpression::And { left, right } | QueryExpression::Or { left, right } => {
                let ghost ll = qe_leaves(**left);
                let ghost rl = qe_leaves(**right);
                assert(qe_leaves(*e) == ll + rl);
                proof {
                    Self::lemma_regexes_compile_split(*e, **left, **right);
                }
                match Self::leaf_count_if_compiles(left) {
                    Some(a) => match Self::leaf_count_if_compiles(right) {
                        Some(b) => if a <= usize::MAX - b {
                            Some(a + b)
                        } else {
                            // more leaves than memory can hold
                            None
                        },
                        None => None,
                    },
                    None => None,
                }
            },
        }
    }

    /// The regex leaves of a binary node compile exactly when those of both
    /// sides do.
    proof fn lemma_regexes_compile_split(e: QueryExpression, left: QueryExpression, right: QueryExpression)
        requires
            e == (QueryExpression::And { left: Box::new(left), right: Box::new(right) })
                || e == (QueryExpression::Or { left: Box::new(left), right: Box::new(right) }),
        ensures
            regexes_compile(e) <==> (regexes_compile(left) && regexes_compile(right)),
    {
        let ll = qe_leaves(left);
        let rl = qe_leaves(right);
        assert(qe_leaves(e) == ll + rl);
        if regexes_compile(e) {
            assert forall|j: int| 0 <= j < ll.len() implies
                (#[trigger] ll[j] matches QueryExpression::Regex { pattern, .. }
                ==> (std_regex_compiles(pattern@) || fancy_regex_compiles(pattern@))) by {
                assert(qe_leaves(e)[j] == ll[j]);
            }
            assert forall|j: int| 0 <= j < rl.len() implies
                (#[trigger] rl[j] matches QueryExpression::Regex { pattern, .. }
                ==> (std_regex_compiles(pattern@) || fancy_regex_compiles(pattern@))) by {
                assert(qe_leaves(e)[j + ll.len()] == rl[j]);
            }
        }
        if regexes_compile(left) && regexes_compile(right) {
            assert forall|j: int| 0 <= j < qe_leaves(e).len() implies
                (#[trigger] qe_leaves(e)[j] matches QueryExpression::Regex { pattern, .. }
                ==> (std_regex_compiles(pattern@) || fancy_regex_compiles(pattern@))) by {
                if j < ll.len() {
                    assert(qe_leaves(e)[j] == ll[j]);
                } else {
                    assert(qe_leaves(e)[j] == rl[j - ll.len()]);
                }
            }
        }
    }
}

} // verus!
