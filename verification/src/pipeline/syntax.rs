use std::fmt::Write;
use std::ops::Add;
use std::ops::AddAssign;
use std::ops::Mul;
use std::ops::MulAssign;
use std::ops::Not;

use vstd::prelude::*;
use vstd::std_specs::ops::AddSpecImpl;
use vstd::std_specs::ops::MulSpecImpl;
use vstd::std_specs::ops::NotSpecImpl;

use crate::evaluate::shared::DataType;
use crate::evaluate::shared::Expr;
use crate::evaluate::shared::ExprModel;
use crate::evaluate::shared::models_of;
use crate::evaluate::shared::Predicate;
use crate::evaluate::shared::PredicateModel;
use crate::evaluate::shared::VL;
use crate::pipeline::unify::push_char;
use crate::pipeline::vector::{datatypes, datatypes_debug, exprs, PersistentVec};

verus! {

/// A relation in the U-semiring formalism is a function that maps a tuple to a
/// U-semiring value. Here it is a lambda term: the data types bind every
/// component of the input tuple, each of which may occur in the body.
#[derive(Debug, Eq, PartialEq, Ord, PartialOrd, Hash)]
pub struct Relation(pub PersistentVec<DataType>, pub Box<UExpr>);

impl Relation {
    /// Applies this relation to the arguments.
    pub fn app(self, args: PersistentVec<Expr>) -> (u: UExpr)
        ensures
            u == UExpr::App(AppHead::Lam(self.0, self.1), args),
    {
        UExpr::app(self, args)
    }
}

/// The head of an application: a relation variable, a lambda, or a
/// higher-order operator applied to arguments and a relation.
#[derive(Debug, Eq, PartialEq, Ord, PartialOrd, Hash)]
pub enum AppHead {
    Var(VL),
    Lam(PersistentVec<DataType>, Box<UExpr>),
    HOp(String, Vec<Expr>, Box<Relation>),
}

/// An expression that evaluates to a U-semiring value.
/// This include all constants and operation defined over the U-semiring,
/// as well as the result of a predicate and application of a relation with some arguments.
#[derive(Debug, Eq, PartialEq, Ord, PartialOrd, Hash)]
pub enum UExpr {
    Zero,
    One,
    // Addition
    Add(Box<UExpr>, Box<UExpr>),
    // Multiplication
    Mul(Box<UExpr>, Box<UExpr>),
    // Squash operator
    Squash(Box<UExpr>),
    // Not operator
    Not(Box<UExpr>),
    // Summation that ranges over tuples of certain schema
    Sum(PersistentVec<DataType>, Box<UExpr>),
    // Predicate that can be evaluated to 0 or 1
    Pred(Predicate),
    // Application of a relation with arguments.
    App(AppHead, PersistentVec<Expr>),
}

/// The sum of two U-expressions, with zero dropped from either side.
pub open spec fn plus(a: UExpr, b: UExpr) -> UExpr {
    if a is Zero {
        b
    } else if b is Zero {
        a
    } else {
        UExpr::Add(Box::new(a), Box::new(b))
    }
}

/// The product of two U-expressions, with one dropped from either side.
pub open spec fn times(a: UExpr, b: UExpr) -> UExpr {
    if a is One {
        b
    } else if b is One {
        a
    } else {
        UExpr::Mul(Box::new(a), Box::new(b))
    }
}

/// Zero is neutral for `+` on either side.
pub proof fn law_zero_neutral(t: UExpr)
    ensures
        plus(UExpr::Zero, t) == t,
        plus(t, UExpr::Zero) == t,
{
}

/// One is neutral for `*` on either side.
pub proof fn law_one_neutral(t: UExpr)
    ensures
        times(UExpr::One, t) == t,
        times(t, UExpr::One) == t,
{
}

/// Adding two U-expressions of which neither is zero keeps both, in order,
/// as the operands of an addition node.
pub proof fn law_plus_keeps_operands(a: UExpr, b: UExpr)
    requires
        !(a is Zero),
        !(b is Zero),
    ensures
        plus(a, b) == UExpr::Add(Box::new(a), Box::new(b)),
{
}

/// Multiplying two U-expressions of which neither is one keeps both, in
/// order, as the operands of a multiplication node.
pub proof fn law_times_keeps_operands(a: UExpr, b: UExpr)
    requires
        !(a is One),
        !(b is One),
    ensures
        times(a, b) == UExpr::Mul(Box::new(a), Box::new(b)),
{
}

/// Negation wraps its operand, whatever its shape, in a negation node.
pub proof fn law_not_wraps(u: UExpr)
    ensures
        vstd::std_specs::ops::NotSpec::not_spec(u) == UExpr::Not(Box::new(u)),
{
}

impl UExpr {
    pub fn sum(scopes: PersistentVec<DataType>, body: Box<UExpr>) -> (u: UExpr)
        ensures
            u == UExpr::Sum(scopes, body),
    {
        UExpr::Sum(scopes, body)
    }

    pub fn squash(body: Box<UExpr>) -> (u: UExpr)
        ensures
            u == UExpr::Squash(body),
    {
        UExpr::Squash(body)
    }

    pub fn app(rel: Relation, args: PersistentVec<Expr>) -> (u: UExpr)
        ensures
            u == UExpr::App(AppHead::Lam(rel.0, rel.1), args),
    {
        let head = AppHead::Lam(rel.0, rel.1);
        UExpr::App(head, args)
    }

    /// `self + rhs`, dropping a zero operand.
    pub fn plus(self, rhs: UExpr) -> (u: UExpr)
        ensures
            u == plus(self, rhs),
    {
        match (self, rhs) {
            (UExpr::Zero, t) => t,
            (t, UExpr::Zero) => t,
            (t1, t2) => UExpr::Add(Box::new(t1), Box::new(t2)),
        }
    }

    /// `self * rhs`, dropping a one operand.
    pub fn times(self, rhs: UExpr) -> (u: UExpr)
        ensures
            u == times(self, rhs),
    {
        match (self, rhs) {
            (UExpr::One, t) => t,
            (t, UExpr::One) => t,
            (t1, t2) => UExpr::Mul(Box::new(t1), Box::new(t2)),
        }
    }
}

impl Add<UExpr> for UExpr {
    type Output = UExpr;

    fn add(self, rhs: UExpr) -> (u: UExpr) {
        self.plus(rhs)
    }
}

impl AddSpecImpl<UExpr> for UExpr {
    open spec fn obeys_add_spec() -> bool {
        true
    }

    open spec fn add_req(self, rhs: UExpr) -> bool {
        true
    }

    open spec fn add_spec(self, rhs: UExpr) -> UExpr {
        plus(self, rhs)
    }
}

impl Add<Box<UExpr>> for UExpr {
    type Output = UExpr;

    fn add(self, rhs: Box<UExpr>) -> (u: UExpr) {
        self.plus(*rhs)
    }
}

impl AddSpecImpl<Box<UExpr>> for UExpr {
    open spec fn obeys_add_spec() -> bool {
        true
    }

    open spec fn add_req(self, rhs: Box<UExpr>) -> bool {
        true
    }

    open spec fn add_spec(self, rhs: Box<UExpr>) -> UExpr {
        plus(self, *rhs)
    }
}

impl AddAssign<UExpr> for UExpr {
    fn add_assign(&mut self, rhs: UExpr)
        ensures
            *final(self) == plus(*old(self), rhs),
    {
        let mut lhs = UExpr::Zero;
        core::mem::swap(&mut lhs, self);
        *self = lhs.plus(rhs);
    }
}

impl Mul<UExpr> for UExpr {
    type Output = UExpr;

    fn mul(self, rhs: UExpr) -> (u: UExpr) {
        self.times(rhs)
    }
}

impl MulSpecImpl<UExpr> for UExpr {
    open spec fn obeys_mul_spec() -> bool {
        true
    }

    open spec fn mul_req(self, rhs: UExpr) -> bool {
        true
    }

    open spec fn mul_spec(self, rhs: UExpr) -> UExpr {
        times(self, rhs)
    }
}

impl Mul<Box<UExpr>> for UExpr {
    type Output = UExpr;

    fn mul(self, rhs: Box<UExpr>) -> (u: UExpr) {
        self.times(*rhs)
    }
}

impl MulSpecImpl<Box<UExpr>> for UExpr {
    open spec fn obeys_mul_spec() -> bool {
        true
    }

    open spec fn mul_req(self, rhs: Box<UExpr>) -> bool {
        true
    }

    open spec fn mul_spec(self, rhs: Box<UExpr>) -> UExpr {
        times(self, *rhs)
    }
}

impl MulAssign<UExpr> for UExpr {
    fn mul_assign(&mut self, rhs: UExpr)
        ensures
            *final(self) == times(*old(self), rhs),
    {
        let mut lhs = UExpr::One;
        core::mem::swap(&mut lhs, self);
        *self = lhs.times(rhs);
    }
}

impl Not for UExpr {
    type Output = UExpr;

    fn not(self) -> (u: UExpr)
        ensures
            u == UExpr::Not(Box::new(self)),
    {
        UExpr::Not(Box::new(self))
    }
}

impl NotSpecImpl for UExpr {
    open spec fn obeys_not_spec() -> bool {
        true
    }

    open spec fn not_req(self) -> bool {
        true
    }

    open spec fn not_spec(self) -> UExpr {
        UExpr::Not(Box::new(self))
    }
}

/// `a` and `b` are the same U-expression: the same shape, with the same
/// scopes, predicates and arguments (expressions compared by their models).
pub open spec fn same_uexpr(a: UExpr, b: UExpr) -> bool
    decreases a,
{
    match (a, b) {
        (UExpr::Zero, UExpr::Zero) => true,
        (UExpr::One, UExpr::One) => true,
        (UExpr::Add(a1, a2), UExpr::Add(b1, b2)) => same_uexpr(*a1, *b1) && same_uexpr(*a2, *b2),
        (UExpr::Mul(a1, a2), UExpr::Mul(b1, b2)) => same_uexpr(*a1, *b1) && same_uexpr(*a2, *b2),
        (UExpr::Squash(x), UExpr::Squash(y)) => same_uexpr(*x, *y),
        (UExpr::Not(x), UExpr::Not(y)) => same_uexpr(*x, *y),
        (UExpr::Sum(s1, x), UExpr::Sum(s2, y)) => datatypes(s1) == datatypes(s2) && same_uexpr(*x, *y),
        (UExpr::Pred(p), UExpr::Pred(q)) => p.model() == q.model(),
        (UExpr::App(h1, x1), UExpr::App(h2, x2)) => same_head(h1, h2) && models_of(exprs(x1))
            == models_of(exprs(x2)),
        _ => false,
    }
}

/// `a` and `b` are the same application head.
pub open spec fn same_head(a: AppHead, b: AppHead) -> bool
    decreases a,
{
    match (a, b) {
        (AppHead::Var(s), AppHead::Var(t)) => s == t,
        (AppHead::Lam(s1, x), AppHead::Lam(s2, y)) => datatypes(s1) == datatypes(s2) && same_uexpr(*x, *y),
        (AppHead::HOp(o1, a1, r1), AppHead::HOp(o2, a2, r2)) => o1@ == o2@ && models_of(a1@) == models_of(
            a2@,
        ) && datatypes(r1.0) == datatypes(r2.0) && same_uexpr(*r1.1, *r2.1),
        _ => false,
    }
}

/// A copy of a list of expressions, with the same models.
fn duplicate_exprs(args: &Vec<Expr>) -> (r: Vec<Expr>)
    ensures
        models_of(r@) == models_of(args@),
{
    let mut out: Vec<Expr> = Vec::new();
    let mut i: usize = 0;
    while i < args.len()
        invariant
            i <= args.len(),
            out@.len() == i,
            forall|j: int| 0 <= j < i ==> #[trigger] out@[j].model() == args@[j].model(),
        decreases args.len() - i,
    {
        out.push(args[i].clone());
        i = i + 1;
    }
    proof {
        crate::evaluate::shared::lemma_models_of_eq(out@, args@);
    }
    out
}

impl UExpr {
    /// A copy of this U-expression.
    pub fn duplicate(&self) -> (r: UExpr)
        ensures
            same_uexpr(r, *self),
        decreases self, 0nat,
    {
        match self {
            UExpr::Zero => UExpr::Zero,
            UExpr::One => UExpr::One,
            UExpr::Add(a, b) => UExpr::Add(Box::new(a.duplicate()), Box::new(b.duplicate())),
            UExpr::Mul(a, b) => UExpr::Mul(Box::new(a.duplicate()), Box::new(b.duplicate())),
            UExpr::Squash(a) => UExpr::Squash(Box::new(a.duplicate())),
            UExpr::Not(a) => UExpr::Not(Box::new(a.duplicate())),
            UExpr::Sum(s, b) => UExpr::Sum(s.duplicate(), Box::new(b.duplicate())),
            UExpr::Pred(p) => UExpr::Pred(p.clone()),
            UExpr::App(h, args) => UExpr::App(h.duplicate(), args.duplicate()),
        }
    }
}

impl AppHead {
    /// A copy of this application head.
    pub fn duplicate(&self) -> (r: AppHead)
        ensures
            same_head(r, *self),
        decreases self, 0nat,
    {
        match self {
            AppHead::Var(t) => AppHead::Var(*t),
            AppHead::Lam(s, b) => AppHead::Lam(s.duplicate(), Box::new(b.duplicate())),
            AppHead::HOp(op, args, rel) => AppHead::HOp(
                op.clone(),
                duplicate_exprs(args),
                Box::new(Relation(rel.0.duplicate(), Box::new(rel.1.duplicate()))),
            ),
        }
    }
}

impl Clone for UExpr {
    fn clone(&self) -> (r: UExpr)
        ensures
            same_uexpr(r, *self),
    {
        self.duplicate()
    }
}

impl Clone for AppHead {
    fn clone(&self) -> (r: AppHead)
        ensures
            same_head(r, *self),
    {
        self.duplicate()
    }
}

impl Clone for Relation {
    fn clone(&self) -> (r: Relation)
        ensures
            datatypes(r.0) == datatypes(self.0),
            same_uexpr(*r.1, *self.1),
    {
        Relation(self.0.duplicate(), Box::new(self.1.duplicate()))
    }
}

// Rendering of U-expressions as text.

/// The text that the `Debug` format gives for an expression.
pub uninterp spec fn expr_debug(e: ExprModel) -> Seq<char>;

/// The text that the `Debug` format gives for a predicate.
pub uninterp spec fn predicate_debug(p: PredicateModel) -> Seq<char>;

/// `s` with a tab put before every line that has text on it.
pub open spec fn indent_lines(s: Seq<char>) -> Seq<char> {
    indent_from(s, true)
}

/// `s` with a tab put before every line that has text on it, where
/// `line_start` tells whether `s` begins a line.
pub open spec fn indent_from(s: Seq<char>, line_start: bool) -> Seq<char>
    decreases s.len(),
{
    if s.len() == 0 {
        Seq::empty()
    } else if s[0] == '\n' {
        seq!['\n'] + indent_from(s.drop_first(), true)
    } else if line_start {
        seq!['\t', s[0]] + indent_from(s.drop_first(), false)
    } else {
        seq![s[0]] + indent_from(s.drop_first(), false)
    }
}

/// Whether a text written after `s` begins a line, when `s` itself was
/// written from a line start (`line_start`) or not.
pub open spec fn starts_line_after(s: Seq<char>, line_start: bool) -> bool {
    if s.len() == 0 {
        line_start
    } else {
        s.last() == '\n'
    }
}

/// Indenting is done piece by piece: indenting two texts written one after
/// the other is indenting the first, then the second from where the first
/// left off.
pub proof fn lemma_indent_from_concat(x: Seq<char>, y: Seq<char>, line_start: bool)
    ensures
        indent_from(x + y, line_start) == indent_from(x, line_start) + indent_from(
            y,
            starts_line_after(x, line_start),
        ),
    decreases x.len(),
{
    if x.len() > 0 {
        assert((x + y).drop_first() =~= x.drop_first() + y);
        assert((x + y)[0] == x[0]);
        if x[0] == '\n' {
            lemma_indent_from_concat(x.drop_first(), y, true);
            if x.len() > 1 {
                assert(x.drop_first().last() == x.last());
            }
        } else {
            lemma_indent_from_concat(x.drop_first(), y, false);
            if x.len() > 1 {
                assert(x.drop_first().last() == x.last());
            }
        }
        assert(indent_from(x + y, line_start) =~= indent_from(x, line_start) + indent_from(
            y,
            starts_line_after(x, line_start),
        ));
    }
}

/// Indenting a text works line by line: each line is indented on its own, and
/// the line breaks are kept.
pub proof fn law_indent_lines_by_line(a: Seq<char>, b: Seq<char>)
    ensures
        indent_lines(a + seq!['\n'] + b) == indent_lines(a) + seq!['\n'] + indent_lines(b),
{
    lemma_indent_from_concat(a, seq!['\n'] + b, true);
    let nb = seq!['\n'] + b;
    assert(nb[0] == '\n');
    assert(nb.drop_first() =~= b);
    assert(a + seq!['\n'] + b =~= a + nb);
    assert(indent_from(nb, starts_line_after(a, true)) == seq!['\n'] + indent_from(b, true));
}

/// A line with text on it gets one tab in front, and nothing else changes.
pub proof fn law_indent_single_line(a: Seq<char>)
    requires
        a.len() > 0,
        !a.contains('\n'),
    ensures
        indent_lines(a) == seq!['\t'] + a,
{
    lemma_indent_rest_of_line(a.drop_first());
    assert(a[0] != '\n') by {
        assert(a.contains(a[0]));
    }
    assert(seq!['\t', a[0]] + a.drop_first() =~= seq!['\t'] + a);
}

/// The rest of a line, without line breaks, is written as it is.
pub proof fn lemma_indent_rest_of_line(a: Seq<char>)
    requires
        !a.contains('\n'),
    ensures
        indent_from(a, false) == a,
    decreases a.len(),
{
    if a.len() > 0 {
        assert(a.contains(a[0]));
        assert forall|c: char| a.drop_first().contains(c) implies a.contains(c) by {
            let k = choose|k: int| 0 <= k < a.drop_first().len() && a.drop_first()[k] == c;
            assert(a[k + 1] == c);
        }
        lemma_indent_rest_of_line(a.drop_first());
        assert(seq![a[0]] + a.drop_first() =~= a);
    }
}

/// The value of a decimal digit character.
pub open spec fn digit_value(c: char) -> nat {
    if c == '1' {
        1
    } else if c == '2' {
        2
    } else if c == '3' {
        3
    } else if c == '4' {
        4
    } else if c == '5' {
        5
    } else if c == '6' {
        6
    } else if c == '7' {
        7
    } else if c == '8' {
        8
    } else if c == '9' {
        9
    } else {
        0
    }
}

/// The number that a decimal numeral denotes.
pub open spec fn numeral_value(s: Seq<char>) -> nat
    decreases s.len(),
{
    if s.len() == 0 {
        0
    } else {
        numeral_value(s.drop_last()) * 10 + digit_value(s.last())
    }
}

/// The numeral of `n` denotes `n`, and it has no leading zero unless it is
/// the single digit zero.
pub proof fn law_decimal_denotes(n: nat)
    ensures
        numeral_value(decimal(n)) == n,
        decimal(n).len() > 0,
        decimal(n)[0] == '0' ==> n == 0,
    decreases n,
{
    if n >= 10 {
        law_decimal_denotes(n / 10);
        let d = decimal(n);
        assert(d.drop_last() =~= decimal(n / 10));
        assert(d.last() == digit((n % 10) as nat));
        assert(digit_value(digit((n % 10) as nat)) == n % 10);
        assert((n / 10) * 10 + n % 10 == n);
        assert(d[0] == decimal(n / 10)[0]);
        assert(numeral_value(d) == numeral_value(d.drop_last()) * 10 + digit_value(d.last()));
    } else {
        let d = decimal(n);
        assert(d.drop_last() =~= Seq::<char>::empty());
        assert(digit_value(digit(n)) == n);
        assert(numeral_value(d) == numeral_value(d.drop_last()) * 10 + digit_value(d.last()));
    }
}

/// The decimal digit `d`.
pub open spec fn digit(d: nat) -> char {
    if d == 0 {
        '0'
    } else if d == 1 {
        '1'
    } else if d == 2 {
        '2'
    } else if d == 3 {
        '3'
    } else if d == 4 {
        '4'
    } else if d == 5 {
        '5'
    } else if d == 6 {
        '6'
    } else if d == 7 {
        '7'
    } else if d == 8 {
        '8'
    } else {
        '9'
    }
}

/// The decimal numeral of `n`.
pub open spec fn decimal(n: nat) -> Seq<char>
    decreases n,
{
    if n < 10 {
        seq![digit(n)]
    } else {
        decimal(n / 10) + seq![digit(n % 10)]
    }
}

/// The texts joined with `", "` between them.
pub open spec fn joined(parts: Seq<Seq<char>>) -> Seq<char>
    decreases parts.len(),
{
    if parts.len() == 0 {
        Seq::empty()
    } else if parts.len() == 1 {
        parts[0]
    } else {
        joined(parts.drop_last()) + ", "@ + parts.last()
    }
}

/// Joining one text gives that text.
pub proof fn law_joined_single(x: Seq<char>)
    ensures
        joined(seq![x]) == x,
{
}

/// Joining the texts of two non-empty lists one after the other is joining
/// each list and putting `", "` between the two results.
pub proof fn law_joined_concat(a: Seq<Seq<char>>, b: Seq<Seq<char>>)
    requires
        a.len() > 0,
        b.len() > 0,
    ensures
        joined(a + b) == joined(a) + ", "@ + joined(b),
    decreases b.len(),
{
    if b.len() == 1 {
        assert((a + b).drop_last() =~= a);
        assert((a + b).last() == b[0]);
    } else {
        assert((a + b).drop_last() =~= a + b.drop_last());
        law_joined_concat(a, b.drop_last());
        assert((a + b).last() == b.last());
        assert(joined(a + b) =~= joined(a) + ", "@ + joined(b));
    }
}

/// `x` occurs in `t` as a contiguous piece.
pub open spec fn occurs_in(t: Seq<char>, x: Seq<char>) -> bool {
    exists|k: int| 0 <= k && k + x.len() <= t.len() && #[trigger] t.subrange(k, k + x.len()) == x
}

/// A piece of a text occurs in every text that holds that text.
pub proof fn lemma_occurs_in_middle(pre: Seq<char>, t: Seq<char>, post: Seq<char>, x: Seq<char>)
    requires
        occurs_in(t, x),
    ensures
        occurs_in(pre + t + post, x),
{
    let k = choose|k: int| 0 <= k && k + x.len() <= t.len() && #[trigger] t.subrange(k, k + x.len()) == x;
    let k2: int = pre.len() as int + k;
    assert((pre + t + post).subrange(k2, k2 + x.len()) =~= t.subrange(k, k + x.len()));
}

/// Every text of the list occurs in the joined text.
pub proof fn law_joined_contains_parts(parts: Seq<Seq<char>>)
    ensures
        forall|i: int| 0 <= i < parts.len() ==> #[trigger] occurs_in(joined(parts), parts[i]),
    decreases parts.len(),
{
    if parts.len() == 1 {
        let z: int = 0;
        assert(joined(parts).subrange(z, z + parts[0].len()) =~= parts[0]);
        assert(occurs_in(joined(parts), parts[0]));
    } else if parts.len() > 1 {
        let init = parts.drop_last();
        law_joined_contains_parts(init);
        let whole = joined(parts);
        assert(whole == joined(init) + ", "@ + parts.last());
        assert forall|i: int| 0 <= i < parts.len() implies #[trigger] occurs_in(whole, parts[i]) by {
            if i < parts.len() - 1 {
                assert(init[i] == parts[i]);
                assert(occurs_in(joined(init), init[i]));
                lemma_occurs_in_middle(Seq::empty(), joined(init), ", "@ + parts.last(), parts[i]);
                assert(Seq::<char>::empty() + joined(init) + (", "@ + parts.last()) =~= whole);
            } else {
                reveal_strlit(", ");
                let k: int = joined(init).len() as int + 2;
                assert(whole.subrange(k, k + parts[i].len()) =~= parts.last());
            }
        }
    }
}

/// The texts of a list of expressions.
pub open spec fn exprs_debug(args: Seq<Expr>) -> Seq<Seq<char>> {
    Seq::new(args.len(), |i: int| expr_debug(args[i].model()))
}

/// The text of a U-expression.
pub open spec fn uexpr_text(u: UExpr) -> Seq<char>
    decreases u,
{
    match u {
        UExpr::Zero => "0"@,
        UExpr::One => "1"@,
        UExpr::Add(a, b) => "("@ + uexpr_text(*a) + " + "@ + uexpr_text(*b) + ")"@,
        UExpr::Mul(a, b) => "("@ + uexpr_text(*a) + " × "@ + uexpr_text(*b) + ")"@,
        UExpr::Squash(a) => "‖"@ + uexpr_text(*a) + "‖"@,
        UExpr::Not(a) => "¬("@ + uexpr_text(*a) + ")"@,
        UExpr::Sum(scopes, body) => "∑ "@ + datatypes_debug(datatypes(scopes)) + " {\n"@
            + indent_lines(uexpr_text(*body) + "\n"@) + "}"@,
        UExpr::Pred(p) => "⟦"@ + predicate_debug(p.model()) + "⟧"@,
        UExpr::App(h, args) => head_text(h) + "("@ + joined(exprs_debug(exprs(args))) + ")"@,
    }
}

/// The text of the head of an application. A relation inside a higher-order
/// head is shown as the lambda it is.
pub open spec fn head_text(h: AppHead) -> Seq<char>
    decreases h,
{
    match h {
        AppHead::Var(t) => "#"@ + decimal(t.0 as nat),
        AppHead::Lam(scopes, body) => "(λ "@ + datatypes_debug(datatypes(scopes)) + "\n"@
            + indent_lines(uexpr_text(*body) + ")\n"@),
        AppHead::HOp(op, args, rel) => op@ + "("@ + joined(exprs_debug(args@)) + ", "@ + "(λ "@
            + datatypes_debug(datatypes(rel.0)) + "\n"@ + indent_lines(uexpr_text(*rel.1) + ")\n"@)
            + ")\n"@,
    }
}

/// The texts of a list of expressions are the texts of its elements, in order.
pub proof fn law_exprs_debug(args: Seq<Expr>)
    ensures
        exprs_debug(args).len() == args.len(),
        forall|i: int| 0 <= i < args.len() ==> #[trigger] exprs_debug(args)[i] == expr_debug(args[i].model()),
{
}

/// The text of a higher-order head is the operator, then the texts of all its
/// arguments joined with `", "`, then the relation as a lambda; the text of
/// every argument occurs in it.
pub proof fn law_hop_text(op: String, args: Vec<Expr>, rel: Box<Relation>)
    ensures
        head_text(AppHead::HOp(op, args, rel)) == op@ + "("@ + joined(exprs_debug(args@)) + ", "@ + "(λ "@
            + datatypes_debug(datatypes(rel.0)) + "\n"@ + indent_lines(uexpr_text(*rel.1) + ")\n"@) + ")\n"@,
        forall|i: int|
            0 <= i < args@.len() ==> #[trigger] occurs_in(
                head_text(AppHead::HOp(op, args, rel)),
                expr_debug(args@[i].model()),
            ),
{
    let parts = exprs_debug(args@);
    law_joined_contains_parts(parts);
    let t = head_text(AppHead::HOp(op, args, rel));
    let pre = op@ + "("@;
    let post = ", "@ + "(λ "@ + datatypes_debug(datatypes(rel.0)) + "\n"@ + indent_lines(uexpr_text(*rel.1) + ")\n"@)
        + ")\n"@;
    assert(t =~= pre + joined(parts) + post);
    assert forall|i: int| 0 <= i < args@.len() implies #[trigger] occurs_in(t, expr_debug(args@[i].model())) by {
        assert(parts[i] == expr_debug(args@[i].model()));
        assert(occurs_in(joined(parts), parts[i]));
        lemma_occurs_in_middle(pre, joined(parts), post, parts[i]);
    }
}

/// The text of a sum or a product shows both operands, the left one first,
/// between parentheses and around the operator sign; squash and negation show
/// their operand between their signs; a summation shows its scopes and then
/// its body on indented lines.
pub proof fn law_operator_text(a: UExpr, b: UExpr, scopes: PersistentVec<DataType>)
    ensures
        uexpr_text(UExpr::Add(Box::new(a), Box::new(b))) == "("@ + uexpr_text(a) + " + "@ + uexpr_text(b) + ")"@,
        uexpr_text(UExpr::Mul(Box::new(a), Box::new(b))) == "("@ + uexpr_text(a) + " × "@ + uexpr_text(b) + ")"@,
        uexpr_text(UExpr::Squash(Box::new(a))) == "‖"@ + uexpr_text(a) + "‖"@,
        uexpr_text(UExpr::Not(Box::new(a))) == "¬("@ + uexpr_text(a) + ")"@,
        uexpr_text(UExpr::Sum(scopes, Box::new(a))) == "∑ "@ + datatypes_debug(datatypes(scopes)) + " {\n"@
            + indent_lines(uexpr_text(a)) + "\n"@ + "}"@,
{
    law_indent_lines_by_line(uexpr_text(a), Seq::empty());
    assert(uexpr_text(a) + seq!['\n'] + Seq::<char>::empty() =~= uexpr_text(a) + "\n"@) by {
        reveal_strlit("\n");
    }
    assert(indent_lines(Seq::<char>::empty()) =~= Seq::<char>::empty());
    reveal_strlit("\n");
    assert(indent_lines(uexpr_text(a)) + seq!['\n'] + Seq::<char>::empty() =~= indent_lines(uexpr_text(a)) + "\n"@);
}

/// The text of an application is its head, then the texts of all its
/// arguments joined with `", "` in parentheses; the text of every argument
/// occurs in it.
pub proof fn law_app_text(h: AppHead, args: PersistentVec<Expr>)
    ensures
        uexpr_text(UExpr::App(h, args)) == head_text(h) + "("@ + joined(exprs_debug(exprs(args))) + ")"@,
        forall|i: int|
            0 <= i < exprs(args).len() ==> #[trigger] occurs_in(
                uexpr_text(UExpr::App(h, args)),
                expr_debug(exprs(args)[i].model()),
            ),
{
    let parts = exprs_debug(exprs(args));
    law_joined_contains_parts(parts);
    let t = uexpr_text(UExpr::App(h, args));
    let pre = head_text(h) + "("@;
    assert(t =~= pre + joined(parts) + ")"@);
    assert forall|i: int| 0 <= i < exprs(args).len() implies #[trigger] occurs_in(
        t,
        expr_debug(exprs(args)[i].model()),
    ) by {
        assert(parts[i] == expr_debug(exprs(args)[i].model()));
        assert(occurs_in(joined(parts), parts[i]));
        lemma_occurs_in_middle(pre, joined(parts), ")"@, parts[i]);
    }
}

/// indenter's `indented(..).with_str("\t")`: writes `s` with a tab before
/// every line that has text on it.
#[verifier::external_body]
fn tab_indented(s: &str) -> (r: String)
    ensures
        r@ == indent_lines(s@),
{
    let mut out = String::new();
    write!(indenter::indented(&mut out).with_str("\t"), "{}", s).unwrap();
    out
}

/// The `Debug` format (`{:?}`) of an expression.
#[verifier::external_body]
fn expr_debug_text(e: &Expr) -> (r: String)
    ensures
        r@ == expr_debug(e.model()),
{
    format!("{:?}", e)
}

/// The `Debug` format (`{:?}`) of a predicate.
#[verifier::external_body]
fn predicate_debug_text(p: &Predicate) -> (r: String)
    ensures
        r@ == predicate_debug(p.model()),
{
    format!("{:?}", p)
}

/// The decimal digit `d` as a character.
fn digit_char(d: usize) -> (c: char)
    requires
        d < 10,
    ensures
        c == digit(d as nat),
{
    if d == 0 {
        '0'
    } else if d == 1 {
        '1'
    } else if d == 2 {
        '2'
    } else if d == 3 {
        '3'
    } else if d == 4 {
        '4'
    } else if d == 5 {
        '5'
    } else if d == 6 {
        '6'
    } else if d == 7 {
        '7'
    } else if d == 8 {
        '8'
    } else {
        '9'
    }
}

/// The decimal numeral of `n`.
pub fn decimal_text(n: usize) -> (s: String)
    ensures
        s@ == decimal(n as nat),
    decreases n,
{
    if n < 10 {
        let mut s = String::new();
        push_char(&mut s, digit_char(n));
        proof {
            assert(s@ =~= seq![digit(n as nat)]);
        }
        s
    } else {
        let mut s = decimal_text(n / 10);
        push_char(&mut s, digit_char(n % 10));
        s
    }
}

/// Appends the texts of the expressions to `out`, joined with `", "`.
fn push_joined(out: &mut String, args: &Vec<Expr>)
    ensures
        final(out)@ == old(out)@ + joined(exprs_debug(args@)),
{
    let ghost start = out@;
    let mut i: usize = 0;
    while i < args.len()
        invariant
            i <= args@.len(),
            out@ == start + joined(exprs_debug(args@.take(i as int))),
        decreases args.len() - i,
    {
        if i > 0 {
            out.append(", ");
        }
        let t = expr_debug_text(&args[i]);
        out.append(t.as_str());
        proof {
            let parts = exprs_debug(args@.take(i + 1));
            assert(parts.drop_last() =~= exprs_debug(args@.take(i as int)));
            assert(parts.last() == expr_debug(args@[i as int].model()));
            if i == 0 {
                assert(joined(exprs_debug(args@.take(i as int))) =~= Seq::<char>::empty());
            }
        }
        i = i + 1;
    }
    proof {
        assert(args@.take(args@.len() as int) =~= args@);
    }
}

/// Appends the texts of the expressions of a persistent vector to `out`,
/// joined with `", "`.
fn push_joined_vec(out: &mut String, args: &PersistentVec<Expr>)
    ensures
        final(out)@ == old(out)@ + joined(exprs_debug(exprs(*args))),
{
    let ghost start = out@;
    let n = args.len();
    let mut i: usize = 0;
    while i < n
        invariant
            n == exprs(*args).len(),
            i <= n,
            out@ == start + joined(exprs_debug(exprs(*args).take(i as int))),
        decreases n - i,
    {
        if i > 0 {
            out.append(", ");
        }
        let t = expr_debug_text(args.at(i));
        out.append(t.as_str());
        proof {
            let parts = exprs_debug(exprs(*args).take(i + 1));
            assert(parts.drop_last() =~= exprs_debug(exprs(*args).take(i as int)));
            assert(parts.last() == expr_debug(exprs(*args)[i as int].model()));
            if i == 0 {
                assert(joined(exprs_debug(exprs(*args).take(i as int))) =~= Seq::<char>::empty());
            }
        }
        i = i + 1;
    }
    proof {
        assert(exprs(*args).take(n as int) =~= exprs(*args));
    }
}

/// The text of a lambda: its scopes, then its body indented and closed.
fn lambda_text(scopes: &PersistentVec<DataType>, body: &UExpr) -> (s: String)
    ensures
        s@ == "(λ "@ + datatypes_debug(datatypes(*scopes)) + "\n"@ + indent_lines(uexpr_text(*body) + ")\n"@),
    decreases body, 1nat,
{
    let mut s = String::from_str("(λ ");
    s.append(scopes.debug_text().as_str());
    s.append("\n");
    let mut inner = body.text();
    inner.append(")\n");
    s.append(tab_indented(inner.as_str()).as_str());
    s
}

impl UExpr {
    /// The text of this U-expression.
    pub fn text(&self) -> (s: String)
        ensures
            s@ == uexpr_text(*self),
        decreases self, 0nat,
    {
        match self {
            UExpr::Zero => String::from_str("0"),
            UExpr::One => String::from_str("1"),
            UExpr::Add(a, b) => {
                let mut s = String::from_str("(");
                s.append(a.text().as_str());
                s.append(" + ");
                s.append(b.text().as_str());
                s.append(")");
                s
            },
            UExpr::Mul(a, b) => {
                let mut s = String::from_str("(");
                s.append(a.text().as_str());
                s.append(" × ");
                s.append(b.text().as_str());
                s.append(")");
                s
            },
            UExpr::Squash(a) => {
                let mut s = String::from_str("‖");
                s.append(a.text().as_str());
                s.append("‖");
                s
            },
            UExpr::Not(a) => {
                let mut s = String::from_str("¬(");
                s.append(a.text().as_str());
                s.append(")");
                s
            },
            UExpr::Sum(scopes, body) => {
                let mut s = String::from_str("∑ ");
                s.append(scopes.debug_text().as_str());
                s.append(" {\n");
                let mut inner = body.text();
                inner.append("\n");
                s.append(tab_indented(inner.as_str()).as_str());
                s.append("}");
                s
            },
            UExpr::Pred(p) => {
                let mut s = String::from_str("⟦");
                s.append(predicate_debug_text(p).as_str());
                s.append("⟧");
                s
            },
            UExpr::App(h, args) => {
                let mut s = h.text();
                s.append("(");
                push_joined_vec(&mut s, args);
                s.append(")");
                s
            },
        }
    }
}

impl AppHead {
    /// The text of this application head.
    pub fn text(&self) -> (s: String)
        ensures
            s@ == head_text(*self),
        decreases self, 0nat,
    {
        match self {
            AppHead::Var(t) => {
                let mut s = String::from_str("#");
                s.append(decimal_text(t.0).as_str());
                s
            },
            AppHead::Lam(scopes, body) => lambda_text(scopes, body),
            AppHead::HOp(op, args, rel) => {
                let mut s = op.clone();
                s.append("(");
                push_joined(&mut s, args);
                s.append(", ");
                s.append(lambda_text(&rel.0, &rel.1).as_str());
                s.append(")\n");
                s
            },
        }
    }
}

} // verus!
