//! The evaluator: an expression/statement tree to a plan of elementary
//! numeric operations.
//!
//! Statements are processed strictly in order: each named-value binding is
//! resolved against the environment built so far and then inserted,
//! shadowing any earlier binding of the same name without error.  The
//! trailing expression is resolved against the final environment.
//!
//! Everything the evaluator decides is decided here: whether every numeric
//! literal is valid, whether every name reference has a prior binding, and
//! in which order the operations apply.  The floating-point arithmetic
//! itself is the host's: the result is an [`Evaluation`], a list of
//! already-checked numeric expressions — one per binding, in order, each
//! referring back to earlier bindings by slot index, plus one for the
//! line's result.  Carrying the plan out is a direct structural walk that
//! cannot fail.  Division by zero is left to standard floating-point
//! semantics (it yields an infinity or a not-a-number value, never an
//! error).

use vstd::prelude::*;

use crate::ast::Expr;
use crate::ast::ExprView;
use crate::ast::Stmt;
use crate::ast::StmtView;
use crate::ast::Program;
use crate::ast::ProgramView;
use crate::scanner::Token;
use crate::scanner::TokenView;
use crate::scanner::is_digit_char;

verus! {

// ------------------------------------------------------------------
// Valid numeric literals
//
// Literal text is carried verbatim through scanning and parsing and is
// checked only here, the single place numeric-format validity can fail.
// The accepted texts are exactly those the host's floating-point parser
// accepts, as its documentation gives them:
//
// ```text
// Float  ::= Sign? ( 'inf' | 'infinity' | 'nan' | Number )
// Number ::= Count '.'? Count? Exp? | '.' Count Exp?
// Exp    ::= ('e' | 'E') Sign? Count
// Count  ::= Digit+
// ```
//
// with the three words matched case-insensitively.
// ------------------------------------------------------------------
/// Whether every character in `[from, to)` is an ASCII digit.
pub open spec fn all_digits(s: Seq<char>, from: int, to: int) -> bool {
    forall|k: int| from <= k < to ==> is_digit_char(#[trigger] s[k])
}

/// The first position in `[from, to)` holding `e` or `E`, or `to`.
pub open spec fn first_e(s: Seq<char>, from: int, to: int) -> int
    decreases to - from,
{
    if from < to && 0 <= from < s.len() {
        if s[from] == 'e' || s[from] == 'E' {
            from
        } else {
            first_e(s, from + 1, to)
        }
    } else {
        to
    }
}

/// The first position in `[from, to)` holding `.`, or `to`.
pub open spec fn first_dot(s: Seq<char>, from: int, to: int) -> int
    decreases to - from,
{
    if from < to && 0 <= from < s.len() {
        if s[from] == '.' {
            from
        } else {
            first_dot(s, from + 1, to)
        }
    } else {
        to
    }
}

/// A mantissa: digits with at most one `.`, and at least one digit.
pub open spec fn is_mantissa(s: Seq<char>, from: int, to: int) -> bool {
    let d = first_dot(s, from, to);
    if d == to {
        from < to && all_digits(s, from, to)
    } else {
        all_digits(s, from, d) && all_digits(s, d + 1, to) && (from < d || d + 1 < to)
    }
}

/// An exponent (after its `e` or `E` marker): an optional sign, then at
/// least one digit.
pub open spec fn is_exponent(s: Seq<char>, from: int, to: int) -> bool {
    let b = if from < to && 0 <= from < s.len() && (s[from] == '+' || s[from] == '-') {
        from + 1
    } else {
        from
    };
    b < to && all_digits(s, b, to)
}

/// A number: a mantissa, optionally followed by an exponent.
pub open spec fn is_number_body(s: Seq<char>, from: int, to: int) -> bool {
    let e = first_e(s, from, to);
    if e == to {
        is_mantissa(s, from, to)
    } else {
        is_mantissa(s, from, e) && is_exponent(s, e + 1, to)
    }
}

/// Case-insensitive match of a character against a lowercase letter.
pub open spec fn ci_eq(c: char, l: char) -> bool {
    c == l || (65 <= c as u32 && c as u32 <= 90 && c as u32 + 32 == l as u32)
}

/// One of the three special words `inf`, `infinity` and `nan`, matched
/// case-insensitively.
pub open spec fn is_special_word(s: Seq<char>, from: int, to: int) -> bool {
    ||| (to - from == 3 && 0 <= from && to <= s.len() && ci_eq(s[from], 'i') && ci_eq(
        s[from + 1],
        'n',
    ) && ci_eq(s[from + 2], 'f'))
    ||| (to - from == 3 && 0 <= from && to <= s.len() && ci_eq(s[from], 'n') && ci_eq(
        s[from + 1],
        'a',
    ) && ci_eq(s[from + 2], 'n'))
    ||| (to - from == 8 && 0 <= from && to <= s.len() && ci_eq(s[from], 'i') && ci_eq(
        s[from + 1],
        'n',
    ) && ci_eq(s[from + 2], 'f') && ci_eq(s[from + 3], 'i') && ci_eq(s[from + 4], 'n') && ci_eq(
        s[from + 5],
        'i',
    ) && ci_eq(s[from + 6], 't') && ci_eq(s[from + 7], 'y'))
}

/// Whether a literal text is a valid floating-point literal: an optional
/// sign, then a special word or a number.
pub open spec fn is_float_literal(s: Seq<char>) -> bool {
    let start: int = if s.len() > 0 && (s[0] == '+' || s[0] == '-') {
        1
    } else {
        0
    };
    is_special_word(s, start, s.len() as int) || is_number_body(s, start, s.len() as int)
}

// ------------------------------------------------------------------
// The meaning of a line: a pure arithmetic term
// ------------------------------------------------------------------
/// A pure arithmetic term: what a line denotes once every name reference
/// is resolved, every grouping stripped, and every literal checked.  The
/// host's floating-point arithmetic interprets it leaf to root.
pub ghost enum NumTerm {
    Literal { value: Seq<char> },
    Binary { operator: TokenView, left: Box<NumTerm>, right: Box<NumTerm> },
}

/// The mathematical model of an [`EvalError`].
pub ghost enum EvalErrorView {
    InvalidNumber { value: Seq<char> },
    UndefinedName { name: Seq<char> },
    UnsupportedOperator { operator: TokenView },
}

/// An evaluation failure.
#[derive(Debug, PartialEq, Eq)]
pub enum EvalError {
    /// A literal's text is not a valid floating-point literal.
    InvalidNumber { value: String },
    /// A name reference with no prior binding.
    UndefinedName { name: String },
    /// A binary node whose operator token is none of `+ - * /`.
    UnsupportedOperator { operator: Token },
}

impl View for EvalError {
    type V = EvalErrorView;

    open spec fn view(&self) -> EvalErrorView {
        match self {
            EvalError::InvalidNumber { value } => EvalErrorView::InvalidNumber { value: value@ },
            EvalError::UndefinedName { name } => EvalErrorView::UndefinedName { name: name@ },
            EvalError::UnsupportedOperator { operator } => EvalErrorView::UnsupportedOperator {
                operator: operator@,
            },
        }
    }
}

/// The name an identifier token binds or references; any other token
/// stands for no name and yields the empty one (the parser never builds
/// such a tree).
pub open spec fn identifier_name(t: TokenView) -> Seq<char> {
    match t {
        TokenView::Identifier { value } => value,
        _ => Seq::empty(),
    }
}

/// The four binary operator tokens.
pub open spec fn is_operator(t: TokenView) -> bool {
    t is Plus || t is Minus || t is Astrix || t is Slash
}

/// What evaluating an expression against an environment yields: the
/// arithmetic term it denotes, or the first error met in evaluation
/// order (left child before right child, children before operator).
pub open spec fn eval_expr(e: ExprView, env: Map<Seq<char>, NumTerm>) -> Result<
    NumTerm,
    EvalErrorView,
>
    decreases e,
{
    match e {
        ExprView::NumericLiteral { value } => if is_float_literal(value) {
            Ok(NumTerm::Literal { value })
        } else {
            Err(EvalErrorView::InvalidNumber { value })
        },
        ExprView::NameReference { identifier } => {
            let name = identifier_name(identifier);
            if env.dom().contains(name) {
                Ok(env[name])
            } else {
                Err(EvalErrorView::UndefinedName { name })
            }
        },
        ExprView::Grouping { expr } => eval_expr(*expr, env),
        ExprView::Binary { left, operator, right } => match eval_expr(*left, env) {
            Err(er) => Err(er),
            Ok(l) => match eval_expr(*right, env) {
                Err(er) => Err(er),
                Ok(r) => if is_operator(operator) {
                    Ok(NumTerm::Binary { operator, left: Box::new(l), right: Box::new(r) })
                } else {
                    Err(EvalErrorView::UnsupportedOperator { operator })
                },
            },
        },
    }
}

/// What evaluating the statements in order yields: the final environment,
/// in which each binding saw every earlier one and shadowed any binding
/// of its own name, or the first error.
pub open spec fn eval_statements(stmts: Seq<StmtView>, env: Map<Seq<char>, NumTerm>) -> Result<
    Map<Seq<char>, NumTerm>,
    EvalErrorView,
>
    decreases stmts.len(),
{
    if stmts.len() == 0 {
        Ok(env)
    } else {
        match stmts[0] {
            StmtView::NamedValue { identifier, expr } => match eval_expr(expr, env) {
                Err(e) => Err(e),
                Ok(t) => eval_statements(
                    stmts.drop_first(),
                    env.insert(identifier_name(identifier), t),
                ),
            },
        }
    }
}

/// What evaluating a whole line yields: its statements build the
/// environment from nothing, then the trailing expression is resolved
/// against it.
pub open spec fn eval_program(p: ProgramView) -> Result<NumTerm, EvalErrorView> {
    match eval_statements(p.statements, Map::empty()) {
        Err(e) => Err(e),
        Ok(env) => eval_expr(p.expr, env),
    }
}

// ------------------------------------------------------------------
// Laws of binding
// ------------------------------------------------------------------
/// Binding order and shadowing: in `def n = e1; def n = e2; n`, the
/// second binding's expression is evaluated in an environment where `n`
/// already holds the first binding's value — later bindings see earlier
/// ones — and the trailing reference yields the second value: the
/// redefinition shadows the first binding silently, with no error.
pub proof fn lemma_redefinition_shadows(
    name: TokenView,
    e1: ExprView,
    e2: ExprView,
    t1: NumTerm,
    t2: NumTerm,
)
    requires
        name is Identifier,
        eval_expr(e1, Map::empty()) == Ok::<NumTerm, EvalErrorView>(t1),
        eval_expr(e2, Map::empty().insert(identifier_name(name), t1)) == Ok::<
            NumTerm,
            EvalErrorView,
        >(t2),
    ensures
        eval_program(
            ProgramView {
                statements: seq![
                    StmtView::NamedValue { identifier: name, expr: e1 },
                    StmtView::NamedValue { identifier: name, expr: e2 },
                ],
                expr: ExprView::NameReference { identifier: name },
            },
        ) == Ok::<NumTerm, EvalErrorView>(t2),
{
    let n = identifier_name(name);
    let stmts = seq![
        StmtView::NamedValue { identifier: name, expr: e1 },
        StmtView::NamedValue { identifier: name, expr: e2 },
    ];
    let m1 = Map::<Seq<char>, NumTerm>::empty().insert(n, t1);
    let m2 = m1.insert(n, t2);
    reveal_with_fuel(eval_statements, 3);
    assert(stmts.drop_first() =~= seq![StmtView::NamedValue { identifier: name, expr: e2 }]);
    assert(stmts.drop_first().drop_first() =~= Seq::<StmtView>::empty());
    assert(stmts[0] == (StmtView::NamedValue { identifier: name, expr: e1 }));
    assert(stmts.drop_first()[0] == (StmtView::NamedValue { identifier: name, expr: e2 }));
    assert(eval_statements(stmts.drop_first(), m1) == Ok::<
        Map<Seq<char>, NumTerm>,
        EvalErrorView,
    >(m2));
    assert(eval_statements(stmts, Map::empty()) == Ok::<Map<Seq<char>, NumTerm>, EvalErrorView>(
        m2,
    ));
    assert(m2.dom().contains(n) && m2[n] == t2);
}

// ------------------------------------------------------------------
// The evaluator's output: a checked numeric plan
// ------------------------------------------------------------------
/// A checked numeric expression: a valid literal, a reference to the
/// value of an earlier binding by slot index, or one of the four
/// operations over two checked operands.
#[derive(Debug, PartialEq, Eq)]
pub enum NumExpr {
    Literal { value: String },
    Slot { index: usize },
    Binary { operator: Token, left: Box<NumExpr>, right: Box<NumExpr> },
}

/// The mathematical model of a [`NumExpr`].
pub ghost enum NumExprView {
    Literal { value: Seq<char> },
    Slot { index: int },
    Binary { operator: TokenView, left: Box<NumExprView>, right: Box<NumExprView> },
}

pub open spec fn num_expr_view(e: NumExpr) -> NumExprView
    decreases e,
{
    match e {
        NumExpr::Literal { value } => NumExprView::Literal { value: value@ },
        NumExpr::Slot { index } => NumExprView::Slot { index: index as int },
        NumExpr::Binary { operator, left, right } => NumExprView::Binary {
            operator: operator@,
            left: Box::new(num_expr_view(*left)),
            right: Box::new(num_expr_view(*right)),
        },
    }
}

impl View for NumExpr {
    type V = NumExprView;

    open spec fn view(&self) -> NumExprView {
        num_expr_view(*self)
    }
}

/// Well-formedness of a checked numeric expression: every literal is
/// valid, every operator is one of the four, and every slot reference
/// points below `bound`.
pub open spec fn num_expr_wf(e: NumExprView, bound: int) -> bool
    decreases e,
{
    match e {
        NumExprView::Literal { value } => is_float_literal(value),
        NumExprView::Slot { index } => 0 <= index < bound,
        NumExprView::Binary { operator, left, right } => is_operator(operator) && num_expr_wf(
            *left,
            bound,
        ) && num_expr_wf(*right, bound),
    }
}

/// The term at slot `i`, with out-of-range reads yielding a harmless
/// placeholder (well-formedness rules them out).
pub open spec fn slot_term(slots: Seq<NumTerm>, i: int) -> NumTerm {
    if 0 <= i < slots.len() {
        slots[i]
    } else {
        NumTerm::Literal { value: Seq::empty() }
    }
}

/// The arithmetic term a checked numeric expression denotes, given the
/// terms of the bindings it may refer back to.
pub open spec fn num_term_of(e: NumExprView, slots: Seq<NumTerm>) -> NumTerm
    decreases e,
{
    match e {
        NumExprView::Literal { value } => NumTerm::Literal { value },
        NumExprView::Slot { index } => slot_term(slots, index),
        NumExprView::Binary { operator, left, right } => NumTerm::Binary {
            operator,
            left: Box::new(num_term_of(*left, slots)),
            right: Box::new(num_term_of(*right, slots)),
        },
    }
}

/// The line's evaluation, ready to be carried out: one checked numeric
/// expression per statement, in statement order, each allowed to refer
/// back to the values of the ones before it, and one for the trailing
/// expression, the line's result.
#[derive(Debug)]
pub struct Evaluation {
    pub bindings: Vec<NumExpr>,
    pub result: NumExpr,
}

/// The mathematical model of an [`Evaluation`].
pub ghost struct EvaluationView {
    pub bindings: Seq<NumExprView>,
    pub result: NumExprView,
}

pub open spec fn num_expr_views(es: Seq<NumExpr>) -> Seq<NumExprView> {
    es.map_values(|e: NumExpr| e@)
}

impl View for Evaluation {
    type V = EvaluationView;

    open spec fn view(&self) -> EvaluationView {
        EvaluationView { bindings: num_expr_views(self.bindings@), result: self.result@ }
    }
}

/// The terms of the bindings, in order: each binding's expression is
/// interpreted against the terms of the bindings before it.
pub open spec fn slot_terms(bindings: Seq<NumExprView>) -> Seq<NumTerm>
    decreases bindings.len(),
{
    if bindings.len() == 0 {
        Seq::empty()
    } else {
        let front = slot_terms(bindings.drop_last());
        front.push(num_term_of(bindings.last(), front))
    }
}

/// Well-formedness of a whole evaluation: each binding's expression may
/// refer back only to bindings strictly before it, and the result only
/// to the bindings.
pub open spec fn evaluation_wf(ev: EvaluationView) -> bool {
    &&& forall|i: int| 0 <= i < ev.bindings.len() ==> num_expr_wf(#[trigger] ev.bindings[i], i)
    &&& num_expr_wf(ev.result, ev.bindings.len() as int)
}

/// There is exactly one term per binding.
pub proof fn lemma_slot_terms_len(b: Seq<NumExprView>)
    ensures
        slot_terms(b).len() == b.len(),
    decreases b.len(),
{
    if b.len() > 0 {
        lemma_slot_terms_len(b.drop_last());
    }
}

/// A well-formed expression reads no slot at or past the old length, so
/// appending a term changes nothing it denotes.
proof fn lemma_num_term_of_grow(e: NumExprView, slots: Seq<NumTerm>, t: NumTerm)
    requires
        num_expr_wf(e, slots.len() as int),
    ensures
        num_term_of(e, slots.push(t)) == num_term_of(e, slots),
    decreases e,
{
    match e {
        NumExprView::Literal { .. } => {},
        NumExprView::Slot { .. } => {},
        NumExprView::Binary { left, right, .. } => {
            lemma_num_term_of_grow(*left, slots, t);
            lemma_num_term_of_grow(*right, slots, t);
        },
    }
}

// ------------------------------------------------------------------
// The environment: names to slots
// ------------------------------------------------------------------
/// What a name resolves to in the association list the evaluator keeps:
/// the slot of the latest binding of that name, scanning from the back.
pub open spec fn env_lookup(pairs: Seq<(String, usize)>, name: Seq<char>) -> Option<int>
    decreases pairs.len(),
{
    if pairs.len() == 0 {
        None
    } else if pairs.last().0@ == name {
        Some(pairs.last().1 as int)
    } else {
        env_lookup(pairs.drop_last(), name)
    }
}

/// The environment map the association list stands for, given the terms
/// of the slots: later pairs shadow earlier ones.
pub open spec fn bindings_map(pairs: Seq<(String, usize)>, slots: Seq<NumTerm>) -> Map<
    Seq<char>,
    NumTerm,
>
    decreases pairs.len(),
{
    if pairs.len() == 0 {
        Map::empty()
    } else {
        bindings_map(pairs.drop_last(), slots).insert(
            pairs.last().0@,
            slot_term(slots, pairs.last().1 as int),
        )
    }
}

/// Scanning the list from the back agrees with the map it stands for.
proof fn lemma_env_lookup_matches_map(
    pairs: Seq<(String, usize)>,
    slots: Seq<NumTerm>,
    name: Seq<char>,
)
    requires
        forall|i: int| 0 <= i < pairs.len() ==> (#[trigger] pairs[i]).1 < slots.len(),
    ensures
        (match env_lookup(pairs, name) {
            Some(idx) => 0 <= idx < slots.len() && bindings_map(pairs, slots).dom().contains(name)
                && bindings_map(pairs, slots)[name] == slot_term(slots, idx),
            None => !bindings_map(pairs, slots).dom().contains(name),
        }),
    decreases pairs.len(),
{
    if pairs.len() > 0 {
        assert(pairs.last() == pairs[pairs.len() - 1]);
        assert forall|i: int| 0 <= i < pairs.drop_last().len() implies (#[trigger] pairs.drop_last()[i]).1 < slots.len() by {
            assert(pairs.drop_last()[i] == pairs[i]);
        }
        lemma_env_lookup_matches_map(pairs.drop_last(), slots, name);
    }
}

/// Every pair points below the slot count, so appending a term leaves
/// the environment map unchanged.
proof fn lemma_bindings_map_grow(pairs: Seq<(String, usize)>, slots: Seq<NumTerm>, t: NumTerm)
    requires
        forall|i: int| 0 <= i < pairs.len() ==> (#[trigger] pairs[i]).1 < slots.len(),
    ensures
        bindings_map(pairs, slots.push(t)) == bindings_map(pairs, slots),
    decreases pairs.len(),
{
    if pairs.len() > 0 {
        assert(pairs.last() == pairs[pairs.len() - 1]);
        lemma_bindings_map_grow(pairs.drop_last(), slots, t);
    }
}

/// Looks a name up in the association list, from the back, so that the
/// latest binding of the name wins.
fn lookup(env: &Vec<(String, usize)>, name: &String) -> (r: Option<usize>)
    ensures
        (match r {
            Some(idx) => env_lookup(env@, name@) == Some(idx as int),
            None => env_lookup(env@, name@) is None,
        }),
{
    let mut i = env.len();
    proof {
        assert(env@.take(i as int) =~= env@);
    }
    while i > 0
        invariant
            i <= env@.len(),
            env_lookup(env@, name@) == env_lookup(env@.take(i as int), name@),
        decreases i,
    {
        i = i - 1;
        let hit = env[i].0 == *name;
        proof {
            let prefix = env@.take(i as int + 1);
            assert(prefix.last() == env@[i as int]);
            assert(prefix.drop_last() =~= env@.take(i as int));
        }
        if hit {
            return Some(env[i].1);
        }
    }
    proof {
        assert(env@.take(0).len() == 0);
    }
    None
}

// ------------------------------------------------------------------
// The literal checker
// ------------------------------------------------------------------
/// Whether every character in `[from, to)` is an ASCII digit.
fn check_digits(s: &str, from: usize, to: usize) -> (r: bool)
    requires
        from <= to <= s@.len(),
    ensures
        r == all_digits(s@, from as int, to as int),
{
    let mut i = from;
    while i < to
        invariant
            from <= i <= to <= s@.len(),
            forall|k: int| from <= k < i ==> is_digit_char(#[trigger] s@[k]),
        decreases to - i,
    {
        let u = s.get_char(i) as u32;
        if !(48 <= u && u <= 57) {
            assert(!is_digit_char(s@[i as int]));
            return false;
        }
        i = i + 1;
    }
    true
}

/// The first position in `[from, to)` holding `e` or `E`, or `to`.
fn first_exp_index(s: &str, from: usize, to: usize) -> (r: usize)
    requires
        from <= to <= s@.len(),
    ensures
        r == first_e(s@, from as int, to as int),
        from <= r <= to,
{
    let mut i = from;
    while i < to && !(s.get_char(i) == 'e' || s.get_char(i) == 'E')
        invariant
            from <= i <= to <= s@.len(),
            first_e(s@, from as int, to as int) == first_e(s@, i as int, to as int),
        decreases to - i,
    {
        i = i + 1;
    }
    i
}

/// The first position in `[from, to)` holding `.`, or `to`.
fn first_dot_index(s: &str, from: usize, to: usize) -> (r: usize)
    requires
        from <= to <= s@.len(),
    ensures
        r == first_dot(s@, from as int, to as int),
        from <= r <= to,
{
    let mut i = from;
    while i < to && !(s.get_char(i) == '.')
        invariant
            from <= i <= to <= s@.len(),
            first_dot(s@, from as int, to as int) == first_dot(s@, i as int, to as int),
        decreases to - i,
    {
        i = i + 1;
    }
    i
}

/// Checks a mantissa: digits with at most one `.`, at least one digit.
fn check_mantissa(s: &str, from: usize, to: usize) -> (r: bool)
    requires
        from <= to <= s@.len(),
    ensures
        r == is_mantissa(s@, from as int, to as int),
{
    let d = first_dot_index(s, from, to);
    if d == to {
        from < to && check_digits(s, from, to)
    } else {
        check_digits(s, from, d) && check_digits(s, d + 1, to) && (from < d || d + 1 < to)
    }
}

/// Checks an exponent after its marker: an optional sign, then at least
/// one digit.
fn check_exponent(s: &str, from: usize, to: usize) -> (r: bool)
    requires
        from <= to <= s@.len(),
    ensures
        r == is_exponent(s@, from as int, to as int),
{
    let b = if from < to && { let c = s.get_char(from); c == '+' || c == '-' } {
        from + 1
    } else {
        from
    };
    b < to && check_digits(s, b, to)
}

/// Case-insensitive comparison against a lowercase letter.
fn char_ci_eq(c: char, l: char) -> (r: bool)
    ensures
        r == ci_eq(c, l),
{
    let u = c as u32;
    c == l || (65 <= u && u <= 90 && u + 32 == l as u32)
}

/// Checks for `inf`, `infinity` or `nan`, case-insensitively.
fn check_special_word(s: &str, from: usize, to: usize) -> (r: bool)
    requires
        from <= to <= s@.len(),
    ensures
        r == is_special_word(s@, from as int, to as int),
{
    if to - from == 3 {
        let c0 = s.get_char(from);
        let c1 = s.get_char(from + 1);
        let c2 = s.get_char(from + 2);
        (char_ci_eq(c0, 'i') && char_ci_eq(c1, 'n') && char_ci_eq(c2, 'f')) || (char_ci_eq(c0, 'n')
            && char_ci_eq(c1, 'a') && char_ci_eq(c2, 'n'))
    } else if to - from == 8 {
        let c0 = s.get_char(from);
        let c1 = s.get_char(from + 1);
        let c2 = s.get_char(from + 2);
        let c3 = s.get_char(from + 3);
        let c4 = s.get_char(from + 4);
        let c5 = s.get_char(from + 5);
        let c6 = s.get_char(from + 6);
        let c7 = s.get_char(from + 7);
        char_ci_eq(c0, 'i') && char_ci_eq(c1, 'n') && char_ci_eq(c2, 'f') && char_ci_eq(c3, 'i')
            && char_ci_eq(c4, 'n') && char_ci_eq(c5, 'i') && char_ci_eq(c6, 't') && char_ci_eq(
            c7,
            'y',
        )
    } else {
        false
    }
}

/// Checks a number: a mantissa, optionally followed by an exponent.
fn check_number(s: &str, from: usize, to: usize) -> (r: bool)
    requires
        from <= to <= s@.len(),
    ensures
        r == is_number_body(s@, from as int, to as int),
{
    let e = first_exp_index(s, from, to);
    if e == to {
        check_mantissa(s, from, to)
    } else {
        check_mantissa(s, from, e) && check_exponent(s, e + 1, to)
    }
}

/// Whether a literal text is a valid floating-point literal, exactly as
/// the grammar above — the host parser's own — accepts it.
pub fn is_valid_number(s: &str) -> (r: bool)
    ensures
        r == is_float_literal(s@),
{
    let n = s.unicode_len();
    let start = if n > 0 && { let c = s.get_char(0); c == '+' || c == '-' } {
        1
    } else {
        0
    };
    check_special_word(s, start, n) || check_number(s, start, n)
}

// ------------------------------------------------------------------
// The evaluator
// ------------------------------------------------------------------
/// Resolves one expression against the association list: literals are
/// checked, name references become slot references, groupings vanish.
fn resolve_expr(e: &Expr, env: &Vec<(String, usize)>, Ghost(slots): Ghost<Seq<NumTerm>>) -> (r:
    Result<NumExpr, EvalError>)
    requires
        forall|i: int| 0 <= i < env@.len() ==> (#[trigger] env@[i]).1 < slots.len(),
    ensures
        (match r {
            Ok(ne) => num_expr_wf(ne@, slots.len() as int) && eval_expr(
                e@,
                bindings_map(env@, slots),
            ) == Ok::<NumTerm, EvalErrorView>(num_term_of(ne@, slots)),
            Err(err) => eval_expr(e@, bindings_map(env@, slots)) == Err::<
                NumTerm,
                EvalErrorView,
            >(err@),
        }),
    decreases *e,
{
    match e {
        Expr::NumericLiteral { value } => {
            if is_valid_number(value.as_str()) {
                Ok(NumExpr::Literal { value: value.clone() })
            } else {
                Err(EvalError::InvalidNumber { value: value.clone() })
            }
        },
        Expr::NameReference { identifier } => {
            let name: String = match identifier {
                Token::Identifier { value } => value.clone(),
                _ => String::new(),
            };
            proof {
                assert(name@ == identifier_name(identifier@));
                lemma_env_lookup_matches_map(env@, slots, name@);
            }
            match lookup(env, &name) {
                Some(idx) => Ok(NumExpr::Slot { index: idx }),
                None => Err(EvalError::UndefinedName { name }),
            }
        },
        Expr::Grouping { expr } => resolve_expr(&**expr, env, Ghost(slots)),
        Expr::Binary { left, operator, right } => {
            match resolve_expr(&**left, env, Ghost(slots)) {
                Err(err) => Err(err),
                Ok(l) => match resolve_expr(&**right, env, Ghost(slots)) {
                    Err(err) => Err(err),
                    Ok(rr) => match operator {
                        Token::Plus | Token::Minus | Token::Astrix | Token::Slash => Ok(
                            NumExpr::Binary {
                                operator: operator.clone(),
                                left: Box::new(l),
                                right: Box::new(rr),
                            },
                        ),
                        _ => Err(EvalError::UnsupportedOperator { operator: operator.clone() }),
                    },
                },
            }
        },
    }
}

/// Evaluates a whole line's tree into its checked numeric plan.
///
/// The plan comes back if and only if every literal is valid, every name
/// reference has a prior binding, and every operator is one of the four;
/// otherwise the error is the first one met in evaluation order.  On
/// success the plan is well formed and denotes exactly the arithmetic
/// term the program evaluates to.
pub fn evaluate(program: &Program) -> (r: Result<Evaluation, EvalError>)
    ensures
        (match r {
            Ok(ev) => {
                &&& evaluation_wf(ev@)
                &&& ev@.bindings.len() == program@.statements.len()
                &&& eval_program(program@) == Ok::<NumTerm, EvalErrorView>(
                    num_term_of(ev@.result, slot_terms(ev@.bindings)),
                )
            },
            Err(e) => eval_program(program@) == Err::<NumTerm, EvalErrorView>(e@),
        }),
{
    let ghost stmts = program@.statements;
    let mut env: Vec<(String, usize)> = Vec::new();
    let mut bindings: Vec<NumExpr> = Vec::new();
    let mut i: usize = 0;
    let count = program.statements.len();
    proof {
        assert(stmts.skip(0) =~= stmts);
        assert(num_expr_views(bindings@) =~= Seq::<NumExprView>::empty());
    }
    while i < count
        invariant
            i <= count,
            count == program.statements@.len(),
            stmts == program@.statements,
            bindings@.len() == i,
            forall|k: int| 0 <= k < env@.len() ==> (#[trigger] env@[k]).1 < i,
            forall|k: int| 0 <= k < i ==> num_expr_wf(#[trigger] num_expr_views(bindings@)[k], k),
            eval_statements(stmts, Map::empty()) == eval_statements(
                stmts.skip(i as int),
                bindings_map(env@, slot_terms(num_expr_views(bindings@))),
            ),
        decreases count - i,
    {
        let ghost views = num_expr_views(bindings@);
        let ghost slots = slot_terms(views);
        let ghost m = bindings_map(env@, slots);
        proof {
            lemma_slot_terms_len(views);
            assert(stmts.skip(i as int).len() > 0);
            assert(stmts.skip(i as int)[0] == stmts[i as int]);
            assert(stmts.skip(i as int).drop_first() =~= stmts.skip(i as int + 1));
            assert(stmts[i as int] == program.statements@[i as int]@);
        }
        match &program.statements[i] {
            Stmt::NamedValue { identifier, expr } => {
                match resolve_expr(&**expr, &env, Ghost(slots)) {
                    Err(e) => {
                        return Err(e);
                    },
                    Ok(ne) => {
                        let name: String = match identifier {
                            Token::Identifier { value } => value.clone(),
                            _ => String::new(),
                        };
                        let ghost t = num_term_of(ne@, slots);
                        let ghost prev_env = env@;
                        proof {
                            assert(name@ == identifier_name(identifier@));
                            lemma_bindings_map_grow(prev_env, slots, t);
                            lemma_num_term_of_grow(ne@, slots, t);
                        }
                        let idx = bindings.len();
                        bindings.push(ne);
                        env.push((name, idx));
                        proof {
                            let newb = num_expr_views(bindings@);
                            assert(newb =~= views.push(ne@));
                            assert(newb.drop_last() =~= views);
                            assert(newb.last() == ne@);
                            let slots2 = slot_terms(newb);
                            assert(slots2 == slots.push(t));
                            assert(env@.drop_last() =~= prev_env);
                            assert(env@.last() == (name, idx));
                            assert(slot_term(slots2, idx as int) == t);
                            assert(bindings_map(env@, slots2) == bindings_map(
                                prev_env,
                                slots2,
                            ).insert(name@, t));
                            assert(bindings_map(prev_env, slots2) == m);
                            assert(bindings_map(env@, slots2) == m.insert(
                                identifier_name(identifier@),
                                t,
                            ));
                            assert forall|k: int| 0 <= k < i + 1 implies num_expr_wf(
                                #[trigger] newb[k],
                                k,
                            ) by {
                                if k < i {
                                    assert(newb[k] == views[k]);
                                } else {
                                    assert(newb[k] == ne@);
                                    assert(slots.len() == i);
                                }
                            }
                        }
                        i = i + 1;
                    },
                }
            },
        }
    }
    let ghost views = num_expr_views(bindings@);
    let ghost slots = slot_terms(views);
    proof {
        lemma_slot_terms_len(views);
        assert(stmts.skip(i as int).len() == 0);
    }
    match resolve_expr(&program.expr, &env, Ghost(slots)) {
        Err(e) => Err(e),
        Ok(res) => {
            proof {
                assert(slots.len() == views.len());
            }
            Ok(Evaluation { bindings, result: res })
        },
    }
}

} // verus!
