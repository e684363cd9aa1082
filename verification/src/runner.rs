//! Running one line: scanner, parser and evaluator in order.
//!
//! Data flows one way, `text -> tokens -> tree -> plan`; the first failure
//! of any stage aborts the rest of the pipeline for that line and is
//! surfaced unchanged, wrapped only with the stage it came from.  No state
//! survives from one line to the next.

use vstd::prelude::*;

use crate::ast::ParseError;
use crate::ast::ParseErrorView;
use crate::ast::ProgramView;
use crate::ast::lemma_grouping_overrides_precedence;
use crate::ast::lemma_additive_left_associativity;
use crate::ast::lemma_multiplication_binds_tighter;
use crate::ast::spec_program;
use crate::ast::parse;
use crate::interpreter::EvalError;
use crate::interpreter::EvalErrorView;
use crate::interpreter::Evaluation;
use crate::interpreter::NumTerm;
use crate::interpreter::eval_program;
use crate::interpreter::evaluate;
use crate::interpreter::evaluation_wf;
use crate::interpreter::is_float_literal;
use crate::interpreter::num_term_of;
use crate::interpreter::slot_terms;
use crate::scanner::LexError;
use crate::scanner::LexErrorView;
use crate::scanner::TokenView;
use crate::scanner::scan;
use crate::scanner::tokenize;

verus! {

/// The first failure of any stage, wrapped with the stage it came from.
#[derive(Debug, PartialEq, Eq)]
#[allow(inconsistent_fields)]
pub enum LineError {
    Lex { error: LexError },
    Parse { error: ParseError },
    Eval { error: EvalError },
}

/// The mathematical model of a [`LineError`].
#[allow(inconsistent_fields)]
pub ghost enum LineErrorView {
    Lex { error: LexErrorView },
    Parse { error: ParseErrorView },
    Eval { error: EvalErrorView },
}

impl View for LineError {
    type V = LineErrorView;

    open spec fn view(&self) -> LineErrorView {
        match self {
            LineError::Lex { error } => LineErrorView::Lex { error: error@ },
            LineError::Parse { error } => LineErrorView::Parse { error: error@ },
            LineError::Eval { error } => LineErrorView::Eval { error: error@ },
        }
    }
}

/// What running a whole line of text yields: the arithmetic term the line
/// denotes, or the first error any stage meets.  Scanning never fails, so
/// the first possible failure is the parser's.
pub open spec fn line_result(s: Seq<char>) -> Result<NumTerm, LineErrorView> {
    match spec_program(scan(s, 0)) {
        Err(p) => Err(LineErrorView::Parse { error: p }),
        Ok(pv) => match eval_program(pv) {
            Err(e) => Err(LineErrorView::Eval { error: e }),
            Ok(t) => Ok(t),
        },
    }
}

/// Runs one line of text through the scanner, the parser and the
/// evaluator, propagating the first error without recovery.
///
/// On success the returned plan is well formed and denotes exactly the
/// arithmetic term the line stands for; on failure the error is exactly
/// the first one of the pipeline, and nothing else comes back.
pub fn evaluate_line(line: &str) -> (r: Result<Evaluation, LineError>)
    ensures
        (match r {
            Ok(ev) => evaluation_wf(ev@) && line_result(line@) == Ok::<NumTerm, LineErrorView>(
                num_term_of(ev@.result, slot_terms(ev@.bindings)),
            ),
            Err(le) => line_result(line@) == Err::<NumTerm, LineErrorView>(le@),
        }),
{
    let tokens = match tokenize(line) {
        Ok(t) => t,
        Err(e) => {
            return Err(LineError::Lex { error: e });
        },
    };
    let ast = match parse(&tokens) {
        Ok(p) => p,
        Err(e) => {
            return Err(LineError::Parse { error: e });
        },
    };
    match evaluate(&ast) {
        Ok(ev) => Ok(ev),
        Err(e) => Err(LineError::Eval { error: e }),
    }
}

// ------------------------------------------------------------------
// Laws of the whole pipeline
// ------------------------------------------------------------------
/// The arithmetic term a one-expression program denotes, when all three
/// literal texts are valid.
proof fn lemma_expression_program_term(p: ProgramView, t: NumTerm)
    requires
        p.statements.len() == 0,
        eval_expr_law_holds(p.expr, t),
    ensures
        eval_program(p) == Ok::<NumTerm, EvalErrorView>(t),
{
    assert(crate::interpreter::eval_statements(p.statements, Map::empty()) == Ok::<
        Map<Seq<char>, NumTerm>,
        EvalErrorView,
    >(Map::empty()));
}

/// Whether an expression (with no name references) evaluates to the
/// given term under the empty environment.
spec fn eval_expr_law_holds(e: crate::ast::ExprView, t: NumTerm) -> bool {
    crate::interpreter::eval_expr(e, Map::empty()) == Ok::<NumTerm, EvalErrorView>(t)
}

/// Precedence, through the whole pipeline: the tokens of `a ⊕ b ⊗ c`
/// (with `⊕` one of `+ -`, `⊗` one of `* /`, and valid literal texts)
/// denote the term `a ⊕ (b ⊗ c)`: the product is computed first and the
/// sum over its result, never the other way round.
pub proof fn lemma_precedence_in_evaluation(
    a: Seq<char>,
    b: Seq<char>,
    c: Seq<char>,
    add_op: TokenView,
    mul_op: TokenView,
)
    requires
        add_op is Plus || add_op is Minus,
        mul_op is Astrix || mul_op is Slash,
        is_float_literal(a),
        is_float_literal(b),
        is_float_literal(c),
    ensures
        ({
            let ts = seq![
                TokenView::NumericLiteral { value: a },
                add_op,
                TokenView::NumericLiteral { value: b },
                mul_op,
                TokenView::NumericLiteral { value: c },
            ];
            &&& spec_program(ts) matches Ok(p)
            &&& spec_program(ts) matches Ok(p) ==> eval_program(p) == Ok::<
                NumTerm,
                EvalErrorView,
            >(
                NumTerm::Binary {
                    operator: add_op,
                    left: Box::new(NumTerm::Literal { value: a }),
                    right: Box::new(
                        NumTerm::Binary {
                            operator: mul_op,
                            left: Box::new(NumTerm::Literal { value: b }),
                            right: Box::new(NumTerm::Literal { value: c }),
                        },
                    ),
                },
            )
        }),
{
    lemma_multiplication_binds_tighter(a, b, c, add_op, mul_op);
    let ts = seq![
        TokenView::NumericLiteral { value: a },
        add_op,
        TokenView::NumericLiteral { value: b },
        mul_op,
        TokenView::NumericLiteral { value: c },
    ];
    let p = spec_program(ts)->Ok_0;
    reveal_with_fuel(crate::interpreter::eval_expr, 5);
    let t = NumTerm::Binary {
        operator: add_op,
        left: Box::new(NumTerm::Literal { value: a }),
        right: Box::new(
            NumTerm::Binary {
                operator: mul_op,
                left: Box::new(NumTerm::Literal { value: b }),
                right: Box::new(NumTerm::Literal { value: c }),
            },
        ),
    };
    assert(eval_expr_law_holds(p.expr, t));
    lemma_expression_program_term(p, t);
}

/// Left-associativity, through the whole pipeline: the tokens of
/// `a ⊕ b ⊕' c` (both operators from `+ -`, valid literal texts) denote
/// the term `(a ⊕ b) ⊕' c`: the left operation is computed first.
pub proof fn lemma_left_associativity_in_evaluation(
    a: Seq<char>,
    b: Seq<char>,
    c: Seq<char>,
    op1: TokenView,
    op2: TokenView,
)
    requires
        op1 is Plus || op1 is Minus,
        op2 is Plus || op2 is Minus,
        is_float_literal(a),
        is_float_literal(b),
        is_float_literal(c),
    ensures
        ({
            let ts = seq![
                TokenView::NumericLiteral { value: a },
                op1,
                TokenView::NumericLiteral { value: b },
                op2,
                TokenView::NumericLiteral { value: c },
            ];
            &&& spec_program(ts) matches Ok(p)
            &&& spec_program(ts) matches Ok(p) ==> eval_program(p) == Ok::<
                NumTerm,
                EvalErrorView,
            >(
                NumTerm::Binary {
                    operator: op2,
                    left: Box::new(
                        NumTerm::Binary {
                            operator: op1,
                            left: Box::new(NumTerm::Literal { value: a }),
                            right: Box::new(NumTerm::Literal { value: b }),
                        },
                    ),
                    right: Box::new(NumTerm::Literal { value: c }),
                },
            )
        }),
{
    lemma_additive_left_associativity(a, b, c, op1, op2);
    let ts = seq![
        TokenView::NumericLiteral { value: a },
        op1,
        TokenView::NumericLiteral { value: b },
        op2,
        TokenView::NumericLiteral { value: c },
    ];
    let p = spec_program(ts)->Ok_0;
    reveal_with_fuel(crate::interpreter::eval_expr, 5);
    let t = NumTerm::Binary {
        operator: op2,
        left: Box::new(
            NumTerm::Binary {
                operator: op1,
                left: Box::new(NumTerm::Literal { value: a }),
                right: Box::new(NumTerm::Literal { value: b }),
            },
        ),
        right: Box::new(NumTerm::Literal { value: c }),
    };
    assert(eval_expr_law_holds(p.expr, t));
    lemma_expression_program_term(p, t);
}

/// Grouping, through the whole pipeline: the tokens of `( a ⊕ b ) ⊗ c`
/// (valid literal texts) denote the term `(a ⊕ b) ⊗ c`: the grouped sum
/// is computed whole, and the grouping itself leaves no trace in the
/// term.
pub proof fn lemma_grouping_in_evaluation(
    a: Seq<char>,
    b: Seq<char>,
    c: Seq<char>,
    add_op: TokenView,
    mul_op: TokenView,
)
    requires
        add_op is Plus || add_op is Minus,
        mul_op is Astrix || mul_op is Slash,
        is_float_literal(a),
        is_float_literal(b),
        is_float_literal(c),
    ensures
        ({
            let ts = seq![
                TokenView::OpenParen,
                TokenView::NumericLiteral { value: a },
                add_op,
                TokenView::NumericLiteral { value: b },
                TokenView::CloseParen,
                mul_op,
                TokenView::NumericLiteral { value: c },
            ];
            &&& spec_program(ts) matches Ok(p)
            &&& spec_program(ts) matches Ok(p) ==> eval_program(p) == Ok::<
                NumTerm,
                EvalErrorView,
            >(
                NumTerm::Binary {
                    operator: mul_op,
                    left: Box::new(
                        NumTerm::Binary {
                            operator: add_op,
                            left: Box::new(NumTerm::Literal { value: a }),
                            right: Box::new(NumTerm::Literal { value: b }),
                        },
                    ),
                    right: Box::new(NumTerm::Literal { value: c }),
                },
            )
        }),
{
    lemma_grouping_overrides_precedence(a, b, c, add_op, mul_op);
    let ts = seq![
        TokenView::OpenParen,
        TokenView::NumericLiteral { value: a },
        add_op,
        TokenView::NumericLiteral { value: b },
        TokenView::CloseParen,
        mul_op,
        TokenView::NumericLiteral { value: c },
    ];
    let p = spec_program(ts)->Ok_0;
    reveal_with_fuel(crate::interpreter::eval_expr, 6);
    let t = NumTerm::Binary {
        operator: mul_op,
        left: Box::new(
            NumTerm::Binary {
                operator: add_op,
                left: Box::new(NumTerm::Literal { value: a }),
                right: Box::new(NumTerm::Literal { value: b }),
            },
        ),
        right: Box::new(NumTerm::Literal { value: c }),
    };
    assert(eval_expr_law_holds(p.expr, t));
    lemma_expression_program_term(p, t);
}

} // verus!
