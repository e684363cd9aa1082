//! The parser: a token sequence to an expression/statement tree.
//!
//! Parsing is recursive descent with one token of lookahead, over the
//! grammar (lowest to highest precedence)
//!
//! ```text
//! program    := statement* expression
//! statement  := "def" identifier "=" expression ";"
//! expression := term
//! term       := factor (("+" | "-") factor)*      left-associative
//! factor     := primary (("*" | "/") primary)*    left-associative
//! primary    := numeric_literal | identifier | "(" expression ")"
//! ```
//!
//! Left-associativity comes from folding: each repetition combines the
//! previously built left subtree with the newly parsed right-hand operand
//! under a fresh binary node.  The position is carried as an explicit
//! cursor value; a position at or past the end of the sequence is treated
//! exactly like an explicit end-of-input token.

use vstd::prelude::*;

use crate::scanner::Token;
use crate::scanner::TokenView;
use crate::scanner::token_views;

verus! {

/// A statement: a name bound to the result of evaluating an expression,
/// visible to everything that follows it on the same line.
#[derive(Debug, PartialEq, Eq)]
pub enum Stmt {
    NamedValue { identifier: Token, expr: Box<Expr> },
}

/// An expression tree.
///
/// Numeric literals carry the exact source substring; the text is parsed
/// to a number only at evaluation time.  A grouping node records a
/// parenthesized sub-expression; it affects only the parse shape, never
/// the evaluation.  A name reference reads a value bound by an earlier
/// statement.
#[derive(Debug, PartialEq, Eq)]
pub enum Expr {
    Binary { left: Box<Expr>, operator: Token, right: Box<Expr> },
    Grouping { expr: Box<Expr> },
    NumericLiteral { value: String },
    NameReference { identifier: Token },
}

/// A whole line: zero or more statements followed by exactly one trailing
/// expression, whose value is the line's result.
#[derive(Debug)]
pub struct Program {
    pub statements: Vec<Stmt>,
    pub expr: Expr,
}

/// The mathematical model of an [`Expr`].
pub ghost enum ExprView {
    Binary { left: Box<ExprView>, operator: TokenView, right: Box<ExprView> },
    Grouping { expr: Box<ExprView> },
    NumericLiteral { value: Seq<char> },
    NameReference { identifier: TokenView },
}

/// The mathematical model of a [`Stmt`].
pub ghost enum StmtView {
    NamedValue { identifier: TokenView, expr: ExprView },
}

/// The mathematical model of a [`Program`].
pub ghost struct ProgramView {
    pub statements: Seq<StmtView>,
    pub expr: ExprView,
}

pub open spec fn expr_view(e: Expr) -> ExprView
    decreases e,
{
    match e {
        Expr::Binary { left, operator, right } => ExprView::Binary {
            left: Box::new(expr_view(*left)),
            operator: operator@,
            right: Box::new(expr_view(*right)),
        },
        Expr::Grouping { expr } => ExprView::Grouping { expr: Box::new(expr_view(*expr)) },
        Expr::NumericLiteral { value } => ExprView::NumericLiteral { value: value@ },
        Expr::NameReference { identifier } => ExprView::NameReference { identifier: identifier@ },
    }
}

impl View for Expr {
    type V = ExprView;

    open spec fn view(&self) -> ExprView {
        expr_view(*self)
    }
}

impl View for Stmt {
    type V = StmtView;

    open spec fn view(&self) -> StmtView {
        match *self {
            Stmt::NamedValue { identifier, expr } => StmtView::NamedValue {
                identifier: identifier@,
                expr: expr_view(*expr),
            },
        }
    }
}

/// The statement sequence that a sequence of statements models.
pub open spec fn stmt_views(ss: Seq<Stmt>) -> Seq<StmtView> {
    ss.map_values(|s: Stmt| s@)
}

impl View for Program {
    type V = ProgramView;

    open spec fn view(&self) -> ProgramView {
        ProgramView { statements: stmt_views(self.statements@), expr: expr_view(self.expr) }
    }
}

/// A parsing failure; each variant carries the offending token where
/// there is one.  The first failure aborts parsing; no partial tree is
/// ever returned.
#[derive(Debug, PartialEq, Eq)]
pub enum ParseError {
    /// A primary expression was expected but the tokens were exhausted.
    UnexpectedEndOfInput,
    /// A primary expression was expected but another token stood there.
    UnexpectedToken { token: Token },
    /// A `def` binding misses its identifier, its `=`, or its `;`.
    MalformedStatement { token: Token },
    /// A `(` without its matching `)`.
    UnclosedGroup { token: Token },
}

/// The mathematical model of a [`ParseError`].
pub ghost enum ParseErrorView {
    UnexpectedEndOfInput,
    UnexpectedToken { token: TokenView },
    MalformedStatement { token: TokenView },
    UnclosedGroup { token: TokenView },
}

impl View for ParseError {
    type V = ParseErrorView;

    open spec fn view(&self) -> ParseErrorView {
        match self {
            ParseError::UnexpectedEndOfInput => ParseErrorView::UnexpectedEndOfInput,
            ParseError::UnexpectedToken { token } => ParseErrorView::UnexpectedToken {
                token: token@,
            },
            ParseError::MalformedStatement { token } => ParseErrorView::MalformedStatement {
                token: token@,
            },
            ParseError::UnclosedGroup { token } => ParseErrorView::UnclosedGroup { token: token@ },
        }
    }
}

impl ParseError {
    /// A short description of the failure.
    pub fn message(&self) -> (r: &'static str)
        ensures
            (match self {
                ParseError::UnexpectedEndOfInput => r@ == "Unexpected end of file"@,
                ParseError::UnexpectedToken { .. } => r@ == "Unexpected token"@,
                ParseError::MalformedStatement { .. } => r@ == "Malformed named-value definition"@,
                ParseError::UnclosedGroup { .. } => r@ == "Expected to find Close Parentheses"@,
            }),
    {
        match self {
            ParseError::UnexpectedEndOfInput => "Unexpected end of file",
            ParseError::UnexpectedToken { .. } => "Unexpected token",
            ParseError::MalformedStatement { .. } => "Malformed named-value definition",
            ParseError::UnclosedGroup { .. } => "Expected to find Close Parentheses",
        }
    }
}

/// The token at position `i`; any position past the end stands for the
/// end-of-input marker.
pub open spec fn at(ts: Seq<TokenView>, i: int) -> TokenView {
    if 0 <= i && i < ts.len() {
        ts[i]
    } else {
        TokenView::EOF
    }
}

/// Whether position `i` lies at the end of the sequence, either past the
/// last token or on an explicit end-of-input marker.
pub open spec fn spec_is_eos(ts: Seq<TokenView>, i: int) -> bool {
    at(ts, i) is EOF
}

/// What parsing a `primary` at position `i` yields: the parsed expression
/// and the position after it, or the first error.
pub open spec fn spec_primary(ts: Seq<TokenView>, i: int) -> Result<
    (ExprView, int),
    ParseErrorView,
>
    decreases ts.len() - i, 0int,
{
    let t = at(ts, i);
    match t {
        TokenView::EOF => Err(ParseErrorView::UnexpectedEndOfInput),
        TokenView::NumericLiteral { value } => Ok((ExprView::NumericLiteral { value }, i + 1)),
        TokenView::Identifier { .. } => Ok((ExprView::NameReference { identifier: t }, i + 1)),
        TokenView::OpenParen => match spec_expression(ts, i + 1) {
            Err(e) => Err(e),
            Ok((inner, j)) => if at(ts, j) is CloseParen {
                Ok((ExprView::Grouping { expr: Box::new(inner) }, j + 1))
            } else {
                Err(ParseErrorView::UnclosedGroup { token: at(ts, j) })
            },
        },
        _ => Err(ParseErrorView::UnexpectedToken { token: t }),
    }
}

/// What parsing a `factor` at position `i` yields: a `primary`, then a
/// left-associative fold over `*` and `/`.
pub open spec fn spec_factor(ts: Seq<TokenView>, i: int) -> Result<
    (ExprView, int),
    ParseErrorView,
>
    decreases ts.len() - i, 2int,
{
    match spec_primary(ts, i) {
        Err(e) => Err(e),
        Ok((first, j)) => if i < j && j <= ts.len() {
            spec_factor_more(ts, first, j)
        } else {
            Err(ParseErrorView::UnexpectedEndOfInput)
        },
    }
}

/// The left-associative fold of `factor`: while the current token is `*`
/// or `/`, combine the tree built so far with the next `primary`.
pub open spec fn spec_factor_more(ts: Seq<TokenView>, acc: ExprView, i: int) -> Result<
    (ExprView, int),
    ParseErrorView,
>
    decreases ts.len() - i, 1int,
{
    let op = at(ts, i);
    if op is Astrix || op is Slash {
        match spec_primary(ts, i + 1) {
            Err(e) => Err(e),
            Ok((rhs, j)) => if i < j && j <= ts.len() {
                spec_factor_more(
                    ts,
                    ExprView::Binary {
                        left: Box::new(acc),
                        operator: op,
                        right: Box::new(rhs),
                    },
                    j,
                )
            } else {
                Err(ParseErrorView::UnexpectedEndOfInput)
            },
        }
    } else {
        Ok((acc, i))
    }
}

/// What parsing a `term` at position `i` yields: a `factor`, then a
/// left-associative fold over `+` and `-`.
pub open spec fn spec_term(ts: Seq<TokenView>, i: int) -> Result<(ExprView, int), ParseErrorView>
    decreases ts.len() - i, 4int,
{
    match spec_factor(ts, i) {
        Err(e) => Err(e),
        Ok((first, j)) => if i < j && j <= ts.len() {
            spec_term_more(ts, first, j)
        } else {
            Err(ParseErrorView::UnexpectedEndOfInput)
        },
    }
}

/// The left-associative fold of `term`: while the current token is `+`
/// or `-`, combine the tree built so far with the next `factor`.
pub open spec fn spec_term_more(ts: Seq<TokenView>, acc: ExprView, i: int) -> Result<
    (ExprView, int),
    ParseErrorView,
>
    decreases ts.len() - i, 3int,
{
    let op = at(ts, i);
    if op is Plus || op is Minus {
        match spec_factor(ts, i + 1) {
            Err(e) => Err(e),
            Ok((rhs, j)) => if i < j && j <= ts.len() {
                spec_term_more(
                    ts,
                    ExprView::Binary {
                        left: Box::new(acc),
                        operator: op,
                        right: Box::new(rhs),
                    },
                    j,
                )
            } else {
                Err(ParseErrorView::UnexpectedEndOfInput)
            },
        }
    } else {
        Ok((acc, i))
    }
}

/// What parsing an `expression` at position `i` yields; an expression is
/// exactly a `term`.
pub open spec fn spec_expression(ts: Seq<TokenView>, i: int) -> Result<
    (ExprView, int),
    ParseErrorView,
>
    decreases ts.len() - i, 5int,
{
    spec_term(ts, i)
}

/// What parsing a `def name = expression ;` statement at position `i`
/// yields.  Position `i` holds the `def` keyword itself.
pub open spec fn spec_statement(ts: Seq<TokenView>, i: int) -> Result<
    (StmtView, int),
    ParseErrorView,
>
    decreases ts.len() - i, 6int,
{
    let id = at(ts, i + 1);
    if !(id is Identifier) {
        Err(ParseErrorView::MalformedStatement { token: id })
    } else if !(at(ts, i + 2) is Equal) {
        Err(ParseErrorView::MalformedStatement { token: at(ts, i + 2) })
    } else {
        match spec_expression(ts, i + 3) {
            Err(e) => Err(e),
            Ok((e, j)) => if at(ts, j) is SemiColon {
                Ok((StmtView::NamedValue { identifier: id, expr: e }, j + 1))
            } else {
                Err(ParseErrorView::MalformedStatement { token: at(ts, j) })
            },
        }
    }
}

/// What parsing the leading statements from position `i` yields: one
/// statement for each leading `def`, and the position of the first token
/// that starts the trailing expression.
pub open spec fn spec_statements(ts: Seq<TokenView>, i: int) -> Result<
    (Seq<StmtView>, int),
    ParseErrorView,
>
    decreases ts.len() - i, 7int,
{
    if at(ts, i) is Def {
        match spec_statement(ts, i) {
            Err(e) => Err(e),
            Ok((st, j)) => if i < j && j <= ts.len() {
                match spec_statements(ts, j) {
                    Err(e) => Err(e),
                    Ok((rest, k)) => Ok((seq![st] + rest, k)),
                }
            } else {
                Err(ParseErrorView::UnexpectedEndOfInput)
            },
        }
    } else {
        Ok((Seq::empty(), i))
    }
}

/// What parsing a whole token sequence yields: the statements, then the
/// trailing expression.  Tokens after the trailing expression are left
/// unread, exactly as the cursor leaves them.
pub open spec fn spec_program(ts: Seq<TokenView>) -> Result<ProgramView, ParseErrorView> {
    match spec_statements(ts, 0) {
        Err(e) => Err(e),
        Ok((stmts, j)) => match spec_expression(ts, j) {
            Err(e) => Err(e),
            Ok((e, k)) => Ok(ProgramView { statements: stmts, expr: e }),
        },
    }
}

/// The model of one parsing step's outcome: tree and next position, or
/// the error.
pub open spec fn expr_step_view(r: Result<(Expr, usize), ParseError>) -> Result<
    (ExprView, int),
    ParseErrorView,
> {
    match r {
        Ok(p) => Ok((p.0@, p.1 as int)),
        Err(e) => Err(e@),
    }
}

/// The model of a whole parse's outcome.
pub open spec fn parse_result_view(r: Result<Program, ParseError>) -> Result<
    ProgramView,
    ParseErrorView,
> {
    match r {
        Ok(p) => Ok(p@),
        Err(e) => Err(e@),
    }
}

/// The token at position `i`, with every position past the end read as
/// the end-of-input marker.
fn peek(tokens: &Vec<Token>, i: usize) -> (t: Token)
    ensures
        t@ == at(token_views(tokens@), i as int),
{
    if i < tokens.len() {
        tokens[i].clone()
    } else {
        Token::EOF
    }
}

/// Whether the cursor has reached the end of the tokens: past the last
/// one, or on an explicit end-of-input marker.
fn is_eos(tokens: &Vec<Token>, current: usize) -> (r: bool)
    ensures
        r == spec_is_eos(token_views(tokens@), current as int),
{
    if tokens.len() <= current {
        true
    } else {
        matches!(tokens[current], Token::EOF)
    }
}

/// Turns a numeric-literal token into the leaf expression that carries
/// its text verbatim.
fn literal(token: &Token) -> (r: Result<Expr, ParseError>)
    ensures
        (match token@ {
            TokenView::NumericLiteral { value } => r matches Ok(e) && e@ == (
            ExprView::NumericLiteral { value }),
            _ => r matches Err(err) && err@ == (ParseErrorView::UnexpectedToken {
                token: token@,
            }),
        }),
{
    match token {
        Token::NumericLiteral { value } => Ok(Expr::NumericLiteral { value: value.clone() }),
        _ => Err(ParseError::UnexpectedToken { token: token.clone() }),
    }
}

/// Parses a `primary`: a numeric literal, a name reference, or a
/// parenthesized expression.
fn primary(tokens: &Vec<Token>, current: usize) -> (r: Result<(Expr, usize), ParseError>)
    requires
        current <= tokens@.len(),
    ensures
        expr_step_view(r) == spec_primary(token_views(tokens@), current as int),
        r matches Ok(p) ==> current < p.1 <= tokens@.len(),
    decreases tokens@.len() - current, 0int,
{
    let ghost ts = token_views(tokens@);
    let n = tokens.len();
    if is_eos(tokens, current) {
        return Err(ParseError::UnexpectedEndOfInput);
    }
    let t = peek(tokens, current);
    match t {
        Token::NumericLiteral { .. } => {
            proof {
                assert(at(ts, current as int) is NumericLiteral);
            }
            match literal(&t) {
                Ok(e) => Ok((e, current + 1)),
                Err(err) => Err(err),
            }
        },
        Token::Identifier { .. } => {
            proof {
                assert(at(ts, current as int) is Identifier);
            }
            Ok((Expr::NameReference { identifier: t }, current + 1))
        },
        Token::OpenParen => {
            proof {
                assert(at(ts, current as int) is OpenParen);
            }
            match expression(tokens, current + 1) {
                Err(e) => Err(e),
                Ok((inner, j)) => {
                    let close = peek(tokens, j);
                    match close {
                        Token::CloseParen => Ok((Expr::Grouping { expr: Box::new(inner) }, j + 1)),
                        _ => Err(ParseError::UnclosedGroup { token: close }),
                    }
                },
            }
        },
        Token::EOF => Err(ParseError::UnexpectedEndOfInput),
        _ => Err(ParseError::UnexpectedToken { token: t }),
    }
}

/// Parses a `factor`: a `primary`, then a left-associative fold over `*`
/// and `/`.
fn factor(tokens: &Vec<Token>, current: usize) -> (r: Result<(Expr, usize), ParseError>)
    requires
        current <= tokens@.len(),
    ensures
        expr_step_view(r) == spec_factor(token_views(tokens@), current as int),
        r matches Ok(p) ==> current < p.1 <= tokens@.len(),
    decreases tokens@.len() - current, 2int,
{
    let ghost ts = token_views(tokens@);
    let n = tokens.len();
    match primary(tokens, current) {
        Err(e) => Err(e),
        Ok((first, j0)) => {
            let mut expr = first;
            let mut used = j0;
            let mut t = peek(tokens, used);
            while matches!(t, Token::Astrix | Token::Slash)
                invariant
                    current < used <= n,
                    n == tokens@.len(),
                    ts == token_views(tokens@),
                    t@ == at(ts, used as int),
                    spec_factor_more(ts, expr@, used as int) == spec_factor(ts, current as int),
                ensures
                    current < used <= n,
                    t@ == at(ts, used as int),
                    !(t@ is Astrix) && !(t@ is Slash),
                    spec_factor_more(ts, expr@, used as int) == spec_factor(ts, current as int),
                decreases n - used,
            {
                proof {
                    assert(at(ts, used as int) is Astrix || at(ts, used as int) is Slash);
                }
                let op_token = t;
                match primary(tokens, used + 1) {
                    Err(e) => return Err(e),
                    Ok((rhs, k)) => {
                        expr = Expr::Binary {
                            left: Box::new(expr),
                            operator: op_token,
                            right: Box::new(rhs),
                        };
                        used = k;
                    },
                }
                t = peek(tokens, used);
            }
            Ok((expr, used))
        },
    }
}

/// Parses a `term`: a `factor`, then a left-associative fold over `+`
/// and `-`.
fn term(tokens: &Vec<Token>, current: usize) -> (r: Result<(Expr, usize), ParseError>)
    requires
        current <= tokens@.len(),
    ensures
        expr_step_view(r) == spec_term(token_views(tokens@), current as int),
        r matches Ok(p) ==> current < p.1 <= tokens@.len(),
    decreases tokens@.len() - current, 4int,
{
    let ghost ts = token_views(tokens@);
    let n = tokens.len();
    match factor(tokens, current) {
        Err(e) => Err(e),
        Ok((first, j0)) => {
            let mut expr = first;
            let mut used = j0;
            let mut t = peek(tokens, used);
            while matches!(t, Token::Plus | Token::Minus)
                invariant
                    current < used <= n,
                    n == tokens@.len(),
                    ts == token_views(tokens@),
                    t@ == at(ts, used as int),
                    spec_term_more(ts, expr@, used as int) == spec_term(ts, current as int),
                ensures
                    current < used <= n,
                    t@ == at(ts, used as int),
                    !(t@ is Plus) && !(t@ is Minus),
                    spec_term_more(ts, expr@, used as int) == spec_term(ts, current as int),
                decreases n - used,
            {
                proof {
                    assert(at(ts, used as int) is Plus || at(ts, used as int) is Minus);
                }
                let op_token = t;
                match factor(tokens, used + 1) {
                    Err(e) => return Err(e),
                    Ok((rhs, k)) => {
                        expr = Expr::Binary {
                            left: Box::new(expr),
                            operator: op_token,
                            right: Box::new(rhs),
                        };
                        used = k;
                    },
                }
                t = peek(tokens, used);
            }
            Ok((expr, used))
        },
    }
}

/// Parses an `expression`; an expression is exactly a `term`.
fn expression(tokens: &Vec<Token>, current: usize) -> (r: Result<(Expr, usize), ParseError>)
    requires
        current <= tokens@.len(),
    ensures
        expr_step_view(r) == spec_expression(token_views(tokens@), current as int),
        r matches Ok(p) ==> current < p.1 <= tokens@.len(),
    decreases tokens@.len() - current, 5int,
{
    term(tokens, current)
}

/// Parses one `def name = expression ;` statement whose `def` keyword
/// stands at `current`.
fn named_value_definition(tokens: &Vec<Token>, current: usize) -> (r: Result<
    (Stmt, usize),
    ParseError,
>)
    requires
        current <= tokens@.len(),
        at(token_views(tokens@), current as int) is Def,
    ensures
        (match r {
            Ok(p) => spec_statement(token_views(tokens@), current as int) == Ok::<
                (StmtView, int),
                ParseErrorView,
            >((p.0@, p.1 as int)) && current < p.1 <= tokens@.len(),
            Err(e) => spec_statement(token_views(tokens@), current as int) == Err::<
                (StmtView, int),
                ParseErrorView,
            >(e@),
        }),
{
    let ghost ts = token_views(tokens@);
    let n = tokens.len();
    proof {
        assert(current < n);
    }
    let id = peek(tokens, current + 1);
    match id {
        Token::Identifier { .. } => {},
        _ => {
            return Err(ParseError::MalformedStatement { token: id });
        },
    }
    proof {
        assert(at(ts, current as int + 1) is Identifier);
        assert(current + 1 < n);
    }
    let eq = peek(tokens, current + 2);
    match eq {
        Token::Equal => {},
        _ => {
            return Err(ParseError::MalformedStatement { token: eq });
        },
    }
    proof {
        assert(at(ts, current as int + 2) is Equal);
        assert(current + 2 < n);
    }
    match expression(tokens, current + 3) {
        Err(e) => Err(e),
        Ok((e, j)) => {
            let semi = peek(tokens, j);
            match semi {
                Token::SemiColon => {
                    proof {
                        assert(at(ts, j as int) is SemiColon);
                    }
                    Ok((Stmt::NamedValue { identifier: id, expr: Box::new(e) }, j + 1))
                },
                _ => Err(ParseError::MalformedStatement { token: semi }),
            }
        },
    }
}

/// Recognizes a statement: one is parsed exactly when the current token
/// is the `def` keyword; any other token ends statement scanning.
fn statement(tokens: &Vec<Token>, current: usize) -> (r: Result<Option<(Stmt, usize)>, ParseError>)
    requires
        current <= tokens@.len(),
    ensures
        (match r {
            Ok(Some(p)) => at(token_views(tokens@), current as int) is Def && spec_statement(
                token_views(tokens@),
                current as int,
            ) == Ok::<(StmtView, int), ParseErrorView>((p.0@, p.1 as int)) && current < p.1
                <= tokens@.len(),
            Ok(None) => !(at(token_views(tokens@), current as int) is Def),
            Err(e) => at(token_views(tokens@), current as int) is Def && spec_statement(
                token_views(tokens@),
                current as int,
            ) == Err::<(StmtView, int), ParseErrorView>(e@),
        }),
{
    let t = peek(tokens, current);
    match t {
        Token::Def => match named_value_definition(tokens, current) {
            Ok(p) => Ok(Some(p)),
            Err(e) => Err(e),
        },
        _ => Ok(None),
    }
}

/// Parses a whole token sequence: zero or more statements followed by
/// exactly one trailing expression.
///
/// The result models the parse of the token sequence exactly: the tree
/// comes back if and only if the grammar accepts the tokens, and
/// otherwise the error is the first one the cursor meets.
pub fn parse(tokens: &Vec<Token>) -> (r: Result<Program, ParseError>)
    ensures
        parse_result_view(r) == spec_program(token_views(tokens@)),
{
    let ghost ts = token_views(tokens@);
    let n = tokens.len();
    let mut statements: Vec<Stmt> = Vec::new();
    let mut used: usize = 0;
    loop
        invariant
            used <= n,
            n == tokens@.len(),
            ts == token_views(tokens@),
            spec_statements(ts, 0) == (match spec_statements(ts, used as int) {
                Ok(p) => Ok::<(Seq<StmtView>, int), ParseErrorView>(
                    (stmt_views(statements@) + p.0, p.1),
                ),
                Err(e) => Err::<(Seq<StmtView>, int), ParseErrorView>(e),
            }),
        ensures
            used <= n,
            spec_statements(ts, 0) == Ok::<(Seq<StmtView>, int), ParseErrorView>(
                (stmt_views(statements@), used as int),
            ),
        decreases n - used,
    {
        if is_eos(tokens, used) {
            proof {
                assert(stmt_views(statements@) + Seq::<StmtView>::empty() =~= stmt_views(
                    statements@,
                ));
            }
            break;
        }
        match statement(tokens, used) {
            Err(e) => {
                return Err(e);
            },
            Ok(None) => {
                proof {
                    assert(stmt_views(statements@) + Seq::<StmtView>::empty() =~= stmt_views(
                        statements@,
                    ));
                }
                break;
            },
            Ok(Some((st, next))) => {
                proof {
                    let before = stmt_views(statements@);
                    assert(stmt_views(statements@.push(st)) =~= before.push(st@));
                    match spec_statements(ts, next as int) {
                        Ok(p) => {
                            assert(before.push(st@) + p.0 =~= before + (seq![st@] + p.0));
                        },
                        Err(e) => {},
                    }
                }
                statements.push(st);
                used = next;
            },
        }
    }
    match expression(tokens, used) {
        Ok((root, _)) => Ok(Program { statements, expr: root }),
        Err(err) => Err(err),
    }
}

// ------------------------------------------------------------------
// Laws of the grammar
// ------------------------------------------------------------------
/// Multiplication and division bind tighter than addition and
/// subtraction: for any literal texts `a`, `b`, `c`, the tokens of
/// `a ⊕ b ⊗ c` (with `⊕` one of `+ -` and `⊗` one of `* /`) parse as
/// `a ⊕ (b ⊗ c)`, never as `(a ⊕ b) ⊗ c`.
pub proof fn lemma_multiplication_binds_tighter(
    a: Seq<char>,
    b: Seq<char>,
    c: Seq<char>,
    add_op: TokenView,
    mul_op: TokenView,
)
    requires
        add_op is Plus || add_op is Minus,
        mul_op is Astrix || mul_op is Slash,
    ensures
        spec_program(
            seq![
                TokenView::NumericLiteral { value: a },
                add_op,
                TokenView::NumericLiteral { value: b },
                mul_op,
                TokenView::NumericLiteral { value: c },
            ],
        ) == Ok::<ProgramView, ParseErrorView>(
            ProgramView {
                statements: Seq::empty(),
                expr: ExprView::Binary {
                    left: Box::new(ExprView::NumericLiteral { value: a }),
                    operator: add_op,
                    right: Box::new(
                        ExprView::Binary {
                            left: Box::new(ExprView::NumericLiteral { value: b }),
                            operator: mul_op,
                            right: Box::new(ExprView::NumericLiteral { value: c }),
                        },
                    ),
                },
            },
        ),
{
    let ts = seq![
        TokenView::NumericLiteral { value: a },
        add_op,
        TokenView::NumericLiteral { value: b },
        mul_op,
        TokenView::NumericLiteral { value: c },
    ];
    reveal_with_fuel(spec_factor_more, 3);
    reveal_with_fuel(spec_term_more, 3);
    assert(spec_primary(ts, 0) == Ok::<(ExprView, int), ParseErrorView>(
        (ExprView::NumericLiteral { value: a }, 1),
    ));
    assert(spec_primary(ts, 2) == Ok::<(ExprView, int), ParseErrorView>(
        (ExprView::NumericLiteral { value: b }, 3),
    ));
    assert(spec_primary(ts, 4) == Ok::<(ExprView, int), ParseErrorView>(
        (ExprView::NumericLiteral { value: c }, 5),
    ));
    let bc = ExprView::Binary {
        left: Box::new(ExprView::NumericLiteral { value: b }),
        operator: mul_op,
        right: Box::new(ExprView::NumericLiteral { value: c }),
    };
    assert(spec_factor(ts, 2) == Ok::<(ExprView, int), ParseErrorView>((bc, 5)));
    assert(spec_factor(ts, 0) == Ok::<(ExprView, int), ParseErrorView>(
        (ExprView::NumericLiteral { value: a }, 1),
    ));
    assert(spec_term(ts, 0) == Ok::<(ExprView, int), ParseErrorView>(
        (
            ExprView::Binary {
                left: Box::new(ExprView::NumericLiteral { value: a }),
                operator: add_op,
                right: Box::new(bc),
            },
            5,
        ),
    ));
}

/// Addition and subtraction are left-associative: for any literal texts,
/// the tokens of `a ⊕ b ⊕' c` (both operators from `+ -`) parse as
/// `(a ⊕ b) ⊕' c`, never as `a ⊕ (b ⊕' c)`.
pub proof fn lemma_additive_left_associativity(
    a: Seq<char>,
    b: Seq<char>,
    c: Seq<char>,
    op1: TokenView,
    op2: TokenView,
)
    requires
        op1 is Plus || op1 is Minus,
        op2 is Plus || op2 is Minus,
    ensures
        spec_program(
            seq![
                TokenView::NumericLiteral { value: a },
                op1,
                TokenView::NumericLiteral { value: b },
                op2,
                TokenView::NumericLiteral { value: c },
            ],
        ) == Ok::<ProgramView, ParseErrorView>(
            ProgramView {
                statements: Seq::empty(),
                expr: ExprView::Binary {
                    left: Box::new(
                        ExprView::Binary {
                            left: Box::new(ExprView::NumericLiteral { value: a }),
                            operator: op1,
                            right: Box::new(ExprView::NumericLiteral { value: b }),
                        },
                    ),
                    operator: op2,
                    right: Box::new(ExprView::NumericLiteral { value: c }),
                },
            },
        ),
{
    let ts = seq![
        TokenView::NumericLiteral { value: a },
        op1,
        TokenView::NumericLiteral { value: b },
        op2,
        TokenView::NumericLiteral { value: c },
    ];
    reveal_with_fuel(spec_factor_more, 3);
    reveal_with_fuel(spec_term_more, 4);
    assert(spec_primary(ts, 0) == Ok::<(ExprView, int), ParseErrorView>(
        (ExprView::NumericLiteral { value: a }, 1),
    ));
    assert(spec_primary(ts, 2) == Ok::<(ExprView, int), ParseErrorView>(
        (ExprView::NumericLiteral { value: b }, 3),
    ));
    assert(spec_primary(ts, 4) == Ok::<(ExprView, int), ParseErrorView>(
        (ExprView::NumericLiteral { value: c }, 5),
    ));
    assert(spec_factor(ts, 0) == Ok::<(ExprView, int), ParseErrorView>(
        (ExprView::NumericLiteral { value: a }, 1),
    ));
    assert(spec_factor(ts, 2) == Ok::<(ExprView, int), ParseErrorView>(
        (ExprView::NumericLiteral { value: b }, 3),
    ));
    assert(spec_factor(ts, 4) == Ok::<(ExprView, int), ParseErrorView>(
        (ExprView::NumericLiteral { value: c }, 5),
    ));
    let ab = ExprView::Binary {
        left: Box::new(ExprView::NumericLiteral { value: a }),
        operator: op1,
        right: Box::new(ExprView::NumericLiteral { value: b }),
    };
    let abc = ExprView::Binary {
        left: Box::new(ab),
        operator: op2,
        right: Box::new(ExprView::NumericLiteral { value: c }),
    };
    assert(spec_term_more(ts, ab, 3) == Ok::<(ExprView, int), ParseErrorView>((abc, 5)));
    assert(spec_term_more(
        ts,
        ExprView::NumericLiteral { value: a },
        1,
    ) == Ok::<(ExprView, int), ParseErrorView>((abc, 5)));
    assert(spec_term(ts, 0) == Ok::<(ExprView, int), ParseErrorView>((abc, 5)));
}

/// Multiplication and division are left-associative: for any literal
/// texts, the tokens of `a ⊗ b ⊗' c` (both operators from `* /`) parse
/// as `(a ⊗ b) ⊗' c`.
pub proof fn lemma_multiplicative_left_associativity(
    a: Seq<char>,
    b: Seq<char>,
    c: Seq<char>,
    op1: TokenView,
    op2: TokenView,
)
    requires
        op1 is Astrix || op1 is Slash,
        op2 is Astrix || op2 is Slash,
    ensures
        spec_program(
            seq![
                TokenView::NumericLiteral { value: a },
                op1,
                TokenView::NumericLiteral { value: b },
                op2,
                TokenView::NumericLiteral { value: c },
            ],
        ) == Ok::<ProgramView, ParseErrorView>(
            ProgramView {
                statements: Seq::empty(),
                expr: ExprView::Binary {
                    left: Box::new(
                        ExprView::Binary {
                            left: Box::new(ExprView::NumericLiteral { value: a }),
                            operator: op1,
                            right: Box::new(ExprView::NumericLiteral { value: b }),
                        },
                    ),
                    operator: op2,
                    right: Box::new(ExprView::NumericLiteral { value: c }),
                },
            },
        ),
{
    let ts = seq![
        TokenView::NumericLiteral { value: a },
        op1,
        TokenView::NumericLiteral { value: b },
        op2,
        TokenView::NumericLiteral { value: c },
    ];
    reveal_with_fuel(spec_factor_more, 4);
    reveal_with_fuel(spec_term_more, 2);
    assert(spec_primary(ts, 0) == Ok::<(ExprView, int), ParseErrorView>(
        (ExprView::NumericLiteral { value: a }, 1),
    ));
    assert(spec_primary(ts, 2) == Ok::<(ExprView, int), ParseErrorView>(
        (ExprView::NumericLiteral { value: b }, 3),
    ));
    assert(spec_primary(ts, 4) == Ok::<(ExprView, int), ParseErrorView>(
        (ExprView::NumericLiteral { value: c }, 5),
    ));
    let ab = ExprView::Binary {
        left: Box::new(ExprView::NumericLiteral { value: a }),
        operator: op1,
        right: Box::new(ExprView::NumericLiteral { value: b }),
    };
    let abc = ExprView::Binary {
        left: Box::new(ab),
        operator: op2,
        right: Box::new(ExprView::NumericLiteral { value: c }),
    };
    assert(spec_factor_more(ts, ab, 3) == Ok::<(ExprView, int), ParseErrorView>((abc, 5)));
    assert(spec_factor_more(
        ts,
        ExprView::NumericLiteral { value: a },
        1,
    ) == Ok::<(ExprView, int), ParseErrorView>((abc, 5)));
    assert(spec_factor(ts, 0) == Ok::<(ExprView, int), ParseErrorView>((abc, 5)));
    assert(spec_term(ts, 0) == Ok::<(ExprView, int), ParseErrorView>((abc, 5)));
}

/// Grouping overrides precedence: for any literal texts, the tokens of
/// `( a ⊕ b ) ⊗ c` parse as `(a ⊕ b) ⊗ c`, with the parenthesized sum
/// standing whole under the product.
pub proof fn lemma_grouping_overrides_precedence(
    a: Seq<char>,
    b: Seq<char>,
    c: Seq<char>,
    add_op: TokenView,
    mul_op: TokenView,
)
    requires
        add_op is Plus || add_op is Minus,
        mul_op is Astrix || mul_op is Slash,
    ensures
        spec_program(
            seq![
                TokenView::OpenParen,
                TokenView::NumericLiteral { value: a },
                add_op,
                TokenView::NumericLiteral { value: b },
                TokenView::CloseParen,
                mul_op,
                TokenView::NumericLiteral { value: c },
            ],
        ) == Ok::<ProgramView, ParseErrorView>(
            ProgramView {
                statements: Seq::empty(),
                expr: ExprView::Binary {
                    left: Box::new(
                        ExprView::Grouping {
                            expr: Box::new(
                                ExprView::Binary {
                                    left: Box::new(ExprView::NumericLiteral { value: a }),
                                    operator: add_op,
                                    right: Box::new(ExprView::NumericLiteral { value: b }),
                                },
                            ),
                        },
                    ),
                    operator: mul_op,
                    right: Box::new(ExprView::NumericLiteral { value: c }),
                },
            },
        ),
{
    let ts = seq![
        TokenView::OpenParen,
        TokenView::NumericLiteral { value: a },
        add_op,
        TokenView::NumericLiteral { value: b },
        TokenView::CloseParen,
        mul_op,
        TokenView::NumericLiteral { value: c },
    ];
    reveal_with_fuel(spec_factor_more, 4);
    reveal_with_fuel(spec_term_more, 4);
    assert(spec_primary(ts, 1) == Ok::<(ExprView, int), ParseErrorView>(
        (ExprView::NumericLiteral { value: a }, 2),
    ));
    assert(spec_primary(ts, 3) == Ok::<(ExprView, int), ParseErrorView>(
        (ExprView::NumericLiteral { value: b }, 4),
    ));
    assert(spec_primary(ts, 6) == Ok::<(ExprView, int), ParseErrorView>(
        (ExprView::NumericLiteral { value: c }, 7),
    ));
    let sum = ExprView::Binary {
        left: Box::new(ExprView::NumericLiteral { value: a }),
        operator: add_op,
        right: Box::new(ExprView::NumericLiteral { value: b }),
    };
    assert(spec_factor(ts, 1) == Ok::<(ExprView, int), ParseErrorView>(
        (ExprView::NumericLiteral { value: a }, 2),
    ));
    assert(spec_factor(ts, 3) == Ok::<(ExprView, int), ParseErrorView>(
        (ExprView::NumericLiteral { value: b }, 4),
    ));
    assert(spec_term_more(
        ts,
        ExprView::NumericLiteral { value: a },
        2,
    ) == Ok::<(ExprView, int), ParseErrorView>((sum, 4)));
    assert(spec_expression(ts, 1) == Ok::<(ExprView, int), ParseErrorView>((sum, 4)));
    assert(spec_primary(ts, 0) == Ok::<(ExprView, int), ParseErrorView>(
        (ExprView::Grouping { expr: Box::new(sum) }, 5),
    ));
    let grouped = ExprView::Grouping { expr: Box::new(sum) };
    let product = ExprView::Binary {
        left: Box::new(grouped),
        operator: mul_op,
        right: Box::new(ExprView::NumericLiteral { value: c }),
    };
    assert(spec_factor_more(ts, grouped, 5) == Ok::<(ExprView, int), ParseErrorView>(
        (product, 7),
    ));
    assert(spec_factor(ts, 0) == Ok::<(ExprView, int), ParseErrorView>((product, 7)));
    assert(spec_term(ts, 0) == Ok::<(ExprView, int), ParseErrorView>((product, 7)));
}

} // verus!
