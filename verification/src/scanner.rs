//! The scanner: raw text to a flat, ordered sequence of tokens.
//!
//! Scanning goes left to right, classifying on the current character:
//! a digit starts a numeric literal (a maximal digit run, at most one `.`,
//! then another maximal digit run), the operator and punctuation characters
//! stand for themselves, a run of whitespace is skipped, and any other run
//! of characters becomes an identifier, with `def` recognized by exact
//! match as a dedicated keyword token.  Because of the identifier fallback,
//! scanning never fails; the error type exists so the stage reports its
//! outcome in the same success/failure shape as the later stages.

use vstd::prelude::*;
use vstd::string::StrSliceExecFns;
use vstd::string::StringExecFns;

verus! {

/// The smallest lexical unit produced from raw text.
///
/// Numeric literals and identifiers carry the exact source substring;
/// literal text is parsed to a number only at evaluation time.
#[derive(Debug, PartialEq, Eq)]
pub enum Token {
    EOF,
    NumericLiteral { value: String },
    OpenParen,
    CloseParen,
    Plus,
    Minus,
    Astrix,
    Slash,
    Identifier { value: String },
    Def,
    Equal,
    SemiColon,
}

/// The mathematical model of a [`Token`]: the carried text is a
/// sequence of characters.
pub ghost enum TokenView {
    EOF,
    NumericLiteral { value: Seq<char> },
    OpenParen,
    CloseParen,
    Plus,
    Minus,
    Astrix,
    Slash,
    Identifier { value: Seq<char> },
    Def,
    Equal,
    SemiColon,
}

impl View for Token {
    type V = TokenView;

    open spec fn view(&self) -> TokenView {
        match self {
            Token::EOF => TokenView::EOF,
            Token::NumericLiteral { value } => TokenView::NumericLiteral { value: value@ },
            Token::OpenParen => TokenView::OpenParen,
            Token::CloseParen => TokenView::CloseParen,
            Token::Plus => TokenView::Plus,
            Token::Minus => TokenView::Minus,
            Token::Astrix => TokenView::Astrix,
            Token::Slash => TokenView::Slash,
            Token::Identifier { value } => TokenView::Identifier { value: value@ },
            Token::Def => TokenView::Def,
            Token::Equal => TokenView::Equal,
            Token::SemiColon => TokenView::SemiColon,
        }
    }
}

impl Clone for Token {
    fn clone(&self) -> (r: Self)
        ensures
            r == *self,
    {
        match self {
            Token::EOF => Token::EOF,
            Token::NumericLiteral { value } => Token::NumericLiteral { value: value.clone() },
            Token::OpenParen => Token::OpenParen,
            Token::CloseParen => Token::CloseParen,
            Token::Plus => Token::Plus,
            Token::Minus => Token::Minus,
            Token::Astrix => Token::Astrix,
            Token::Slash => Token::Slash,
            Token::Identifier { value } => Token::Identifier { value: value.clone() },
            Token::Def => Token::Def,
            Token::Equal => Token::Equal,
            Token::SemiColon => Token::SemiColon,
        }
    }
}

/// The token sequence that a sequence of tokens models.
pub open spec fn token_views(ts: Seq<Token>) -> Seq<TokenView> {
    ts.map_values(|t: Token| t@)
}

pub broadcast proof fn lemma_token_views_push(ts: Seq<Token>, t: Token)
    ensures
        #[trigger] token_views(ts.push(t)) == token_views(ts).push(t@),
{
    assert(token_views(ts.push(t)) =~= token_views(ts).push(t@));
}

/// The scanning error of lexer designs without the identifier fallback.
///
/// This scanner classifies every character that fits no other class as part
/// of an identifier, so it never actually fails; the type gives the stage
/// the same success/failure shape as parsing and evaluation.
#[derive(Debug, PartialEq, Eq)]
pub enum LexError {
    UnrecognizedCharacter { character: char },
}

/// The mathematical model of a [`LexError`].
pub ghost enum LexErrorView {
    UnrecognizedCharacter { character: char },
}

impl View for LexError {
    type V = LexErrorView;

    open spec fn view(&self) -> LexErrorView {
        match self {
            LexError::UnrecognizedCharacter { character } => LexErrorView::UnrecognizedCharacter {
                character: *character,
            },
        }
    }
}

/// The character classes the scanner dispatches on.
pub open spec fn is_digit_char(c: char) -> bool {
    48 <= c as u32 && c as u32 <= 57
}

/// The characters that end an identifier run besides whitespace and that
/// always stand for themselves: grouping parentheses and the punctuation
/// of a named-value definition.
pub open spec fn is_stop_char(c: char) -> bool {
    c == '(' || c == ')' || c == '=' || c == ';'
}

/// Whether a character counts as whitespace, exactly as
/// `char::is_whitespace` decides it (the Unicode `White_Space` property).
pub uninterp spec fn is_space(c: char) -> bool;

/// Relies on `char::is_whitespace`: whether the character has the Unicode
/// `White_Space` property; the result depends on the character alone.
#[verifier::external_body]
fn char_is_space(c: char) -> (r: bool)
    ensures
        r == is_space(c),
{
    c.is_whitespace()
}

/// The first position at or after `i` that does not hold an ASCII digit.
pub open spec fn digit_run_end(s: Seq<char>, i: int) -> int
    decreases s.len() - i,
{
    if 0 <= i && i < s.len() && is_digit_char(s[i]) {
        digit_run_end(s, i + 1)
    } else {
        i
    }
}

/// Where a numeric literal beginning at `i` ends: a maximal digit run,
/// at most one `.`, then another maximal digit run.
pub open spec fn number_end(s: Seq<char>, i: int) -> int {
    let j = digit_run_end(s, i);
    if j < s.len() && s[j] == '.' {
        digit_run_end(s, j + 1)
    } else {
        j
    }
}

/// The first position at or after `i` that does not hold whitespace.
pub open spec fn space_run_end(s: Seq<char>, i: int) -> int
    decreases s.len() - i,
{
    if 0 <= i && i < s.len() && is_space(s[i]) {
        space_run_end(s, i + 1)
    } else {
        i
    }
}

/// The first position at or after `i` that ends an identifier run:
/// whitespace, a stop character, or the end of the text.
pub open spec fn ident_run_end(s: Seq<char>, i: int) -> int
    decreases s.len() - i,
{
    if 0 <= i && i < s.len() && !is_space(s[i]) && !is_stop_char(s[i]) {
        ident_run_end(s, i + 1)
    } else {
        i
    }
}

/// An identifier run that spells exactly `def` is the keyword token;
/// any other run is a generic identifier.
pub open spec fn keyword_or_identifier(text: Seq<char>) -> TokenView {
    if text == seq!['d', 'e', 'f'] {
        TokenView::Def
    } else {
        TokenView::Identifier { value: text }
    }
}

/// The token sequence that scanning the text from position `i` produces.
///
/// Each step consumes at least one character: a digit starts a numeric
/// literal, the operator and punctuation characters stand for themselves,
/// a whitespace run is skipped without producing a token, and any other
/// run becomes an identifier (or the `def` keyword).
pub open spec fn scan(s: Seq<char>, i: int) -> Seq<TokenView>
    decreases s.len() - i,
{
    if i < 0 || i >= s.len() {
        Seq::empty()
    } else {
        let c = s[i];
        if is_digit_char(c) {
            let j = number_end(s, i);
            if i < j && j <= s.len() {
                seq![TokenView::NumericLiteral { value: s.subrange(i, j) }] + scan(s, j)
            } else {
                Seq::empty()
            }
        } else if c == '+' {
            seq![TokenView::Plus] + scan(s, i + 1)
        } else if c == '-' {
            seq![TokenView::Minus] + scan(s, i + 1)
        } else if c == '*' {
            seq![TokenView::Astrix] + scan(s, i + 1)
        } else if c == '/' {
            seq![TokenView::Slash] + scan(s, i + 1)
        } else if c == '(' {
            seq![TokenView::OpenParen] + scan(s, i + 1)
        } else if c == ')' {
            seq![TokenView::CloseParen] + scan(s, i + 1)
        } else if c == '=' {
            seq![TokenView::Equal] + scan(s, i + 1)
        } else if c == ';' {
            seq![TokenView::SemiColon] + scan(s, i + 1)
        } else if is_space(c) {
            let j = space_run_end(s, i);
            if i < j && j <= s.len() {
                scan(s, j)
            } else {
                Seq::empty()
            }
        } else {
            let j = ident_run_end(s, i);
            if i < j && j <= s.len() {
                seq![keyword_or_identifier(s.subrange(i, j))] + scan(s, j)
            } else {
                Seq::empty()
            }
        }
    }
}

pub proof fn lemma_digit_run_end_bounds(s: Seq<char>, i: int)
    requires
        0 <= i <= s.len(),
    ensures
        i <= digit_run_end(s, i) <= s.len(),
    decreases s.len() - i,
{
    if i < s.len() && is_digit_char(s[i]) {
        lemma_digit_run_end_bounds(s, i + 1);
    }
}

pub proof fn lemma_number_end_bounds(s: Seq<char>, i: int)
    requires
        0 <= i < s.len(),
        is_digit_char(s[i]),
    ensures
        i < number_end(s, i) <= s.len(),
{
    lemma_digit_run_end_bounds(s, i + 1);
    let j = digit_run_end(s, i);
    assert(j == digit_run_end(s, i + 1));
    if j < s.len() && s[j] == '.' {
        lemma_digit_run_end_bounds(s, j + 1);
    }
}

pub proof fn lemma_space_run_end_bounds(s: Seq<char>, i: int)
    requires
        0 <= i <= s.len(),
    ensures
        i <= space_run_end(s, i) <= s.len(),
    decreases s.len() - i,
{
    if i < s.len() && is_space(s[i]) {
        lemma_space_run_end_bounds(s, i + 1);
    }
}

pub proof fn lemma_ident_run_end_bounds(s: Seq<char>, i: int)
    requires
        0 <= i <= s.len(),
    ensures
        i <= ident_run_end(s, i) <= s.len(),
    decreases s.len() - i,
{
    if i < s.len() && !is_space(s[i]) && !is_stop_char(s[i]) {
        lemma_ident_run_end_bounds(s, i + 1);
    }
}

/// A persistent token sequence, backed by `rpds::Vector`; tokens are
/// appended one at a time while the scanner walks the text.
///
/// The vector is held opaquely in a private field: `rpds::Vector` takes a
/// pointer-kind parameter whose trait lives in a crate `rpds` does not
/// re-export, so the type itself cannot be named in full here.  What the
/// scanner relies on is stated per method over [`token_vector_elems`].
#[verifier::external_body]
pub struct TokenVector {
    vec: rpds::Vector<Token>,
}

/// The tokens a [`TokenVector`] holds, in order.
pub uninterp spec fn token_vector_elems(v: TokenVector) -> Seq<Token>;

impl TokenVector {
    /// Relies on `rpds::Vector::new`: creates an empty vector.
    #[verifier::external_body]
    pub fn new() -> (r: TokenVector)
        ensures
            token_vector_elems(r) == Seq::<Token>::empty(),
    {
        TokenVector { vec: rpds::Vector::new() }
    }

    /// Relies on `rpds::Vector::push_back`: returns a new vector holding
    /// the elements of `self` followed by `t`, leaving `self` unchanged.
    #[verifier::external_body]
    pub fn push_back(&self, t: Token) -> (r: TokenVector)
        ensures
            token_vector_elems(r) == token_vector_elems(*self).push(t),
    {
        TokenVector { vec: self.vec.push_back(t) }
    }

    /// Relies on `rpds::Vector::iter`: yields the elements in index order.
    #[verifier::external_body]
    pub fn to_vec(&self) -> (r: Vec<Token>)
        ensures
            r@ == token_vector_elems(*self),
    {
        self.vec.iter().cloned().collect()
    }
}

/// A scanning position over the text of one input line.
pub struct Lexer<'a> {
    pub source: &'a str,
}

/// Whether position `used` lies at or past the end of the text.
pub fn is_end(lex: &Lexer, used: usize) -> (r: bool)
    ensures
        r == (lex.source@.len() <= used),
{
    lex.source.unicode_len() <= used
}

/// Whether the character at `current` is whitespace.
pub fn is_whitespace(lex: &Lexer, current: usize) -> (r: bool)
    requires
        current < lex.source@.len(),
    ensures
        r == is_space(lex.source@[current as int]),
{
    char_is_space(lex.source.get_char(current))
}

/// Whether the character at `current` is a stop character.
pub fn is_punctuation(lex: &Lexer, current: usize) -> (r: bool)
    requires
        current < lex.source@.len(),
    ensures
        r == is_stop_char(lex.source@[current as int]),
{
    let c = lex.source.get_char(current);
    c == '(' || c == ')' || c == '=' || c == ';'
}

/// Whether the character at `current` is an ASCII digit.
pub fn is_digit(lex: &Lexer, current: usize) -> (r: bool)
    requires
        current < lex.source@.len(),
    ensures
        r == is_digit_char(lex.source@[current as int]),
{
    let u = lex.source.get_char(current) as u32;
    48 <= u && u <= 57
}

/// Scans the numeric literal that begins at `start`: a maximal digit run,
/// at most one `.`, then another maximal digit run, carried verbatim.
pub fn number(lex: &Lexer, start: usize) -> (r: (Token, usize))
    requires
        start < lex.source@.len(),
        is_digit_char(lex.source@[start as int]),
    ensures
        r.1 == number_end(lex.source@, start as int),
        start < r.1 <= lex.source@.len(),
        r.0@ == (TokenView::NumericLiteral {
            value: lex.source@.subrange(start as int, r.1 as int),
        }),
{
    let ghost s = lex.source@;
    let n = lex.source.unicode_len();
    let mut used = start;
    while used < n && is_digit(lex, used)
        invariant
            start <= used <= n,
            n == s.len(),
            s == lex.source@,
            digit_run_end(s, start as int) == digit_run_end(s, used as int),
        decreases n - used,
    {
        used = used + 1;
    }
    assert(digit_run_end(s, start as int) == used);
    if used < n && lex.source.get_char(used) == '.' {
        used = used + 1;
        let ghost dot = used as int;
        while used < n && is_digit(lex, used)
            invariant
                dot <= used <= n,
                n == s.len(),
                s == lex.source@,
                digit_run_end(s, dot) == digit_run_end(s, used as int),
            decreases n - used,
        {
            used = used + 1;
        }
        assert(digit_run_end(s, dot) == used);
    }
    assert(used == number_end(s, start as int));
    proof {
        lemma_number_end_bounds(s, start as int);
    }
    let text = lex.source.substring_char(start, used);
    (Token::NumericLiteral { value: String::from_str(text) }, used)
}

/// Scans the identifier run that begins at `start`; a run spelling
/// exactly `def` becomes the keyword token.
pub fn identifier(lex: &Lexer, start: usize) -> (r: (Token, usize))
    requires
        start < lex.source@.len(),
        !is_space(lex.source@[start as int]),
        !is_stop_char(lex.source@[start as int]),
    ensures
        r.1 == ident_run_end(lex.source@, start as int),
        start < r.1 <= lex.source@.len(),
        r.0@ == keyword_or_identifier(lex.source@.subrange(start as int, r.1 as int)),
{
    let ghost s = lex.source@;
    let n = lex.source.unicode_len();
    let mut used = start;
    while used < n && !is_whitespace(lex, used) && !is_punctuation(lex, used)
        invariant
            start <= used <= n,
            n == s.len(),
            s == lex.source@,
            ident_run_end(s, start as int) == ident_run_end(s, used as int),
        decreases n - used,
    {
        used = used + 1;
    }
    assert(ident_run_end(s, start as int) == used);
    let text = lex.source.substring_char(start, used);
    let ghost t = s.subrange(start as int, used as int);
    if used - start == 3 && lex.source.get_char(start) == 'd' && lex.source.get_char(start + 1)
        == 'e' && lex.source.get_char(start + 2) == 'f' {
        proof {
            assert(t =~= seq!['d', 'e', 'f']);
        }
        (Token::Def, used)
    } else {
        proof {
            if t == seq!['d', 'e', 'f'] {
                assert(t.len() == 3);
                assert(used - start == 3);
                assert(s[start as int] == t[0]);
                assert(s[start as int + 1] == t[1]);
                assert(s[start as int + 2] == t[2]);
            }
        }
        (Token::Identifier { value: String::from_str(text) }, used)
    }
}

/// Skips the whitespace run that begins at `start`; reports the position
/// after it, or nothing when the current character is not whitespace.
pub fn eat_whitespace(lex: &Lexer, start: usize) -> (r: Option<usize>)
    requires
        start < lex.source@.len(),
    ensures
        match r {
            Some(j) => {
                &&& is_space(lex.source@[start as int])
                &&& j == space_run_end(lex.source@, start as int)
                &&& start < j <= lex.source@.len()
            },
            None => !is_space(lex.source@[start as int]),
        },
{
    let ghost s = lex.source@;
    let n = lex.source.unicode_len();
    let mut used = start;
    while used < n && is_whitespace(lex, used)
        invariant
            start <= used <= n,
            n == s.len(),
            s == lex.source@,
            space_run_end(s, start as int) == space_run_end(s, used as int),
        decreases n - used,
    {
        used = used + 1;
    }
    assert(space_run_end(s, start as int) == used);
    if used > start {
        Some(used)
    } else {
        None
    }
}

/// Scans one step at `pos`: either one token, or no token where a
/// whitespace run was skipped, together with the next position.
pub fn next_token(lex: &Lexer, pos: usize) -> (r: (Option<Token>, usize))
    requires
        pos < lex.source@.len(),
    ensures
        pos < r.1 <= lex.source@.len(),
        match r.0 {
            Some(t) => scan(lex.source@, pos as int) == seq![t@] + scan(lex.source@, r.1 as int),
            None => scan(lex.source@, pos as int) == scan(lex.source@, r.1 as int),
        },
{
    let ghost s = lex.source@;
    let n = lex.source.unicode_len();
    proof {
        assert(pos < n);
    }
    let c = lex.source.get_char(pos);
    if is_digit(lex, pos) {
        let (t, next) = number(lex, pos);
        (Some(t), next)
    } else if c == '+' {
        (Some(Token::Plus), pos + 1)
    } else if c == '-' {
        (Some(Token::Minus), pos + 1)
    } else if c == '*' {
        (Some(Token::Astrix), pos + 1)
    } else if c == '/' {
        (Some(Token::Slash), pos + 1)
    } else if c == '(' {
        (Some(Token::OpenParen), pos + 1)
    } else if c == ')' {
        (Some(Token::CloseParen), pos + 1)
    } else if c == '=' {
        (Some(Token::Equal), pos + 1)
    } else if c == ';' {
        (Some(Token::SemiColon), pos + 1)
    } else {
        match eat_whitespace(lex, pos) {
            Some(next) => (None, next),
            None => {
                let (t, next) = identifier(lex, pos);
                (Some(t), next)
            },
        }
    }
}

/// Scans the remaining text from `pos`, appending each produced token.
fn do_tokenize(lex: &Lexer, pos: usize, tokens: TokenVector) -> (r: TokenVector)
    requires
        pos <= lex.source@.len(),
    ensures
        token_views(token_vector_elems(r)) == token_views(token_vector_elems(tokens)) + scan(
            lex.source@,
            pos as int,
        ),
    decreases lex.source@.len() - pos,
{
    broadcast use lemma_token_views_push;

    let ghost s = lex.source@;
    if is_end(lex, pos) {
        assert(token_views(token_vector_elems(tokens)) + scan(s, pos as int) =~= token_views(
            token_vector_elems(tokens),
        ));
        tokens
    } else {
        let (t, next) = next_token(lex, pos);
        match t {
            Some(token) => {
                let pushed = tokens.push_back(token);
                let r = do_tokenize(lex, next, pushed);
                proof {
                    assert(token_views(token_vector_elems(tokens)).push(token@) + scan(
                        s,
                        next as int,
                    ) =~= token_views(token_vector_elems(tokens)) + (seq![token@] + scan(
                        s,
                        next as int,
                    )));
                }
                r
            },
            None => do_tokenize(lex, next, tokens),
        }
    }
}

// ------------------------------------------------------------------
// Laws of scanning
// ------------------------------------------------------------------
/// No normalization at scan time: every numeric literal token carries,
/// verbatim, a contiguous substring of the scanned text.  Re-joining the
/// literal's characters reproduces the original numeric substring
/// exactly.
pub proof fn lemma_literal_round_trip(s: Seq<char>, i: int, k: int)
    requires
        0 <= i,
        0 <= k < scan(s, i).len(),
        scan(s, i)[k] is NumericLiteral,
    ensures
        exists|lo: int, hi: int|
            0 <= lo <= hi <= s.len() && scan(s, i)[k]->NumericLiteral_value == s.subrange(lo, hi),
    decreases s.len() - i,
{
    if i < s.len() {
        let c = s[i];
        if is_digit_char(c) {
            let j = number_end(s, i);
            lemma_number_end_bounds(s, i);
            if k == 0 {
                assert(scan(s, i)[0] == (TokenView::NumericLiteral {
                    value: s.subrange(i, j),
                }));
                assert(0 <= i <= j <= s.len() && scan(s, i)[k]->NumericLiteral_value
                    == s.subrange(i, j));
            } else {
                assert(scan(s, i)[k] == scan(s, j)[k - 1]);
                lemma_literal_round_trip(s, j, k - 1);
            }
        } else if c == '+' || c == '-' || c == '*' || c == '/' || c == '(' || c == ')' || c == '='
            || c == ';' {
            assert(scan(s, i)[k] == (seq![scan(s, i)[0]] + scan(s, i + 1))[k]);
            assert(k > 0);
            assert(scan(s, i)[k] == scan(s, i + 1)[k - 1]);
            lemma_literal_round_trip(s, i + 1, k - 1);
        } else if is_space(c) {
            let j = space_run_end(s, i);
            lemma_space_run_end_bounds(s, i);
            lemma_literal_round_trip(s, j, k);
        } else {
            let j = ident_run_end(s, i);
            lemma_ident_run_end_bounds(s, i);
            assert(!(keyword_or_identifier(s.subrange(i, j)) is NumericLiteral));
            assert(k > 0);
            assert(scan(s, i)[k] == scan(s, j)[k - 1]);
            lemma_literal_round_trip(s, j, k - 1);
        }
    }
}

/// A text that is in its entirety one numeric-literal shape scans to
/// exactly one token, carrying the whole text unchanged.
pub proof fn lemma_scan_whole_literal(s: Seq<char>)
    requires
        s.len() > 0,
        is_digit_char(s[0]),
        number_end(s, 0) == s.len(),
    ensures
        scan(s, 0) == seq![TokenView::NumericLiteral { value: s }],
{
    assert(s.subrange(0, s.len() as int) =~= s);
    assert(scan(s, s.len() as int) =~= Seq::<TokenView>::empty());
    assert(scan(s, 0) =~= seq![TokenView::NumericLiteral { value: s }]);
}

/// Scans a whole line of text into its token sequence.
///
/// The identifier fallback classifies every character, so the result is
/// always the full scan of the input; no input is rejected.
pub fn tokenize(source: &str) -> (r: Result<Vec<Token>, LexError>)
    ensures
        r matches Ok(toks) && token_views(toks@) == scan(source@, 0),
{
    let lex = Lexer { source };
    let tokens = do_tokenize(&lex, 0, TokenVector::new());
    proof {
        assert(token_views(Seq::<Token>::empty()) + scan(source@, 0) =~= scan(source@, 0));
    }
    Ok(tokens.to_vec())
}

} // verus!
