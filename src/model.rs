//! The mathematical model of scanning: what one lexeme yields, and what the
//! whole scan of a character sequence yields, tokens and diagnostics.
use vstd::prelude::*;
use crate::token::{LiteralView, TokenType, TokenView};

verus! {

/// A recoverable scan failure.
#[derive(Clone, Copy, Debug, PartialEq, Eq, Structural)]
pub enum ScanError {
    /// A character that matches no lexical rule.
    UnsupportedCharacter(char),
    /// A string literal that is still open at the end of the input.
    UnterminatedString,
}

/// A diagnostic: what went wrong, and on which line (1-based).
#[derive(Clone, Copy, Debug, PartialEq, Eq, Structural)]
pub struct Diagnostic {
    pub line: usize,
    pub error: ScanError,
}

/// What a diagnostic stands for.
pub struct DiagnosticView {
    pub line: nat,
    pub error: ScanError,
}

impl View for Diagnostic {
    type V = DiagnosticView;

    open spec fn view(&self) -> DiagnosticView {
        DiagnosticView { line: self.line as nat, error: self.error }
    }
}

/// The views of a sequence of diagnostics.
pub open spec fn diagnostics_view(ds: Seq<Diagnostic>) -> Seq<DiagnosticView> {
    ds.map_values(|d: Diagnostic| d@)
}

/// The number of newline characters in `s`.
pub open spec fn newlines(s: Seq<char>) -> nat
    decreases s.len(),
{
    if s.len() == 0 {
        0
    } else {
        newlines(s.drop_last()) + if s.last() == '\n' { 1nat } else { 0nat }
    }
}

/// The first index at or after `p` that holds `c`, or the length of `src`
/// where there is none.
pub open spec fn first_from(src: Seq<char>, p: nat, c: char) -> nat
    decreases src.len() - p,
{
    if p >= src.len() {
        src.len()
    } else if src[p as int] == c {
        p
    } else {
        first_from(src, p + 1, c)
    }
}

/// The kind of a one-character punctuation token.
pub open spec fn punctuation_kind(c: char) -> Option<TokenType> {
    if c == '(' {
        Some(TokenType::LeftParenthesis)
    } else if c == ')' {
        Some(TokenType::RightParenthesis)
    } else if c == '{' {
        Some(TokenType::LeftBrace)
    } else if c == '}' {
        Some(TokenType::RightBrace)
    } else if c == ',' {
        Some(TokenType::Comma)
    } else if c == '.' {
        Some(TokenType::Dot)
    } else if c == '-' {
        Some(TokenType::Minus)
    } else if c == '+' {
        Some(TokenType::Plus)
    } else if c == ';' {
        Some(TokenType::Semicolon)
    } else if c == '*' {
        Some(TokenType::Star)
    } else {
        None
    }
}

/// For the operators that may be followed by `=`: the kind alone and the
/// kind with the `=`.
pub open spec fn operator_kinds(c: char) -> Option<(TokenType, TokenType)> {
    if c == '!' {
        Some((TokenType::Bang, TokenType::BangEqual))
    } else if c == '=' {
        Some((TokenType::Equal, TokenType::EqualEqual))
    } else if c == '<' {
        Some((TokenType::Less, TokenType::LessEqual))
    } else if c == '>' {
        Some((TokenType::Greater, TokenType::GreaterEqual))
    } else {
        None
    }
}

/// Characters that separate tokens and yield nothing.
pub open spec fn is_blank(c: char) -> bool {
    c == ' ' || c == '\r' || c == '\t'
}

/// The outcome of scanning one lexeme: where the next one starts, the line
/// counter after it, and the token and diagnostic it yields, if any.
pub struct Step {
    pub next: nat,
    pub line: nat,
    pub token: Option<TokenView>,
    pub diagnostic: Option<DiagnosticView>,
}

/// A step that yields a token of `kind` spanning `src[pos..next]`.
pub open spec fn token_step(src: Seq<char>, pos: nat, next: nat, line: nat, kind: TokenType) -> Step {
    Step {
        next,
        line,
        token: Some(
            TokenView {
                kind,
                lexeme: src.subrange(pos as int, next as int),
                line,
                literal: LiteralView::Number(0),
            },
        ),
        diagnostic: None,
    }
}

/// A step that yields nothing.
pub open spec fn silent_step(next: nat, line: nat) -> Step {
    Step { next, line, token: None, diagnostic: None }
}

/// Scanning the string literal whose opening quote is at `pos`.
pub open spec fn string_step(src: Seq<char>, pos: nat, line: nat) -> Step {
    let close = first_from(src, pos + 1, '"');
    let end_line = line + newlines(src.subrange(pos + 1 as int, close as int));
    if close < src.len() {
        Step {
            next: close + 1,
            line: end_line,
            token: Some(
                TokenView {
                    kind: TokenType::String,
                    lexeme: src.subrange(pos as int, close + 1 as int),
                    line: end_line,
                    literal: LiteralView::Text(src.subrange(pos + 1 as int, close as int)),
                },
            ),
            diagnostic: None,
        }
    } else {
        Step {
            next: src.len(),
            line: end_line,
            token: None,
            diagnostic: Some(DiagnosticView { line: end_line, error: ScanError::UnterminatedString }),
        }
    }
}

/// Scanning the lexeme that starts at `pos`, with the line counter at `line`.
pub open spec fn scan_step(src: Seq<char>, pos: nat, line: nat) -> Step
    recommends
        pos < src.len(),
{
    let c = src[pos as int];
    let next_is_eq = pos + 1 < src.len() && src[pos + 1 as int] == '=';
    let next_is_slash = pos + 1 < src.len() && src[pos + 1 as int] == '/';
    if punctuation_kind(c) is Some {
        token_step(src, pos, pos + 1, line, punctuation_kind(c)->0)
    } else if operator_kinds(c) is Some {
        let kinds = operator_kinds(c)->0;
        if next_is_eq {
            token_step(src, pos, pos + 2, line, kinds.1)
        } else {
            token_step(src, pos, pos + 1, line, kinds.0)
        }
    } else if c == '/' {
        if next_is_slash {
            silent_step(first_from(src, pos + 2, '\n'), line)
        } else {
            token_step(src, pos, pos + 1, line, TokenType::Slash)
        }
    } else if c == '"' {
        string_step(src, pos, line)
    } else if c == '\n' {
        silent_step(pos + 1, line + 1)
    } else if is_blank(c) {
        silent_step(pos + 1, line)
    } else {
        Step {
            next: pos + 1,
            line,
            token: None,
            diagnostic: Some(DiagnosticView { line, error: ScanError::UnsupportedCharacter(c) }),
        }
    }
}

/// The end-of-input token at `line`.
pub open spec fn eof_token(line: nat) -> TokenView {
    TokenView { kind: TokenType::EOF, lexeme: seq!['\0'], line, literal: LiteralView::Number(0) }
}

/// The value held by `o`, as a sequence of zero or one element.
pub open spec fn option_seq<A>(o: Option<A>) -> Seq<A> {
    match o {
        Some(a) => seq![a],
        None => seq![],
    }
}

/// The tokens that scanning from `pos` with the line counter at `line`
/// yields, the end-of-input token included.
pub open spec fn tokens_from(src: Seq<char>, pos: nat, line: nat) -> Seq<TokenView>
    decreases src.len() - pos,
{
    if pos >= src.len() {
        seq![eof_token(line)]
    } else {
        let s = scan_step(src, pos, line);
        proof {
            lemma_scan_step_advances(src, pos, line);
        }
        option_seq(s.token) + tokens_from(src, s.next, s.line)
    }
}

/// The diagnostics that scanning from `pos` with the line counter at `line`
/// yields.
pub open spec fn diagnostics_from(src: Seq<char>, pos: nat, line: nat) -> Seq<DiagnosticView>
    decreases src.len() - pos,
{
    if pos >= src.len() {
        seq![]
    } else {
        let s = scan_step(src, pos, line);
        proof {
            lemma_scan_step_advances(src, pos, line);
        }
        option_seq(s.diagnostic) + diagnostics_from(src, s.next, s.line)
    }
}

/// Where the scan from `pos` with the line counter at `line` starts a lexeme
/// at `target`: the tokens and diagnostics yielded before it, and the line
/// counter there. `None` where `target` falls inside a lexeme or is never
/// reached.
pub open spec fn scan_until(src: Seq<char>, pos: nat, line: nat, target: nat) -> Option<
    (Seq<TokenView>, Seq<DiagnosticView>, nat),
>
    decreases src.len() - pos,
{
    if pos == target {
        Some((seq![], seq![], line))
    } else if pos >= src.len() || pos > target {
        None
    } else {
        let s = scan_step(src, pos, line);
        proof {
            lemma_scan_step_advances(src, pos, line);
        }
        match scan_until(src, s.next, s.line, target) {
            Some(r) => Some((option_seq(s.token) + r.0, option_seq(s.diagnostic) + r.1, r.2)),
            None => None,
        }
    }
}

/// The tokens of a whole source text.
pub open spec fn tokens_of(src: Seq<char>) -> Seq<TokenView> {
    tokens_from(src, 0, 1)
}

/// The diagnostics of a whole source text.
pub open spec fn diagnostics_of(src: Seq<char>) -> Seq<DiagnosticView> {
    diagnostics_from(src, 0, 1)
}

pub proof fn lemma_first_from(src: Seq<char>, p: nat, c: char)
    requires
        p <= src.len(),
    ensures
        p <= first_from(src, p, c) <= src.len(),
        first_from(src, p, c) < src.len() ==> src[first_from(src, p, c) as int] == c,
        forall|k: int| p <= k < first_from(src, p, c) ==> src[k] != c,
    decreases src.len() - p,
{
    if p < src.len() && src[p as int] != c {
        lemma_first_from(src, p + 1, c);
    }
}

pub proof fn lemma_scan_step_advances(src: Seq<char>, pos: nat, line: nat)
    requires
        pos < src.len(),
    ensures
        pos < scan_step(src, pos, line).next <= src.len(),
{
    if pos + 2 <= src.len() {
        lemma_first_from(src, pos + 2, '\n');
    }
    lemma_first_from(src, pos + 1, '"');
}

/// Extending a range by one character adds one newline exactly when that
/// character is a newline.
pub proof fn lemma_newlines_push(s: Seq<char>, a: int, k: int)
    requires
        0 <= a <= k < s.len(),
    ensures
        newlines(s.subrange(a, k + 1)) == newlines(s.subrange(a, k)) + if s[k] == '\n' {
            1nat
        } else {
            0nat
        },
{
    assert(s.subrange(a, k + 1).drop_last() =~= s.subrange(a, k));
}

pub proof fn lemma_newlines_concat(a: Seq<char>, b: Seq<char>)
    ensures
        newlines(a + b) == newlines(a) + newlines(b),
    decreases b.len(),
{
    if b.len() == 0 {
        assert(a + b =~= a);
    } else {
        lemma_newlines_concat(a, b.drop_last());
        assert((a + b).drop_last() =~= a + b.drop_last());
    }
}

pub proof fn lemma_newlines_split(s: Seq<char>, i: int, j: int, k: int)
    requires
        0 <= i <= j <= k <= s.len(),
    ensures
        newlines(s.subrange(i, k)) == newlines(s.subrange(i, j)) + newlines(s.subrange(j, k)),
{
    assert(s.subrange(i, k) =~= s.subrange(i, j) + s.subrange(j, k));
    lemma_newlines_concat(s.subrange(i, j), s.subrange(j, k));
}

pub proof fn lemma_newlines_bound(s: Seq<char>)
    ensures
        newlines(s) <= s.len(),
    decreases s.len(),
{
    if s.len() > 0 {
        lemma_newlines_bound(s.drop_last());
    }
}

} // verus!
