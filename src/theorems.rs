//! Laws of the scan, proved over the model that the scanner is verified
//! against.
use vstd::prelude::*;
use crate::model::{
    diagnostics_from, diagnostics_of, eof_token, first_from, lemma_first_from,
    lemma_newlines_push, lemma_newlines_split, lemma_scan_step_advances, newlines, option_seq,
    scan_step, scan_until, tokens_from, tokens_of, DiagnosticView, ScanError, silent_step,
    operator_kinds, token_step, Step,
};
use crate::token::{LiteralView, TokenType, TokenView};

verus! {

/// One step never yields the end-of-input token.
proof fn lemma_step_token_not_eof(src: Seq<char>, pos: nat, line: nat)
    requires
        pos < src.len(),
    ensures
        scan_step(src, pos, line).token matches Some(t) ==> t.kind != TokenType::EOF,
{
}

/// From any position, the scan yields the end-of-input token exactly once,
/// as its last token.
pub proof fn lemma_tokens_from_single_eof(src: Seq<char>, pos: nat, line: nat)
    ensures
        tokens_from(src, pos, line).len() >= 1,
        tokens_from(src, pos, line).last().kind == TokenType::EOF,
        forall|i: int|
            0 <= i < tokens_from(src, pos, line).len() - 1 ==> tokens_from(src, pos, line)[i].kind
                != TokenType::EOF,
    decreases src.len() - pos,
{
    if pos < src.len() {
        let s = scan_step(src, pos, line);
        lemma_scan_step_advances(src, pos, line);
        lemma_step_token_not_eof(src, pos, line);
        lemma_tokens_from_single_eof(src, s.next, s.line);
        let rest = tokens_from(src, s.next, s.line);
        let all = option_seq(s.token) + rest;
        assert(tokens_from(src, pos, line) == all);
        assert forall|i: int| 0 <= i < all.len() - 1 implies all[i].kind != TokenType::EOF by {
            if i < option_seq(s.token).len() {
                assert(all[i] == s.token->0);
            } else {
                assert(all[i] == rest[i - option_seq(s.token).len()]);
            }
        }
    }
}

/// The tokens of any source end with the end-of-input token, and no other
/// token is one.
pub proof fn lemma_single_trailing_eof(src: Seq<char>)
    ensures
        tokens_of(src).len() >= 1,
        tokens_of(src).last().kind == TokenType::EOF,
        forall|i: int| 0 <= i < tokens_of(src).len() - 1 ==> tokens_of(src)[i].kind != TokenType::EOF,
{
    lemma_tokens_from_single_eof(src, 0, 1);
}

/// A range without newline characters holds no newlines.
proof fn lemma_newlines_none(s: Seq<char>)
    requires
        forall|k: int| 0 <= k < s.len() ==> s[k] != '\n',
    ensures
        newlines(s) == 0,
    decreases s.len(),
{
    if s.len() > 0 {
        lemma_newlines_none(s.drop_last());
    }
}

/// Each step moves the line counter on by the newlines it consumes.
pub proof fn lemma_step_line(src: Seq<char>, pos: nat, line: nat)
    requires
        pos < src.len(),
    ensures
        scan_step(src, pos, line).line == line + newlines(
            src.subrange(pos as int, scan_step(src, pos, line).next as int),
        ),
{
    let s = scan_step(src, pos, line);
    let c = src[pos as int];
    lemma_scan_step_advances(src, pos, line);
    let p = pos as int;
    lemma_newlines_push(src, p, p);
    assert(src.subrange(p, p).len() == 0);
    if p + 1 < src.len() {
        lemma_newlines_push(src, p, p + 1);
    }
    if c == '/' && p + 1 < src.len() && src[p + 1] == '/' {
        lemma_first_from(src, pos + 2, '\n');
        lemma_newlines_none(src.subrange(p, s.next as int));
    } else if c == '"' {
        let close = first_from(src, pos + 1, '"') as int;
        lemma_first_from(src, pos + 1, '"');
        lemma_newlines_split(src, p, p + 1, close);
        if close < src.len() {
            lemma_newlines_push(src, p, close);
        }
    }
}

/// From any position, the end-of-input token stands on the line counter
/// plus the newlines that remain.
pub proof fn lemma_eof_line_from(src: Seq<char>, pos: nat, line: nat)
    requires
        pos <= src.len(),
    ensures
        tokens_from(src, pos, line).last().line == line + newlines(
            src.subrange(pos as int, src.len() as int),
        ),
    decreases src.len() - pos,
{
    if pos < src.len() {
        let s = scan_step(src, pos, line);
        lemma_scan_step_advances(src, pos, line);
        lemma_step_line(src, pos, line);
        lemma_eof_line_from(src, s.next, s.line);
        lemma_newlines_split(src, pos as int, s.next as int, src.len() as int);
        lemma_tokens_from_single_eof(src, s.next, s.line);
        let all = option_seq(s.token) + tokens_from(src, s.next, s.line);
        assert(all.last() == tokens_from(src, s.next, s.line).last());
    } else {
        assert(src.subrange(pos as int, src.len() as int).len() == 0);
    }
}

/// Every newline of the source moves the line counter on exactly once: the
/// end-of-input token stands on the number of newlines plus one.
pub proof fn lemma_eof_line(src: Seq<char>)
    ensures
        tokens_of(src).last().line == newlines(src) + 1,
{
    lemma_eof_line_from(src, 0, 1);
    assert(src.subrange(0, src.len() as int) =~= src);
}

/// A string literal still open at the end of the input yields no token and
/// one diagnostic, and the scan still ends with the end-of-input token.
pub proof fn lemma_unterminated_string(src: Seq<char>, pos: nat, line: nat)
    requires
        pos < src.len(),
        src[pos as int] == '"',
        forall|k: int| pos < k < src.len() ==> src[k] != '"',
    ensures
        ({
            let end_line = line + newlines(src.subrange(pos + 1 as int, src.len() as int));
            &&& tokens_from(src, pos, line) == seq![eof_token(end_line)]
            &&& diagnostics_from(src, pos, line) == seq![
                DiagnosticView { line: end_line, error: ScanError::UnterminatedString },
            ]
        }),
{
    lemma_first_from(src, pos + 1, '"');
    lemma_scan_step_advances(src, pos, line);
    let s = scan_step(src, pos, line);
    assert(first_from(src, pos + 1, '"') == src.len());
    assert(option_seq(s.token) + tokens_from(src, s.next, s.line) =~= tokens_from(
        src,
        s.next,
        s.line,
    ));
    assert(option_seq(s.diagnostic) + diagnostics_from(src, s.next, s.line) =~= option_seq(
        s.diagnostic,
    ));
}

/// Scanning through a lexeme boundary: what is yielded before it, followed
/// by what the scan from it yields, is the whole scan.
pub proof fn lemma_scan_until(src: Seq<char>, pos: nat, line: nat, target: nat)
    requires
        scan_until(src, pos, line, target) is Some,
    ensures
        ({
            let r = scan_until(src, pos, line, target)->0;
            &&& tokens_from(src, pos, line) == r.0 + tokens_from(src, target, r.2)
            &&& diagnostics_from(src, pos, line) == r.1 + diagnostics_from(src, target, r.2)
        }),
    decreases src.len() - pos,
{
    if pos == target {
        let r = scan_until(src, pos, line, target)->0;
        assert(r.0 + tokens_from(src, target, r.2) =~= tokens_from(src, pos, line));
        assert(r.1 + diagnostics_from(src, target, r.2) =~= diagnostics_from(src, pos, line));
    } else {
        let s = scan_step(src, pos, line);
        lemma_scan_step_advances(src, pos, line);
        lemma_scan_until(src, s.next, s.line, target);
        let q = scan_until(src, s.next, s.line, target)->0;
        assert(option_seq(s.token) + (q.0 + tokens_from(src, target, q.2)) =~= (option_seq(
            s.token,
        ) + q.0) + tokens_from(src, target, q.2));
        assert(option_seq(s.diagnostic) + (q.1 + diagnostics_from(src, target, q.2)) =~= (
        option_seq(s.diagnostic) + q.1) + diagnostics_from(src, target, q.2));
    }
}

/// A string literal opened at a lexeme boundary and never closed leaves what
/// the text before it yields unchanged, adds no token of its own, adds one
/// diagnostic, and the scan ends with the end-of-input token.
pub proof fn lemma_unterminated_string_after_prefix(src: Seq<char>, k: nat)
    requires
        k < src.len(),
        src[k as int] == '"',
        forall|j: int| k < j < src.len() ==> src[j] != '"',
        scan_until(src, 0, 1, k) is Some,
    ensures
        ({
            let r = scan_until(src, 0, 1, k)->0;
            let end_line = r.2 + newlines(src.subrange(k + 1 as int, src.len() as int));
            &&& tokens_of(src) == r.0 + seq![eof_token(end_line)]
            &&& diagnostics_of(src) == r.1 + seq![
                DiagnosticView { line: end_line, error: ScanError::UnterminatedString },
            ]
        }),
{
    let r = scan_until(src, 0, 1, k)->0;
    lemma_scan_until(src, 0, 1, k);
    lemma_unterminated_string(src, k, r.2);
}

/// A space, carriage return or tab yields nothing and leaves the line
/// counter as it is.
pub proof fn lemma_blank_step(src: Seq<char>, pos: nat, line: nat)
    requires
        pos < src.len(),
        src[pos as int] == ' ' || src[pos as int] == '\r' || src[pos as int] == '\t',
    ensures
        scan_step(src, pos, line) == silent_step(pos + 1, line),
{
}

/// A newline between tokens yields nothing and moves the line counter on by
/// one.
pub proof fn lemma_newline_step(src: Seq<char>, pos: nat, line: nat)
    requires
        pos < src.len(),
        src[pos as int] == '\n',
    ensures
        scan_step(src, pos, line) == silent_step(pos + 1, line + 1),
{
}

/// A line comment yields nothing and runs up to, not over, the next newline,
/// or to the end of the input where there is none.
pub proof fn lemma_comment_step(src: Seq<char>, pos: nat, line: nat)
    requires
        pos + 1 < src.len(),
        src[pos as int] == '/',
        src[pos + 1 as int] == '/',
    ensures
        ({
            let s = scan_step(src, pos, line);
            &&& s.token is None
            &&& s.diagnostic is None
            &&& s.line == line
            &&& pos + 2 <= s.next <= src.len()
            &&& s.next < src.len() ==> src[s.next as int] == '\n'
            &&& forall|k: int| pos + 2 <= k < s.next ==> src[k] != '\n'
        }),
{
    lemma_first_from(src, pos + 2, '\n');
}

/// `!`, `=`, `<` or `>` followed by `=` is one two-character token of the
/// compound kind; otherwise it is a one-character token of the single kind.
pub proof fn lemma_operator_step(src: Seq<char>, pos: nat, line: nat)
    requires
        pos < src.len(),
        operator_kinds(src[pos as int]) is Some,
    ensures
        ({
            let kinds = operator_kinds(src[pos as int])->0;
            if pos + 1 < src.len() && src[pos + 1 as int] == '=' {
                scan_step(src, pos, line) == token_step(src, pos, pos + 2, line, kinds.1)
            } else {
                scan_step(src, pos, line) == token_step(src, pos, pos + 1, line, kinds.0)
            }
        }),
{
}

/// A closed string literal is one token whose lexeme runs from the opening
/// quote to the first quote after it, both included, whose payload is the
/// text between them, and whose line is the line counter after the newlines
/// inside it.
pub proof fn lemma_closed_string_step(src: Seq<char>, pos: nat, line: nat, close: nat)
    requires
        pos < close < src.len(),
        src[pos as int] == '"',
        src[close as int] == '"',
        forall|k: int| pos < k < close ==> src[k] != '"',
    ensures
        ({
            let end_line = line + newlines(src.subrange(pos + 1 as int, close as int));
            scan_step(src, pos, line) == Step {
                next: close + 1,
                line: end_line,
                token: Some(
                    TokenView {
                        kind: TokenType::String,
                        lexeme: src.subrange(pos as int, close + 1 as int),
                        line: end_line,
                        literal: LiteralView::Text(src.subrange(pos + 1 as int, close as int)),
                    },
                ),
                diagnostic: None,
            }
        }),
{
    lemma_first_from(src, pos + 1, '"');
    let f = first_from(src, pos + 1, '"');
    if f < close {
        assert(src[f as int] == '"');
    }
    assert(f == close);
}

/// Scanning depends on the source alone: equal sources give equal tokens
/// and equal diagnostics.
pub proof fn lemma_scan_deterministic(a: Seq<char>, b: Seq<char>)
    requires
        a == b,
    ensures
        tokens_of(a) == tokens_of(b),
        diagnostics_of(a) == diagnostics_of(b),
{
}

} // verus!
