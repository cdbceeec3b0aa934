//! The scanner: a single left-to-right pass over the characters of a source
//! text with one character of lookahead.
use vstd::prelude::*;
use crate::model::{
    diagnostics_from, diagnostics_of, diagnostics_view, newlines, tokens_from, tokens_of, Diagnostic,
    DiagnosticView, ScanError, Step, first_from, lemma_first_from, lemma_newlines_bound,
    lemma_newlines_push, lemma_scan_step_advances, option_seq, scan_step, string_step, eof_token,
};
use crate::token::{tokens_view, Literal, LiteralView, Token, TokenType, TokenView};

verus! {

/// The characters of `s`, in order.
fn chars_of(s: &str) -> (r: Vec<char>)
    ensures
        r@ == s@,
{
    let mut out: Vec<char> = Vec::new();
    for c in it: s.chars()
        invariant
            it.seq() == s@,
            out@ == it.seq().take(it.index() as int),
    {
        out.push(c);
    }
    out
}

/// Relies on `String`'s `FromIterator<&char>`: collecting characters yields
/// the string made of exactly those characters, in order.
#[verifier::external_body]
fn text_of(cs: &[char]) -> (r: String)
    ensures
        r@ == cs@,
{
    cs.iter().collect()
}

/// The characters `cs[from..to]`, as a string.
fn text_between(cs: &Vec<char>, from: usize, to: usize) -> (r: String)
    requires
        from <= to <= cs@.len(),
    ensures
        r@ == cs@.subrange(from as int, to as int),
{
    text_of(&cs.as_slice()[from..to])
}

/// Scanner state: the source's characters, what has been produced so far,
/// the bounds of the lexeme being scanned and the current line.
pub struct Lexer {
    source: Vec<char>,
    tokens: Vec<Token>,
    diagnostics: Vec<Diagnostic>,
    start_lexeme_offset: usize,
    current_lexeme_offset: usize,
    line: usize,
    finished: bool,
}

impl Lexer {
    /// The characters being scanned.
    pub closed spec fn source_chars(&self) -> Seq<char> {
        self.source@
    }

    /// The tokens produced so far.
    pub closed spec fn scanned_tokens(&self) -> Seq<TokenView> {
        tokens_view(self.tokens@)
    }

    /// The diagnostics reported so far.
    pub closed spec fn scanned_diagnostics(&self) -> Seq<DiagnosticView> {
        diagnostics_view(self.diagnostics@)
    }

    /// The cursor: the index of the next character to read.
    pub closed spec fn cursor(&self) -> nat {
        self.current_lexeme_offset as nat
    }

    /// The index where the lexeme being scanned starts.
    pub closed spec fn start(&self) -> nat {
        self.start_lexeme_offset as nat
    }

    /// The line counter (1-based).
    pub closed spec fn line(&self) -> nat {
        self.line as nat
    }

    /// Whether the scan has reached the end and emitted the end-of-input token.
    pub closed spec fn is_finished(&self) -> bool {
        self.finished
    }

    /// The cursor and the line counter stand at a lexeme boundary, and what
    /// was produced so far followed by what the rest yields is the scan of
    /// the whole source.
    pub closed spec fn wf(&self) -> bool {
        let src = self.source@;
        let cur = self.current_lexeme_offset as nat;
        let line = self.line as nat;
        &&& src.len() < usize::MAX
        &&& self.start_lexeme_offset <= self.current_lexeme_offset <= src.len()
        &&& line == 1 + newlines(src.subrange(0, cur as int))
        &&& if self.finished {
            &&& cur == src.len()
            &&& self.scanned_tokens() == tokens_of(src)
            &&& self.scanned_diagnostics() == diagnostics_of(src)
        } else {
            &&& self.scanned_tokens() + tokens_from(src, cur, line) == tokens_of(src)
            &&& self.scanned_diagnostics() + diagnostics_from(src, cur, line) == diagnostics_of(
                src,
            )
        }
    }

    /// What no step within a lexeme changes.
    spec fn same_frame(&self, other: &Lexer) -> bool {
        &&& self.source == other.source
        &&& self.start_lexeme_offset == other.start_lexeme_offset
        &&& self.finished == other.finished
    }

    /// Only the cursor may differ.
    spec fn same_but_cursor(&self, other: &Lexer) -> bool {
        &&& self.same_frame(other)
        &&& self.tokens == other.tokens
        &&& self.diagnostics == other.diagnostics
        &&& self.line == other.line
    }

    /// `self` is `prev` moved over one lexeme as step `s` says.
    spec fn advanced(&self, prev: &Lexer, s: Step) -> bool {
        &&& self.same_frame(prev)
        &&& self.current_lexeme_offset == s.next
        &&& self.line == s.line
        &&& match s.token {
            Some(t) => self.scanned_tokens() == prev.scanned_tokens().push(t),
            None => self.tokens == prev.tokens,
        }
        &&& match s.diagnostic {
            Some(d) => self.scanned_diagnostics() == prev.scanned_diagnostics().push(d),
            None => self.diagnostics == prev.diagnostics,
        }
    }

    fn is_at_eof(&self) -> (r: bool)
        ensures
            r == (self.current_lexeme_offset >= self.source@.len()),
            self.source@.len() <= usize::MAX,
    {
        self.current_lexeme_offset >= self.source.len()
    }

    fn next_char(&mut self) -> (c: char)
        requires
            old(self).current_lexeme_offset < old(self).source@.len() < usize::MAX,
        ensures
            c == old(self).source@[old(self).current_lexeme_offset as int],
            final(self).current_lexeme_offset == old(self).current_lexeme_offset + 1,
            final(self).same_but_cursor(old(self)),
    {
        let c = self.source[self.current_lexeme_offset];
        self.current_lexeme_offset = self.current_lexeme_offset + 1;
        c
    }

    /// The character at the cursor, or `'\0'` at the end.
    fn peek(&self) -> (c: char)
        ensures
            self.current_lexeme_offset < self.source@.len() ==> c
                == self.source@[self.current_lexeme_offset as int],
            self.current_lexeme_offset >= self.source@.len() ==> c == '\0',
    {
        if self.is_at_eof() {
            return '\0';
        }
        self.source[self.current_lexeme_offset]
    }

    /// Consumes the character at the cursor only where it is `expected`.
    fn inmediate_next_match(&mut self, expected: char) -> (r: bool)
        ensures
            r == (old(self).current_lexeme_offset < old(self).source@.len()
                && old(self).source@[old(self).current_lexeme_offset as int] == expected),
            final(self).current_lexeme_offset == old(self).current_lexeme_offset + if r {
                1int
            } else {
                0int
            },
            final(self).same_but_cursor(old(self)),
    {
        if self.is_at_eof() {
            return false;
        }
        if self.source[self.current_lexeme_offset] != expected {
            return false;
        }
        self.current_lexeme_offset = self.current_lexeme_offset + 1;
        true
    }

    /// Emits a token of `token_type` over the current lexeme.
    fn add_token(&mut self, token_type: TokenType)
        requires
            old(self).start_lexeme_offset <= old(self).current_lexeme_offset
                <= old(self).source@.len(),
        ensures
            final(self).scanned_tokens() == old(self).scanned_tokens().push(
                TokenView {
                    kind: token_type,
                    lexeme: old(self).source@.subrange(
                        old(self).start_lexeme_offset as int,
                        old(self).current_lexeme_offset as int,
                    ),
                    line: old(self).line as nat,
                    literal: LiteralView::Number(0),
                },
            ),
            final(self).same_frame(old(self)),
            final(self).diagnostics == old(self).diagnostics,
            final(self).current_lexeme_offset == old(self).current_lexeme_offset,
            final(self).line == old(self).line,
    {
        let lexeme = text_between(&self.source, self.start_lexeme_offset, self.current_lexeme_offset);
        let t = Token::new(token_type, lexeme.as_str(), self.line);
        self.tokens.push(t);
        assert(tokens_view(self.tokens@) =~= tokens_view(old(self).tokens@).push(t@));
    }

    /// Emits a token of `token_type` with a payload over the current lexeme.
    fn add_token_literal(&mut self, token_type: TokenType, literal: Literal)
        requires
            old(self).start_lexeme_offset <= old(self).current_lexeme_offset
                <= old(self).source@.len(),
        ensures
            final(self).scanned_tokens() == old(self).scanned_tokens().push(
                TokenView {
                    kind: token_type,
                    lexeme: old(self).source@.subrange(
                        old(self).start_lexeme_offset as int,
                        old(self).current_lexeme_offset as int,
                    ),
                    line: old(self).line as nat,
                    literal: literal@,
                },
            ),
            final(self).same_frame(old(self)),
            final(self).diagnostics == old(self).diagnostics,
            final(self).current_lexeme_offset == old(self).current_lexeme_offset,
            final(self).line == old(self).line,
    {
        let lexeme = text_between(&self.source, self.start_lexeme_offset, self.current_lexeme_offset);
        let t = Token::new_literal(token_type, lexeme.as_str(), self.line, literal);
        self.tokens.push(t);
        assert(tokens_view(self.tokens@) =~= tokens_view(old(self).tokens@).push(t@));
    }

    /// Records a diagnostic at the current line.
    fn report(&mut self, error: ScanError)
        ensures
            final(self).scanned_diagnostics() == old(self).scanned_diagnostics().push(
                DiagnosticView { line: old(self).line as nat, error },
            ),
            final(self).same_frame(old(self)),
            final(self).tokens == old(self).tokens,
            final(self).current_lexeme_offset == old(self).current_lexeme_offset,
            final(self).line == old(self).line,
    {
        let d = Diagnostic { line: self.line, error };
        self.diagnostics.push(d);
        assert(diagnostics_view(self.diagnostics@) =~= diagnostics_view(old(self).diagnostics@).push(
            d@,
        ));
    }

    /// Emits the compound kind where the next character is `expected`, and
    /// the single kind otherwise.
    fn evaluate_compound_token(
        &mut self,
        expected: char,
        compound_type: TokenType,
        single_type: TokenType,
    )
        requires
            old(self).start_lexeme_offset <= old(self).current_lexeme_offset
                <= old(self).source@.len(),
        ensures
            ({
                let src = old(self).source@;
                let cur = old(self).current_lexeme_offset as int;
                let m = cur < src.len() && src[cur] == expected;
                let next = if m { cur + 1 } else { cur };
                &&& final(self).current_lexeme_offset == next
                &&& final(self).scanned_tokens() == old(self).scanned_tokens().push(
                    TokenView {
                        kind: if m { compound_type } else { single_type },
                        lexeme: src.subrange(old(self).start_lexeme_offset as int, next),
                        line: old(self).line as nat,
                        literal: LiteralView::Number(0),
                    },
                )
                &&& final(self).same_frame(old(self))
                &&& final(self).diagnostics == old(self).diagnostics
                &&& final(self).line == old(self).line
            }),
    {
        let token_type = if self.inmediate_next_match(expected) {
            compound_type
        } else {
            single_type
        };
        self.add_token(token_type);
    }

    /// Scans a string literal whose opening quote has just been consumed.
    fn scan_string(&mut self)
        requires
            old(self).source@.len() < usize::MAX,
            old(self).start_lexeme_offset < old(self).source@.len(),
            old(self).current_lexeme_offset == old(self).start_lexeme_offset + 1,
            old(self).source@[old(self).start_lexeme_offset as int] == '"',
            old(self).line == 1 + newlines(
                old(self).source@.subrange(0, old(self).start_lexeme_offset as int),
            ),
        ensures
            final(self).advanced(
                old(self),
                string_step(
                    old(self).source@,
                    old(self).start_lexeme_offset as nat,
                    old(self).line as nat,
                ),
            ),
            final(self).line == 1 + newlines(
                final(self).source@.subrange(0, final(self).current_lexeme_offset as int),
            ),
    {
        let ghost src = self.source@;
        let ghost pos = self.start_lexeme_offset as int;
        let ghost line0 = self.line as nat;
        let ghost close = first_from(src, (pos + 1) as nat, '"') as int;
        proof {
            lemma_first_from(src, (pos + 1) as nat, '"');
            lemma_newlines_push(src, 0, pos);
        }
        while self.peek() != '"' && !self.is_at_eof()
            invariant
                self.same_frame(old(self)),
                self.tokens == old(self).tokens,
                self.diagnostics == old(self).diagnostics,
                src == self.source@,
                src.len() < usize::MAX,
                pos == self.start_lexeme_offset,
                0 <= pos < src.len(),
                src[pos] == '"',
                pos + 1 <= self.current_lexeme_offset <= close <= src.len(),
                close < src.len() ==> src[close] == '"',
                forall|k: int| pos + 1 <= k < close ==> src[k] != '"',
                self.line == line0 + newlines(
                    src.subrange(pos + 1, self.current_lexeme_offset as int),
                ),
                self.line == 1 + newlines(src.subrange(0, self.current_lexeme_offset as int)),
            decreases src.len() - self.current_lexeme_offset,
        {
            let ghost k = self.current_lexeme_offset as int;
            proof {
                lemma_newlines_push(src, pos + 1, k);
                lemma_newlines_push(src, 0, k);
                lemma_newlines_bound(src.subrange(0, k));
            }
            if self.peek() == '\n' {
                self.line = self.line + 1;
            }
            self.next_char();
        }
        if self.is_at_eof() {
            self.report(ScanError::UnterminatedString);
            return;
        }
        self.next_char();
        proof {
            lemma_newlines_push(src, 0, close);
        }
        let text = text_between(
            &self.source,
            self.start_lexeme_offset + 1,
            self.current_lexeme_offset - 1,
        );
        self.add_token_literal(TokenType::String, Literal::S(text));
    }

    /// Scans one lexeme, starting at the cursor.
    fn scan_token(&mut self)
        requires
            old(self).source@.len() < usize::MAX,
            old(self).start_lexeme_offset == old(self).current_lexeme_offset,
            old(self).current_lexeme_offset < old(self).source@.len(),
            old(self).line == 1 + newlines(
                old(self).source@.subrange(0, old(self).current_lexeme_offset as int),
            ),
        ensures
            final(self).advanced(
                old(self),
                scan_step(
                    old(self).source@,
                    old(self).current_lexeme_offset as nat,
                    old(self).line as nat,
                ),
            ),
            final(self).line == 1 + newlines(
                final(self).source@.subrange(0, final(self).current_lexeme_offset as int),
            ),
    {
        let ghost src = self.source@;
        let ghost pos = self.current_lexeme_offset as int;
        proof {
            lemma_newlines_push(src, 0, pos);
            lemma_newlines_bound(src.subrange(0, pos));
        }
        let current_char = self.next_char();
        proof {
            if current_char != '\n' {
                assert(newlines(src.subrange(0, pos + 1)) == newlines(src.subrange(0, pos)));
            }
            if pos + 1 < src.len() {
                lemma_newlines_push(src, 0, pos + 1);
            }
        }
        match current_char {
            '(' => self.add_token(TokenType::LeftParenthesis),
            ')' => self.add_token(TokenType::RightParenthesis),
            '{' => self.add_token(TokenType::LeftBrace),
            '}' => self.add_token(TokenType::RightBrace),
            ',' => self.add_token(TokenType::Comma),
            '.' => self.add_token(TokenType::Dot),
            '-' => self.add_token(TokenType::Minus),
            '+' => self.add_token(TokenType::Plus),
            ';' => self.add_token(TokenType::Semicolon),
            '*' => self.add_token(TokenType::Star),
            '"' => self.scan_string(),
            '!' => self.evaluate_compound_token('=', TokenType::BangEqual, TokenType::Bang),
            '=' => self.evaluate_compound_token('=', TokenType::EqualEqual, TokenType::Equal),
            '<' => self.evaluate_compound_token('=', TokenType::LessEqual, TokenType::Less),
            '>' => self.evaluate_compound_token('=', TokenType::GreaterEqual, TokenType::Greater),
            '/' => {
                if self.inmediate_next_match('/') {
                    let ghost end = first_from(src, (pos + 2) as nat, '\n') as int;
                    proof {
                        lemma_newlines_push(src, 0, pos + 1);
                        lemma_first_from(src, (pos + 2) as nat, '\n');
                    }
                    while self.peek() != '\n' && !self.is_at_eof()
                        invariant
                            self.same_frame(old(self)),
                            self.tokens == old(self).tokens,
                            self.diagnostics == old(self).diagnostics,
                            self.line == old(self).line,
                            src == self.source@,
                            src.len() < usize::MAX,
                            0 <= pos,
                            pos + 2 <= self.current_lexeme_offset <= end <= src.len(),
                            end < src.len() ==> src[end] == '\n',
                            forall|k: int| pos + 2 <= k < end ==> src[k] != '\n',
                            self.line == 1 + newlines(
                                src.subrange(0, self.current_lexeme_offset as int),
                            ),
                        decreases src.len() - self.current_lexeme_offset,
                    {
                        proof {
                            lemma_newlines_push(src, 0, self.current_lexeme_offset as int);
                        }
                        self.next_char();
                    }
                } else {
                    self.add_token(TokenType::Slash);
                }
            },
            '\n' => self.line = self.line + 1,
            ' ' | '\r' | '\t' => {},
            _ => self.report(ScanError::UnsupportedCharacter(current_char)),
        }
    }

    /// Scans the rest of the source and returns every token of it, the
    /// end-of-input token last. On a finished scanner it changes nothing.
    pub fn scan_tokens(&mut self) -> (r: &Vec<Token>)
        requires
            old(self).wf(),
        ensures
            final(self).wf(),
            final(self).is_finished(),
            final(self).source_chars() == old(self).source_chars(),
            tokens_view(r@) == tokens_of(old(self).source_chars()),
            final(self).scanned_tokens() == tokens_of(old(self).source_chars()),
            final(self).scanned_diagnostics() == diagnostics_of(old(self).source_chars()),
    {
        if self.finished {
            return &self.tokens;
        }
        let ghost src = self.source@;
        while !self.is_at_eof()
            invariant
                self.wf(),
                !self.finished,
                self.source@ == src,
            decreases src.len() - self.current_lexeme_offset,
        {
            self.start_lexeme_offset = self.current_lexeme_offset;
            let ghost toks = self.scanned_tokens();
            let ghost diags = self.scanned_diagnostics();
            let ghost cur = self.current_lexeme_offset as nat;
            let ghost line = self.line as nat;
            self.scan_token();
            proof {
                let s = scan_step(src, cur, line);
                lemma_scan_step_advances(src, cur, line);
                assert(tokens_from(src, cur, line) == option_seq(s.token) + tokens_from(
                    src,
                    s.next,
                    s.line,
                ));
                assert(diagnostics_from(src, cur, line) == option_seq(s.diagnostic)
                    + diagnostics_from(src, s.next, s.line));
                assert(toks + tokens_from(src, cur, line) =~= self.scanned_tokens() + tokens_from(
                    src,
                    s.next,
                    s.line,
                ));
                assert(diags + diagnostics_from(src, cur, line) =~= self.scanned_diagnostics()
                    + diagnostics_from(src, s.next, s.line));
            }
        }
        let ghost toks = self.scanned_tokens();
        proof {
            reveal_strlit("\0");
            assert("\0"@ =~= seq!['\0']);
        }
        let eof = Token::new(TokenType::EOF, "\0", self.line);
        self.tokens.push(eof);
        self.finished = true;
        proof {
            assert(eof@ == eof_token(self.line as nat));
            assert(tokens_from(src, self.current_lexeme_offset as nat, self.line as nat) == seq![
                eof_token(self.line as nat),
            ]);
            assert(tokens_view(self.tokens@) =~= toks.push(eof@));
            assert(toks + seq![eof@] =~= toks.push(eof@));
            assert(self.scanned_diagnostics() + Seq::<DiagnosticView>::empty()
                =~= self.scanned_diagnostics());
        }
        &self.tokens
    }

    /// The diagnostics reported so far.
    pub fn diagnostics(&self) -> (r: &Vec<Diagnostic>)
        ensures
            diagnostics_view(r@) == self.scanned_diagnostics(),
    {
        &self.diagnostics
    }

    /// A scanner at the start of `source`.
    pub fn new(source: &String) -> (r: Lexer)
        requires
            source@.len() < usize::MAX,
        ensures
            r.wf(),
            r.source_chars() == source@,
            r.cursor() == 0,
            r.start() == 0,
            r.line() == 1,
            !r.is_finished(),
            r.scanned_tokens() == Seq::<TokenView>::empty(),
            r.scanned_diagnostics() == Seq::<DiagnosticView>::empty(),
    {
        let r = Lexer {
            source: chars_of(source.as_str()),
            tokens: Vec::new(),
            diagnostics: Vec::new(),
            start_lexeme_offset: 0,
            current_lexeme_offset: 0,
            line: 1,
            finished: false,
        };
        assert(r.source@.subrange(0, 0) =~= Seq::<char>::empty());
        assert(r.scanned_tokens() =~= Seq::<TokenView>::empty());
        assert(r.scanned_diagnostics() =~= Seq::<DiagnosticView>::empty());
        assert(Seq::<TokenView>::empty() + tokens_of(r.source@) =~= tokens_of(r.source@));
        assert(Seq::<DiagnosticView>::empty() + diagnostics_of(r.source@) =~= diagnostics_of(
            r.source@,
        ));
        r
    }
}

} // verus!
