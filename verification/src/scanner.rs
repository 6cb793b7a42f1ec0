//! The scanning automaton.
//!
//! The behaviour of the scanner is stated once, as a mathematical model:
//! [`spec_scan`] says which token starts at a given cursor position and where
//! the cursor stands afterwards, and [`spec_tokens`] chains those steps into
//! the full token sequence of a buffer. The executable [`Lexer`] is proved to
//! follow that model step by step.

use crate::token::{spec_resolve_type, Token, TokenType};
use vstd::prelude::*;
use vstd::string::StrSliceExecFns;

verus! {

/// A whitespace character the scanner skips between tokens.
pub open spec fn is_whitespace_char(c: char) -> bool {
    c == ' ' || c == '\t' || c == '\n' || c == '\r'
}

/// A character that can start an identifier run: a letter or underscore.
pub open spec fn is_letter(c: char) -> bool {
    ('a' <= c && c <= 'z') || ('A' <= c && c <= 'Z') || c == '_'
}

/// A decimal digit.
pub open spec fn is_digit(c: char) -> bool {
    '0' <= c && c <= '9'
}

/// A character that can continue an identifier run once one has started.
pub open spec fn is_ident_continue(c: char) -> bool {
    is_letter(c) || is_digit(c)
}

/// The token kind a single character produces when no lookahead applies;
/// characters outside the recognized set produce `Illegal`.
pub open spec fn single_char_kind(c: char) -> TokenType {
    if c == '=' {
        TokenType::Assign
    } else if c == '+' {
        TokenType::Plus
    } else if c == '-' {
        TokenType::Minus
    } else if c == '!' {
        TokenType::Bang
    } else if c == '*' {
        TokenType::Asterisk
    } else if c == '/' {
        TokenType::Slash
    } else if c == '<' {
        TokenType::LesserThan
    } else if c == '>' {
        TokenType::GreaterThan
    } else if c == ',' {
        TokenType::Comma
    } else if c == ';' {
        TokenType::Semicolon
    } else if c == '(' {
        TokenType::LParen
    } else if c == ')' {
        TokenType::RParen
    } else if c == '{' {
        TokenType::LBrace
    } else if c == '}' {
        TokenType::RBrace
    } else {
        TokenType::Illegal
    }
}

/// The first position at or after `pos` that does not hold whitespace
/// (the length of the buffer if only whitespace remains).
pub open spec fn skip_ws(src: Seq<char>, pos: int) -> int
    decreases src.len() - pos,
{
    if pos < src.len() && is_whitespace_char(src[pos]) {
        skip_ws(src, pos + 1)
    } else {
        pos
    }
}

/// The end of the maximal identifier run starting at `pos`: the first
/// position at or after `pos` whose character cannot continue an identifier.
pub open spec fn ident_run_end(src: Seq<char>, pos: int) -> int
    decreases src.len() - pos,
{
    if pos < src.len() && is_ident_continue(src[pos]) {
        ident_run_end(src, pos + 1)
    } else {
        pos
    }
}

/// The end of the maximal digit run starting at `pos`.
pub open spec fn digit_run_end(src: Seq<char>, pos: int) -> int
    decreases src.len() - pos,
{
    if pos < src.len() && is_digit(src[pos]) {
        digit_run_end(src, pos + 1)
    } else {
        pos
    }
}

/// One step of the scanning automaton: the token it emits and the cursor
/// position it leaves behind.
pub ghost struct ScanStep {
    /// The kind of the emitted token.
    pub kind: TokenType,
    /// The exact characters of the source that produced the token.
    pub lexeme: Seq<char>,
    /// Position of the lexeme's first character (the cursor itself for
    /// the end-of-input marker).
    pub offset: int,
    /// The cursor position after the token, just past the lexeme.
    pub next_pos: int,
}

/// The scanning automaton itself: the token that a scan starting at `pos`
/// emits. Leading whitespace is skipped; at the end of the buffer the result
/// is the end-of-input marker; a letter or digit opens a maximal run; `!` and
/// `=` look one character ahead for `==` and `!=`; every other character maps
/// through [`single_char_kind`].
pub open spec fn spec_scan(src: Seq<char>, pos: int) -> ScanStep
    recommends
        0 <= pos <= src.len(),
{
    let start = skip_ws(src, pos);
    if start >= src.len() {
        ScanStep { kind: TokenType::Eof, lexeme: Seq::empty(), offset: start, next_pos: start }
    } else {
        let c = src[start];
        if is_letter(c) {
            let end = ident_run_end(src, start);
            ScanStep {
                kind: spec_resolve_type(src.subrange(start, end)),
                lexeme: src.subrange(start, end),
                offset: start,
                next_pos: end,
            }
        } else if is_digit(c) {
            let end = digit_run_end(src, start);
            ScanStep {
                kind: TokenType::Int,
                lexeme: src.subrange(start, end),
                offset: start,
                next_pos: end,
            }
        } else if (c == '=' || c == '!') && start + 1 < src.len() && src[start + 1] == '=' {
            ScanStep {
                kind: if c == '=' {
                    TokenType::Eq
                } else {
                    TokenType::NotEq
                },
                lexeme: src.subrange(start, start + 2),
                offset: start,
                next_pos: start + 2,
            }
        } else {
            ScanStep {
                kind: single_char_kind(c),
                lexeme: src.subrange(start, start + 1),
                offset: start,
                next_pos: start + 1,
            }
        }
    }
}

/// Whitespace skipping lands on the first non-whitespace position: every
/// character before it (from `pos` on) is whitespace, and the character at
/// the landing position, if any, is not.
pub proof fn lemma_skip_ws(src: Seq<char>, pos: int)
    requires
        0 <= pos <= src.len(),
    ensures
        pos <= skip_ws(src, pos) <= src.len(),
        forall|k: int| pos <= k < skip_ws(src, pos) ==> is_whitespace_char(#[trigger] src[k]),
        skip_ws(src, pos) < src.len() ==> !is_whitespace_char(src[skip_ws(src, pos)]),
    decreases src.len() - pos,
{
    if pos < src.len() && is_whitespace_char(src[pos]) {
        lemma_skip_ws(src, pos + 1);
    }
}

/// An identifier run is maximal: every character inside it can continue an
/// identifier, and the character just past it, if any, cannot.
pub proof fn lemma_ident_run_end(src: Seq<char>, pos: int)
    requires
        0 <= pos <= src.len(),
    ensures
        pos <= ident_run_end(src, pos) <= src.len(),
        forall|k: int| pos <= k < ident_run_end(src, pos) ==> is_ident_continue(#[trigger] src[k]),
        ident_run_end(src, pos) < src.len() ==> !is_ident_continue(src[ident_run_end(src, pos)]),
    decreases src.len() - pos,
{
    if pos < src.len() && is_ident_continue(src[pos]) {
        lemma_ident_run_end(src, pos + 1);
    }
}

/// A digit run is maximal: every character inside it is a digit, and the
/// character just past it, if any, is not.
pub proof fn lemma_digit_run_end(src: Seq<char>, pos: int)
    requires
        0 <= pos <= src.len(),
    ensures
        pos <= digit_run_end(src, pos) <= src.len(),
        forall|k: int| pos <= k < digit_run_end(src, pos) ==> is_digit(#[trigger] src[k]),
        digit_run_end(src, pos) < src.len() ==> !is_digit(src[digit_run_end(src, pos)]),
    decreases src.len() - pos,
{
    if pos < src.len() && is_digit(src[pos]) {
        lemma_digit_run_end(src, pos + 1);
    }
}

/// The scanner over one source buffer: a cursor that walks the buffer and
/// hands out one token per [`Lexer::next_token`] call, ending with an
/// end-of-input marker that repeats on every further call.
#[derive(Debug)]
pub struct Lexer {
    source: String,
    pos: usize,
    len: usize,
    finished: bool,
}

impl Lexer {
    /// The characters of the source buffer the scanner walks.
    pub closed spec fn src(&self) -> Seq<char> {
        self.source@
    }

    /// The scanner's cursor: the position the next scan starts from.
    pub closed spec fn cursor(&self) -> int {
        self.pos as int
    }

    /// Whether the scanner has already emitted the end-of-input marker.
    pub closed spec fn is_finished(&self) -> bool {
        self.finished
    }

    /// The scanner's internal invariant: the cursor stays inside the buffer,
    /// and a finished scanner stands at its end.
    pub closed spec fn wf(&self) -> bool {
        &&& self.len == self.source@.len()
        &&& self.pos <= self.len
        &&& (self.finished ==> self.pos == self.len)
    }

    /// Builds a scanner over one owned source buffer, with the cursor at the
    /// start.
    pub fn new(source: String) -> (lexer: Lexer)
        ensures
            lexer.wf(),
            lexer.src() == source@,
            lexer.cursor() == 0,
            !lexer.is_finished(),
    {
        let len = source.as_str().unicode_len();
        Lexer { source, pos: 0, len, finished: false }
    }

    /// The character just after the one under the cursor — the next character
    /// to be consumed after the current one — or nothing if the buffer ends
    /// first. It is looked at, never consumed.
    fn peek_char(&self) -> (c: Option<char>)
        requires
            self.wf(),
        ensures
            c == (if self.cursor() + 1 < self.src().len() {
                Some(self.src()[self.cursor() + 1])
            } else {
                None::<char>
            }),
    {
        if self.pos < self.len && self.pos + 1 < self.len {
            Some(self.source.as_str().get_char(self.pos + 1))
        } else {
            None
        }
    }

    /// The character at a given position of the buffer.
    fn char_at(&self, i: usize) -> (c: char)
        requires
            self.wf(),
            i < self.src().len(),
        ensures
            c == self.src()[i as int],
    {
        self.source.as_str().get_char(i)
    }
}

/// Decides [`is_whitespace_char`] executably.
fn whitespace_char(c: char) -> (r: bool)
    ensures
        r == is_whitespace_char(c),
{
    c == ' ' || c == '\t' || c == '\n' || c == '\r'
}

/// Decides [`is_letter`] executably.
fn letter_char(c: char) -> (r: bool)
    ensures
        r == is_letter(c),
{
    ('a' <= c && c <= 'z') || ('A' <= c && c <= 'Z') || c == '_'
}

/// Decides [`is_digit`] executably.
fn digit_char(c: char) -> (r: bool)
    ensures
        r == is_digit(c),
{
    '0' <= c && c <= '9'
}

/// Decides [`is_ident_continue`] executably.
fn continue_char(c: char) -> (r: bool)
    ensures
        r == is_ident_continue(c),
{
    letter_char(c) || digit_char(c)
}

/// Maps a single character to its token kind, as [`single_char_kind`] does.
fn single_kind(c: char) -> (k: TokenType)
    ensures
        k == single_char_kind(c),
{
    if c == '=' {
        TokenType::Assign
    } else if c == '+' {
        TokenType::Plus
    } else if c == '-' {
        TokenType::Minus
    } else if c == '!' {
        TokenType::Bang
    } else if c == '*' {
        TokenType::Asterisk
    } else if c == '/' {
        TokenType::Slash
    } else if c == '<' {
        TokenType::LesserThan
    } else if c == '>' {
        TokenType::GreaterThan
    } else if c == ',' {
        TokenType::Comma
    } else if c == ';' {
        TokenType::Semicolon
    } else if c == '(' {
        TokenType::LParen
    } else if c == ')' {
        TokenType::RParen
    } else if c == '{' {
        TokenType::LBrace
    } else if c == '}' {
        TokenType::RBrace
    } else {
        TokenType::Illegal
    }
}

impl Lexer {
    /// Emits the next token of the buffer, exactly as the automaton
    /// [`spec_scan`] prescribes for the current cursor: leading whitespace is
    /// skipped, the token starts at the first remaining character, and the
    /// cursor moves just past its lexeme. At the end of the buffer the token
    /// is the end-of-input marker with an empty lexeme, and the scanner stays
    /// finished, so every further call returns the marker again.
    pub fn next_token(&mut self) -> (t: Token)
        requires
            old(self).wf(),
        ensures
            final(self).wf(),
            final(self).src() == old(self).src(),
            ({
                let step = spec_scan(old(self).src(), old(self).cursor());
                &&& t.token_type == step.kind
                &&& t.lexeme@ == step.lexeme
                &&& t.offset == step.offset
                &&& final(self).cursor() == step.next_pos
                &&& final(self).is_finished() == (old(self).is_finished() || step.kind
                    == TokenType::Eof)
            }),
    {
        let ghost src = self.source@;
        let ghost pos0 = self.pos as int;
        proof {
            lemma_skip_ws(src, pos0);
        }
        // Skip every leading whitespace character.
        let mut i: usize = self.pos;
        while i < self.len && whitespace_char(self.char_at(i))
            invariant
                self.wf(),
                self.source@ == src,
                self.pos == pos0,
                pos0 <= i <= src.len(),
                skip_ws(src, pos0) == skip_ws(src, i as int),
            decreases src.len() - i,
        {
            i += 1;
        }
        assert(i as int == skip_ws(src, pos0));
        self.pos = i;
        let start = i;
        if start >= self.len {
            // At or past the end of the buffer: mark the scanner finished.
            self.finished = true;
            return Token::new(TokenType::Eof, String::new(), start);
        }
        assert(!self.finished) by {
            if old(self).finished {
                assert(pos0 == src.len());
            }
        }
        let c = self.char_at(start);
        let end: usize;
        let kind: TokenType;
        if letter_char(c) {
            // A maximal run of letters, digits and underscores, classified
            // through the keyword table.
            let mut j: usize = start + 1;
            while j < self.len && continue_char(self.char_at(j))
                invariant
                    self.wf(),
                    self.source@ == src,
                    start < j <= src.len(),
                    ident_run_end(src, start as int) == ident_run_end(src, j as int),
                decreases src.len() - j,
            {
                j += 1;
            }
            assert(j as int == ident_run_end(src, start as int));
            end = j;
            kind = TokenType::resolve_type(self.source.as_str().substring_char(start, end));
        } else if digit_char(c) {
            // A maximal run of decimal digits.
            let mut j: usize = start + 1;
            while j < self.len && digit_char(self.char_at(j))
                invariant
                    self.wf(),
                    self.source@ == src,
                    start < j <= src.len(),
                    digit_run_end(src, start as int) == digit_run_end(src, j as int),
                decreases src.len() - j,
            {
                j += 1;
            }
            assert(j as int == digit_run_end(src, start as int));
            end = j;
            kind = TokenType::Int;
        } else if c == '=' || c == '!' {
            // The two ambiguous characters: look one character ahead without
            // consuming it.
            let lookahead_matches = match self.peek_char() {
                Some(n) => n == '=',
                None => false,
            };
            if lookahead_matches {
                end = start + 2;
                kind = if c == '=' {
                    TokenType::Eq
                } else {
                    TokenType::NotEq
                };
            } else {
                end = start + 1;
                kind = single_kind(c);
            }
        } else {
            end = start + 1;
            kind = single_kind(c);
        }
        let lexeme = self.source.as_str().substring_char(start, end).to_owned();
        self.pos = end;
        Token::new(kind, lexeme, start)
    }
}

/// The scanner makes progress: each step stays inside the buffer, and either
/// emits the end-of-input marker or advances the cursor strictly. Repeated
/// calls therefore terminate: they reach `Eof` after at most as many steps as
/// the buffer has characters left.
pub proof fn lemma_scan_progress(src: Seq<char>, pos: int)
    requires
        0 <= pos <= src.len(),
    ensures
        pos <= spec_scan(src, pos).next_pos <= src.len(),
        spec_scan(src, pos).kind == TokenType::Eof <==> spec_scan(src, pos).next_pos == src.len()
            && skip_ws(src, pos) == src.len(),
        spec_scan(src, pos).kind != TokenType::Eof ==> spec_scan(src, pos).next_pos > pos,
        pos <= spec_scan(src, pos).offset <= spec_scan(src, pos).next_pos,
        spec_scan(src, pos).lexeme.len() == spec_scan(src, pos).next_pos - spec_scan(
            src,
            pos,
        ).offset,
{
    lemma_skip_ws(src, pos);
    let start = skip_ws(src, pos);
    if start < src.len() {
        let c = src[start];
        if is_letter(c) {
            lemma_ident_run_end(src, start);
            assert(ident_run_end(src, start) > start);
            assert(spec_resolve_type(src.subrange(start, ident_run_end(src, start)))
                != TokenType::Eof);
        } else if is_digit(c) {
            lemma_digit_run_end(src, start);
        }
    }
}

/// Once the scanner reports end of input it stays there: the step after an
/// `Eof` step is that very step again, with the same (stable) offset and the
/// empty lexeme, for every further call.
pub proof fn lemma_end_of_input_idempotent(src: Seq<char>, pos: int)
    requires
        0 <= pos <= src.len(),
        spec_scan(src, pos).kind == TokenType::Eof,
    ensures
        spec_scan(src, spec_scan(src, pos).next_pos) == spec_scan(src, pos),
        spec_scan(src, pos).lexeme == Seq::<char>::empty(),
{
    lemma_scan_progress(src, pos);
}

/// A finished scanner stands at the end of its buffer, where the automaton
/// yields the end-of-input step without moving: together with the contract of
/// [`Lexer::next_token`], every call after the first end-of-input token
/// returns another end-of-input token, with the same offset and an empty
/// lexeme.
pub proof fn lemma_finished_scanner_at_end(lexer: &Lexer)
    requires
        lexer.wf(),
        lexer.is_finished(),
    ensures
        lexer.cursor() == lexer.src().len(),
        spec_scan(lexer.src(), lexer.cursor()) == (ScanStep {
            kind: TokenType::Eof,
            lexeme: Seq::<char>::empty(),
            offset: lexer.cursor(),
            next_pos: lexer.cursor(),
        }),
{
    assert(skip_ws(lexer.src(), lexer.cursor()) == lexer.cursor());
}

/// Longest match: a token that starts with a letter or a digit extends to the
/// first character that cannot continue its run — never shorter — and every
/// character inside the lexeme belongs to the run.
pub proof fn lemma_longest_match(src: Seq<char>, pos: int)
    requires
        0 <= pos <= src.len(),
    ensures
        ({
            let step = spec_scan(src, pos);
            &&& (step.offset < src.len() && is_letter(src[step.offset]) ==> {
                &&& step.lexeme == src.subrange(step.offset, step.next_pos)
                &&& forall|k: int|
                    step.offset <= k < step.next_pos ==> is_ident_continue(#[trigger] src[k])
                &&& step.next_pos < src.len() ==> !is_ident_continue(src[step.next_pos])
            })
            &&& (step.offset < src.len() && is_digit(src[step.offset]) ==> {
                &&& step.lexeme == src.subrange(step.offset, step.next_pos)
                &&& forall|k: int| step.offset <= k < step.next_pos ==> is_digit(#[trigger] src[k])
                &&& step.next_pos < src.len() ==> !is_digit(src[step.next_pos])
            })
        }),
{
    lemma_skip_ws(src, pos);
    let start = skip_ws(src, pos);
    if start < src.len() {
        if is_letter(src[start]) {
            lemma_ident_run_end(src, start);
        } else if is_digit(src[start]) {
            lemma_digit_run_end(src, start);
        }
    }
}

/// Two-character lookahead: on `!` or `=` the two-character operator is
/// emitted exactly when the very next character is `=`; otherwise the
/// single-character kind is emitted with a one-character lexeme.
pub proof fn lemma_two_char_lookahead(src: Seq<char>, pos: int)
    requires
        0 <= pos <= src.len(),
    ensures
        ({
            let step = spec_scan(src, pos);
            let start = step.offset;
            &&& (start < src.len() && src[start] == '!' ==> {
                if start + 1 < src.len() && src[start + 1] == '=' {
                    step.kind == TokenType::NotEq && step.lexeme == src.subrange(start, start + 2)
                        && step.next_pos == start + 2
                } else {
                    step.kind == TokenType::Bang && step.lexeme == src.subrange(start, start + 1)
                        && step.next_pos == start + 1
                }
            })
            &&& (start < src.len() && src[start] == '=' ==> {
                if start + 1 < src.len() && src[start + 1] == '=' {
                    step.kind == TokenType::Eq && step.lexeme == src.subrange(start, start + 2)
                        && step.next_pos == start + 2
                } else {
                    step.kind == TokenType::Assign && step.lexeme == src.subrange(start, start + 1)
                        && step.next_pos == start + 1
                }
            })
        }),
{
    lemma_skip_ws(src, pos);
}

/// Offset correctness: a token's offset is the position of the first
/// non-whitespace character at or after the cursor — everything skipped
/// before it is whitespace, and a real token's lexeme starts right there.
pub proof fn lemma_token_offset(src: Seq<char>, pos: int)
    requires
        0 <= pos <= src.len(),
    ensures
        ({
            let step = spec_scan(src, pos);
            &&& pos <= step.offset <= src.len()
            &&& forall|k: int| pos <= k < step.offset ==> is_whitespace_char(#[trigger] src[k])
            &&& step.offset < src.len() ==> !is_whitespace_char(src[step.offset])
            &&& step.kind != TokenType::Eof ==> step.offset < src.len() && step.lexeme
                == src.subrange(step.offset, step.next_pos)
        }),
{
    lemma_skip_ws(src, pos);
}

/// The full token sequence of a buffer from a given cursor: scan steps chained
/// until the end-of-input marker, which is itself the last element.
pub open spec fn spec_tokens(src: Seq<char>, pos: int) -> Seq<ScanStep>
    recommends
        0 <= pos <= src.len(),
    decreases src.len() - pos,
        when 0 <= pos <= src.len()
        via spec_tokens_decreases
{
    let step = spec_scan(src, pos);
    if step.kind == TokenType::Eof {
        seq![step]
    } else {
        seq![step] + spec_tokens(src, step.next_pos)
    }
}

#[via_fn]
proof fn spec_tokens_decreases(src: Seq<char>, pos: int) {
    lemma_scan_progress(src, pos);
}

/// Scanning terminates on every input: from any cursor the token sequence is
/// finite — at most one token per remaining character, plus the end marker —
/// and the end-of-input step is exactly its last element.
pub proof fn lemma_scan_terminates(src: Seq<char>, pos: int)
    requires
        0 <= pos <= src.len(),
    ensures
        1 <= spec_tokens(src, pos).len() <= src.len() - pos + 1,
        spec_tokens(src, pos).last().kind == TokenType::Eof,
        forall|k: int|
            0 <= k < spec_tokens(src, pos).len() - 1 ==> (#[trigger] spec_tokens(src, pos)[k]).kind
                != TokenType::Eof,
    decreases src.len() - pos,
{
    lemma_scan_progress(src, pos);
    let step = spec_scan(src, pos);
    if step.kind != TokenType::Eof {
        lemma_scan_terminates(src, step.next_pos);
    }
}

/// Tokens come in strict left-to-right source order: each token's lexeme ends
/// at or before the offset of the token that follows it.
#[verifier::rlimit(30)]
pub proof fn lemma_left_to_right_order(src: Seq<char>, pos: int)
    requires
        0 <= pos <= src.len(),
    ensures
        forall|k: int|
            0 <= k < spec_tokens(src, pos).len() - 1 ==> (#[trigger] spec_tokens(src, pos)[k]).offset
                + spec_tokens(src, pos)[k].lexeme.len() <= spec_tokens(src, pos)[k + 1].offset,
    decreases src.len() - pos,
{
    lemma_scan_progress(src, pos);
    let step = spec_scan(src, pos);
    let steps = spec_tokens(src, pos);
    if step.kind != TokenType::Eof {
        let rest = spec_tokens(src, step.next_pos);
        lemma_left_to_right_order(src, step.next_pos);
        lemma_scan_progress(src, step.next_pos);
        assert(steps == seq![step] + rest);
        assert forall|k: int| 0 <= k < steps.len() - 1 implies (#[trigger] steps[k]).offset
            + steps[k].lexeme.len() <= steps[k + 1].offset by {
            assert(steps[k + 1] == rest[k]);
            if k == 0 {
                assert(steps[0] == step);
                assert(rest[0] == spec_scan(src, step.next_pos));
            } else {
                assert(steps[k] == rest[k - 1]);
                assert(rest[k - 1].offset + rest[k - 1].lexeme.len() <= rest[k].offset);
            }
        }
    }
}

/// Whether an emitted token is the one a given scan step prescribes.
pub open spec fn token_matches(t: Token, step: ScanStep) -> bool {
    &&& t.token_type == step.kind
    &&& t.lexeme@ == step.lexeme
    &&& t.offset == step.offset
}

/// Scans a whole buffer in one call: the tokens of the source in strict
/// left-to-right order, ending with the end-of-input marker, exactly as
/// [`spec_tokens`] prescribes.
pub fn tokenize(source: String) -> (tokens: Vec<Token>)
    ensures
        ({
            let steps = spec_tokens(source@, 0);
            &&& tokens@.len() == steps.len()
            &&& forall|k: int|
                0 <= k < steps.len() ==> token_matches(#[trigger] tokens@[k], steps[k])
        }),
{
    let ghost src = source@;
    let ghost steps = spec_tokens(src, 0);
    let mut lexer = Lexer::new(source);
    let mut tokens: Vec<Token> = Vec::new();
    let mut done = false;
    while !done
        invariant
            lexer.wf(),
            lexer.src() == src,
            steps == spec_tokens(src, 0),
            forall|k: int|
                0 <= k < tokens@.len() ==> token_matches(#[trigger] tokens@[k], steps[k]),
            !done ==> tokens@.len() <= steps.len() && steps.skip(tokens@.len() as int)
                == spec_tokens(src, lexer.cursor()),
            done ==> tokens@.len() == steps.len(),
        decreases (if done {
            0int
        } else {
            src.len() - lexer.cursor() + 1
        }),
    {
        proof {
            lemma_scan_progress(src, lexer.cursor());
        }
        let ghost count = tokens@.len() as int;
        let ghost pos = lexer.cursor();
        let token = lexer.next_token();
        let is_end = token.token_type == TokenType::Eof;
        proof {
            let suffix = spec_tokens(src, pos);
            assert(suffix[0] == spec_scan(src, pos));
            assert(steps[count] == suffix[0]);
            if !is_end {
                assert(steps.skip(count + 1) =~= suffix.skip(1));
                assert(suffix.skip(1) =~= spec_tokens(src, spec_scan(src, pos).next_pos));
            } else {
                assert(suffix.len() == 1);
            }
        }
        tokens.push(token);
        if is_end {
            done = true;
        }
    }
    tokens
}

} // verus!
