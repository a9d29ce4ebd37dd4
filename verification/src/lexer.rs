//! The lexer: from source characters to tokens with their positions.
use vstd::prelude::*;
use vstd::string::*;

use crate::error::{CompileError, SpecCompileError};
use crate::text::{
    chars_of, is_ascii_alphabetic, is_ascii_digit, is_whitespace, push_char, spec_is_ascii_alphabetic,
    spec_is_ascii_digit, spec_is_whitespace,
};
use crate::token::{tokens_view, Keyword, Span, SpecToken, SpecTokenKind, Token, TokenKind};

verus! {

/// Line and column (both from 1) of position `i` of `src`.
pub open spec fn line_col(src: Seq<char>, i: int) -> (int, int)
    decreases i,
{
    if i <= 0 {
        (1, 1)
    } else {
        let (l, c) = line_col(src, i - 1);
        if src[i - 1] == '\n' {
            (l + 1, 1)
        } else {
            (l, c + 1)
        }
    }
}

/// The end of a line comment that starts at `i`: the next newline or the end.
pub open spec fn comment_end(src: Seq<char>, i: int) -> int
    decreases src.len() - i,
{
    if 0 <= i < src.len() && src[i] != '\n' {
        comment_end(src, i + 1)
    } else {
        i
    }
}

/// Whether a line comment `//` starts at `i`.
pub open spec fn comment_at(src: Seq<char>, i: int) -> bool {
    0 <= i && i + 1 < src.len() && src[i] == '/' && src[i + 1] == '/'
}

/// The first position at or after `i` that is neither whitespace nor in a line comment.
pub open spec fn skip_trivia(src: Seq<char>, i: int) -> int
    decreases src.len() - i,
{
    if 0 <= i < src.len() && spec_is_whitespace(src[i]) {
        skip_trivia(src, i + 1)
    } else if comment_at(src, i) {
        let j = comment_end(src, i);
        if i < j <= src.len() {
            skip_trivia(src, j)
        } else {
            i
        }
    } else {
        i
    }
}

/// The end of the run of decimal digits that starts at `i`.
pub open spec fn digits_end(src: Seq<char>, i: int) -> int
    decreases src.len() - i,
{
    if 0 <= i < src.len() && spec_is_ascii_digit(src[i]) {
        digits_end(src, i + 1)
    } else {
        i
    }
}

/// The value of a sequence of decimal digits.
pub open spec fn digits_value(s: Seq<char>) -> nat
    decreases s.len(),
{
    if s.len() == 0 {
        0
    } else {
        digits_value(s.drop_last()) * 10 + (s.last() as nat - 48) as nat
    }
}

pub open spec fn spec_is_ident_start(c: char) -> bool {
    c == '_' || spec_is_ascii_alphabetic(c)
}

pub open spec fn spec_is_ident_continue(c: char) -> bool {
    spec_is_ident_start(c) || spec_is_ascii_digit(c)
}

/// The end of the run of identifier characters that starts at `i`.
pub open spec fn ident_end(src: Seq<char>, i: int) -> int
    decreases src.len() - i,
{
    if 0 <= i < src.len() && spec_is_ident_continue(src[i]) {
        ident_end(src, i + 1)
    } else {
        i
    }
}

/// The keyword that a word spells, if any.
pub open spec fn keyword_of(w: Seq<char>) -> Option<Keyword> {
    if w == "shared_contract"@ {
        Some(Keyword::SharedContract)
    } else if w == "contract"@ {
        Some(Keyword::Contract)
    } else if w == "state"@ {
        Some(Keyword::State)
    } else if w == "var"@ {
        Some(Keyword::Var)
    } else if w == "on"@ {
        Some(Keyword::On)
    } else if w == "if"@ {
        Some(Keyword::If)
    } else if w == "else"@ {
        Some(Keyword::Else)
    } else if w == "call"@ {
        Some(Keyword::Call)
    } else if w == "let"@ {
        Some(Keyword::Let)
    } else if w == "send"@ {
        Some(Keyword::Send)
    } else if w == "transition"@ {
        Some(Keyword::Transition)
    } else if w == "violation"@ {
        Some(Keyword::Violation)
    } else if w == "drop"@ {
        Some(Keyword::Drop)
    } else {
        None
    }
}

/// The token kind of a word: a keyword, or else an identifier.
pub open spec fn word_kind(w: Seq<char>) -> SpecTokenKind {
    match keyword_of(w) {
        Some(k) => SpecTokenKind::Keyword(k),
        None => SpecTokenKind::Ident(w),
    }
}

/// The message for a character that starts no token.
pub open spec fn unexpected_char_msg(c: char) -> Seq<char> {
    "unexpected character '"@ + seq![c] + "'"@
}

/// The token that starts at `j` (not whitespace, not a comment) and the
/// position after it, or the message of the error found there.
pub open spec fn scan_token(src: Seq<char>, j: int) -> Result<(SpecTokenKind, int), Seq<char>> {
    let c = src[j];
    let next = if j + 1 < src.len() {
        Some(src[j + 1])
    } else {
        None
    };
    if c == '{' {
        Ok((SpecTokenKind::LBrace, j + 1))
    } else if c == '}' {
        Ok((SpecTokenKind::RBrace, j + 1))
    } else if c == '(' {
        Ok((SpecTokenKind::LParen, j + 1))
    } else if c == ')' {
        Ok((SpecTokenKind::RParen, j + 1))
    } else if c == ':' {
        Ok((SpecTokenKind::Colon, j + 1))
    } else if c == ';' {
        Ok((SpecTokenKind::Semicolon, j + 1))
    } else if c == ',' {
        Ok((SpecTokenKind::Comma, j + 1))
    } else if c == '.' {
        Ok((SpecTokenKind::Dot, j + 1))
    } else if c == '+' {
        Ok((SpecTokenKind::Plus, j + 1))
    } else if c == '-' && next == Some('>') {
        Ok((SpecTokenKind::Arrow, j + 2))
    } else if c == '-' {
        Ok((SpecTokenKind::Minus, j + 1))
    } else if c == '=' && next == Some('=') {
        Ok((SpecTokenKind::EqEq, j + 2))
    } else if c == '=' {
        Ok((SpecTokenKind::Assign, j + 1))
    } else if c == '>' {
        Ok((SpecTokenKind::Greater, j + 1))
    } else if c == '<' {
        Ok((SpecTokenKind::Less, j + 1))
    } else if spec_is_ascii_digit(c) {
        let e = digits_end(src, j);
        let v = digits_value(src.subrange(j, e));
        if v <= u64::MAX {
            Ok((SpecTokenKind::Number(v as u64), e))
        } else {
            Err("invalid number"@)
        }
    } else if spec_is_ident_start(c) {
        let e = ident_end(src, j);
        Ok((word_kind(src.subrange(j, e)), e))
    } else {
        Err(unexpected_char_msg(c))
    }
}

/// The span of position `j`.
pub open spec fn span_at(src: Seq<char>, j: int) -> Span {
    Span { line: line_col(src, j).0 as usize, col: line_col(src, j).1 as usize }
}

/// The tokens of `src` from position `i` on, ending with `Eof`, or the first lexing error.
pub open spec fn lex_from(src: Seq<char>, i: int) -> Result<Seq<SpecToken>, SpecCompileError>
    decreases src.len() - i,
{
    let j = skip_trivia(src, i);
    let span = span_at(src, j);
    if !(0 <= i <= j) {
        Ok(Seq::empty())
    } else if j >= src.len() {
        Ok(seq![SpecToken { kind: SpecTokenKind::Eof, span }])
    } else {
        match scan_token(src, j) {
            Err(msg) => Err(SpecCompileError::Lex { line: span.line, col: span.col, msg }),
            Ok((kind, k)) => if j < k <= src.len() {
                match lex_from(src, k) {
                    Ok(rest) => Ok(seq![SpecToken { kind, span }] + rest),
                    Err(e) => Err(e),
                }
            } else {
                Ok(Seq::empty())
            },
        }
    }
}

/// The tokens of the whole source text.
pub open spec fn spec_tokenize(src: Seq<char>) -> Result<Seq<SpecToken>, SpecCompileError> {
    lex_from(src, 0)
}

/// `prefix` in front of the tokens of a successful lexing; errors unchanged.
pub open spec fn prepend_tokens(
    prefix: Seq<SpecToken>,
    r: Result<Seq<SpecToken>, SpecCompileError>,
) -> Result<Seq<SpecToken>, SpecCompileError> {
    match r {
        Ok(rest) => Ok(prefix + rest),
        Err(e) => Err(e),
    }
}

pub proof fn lemma_line_col_bounds(src: Seq<char>, i: int)
    requires
        0 <= i,
    ensures
        line_col(src, i).0 >= 1,
        line_col(src, i).1 >= 1,
        line_col(src, i).0 + line_col(src, i).1 <= i + 2,
    decreases i,
{
    if i > 0 {
        lemma_line_col_bounds(src, i - 1);
    }
}

pub proof fn lemma_comment_end(src: Seq<char>, i: int)
    requires
        0 <= i <= src.len(),
    ensures
        i <= comment_end(src, i) <= src.len(),
        i < src.len() && src[i] != '\n' ==> i < comment_end(src, i),
    decreases src.len() - i,
{
    if i < src.len() && src[i] != '\n' {
        lemma_comment_end(src, i + 1);
    }
}

pub proof fn lemma_skip_trivia(src: Seq<char>, i: int)
    requires
        0 <= i <= src.len(),
    ensures
        i <= skip_trivia(src, i) <= src.len(),
    decreases src.len() - i,
{
    if 0 <= i < src.len() && spec_is_whitespace(src[i]) {
        lemma_skip_trivia(src, i + 1);
    } else if comment_at(src, i) {
        lemma_comment_end(src, i);
        lemma_skip_trivia(src, comment_end(src, i));
    }
}

pub proof fn lemma_digits_end(src: Seq<char>, i: int)
    requires
        0 <= i <= src.len(),
    ensures
        i <= digits_end(src, i) <= src.len(),
        i < src.len() && spec_is_ascii_digit(src[i]) ==> i < digits_end(src, i),
    decreases src.len() - i,
{
    if 0 <= i < src.len() && spec_is_ascii_digit(src[i]) {
        lemma_digits_end(src, i + 1);
    }
}

pub proof fn lemma_ident_end(src: Seq<char>, i: int)
    requires
        0 <= i <= src.len(),
    ensures
        i <= ident_end(src, i) <= src.len(),
    decreases src.len() - i,
{
    if 0 <= i < src.len() && spec_is_ident_continue(src[i]) {
        lemma_ident_end(src, i + 1);
    }
}

/// A scanned token is never empty and never runs past the end.
pub proof fn lemma_scan_token_advances(src: Seq<char>, j: int)
    requires
        0 <= j < src.len(),
    ensures
        scan_token(src, j) matches Ok((_, k)) ==> j < k <= src.len(),
{
    lemma_digits_end(src, j + 1);
    lemma_ident_end(src, j + 1);
}

/// Whether an executable lexing result agrees with its model.
pub open spec fn lex_result_matches(
    r: Result<Vec<Token>, CompileError>,
    s: Result<Seq<SpecToken>, SpecCompileError>,
) -> bool {
    match s {
        Ok(ts) => r is Ok && tokens_view(r->Ok_0@) == ts,
        Err(e) => r is Err && r->Err_0@ == e,
    }
}

pub proof fn lemma_prepend_assoc(
    a: Seq<SpecToken>,
    b: Seq<SpecToken>,
    r: Result<Seq<SpecToken>, SpecCompileError>,
)
    ensures
        prepend_tokens(a, prepend_tokens(b, r)) == prepend_tokens(a + b, r),
{
    if let Ok(rest) = r {
        assert(a + (b + rest) =~= (a + b) + rest);
    }
}

/// One token is read at the end of the trivia that starts at `i`.
pub proof fn lemma_lex_step(src: Seq<char>, i: int, kind: SpecTokenKind, k: int)
    requires
        0 <= i <= src.len(),
        skip_trivia(src, i) < src.len(),
        scan_token(src, skip_trivia(src, i)) == Ok::<(SpecTokenKind, int), Seq<char>>((kind, k)),
    ensures
        skip_trivia(src, i) < k <= src.len(),
        lex_from(src, i) == prepend_tokens(
            seq![SpecToken { kind, span: span_at(src, skip_trivia(src, i)) }],
            lex_from(src, k),
        ),
{
    lemma_skip_trivia(src, i);
    lemma_scan_token_advances(src, skip_trivia(src, i));
}

/// Lexing stops with `Eof` when only trivia is left.
pub proof fn lemma_lex_end(src: Seq<char>, i: int)
    requires
        0 <= i <= src.len(),
        skip_trivia(src, i) >= src.len(),
    ensures
        lex_from(src, i) == Ok::<Seq<SpecToken>, SpecCompileError>(
            seq![SpecToken { kind: SpecTokenKind::Eof, span: span_at(src, skip_trivia(src, i)) }],
        ),
{
    lemma_skip_trivia(src, i);
}

/// Lexing fails where a token cannot be scanned.
pub proof fn lemma_lex_fail(src: Seq<char>, i: int, msg: Seq<char>)
    requires
        0 <= i <= src.len(),
        skip_trivia(src, i) < src.len(),
        scan_token(src, skip_trivia(src, i)) == Err::<(SpecTokenKind, int), Seq<char>>(msg),
    ensures
        lex_from(src, i) == Err::<Seq<SpecToken>, SpecCompileError>(
            SpecCompileError::Lex {
                line: span_at(src, skip_trivia(src, i)).line,
                col: span_at(src, skip_trivia(src, i)).col,
                msg,
            },
        ),
{
    lemma_skip_trivia(src, i);
}

/// A successful lexing is never empty, ends with `Eof`, and holds no other `Eof`.
pub proof fn law_tokens_end_with_one_eof(src: Seq<char>, i: int)
    requires
        0 <= i <= src.len(),
    ensures
        lex_from(src, i) matches Ok(ts) ==> ts.len() > 0 && ts.last().kind is Eof && forall|k: int|
            0 <= k < ts.len() - 1 ==> !((#[trigger] ts[k]).kind is Eof),
    decreases src.len() - i,
{
    lemma_skip_trivia(src, i);
    let j = skip_trivia(src, i);
    if j < src.len() {
        lemma_scan_token_advances(src, j);
        if let Ok((kind, k)) = scan_token(src, j) {
            law_tokens_end_with_one_eof(src, k);
            if let Ok(rest) = lex_from(src, k) {
                let ts = seq![SpecToken { kind, span: span_at(src, j) }] + rest;
                assert(ts.last() == rest.last());
                assert(!(kind is Eof));
                assert forall|m: int| 0 <= m < ts.len() - 1 implies !((#[trigger] ts[m]).kind is Eof) by {
                    if m > 0 {
                        assert(ts[m] == rest[m - 1]);
                    }
                }
            }
        }
    }
}

pub fn is_ident_start(ch: char) -> (b: bool)
    ensures
        b == spec_is_ident_start(ch),
{
    ch == '_' || is_ascii_alphabetic(ch)
}

pub fn is_ident_continue(ch: char) -> (b: bool)
    ensures
        b == spec_is_ident_continue(ch),
{
    is_ident_start(ch) || is_ascii_digit(ch)
}

/// Whether two texts are equal, compared through `String`.
fn word_is(w: &String, lit: &str) -> (b: bool)
    ensures
        b == (w@ == lit@),
{
    let s = String::from_str(lit);
    *w == s
}

/// The token kind of a lexed word.
pub fn classify_word(w: String) -> (k: TokenKind)
    ensures
        k@ == word_kind(w@),
{
    if word_is(&w, "shared_contract") {
        TokenKind::Keyword(Keyword::SharedContract)
    } else if word_is(&w, "contract") {
        TokenKind::Keyword(Keyword::Contract)
    } else if word_is(&w, "state") {
        TokenKind::Keyword(Keyword::State)
    } else if word_is(&w, "var") {
        TokenKind::Keyword(Keyword::Var)
    } else if word_is(&w, "on") {
        TokenKind::Keyword(Keyword::On)
    } else if word_is(&w, "if") {
        TokenKind::Keyword(Keyword::If)
    } else if word_is(&w, "else") {
        TokenKind::Keyword(Keyword::Else)
    } else if word_is(&w, "call") {
        TokenKind::Keyword(Keyword::Call)
    } else if word_is(&w, "let") {
        TokenKind::Keyword(Keyword::Let)
    } else if word_is(&w, "send") {
        TokenKind::Keyword(Keyword::Send)
    } else if word_is(&w, "transition") {
        TokenKind::Keyword(Keyword::Transition)
    } else if word_is(&w, "violation") {
        TokenKind::Keyword(Keyword::Violation)
    } else if word_is(&w, "drop") {
        TokenKind::Keyword(Keyword::Drop)
    } else {
        TokenKind::Ident(w)
    }
}

/// A cursor over the characters of a source text that tracks line and column.
pub struct Lexer {
    src: Vec<char>,
    idx: usize,
    line: usize,
    col: usize,
}

impl Lexer {
    /// The characters being lexed.
    pub closed spec fn source(&self) -> Seq<char> {
        self.src@
    }

    /// The index of the next character.
    pub closed spec fn position(&self) -> int {
        self.idx as int
    }

    /// Position within bounds, and line and column agree with the position.
    pub closed spec fn wf(&self) -> bool {
        &&& self.idx <= self.src.len()
        &&& self.src.len() < usize::MAX
        &&& line_col(self.src@, self.idx as int) == (self.line as int, self.col as int)
    }

    pub fn new(input: &str) -> (l: Self)
        requires
            input@.len() < usize::MAX,
        ensures
            l.wf(),
            l.source() == input@,
            l.position() == 0,
    {
        Lexer { src: chars_of(input), idx: 0, line: 1, col: 1 }
    }

    pub fn peek(&self) -> (c: Option<char>)
        requires
            self.wf(),
        ensures
            c == (if self.position() < self.source().len() {
                Some(self.source()[self.position()])
            } else {
                None
            }),
    {
        if self.idx < self.src.len() {
            Some(self.src[self.idx])
        } else {
            None
        }
    }

    pub fn peek_next(&self) -> (c: Option<char>)
        requires
            self.wf(),
        ensures
            c == (if self.position() + 1 < self.source().len() {
                Some(self.source()[self.position() + 1])
            } else {
                None
            }),
    {
        if self.idx + 1 < self.src.len() {
            Some(self.src[self.idx + 1])
        } else {
            None
        }
    }

    /// The current span.
    fn span(&self) -> (s: Span)
        requires
            self.wf(),
        ensures
            s == span_at(self.source(), self.position()),
    {
        Span { line: self.line, col: self.col }
    }

    pub fn bump(&mut self) -> (c: Option<char>)
        requires
            old(self).wf(),
        ensures
            final(self).wf(),
            final(self).source() == old(self).source(),
            if old(self).position() < old(self).source().len() {
                &&& c == Some(old(self).source()[old(self).position()])
                &&& final(self).position() == old(self).position() + 1
            } else {
                &&& c is None
                &&& final(self).position() == old(self).position()
            },
    {
        if self.idx >= self.src.len() {
            return None;
        }
        let ch = self.src[self.idx];
        proof {
            lemma_line_col_bounds(self.src@, self.idx as int);
        }
        self.idx = self.idx + 1;
        if ch == '\n' {
            self.line = self.line + 1;
            self.col = 1;
        } else {
            self.col = self.col + 1;
        }
        Some(ch)
    }

    fn at_whitespace(&self) -> (b: bool)
        requires
            self.wf(),
        ensures
            b == (self.position() < self.source().len() && spec_is_whitespace(
                self.source()[self.position()],
            )),
    {
        match self.peek() {
            Some(ch) => is_whitespace(ch),
            None => false,
        }
    }

    fn at_comment_text(&self) -> (b: bool)
        requires
            self.wf(),
        ensures
            b == (self.position() < self.source().len() && self.source()[self.position()]
                != '\n'),
    {
        match self.peek() {
            Some(ch) => ch != '\n',
            None => false,
        }
    }

    /// Skips whitespace and line comments.
    pub fn skip_ws_and_comments(&mut self)
        requires
            old(self).wf(),
        ensures
            final(self).wf(),
            final(self).source() == old(self).source(),
            final(self).position() == skip_trivia(old(self).source(), old(self).position()),
    {
        let ghost src = self.src@;
        let ghost target = skip_trivia(src, self.idx as int);
        loop
            invariant
                self.wf(),
                self.src@ == src,
                skip_trivia(src, self.idx as int) == target,
            ensures
                self.wf(),
                self.src@ == src,
                self.idx == target,
            decreases src.len() - self.idx,
        {
            let ghost round = self.idx as int;
            while self.at_whitespace()
                invariant
                    self.wf(),
                    self.src@ == src,
                    round <= self.idx,
                    skip_trivia(src, self.idx as int) == target,
                decreases src.len() - self.idx,
            {
                self.bump();
            }
            if self.peek() == Some('/') && self.peek_next() == Some('/') {
                let ghost start = self.idx as int;
                proof {
                    lemma_comment_end(src, start);
                }
                while self.at_comment_text()
                    invariant
                        self.wf(),
                        self.src@ == src,
                        0 <= round <= start <= self.idx,
                        comment_end(src, self.idx as int) == comment_end(src, start),
                    decreases src.len() - self.idx,
                {
                    self.bump();
                }
                assert(comment_end(src, self.idx as int) == self.idx as int);
            } else {
                break;
            }
        }
    }

    /// Reads a run of digits as a number.
    pub fn lex_number(&mut self) -> (r: Result<u64, CompileError>)
        requires
            old(self).wf(),
        ensures
            final(self).wf(),
            final(self).source() == old(self).source(),
            final(self).position() == digits_end(old(self).source(), old(self).position()),
            ({
                let s = old(self).source();
                let v = digits_value(s.subrange(old(self).position(), final(self).position()));
                let sp = span_at(s, old(self).position());
                if old(self).position() < final(self).position() && v <= u64::MAX {
                    r == Ok::<u64, CompileError>(v as u64)
                } else {
                    r is Err && r->Err_0@ == SpecCompileError::Lex {
                        line: sp.line,
                        col: sp.col,
                        msg: "invalid number"@,
                    }
                }
            }),
    {
        let start = self.span();
        let s0_exec = self.idx;
        let ghost src = self.src@;
        let ghost s0 = self.idx as int;
        let mut value: u64 = 0;
        let mut overflow = false;
        loop
            invariant
                self.wf(),
                self.src@ == src,
                0 <= s0 <= self.idx,
                digits_end(src, self.idx as int) == digits_end(src, s0),
                !overflow ==> value == digits_value(src.subrange(s0, self.idx as int)),
                overflow ==> digits_value(src.subrange(s0, self.idx as int)) > u64::MAX,
            ensures
                self.wf(),
                self.src@ == src,
                self.idx == digits_end(src, s0),
                !overflow ==> value == digits_value(src.subrange(s0, self.idx as int)),
                overflow ==> digits_value(src.subrange(s0, self.idx as int)) > u64::MAX,
            decreases src.len() - self.idx,
        {
            let ch = match self.peek() {
                Some(ch) => ch,
                None => break,
            };
            if !is_ascii_digit(ch) {
                break;
            }
            let ghost before = self.idx as int;
            self.bump();
            let d = (ch as u32 - 48) as u64;
            assert(src.subrange(s0, before + 1) =~= src.subrange(s0, before).push(ch));
            assert(src.subrange(s0, before + 1).drop_last() =~= src.subrange(s0, before));
            if !overflow {
                match value.checked_mul(10) {
                    Some(m) => match m.checked_add(d) {
                        Some(v) => {
                            value = v;
                        },
                        None => {
                            overflow = true;
                        },
                    },
                    None => {
                        overflow = true;
                    },
                }
            }
        }
        if overflow || self.idx == s0_exec {
            Err(
                CompileError::Lex {
                    line: start.line,
                    col: start.col,
                    msg: String::from_str("invalid number"),
                },
            )
        } else {
            Ok(value)
        }
    }

    /// Reads a run of identifier characters.
    pub fn lex_ident(&mut self) -> (w: String)
        requires
            old(self).wf(),
        ensures
            final(self).wf(),
            final(self).source() == old(self).source(),
            final(self).position() == ident_end(old(self).source(), old(self).position()),
            w@ == old(self).source().subrange(old(self).position(), final(self).position()),
    {
        let ghost src = self.src@;
        let ghost s0 = self.idx as int;
        let mut buf = String::new();
        loop
            invariant
                self.wf(),
                self.src@ == src,
                0 <= s0 <= self.idx,
                ident_end(src, self.idx as int) == ident_end(src, s0),
                buf@ == src.subrange(s0, self.idx as int),
            ensures
                self.wf(),
                self.src@ == src,
                self.idx == ident_end(src, s0),
                buf@ == src.subrange(s0, self.idx as int),
            decreases src.len() - self.idx,
        {
            let ch = match self.peek() {
                Some(ch) => ch,
                None => break,
            };
            if !is_ident_continue(ch) {
                break;
            }
            let ghost before = self.idx as int;
            self.bump();
            push_char(&mut buf, ch);
            assert(src.subrange(s0, before + 1) =~= src.subrange(s0, before).push(ch));
        }
        buf
    }

    /// A punctuation token of kind `kind` that is `width` characters long.
    fn punct(&mut self, kind: TokenKind, width: usize) -> (t: Token)
        requires
            old(self).wf(),
            1 <= width <= 2,
            old(self).position() + width <= old(self).source().len(),
        ensures
            final(self).wf(),
            final(self).source() == old(self).source(),
            final(self).position() == old(self).position() + width,
            t@ == (SpecToken { kind: kind@, span: span_at(old(self).source(), old(self).position()) }),
    {
        let span = self.span();
        self.bump();
        if width == 2 {
            self.bump();
        }
        Token { kind, span }
    }

    /// Reads the whole remaining text into tokens, ending with `Eof`.
    pub fn tokenize(self) -> (r: Result<Vec<Token>, CompileError>)
        requires
            self.wf(),
        ensures
            lex_result_matches(r, lex_from(self.source(), self.position())),
    {
        let mut lx = self;
        lx.run()
    }

    /// The loop of [`Lexer::tokenize`].
    fn run(&mut self) -> (r: Result<Vec<Token>, CompileError>)
        requires
            old(self).wf(),
        ensures
            lex_result_matches(r, lex_from(old(self).source(), old(self).position())),
    {
        let ghost src = self.src@;
        let ghost start = self.idx as int;
        let mut tokens: Vec<Token> = Vec::new();
        loop
            invariant
                self.wf(),
                self.src@ == src,
                src == old(self).source(),
                start == old(self).position(),
                0 <= start,
                lex_from(src, start) == prepend_tokens(
                    tokens_view(tokens@),
                    lex_from(src, self.idx as int),
                ),
            decreases src.len() - self.idx,
        {
            let ghost i0 = self.idx as int;
            self.skip_ws_and_comments();
            proof {
                lemma_skip_trivia(src, i0);
            }
            let ghost j = self.idx as int;
            let span = self.span();
            let token = match self.peek() {
                None => {
                    proof {
                        lemma_lex_end(src, i0);
                        assert(tokens_view(tokens@.push(Token { kind: TokenKind::Eof, span }))
                            =~= tokens_view(tokens@) + seq![
                            SpecToken { kind: SpecTokenKind::Eof, span },
                        ]);
                    }
                    tokens.push(Token { kind: TokenKind::Eof, span });
                    return Ok(tokens);
                },
                Some('{') => self.punct(TokenKind::LBrace, 1),
                Some('}') => self.punct(TokenKind::RBrace, 1),
                Some('(') => self.punct(TokenKind::LParen, 1),
                Some(')') => self.punct(TokenKind::RParen, 1),
                Some(':') => self.punct(TokenKind::Colon, 1),
                Some(';') => self.punct(TokenKind::Semicolon, 1),
                Some(',') => self.punct(TokenKind::Comma, 1),
                Some('.') => self.punct(TokenKind::Dot, 1),
                Some('+') => self.punct(TokenKind::Plus, 1),
                Some('-') if self.peek_next() == Some('>') => self.punct(TokenKind::Arrow, 2),
                Some('-') => self.punct(TokenKind::Minus, 1),
                Some('=') if self.peek_next() == Some('=') => self.punct(TokenKind::EqEq, 2),
                Some('=') => self.punct(TokenKind::Assign, 1),
                Some('>') => self.punct(TokenKind::Greater, 1),
                Some('<') => self.punct(TokenKind::Less, 1),
                Some(ch) if is_ascii_digit(ch) => {
                    proof {
                        lemma_digits_end(src, j);
                    }
                    match self.lex_number() {
                        Ok(n) => Token { kind: TokenKind::Number(n), span },
                        Err(e) => {
                            proof {
                                lemma_lex_fail(src, i0, "invalid number"@);
                            }
                            return Err(e);
                        },
                    }
                },
                Some(ch) if is_ident_start(ch) => {
                    proof {
                        lemma_ident_end(src, j);
                    }
                    let ident = self.lex_ident();
                    Token { kind: classify_word(ident), span }
                },
                Some(other) => {
                    let mut msg = String::from_str("unexpected character '");
                    push_char(&mut msg, other);
                    msg.append("'");
                    proof {
                        assert(msg@ =~= unexpected_char_msg(other));
                        lemma_lex_fail(src, i0, unexpected_char_msg(other));
                    }
                    return Err(CompileError::Lex { line: span.line, col: span.col, msg });
                },
            };
            proof {
                assert(scan_token(src, j) == Ok::<(SpecTokenKind, int), Seq<char>>(
                    (token.kind@, self.idx as int),
                ));
                lemma_lex_step(src, i0, token.kind@, self.idx as int);
                lemma_prepend_assoc(tokens_view(tokens@), seq![token@], lex_from(src, self.idx as int));
                assert(tokens_view(tokens@.push(token)) =~= tokens_view(tokens@) + seq![token@]);
            }
            tokens.push(token);
        }
    }
}


/// A white-space character (Unicode `White_Space`: tab, line feed, vertical
/// tab, form feed, carriage return, space, next line, no-break space and the
/// other space separators) where a token could start is skipped: lexing from
/// it gives exactly what lexing from the next character gives. So `\r\n`
/// line ends lex as `\n` ones do, apart from the columns.
pub proof fn law_white_space_is_skipped(src: Seq<char>, i: int)
    requires
        0 <= i < src.len(),
        set![
            '\u{9}', '\u{a}', '\u{b}', '\u{c}', '\u{d}', '\u{20}', '\u{85}', '\u{a0}', '\u{1680}',
            '\u{2000}', '\u{2001}', '\u{2002}', '\u{2003}', '\u{2004}', '\u{2005}', '\u{2006}',
            '\u{2007}', '\u{2008}', '\u{2009}', '\u{200a}', '\u{2028}', '\u{2029}', '\u{202f}',
            '\u{205f}', '\u{3000}',
        ].contains(src[i]),
    ensures
        skip_trivia(src, i) == skip_trivia(src, i + 1),
        lex_from(src, i) == lex_from(src, i + 1),
{
    assert(spec_is_whitespace(src[i]));
    lemma_skip_trivia(src, i + 1);
}

/// How a reserved word is spelled in source text.
pub open spec fn spelling(k: Keyword) -> Seq<char> {
    match k {
        Keyword::SharedContract => "shared_contract"@,
        Keyword::Contract => "contract"@,
        Keyword::State => "state"@,
        Keyword::Var => "var"@,
        Keyword::On => "on"@,
        Keyword::If => "if"@,
        Keyword::Else => "else"@,
        Keyword::Call => "call"@,
        Keyword::Let => "let"@,
        Keyword::Send => "send"@,
        Keyword::Transition => "transition"@,
        Keyword::Violation => "violation"@,
        Keyword::Drop => "drop"@,
    }
}

/// Each reserved word stands for its own keyword and no other: a word is read
/// as keyword `k` exactly when it is the spelling of `k`, and every other word
/// is an identifier with that text.
pub proof fn law_reserved_words(w: Seq<char>, k: Keyword)
    ensures
        word_kind(w) == SpecTokenKind::Keyword(k) <==> w == spelling(k),
        (forall|k2: Keyword| w != #[trigger] spelling(k2)) ==> word_kind(w) == SpecTokenKind::Ident(w),
{
    reveal_strlit("shared_contract");
    reveal_strlit("contract");
    reveal_strlit("state");
    reveal_strlit("var");
    reveal_strlit("on");
    reveal_strlit("if");
    reveal_strlit("else");
    reveal_strlit("call");
    reveal_strlit("let");
    reveal_strlit("send");
    reveal_strlit("transition");
    reveal_strlit("violation");
    reveal_strlit("drop");
    assert("shared_contract"@.len() == 15 && "shared_contract"@[0] == 's');
    assert("contract"@.len() == 8 && "contract"@[0] == 'c');
    assert("state"@.len() == 5 && "state"@[0] == 's');
    assert("var"@.len() == 3 && "var"@[0] == 'v');
    assert("on"@.len() == 2 && "on"@[0] == 'o');
    assert("if"@.len() == 2 && "if"@[0] == 'i');
    assert("else"@.len() == 4 && "else"@[0] == 'e');
    assert("call"@.len() == 4 && "call"@[0] == 'c');
    assert("let"@.len() == 3 && "let"@[0] == 'l');
    assert("send"@.len() == 4 && "send"@[0] == 's');
    assert("transition"@.len() == 10 && "transition"@[0] == 't');
    assert("violation"@.len() == 9 && "violation"@[0] == 'v');
    assert("drop"@.len() == 4 && "drop"@[0] == 'd');
    if (forall|k2: Keyword| w != #[trigger] spelling(k2)) {
        assert(w != spelling(Keyword::SharedContract));
        assert(w != spelling(Keyword::Contract));
        assert(w != spelling(Keyword::State));
        assert(w != spelling(Keyword::Var));
        assert(w != spelling(Keyword::On));
        assert(w != spelling(Keyword::If));
        assert(w != spelling(Keyword::Else));
        assert(w != spelling(Keyword::Call));
        assert(w != spelling(Keyword::Let));
        assert(w != spelling(Keyword::Send));
        assert(w != spelling(Keyword::Transition));
        assert(w != spelling(Keyword::Violation));
        assert(w != spelling(Keyword::Drop));
    }
}

} // verus!
