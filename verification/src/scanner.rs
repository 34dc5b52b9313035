//! The scanner: one pass from source text to tokens.

use crate::report::{error, DiagnosticView, Reporter};
use crate::tokens::{tokens_view, Literal, LiteralView, Token, TokenType, TokenView};
use vstd::prelude::*;
use vstd::string::StrSliceExecFns;

verus! {

/// A set of characters that a run is made of.
#[derive(Debug, Clone, Copy, PartialEq, Eq, Structural)]
pub enum CharClass {
    /// The decimal digits.
    Digit,
    /// Letters, digits and the underscore.
    Word,
    /// Everything but a line feed.
    NotNewline,
    /// Everything but a double quote.
    NotQuote,
}

/// Whether `c` is one of the ten decimal digits.
pub open spec fn is_digit_spec(c: char) -> bool {
    '0' <= c && c <= '9'
}

/// Whether `c` may stand in an identifier: a letter, a digit or `_`.
pub open spec fn is_alphanumeric_spec(c: char) -> bool {
    ('a' <= c && c <= 'z') || ('A' <= c && c <= 'Z') || is_digit_spec(c) || c == '_'
}

/// Whether `c` belongs to `class`.
pub open spec fn in_class(class: CharClass, c: char) -> bool {
    match class {
        CharClass::Digit => is_digit_spec(c),
        CharClass::Word => is_alphanumeric_spec(c),
        CharClass::NotNewline => c != '\n',
        CharClass::NotQuote => c != '"',
    }
}

/// Where the longest run of characters of `class` that starts at `i` ends:
/// the first index from `i` on that holds no such character, or the length.
pub open spec fn run_end(s: Seq<char>, class: CharClass, i: int) -> int
    decreases s.len() - i,
{
    if 0 <= i < s.len() && in_class(class, s[i]) {
        run_end(s, class, i + 1)
    } else {
        i
    }
}

/// How many line feeds stand in `s` from `from` up to, not including, `to`.
pub open spec fn newlines(s: Seq<char>, from: int, to: int) -> nat
    decreases to - from,
{
    if from < to && 0 < to <= s.len() {
        newlines(s, from, to - 1) + if s[to - 1] == '\n' {
            1nat
        } else {
            0nat
        }
    } else {
        0
    }
}

/// The character at `i`, or NUL past the end.
pub open spec fn char_at(s: Seq<char>, i: int) -> char {
    if 0 <= i < s.len() {
        s[i]
    } else {
        '\0'
    }
}

/// The reserved word that `text` spells, if any.
pub open spec fn keyword(text: Seq<char>) -> Option<TokenType> {
    if text == "and"@ {
        Some(TokenType::And)
    } else if text == "class"@ {
        Some(TokenType::Class)
    } else if text == "else"@ {
        Some(TokenType::Else)
    } else if text == "false"@ {
        Some(TokenType::False)
    } else if text == "for"@ {
        Some(TokenType::For)
    } else if text == "fun"@ {
        Some(TokenType::Fun)
    } else if text == "if"@ {
        Some(TokenType::If)
    } else if text == "nil"@ {
        Some(TokenType::Nil)
    } else if text == "or"@ {
        Some(TokenType::Or)
    } else if text == "print"@ {
        Some(TokenType::Print)
    } else if text == "return"@ {
        Some(TokenType::Return)
    } else if text == "super"@ {
        Some(TokenType::Super)
    } else if text == "this"@ {
        Some(TokenType::This)
    } else if text == "true"@ {
        Some(TokenType::True)
    } else if text == "var"@ {
        Some(TokenType::Var)
    } else if text == "while"@ {
        Some(TokenType::While)
    } else {
        None
    }
}

/// The kind of the word `text`: its reserved word, else an identifier.
pub open spec fn word_type(text: Seq<char>) -> TokenType {
    match keyword(text) {
        Some(t) => t,
        None => TokenType::Identifier,
    }
}

/// What scanning one lexeme gives: where the next one starts, the line
/// there, the token if one was made, and the error if one was found.
pub struct Lexed {
    pub next: int,
    pub line: nat,
    pub token: Option<TokenView>,
    pub error: Option<DiagnosticView>,
}

/// A token without a literal, made of `s` from `start` to `next`.
pub open spec fn plain(s: Seq<char>, start: int, next: int, line: nat, type_: TokenType) -> Lexed {
    Lexed {
        next,
        line,
        token: Some(TokenView { type_, lexeme: s.subrange(start, next), literal: None, line }),
        error: None,
    }
}

/// No token: the text up to `next` is skipped.
pub open spec fn skipped(next: int, line: nat) -> Lexed {
    Lexed { next, line, token: None, error: None }
}

/// No token: an error with `message` at `line`.
pub open spec fn failed(next: int, line: nat, message: Seq<char>) -> Lexed {
    Lexed {
        next,
        line,
        token: None,
        error: Some(DiagnosticView { line, location: Seq::<char>::empty(), message }),
    }
}

/// An operator of one character, or of two where `=` follows it.
pub open spec fn one_or_two(
    s: Seq<char>,
    start: int,
    line: nat,
    single: TokenType,
    double: TokenType,
) -> Lexed {
    if char_at(s, start + 1) == '=' && start + 1 < s.len() {
        plain(s, start, start + 2, line, double)
    } else {
        plain(s, start, start + 1, line, single)
    }
}

/// A string literal whose opening quote stands at `start`. It runs to the
/// next double quote, over line feeds, which are counted. Where no quote
/// follows, the rest of the text is consumed, an error is reported and no
/// token is made.
pub open spec fn string_lexeme(s: Seq<char>, start: int, line: nat) -> Lexed {
    let close = run_end(s, CharClass::NotQuote, start + 1);
    let last_line = line + newlines(s, start + 1, close);
    if close >= s.len() {
        failed(close, last_line, "Unterminated string."@)
    } else {
        Lexed {
            next: close + 1,
            line: last_line,
            token: Some(
                TokenView {
                    type_: TokenType::String_,
                    lexeme: s.subrange(start, close + 1),
                    literal: Some(LiteralView::String_(s.subrange(start + 1, close))),
                    line: last_line,
                },
            ),
            error: None,
        }
    }
}

/// Where the numeral that starts at `start` ends: after its digits, and
/// after a fraction if a `.` and at least one digit follow them.
pub open spec fn number_end(s: Seq<char>, start: int) -> int {
    let whole = run_end(s, CharClass::Digit, start + 1);
    if char_at(s, whole) == '.' && is_digit_spec(char_at(s, whole + 1)) {
        run_end(s, CharClass::Digit, whole + 1)
    } else {
        whole
    }
}

/// A numeral: its literal is its own text.
pub open spec fn number_lexeme(s: Seq<char>, start: int, line: nat) -> Lexed {
    let end = number_end(s, start);
    let text = s.subrange(start, end);
    Lexed {
        next: end,
        line,
        token: Some(
            TokenView {
                type_: TokenType::Number,
                lexeme: text,
                literal: Some(LiteralView::Number(text)),
                line,
            },
        ),
        error: None,
    }
}

/// A reserved word or an identifier.
pub open spec fn word_lexeme(s: Seq<char>, start: int, line: nat) -> Lexed {
    let end = run_end(s, CharClass::Word, start + 1);
    plain(s, start, end, line, word_type(s.subrange(start, end)))
}

/// The lexeme that starts at `start`, which is an index into `s`.
pub open spec fn scan_one(s: Seq<char>, start: int, line: nat) -> Lexed
    recommends
        0 <= start < s.len(),
{
    let c = s[start];
    if c == '(' {
        plain(s, start, start + 1, line, TokenType::LeftParen)
    } else if c == ')' {
        plain(s, start, start + 1, line, TokenType::RightParen)
    } else if c == '{' {
        plain(s, start, start + 1, line, TokenType::LeftBrace)
    } else if c == '}' {
        plain(s, start, start + 1, line, TokenType::RightBrace)
    } else if c == ',' {
        plain(s, start, start + 1, line, TokenType::Comma)
    } else if c == '.' {
        plain(s, start, start + 1, line, TokenType::Dot)
    } else if c == '-' {
        plain(s, start, start + 1, line, TokenType::Minus)
    } else if c == '+' {
        plain(s, start, start + 1, line, TokenType::Plus)
    } else if c == ';' {
        plain(s, start, start + 1, line, TokenType::Semicolon)
    } else if c == '*' {
        plain(s, start, start + 1, line, TokenType::Star)
    } else if c == '!' {
        one_or_two(s, start, line, TokenType::Bang, TokenType::BangEqual)
    } else if c == '=' {
        one_or_two(s, start, line, TokenType::Equal, TokenType::EqualEqual)
    } else if c == '<' {
        one_or_two(s, start, line, TokenType::Less, TokenType::LessEqual)
    } else if c == '>' {
        one_or_two(s, start, line, TokenType::Greater, TokenType::GreaterEqual)
    } else if c == '/' {
        if char_at(s, start + 1) == '/' {
            skipped(run_end(s, CharClass::NotNewline, start + 2), line)
        } else {
            plain(s, start, start + 1, line, TokenType::Slash)
        }
    } else if c == ' ' || c == '\r' || c == '\t' {
        skipped(start + 1, line)
    } else if c == '\n' {
        skipped(start + 1, line + 1)
    } else if c == '"' {
        string_lexeme(s, start, line)
    } else if is_digit_spec(c) {
        number_lexeme(s, start, line)
    } else if is_alphanumeric_spec(c) {
        word_lexeme(s, start, line)
    } else {
        failed(start + 1, line, "Unexpected character"@)
    }
}

/// The tokens and the errors of a text, each in source order.
pub struct Scanned {
    pub tokens: Seq<TokenView>,
    pub errors: Seq<DiagnosticView>,
}

/// The end marker at `line`.
pub open spec fn end_marker(line: nat) -> TokenView {
    TokenView { type_: TokenType::Eof, lexeme: Seq::<char>::empty(), literal: None, line }
}

/// The sequence of no or one element that an option holds.
pub open spec fn optional<T>(o: Option<T>) -> Seq<T> {
    match o {
        Some(x) => seq![x],
        None => Seq::<T>::empty(),
    }
}

/// The tokens and errors of `s` from `pos` on, where the line is `line`:
/// lexeme after lexeme, then the end marker. (A lexeme is never empty, see
/// [`lemma_scan_one_advances`], and stays within the text, so the
/// second test never holds.)
pub open spec fn scan_from(s: Seq<char>, pos: int, line: nat) -> Scanned
    decreases s.len() - pos,
{
    if pos < 0 || pos >= s.len() {
        Scanned { tokens: seq![end_marker(line)], errors: Seq::<DiagnosticView>::empty() }
    } else {
        let x = scan_one(s, pos, line);
        if x.next <= pos || x.next > s.len() {
            Scanned { tokens: seq![end_marker(line)], errors: Seq::<DiagnosticView>::empty() }
        } else {
            let rest = scan_from(s, x.next, x.line);
            Scanned {
                tokens: optional(x.token) + rest.tokens,
                errors: optional(x.error) + rest.errors,
            }
        }
    }
}

/// The tokens and errors of a whole source text.
pub open spec fn scan(s: Seq<char>) -> Scanned {
    scan_from(s, 0, 1)
}

/// A run ends at or after its start, within the text.
pub proof fn lemma_run_end_bounds(s: Seq<char>, class: CharClass, i: int)
    requires
        0 <= i <= s.len(),
    ensures
        i <= run_end(s, class, i) <= s.len(),
        run_end(s, class, i) < s.len() ==> !in_class(class, s[run_end(s, class, i)]),
        forall|j: int| i <= j < run_end(s, class, i) ==> in_class(class, #[trigger] s[j]),
    decreases s.len() - i,
{
    if i < s.len() && in_class(class, s[i]) {
        lemma_run_end_bounds(s, class, i + 1);
    }
}

/// No more line feeds stand in a stretch of text than it has characters.
pub proof fn lemma_newlines_bound(s: Seq<char>, from: int, to: int)
    requires
        0 <= from <= to <= s.len(),
    ensures
        newlines(s, from, to) <= to - from,
    decreases to - from,
{
    if from < to {
        lemma_newlines_bound(s, from, to - 1);
    }
}

/// Every lexeme takes at least one character and stays within the text; the
/// line grows by no more than the lexeme is long; a token is never the end
/// marker and stands on the line reached.
pub proof fn lemma_scan_one_advances(s: Seq<char>, start: int, line: nat)
    requires
        0 <= start < s.len(),
    ensures
        start < scan_one(s, start, line).next <= s.len(),
        line <= scan_one(s, start, line).line <= line + (scan_one(s, start, line).next - start),
        match scan_one(s, start, line).token {
            Some(t) => t.type_ != TokenType::Eof && t.line == scan_one(s, start, line).line,
            None => true,
        },
        match scan_one(s, start, line).error {
            Some(e) => e.line == scan_one(s, start, line).line,
            None => true,
        },
{
    lemma_run_end_bounds(s, CharClass::NotQuote, start + 1);
    lemma_run_end_bounds(s, CharClass::Digit, start + 1);
    lemma_run_end_bounds(s, CharClass::Word, start + 1);
    let whole = run_end(s, CharClass::Digit, start + 1);
    if whole + 1 <= s.len() {
        lemma_run_end_bounds(s, CharClass::Digit, whole + 1);
    }
    if start + 2 <= s.len() {
        lemma_run_end_bounds(s, CharClass::NotNewline, start + 2);
    }
    lemma_newlines_bound(s, start + 1, run_end(s, CharClass::NotQuote, start + 1));
}

/// The tokens of a text end with the end marker, which occurs nowhere else,
/// and every token and error stands on a line from `line` on.
pub proof fn lemma_scan_from_shape(s: Seq<char>, pos: int, line: nat)
    ensures
        scan_from(s, pos, line).tokens.len() >= 1,
        scan_from(s, pos, line).tokens.last().type_ == TokenType::Eof,
        forall|i: int|
            0 <= i < scan_from(s, pos, line).tokens.len() - 1 ==> (
            #[trigger] scan_from(s, pos, line).tokens[i]).type_ != TokenType::Eof,
        forall|i: int|
            0 <= i < scan_from(s, pos, line).tokens.len() ==> (
            #[trigger] scan_from(s, pos, line).tokens[i]).line >= line,
        forall|i: int|
            0 <= i < scan_from(s, pos, line).errors.len() ==> (
            #[trigger] scan_from(s, pos, line).errors[i]).line >= line,
    decreases s.len() - pos,
{
    if 0 <= pos < s.len() {
        let x = scan_one(s, pos, line);
        lemma_scan_one_advances(s, pos, line);
        lemma_scan_from_shape(s, x.next, x.line);
    }
}

/// Whether `c` is one of the ten decimal digits.
pub fn is_digit(c: char) -> (b: bool)
    ensures
        b == is_digit_spec(c),
{
    '0' <= c && c <= '9'
}

/// Whether `c` may stand in an identifier: an ASCII letter, a digit or `_`.
pub fn is_alphanumeric(c: char) -> (b: bool)
    ensures
        b == is_alphanumeric_spec(c),
{
    ('a' <= c && c <= 'z') || ('A' <= c && c <= 'Z') || ('0' <= c && c <= '9') || c == '_'
}

/// Whether `text` is the word `word`.
fn spells(text: &String, word: &str) -> (b: bool)
    ensures
        b == (text@ == word@),
{
    let other = word.to_owned();
    *text == other
}

/// The kind of the word `text`: its reserved word, else an identifier.
pub fn word_kind(text: &str) -> (r: TokenType)
    ensures
        r == word_type(text@),
{
    let word = text.to_owned();
    if spells(&word, "and") {
        TokenType::And
    } else if spells(&word, "class") {
        TokenType::Class
    } else if spells(&word, "else") {
        TokenType::Else
    } else if spells(&word, "false") {
        TokenType::False
    } else if spells(&word, "for") {
        TokenType::For
    } else if spells(&word, "fun") {
        TokenType::Fun
    } else if spells(&word, "if") {
        TokenType::If
    } else if spells(&word, "nil") {
        TokenType::Nil
    } else if spells(&word, "or") {
        TokenType::Or
    } else if spells(&word, "print") {
        TokenType::Print
    } else if spells(&word, "return") {
        TokenType::Return
    } else if spells(&word, "super") {
        TokenType::Super
    } else if spells(&word, "this") {
        TokenType::This
    } else if spells(&word, "true") {
        TokenType::True
    } else if spells(&word, "var") {
        TokenType::Var
    } else if spells(&word, "while") {
        TokenType::While
    } else {
        TokenType::Identifier
    }
}

/// A scanner over one source text. It keeps the tokens made so far, the
/// start of the lexeme at hand, the position reached and the line there.
pub struct Scanner {
    source: String,
    length: usize,
    tokens: Vec<Token>,
    start: usize,
    current: usize,
    line: usize,
}

impl Scanner {
    /// The source text.
    pub closed spec fn text(&self) -> Seq<char> {
        self.source@
    }

    /// How many characters have been consumed.
    pub closed spec fn position(&self) -> int {
        self.current as int
    }

    /// The line at the position reached, counted from one.
    pub closed spec fn line_number(&self) -> nat {
        self.line as nat
    }

    /// The tokens made so far.
    pub closed spec fn scanned(&self) -> Seq<TokenView> {
        tokens_view(self.tokens@)
    }

    /// The position lies within the text, and the line is at least one and
    /// no further on than one line per character consumed.
    pub closed spec fn well_formed(&self) -> bool {
        &&& self.length == self.source@.len()
        &&& self.start <= self.current <= self.length
        &&& 1 <= self.line <= self.current + 1
    }

    /// Whether only the position, the line and the tokens may differ
    /// between `self` and `other`.
    spec fn same_text(&self, other: &Scanner) -> bool {
        self.source@ == other.source@ && self.length == other.length
    }

    /// Whether `self` differs from `other` in the position alone.
    spec fn moved_from(&self, other: &Scanner) -> bool {
        &&& self.same_text(other)
        &&& self.tokens@ == other.tokens@
        &&& self.start == other.start
        &&& self.line == other.line
    }

    /// A scanner at the start of `source`, on line one, with no token yet.
    pub fn new(source: String) -> (r: Self)
        ensures
            r.well_formed(),
            r.text() == source@,
            r.position() == 0,
            r.line_number() == 1,
            r.scanned() == Seq::<TokenView>::empty(),
    {
        let length = source.as_str().unicode_len();
        let r = Scanner { source, length, tokens: Vec::new(), start: 0, current: 0, line: 1 };
        assert(r.scanned() =~= Seq::<TokenView>::empty());
        r
    }

    /// Scans the rest of the text and returns all tokens made, the end
    /// marker last. Errors go to `reporter`, and scanning goes on after each.
    pub fn scan_tokens(&mut self, reporter: &mut Reporter) -> (r: Vec<Token>)
        requires
            old(self).well_formed(),
            old(self).text().len() < usize::MAX,
        ensures
            final(self).well_formed(),
            final(self).text() == old(self).text(),
            final(self).position() == old(self).text().len(),
            tokens_view(r@) == old(self).scanned() + scan_from(
                old(self).text(),
                old(self).position(),
                old(self).line_number(),
            ).tokens,
            final(self).scanned() == tokens_view(r@),
            final(reporter).reported() == old(reporter).reported() + scan_from(
                old(self).text(),
                old(self).position(),
                old(self).line_number(),
            ).errors,
            final(reporter).flagged() == (old(reporter).flagged() || scan_from(
                old(self).text(),
                old(self).position(),
                old(self).line_number(),
            ).errors.len() > 0),
    {
        let ghost text = self.source@;
        let ghost whole = scan_from(text, self.current as int, self.line as nat);
        let ghost tokens_before = tokens_view(self.tokens@);
        let ghost errors_before = reporter.reported();
        let ghost flag_before = reporter.flagged();
        assert(tokens_before + whole.tokens == tokens_view(self.tokens@) + whole.tokens);
        assert(errors_before + whole.errors == reporter.reported() + whole.errors);
        while !self.is_at_end()
            invariant
                self.well_formed(),
                self.source@ == text,
                text.len() < usize::MAX,
                tokens_before + whole.tokens == tokens_view(self.tokens@) + scan_from(
                    text,
                    self.current as int,
                    self.line as nat,
                ).tokens,
                errors_before + whole.errors == reporter.reported() + scan_from(
                    text,
                    self.current as int,
                    self.line as nat,
                ).errors,
                reporter.reported().len() >= errors_before.len(),
                reporter.flagged() == (flag_before || reporter.reported().len()
                    > errors_before.len()),
            decreases self.length - self.current,
        {
            let ghost x = scan_one(text, self.current as int, self.line as nat);
            let ghost rest = scan_from(text, x.next, x.line);
            let ghost tokens_so_far = tokens_view(self.tokens@);
            let ghost errors_so_far = reporter.reported();
            proof {
                lemma_scan_one_advances(text, self.current as int, self.line as nat);
                assert(tokens_so_far + (optional(x.token) + rest.tokens) =~= (tokens_so_far
                    + optional(x.token)) + rest.tokens);
                assert(errors_so_far + (optional(x.error) + rest.errors) =~= (errors_so_far
                    + optional(x.error)) + rest.errors);
            }
            self.start = self.current;
            self.scan_token(reporter);
        }
        let line = self.line;
        self.tokens.push(Token::new(TokenType::Eof, "", None, line));
        proof {
            reveal_strlit("");
            assert(""@ =~= Seq::<char>::empty());
            assert(tokens_view(self.tokens@) =~= tokens_view(old(self).tokens@) + whole.tokens);
            assert(reporter.reported() =~= errors_before + whole.errors);
        }
        let mut out: Vec<Token> = Vec::new();
        let mut i: usize = 0;
        while i < self.tokens.len()
            invariant
                i <= self.tokens.len(),
                out.len() == i,
                forall|j: int| 0 <= j < i ==> out[j] == self.tokens[j],
            decreases self.tokens.len() - i,
        {
            out.push(self.tokens[i].clone());
            i += 1;
        }
        assert(out@ =~= self.tokens@);
        out
    }

    /// Whether the whole text has been consumed.
    fn is_at_end(&self) -> (b: bool)
        ensures
            b == (self.current >= self.length),
    {
        self.current >= self.length
    }

    /// Scans the lexeme that starts at the position reached.
    fn scan_token(&mut self, reporter: &mut Reporter)
        requires
            old(self).well_formed(),
            old(self).start == old(self).current,
            old(self).current < old(self).length,
            old(self).length < usize::MAX,
        ensures
            final(self).well_formed(),
            final(self).same_text(old(self)),
            final(self).current == scan_one(
                old(self).source@,
                old(self).current as int,
                old(self).line as nat,
            ).next,
            final(self).line == scan_one(
                old(self).source@,
                old(self).current as int,
                old(self).line as nat,
            ).line,
            tokens_view(final(self).tokens@) == tokens_view(old(self).tokens@) + optional(
                scan_one(old(self).source@, old(self).current as int, old(self).line as nat).token,
            ),
            final(reporter).reported() == old(reporter).reported() + optional(
                scan_one(old(self).source@, old(self).current as int, old(self).line as nat).error,
            ),
            final(reporter).flagged() == (old(reporter).flagged() || scan_one(
                old(self).source@,
                old(self).current as int,
                old(self).line as nat,
            ).error.is_some()),
    {
        proof {
            lemma_scan_one_advances(old(self).source@, old(self).current as int, old(self).line as nat);
            assert(old(reporter).reported() + Seq::<DiagnosticView>::empty() =~= old(reporter).reported());
            assert(tokens_view(old(self).tokens@) + Seq::<TokenView>::empty() =~= tokens_view(
                old(self).tokens@,
            ));
        }
        let c = self.advance();
        if c == '(' {
            self.add_token(TokenType::LeftParen);
        } else if c == ')' {
            self.add_token(TokenType::RightParen);
        } else if c == '{' {
            self.add_token(TokenType::LeftBrace);
        } else if c == '}' {
            self.add_token(TokenType::RightBrace);
        } else if c == ',' {
            self.add_token(TokenType::Comma);
        } else if c == '.' {
            self.add_token(TokenType::Dot);
        } else if c == '-' {
            self.add_token(TokenType::Minus);
        } else if c == '+' {
            self.add_token(TokenType::Plus);
        } else if c == ';' {
            self.add_token(TokenType::Semicolon);
        } else if c == '*' {
            self.add_token(TokenType::Star);
        } else if c == '!' {
            let type_ = if self.matches('=') {
                TokenType::BangEqual
            } else {
                TokenType::Bang
            };
            self.add_token(type_);
        } else if c == '=' {
            let type_ = if self.matches('=') {
                TokenType::EqualEqual
            } else {
                TokenType::Equal
            };
            self.add_token(type_);
        } else if c == '<' {
            let type_ = if self.matches('=') {
                TokenType::LessEqual
            } else {
                TokenType::Less
            };
            self.add_token(type_);
        } else if c == '>' {
            let type_ = if self.matches('=') {
                TokenType::GreaterEqual
            } else {
                TokenType::Greater
            };
            self.add_token(type_);
        } else if c == '/' {
            if self.matches('/') {
                self.skip_run(CharClass::NotNewline);
            } else {
                self.add_token(TokenType::Slash);
            }
        } else if c == ' ' || c == '\r' || c == '\t' {
        } else if c == '\n' {
            self.increment_line();
        } else if c == '"' {
            self.string(reporter);
        } else if is_digit(c) {
            self.number();
        } else if is_alphanumeric(c) {
            self.identifier();
        } else {
            error(reporter, self.line, "Unexpected character");
        }
    }

    /// Consumes one character and returns it.
    fn advance(&mut self) -> (c: char)
        requires
            old(self).well_formed(),
            old(self).current < old(self).length,
        ensures
            final(self).moved_from(old(self)),
            final(self).current == old(self).current + 1,
            c == old(self).source@[old(self).current as int],
            final(self).well_formed(),
    {
        self.current += 1;
        self.source.as_str().get_char(self.current - 1)
    }

    /// The character at the position reached, or NUL at the end.
    fn peek(&self) -> (c: char)
        requires
            self.well_formed(),
        ensures
            c == char_at(self.source@, self.current as int),
    {
        if self.is_at_end() {
            '\0'
        } else {
            self.source.as_str().get_char(self.current)
        }
    }

    /// The character after the one at the position reached, or NUL.
    fn peek_next(&self) -> (c: char)
        requires
            self.well_formed(),
        ensures
            c == char_at(self.source@, self.current + 1),
    {
        if self.current >= self.length || self.current + 1 >= self.length {
            '\0'
        } else {
            self.source.as_str().get_char(self.current + 1)
        }
    }

    /// Adds a token without a literal for the lexeme at hand.
    fn add_token(&mut self, type_: TokenType)
        requires
            old(self).well_formed(),
        ensures
            final(self).well_formed(),
            final(self).same_text(old(self)),
            final(self).start == old(self).start,
            final(self).current == old(self).current,
            final(self).line == old(self).line,
            tokens_view(final(self).tokens@) == tokens_view(old(self).tokens@) + seq![
                TokenView {
                    type_,
                    lexeme: old(self).source@.subrange(
                        old(self).start as int,
                        old(self).current as int,
                    ),
                    literal: None,
                    line: old(self).line as nat,
                },
            ],
    {
        self.add_full_token(type_, None);
    }

    /// Adds a token for the lexeme at hand, on the line reached.
    fn add_full_token(&mut self, type_: TokenType, literal: Option<Literal>)
        requires
            old(self).well_formed(),
        ensures
            final(self).well_formed(),
            final(self).same_text(old(self)),
            final(self).start == old(self).start,
            final(self).current == old(self).current,
            final(self).line == old(self).line,
            tokens_view(final(self).tokens@) == tokens_view(old(self).tokens@) + seq![
                TokenView {
                    type_,
                    lexeme: old(self).source@.subrange(
                        old(self).start as int,
                        old(self).current as int,
                    ),
                    literal: crate::tokens::literal_option_view(literal),
                    line: old(self).line as nat,
                },
            ],
    {
        let lexeme = self.source.as_str().substring_char(self.start, self.current);
        let token = Token::new(type_, lexeme, literal, self.line);
        self.tokens.push(token);
        assert(tokens_view(self.tokens@) =~= tokens_view(old(self).tokens@) + seq![token@]);
    }

    /// Consumes the next character if it is `expected`.
    fn matches(&mut self, expected: char) -> (b: bool)
        requires
            old(self).well_formed(),
        ensures
            final(self).well_formed(),
            final(self).moved_from(old(self)),
            b == (old(self).current < old(self).length
                && old(self).source@[old(self).current as int] == expected),
            final(self).current == old(self).current + if b {
                1int
            } else {
                0int
            },
    {
        if self.is_at_end() {
            return false;
        }
        if expected == self.source.as_str().get_char(self.current) {
            self.current += 1;
            true
        } else {
            false
        }
    }

    /// Consumes the longest run of characters of `class`.
    fn skip_run(&mut self, class: CharClass)
        requires
            old(self).well_formed(),
        ensures
            final(self).well_formed(),
            final(self).moved_from(old(self)),
            final(self).current == run_end(old(self).source@, class, old(self).current as int),
    {
        while !self.is_at_end() && belongs(class, self.peek())
            invariant
                self.well_formed(),
                self.moved_from(old(self)),
                run_end(self.source@, class, self.current as int) == run_end(
                    old(self).source@,
                    class,
                    old(self).current as int,
                ),
            decreases self.length - self.current,
        {
            self.advance();
        }
    }

    /// Scans a string literal whose opening quote has been consumed.
    fn string(&mut self, reporter: &mut Reporter)
        requires
            old(self).well_formed(),
            old(self).current == old(self).start + 1,
            old(self).length < usize::MAX,
        ensures
            final(self).well_formed(),
            final(self).same_text(old(self)),
            final(self).current == string_lexeme(
                old(self).source@,
                old(self).start as int,
                old(self).line as nat,
            ).next,
            final(self).line == string_lexeme(
                old(self).source@,
                old(self).start as int,
                old(self).line as nat,
            ).line,
            tokens_view(final(self).tokens@) == tokens_view(old(self).tokens@) + optional(
                string_lexeme(old(self).source@, old(self).start as int, old(self).line as nat).token,
            ),
            final(reporter).reported() == old(reporter).reported() + optional(
                string_lexeme(old(self).source@, old(self).start as int, old(self).line as nat).error,
            ),
            final(reporter).flagged() == (old(reporter).flagged() || string_lexeme(
                old(self).source@,
                old(self).start as int,
                old(self).line as nat,
            ).error.is_some()),
    {
        let ghost text = self.source@;
        let ghost close = run_end(text, CharClass::NotQuote, self.current as int);
        proof {
            lemma_run_end_bounds(text, CharClass::NotQuote, self.current as int);
        }
        while !self.is_at_end() && self.peek() != '"'
            invariant
                self.well_formed(),
                self.same_text(old(self)),
                self.source@ == text,
                self.length < usize::MAX,
                self.tokens@ == old(self).tokens@,
                self.start == old(self).start,
                old(self).current <= self.current <= close,
                run_end(text, CharClass::NotQuote, self.current as int) == close,
                self.line == old(self).line + newlines(
                    text,
                    old(self).current as int,
                    self.current as int,
                ),
            decreases self.length - self.current,
        {
            proof {
                lemma_run_end_bounds(text, CharClass::NotQuote, self.current + 1);
            }
            if self.peek() == '\n' {
                self.line += 1;
            }
            self.current += 1;
        }
        if self.is_at_end() {
            error(reporter, self.line, "Unterminated string.");
            assert(tokens_view(self.tokens@) + Seq::<TokenView>::empty() =~= tokens_view(
                self.tokens@,
            ));
            assert(reporter.reported() =~= old(reporter).reported() + optional(
                string_lexeme(text, old(self).start as int, old(self).line as nat).error,
            ));
        } else {
            self.advance();
            let content = self.source.as_str().substring_char(self.start + 1, self.current - 1);
            let literal = Literal::String_(content.to_owned());
            self.add_full_token(TokenType::String_, Some(literal));
            assert(reporter.reported() + Seq::<DiagnosticView>::empty() =~= reporter.reported());
        }
    }

    /// Scans a numeral whose first digit has been consumed.
    fn number(&mut self)
        requires
            old(self).well_formed(),
            old(self).current == old(self).start + 1,
        ensures
            final(self).well_formed(),
            final(self).same_text(old(self)),
            final(self).current == number_lexeme(
                old(self).source@,
                old(self).start as int,
                old(self).line as nat,
            ).next,
            final(self).line == old(self).line,
            tokens_view(final(self).tokens@) == tokens_view(old(self).tokens@) + optional(
                number_lexeme(old(self).source@, old(self).start as int, old(self).line as nat).token,
            ),
    {
        self.skip_run(CharClass::Digit);
        proof {
            lemma_run_end_bounds(old(self).source@, CharClass::Digit, old(self).current as int);
        }
        if self.peek() == '.' && is_digit(self.peek_next()) {
            self.advance();
            self.skip_run(CharClass::Digit);
            proof {
                lemma_run_end_bounds(self.source@, CharClass::Digit, self.current as int);
            }
        }
        let text = self.source.as_str().substring_char(self.start, self.current);
        let literal = Literal::Number(text.to_owned());
        self.add_full_token(TokenType::Number, Some(literal));
    }

    /// Scans a reserved word or an identifier whose first character has
    /// been consumed.
    fn identifier(&mut self)
        requires
            old(self).well_formed(),
            old(self).current == old(self).start + 1,
        ensures
            final(self).well_formed(),
            final(self).same_text(old(self)),
            final(self).current == word_lexeme(
                old(self).source@,
                old(self).start as int,
                old(self).line as nat,
            ).next,
            final(self).line == old(self).line,
            tokens_view(final(self).tokens@) == tokens_view(old(self).tokens@) + optional(
                word_lexeme(old(self).source@, old(self).start as int, old(self).line as nat).token,
            ),
    {
        self.skip_run(CharClass::Word);
        proof {
            lemma_run_end_bounds(old(self).source@, CharClass::Word, old(self).current as int);
        }
        let text = self.source.as_str().substring_char(self.start, self.current);
        let type_ = word_kind(text);
        self.add_token(type_);
    }

    /// Moves on to the next line.
    fn increment_line(&mut self)
        requires
            old(self).well_formed(),
            old(self).line <= old(self).current,
            old(self).length < usize::MAX,
        ensures
            final(self).well_formed(),
            final(self).same_text(old(self)),
            final(self).tokens@ == old(self).tokens@,
            final(self).start == old(self).start,
            final(self).current == old(self).current,
            final(self).line == old(self).line + 1,
    {
        self.line += 1;
    }
}

/// Whether `c` belongs to `class`.
fn belongs(class: CharClass, c: char) -> (b: bool)
    ensures
        b == in_class(class, c),
{
    match class {
        CharClass::Digit => is_digit(c),
        CharClass::Word => is_alphanumeric(c),
        CharClass::NotNewline => c != '\n',
        CharClass::NotQuote => c != '"',
    }
}

} // verus!
