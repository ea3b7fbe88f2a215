//! The lexer: from the bytes of a source file to tokens and diagnostics.
//!
//! The lexer reads the UTF-8 bytes of the input. Every character that means something
//! to it is a single byte; of any other character it only needs the width, which the
//! first byte of the character tells.

use crate::diagnostic::note;
use crate::diagnostic::Diagnostic;
use crate::diagnostic::DiagnosticView;
use crate::diagnostic::Importance;
use crate::diagnostic::LabelView;
use crate::diagnostic::Note;
use crate::diagnostic::NoteKind;
use crate::diagnostic::NoteView;
use crate::diagnostic::Severity;
use crate::diagnostic::lemma_diagnostic_view;
use crate::lexis::token::Token;
use crate::lexis::token::TokenKind;
use crate::source_code::FileId;
use crate::source_code::SourceSpan;
use crate::text::slice;
use crate::text::sliceable;
use crate::text::push_str;
use core::ops::Range;
use vstd::prelude::*;
use vstd::utf8::decode_utf8;
use vstd::string::StringSliceAdditionalSpecFns;

verus! {

/// Lexer state.
pub struct Lexer<'a> {
    pub file_id: FileId,
    pub input: &'a str,
    pub position: usize,
    pub tokens: Vec<Token>,
    pub diagnostics: Vec<Diagnostic>,
}

/// What the lexer has done so far: where it stands, and what it has emitted.
pub struct LexState {
    pub position: int,
    pub tokens: Seq<Token>,
    pub diagnostics: Seq<DiagnosticView>,
}

/// Number of bytes of the character that starts with `lead`.
pub open spec fn width(lead: u8) -> int {
    if lead < 0xC0 {
        1
    } else if lead < 0xE0 {
        2
    } else if lead < 0xF0 {
        3
    } else {
        4
    }
}

/// The first byte of the character at `position`, if the input goes that far.
pub open spec fn current_at(bytes: Seq<u8>, position: int) -> Option<u8> {
    if 0 <= position < bytes.len() {
        Some(bytes[position])
    } else {
        None
    }
}

/// The position behind the character at `position`. At the end of the input it is
/// `position` itself.
pub open spec fn after(bytes: Seq<u8>, position: int) -> int {
    if 0 <= position < bytes.len() {
        if position + width(bytes[position]) <= bytes.len() {
            position + width(bytes[position])
        } else {
            bytes.len() as int
        }
    } else {
        position
    }
}

/// Classes of bytes that the lexer skips over in one go.
#[derive(Clone, Copy, Debug, PartialEq, Eq, Structural)]
pub enum Class {
    /// Blank, carriage return, tab.
    Whitespace,
    /// `0` to `9`.
    Digit,
    /// `0` to `9`, `A` to `F`, `a` to `f`.
    HexDigit,
    /// Letters, `_`, digits.
    IdentifierPart,
    /// The characters operators are made of.
    OperatorPart,
    /// Everything but a line feed.
    NotNewline,
}

/// Whether `byte` belongs to `class`.
pub open spec fn accepts(class: Class, byte: u8) -> bool {
    match class {
        Class::Whitespace => is_whitespace(byte),
        Class::Digit => is_digit(byte),
        Class::HexDigit => is_hex_digit(byte),
        Class::IdentifierPart => is_identifier_part(byte),
        Class::OperatorPart => is_operator_part(byte),
        Class::NotNewline => not_newline(byte),
    }
}

/// The first position from `position` on whose character does not start with a byte
/// of `class`, or the end of the input.
pub open spec fn skip(bytes: Seq<u8>, position: int, class: Class) -> int
    decreases bytes.len() - position,
{
    if 0 <= position < bytes.len() && accepts(class, bytes[position]) {
        skip(bytes, after(bytes, position), class)
    } else {
        position
    }
}

pub open spec fn is_whitespace(byte: u8) -> bool {
    byte == ' ' as u8 || byte == '\r' as u8 || byte == '\t' as u8
}

pub open spec fn is_digit(byte: u8) -> bool {
    '0' as u8 <= byte <= '9' as u8
}

pub open spec fn is_hex_digit(byte: u8) -> bool {
    is_digit(byte) || ('A' as u8 <= byte <= 'F' as u8) || ('a' as u8 <= byte <= 'f' as u8)
}

pub open spec fn is_identifier_start(byte: u8) -> bool {
    ('a' as u8 <= byte <= 'z' as u8) || ('A' as u8 <= byte <= 'Z' as u8) || byte == '_' as u8
}

pub open spec fn is_identifier_part(byte: u8) -> bool {
    is_identifier_start(byte) || is_digit(byte)
}

pub open spec fn is_operator_part(byte: u8) -> bool {
    byte == '+' as u8 || byte == '-' as u8 || byte == '*' as u8 || byte == '/' as u8 || byte
        == '%' as u8 || byte == '<' as u8 || byte == '=' as u8 || byte == '>' as u8 || byte
        == '!' as u8 || byte == '?' as u8 || byte == '^' as u8 || byte == '&' as u8 || byte
        == '|' as u8 || byte == '~' as u8 || byte == '$' as u8 || byte == '.' as u8 || byte
        == ':' as u8 || byte == '@' as u8
}

pub open spec fn not_newline(byte: u8) -> bool {
    byte != '\n' as u8
}

/// The bytes of an ASCII text.
pub open spec fn ascii(text: Seq<char>) -> Seq<u8> {
    Seq::new(text.len(), |i: int| text[i] as u8)
}

/// The kind of the identifier or keyword spelled `text`.
pub open spec fn identifier_kind(text: Seq<u8>) -> TokenKind {
    if text == ascii("_"@) {
        TokenKind::Underscore
    } else if text == ascii("and"@) {
        TokenKind::And
    } else if text == ascii("break"@) {
        TokenKind::Break
    } else if text == ascii("default"@) {
        TokenKind::Default
    } else if text == ascii("do"@) {
        TokenKind::Do
    } else if text == ascii("effect"@) {
        TokenKind::Effect
    } else if text == ascii("else"@) {
        TokenKind::Else
    } else if text == ascii("fun"@) {
        TokenKind::Fun
    } else if text == ascii("handle"@) {
        TokenKind::Handle
    } else if text == ascii("if"@) {
        TokenKind::If
    } else if text == ascii("interface"@) {
        TokenKind::Interface
    } else if text == ascii("internal"@) {
        TokenKind::Internal
    } else if text == ascii("is"@) {
        TokenKind::Is
    } else if text == ascii("let"@) {
        TokenKind::Let
    } else if text == ascii("match"@) {
        TokenKind::Match
    } else if text == ascii("module"@) {
        TokenKind::Module
    } else if text == ascii("mut"@) {
        TokenKind::Mut
    } else if text == ascii("or"@) {
        TokenKind::Or
    } else if text == ascii("set"@) {
        TokenKind::SetKeyword
    } else if text == ascii("then"@) {
        TokenKind::Then
    } else if text == ascii("use"@) {
        TokenKind::Use
    } else if text == ascii("var"@) {
        TokenKind::Var
    } else if text == ascii("while"@) {
        TokenKind::While
    } else if text == ascii("with"@) {
        TokenKind::With
    } else {
        TokenKind::Identifier
    }
}

/// The kind of the operator spelled `text`.
pub open spec fn operator_kind(text: Seq<u8>) -> TokenKind {
    if text == ascii("."@) {
        TokenKind::Dot
    } else if text == ascii(":"@) {
        TokenKind::Colon
    } else if text == ascii("="@) {
        TokenKind::Equals
    } else if text == ascii("|"@) {
        TokenKind::Pipe
    } else if text == ascii("&"@) {
        TokenKind::Ampersand
    } else if text == ascii("->"@) {
        TokenKind::Arrow
    } else if text == ascii("@"@) {
        TokenKind::At
    } else {
        TokenKind::Operator
    }
}

/// An error with one primary label.
pub open spec fn error_at(
    message: Seq<char>,
    file: FileId,
    start: int,
    end: int,
    label: Seq<char>,
) -> DiagnosticView {
    DiagnosticView {
        severity: Severity::Error,
        message,
        labels: seq![
            LabelView {
                importance: Importance::Primary,
                file: file.position(),
                start,
                end,
                message: label,
            },
        ],
        notes: Seq::empty(),
        children: Seq::empty(),
    }
}

/// `diagnostic` with a note of kind [`NoteKind::Note`] attached.
pub open spec fn noted(diagnostic: DiagnosticView, text: Seq<char>) -> DiagnosticView {
    DiagnosticView {
        notes: diagnostic.notes.push(NoteView { kind: NoteKind::Note, message: text }),
        ..diagnostic
    }
}

impl LexState {
    /// The state at `position` with the same tokens and diagnostics.
    pub open spec fn at(self, position: int) -> LexState {
        LexState { position, ..self }
    }

    /// The state after a token of `kind` from `start` to `end` was emitted, standing
    /// at `end`.
    pub open spec fn token(self, kind: TokenKind, start: int, end: int) -> LexState {
        LexState {
            position: end,
            tokens: self.tokens.push(
                Token { kind, range: Range { start: start as usize, end: end as usize } },
            ),
            ..self
        }
    }

    /// The state after `diagnostic` was emitted.
    pub open spec fn report(self, diagnostic: DiagnosticView) -> LexState {
        LexState { diagnostics: self.diagnostics.push(diagnostic), ..self }
    }
}


/// Where the body of a string literal ends: at the closing quote, or at the end of the
/// input. `multiline` tells whether a line feed was seen on the way.
pub struct StringBody {
    pub end: int,
    pub multiline: bool,
    pub closed: bool,
}

/// Scans the body of a string literal from `position` on.
pub open spec fn string_body(bytes: Seq<u8>, position: int, multiline: bool) -> StringBody
    decreases bytes.len() - position,
{
    if current_at(bytes, position) == Some('"' as u8) {
        StringBody { end: position, multiline, closed: true }
    } else {
        let next = after(bytes, position);
        let multiline = multiline || current_at(bytes, next) == Some('\n' as u8);
        if current_at(bytes, next) is None {
            StringBody { end: next, multiline, closed: false }
        } else {
            string_body(bytes, next, multiline)
        }
    }
}

pub open spec fn single_char_token(bytes: Seq<u8>, s: LexState, kind: TokenKind) -> LexState {
    s.token(kind, s.position, after(bytes, s.position))
}

pub open spec fn comment(bytes: Seq<u8>, s: LexState) -> LexState {
    s.token(
        TokenKind::Comment,
        s.position,
        skip(bytes, after(bytes, s.position), Class::NotNewline),
    )
}

pub open spec fn decimal_number_literal(bytes: Seq<u8>, file: FileId, s: LexState) -> LexState {
    let start = s.position;
    let point = skip(bytes, start, Class::Digit);
    if current_at(bytes, point) == Some('.' as u8) {
        let fraction = after(bytes, point);
        let reported = if current_at(bytes, fraction) matches Some(digit) && is_digit(digit) {
            s
        } else {
            s.report(
                error_at(
                    "decimal point `.` must be followed by at least one digit"@,
                    file,
                    point,
                    fraction,
                    ""@,
                ),
            )
        };
        reported.token(TokenKind::Decimal, start, skip(bytes, fraction, Class::Digit))
    } else {
        s.token(TokenKind::Integer, start, point)
    }
}

pub open spec fn character_or_escape(bytes: Seq<u8>, file: FileId, s: LexState) -> LexState {
    if current_at(bytes, s.position) == Some('\\' as u8) {
        let escaped = after(bytes, s.position);
        let beyond = after(bytes, escaped);
        if current_at(bytes, escaped) == Some('u' as u8) {
            if current_at(bytes, beyond) == Some('{' as u8) {
                let digits = after(bytes, beyond);
                let end = skip(bytes, digits, Class::HexDigit);
                if current_at(bytes, end) == Some('}' as u8) {
                    s.at(after(bytes, end))
                } else {
                    s.report(
                        error_at(
                            "`}` expected to close `\\u` Unicode code point escape sequence"@,
                            file,
                            digits,
                            end,
                            "`}` expected after this"@,
                        ),
                    ).at(end)
                }
            } else {
                s.report(
                    noted(
                        error_at(
                            "`{` expected after `\\u` Unicode code point escape sequence"@,
                            file,
                            escaped,
                            escaped,
                            "`{` expected after this"@,
                        ),
                        "Unicode code point escape sequences take the form `\\u{xx}`, where xx is a sequence of hexadecimal digits specifying the code point"@,
                    ),
                ).at(beyond)
            }
        } else {
            s.at(beyond)
        }
    } else {
        s.at(after(bytes, s.position))
    }
}

pub open spec fn character_literal(bytes: Seq<u8>, file: FileId, s: LexState) -> LexState {
    let start = s.position;
    let inner = character_or_escape(bytes, file, s.at(after(bytes, start)));
    if current_at(bytes, inner.position) == Some('\'' as u8) {
        inner.token(TokenKind::Character, start, after(bytes, inner.position))
    } else {
        inner.report(
            error_at(
                "missing `'` after character literal"@,
                file,
                start,
                inner.position,
                "missing `'` after this"@,
            ),
        ).token(TokenKind::Error, start, inner.position)
    }
}

pub open spec fn string_literal(bytes: Seq<u8>, file: FileId, s: LexState) -> LexState {
    let start = s.position;
    let after_quote = after(bytes, start);
    let body = string_body(bytes, after_quote, false);
    let unclosed = if body.closed {
        s
    } else {
        s.report(
            error_at(
                "missing `\"` to close string literal"@,
                file,
                start,
                after_quote,
                "missing `\"` to close this literal"@,
            ),
        )
    };
    let end = after(bytes, body.end);
    let reported = if body.multiline {
        unclosed.report(
            error_at(
                "string literals may not span multiple lines"@,
                file,
                start,
                end,
                "this literal spans multiple lines"@,
            ),
        )
    } else {
        unclosed
    };
    reported.token(TokenKind::String, start, end)
}

pub open spec fn identifier(bytes: Seq<u8>, s: LexState) -> LexState {
    let start = s.position;
    let end = skip(bytes, start, Class::IdentifierPart);
    s.token(identifier_kind(bytes.subrange(start, end)), start, end)
}

pub open spec fn operator(bytes: Seq<u8>, file: FileId, s: LexState) -> LexState {
    let start = s.position;
    let end = skip(bytes, start, Class::OperatorPart);
    let kind = operator_kind(bytes.subrange(start, end));
    if kind == TokenKind::Colon && (current_at(bytes, end) matches Some(first)
        && is_identifier_part(first)) {
        let reported = if is_identifier_start(bytes[end]) {
            s
        } else {
            s.report(
                noted(
                    error_at("tag name cannot start with a number"@, file, end, end + 1, ""@),
                    "tag names must be valid identifiers.\nidentifiers cannot start with digits because they could be confused with numbers"@,
                ),
            )
        };
        reported.token(TokenKind::Tag, start, skip(bytes, end, Class::IdentifierPart))
    } else {
        s.token(kind, start, end)
    }
}

/// The text of the diagnostic for a character that starts no token: the character
/// between backquotes. Bytes from `start` to `end` that are no whole characters are left
/// out.
pub open spec fn unexpected_message(bytes: Seq<u8>, start: int, end: int) -> Seq<char> {
    "unexpected `"@ + (if sliceable(bytes, start, end) {
        decode_utf8(bytes.subrange(start, end))
    } else {
        Seq::empty()
    }) + "`"@
}

pub open spec fn unexpected(bytes: Seq<u8>, file: FileId, s: LexState) -> LexState {
    let start = s.position;
    let end = after(bytes, start);
    s.report(
        error_at(
            unexpected_message(bytes, start, end),
            file,
            start,
            end,
            "this character is not valid in Rokugo source code"@,
        ),
    ).token(TokenKind::Error, start, end)
}

/// The state after the token that starts at the position of `s`, where the input has
/// not ended.
pub open spec fn lex_token(bytes: Seq<u8>, file: FileId, s: LexState) -> LexState {
    let c = bytes[s.position];
    if c == '\n' as u8 {
        single_char_token(bytes, s, TokenKind::Newline)
    } else if c == '#' as u8 {
        comment(bytes, s)
    } else if c == '(' as u8 {
        single_char_token(bytes, s, TokenKind::LParen)
    } else if c == ')' as u8 {
        single_char_token(bytes, s, TokenKind::RParen)
    } else if c == '[' as u8 {
        single_char_token(bytes, s, TokenKind::LBracket)
    } else if c == ']' as u8 {
        single_char_token(bytes, s, TokenKind::RBracket)
    } else if c == '{' as u8 {
        single_char_token(bytes, s, TokenKind::LBrace)
    } else if c == '}' as u8 {
        single_char_token(bytes, s, TokenKind::RBrace)
    } else if c == ',' as u8 {
        single_char_token(bytes, s, TokenKind::Comma)
    } else if c == ';' as u8 {
        single_char_token(bytes, s, TokenKind::Semicolon)
    } else if is_digit(c) {
        decimal_number_literal(bytes, file, s)
    } else if c == '\'' as u8 {
        character_literal(bytes, file, s)
    } else if c == '"' as u8 {
        string_literal(bytes, file, s)
    } else if is_identifier_start(c) {
        identifier(bytes, s)
    } else if is_operator_part(c) {
        operator(bytes, file, s)
    } else {
        unexpected(bytes, file, s)
    }
}

/// The state at the end of the input: whitespace is skipped and tokens are read, by
/// turns, until nothing is left.
pub open spec fn lex_from(bytes: Seq<u8>, file: FileId, s: LexState) -> LexState
    decreases bytes.len() - s.position,
{
    let start = skip(bytes, s.position, Class::Whitespace);
    if 0 <= start < bytes.len() {
        let next = lex_token(bytes, file, s.at(start));
        if start < next.position <= bytes.len() {
            proof {
                lemma_skip(bytes, s.position, Class::Whitespace);
            }
            lex_from(bytes, file, next)
        } else {
            next
        }
    } else {
        s.at(start)
    }
}

/// What lexing the whole of `bytes` gives.
pub open spec fn lexed(bytes: Seq<u8>, file: FileId) -> LexState {
    lex_from(
        bytes,
        file,
        LexState { position: 0, tokens: Seq::empty(), diagnostics: Seq::empty() },
    )
}

/// A position never moves back, and moves on where there is input left.
pub proof fn lemma_after(bytes: Seq<u8>, position: int)
    ensures
        position <= after(bytes, position),
        0 <= position < bytes.len() ==> position < after(bytes, position) <= bytes.len(),
        0 <= position < bytes.len() && bytes[position] < 0x80 ==> after(bytes, position)
            == position + 1,
{
}

/// Skipping never moves back and ends within the input.
pub proof fn lemma_skip(bytes: Seq<u8>, position: int, class: Class)
    ensures
        position <= skip(bytes, position, class),
        0 <= position <= bytes.len() ==> skip(bytes, position, class) <= bytes.len(),
        0 <= position < bytes.len() && accepts(class, bytes[position]) ==> position < skip(
            bytes,
            position,
            class,
        ),
    decreases bytes.len() - position,
{
    if 0 <= position < bytes.len() && accepts(class, bytes[position]) {
        lemma_skip(bytes, after(bytes, position), class);
    }
}


/// What the diagnostics say, one by one.
pub open spec fn views(diagnostics: Seq<Diagnostic>) -> Seq<DiagnosticView> {
    Seq::new(diagnostics.len(), |i: int| diagnostics[i]@)
}

/// Whether `byte` belongs to `class`.
fn in_class(class: Class, byte: u8) -> (accepted: bool)
    ensures
        accepted == accepts(class, byte),
{
    match class {
        Class::Whitespace => byte == (' ' as u8) || byte == ('\r' as u8) || byte == ('\t' as u8),
        Class::Digit => ('0' as u8) <= byte && byte <= ('9' as u8),
        Class::HexDigit => (('0' as u8) <= byte && byte <= ('9' as u8)) || (('A' as u8) <= byte && byte <= ('F' as u8)) || (('a' as u8)
            <= byte && byte <= ('f' as u8)),
        Class::IdentifierPart => is_identifier_char(Some(byte)),
        Class::OperatorPart => is_operator_char(Some(byte)),
        Class::NotNewline => byte != ('\n' as u8),
    }
}

/// Whether `c` is a character that an identifier starts with.
fn is_identifier_start_char(c: Option<u8>) -> (accepted: bool)
    ensures
        accepted == (c matches Some(byte) && is_identifier_start(byte)),
{
    match c {
        Some(byte) => (('a' as u8) <= byte && byte <= ('z' as u8)) || (('A' as u8) <= byte && byte <= ('Z' as u8)) || byte
            == ('_' as u8),
        None => false,
    }
}

/// Whether `c` is a character that an identifier goes on with.
fn is_identifier_char(c: Option<u8>) -> (accepted: bool)
    ensures
        accepted == (c matches Some(byte) && is_identifier_part(byte)),
{
    is_identifier_start_char(c) || match c {
        Some(byte) => ('0' as u8) <= byte && byte <= ('9' as u8),
        None => false,
    }
}

/// Whether `c` is a character that operators are made of.
fn is_operator_char(c: Option<u8>) -> (accepted: bool)
    ensures
        accepted == (c matches Some(byte) && is_operator_part(byte)),
{
    match c {
        Some(byte) => byte == ('+' as u8) || byte == ('-' as u8) || byte == ('*' as u8) || byte == ('/' as u8) || byte
            == ('%' as u8) || byte == ('<' as u8) || byte == ('=' as u8) || byte == ('>' as u8) || byte == ('!' as u8) || byte
            == ('?' as u8) || byte == ('^' as u8) || byte == ('&' as u8) || byte == ('|' as u8) || byte == ('~' as u8) || byte
            == ('$' as u8) || byte == ('.' as u8) || byte == (':' as u8) || byte == ('@' as u8),
        None => false,
    }
}

/// An error with one primary label.
fn error(file_id: FileId, message: &str, start: usize, end: usize, label: &str) -> (diagnostic:
    Diagnostic)
    ensures
        diagnostic@ == error_at(message@, file_id, start as int, end as int, label@),
{
    let label = Importance::Primary.label(file_id.span(Range { start, end }), label);
    let diagnostic = Severity::Error.diagnostic(message).with_label(label);
    proof {
        lemma_diagnostic_view(diagnostic);
        let expected = error_at(message@, file_id, start as int, end as int, label.message@);
        assert(diagnostic@.labels =~= expected.labels);
        assert(diagnostic@.notes =~= expected.notes);
        assert(diagnostic@.children =~= expected.children);
    }
    diagnostic
}

/// `diagnostic` with a note of kind [`NoteKind::Note`] attached.
fn with_note(diagnostic: Diagnostic, text: &str) -> (with: Diagnostic)
    ensures
        with@ == noted(diagnostic@, text@),
{
    let with = diagnostic.with_note(note(NoteKind::Note, text));
    proof {
        lemma_diagnostic_view(diagnostic);
        lemma_diagnostic_view(with);
        let expected = noted(diagnostic@, text@);
        assert(with@.labels =~= expected.labels);
        assert(with@.notes =~= expected.notes);
        assert(with@.children =~= expected.children);
    }
    with
}

/// Whether the bytes from `start` to `end` spell the ASCII text `word`.
fn spells(bytes: &[u8], start: usize, end: usize, word: &str) -> (same: bool)
    requires
        start <= end <= bytes@.len(),
        word.is_ascii(),
    ensures
        same == (bytes@.subrange(start as int, end as int) == ascii(word@)),
{
    broadcast use vstd::string::is_ascii_spec_bytes;

    let letters = word.as_bytes();
    assert(letters@ =~= ascii(word@));
    if end - start != letters.len() {
        assert(bytes@.subrange(start as int, end as int).len() != ascii(word@).len());
        return false;
    }
    let mut i: usize = 0;
    while i < letters.len()
        invariant
            start <= end <= bytes@.len(),
            end - start == letters@.len(),
            letters@ == ascii(word@),
            i <= letters@.len(),
            forall|j: int| 0 <= j < i ==> bytes@[start + j] == #[trigger] letters@[j],
        decreases letters@.len() - i,
    {
        if bytes[start + i] != letters[i] {
            assert(bytes@.subrange(start as int, end as int)[i as int] != letters@[i as int]);
            return false;
        }
        i += 1;
    }
    assert(bytes@.subrange(start as int, end as int) =~= letters@);
    true
}

impl<'a> Lexer<'a> {
    /// The bytes of the input.
    pub open spec fn bytes(&self) -> Seq<u8> {
        self.input.spec_bytes()
    }

    /// Where the lexer stands and what it has emitted.
    pub open spec fn state(&self) -> LexState {
        LexState {
            position: self.position as int,
            tokens: self.tokens@,
            diagnostics: views(self.diagnostics@),
        }
    }

    /// Whether two lexers read the same input of the same file.
    pub open spec fn same_input(&self, other: &Self) -> bool {
        self.file_id == other.file_id && self.input == other.input
    }

    fn current(&self) -> (c: Option<u8>)
        ensures
            c == current_at(self.bytes(), self.position as int),
    {
        let bytes = self.input.as_bytes();
        if self.position < bytes.len() {
            Some(bytes[self.position])
        } else {
            None
        }
    }

    fn advance(&mut self)
        ensures
            final(self).same_input(old(self)),
            final(self).state() == old(self).state().at(
                after(old(self).bytes(), old(self).position as int),
            ),
    {
        let bytes = self.input.as_bytes();
        if self.position < bytes.len() {
            let lead = bytes[self.position];
            let width: usize = if lead < 0xC0 {
                1
            } else if lead < 0xE0 {
                2
            } else if lead < 0xF0 {
                3
            } else {
                4
            };
            if width <= bytes.len() - self.position {
                self.position = self.position + width;
            } else {
                self.position = bytes.len();
            }
        }
    }

    fn span(&self, span: Range<usize>) -> (source_span: SourceSpan)
        ensures
            source_span.file_id == self.file_id,
            source_span.span == span,
    {
        SourceSpan { file_id: self.file_id, span }
    }

    fn token(&self, start: usize, kind: TokenKind) -> (token: Token)
        ensures
            token == (Token { kind, range: Range { start, end: self.position } }),
    {
        kind.at(Range { start, end: self.position })
    }

    /// Pushes a token that ends where the lexer stands.
    fn push_token(&mut self, start: usize, kind: TokenKind)
        ensures
            final(self).same_input(old(self)),
            final(self).state() == old(self).state().token(
                kind,
                start as int,
                old(self).position as int,
            ),
    {
        let token = self.token(start, kind);
        self.tokens.push(token);
    }

    /// Pushes a diagnostic.
    fn report(&mut self, diagnostic: Diagnostic)
        ensures
            final(self).same_input(old(self)),
            final(self).state() == old(self).state().report(diagnostic@),
    {
        self.diagnostics.push(diagnostic);
        assert(views(self.diagnostics@) =~= views(old(self).diagnostics@).push(diagnostic@));
    }

    /// Moves on to the first character that is not of `class`.
    fn skip(&mut self, class: Class)
        ensures
            final(self).same_input(old(self)),
            final(self).state() == old(self).state().at(
                skip(old(self).bytes(), old(self).position as int, class),
            ),
    {
        let bytes = self.input.as_bytes();
        while self.position < bytes.len() && in_class(class, bytes[self.position])
            invariant
                bytes@ == self.bytes(),
                self.same_input(old(self)),
                self.state() == old(self).state().at(self.position as int),
                old(self).position <= self.position,
                skip(self.bytes(), old(self).position as int, class) == skip(
                    self.bytes(),
                    self.position as int,
                    class,
                ),
            decreases bytes@.len() - self.position,
        {
            proof {
                lemma_after(self.bytes(), self.position as int);
            }
            self.advance();
        }
    }

    fn skip_whitespace(&mut self)
        ensures
            final(self).same_input(old(self)),
            final(self).state() == old(self).state().at(
                skip(old(self).bytes(), old(self).position as int, Class::Whitespace),
            ),
    {
        self.skip(Class::Whitespace);
    }

    fn single_char_token(&mut self, kind: TokenKind)
        ensures
            final(self).same_input(old(self)),
            final(self).state() == single_char_token(old(self).bytes(), old(self).state(), kind),
    {
        let start = self.position;
        self.advance();
        self.push_token(start, kind);
    }

    fn comment(&mut self)
        ensures
            final(self).same_input(old(self)),
            final(self).state() == comment(old(self).bytes(), old(self).state()),
    {
        let start = self.position;
        self.advance();
        self.skip(Class::NotNewline);
        self.push_token(start, TokenKind::Comment);
    }

    fn decimal_number_literal(&mut self)
        ensures
            final(self).same_input(old(self)),
            final(self).state() == decimal_number_literal(
                old(self).bytes(),
                old(self).file_id,
                old(self).state(),
            ),
    {
        let start = self.position;
        let mut kind = TokenKind::Integer;
        self.skip(Class::Digit);
        let decimal_point_start = self.position;
        if self.current() == Some(('.' as u8)) {
            kind = TokenKind::Decimal;
            self.advance();
            let decimal_point_end = self.position;
            if !in_digit(self.current()) {
                self.report(
                    error(
                        self.file_id,
                        "decimal point `.` must be followed by at least one digit",
                        decimal_point_start,
                        decimal_point_end,
                        "",
                    ),
                );
            }
            self.skip(Class::Digit);
        }
        self.push_token(start, kind);
    }

    fn character_or_escape(&mut self)
        ensures
            final(self).same_input(old(self)),
            final(self).state() == character_or_escape(
                old(self).bytes(),
                old(self).file_id,
                old(self).state(),
            ),
    {
        let first = self.current();
        let backslash = first == Some('\\' as u8);
        match first {
            Some(_) if backslash => {
                self.advance();
                let escaped_start = self.position;
                let escaped = self.current();
                let escaped_end = self.position;
                self.advance();
                if escaped == Some(('u' as u8)) {
                    if self.current() == Some(('{' as u8)) {
                        self.advance();
                        let codepoint_start = self.position;
                        self.skip(Class::HexDigit);
                        let codepoint_end = self.position;
                        if self.current() == Some(('}' as u8)) {
                            self.advance();
                        } else {
                            self.report(
                                error(
                                    self.file_id,
                                    "`}` expected to close `\\u` Unicode code point escape sequence",
                                    codepoint_start,
                                    codepoint_end,
                                    "`}` expected after this",
                                ),
                            );
                        }
                    } else {
                        self.report(
                            with_note(
                                error(
                                    self.file_id,
                                    "`{` expected after `\\u` Unicode code point escape sequence",
                                    escaped_start,
                                    escaped_end,
                                    "`{` expected after this",
                                ),
                                "Unicode code point escape sequences take the form `\\u{xx}`, where xx is a sequence of hexadecimal digits specifying the code point",
                            ),
                        );
                    }
                }
            },
            Some(_) => self.advance(),
            None => (),
        }
    }

    fn character_literal(&mut self)
        ensures
            final(self).same_input(old(self)),
            final(self).state() == character_literal(
                old(self).bytes(),
                old(self).file_id,
                old(self).state(),
            ),
    {
        let start = self.position;
        self.advance();
        self.character_or_escape();
        if self.current() != Some(('\'' as u8)) {
            self.report(
                error(
                    self.file_id,
                    "missing `'` after character literal",
                    start,
                    self.position,
                    "missing `'` after this",
                ),
            );
            self.push_token(start, TokenKind::Error);
        } else {
            self.advance();
            self.push_token(start, TokenKind::Character);
        }
    }

    fn string_literal(&mut self)
        ensures
            final(self).same_input(old(self)),
            final(self).state() == string_literal(
                old(self).bytes(),
                old(self).file_id,
                old(self).state(),
            ),
    {
        let mut is_multiline = false;
        let start = self.position;
        self.advance();
        let after_quote = self.position;
        let ghost bytes = self.bytes();
        let ghost mut closed = true;
        while self.current() != Some(('"' as u8))
            invariant_except_break
                closed,
                self.state() == old(self).state().at(self.position as int),
                string_body(bytes, after_quote as int, false) == string_body(
                    bytes,
                    self.position as int,
                    is_multiline,
                ),
            invariant
                bytes == self.bytes(),
                self.same_input(old(self)),
            ensures
                string_body(bytes, after_quote as int, false) == (StringBody {
                    end: self.position as int,
                    multiline: is_multiline,
                    closed,
                }),
                closed ==> self.state() == old(self).state().at(self.position as int),
                !closed ==> self.state() == old(self).state().report(
                    error_at(
                        "missing `\"` to close string literal"@,
                        self.file_id,
                        start as int,
                        after_quote as int,
                        "missing `\"` to close this literal"@,
                    ),
                ).at(self.position as int),
            decreases bytes.len() - self.position,
        {
            proof {
                lemma_after(bytes, self.position as int);
            }
            self.advance();
            if self.current() == Some(('\n' as u8)) {
                is_multiline = true;
            }
            if self.current().is_none() {
                self.report(
                    error(
                        self.file_id,
                        "missing `\"` to close string literal",
                        start,
                        after_quote,
                        "missing `\"` to close this literal",
                    ),
                );
                proof {
                    closed = false;
                }
                break ;
            }
        }
        self.advance();
        if is_multiline {
            self.report(
                error(
                    self.file_id,
                    "string literals may not span multiple lines",
                    start,
                    self.position,
                    "this literal spans multiple lines",
                ),
            );
        }
        self.push_token(start, TokenKind::String);
    }

    fn identifier(&mut self)
        requires
            old(self).position < old(self).bytes().len(),
        ensures
            final(self).same_input(old(self)),
            final(self).state() == identifier(old(self).bytes(), old(self).state()),
    {
        let start = self.position;
        self.skip(Class::IdentifierPart);
        let end = self.position;
        proof {
            lemma_skip(self.bytes(), start as int, Class::IdentifierPart);
        }
        let kind = keyword(self.input.as_bytes(), start, end);
        self.push_token(start, kind);
    }

    fn operator(&mut self)
        requires
            old(self).position < old(self).bytes().len(),
        ensures
            final(self).same_input(old(self)),
            final(self).state() == operator(old(self).bytes(), old(self).file_id, old(self).state()),
    {
        let start = self.position;
        self.skip(Class::OperatorPart);
        let end = self.position;
        proof {
            lemma_skip(self.bytes(), start as int, Class::OperatorPart);
        }
        let len = self.input.as_bytes().len();
        let kind = reserved_operator(self.input.as_bytes(), start, end);
        let is_colon = match kind {
            TokenKind::Colon => true,
            _ => false,
        };
        if is_colon && is_identifier_char(self.current()) {
            if !is_identifier_start_char(self.current()) {
                self.report(
                    with_note(
                        error(self.file_id, "tag name cannot start with a number", end, end + 1, ""),
                        "tag names must be valid identifiers.\nidentifiers cannot start with digits because they could be confused with numbers",
                    ),
                );
            }
            self.skip(Class::IdentifierPart);
            self.push_token(start, TokenKind::Tag);
        } else {
            self.push_token(start, kind);
        }
    }

    /// Emits the diagnostic and the error token for a character that starts no token.
    fn unexpected(&mut self)
        requires
            old(self).position < old(self).bytes().len(),
        ensures
            final(self).same_input(old(self)),
            final(self).state() == unexpected(old(self).bytes(), old(self).file_id, old(self).state()),
    {
        let start = self.position;
        self.advance();
        proof {
            lemma_after(self.bytes(), start as int);
        }
        let mut message = "unexpected `".to_owned();
        match slice(self.input, start, self.position) {
            Some(character) => {
                proof {
                    vstd::utf8::encode_utf8_decode_utf8(character@);
                }
                push_str(&mut message, character);
            },
            None => {
                assert(message@ + Seq::<char>::empty() =~= message@);
            },
        }
        push_str(&mut message, "`");
        self.report(
            error(
                self.file_id,
                message.as_str(),
                start,
                self.position,
                "this character is not valid in Rokugo source code",
            ),
        );
        self.push_token(start, TokenKind::Error);
    }

    /// Lexis loop.
    ///
    /// This lexer pushes tokens out to a [`Vec<Token>`], which can later be read via
    /// [`Lexer::tokens`]. It may also emit diagnostics while lexing, and these will be
    /// visible in [`Lexer::diagnostics`].
    pub fn lex(&mut self)
        ensures
            final(self).same_input(old(self)),
            final(self).state() == lex_from(old(self).bytes(), old(self).file_id, old(self).state()),
    {
        let ghost bytes = self.bytes();
        let ghost file = self.file_id;
        loop
            invariant
                self.same_input(old(self)),
                bytes == self.bytes(),
                file == self.file_id,
                lex_from(bytes, file, old(self).state()) == lex_from(bytes, file, self.state()),
            ensures
                self.same_input(old(self)),
                self.state() == lex_from(bytes, file, old(self).state()),
            decreases bytes.len() - self.position,
        {
            let ghost before = self.state();
            self.skip_whitespace();
            proof {
                lemma_skip(bytes, before.position, Class::Whitespace);
            }
            if let Some(c) = self.current() {
                let ghost start = self.state();
                if c == '\n' as u8 {
                    self.single_char_token(TokenKind::Newline)
                } else if c == '#' as u8 {
                    self.comment()
                } else if c == '(' as u8 {
                    self.single_char_token(TokenKind::LParen)
                } else if c == ')' as u8 {
                    self.single_char_token(TokenKind::RParen)
                } else if c == '[' as u8 {
                    self.single_char_token(TokenKind::LBracket)
                } else if c == ']' as u8 {
                    self.single_char_token(TokenKind::RBracket)
                } else if c == '{' as u8 {
                    self.single_char_token(TokenKind::LBrace)
                } else if c == '}' as u8 {
                    self.single_char_token(TokenKind::RBrace)
                } else if c == ',' as u8 {
                    self.single_char_token(TokenKind::Comma)
                } else if c == ';' as u8 {
                    self.single_char_token(TokenKind::Semicolon)
                } else if in_digit(Some(c)) {
                    self.decimal_number_literal()
                } else if c == '\'' as u8 {
                    self.character_literal()
                } else if c == '"' as u8 {
                    self.string_literal()
                } else if is_identifier_start_char(Some(c)) {
                    self.identifier()
                } else if is_operator_char(Some(c)) {
                    self.operator()
                } else {
                    self.unexpected()
                }
                proof {
                    assert(self.state() == lex_token(bytes, file, start));
                    lemma_lex_token(bytes, file, start);
                }
            } else {
                break ;
            }
        }
    }
}

/// Whether `c` is a digit.
fn in_digit(c: Option<u8>) -> (accepted: bool)
    ensures
        accepted == (c matches Some(byte) && is_digit(byte)),
{
    match c {
        Some(byte) => ('0' as u8) <= byte && byte <= ('9' as u8),
        None => false,
    }
}

/// The kind of the identifier or keyword that the bytes from `start` to `end` spell.
fn keyword(bytes: &[u8], start: usize, end: usize) -> (kind: TokenKind)
    requires
        start <= end <= bytes@.len(),
    ensures
        kind == identifier_kind(bytes@.subrange(start as int, end as int)),
{
    proof {
        reveal_strlit("_");
        reveal_strlit("and");
        reveal_strlit("break");
        reveal_strlit("default");
        reveal_strlit("do");
        reveal_strlit("effect");
        reveal_strlit("else");
        reveal_strlit("fun");
        reveal_strlit("handle");
        reveal_strlit("if");
        reveal_strlit("interface");
        reveal_strlit("internal");
        reveal_strlit("is");
        reveal_strlit("let");
        reveal_strlit("match");
        reveal_strlit("module");
        reveal_strlit("mut");
        reveal_strlit("or");
        reveal_strlit("set");
        reveal_strlit("then");
        reveal_strlit("use");
        reveal_strlit("var");
        reveal_strlit("while");
        reveal_strlit("with");
    }
    if spells(bytes, start, end, "_") {
        TokenKind::Underscore
    } else if spells(bytes, start, end, "and") {
        TokenKind::And
    } else if spells(bytes, start, end, "break") {
        TokenKind::Break
    } else if spells(bytes, start, end, "default") {
        TokenKind::Default
    } else if spells(bytes, start, end, "do") {
        TokenKind::Do
    } else if spells(bytes, start, end, "effect") {
        TokenKind::Effect
    } else if spells(bytes, start, end, "else") {
        TokenKind::Else
    } else if spells(bytes, start, end, "fun") {
        TokenKind::Fun
    } else if spells(bytes, start, end, "handle") {
        TokenKind::Handle
    } else if spells(bytes, start, end, "if") {
        TokenKind::If
    } else if spells(bytes, start, end, "interface") {
        TokenKind::Interface
    } else if spells(bytes, start, end, "internal") {
        TokenKind::Internal
    } else if spells(bytes, start, end, "is") {
        TokenKind::Is
    } else if spells(bytes, start, end, "let") {
        TokenKind::Let
    } else if spells(bytes, start, end, "match") {
        TokenKind::Match
    } else if spells(bytes, start, end, "module") {
        TokenKind::Module
    } else if spells(bytes, start, end, "mut") {
        TokenKind::Mut
    } else if spells(bytes, start, end, "or") {
        TokenKind::Or
    } else if spells(bytes, start, end, "set") {
        TokenKind::SetKeyword
    } else if spells(bytes, start, end, "then") {
        TokenKind::Then
    } else if spells(bytes, start, end, "use") {
        TokenKind::Use
    } else if spells(bytes, start, end, "var") {
        TokenKind::Var
    } else if spells(bytes, start, end, "while") {
        TokenKind::While
    } else if spells(bytes, start, end, "with") {
        TokenKind::With
    } else {
        TokenKind::Identifier
    }
}

/// The kind of the operator that the bytes from `start` to `end` spell.
fn reserved_operator(bytes: &[u8], start: usize, end: usize) -> (kind: TokenKind)
    requires
        start <= end <= bytes@.len(),
    ensures
        kind == operator_kind(bytes@.subrange(start as int, end as int)),
{
    proof {
        reveal_strlit(".");
        reveal_strlit(":");
        reveal_strlit("=");
        reveal_strlit("|");
        reveal_strlit("&");
        reveal_strlit("->");
        reveal_strlit("@");
    }
    if spells(bytes, start, end, ".") {
        TokenKind::Dot
    } else if spells(bytes, start, end, ":") {
        TokenKind::Colon
    } else if spells(bytes, start, end, "=") {
        TokenKind::Equals
    } else if spells(bytes, start, end, "|") {
        TokenKind::Pipe
    } else if spells(bytes, start, end, "&") {
        TokenKind::Ampersand
    } else if spells(bytes, start, end, "->") {
        TokenKind::Arrow
    } else if spells(bytes, start, end, "@") {
        TokenKind::At
    } else {
        TokenKind::Operator
    }
}

/// Every token takes at least one byte of the input, and ends within it.
pub proof fn lemma_lex_token(bytes: Seq<u8>, file: FileId, s: LexState)
    requires
        0 <= s.position < bytes.len(),
    ensures
        s.position < lex_token(bytes, file, s).position <= bytes.len(),
{
    let p = s.position;
    lemma_after(bytes, p);
    let q = after(bytes, p);
    lemma_after(bytes, q);
    lemma_after(bytes, after(bytes, q));
    lemma_skip(bytes, q, Class::NotNewline);
    lemma_skip(bytes, p, Class::Digit);
    lemma_skip(bytes, p, Class::IdentifierPart);
    lemma_skip(bytes, p, Class::OperatorPart);
    let point = skip(bytes, p, Class::Digit);
    lemma_after(bytes, point);
    lemma_skip(bytes, after(bytes, point), Class::Digit);
    let op_end = skip(bytes, p, Class::OperatorPart);
    lemma_skip(bytes, op_end, Class::IdentifierPart);
    // Character literals.
    let inner = character_or_escape(bytes, file, s.at(q));
    let beyond = after(bytes, after(bytes, q));
    lemma_after(bytes, beyond);
    lemma_skip(bytes, after(bytes, beyond), Class::HexDigit);
    let hex_end = skip(bytes, after(bytes, beyond), Class::HexDigit);
    lemma_after(bytes, hex_end);
    lemma_after(bytes, inner.position);
    // String literals.
    lemma_string_body(bytes, q, false);
    lemma_after(bytes, string_body(bytes, q, false).end);
}

/// Every token is one more token behind the tokens before it, and it reaches from where
/// it was begun to where the lexer stands after it.
pub proof fn lemma_token_emitted(bytes: Seq<u8>, file: FileId, s: LexState)
    requires
        0 <= s.position < bytes.len() <= usize::MAX,
    ensures
        lex_token(bytes, file, s).tokens.len() == s.tokens.len() + 1,
        lex_token(bytes, file, s).tokens.drop_last() == s.tokens,
        lex_token(bytes, file, s).tokens.last().range.start == s.position,
        lex_token(bytes, file, s).tokens.last().range.end == lex_token(bytes, file, s).position,
{
    lemma_lex_token(bytes, file, s);
    let next = lex_token(bytes, file, s);
    assert(next.tokens.drop_last() =~= s.tokens);
}

/// Where the token at `i` should begin, for tokens that were lexed with the lexer
/// standing at `start` before the token at `first`: behind the whitespace that follows
/// the token before it.
pub open spec fn begin_of(bytes: Seq<u8>, tokens: Seq<Token>, first: int, start: int, i: int) -> int {
    skip(
        bytes,
        if i <= first {
            start
        } else {
            tokens[i - 1].range.end as int
        },
        Class::Whitespace,
    )
}

/// Whether the tokens from the one at `first` on lie in the input one behind the other,
/// as they were lexed with the lexer standing at `start`: each token begins behind the
/// whitespace that follows the token before it, takes at least one byte and ends within
/// the input, and only whitespace follows the last one.
pub open spec fn in_order(bytes: Seq<u8>, tokens: Seq<Token>, first: int, start: int) -> bool {
    &&& forall|i: int|
        first <= i < tokens.len() ==> (#[trigger] tokens[i]).range.start == begin_of(
            bytes,
            tokens,
            first,
            start,
            i,
        ) && tokens[i].range.start < tokens[i].range.end <= bytes.len()
    &&& begin_of(bytes, tokens, first, start, tokens.len() as int) == bytes.len()
}

/// Lexing on from a state keeps the tokens of the state and puts the new ones behind
/// them in order, up to the end of the input.
pub proof fn lemma_lex_from(bytes: Seq<u8>, file: FileId, s: LexState)
    requires
        0 <= s.position <= bytes.len() <= usize::MAX,
    ensures
        lex_from(bytes, file, s).position == bytes.len(),
        s.tokens.is_prefix_of(lex_from(bytes, file, s).tokens),
        in_order(bytes, lex_from(bytes, file, s).tokens, s.tokens.len() as int, s.position),
    decreases bytes.len() - s.position,
{
    let start = skip(bytes, s.position, Class::Whitespace);
    lemma_skip(bytes, s.position, Class::Whitespace);
    let n = s.tokens.len() as int;
    if 0 <= start < bytes.len() {
        let next = lex_token(bytes, file, s.at(start));
        lemma_lex_token(bytes, file, s.at(start));
        lemma_token_emitted(bytes, file, s.at(start));
        lemma_lex_from(bytes, file, next);
        let r = lex_from(bytes, file, next);
        assert(r == lex_from(bytes, file, s));
        assert(next.tokens[n] == next.tokens.last());
        assert forall|i: int| 0 <= i < n implies s.tokens[i] == r.tokens[i] by {
            assert(next.tokens.drop_last()[i] == next.tokens[i]);
        }
        assert(r.tokens[n] == next.tokens[n]);
        assert forall|i: int| n <= i < r.tokens.len() implies (#[trigger] r.tokens[i]).range.start
            == begin_of(bytes, r.tokens, n, s.position, i) && r.tokens[i].range.start
            < r.tokens[i].range.end <= bytes.len() by {
            if i > n {
                assert(begin_of(bytes, r.tokens, n + 1, next.position, i) == begin_of(
                    bytes,
                    r.tokens,
                    n,
                    s.position,
                    i,
                ));
            }
        }
        assert(begin_of(bytes, r.tokens, n + 1, next.position, r.tokens.len() as int)
            == begin_of(bytes, r.tokens, n, s.position, r.tokens.len() as int));
    }
}

/// The tokens of an input lie in it one behind the other, in the order of the tokens,
/// with nothing but whitespace before, between and behind them.
pub proof fn lemma_tokens_in_order(bytes: Seq<u8>, file: FileId)
    requires
        bytes.len() <= usize::MAX,
    ensures
        lexed(bytes, file).position == bytes.len(),
        in_order(bytes, lexed(bytes, file).tokens, 0, 0),
{
    lemma_lex_from(
        bytes,
        file,
        LexState { position: 0, tokens: Seq::empty(), diagnostics: Seq::empty() },
    );
}

/// The body of a string literal ends within the input, not before it starts.
pub proof fn lemma_string_body(bytes: Seq<u8>, position: int, multiline: bool)
    requires
        0 <= position <= bytes.len(),
    ensures
        position <= string_body(bytes, position, multiline).end <= bytes.len(),
    decreases bytes.len() - position,
{
    lemma_after(bytes, position);
    if current_at(bytes, position) != Some('"' as u8) {
        let next = after(bytes, position);
        if current_at(bytes, next) is Some {
            lemma_string_body(
                bytes,
                next,
                multiline || current_at(bytes, next) == Some('\n' as u8),
            );
        }
    }
}

} // verus!
