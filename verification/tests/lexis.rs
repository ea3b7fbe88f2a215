use rokugo::diagnostic::{note, Diagnostic, Importance, NoteKind, Severity};
use rokugo::lexis::token::{Token, TokenKind};
use rokugo::lexis::token_set::TokenSet;
use rokugo::source_code::{File, FileId, Sources};

fn lex(filename: &str, source: &str) -> (Sources, FileId, Vec<Token>, Vec<Diagnostic>) {
    let mut sources = Sources::default();
    let file_id = sources.add(File {
        filename: filename.into(),
        source: source.into(),
    });
    let (tokens, diagnostics) = rokugo::lexis::lex(&sources, file_id);
    (sources, file_id, tokens, diagnostics)
}

// Nice tests are those that are 100% good for the compiler and do not emit any diagnostics.
fn nice(filename: &str, source: &str) -> Vec<Token> {
    let (_sources, _file_id, tokens, diagnostics) = lex(filename, source);
    if !diagnostics.is_empty() {
        panic!("test failure, diagnostics were emitted:\n{diagnostics:?}");
    }
    tokens
}

// Naughty tests may emit any sort of diagnostic in the process.
fn naughty(
    filename: &str,
    source: &str,
    expected_tokens: &[Token],
    expected_diagnostics: impl FnOnce(FileId) -> Vec<Diagnostic>,
) {
    let (_sources, file_id, tokens, diagnostics) = lex(filename, source);
    assert_eq!(tokens, expected_tokens);
    assert_eq!(diagnostics, expected_diagnostics(file_id));
}

#[test]
fn single_char_tokens() {
    assert_eq!(
        nice("single_char_tokens", "()[]{},;"),
        &[
            TokenKind::LParen.at(0..1),
            TokenKind::RParen.at(1..2),
            TokenKind::LBracket.at(2..3),
            TokenKind::RBracket.at(3..4),
            TokenKind::LBrace.at(4..5),
            TokenKind::RBrace.at(5..6),
            TokenKind::Comma.at(6..7),
            TokenKind::Semicolon.at(7..8),
        ]
    );
}

#[test]
fn invalid_characters() {
    naughty(
        "invalid_characters",
        "`",
        &[TokenKind::Error.at(0..1)],
        |file_id| {
            vec![Severity::Error.diagnostic("unexpected ```").with_label(
                Importance::Primary.label(
                    file_id.span(0..1),
                    "this character is not valid in Rokugo source code",
                ),
            )]
        },
    );
}

#[test]
fn whitespace() {
    assert_eq!(nice("just whitespace", "    \t    \r"), &[]);
    assert_eq!(
        nice("newline", "    \n    \n"),
        &[TokenKind::Newline.at(4..5), TokenKind::Newline.at(9..10)]
    );
}

#[test]
fn comment() {
    assert_eq!(nice("comment", "# abc"), &[TokenKind::Comment.at(0..5)]);
    assert_eq!(
        nice("comment followed by newline", "# abc\n"),
        &[TokenKind::Comment.at(0..5), TokenKind::Newline.at(5..6)]
    );
}

#[test]
fn integer() {
    assert_eq!(nice("integer 1", "1"), &[TokenKind::Integer.at(0..1)]);
    assert_eq!(nice("integer 2", "123"), &[TokenKind::Integer.at(0..3)]);
}

#[test]
fn decimal() {
    assert_eq!(nice("decimal 1", "1.0"), &[TokenKind::Decimal.at(0..3)]);
    assert_eq!(nice("decimal 2", "123.456"), &[TokenKind::Decimal.at(0..7)]);
}

#[test]
fn character() {
    assert_eq!(nice("character", "'a'"), &[TokenKind::Character.at(0..3)]);
    assert_eq!(
        nice("UTF-8 character", "'ł'"),
        &[TokenKind::Character.at(0..4)]
    );
}

#[test]
fn escapes() {
    assert_eq!(
        nice("escapes 1", "'\\\\'"),
        &[TokenKind::Character.at(0..4)]
    );
    assert_eq!(nice("escapes 2", "'\\''"), &[TokenKind::Character.at(0..4)]);
    assert_eq!(
        nice("escapes 3", "'\\\"'"),
        &[TokenKind::Character.at(0..4)]
    );
    assert_eq!(nice("escapes 4", "'\\n'"), &[TokenKind::Character.at(0..4)]);
    assert_eq!(nice("escapes 5", "'\\r'"), &[TokenKind::Character.at(0..4)]);
    assert_eq!(nice("escapes 6", "'\\t'"), &[TokenKind::Character.at(0..4)]);
    assert_eq!(
        nice("escapes 7", "'\\u{0A}'"),
        &[TokenKind::Character.at(0..8)]
    );
}

#[test]
fn string() {
    assert_eq!(
        nice("string", r#" "hello" "#),
        &[TokenKind::String.at(1..8)]
    );
    assert_eq!(
        nice("string escapes", r#" "hello\nworld" "#),
        &[TokenKind::String.at(1..15)]
    );
}

#[test]
fn identifier() {
    assert_eq!(
        nice("identifier lowercase", "lowercase"),
        &[TokenKind::Identifier.at(0..9)]
    );
    assert_eq!(
        nice("identifier camelCase", "camelCase"),
        &[TokenKind::Identifier.at(0..9)]
    );
    assert_eq!(
        nice("identifier snake_case", "snake_case"),
        &[TokenKind::Identifier.at(0..10)]
    );
    assert_eq!(
        nice("identifier PascalCase", "PascalCase"),
        &[TokenKind::Identifier.at(0..10)]
    );
    assert_eq!(
        nice("identifier digits", "a1234"),
        &[TokenKind::Identifier.at(0..5)]
    );
}

#[test]
fn operator() {
    assert_eq!(
        nice("arithmetic operators", "+ - * /"),
        &[
            TokenKind::Operator.at(0..1),
            TokenKind::Operator.at(2..3),
            TokenKind::Operator.at(4..5),
            TokenKind::Operator.at(6..7),
        ]
    );
    assert_eq!(
        nice("operator with all allowed characters", "+-*/%<=>!?^&|~$.:@"),
        &[TokenKind::Operator.at(0..18)]
    );
    assert_eq!(
        nice(
            "crazy operator",
            "++++++++++++++++++++++++!!!!!!!!!!!!!!!!!!!!!??????????????????"
        ),
        &[TokenKind::Operator.at(0..63)]
    );
}

#[test]
fn reserved_operators() {
    assert_eq!(
        nice("reserved operators", ". : = | & @"),
        &[
            TokenKind::Dot.at(0..1),
            TokenKind::Colon.at(2..3),
            TokenKind::Equals.at(4..5),
            TokenKind::Pipe.at(6..7),
            TokenKind::Ampersand.at(8..9),
            TokenKind::At.at(10..11),
        ]
    );
}

#[test]
fn tags() {
    assert_eq!(nice("tags", ":hug"), &[TokenKind::Tag.at(0..4)]);
}

#[test]
fn keywords() {
    let keywords = "_ and break default do effect else fun handle if interface internal is let match module mut or set then use var while with";
    assert_eq!(
        nice("keywords", keywords),
        &[
            TokenKind::Underscore.at(0..1),
            TokenKind::And.at(2..5),
            TokenKind::Break.at(6..11),
            TokenKind::Default.at(12..19),
            TokenKind::Do.at(20..22),
            TokenKind::Effect.at(23..29),
            TokenKind::Else.at(30..34),
            TokenKind::Fun.at(35..38),
            TokenKind::Handle.at(39..45),
            TokenKind::If.at(46..48),
            TokenKind::Interface.at(49..58),
            TokenKind::Internal.at(59..67),
            TokenKind::Is.at(68..70),
            TokenKind::Let.at(71..74),
            TokenKind::Match.at(75..80),
            TokenKind::Module.at(81..87),
            TokenKind::Mut.at(88..91),
            TokenKind::Or.at(92..94),
            TokenKind::SetKeyword.at(95..98),
            TokenKind::Then.at(99..103),
            TokenKind::Use.at(104..107),
            TokenKind::Var.at(108..111),
            TokenKind::While.at(112..117),
            TokenKind::With.at(118..122)
        ]
    );
}

fn error(file_id: FileId, message: &str, span: std::ops::Range<usize>, label: &str) -> Diagnostic {
    Severity::Error
        .diagnostic(message)
        .with_label(Importance::Primary.label(file_id.span(span), label))
}

#[test]
fn arrow_and_mixed_operators() {
    assert_eq!(
        nice("arrow", "a -> b ->> c"),
        &[
            TokenKind::Identifier.at(0..1),
            TokenKind::Arrow.at(2..4),
            TokenKind::Identifier.at(5..6),
            TokenKind::Operator.at(7..10),
            TokenKind::Identifier.at(11..12),
        ]
    );
}

#[test]
fn decimal_point_without_digits() {
    naughty("decimal point", "1. x", &[TokenKind::Decimal.at(0..2), TokenKind::Identifier.at(3..4)], |file| {
        vec![error(
            file,
            "decimal point `.` must be followed by at least one digit",
            1..2,
            "",
        )]
    });
}

#[test]
fn unicode_escape_errors() {
    naughty("missing brace", "'\\u0A'", &[TokenKind::Error.at(0..3), TokenKind::Integer.at(3..4), TokenKind::Identifier.at(4..5), TokenKind::Error.at(5..6)], |file| {
        vec![
            error(
                file,
                "`{` expected after `\\u` Unicode code point escape sequence",
                2..2,
                "`{` expected after this",
            )
            .with_note(note(NoteKind::Note, "Unicode code point escape sequences take the form `\\u{xx}`, where xx is a sequence of hexadecimal digits specifying the code point")),
            error(file, "missing `'` after character literal", 0..3, "missing `'` after this"),
            error(file, "missing `'` after character literal", 5..6, "missing `'` after this"),
        ]
    });
    naughty("unclosed escape", "'\\u{0A'", &[TokenKind::Character.at(0..7)], |file| {
        vec![error(
            file,
            "`}` expected to close `\\u` Unicode code point escape sequence",
            4..6,
            "`}` expected after this",
        )]
    });
}

#[test]
fn string_literal_errors() {
    naughty("unclosed", "\"abc", &[TokenKind::String.at(0..4)], |file| {
        vec![error(
            file,
            "missing `\"` to close string literal",
            0..1,
            "missing `\"` to close this literal",
        )]
    });
    naughty("multiline", "\"a\nb\" x", &[TokenKind::String.at(0..5), TokenKind::Identifier.at(6..7)], |file| {
        vec![error(
            file,
            "string literals may not span multiple lines",
            0..5,
            "this literal spans multiple lines",
        )]
    });
}

#[test]
fn tag_starting_with_digit() {
    naughty("tag", ":1up", &[TokenKind::Tag.at(0..4)], |file| {
        vec![error(file, "tag name cannot start with a number", 1..2, "")
            .with_note(note(NoteKind::Note, "tag names must be valid identifiers.\nidentifiers cannot start with digits because they could be confused with numbers"))]
    });
}

#[test]
fn unexpected_wide_character() {
    naughty("wide", "a ł b", &[TokenKind::Identifier.at(0..1), TokenKind::Error.at(2..4), TokenKind::Identifier.at(5..6)], |file| {
        vec![error(
            file,
            "unexpected `ł`",
            2..4,
            "this character is not valid in Rokugo source code",
        )]
    });
}

#[test]
fn token_set() {
    let empty = TokenSet::empty();
    assert!(!empty.includes(TokenKind::Error));
    assert!(!empty.includes(TokenKind::Arrow));
    let set = TokenSet::of(&[TokenKind::Integer, TokenKind::Arrow, TokenKind::Error, TokenKind::Integer]);
    assert!(set.includes(TokenKind::Integer));
    assert!(set.includes(TokenKind::Arrow));
    assert!(set.includes(TokenKind::Error));
    assert!(!set.includes(TokenKind::Decimal));
    assert!(!set.includes(TokenKind::At));
    assert_eq!(TokenSet::of(&[]), empty);
    assert_eq!(TokenKind::Arrow.index(), 49);
}
