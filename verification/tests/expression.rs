use std::fmt::{self, Debug};

use rokugo::ast::Tree;
use rokugo::diagnostic::Diagnostic;
use rokugo::lexis::lex;
use rokugo::parser::expression::expression;
use rokugo::parser::{Parser, TokenSkipList};
use rokugo::source_code::{File, Sources};

struct ParseFailed {
    diagnostics: Vec<Diagnostic>,
}

impl Debug for ParseFailed {
    fn fmt(&self, f: &mut fmt::Formatter<'_>) -> fmt::Result {
        for diagnostic in &self.diagnostics {
            f.write_str(&diagnostic.message)?;
            f.write_str("\n")?;
        }
        Ok(())
    }
}

fn parse(production: fn(&mut Parser), filename: &str, source: &str) -> Result<Tree, ParseFailed> {
    let mut sources = Sources::default();
    let file_id = sources.add(File {
        filename: filename.to_owned(),
        source: source.to_owned(),
    });

    let (tokens, diagnostics) = lex(&sources, file_id);
    if !diagnostics.is_empty() {
        return Err(ParseFailed { diagnostics });
    }

    let mut parser = Parser::new(&sources, file_id, TokenSkipList::new(tokens));
    production(&mut parser);
    if !parser.diagnostics.is_empty() {
        Err(ParseFailed {
            diagnostics: parser.diagnostics,
        })
    } else {
        Ok(parser.into_tree().expect("the events should make a tree"))
    }
}

fn expect_tree(
    production: fn(&mut Parser),
    filename: &str,
    source: &str,
    tree: &str,
) -> Result<(), ParseFailed> {
    let parsed = parse(production, filename, source)?.test_repr();
    let expected = tree;
    assert!(
        parsed == expected,
        "parsed tree did not meet expectations in {filename}\n\nparsed: {parsed}\n\nexpected: {expected}"
    );
    Ok(())
}

fn expect_error(production: fn(&mut Parser), filename: &str, source: &str) {
    if let Ok(tree) = parse(production, filename, source) {
        panic!("error expected, but got a valid tree: {}", tree.test_repr())
    }
}

#[test]
fn two_plus_two() -> Result<(), ParseFailed> {
    expect_tree(
        expression,
        "two_plus_two#1",
        "2 + 2",
        "Binary {\n    Literal {\n        Integer @ 0..1\n    }\n    Operator @ 2..3\n    Literal {\n        Integer @ 4..5\n    }\n}",
    )?;
    expect_tree(
        expression,
        "two_plus_two#2",
        "2 + 2 + 2",
        "Binary {\n    Binary {\n        Literal {\n            Integer @ 0..1\n        }\n        Operator @ 2..3\n        Literal {\n            Integer @ 4..5\n        }\n    }\n    Operator @ 6..7\n    Literal {\n        Integer @ 8..9\n    }\n}",
    )?;
    Ok(())
}

#[test]
fn chain() -> Result<(), ParseFailed> {
    expect_tree(
        expression,
        "chain#1",
        "2 + 2 + 2",
        "Binary {\n    Binary {\n        Literal {\n            Integer @ 0..1\n        }\n        Operator @ 2..3\n        Literal {\n            Integer @ 4..5\n        }\n    }\n    Operator @ 6..7\n    Literal {\n        Integer @ 8..9\n    }\n}",
    )?;
    Ok(())
}

#[test]
fn math_precedence() -> Result<(), ParseFailed> {
    expect_tree(
        expression,
        "math_precedence#1",
        "2 * 2 + 2",
        "Binary {\n    Binary {\n        Literal {\n            Integer @ 0..1\n        }\n        Operator @ 2..3\n        Literal {\n            Integer @ 4..5\n        }\n    }\n    Operator @ 6..7\n    Literal {\n        Integer @ 8..9\n    }\n}",
    )?;
    expect_tree(
        expression,
        "math_precedence#2",
        "2 + 2 * 2",
        "Binary {\n    Literal {\n        Integer @ 0..1\n    }\n    Operator @ 2..3\n    Binary {\n        Literal {\n            Integer @ 4..5\n        }\n        Operator @ 6..7\n        Literal {\n            Integer @ 8..9\n        }\n    }\n}",
    )?;
    expect_tree(
        expression,
        "math_precedence#3 transitive property of precedence",
        "2 * 2 >= 4",
        "Binary {\n    Binary {\n        Literal {\n            Integer @ 0..1\n        }\n        Operator @ 2..3\n        Literal {\n            Integer @ 4..5\n        }\n    }\n    Operator @ 6..8\n    Literal {\n        Integer @ 9..10\n    }\n}",
    )?;
    Ok(())
}

#[test]
fn ambiguous_precedence() -> Result<(), ParseFailed> {
    expect_error(expression, "ambiguous_precedence#1", "1 and 2 or 3");
    expect_error(expression, "ambiguous_precedence#2", "1 == 0 +- 0.0001");
    expect_error(expression, "ambiguous_precedence#3", "1 |> 2 >>= 3");
    Ok(())
}

#[test]
fn magic_precedence() -> Result<(), ParseFailed> {
    expect_tree(
        expression,
        "magic_precedence#1 dot",
        "a.b |> b.c",
        "Binary {\n    Binary {\n        Identifier {\n            Identifier @ 0..1\n        }\n        Dot @ 1..2\n        Identifier {\n            Identifier @ 2..3\n        }\n    }\n    Operator @ 4..6\n    Binary {\n        Identifier {\n            Identifier @ 7..8\n        }\n        Dot @ 8..9\n        Identifier {\n            Identifier @ 9..10\n        }\n    }\n}",
    )?;
    expect_tree(
        expression,
        "magic_precedence#2 equals",
        "a = b + 1234",
        "Binary {\n    Identifier {\n        Identifier @ 0..1\n    }\n    Equals @ 2..3\n    Binary {\n        Identifier {\n            Identifier @ 4..5\n        }\n        Operator @ 6..7\n        Literal {\n            Integer @ 8..12\n        }\n    }\n}",
    )?;
    expect_tree(
        expression,
        "magic_precedence#3 colon",
        "(a + 1) : Nat32",
        "Binary {\n    Paren {\n        LParen @ 0..1\n        Binary {\n            Identifier {\n                Identifier @ 1..2\n            }\n            Operator @ 3..4\n            Literal {\n                Integer @ 5..6\n            }\n        }\n        RParen @ 6..7\n    }\n    Colon @ 8..9\n    Identifier {\n        Identifier @ 10..15\n    }\n}",
    )?;
    expect_error(expression, "magic_precedence#4 colon", "a + 1 : Nat32");
    expect_tree(
        expression,
        "magic_precedence#5 pipe",
        ":a | :b | :c",
        "Binary {\n    Binary {\n        Literal {\n            Tag @ 0..2\n        }\n        Pipe @ 3..4\n        Literal {\n            Tag @ 5..7\n        }\n    }\n    Pipe @ 8..9\n    Literal {\n        Tag @ 10..12\n    }\n}",
    )?;
    expect_error(expression, "magic_precedence#6 pipe", "a + 1 | b + 2");
    expect_tree(
        expression,
        "magic_precedence#7 ampersand",
        "A & B & C",
        "Binary {\n    Binary {\n        Identifier {\n            Identifier @ 0..1\n        }\n        Ampersand @ 2..3\n        Identifier {\n            Identifier @ 4..5\n        }\n    }\n    Ampersand @ 6..7\n    Identifier {\n        Identifier @ 8..9\n    }\n}",
    )?;
    expect_error(expression, "magic_precedence#8 ampersand", "A | B & C");
    expect_tree(
        expression,
        "magic_precedence#9 arrow",
        "Nat -> Int",
        "Binary {\n    Identifier {\n        Identifier @ 0..3\n    }\n    Arrow @ 4..6\n    Identifier {\n        Identifier @ 7..10\n    }\n}",
    )?;
    expect_tree(
        expression,
        "magic_precedence#10 arrow",
        "a : Nat -> Int",
        "Binary {\n    Identifier {\n        Identifier @ 0..1\n    }\n    Colon @ 2..3\n    Binary {\n        Identifier {\n            Identifier @ 4..7\n        }\n        Arrow @ 8..10\n        Identifier {\n            Identifier @ 11..14\n        }\n    }\n}",
    )?;
    expect_tree(
        expression,
        "magic_precedence#11 arrow",
        "Nat -> Nat -> Nat",
        "Binary {\n    Identifier {\n        Identifier @ 0..3\n    }\n    Arrow @ 4..6\n    Binary {\n        Identifier {\n            Identifier @ 7..10\n        }\n        Arrow @ 11..13\n        Identifier {\n            Identifier @ 14..17\n        }\n    }\n}",
    )?;
    Ok(())
}

#[test]
fn paren() -> Result<(), ParseFailed> {
    expect_tree(
        expression,
        "paren#1",
        "(2 + 2) * 2",
        "Binary {\n    Paren {\n        LParen @ 0..1\n        Binary {\n            Literal {\n                Integer @ 1..2\n            }\n            Operator @ 3..4\n            Literal {\n                Integer @ 5..6\n            }\n        }\n        RParen @ 6..7\n    }\n    Operator @ 8..9\n    Literal {\n        Integer @ 10..11\n    }\n}",
    )?;
    expect_error(expression, "missing_paren", "(2 + 2 * 2");
    Ok(())
}

#[test]
fn apply() -> Result<(), ParseFailed> {
    expect_tree(
        expression,
        "apply#1",
        "f 1 2 3",
        "Apply {\n    Identifier {\n        Identifier @ 0..1\n    }\n    Literal {\n        Integer @ 2..3\n    }\n    Literal {\n        Integer @ 4..5\n    }\n    Literal {\n        Integer @ 6..7\n    }\n}",
    )?;
    expect_tree(
        expression,
        "apply#2",
        "f a.x",
        "Apply {\n    Identifier {\n        Identifier @ 0..1\n    }\n    Binary {\n        Identifier {\n            Identifier @ 2..3\n        }\n        Dot @ 3..4\n        Identifier {\n            Identifier @ 4..5\n        }\n    }\n}",
    )?;
    expect_tree(
        expression,
        "apply#3",
        "(f x) y",
        "Apply {\n    Paren {\n        LParen @ 0..1\n        Apply {\n            Identifier {\n                Identifier @ 1..2\n            }\n            Identifier {\n                Identifier @ 3..4\n            }\n        }\n        RParen @ 4..5\n    }\n    Identifier {\n        Identifier @ 6..7\n    }\n}",
    )?;
    expect_tree(
        expression,
        "apply#4",
        "f (x y)",
        "Apply {\n    Identifier {\n        Identifier @ 0..1\n    }\n    Paren {\n        LParen @ 2..3\n        Apply {\n            Identifier {\n                Identifier @ 3..4\n            }\n            Identifier {\n                Identifier @ 5..6\n            }\n        }\n        RParen @ 6..7\n    }\n}",
    )?;
    expect_tree(
        expression,
        "apply#5",
        "String.cat \"a\" \"b\"",
        "Apply {\n    Binary {\n        Identifier {\n            Identifier @ 0..6\n        }\n        Dot @ 6..7\n        Identifier {\n            Identifier @ 7..10\n        }\n    }\n    Literal {\n        String @ 11..14\n    }\n    Literal {\n        String @ 15..18\n    }\n}",
    )?;
    expect_tree(
        expression,
        "apply#6",
        "-1",
        "Apply {\n    Identifier {\n        Operator @ 0..1\n    }\n    Literal {\n        Integer @ 1..2\n    }\n}",
    )?;
    expect_tree(
        expression,
        "apply#7",
        "f x * f y",
        "Binary {\n    Apply {\n        Identifier {\n            Identifier @ 0..1\n        }\n        Identifier {\n            Identifier @ 2..3\n        }\n    }\n    Operator @ 4..5\n    Apply {\n        Identifier {\n            Identifier @ 6..7\n        }\n        Identifier {\n            Identifier @ 8..9\n        }\n    }\n}",
    )?;
    Ok(())
}

#[test]
fn input_that_ends_early_is_an_error() {
    expect_error(expression, "empty", "");
    expect_error(expression, "dangling operator", "2 +");
    expect_error(expression, "dangling paren", "(");
}

#[test]
fn ambiguous_precedence_is_reported_with_both_operators() {
    let failed = parse(expression, "ambiguous", "1 and 2 or 3").err().unwrap();
    assert_eq!(failed.diagnostics.len(), 1);
    let diagnostic = &failed.diagnostics[0];
    assert_eq!(
        diagnostic.message,
        "operator precedence between `and` and `or` is ambiguous"
    );
    assert_eq!(diagnostic.labels.len(), 2);
    assert_eq!(diagnostic.labels[0].source_span.span, 2..5);
    assert_eq!(diagnostic.labels[1].source_span.span, 8..10);
    assert_eq!(diagnostic.children.len(), 1);
}

#[test]
fn trailing_tokens_make_no_tree() {
    let mut sources = Sources::default();
    let file_id = sources.add(File {
        filename: "trailing".to_owned(),
        source: "2 )".to_owned(),
    });
    let (tokens, _) = lex(&sources, file_id);
    let mut parser = Parser::new(&sources, file_id, TokenSkipList::new(tokens));
    expression(&mut parser);
    assert!(parser.into_tree().is_none());
}

#[test]
fn trivia_ends_up_in_the_tree() {
    let mut sources = Sources::default();
    let file_id = sources.add(File {
        filename: "trivia".to_owned(),
        source: "# one\n2 +\n2 # two".to_owned(),
    });
    let (tokens, _) = lex(&sources, file_id);
    let mut parser = Parser::new(&sources, file_id, TokenSkipList::new(tokens));
    expression(&mut parser);
    assert!(parser.diagnostics.is_empty());
    let tree = parser.into_tree().unwrap();
    assert_eq!(
        tree.test_repr(),
        "Binary {\n    Literal {\n        Integer @ 6..7\n        Comment @ 0..5\n        Newline @ 5..6\n    }\n    Operator @ 8..9\n    Literal {\n        Integer @ 10..11\n        Newline @ 9..10\n        Comment @ 12..17\n    }\n}"
    );
}

#[test]
fn application_goes_on_over_line_breaks_only() -> Result<(), ParseFailed> {
    expect_tree(
        expression,
        "application#1 line break",
        "f\n1",
        "Apply {\n    Identifier {\n        Identifier @ 0..1\n    }\n    Literal {\n        Integer @ 2..3\n        Newline @ 1..2\n    }\n}",
    )?;
    expect_error(expression, "application#2 comment", "f # g\n1");
    expect_error(expression, "application#3 operator", "f + ");
    Ok(())
}
