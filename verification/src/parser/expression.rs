//! Parsing expressions by precedence.

use crate::ast::TreeKind;
use crate::diagnostic::Diagnostic;
use crate::diagnostic::Importance;
use crate::diagnostic::Severity;
use crate::lexis::token::Token;
use crate::lexis::token::TokenKind;
use crate::lexis::token_set::TokenSet;
use crate::parser::precedence::category_of;
use crate::parser::precedence::decide;
use crate::parser::precedence::relation;
use crate::parser::precedence::reserved_category;
use crate::parser::precedence::tighter_of;
use crate::parser::precedence::Associativity;
use crate::parser::precedence::Category;
use crate::parser::precedence::Precedence;
use crate::parser::precedence::PrecedenceView;
use crate::parser::precedence::Tighter;
use crate::parser::forest;
use crate::parser::lemma_close_tree;
use crate::parser::lemma_forest_advance;
use crate::parser::lemma_forest_behind;
use crate::parser::lemma_forest_kept;
use crate::parser::lemma_open_before;
use crate::parser::lemma_tree_is_forest;
use crate::parser::one_tree;
use crate::parser::Closed;
use crate::parser::Parser;
use crate::text::push_str;
use crate::text::same;
use vstd::prelude::*;

verus! {

/// Whether an expression can start with a token of `kind`.
pub open spec fn is_prefix(kind: TokenKind) -> bool {
    ||| kind == TokenKind::Integer
    ||| kind == TokenKind::Decimal
    ||| kind == TokenKind::Character
    ||| kind == TokenKind::String
    ||| kind == TokenKind::Tag
    ||| kind == TokenKind::Identifier
    ||| kind == TokenKind::Operator
    ||| kind == TokenKind::LParen
}

/// The kinds of token that an expression can start with.
pub fn prefixes() -> (set: TokenSet)
    ensures
        forall|kind: TokenKind| set.has(kind) <==> is_prefix(kind),
{
    let kinds = [
        TokenKind::Integer,
        TokenKind::Decimal,
        TokenKind::Character,
        TokenKind::String,
        TokenKind::Tag,
        TokenKind::Identifier,
        TokenKind::Operator,
        TokenKind::LParen,
    ];
    let set = TokenSet::of(kinds.as_slice());
    assert forall|kind: TokenKind| set.has(kind) <==> is_prefix(kind) by {
        assert(kinds@[0] == TokenKind::Integer);
        assert(kinds@[1] == TokenKind::Decimal);
        assert(kinds@[2] == TokenKind::Character);
        assert(kinds@[3] == TokenKind::String);
        assert(kinds@[4] == TokenKind::Tag);
        assert(kinds@[5] == TokenKind::Identifier);
        assert(kinds@[6] == TokenKind::Operator);
        assert(kinds@[7] == TokenKind::LParen);
    }
    set
}

/// The precedence of a token of `kind` spelled `text`, if such a token can stand
/// between two expressions.
pub open spec fn precedence_of(kind: TokenKind, text: Seq<char>) -> Option<PrecedenceView> {
    match reserved_category(kind) {
        Some(category) => Some(PrecedenceView::Category(category)),
        None => if kind == TokenKind::Operator {
            if text == "*"@ || text == "/"@ {
                Some(PrecedenceView::Category(Category::Multiplication))
            } else if text == "+"@ || text == "-"@ {
                Some(PrecedenceView::Category(Category::Summation))
            } else if text == "=="@ || text == "!="@ || text == "<"@ || text == ">"@ || text
                == "<="@ || text == ">="@ {
                Some(PrecedenceView::Category(Category::Relation))
            } else {
                Some(PrecedenceView::Custom(text))
            }
        } else if is_prefix(kind) {
            Some(PrecedenceView::Category(Category::Apply))
        } else {
            None
        },
    }
}

/// The associativity of the operator spelled `text`.
pub open spec fn associativity_of(text: Seq<char>) -> Associativity {
    if text == "->"@ {
        Associativity::Right
    } else {
        Associativity::Left
    }
}

/// Which of two tokens binds tighter, if the right one can stand between two
/// expressions. A left one that cannot is the end of the file, and the right one binds
/// tighter.
pub open spec fn tighter_tokens(
    left: TokenKind,
    left_text: Seq<char>,
    right: TokenKind,
    right_text: Seq<char>,
) -> Option<Tighter> {
    match precedence_of(right, right_text) {
        None => None,
        Some(right_precedence) => match precedence_of(left, left_text) {
            None => Some(Tighter::Right),
            Some(left_precedence) => Some(
                tighter_of(
                    relation(left_precedence, right_precedence),
                    associativity_of(right_text),
                ),
            ),
        },
    }
}

fn precedence<'a>(p: &'a Parser, token: &Token) -> (found: Option<Precedence<'a>>)
    requires
        p.wf(),
    ensures
        match found {
            Some(precedence) => precedence_of(token.kind, p.text_of(*token)) == Some(
                precedence@,
            ),
            None => precedence_of(token.kind, p.text_of(*token)) is None,
        },
{
    let text = p.text(token);
    match category_of(token.kind) {
        Some(category) => Some(Precedence::Category(category)),
        None => {
            if token.kind == TokenKind::Operator {
                if same(text, "*") || same(text, "/") {
                    Some(Precedence::Category(Category::Multiplication))
                } else if same(text, "+") || same(text, "-") {
                    Some(Precedence::Category(Category::Summation))
                } else if same(text, "==") || same(text, "!=") || same(text, "<") || same(
                    text,
                    ">",
                ) || same(text, "<=") || same(text, ">=") {
                    Some(Precedence::Category(Category::Relation))
                } else {
                    Some(Precedence::Custom(text))
                }
            } else if prefixes().includes(token.kind) {
                // NOTE: Order matters. The prefixes also include Operator to handle
                // negation; operators are dealt with above.
                Some(Precedence::Category(Category::Apply))
            } else {
                None
            }
        },
    }
}

impl Associativity {
    /// The associativity of the operator spelled `operator`.
    pub fn of(operator: &str) -> (associativity: Associativity)
        ensures
            associativity == associativity_of(operator@),
    {
        if same(operator, "->") {
            Associativity::Right
        } else {
            Associativity::Left
        }
    }
}

/// Which of two tokens binds tighter: the one to the left of an expression, or the one to
/// its right. `None` where the token to the right cannot stand between two expressions.
pub fn tighter(p: &Parser, left: &Token, right: &Token) -> (r: Option<Tighter>)
    requires
        p.wf(),
        precedence_of(left.kind, p.text_of(*left)) is Some || left.kind == TokenKind::EndOfFile,
    ensures
        r == tighter_tokens(left.kind, p.text_of(*left), right.kind, p.text_of(*right)),
{
    let right_precedence = match precedence(p, right) {
        Some(precedence) => precedence,
        None => {
            return None;
        },
    };
    let left_precedence = match precedence(p, left) {
        Some(precedence) => precedence,
        None => {
            return Some(Tighter::Right);
        },
    };
    Some(decide(left_precedence.partial_cmp(&right_precedence), Associativity::of(p.text(right))))
}

/// Whether a token of `kind` is parsed as a binary operator.
pub open spec fn is_binary(kind: TokenKind) -> bool {
    reserved_category(kind) is Some || kind == TokenKind::Operator
}

/// The diagnostic for two operators whose precedence is ambiguous.
fn ambiguous(p: &Parser, left: &Token, right: &Token) -> (diagnostic: Diagnostic)
    requires
        p.wf(),
    ensures
        diagnostic.severity == Severity::Error,
        diagnostic.message@ == "operator precedence between `"@ + p.text_of(*left) + "` and `"@
            + p.text_of(*right) + "` is ambiguous"@,
        diagnostic.labels@.len() == 2,
        diagnostic.children@.len() == 1,
{
    let mut message = "operator precedence between `".to_owned();
    push_str(&mut message, p.text(left));
    push_str(&mut message, "` and `");
    push_str(&mut message, p.text(right));
    push_str(&mut message, "` is ambiguous");
    Severity::Error.diagnostic(message.as_str()).with_label(
        Importance::Primary.label(p.span(&left.range), ""),
    ).with_label(Importance::Primary.label(p.span(&right.range), "")).with_child(
        Severity::Help.diagnostic(
            "try adding parentheses around one of these operators' expressions to disambiguate",
        ),
    )
}

/// Whether the parser has written down one whole tree since `before`, behind what was
/// written down before.
pub open spec fn wrote_tree(p: &Parser, before: &Parser) -> bool {
    &&& p.follows(before)
    &&& one_tree(p@.events, before@.events.len() as int, p@.events.len() as int)
}

/// Whether the parser has written down whole trees and tokens since `before`, behind
/// what was written down before.
pub open spec fn wrote_forest(p: &Parser, before: &Parser) -> bool {
    &&& p.follows(before)
    &&& forest(p@.events, before@.events.len() as int, p@.events.len() as int)
}

fn precedence_parse(p: &mut Parser, left: &Token)
    requires
        old(p).wf(),
        precedence_of(left.kind, old(p).text_of(*left)) is Some || left.kind
            == TokenKind::EndOfFile,
    ensures
        final(p).wf(),
        wrote_tree(final(p), old(p)),
        old(p).remaining() > 0 ==> final(p).remaining() < old(p).remaining(),
    decreases old(p).remaining(), 3nat,
{
    let ghost start = p@.events.len() as int;
    let mut lhs = prefix(p);
    loop
        invariant
            p.wf(),
            start == old(p)@.events.len(),
            wrote_tree(p, old(p)),
            old(p).remaining() > 0 ==> p.remaining() < old(p).remaining(),
            lhs.index() == start,
            precedence_of(left.kind, p.text_of(*left)) is Some || left.kind
                == TokenKind::EndOfFile,
        decreases p.remaining(),
    {
        let right = p.peek();
        match tighter(p, left, &right) {
            Some(Tighter::Left) | None => {
                break ;
            },
            Some(tighter) => {
                let ghost before = p@.events;
                let o = p.open_before(lhs);
                let ghost opened = p@.events;
                proof {
                    lemma_open_before(before, start);
                }
                let kind = infix(p, &right);
                proof {
                    let grown = p@.events;
                    lemma_forest_kept(opened, grown, start + 1, opened.len() as int);
                    lemma_forest_behind(grown, start + 1, opened.len() as int, grown.len() as int);
                    assert(grown[start] == opened[start]);
                    lemma_close_tree(grown, start, kind);
                    assert forall|i: int| 0 <= i < start implies grown[i] == old(p)@.events[i] by {
                        assert(grown[i] == opened[i]);
                        assert(opened[i] == before[i]);
                    }
                }
                lhs = p.close(o, kind);
                if matches!(tighter, Tighter::Ambiguous) {
                    let diagnostic = ambiguous(p, left, &right);
                    p.emit(diagnostic);
                }
            },
        }
    }
}

fn prefix(p: &mut Parser) -> (closed: Closed)
    requires
        old(p).wf(),
    ensures
        final(p).wf(),
        wrote_tree(final(p), old(p)),
        old(p).remaining() > 0 ==> final(p).remaining() < old(p).remaining(),
        closed.index() == old(p)@.events.len(),
    decreases old(p).remaining(), 2nat,
{
    let token = p.peek();
    match token.kind {
        TokenKind::Integer
        | TokenKind::Decimal
        | TokenKind::Character
        | TokenKind::String
        | TokenKind::Tag => prefix_literal(p),
        TokenKind::Identifier | TokenKind::Operator => prefix_identifier(p),
        TokenKind::LParen => prefix_paren(p, &token),
        other => {
            // NOTE: Error tokens are emitted when the lexer cannot deal with the input,
            // along with a diagnostic at an appropriate position. For this reason we do
            // not want to emit a less precise diagnostic over the more precise one the
            // lexer emitted along the Error token.
            if !matches!(other, TokenKind::Error) {
                let span = p.current_span();
                p.emit(
                    Severity::Error.diagnostic("expression expected").with_label(
                        Importance::Primary.label(span, "this token does not start an expression"),
                    ),
                );
            }
            p.advance_with_error()
        },
    }
}

/// Wraps the current token, if there is one, in a tree of `kind`.
fn prefix_token(p: &mut Parser, kind: TreeKind) -> (closed: Closed)
    requires
        old(p).wf(),
    ensures
        final(p).wf(),
        wrote_tree(final(p), old(p)),
        old(p).remaining() > 0 ==> final(p).remaining() < old(p).remaining(),
        closed.index() == old(p)@.events.len(),
{
    let ghost start = p@.events.len() as int;
    let o = p.open();
    proof {
        lemma_tree_is_forest(p@.events, start + 1, start + 1);
    }
    if !p.at_end() {
        proof {
            lemma_forest_advance(p@.events, start + 1);
        }
        p.advance();
    }
    proof {
        lemma_close_tree(p@.events, start, kind);
    }
    p.close(o, kind)
}

fn prefix_literal(p: &mut Parser) -> (closed: Closed)
    requires
        old(p).wf(),
    ensures
        final(p).wf(),
        wrote_tree(final(p), old(p)),
        old(p).remaining() > 0 ==> final(p).remaining() < old(p).remaining(),
        closed.index() == old(p)@.events.len(),
{
    prefix_token(p, TreeKind::Literal)
}

fn prefix_identifier(p: &mut Parser) -> (closed: Closed)
    requires
        old(p).wf(),
    ensures
        final(p).wf(),
        wrote_tree(final(p), old(p)),
        old(p).remaining() > 0 ==> final(p).remaining() < old(p).remaining(),
        closed.index() == old(p)@.events.len(),
{
    prefix_token(p, TreeKind::Identifier)
}

fn prefix_paren(p: &mut Parser, token: &Token) -> (closed: Closed)
    requires
        old(p).wf(),
    ensures
        final(p).wf(),
        wrote_tree(final(p), old(p)),
        old(p).remaining() > 0 ==> final(p).remaining() < old(p).remaining(),
        closed.index() == old(p)@.events.len(),
    decreases old(p).remaining(), 1nat,
{
    let ghost start = p@.events.len() as int;
    let o = p.open();
    proof {
        lemma_tree_is_forest(p@.events, start + 1, start + 1);
    }
    if !p.at_end() {
        proof {
            lemma_forest_advance(p@.events, start + 1);
        }
        p.advance();
        let ghost advanced = p@.events;
        expression(p);
        proof {
            lemma_forest_kept(advanced, p@.events, start + 1, advanced.len() as int);
            lemma_tree_is_forest(p@.events, advanced.len() as int, p@.events.len() as int);
            lemma_forest_behind(
                p@.events,
                start + 1,
                advanced.len() as int,
                p@.events.len() as int,
            );
        }
    }
    proof {
        lemma_forest_advance(p@.events, start + 1);
    }
    match p.expect(TokenKind::RParen) {
        Some(span) => {
            let diagnostic = Severity::Error.diagnostic(
                "expected `)` after expression to close parentheses `()`",
            ).with_label(Importance::Primary.label(span, "this token was expected to be `)`"))
                .with_label(
                Importance::Primary.label(
                    p.span(&token.range),
                    "this `(` does not have a matching `)`",
                ),
            );
            p.emit(diagnostic);
        },
        None => {},
    }
    proof {
        lemma_close_tree(p@.events, start, TreeKind::Paren);
    }
    p.close(o, TreeKind::Paren)
}

fn infix(p: &mut Parser, op: &Token) -> (kind: TreeKind)
    requires
        old(p).wf(),
        old(p).remaining() > 0,
        precedence_of(op.kind, old(p).text_of(*op)) is Some,
    ensures
        final(p).wf(),
        wrote_forest(final(p), old(p)),
        final(p).remaining() < old(p).remaining(),
    decreases old(p).remaining(), 6nat,
{
    match op.kind {
        TokenKind::And
        | TokenKind::Or
        | TokenKind::Dot
        | TokenKind::Equals
        | TokenKind::Colon
        | TokenKind::Pipe
        | TokenKind::Ampersand
        | TokenKind::Arrow
        | TokenKind::Operator => infix_binary(p, op),
        _ => {
            if is_at_application(p) {
                infix_apply(p, op)
            } else {
                // A token that starts an expression, but stands where no application can
                // be: it is taken in as an error.
                let span = p.current_span();
                p.emit(
                    Severity::Error.diagnostic("unhandled infix operator").with_label(
                        Importance::Primary.label(span, "an operator was expected here"),
                    ),
                );
                p.advance_with_error();
                proof {
                    lemma_tree_is_forest(
                        p@.events,
                        old(p)@.events.len() as int,
                        p@.events.len() as int,
                    );
                }
                TreeKind::Error
            }
        },
    }
}

fn infix_binary(p: &mut Parser, op: &Token) -> (kind: TreeKind)
    requires
        old(p).wf(),
        old(p).remaining() > 0,
        precedence_of(op.kind, old(p).text_of(*op)) is Some,
    ensures
        final(p).wf(),
        wrote_forest(final(p), old(p)),
        final(p).remaining() < old(p).remaining(),
        kind == TreeKind::Binary,
    decreases old(p).remaining(), 5nat,
{
    let ghost start = p@.events.len() as int;
    proof {
        lemma_tree_is_forest(p@.events, start, start);
        lemma_forest_advance(p@.events, start);
    }
    p.advance();
    let ghost advanced = p@.events;
    precedence_parse(p, op);
    proof {
        lemma_forest_kept(advanced, p@.events, start, advanced.len() as int);
        lemma_tree_is_forest(p@.events, advanced.len() as int, p@.events.len() as int);
        lemma_forest_behind(p@.events, start, advanced.len() as int, p@.events.len() as int);
    }
    TreeKind::Binary
}

fn is_at_application(p: &Parser) -> (at: bool)
    requires
        p.wf(),
    ensures
        at == at_application(p),
        at ==> p.remaining() > 0,
{
    let current = p.peek();
    // Operators may not be used as application arguments, because it makes the case of
    // pipelining `x |> f |> g` impossible. It's also really quite unintuitive, given the
    // visual separation that operators give you.
    let set = prefixes();
    let can_be_an_argument = set.includes(current.kind) && !matches!(
        current.kind,
        TokenKind::Operator
    );
    assert(can_be_an_argument == can_be_argument(p.peeked().kind));
    assert(p.remaining() <= 0 ==> current.kind == TokenKind::EndOfFile);
    // Application may not be separated by anything but line breaks.
    let trivia = p.preceding_trivia();
    let mut is_after_newline = false;
    let mut i: usize = 0;
    while i < trivia.len()
        invariant
            i <= trivia@.len(),
            is_after_newline == exists|j: int|
                0 <= j < i && (#[trigger] trivia@[j]).kind != TokenKind::Newline,
        decreases trivia@.len() - i,
    {
        if !matches!(trivia[i].kind, TokenKind::Newline) {
            is_after_newline = true;
        }
        i += 1;
    }
    can_be_an_argument && !is_after_newline
}

/// Whether a token of `kind` can be the argument of an application: an expression can
/// start with it, and it is no operator.
pub open spec fn can_be_argument(kind: TokenKind) -> bool {
    is_prefix(kind) && kind != TokenKind::Operator
}

/// Whether the parser stands at the argument of an application: the token that it looks
/// at can be an argument, and nothing but line breaks stands between that token and the
/// code token before it.
pub open spec fn at_application(p: &Parser) -> bool {
    &&& can_be_argument(p.peeked().kind)
    &&& forall|i: int|
        0 <= i < p.leading_trivia().len() ==> (#[trigger] p.leading_trivia()[i]).kind
            == TokenKind::Newline
}

fn infix_apply(p: &mut Parser, op: &Token) -> (kind: TreeKind)
    requires
        old(p).wf(),
        old(p).remaining() > 0,
        precedence_of(op.kind, old(p).text_of(*op)) is Some,
    ensures
        final(p).wf(),
        wrote_forest(final(p), old(p)),
        final(p).remaining() < old(p).remaining(),
        kind == TreeKind::Apply,
    decreases old(p).remaining(), 5nat,
{
    let ghost start = p@.events.len() as int;
    precedence_parse(p, op);
    proof {
        lemma_tree_is_forest(p@.events, start, p@.events.len() as int);
    }
    while is_at_application(p)
        invariant
            p.wf(),
            start == old(p)@.events.len(),
            wrote_forest(p, old(p)),
            p.remaining() < old(p).remaining(),
            precedence_of(op.kind, p.text_of(*op)) is Some,
        decreases p.remaining(),
    {
        let ghost before = p@.events;
        precedence_parse(p, op);
        proof {
            lemma_forest_kept(before, p@.events, start, before.len() as int);
            lemma_tree_is_forest(p@.events, before.len() as int, p@.events.len() as int);
            lemma_forest_behind(p@.events, start, before.len() as int, p@.events.len() as int);
        }
    }
    TreeKind::Apply
}

/// Parses an expression: one whole tree is written down behind the events that were
/// there. After an expression that consumed every token, the events of a parser that
/// had written down nothing before make a tree.
pub fn expression(p: &mut Parser)
    requires
        old(p).wf(),
    ensures
        final(p).wf(),
        wrote_tree(final(p), old(p)),
        old(p).remaining() > 0 ==> final(p).remaining() < old(p).remaining(),
    decreases old(p).remaining(), 4nat,
{
    let left = p.eof_token();
    precedence_parse(p, &left)
}

} // verus!
