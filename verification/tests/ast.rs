use rokugo::ast::{Child, Tree, TreeKind};
use rokugo::lexis::token::TokenKind;

#[test]
fn test_repr_of_nested_tree() {
    let tree = Tree {
        kind: TreeKind::Binary,
        children: vec![
            Child::Tree(Tree {
                kind: TreeKind::Literal,
                children: vec![Child::Token(TokenKind::Integer.at(0..1))],
            }),
            Child::Token(TokenKind::Operator.at(2..3)),
            Child::Tree(Tree {
                kind: TreeKind::Literal,
                children: vec![Child::Token(TokenKind::Integer.at(4..15))],
            }),
            Child::Tree(Tree {
                kind: TreeKind::Error,
                children: vec![],
            }),
            Child::Token(TokenKind::SetKeyword.at(100..103)),
        ],
    };
    assert_eq!(
        tree.test_repr(),
        "Binary {\n    Literal {\n        Integer @ 0..1\n    }\n    Operator @ 2..3\n    Literal {\n        Integer @ 4..15\n    }\n    Error {}\n    Set @ 100..103\n}"
    );
    let mut out = String::from("> ");
    rokugo::ast::child(&mut out, &Child::Token(TokenKind::At.at(7..8)), 1);
    assert_eq!(out, ">     At @ 7..8");
    let mut out = String::new();
    rokugo::ast::tree(&mut out, &Tree { kind: TreeKind::Paren, children: vec![] }, 2);
    assert_eq!(out, "        Paren {}");
}
