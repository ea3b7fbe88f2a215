use rokugo::lexis::token::TokenKind;
use rokugo::parser::TokenSkipList;

#[test]
fn skip_list() {
    let tokens = vec![
        TokenKind::Comment.at(0..5),
        TokenKind::Newline.at(5..6),
        TokenKind::Identifier.at(6..10),
    ];
    let skip_list = TokenSkipList::new(tokens.clone());
    assert_eq!(
        skip_list,
        TokenSkipList {
            tokens,
            code: vec![2]
        }
    );
    assert_eq!(skip_list.get(0), Some(&TokenKind::Identifier.at(6..10)))
}

#[test]
fn trivia() {
    let tokens = vec![
        TokenKind::Comment.at(0..5),
        TokenKind::Newline.at(5..6),
        TokenKind::Identifier.at(6..10),
        TokenKind::Identifier.at(11..13),
        TokenKind::Comment.at(15..20),
    ];
    let skip_list = TokenSkipList::new(tokens.clone());

    assert_eq!(
        skip_list,
        TokenSkipList {
            tokens,
            code: vec![2, 3]
        }
    );

    assert_eq!(
        skip_list.trivia(0),
        (
            [TokenKind::Comment.at(0..5), TokenKind::Newline.at(5..6)].as_slice(),
            [].as_slice()
        )
    );
    assert_eq!(
        skip_list.trivia(1),
        ([].as_slice(), [TokenKind::Comment.at(15..20)].as_slice())
    );
}

#[test]
fn before_and_get() {
    let tokens = vec![
        TokenKind::Newline.at(0..1),
        TokenKind::Integer.at(1..2),
        TokenKind::Comment.at(2..5),
        TokenKind::Newline.at(5..6),
        TokenKind::Operator.at(6..7),
    ];
    let list = TokenSkipList::new(tokens);
    assert_eq!(list.code, vec![1, 4]);
    assert_eq!(list.before(0), [TokenKind::Newline.at(0..1)].as_slice());
    assert_eq!(
        list.before(1),
        [TokenKind::Comment.at(2..5), TokenKind::Newline.at(5..6)].as_slice()
    );
    assert_eq!(list.before(2), [].as_slice());
    assert_eq!(list.get(1), Some(&TokenKind::Operator.at(6..7)));
    assert_eq!(list.get(2), None);
    let empty = TokenSkipList::new(vec![]);
    assert_eq!(empty.get(0), None);
    assert_eq!(empty.before(0), [].as_slice());
}
