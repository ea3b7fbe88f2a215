//! Precedence of operators.
//!
//! Precedence is only defined between specific pairs of operators, and not every pair is
//! defined. This forces some operators with normally unclear precedence to be
//! parenthesized, as in `x == (0.0 +- 0.0001)`: `==` and `+-` are of categories that have
//! no precedence relationship.

use crate::lexis::token::TokenKind;
use crate::text::same;
use vstd::prelude::*;

verus! {

/// Built-in precedence categories.
///
/// Operators whose precedence is defined by a category may mix between each other, if a
/// precedence relation exists between them. Some categories do not define precedence
/// relations between each other, which produces an error message about ambiguous
/// precedence.
#[derive(Debug, Clone, Copy, PartialEq, Eq, Structural)]
pub enum Category {
    /// The `.` operator.
    Dot,
    /// Function application. Does not use an operator character, but is characterized by
    /// a prefix token appearing after another prefix token, without a newline inbetween.
    Apply,
    /// Operators: `*`, `/`.
    Multiplication,
    /// Operators: `+`, `-`.
    Summation,
    /// Operators: `==`, `!=`, `<`, `>`, `<=`, `>=`.
    Relation,
    /// The `->` operator.
    Arrow,
    /// The `=` operator.
    Equals,
    /// The `:` operator.
    Colon,
    /// The `and` operator.
    And,
    /// The `or` operator.
    Or,
    /// The `|` operator.
    Pipe,
    /// The `&` operator.
    Ampersand,
}

/// How the precedence of one operator relates to that of another.
#[derive(Debug, Clone, Copy, PartialEq, Eq, Structural)]
pub enum Relation {
    Less,
    Equal,
    Greater,
}

/// Precedence of an operator: that of a built-in category, or that of a custom operator,
/// which mixes with no other but itself, `=`, `.` and application.
#[derive(Debug, Clone, Copy)]
pub enum Precedence<'a> {
    Category(Category),
    /// Other categories, told apart by the spelling of the operator. May not mix with any
    /// other category.
    Custom(&'a str),
}

/// A precedence as contracts see it: custom operators by the characters of their
/// spelling.
pub enum PrecedenceView {
    Category(Category),
    Custom(Seq<char>),
}

impl<'a> View for Precedence<'a> {
    type V = PrecedenceView;

    open spec fn view(&self) -> PrecedenceView {
        match *self {
            Precedence::Category(category) => PrecedenceView::Category(category),
            Precedence::Custom(spelling) => PrecedenceView::Custom(spelling@),
        }
    }
}

#[derive(Debug, Clone, Copy, PartialEq, Eq, Structural)]
pub enum Associativity {
    Left,
    Right,
}

/// Which of two operators binds tighter.
#[derive(Debug, Clone, Copy, PartialEq, Eq, Structural)]
pub enum Tighter {
    Left,
    Right,
    Ambiguous,
}

/// The base relationships between categories: `a` binds less tightly than `b`.
pub open spec fn base_less(a: Category, b: Category) -> bool {
    ||| a == Category::Summation && b == Category::Multiplication
    ||| a == Category::Relation && b == Category::Summation
    ||| a == Category::And && b == Category::Relation
    ||| a == Category::Or && b == Category::Relation
    ||| a == Category::Colon && b == Category::Arrow
    ||| b == Category::Apply && a != Category::Dot
    ||| b == Category::Dot
    ||| a == Category::Equals
}

/// Whether `a` binds less tightly than `b`: by a base relationship, or by a chain of
/// them.
pub open spec fn less(a: Category, b: Category) -> bool {
    if b == Category::Dot || a == Category::Equals {
        true
    } else if a == Category::Dot {
        false
    } else if b == Category::Apply {
        true
    } else if a == Category::Apply || b == Category::Equals {
        false
    } else {
        match a {
            Category::Summation => b == Category::Multiplication,
            Category::Relation => b == Category::Summation || b == Category::Multiplication,
            Category::And | Category::Or => b == Category::Relation || b == Category::Summation
                || b == Category::Multiplication,
            Category::Colon => b == Category::Arrow,
            _ => false,
        }
    }
}

/// The relation between two categories, where they are not the same.
pub open spec fn category_relation(a: Category, b: Category) -> Option<Relation> {
    if less(b, a) {
        Some(Relation::Greater)
    } else if less(a, b) {
        Some(Relation::Less)
    } else {
        None
    }
}

/// The relation between two precedences, if they have one.
pub open spec fn relation(a: PrecedenceView, b: PrecedenceView) -> Option<Relation> {
    if a == b {
        Some(Relation::Equal)
    } else {
        match (a, b) {
            (PrecedenceView::Category(Category::Equals), PrecedenceView::Custom(_)) => Some(
                Relation::Less,
            ),
            (PrecedenceView::Custom(_), PrecedenceView::Category(Category::Equals)) => Some(
                Relation::Greater,
            ),
            (PrecedenceView::Custom(_), PrecedenceView::Category(Category::Apply)) => Some(
                Relation::Less,
            ),
            (PrecedenceView::Category(Category::Apply), PrecedenceView::Custom(_)) => Some(
                Relation::Greater,
            ),
            (PrecedenceView::Custom(_), PrecedenceView::Category(Category::Dot)) => Some(
                Relation::Less,
            ),
            (PrecedenceView::Category(Category::Dot), PrecedenceView::Custom(_)) => Some(
                Relation::Greater,
            ),
            (PrecedenceView::Category(a), PrecedenceView::Category(b)) => category_relation(
                a,
                b,
            ),
            _ => None,
        }
    }
}

/// Which operator binds tighter, from the relation between the left and the right one
/// and the associativity of the right one.
pub open spec fn tighter_of(relation: Option<Relation>, right: Associativity) -> Tighter {
    match relation {
        Some(Relation::Less) => Tighter::Right,
        Some(Relation::Equal) => match right {
            Associativity::Left => Tighter::Left,
            Associativity::Right => Tighter::Right,
        },
        Some(Relation::Greater) => Tighter::Left,
        None => Tighter::Ambiguous,
    }
}

/// Every base relationship holds, chains of relationships hold, and no category binds
/// both less and more tightly than another one that is not itself.
pub proof fn lemma_less(a: Category, b: Category, c: Category)
    ensures
        base_less(a, b) ==> less(a, b),
        less(a, b) && less(b, c) && b != Category::Dot && b != Category::Equals ==> less(a, c),
        a != b && less(a, b) && less(b, a) ==> (a == Category::Equals && b == Category::Dot),
{
}

impl Category {
    /// Whether this category binds less tightly than `other`.
    pub fn is_less(self, other: Category) -> (r: bool)
        ensures
            r == less(self, other),
    {
        if matches!(other, Category::Dot) || matches!(self, Category::Equals) {
            true
        } else if matches!(self, Category::Dot) {
            false
        } else if matches!(other, Category::Apply) {
            true
        } else if matches!(self, Category::Apply) || matches!(other, Category::Equals) {
            false
        } else {
            match self {
                Category::Summation => matches!(other, Category::Multiplication),
                Category::Relation => matches!(other, Category::Summation) || matches!(
                    other,
                    Category::Multiplication
                ),
                Category::And | Category::Or => matches!(other, Category::Relation) || matches!(
                    other,
                    Category::Summation
                ) || matches!(other, Category::Multiplication),
                Category::Colon => matches!(other, Category::Arrow),
                _ => false,
            }
        }
    }

    /// The relation of this category to another one.
    pub fn relation_to(self, other: Category) -> (r: Option<Relation>)
        ensures
            r == category_relation(self, other),
    {
        if other.is_less(self) {
            Some(Relation::Greater)
        } else if self.is_less(other) {
            Some(Relation::Less)
        } else {
            None
        }
    }
}

impl<'a> Precedence<'a> {
    /// The relation of this precedence to another one, if they have one.
    pub fn partial_cmp(&self, other: &Self) -> (r: Option<Relation>)
        ensures
            r == relation(self@, other@),
    {
        match (*self, *other) {
            (Precedence::Custom(a), Precedence::Custom(b)) => if same(a, b) {
                Some(Relation::Equal)
            } else {
                None
            },
            (Precedence::Category(a), Precedence::Custom(_)) => match a {
                Category::Equals => Some(Relation::Less),
                Category::Apply => Some(Relation::Greater),
                Category::Dot => Some(Relation::Greater),
                _ => None,
            },
            (Precedence::Custom(_), Precedence::Category(b)) => match b {
                Category::Equals => Some(Relation::Greater),
                Category::Apply => Some(Relation::Less),
                Category::Dot => Some(Relation::Less),
                _ => None,
            },
            (Precedence::Category(a), Precedence::Category(b)) => if a == b {
                Some(Relation::Equal)
            } else {
                a.relation_to(b)
            },
        }
    }
}

/// Which operator binds tighter.
pub fn decide(relation: Option<Relation>, right: Associativity) -> (tighter: Tighter)
    ensures
        tighter == tighter_of(relation, right),
{
    match relation {
        Some(Relation::Less) => Tighter::Right,
        Some(Relation::Equal) => match right {
            Associativity::Left => Tighter::Left,
            Associativity::Right => Tighter::Right,
        },
        Some(Relation::Greater) => Tighter::Left,
        None => Tighter::Ambiguous,
    }
}

/// The category of the token kinds that are operators by themselves.
pub open spec fn reserved_category(kind: TokenKind) -> Option<Category> {
    match kind {
        TokenKind::And => Some(Category::And),
        TokenKind::Or => Some(Category::Or),
        TokenKind::Dot => Some(Category::Dot),
        TokenKind::Equals => Some(Category::Equals),
        TokenKind::Colon => Some(Category::Colon),
        TokenKind::Pipe => Some(Category::Pipe),
        TokenKind::Ampersand => Some(Category::Ampersand),
        TokenKind::Arrow => Some(Category::Arrow),
        _ => None,
    }
}

/// The category of the token kinds that are operators by themselves.
pub fn category_of(kind: TokenKind) -> (category: Option<Category>)
    ensures
        category == reserved_category(kind),
{
    match kind {
        TokenKind::And => Some(Category::And),
        TokenKind::Or => Some(Category::Or),
        TokenKind::Dot => Some(Category::Dot),
        TokenKind::Equals => Some(Category::Equals),
        TokenKind::Colon => Some(Category::Colon),
        TokenKind::Pipe => Some(Category::Pipe),
        TokenKind::Ampersand => Some(Category::Ampersand),
        TokenKind::Arrow => Some(Category::Arrow),
        _ => None,
    }
}

} // verus!
