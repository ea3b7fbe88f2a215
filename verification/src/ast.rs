//! The syntax tree.

use crate::lexis::token::Token;
use crate::lexis::token::TokenKind;
use crate::text::decimal;
use crate::text::push_str;
use crate::text::usize_to_string;
use vstd::prelude::*;
use vstd::std_specs::cmp::PartialEqSpecImpl;

verus! {

#[derive(Debug, Clone, Copy, PartialEq, Eq, Structural)]
pub enum TreeKind {
    Error,
    // Which literal this is can be determined by looking at the token kind.
    Literal,
    Identifier,
    Paren,
    Binary,
    Apply,
}

#[derive(Debug)]
pub struct Tree {
    pub kind: TreeKind,
    pub children: Vec<Child>,
}

#[derive(Debug)]
pub enum Child {
    Token(Token),
    Tree(Tree),
}

/// A tree as contracts see it.
pub struct TreeView {
    pub kind: TreeKind,
    pub children: Seq<ChildView>,
}

/// A child of a tree as contracts see it.
pub enum ChildView {
    Token(Token),
    Tree(TreeView),
}

/// What `tree` holds, all the way down.
pub open spec fn tree_view(tree: Tree) -> TreeView
    decreases tree,
{
    TreeView {
        kind: tree.kind,
        children: Seq::new(
            tree.children@.len(),
            |i: int|
                if 0 <= i < tree.children@.len() {
                    match tree.children@[i] {
                        Child::Token(token) => ChildView::Token(token),
                        Child::Tree(inner) => ChildView::Tree(tree_view(inner)),
                    }
                } else {
                    arbitrary()
                },
        ),
    }
}

impl View for Tree {
    type V = TreeView;

    open spec fn view(&self) -> TreeView {
        tree_view(*self)
    }
}

impl View for Child {
    type V = ChildView;

    open spec fn view(&self) -> ChildView {
        match *self {
            Child::Token(token) => ChildView::Token(token),
            Child::Tree(inner) => ChildView::Tree(inner@),
        }
    }
}

/// The view of a tree, one level down.
pub proof fn lemma_tree_view(tree: Tree)
    ensures
        tree@.kind == tree.kind,
        tree@.children.len() == tree.children@.len(),
        forall|i: int|
            0 <= i < tree.children@.len() ==> #[trigger] tree@.children[i] == tree.children@[i]@,
{
}

/// The name of a kind of tree.
pub open spec fn tree_kind_name(kind: TreeKind) -> Seq<char> {
    match kind {
        TreeKind::Error => "Error"@,
        TreeKind::Literal => "Literal"@,
        TreeKind::Identifier => "Identifier"@,
        TreeKind::Paren => "Paren"@,
        TreeKind::Binary => "Binary"@,
        TreeKind::Apply => "Apply"@,
    }
}

/// The name of a kind of token.
pub open spec fn token_kind_name(kind: TokenKind) -> Seq<char> {
    match kind {
        TokenKind::Error => "Error"@,
        TokenKind::EndOfFile => "EndOfFile"@,
        TokenKind::Comment => "Comment"@,
        TokenKind::Newline => "Newline"@,
        TokenKind::Integer => "Integer"@,
        TokenKind::Decimal => "Decimal"@,
        TokenKind::Character => "Character"@,
        TokenKind::String => "String"@,
        TokenKind::Tag => "Tag"@,
        TokenKind::Identifier => "Identifier"@,
        TokenKind::Operator => "Operator"@,
        TokenKind::LParen => "LParen"@,
        TokenKind::RParen => "RParen"@,
        TokenKind::LBracket => "LBracket"@,
        TokenKind::RBracket => "RBracket"@,
        TokenKind::LBrace => "LBrace"@,
        TokenKind::RBrace => "RBrace"@,
        TokenKind::Comma => "Comma"@,
        TokenKind::Semicolon => "Semicolon"@,
        TokenKind::And => "And"@,
        TokenKind::Break => "Break"@,
        TokenKind::Default => "Default"@,
        TokenKind::Do => "Do"@,
        TokenKind::Effect => "Effect"@,
        TokenKind::Else => "Else"@,
        TokenKind::Fun => "Fun"@,
        TokenKind::Handle => "Handle"@,
        TokenKind::If => "If"@,
        TokenKind::Interface => "Interface"@,
        TokenKind::Internal => "Internal"@,
        TokenKind::Is => "Is"@,
        TokenKind::Let => "Let"@,
        TokenKind::Match => "Match"@,
        TokenKind::Module => "Module"@,
        TokenKind::Mut => "Mut"@,
        TokenKind::Or => "Or"@,
        TokenKind::SetKeyword => "Set"@,
        TokenKind::Then => "Then"@,
        TokenKind::Underscore => "Underscore"@,
        TokenKind::Use => "Use"@,
        TokenKind::Var => "Var"@,
        TokenKind::While => "While"@,
        TokenKind::With => "With"@,
        TokenKind::Dot => "Dot"@,
        TokenKind::Colon => "Colon"@,
        TokenKind::Equals => "Equals"@,
        TokenKind::Pipe => "Pipe"@,
        TokenKind::Ampersand => "Ampersand"@,
        TokenKind::At => "At"@,
        TokenKind::Arrow => "Arrow"@,
    }
}

/// Four blanks for every level of `indent`.
pub open spec fn indentation_repr(indent: nat) -> Seq<char>
    decreases indent,
{
    if indent == 0 {
        Seq::empty()
    } else {
        indentation_repr((indent - 1) as nat) + "    "@
    }
}

/// A token on a line of its own: its kind, ` @ `, and its range.
pub open spec fn token_repr(token: Token, indent: nat) -> Seq<char> {
    indentation_repr(indent) + token_kind_name(token.kind) + " @ "@ + decimal(
        token.range.start as nat,
    ) + ".."@ + decimal(token.range.end as nat)
}

/// The level below `indent`.
pub open spec fn deeper(indent: usize) -> usize {
    if indent < usize::MAX {
        (indent + 1) as usize
    } else {
        indent
    }
}

/// The lines of `parts`, each behind a line break.
pub open spec fn lines(parts: Seq<Seq<char>>) -> Seq<char>
    decreases parts.len(),
{
    if parts.len() == 0 {
        Seq::empty()
    } else {
        lines(parts.drop_last()) + "\n"@ + parts.last()
    }
}

/// The children of `tree`, rendered one level deeper.
pub open spec fn children_repr(tree: Tree, indent: usize) -> Seq<Seq<char>>
    decreases tree, 0nat,
{
    Seq::new(
        tree.children@.len(),
        |i: int|
            if 0 <= i < tree.children@.len() {
                match tree.children@[i] {
                    Child::Token(token) => token_repr(token, deeper(indent) as nat),
                    Child::Tree(inner) => tree_repr(inner, deeper(indent)),
                }
            } else {
                Seq::empty()
            },
    )
}

/// The textual form of `tree`: its kind and an opening brace, its children on lines of
/// their own, one level deeper, and the closing brace.
pub open spec fn tree_repr(tree: Tree, indent: usize) -> Seq<char>
    decreases tree, 1nat,
{
    indentation_repr(indent as nat) + tree_kind_name(tree.kind) + " {"@ + lines(
        children_repr(tree, indent),
    ) + (if tree.children@.len() == 0 {
        "}"@
    } else {
        "\n"@ + indentation_repr(indent as nat) + "}"@
    })
}

/// The textual form of a child.
pub open spec fn child_repr(child: Child, indent: usize) -> Seq<char> {
    match child {
        Child::Token(token) => token_repr(token, indent as nat),
        Child::Tree(tree) => tree_repr(tree, indent),
    }
}


/// The name of a kind of tree.
fn tree_kind_text(kind: TreeKind) -> (name: &'static str)
    ensures
        name@ == tree_kind_name(kind),
{
    match kind {
        TreeKind::Error => "Error",
        TreeKind::Literal => "Literal",
        TreeKind::Identifier => "Identifier",
        TreeKind::Paren => "Paren",
        TreeKind::Binary => "Binary",
        TreeKind::Apply => "Apply",
    }
}

/// The name of a kind of token.
pub fn token_kind_text(kind: TokenKind) -> (name: &'static str)
    ensures
        name@ == token_kind_name(kind),
{
    match kind {
        TokenKind::Error => "Error",
        TokenKind::EndOfFile => "EndOfFile",
        TokenKind::Comment => "Comment",
        TokenKind::Newline => "Newline",
        TokenKind::Integer => "Integer",
        TokenKind::Decimal => "Decimal",
        TokenKind::Character => "Character",
        TokenKind::String => "String",
        TokenKind::Tag => "Tag",
        TokenKind::Identifier => "Identifier",
        TokenKind::Operator => "Operator",
        TokenKind::LParen => "LParen",
        TokenKind::RParen => "RParen",
        TokenKind::LBracket => "LBracket",
        TokenKind::RBracket => "RBracket",
        TokenKind::LBrace => "LBrace",
        TokenKind::RBrace => "RBrace",
        TokenKind::Comma => "Comma",
        TokenKind::Semicolon => "Semicolon",
        TokenKind::And => "And",
        TokenKind::Break => "Break",
        TokenKind::Default => "Default",
        TokenKind::Do => "Do",
        TokenKind::Effect => "Effect",
        TokenKind::Else => "Else",
        TokenKind::Fun => "Fun",
        TokenKind::Handle => "Handle",
        TokenKind::If => "If",
        TokenKind::Interface => "Interface",
        TokenKind::Internal => "Internal",
        TokenKind::Is => "Is",
        TokenKind::Let => "Let",
        TokenKind::Match => "Match",
        TokenKind::Module => "Module",
        TokenKind::Mut => "Mut",
        TokenKind::Or => "Or",
        TokenKind::SetKeyword => "Set",
        TokenKind::Then => "Then",
        TokenKind::Underscore => "Underscore",
        TokenKind::Use => "Use",
        TokenKind::Var => "Var",
        TokenKind::While => "While",
        TokenKind::With => "With",
        TokenKind::Dot => "Dot",
        TokenKind::Colon => "Colon",
        TokenKind::Equals => "Equals",
        TokenKind::Pipe => "Pipe",
        TokenKind::Ampersand => "Ampersand",
        TokenKind::At => "At",
        TokenKind::Arrow => "Arrow",
    }
}

fn indentation(out: &mut String, indent: usize)
    ensures
        final(out)@ == old(out)@ + indentation_repr(indent as nat),
{
    let mut level: usize = 0;
    assert(out@ =~= old(out)@ + indentation_repr(0));
    while level < indent
        invariant
            level <= indent,
            out@ == old(out)@ + indentation_repr(level as nat),
        decreases indent - level,
    {
        push_str(out, "    ");
        level += 1;
        assert(out@ =~= old(out)@ + indentation_repr(level as nat));
    }
}

fn token(out: &mut String, token: &Token, indent: usize)
    ensures
        final(out)@ == old(out)@ + token_repr(*token, indent as nat),
{
    indentation(out, indent);
    push_str(out, token_kind_text(token.kind));
    push_str(out, " @ ");
    push_str(out, usize_to_string(token.range.start).as_str());
    push_str(out, "..");
    push_str(out, usize_to_string(token.range.end).as_str());
    assert(out@ =~= old(out)@ + token_repr(*token, indent as nat));
}

/// Writes the textual form of `child` behind what `out` holds.
pub fn child(out: &mut String, child: &Child, indent: usize)
    ensures
        final(out)@ == old(out)@ + child_repr(*child, indent),
    decreases child,
{
    match child {
        Child::Token(t) => token(out, t, indent),
        Child::Tree(t) => tree(out, t, indent),
    }
}

/// Writes the textual form of `tree` behind what `out` holds.
pub fn tree(out: &mut String, tree: &Tree, indent: usize)
    ensures
        final(out)@ == old(out)@ + tree_repr(*tree, indent),
    decreases tree,
{
    indentation(out, indent);
    push_str(out, tree_kind_text(tree.kind));
    push_str(out, " {");
    let ghost head = out@;
    let ghost parts = children_repr(*tree, indent);
    let inner = if indent < usize::MAX {
        indent + 1
    } else {
        indent
    };
    let mut i: usize = 0;
    assert(parts.subrange(0, 0) =~= Seq::empty());
    assert(out@ =~= head + lines(parts.subrange(0, 0)));
    while i < tree.children.len()
        invariant
            i <= tree.children@.len(),
            parts == children_repr(*tree, indent),
            inner == deeper(indent),
            out@ == head + lines(parts.subrange(0, i as int)),
        decreases tree.children@.len() - i,
    {
        push_str(out, "\n");
        child(out, &tree.children[i], inner);
        proof {
            let next = parts.subrange(0, i + 1);
            assert(next.drop_last() =~= parts.subrange(0, i as int));
            assert(next.last() == child_repr(tree.children@[i as int], inner));
            assert(out@ =~= head + lines(next));
        }
        i += 1;
    }
    assert(parts.subrange(0, parts.len() as int) =~= parts);
    if tree.children.len() == 0 {
        push_str(out, "}");
    } else {
        push_str(out, "\n");
        indentation(out, indent);
        push_str(out, "}");
    }
    assert(out@ =~= old(out)@ + tree_repr(*tree, indent));
}

impl Tree {
    /// Returns a representation of the tree that's stable for testing.
    pub fn test_repr(&self) -> (repr: String)
        ensures
            repr@ == tree_repr(*self, 0),
    {
        let mut out = String::new();
        tree(&mut out, self, 0);
        assert(out@ =~= tree_repr(*self, 0));
        out
    }
}


/// Whether two tokens are the same.
fn same_token(a: &Token, b: &Token) -> (same: bool)
    ensures
        same == (*a == *b),
{
    a.kind == b.kind && a.range.start == b.range.start && a.range.end == b.range.end
}

/// Whether two trees hold the same, all the way down.
fn same_tree(a: &Tree, b: &Tree) -> (same: bool)
    ensures
        same == (a@ == b@),
    decreases a,
{
    proof {
        lemma_tree_view(*a);
        lemma_tree_view(*b);
    }
    if a.kind != b.kind || a.children.len() != b.children.len() {
        return false;
    }
    let mut i: usize = 0;
    while i < a.children.len()
        invariant
            i <= a.children@.len(),
            a.children@.len() == b.children@.len(),
            forall|j: int| 0 <= j < i ==> (#[trigger] a.children@[j])@ == b.children@[j]@,
        decreases a.children@.len() - i,
    {
        let same = match (&a.children[i], &b.children[i]) {
            (Child::Token(x), Child::Token(y)) => same_token(x, y),
            (Child::Tree(x), Child::Tree(y)) => same_tree(x, y),
            _ => false,
        };
        if !same {
            assert(a@.children[i as int] == a.children@[i as int]@);
            assert(b@.children[i as int] == b.children@[i as int]@);
            return false;
        }
        i += 1;
    }
    assert(a@.children =~= b@.children);
    true
}

/// A copy of a tree, all the way down.
fn copy_tree(tree: &Tree) -> (copy: Tree)
    ensures
        copy@ == tree@,
    decreases tree,
{
    let mut children: Vec<Child> = Vec::new();
    let mut i: usize = 0;
    while i < tree.children.len()
        invariant
            i <= tree.children@.len(),
            children@.len() == i,
            forall|j: int| 0 <= j < i ==> (#[trigger] children@[j])@ == tree.children@[j]@,
        decreases tree.children@.len() - i,
    {
        let child = match &tree.children[i] {
            Child::Token(token) => Child::Token(token.copy()),
            Child::Tree(inner) => Child::Tree(copy_tree(inner)),
        };
        children.push(child);
        i += 1;
    }
    let copy = Tree { kind: tree.kind, children };
    proof {
        lemma_tree_view(copy);
        lemma_tree_view(*tree);
        assert(copy@.children =~= tree@.children);
    }
    copy
}

impl Clone for Tree {
    fn clone(&self) -> (copy: Self)
        ensures
            copy@ == self@,
    {
        copy_tree(self)
    }
}

impl PartialEq for Tree {
    fn eq(&self, other: &Self) -> (same: bool) {
        same_tree(self, other)
    }
}

impl Eq for Tree {

}

impl PartialEqSpecImpl for Tree {
    open spec fn obeys_eq_spec() -> bool {
        true
    }

    open spec fn eq_spec(&self, other: &Self) -> bool {
        self@ == other@
    }
}

impl Clone for Child {
    fn clone(&self) -> (copy: Self)
        ensures
            copy@ == self@,
    {
        match self {
            Child::Token(token) => Child::Token(token.copy()),
            Child::Tree(tree) => Child::Tree(copy_tree(tree)),
        }
    }
}

impl PartialEq for Child {
    fn eq(&self, other: &Self) -> (same: bool) {
        match (self, other) {
            (Child::Token(x), Child::Token(y)) => same_token(x, y),
            (Child::Tree(x), Child::Tree(y)) => same_tree(x, y),
            _ => false,
        }
    }
}

impl Eq for Child {

}

impl PartialEqSpecImpl for Child {
    open spec fn obeys_eq_spec() -> bool {
        true
    }

    open spec fn eq_spec(&self, other: &Self) -> bool {
        self@ == other@
    }
}

} // verus!
