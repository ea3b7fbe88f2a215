//! Resilient parser: turns tokens into a tree even where the input is broken, so that
//! the tree can serve code analysis beyond compilation.
//!
//! The parser writes down events: a tree was opened, a tree was closed, a token was
//! consumed. The tree is built from the events at the end.

pub mod expression;
pub mod precedence;
pub mod skip_list;

pub use skip_list::TokenSkipList;

use crate::ast::lemma_tree_view;
use crate::ast::Child;
use crate::ast::ChildView;
use crate::ast::Tree;
use crate::ast::TreeKind;
use crate::ast::TreeView;
use crate::diagnostic::Diagnostic;
use crate::lexis::lexer::views;
use crate::lexis::token::Token;
use crate::lexis::token::TokenKind;
use crate::source_code::FileId;
use crate::source_code::SourceSpan;
use crate::source_code::Sources;
use core::ops::Range;
use skip_list::lemma_code_positions;
use vstd::prelude::*;
use vstd::utf8::decode_utf8;
use vstd::utf8::encode_utf8;

verus! {

/// Parser state.
pub struct Parser<'s> {
    sources: &'s Sources,
    file_id: FileId,
    tokens: TokenSkipList,
    /// Position within the skip list.
    position: usize,
    events: Vec<Event>,
    pub diagnostics: Vec<Diagnostic>,
}

/// A tree that was [`open`](Parser::open)ed. It later has to be closed using
/// [`Parser::close`] to keep the tree balanced.
pub struct Opened {
    event_index: usize,
}

/// A tree that was [`close`](Parser::close)d. Any closed tree can be wrapped in a parent
/// tree using [`Parser::open_before`].
pub struct Closed {
    event_index: usize,
}

/// The kind of a parsing event.
#[derive(Debug, Clone, Copy, PartialEq, Eq, Structural)]
pub enum EventKind {
    /// A tree was opened.
    Open { kind: TreeKind },
    /// A tree was closed.
    Close,
    /// A token has been consumed.
    Advance,
}

/// A parse event.
#[derive(Debug, Clone, Copy)]
pub struct Event {
    pub kind: EventKind,
}

/// The trees under construction, innermost last, and the number of tokens consumed.
pub struct Building {
    pub stack: Seq<TreeView>,
    pub consumed: int,
}

/// The tokens as children.
pub open spec fn token_children(tokens: Seq<Token>) -> Seq<ChildView> {
    Seq::new(tokens.len(), |i: int| ChildView::Token(tokens[i]))
}

/// The innermost tree with `children` put behind its children.
pub open spec fn extended(stack: Seq<TreeView>, children: Seq<ChildView>) -> Seq<TreeView> {
    stack.update(
        stack.len() - 1,
        TreeView { kind: stack.last().kind, children: stack.last().children + children },
    )
}

/// The children that the `position`-th code token contributes: the token, its leading
/// trivia, and, for a last token that is not the first, the trivia behind it.
pub open spec fn token_with_trivia(list: TokenSkipList, position: int) -> Seq<ChildView> {
    let pivot = list.code@[position] as int;
    seq![ChildView::Token(list.tokens@[pivot])] + token_children(
        list.tokens@.subrange(list.leading_start(position), pivot),
    ) + (if position > 0 && position == list.code@.len() - 1 {
        token_children(list.tokens@.subrange(pivot + 1, list.tokens@.len() as int))
    } else {
        Seq::empty()
    })
}

/// What one event does to the trees under construction, if it fits them.
pub open spec fn step(building: Building, event: EventKind, list: TokenSkipList) -> Option<
    Building,
> {
    match event {
        EventKind::Open { kind } => Some(
            Building {
                stack: building.stack.push(TreeView { kind, children: Seq::empty() }),
                ..building
            },
        ),
        EventKind::Close => if building.stack.len() >= 2 {
            Some(
                Building {
                    stack: extended(
                        building.stack.drop_last(),
                        seq![ChildView::Tree(building.stack.last())],
                    ),
                    ..building
                },
            )
        } else {
            None
        },
        EventKind::Advance => if building.stack.len() >= 1 && 0 <= building.consumed
            < list.code@.len() {
            Some(
                Building {
                    stack: extended(
                        building.stack,
                        token_with_trivia(list, building.consumed),
                    ),
                    consumed: building.consumed + 1,
                },
            )
        } else {
            None
        },
    }
}

/// The trees under construction after the first `count` events, if all of them fit.
pub open spec fn run(events: Seq<EventKind>, list: TokenSkipList, count: int) -> Option<Building>
    decreases count,
{
    if count <= 0 {
        Some(Building { stack: Seq::empty(), consumed: 0 })
    } else {
        match run(events, list, count - 1) {
            Some(building) => step(building, events[count - 1], list),
            None => None,
        }
    }
}

/// The tree that the events describe: the last event closes the root, the events before
/// it fit, leave the root alone under construction, and consume every code token.
pub open spec fn tree_of(events: Seq<EventKind>, list: TokenSkipList) -> Option<TreeView> {
    if events.len() > 0 && events.last() == EventKind::Close {
        match run(events, list, events.len() - 1) {
            Some(building) => if building.stack.len() == 1 && building.consumed
                == list.code@.len() {
                Some(building.stack[0])
            } else {
                None
            },
            None => None,
        }
    } else {
        None
    }
}

/// Once an event does not fit, no tree comes of the events.
pub proof fn lemma_run_fails(events: Seq<EventKind>, list: TokenSkipList, at: int, count: int)
    requires
        0 <= at <= count,
        run(events, list, at) is None,
    ensures
        run(events, list, count) is None,
    decreases count,
{
    if at < count {
        lemma_run_fails(events, list, at, count - 1);
    }
}

/// What an event does to the number of open trees.
pub open spec fn delta(event: EventKind) -> int {
    match event {
        EventKind::Open { .. } => 1,
        EventKind::Close => -1,
        EventKind::Advance => 0,
    }
}

/// Number of trees that are open after the first `count` events.
pub open spec fn level(events: Seq<EventKind>, count: int) -> int
    decreases count,
{
    if count <= 0 {
        0
    } else {
        level(events, count - 1) + delta(events[count - 1])
    }
}

/// Number of tokens that the first `count` events consume.
pub open spec fn advances(events: Seq<EventKind>, count: int) -> int
    decreases count,
{
    if count <= 0 {
        0
    } else {
        advances(events, count - 1) + (if events[count - 1] == EventKind::Advance {
            1int
        } else {
            0int
        })
    }
}

/// Whether the events from `from` up to `to` are whole trees and tokens: what they open
/// they close, and they close nothing else.
pub open spec fn forest(events: Seq<EventKind>, from: int, to: int) -> bool {
    &&& 0 <= from <= to <= events.len()
    &&& level(events, to) == level(events, from)
    &&& forall|k: int| from <= k <= to ==> #[trigger] level(events, k) >= level(events, from)
}

/// Whether the events from `from` up to `to` are one whole tree.
pub open spec fn one_tree(events: Seq<EventKind>, from: int, to: int) -> bool {
    &&& 0 <= from && from + 2 <= to <= events.len()
    &&& events[from] is Open
    &&& level(events, to) == level(events, from)
    &&& forall|k: int| from < k < to ==> #[trigger] level(events, k) > level(events, from)
}

/// Whether `later` is `earlier` with events put behind it.
pub open spec fn extends(later: Seq<EventKind>, earlier: Seq<EventKind>) -> bool {
    &&& earlier.len() <= later.len()
    &&& forall|i: int| 0 <= i < earlier.len() ==> #[trigger] later[i] == earlier[i]
}

/// Levels and consumed tokens depend on the events counted only.
pub proof fn lemma_same_prefix(a: Seq<EventKind>, b: Seq<EventKind>, count: int)
    requires
        count <= a.len(),
        count <= b.len(),
        forall|i: int| 0 <= i < count ==> a[i] == b[i],
    ensures
        level(a, count) == level(b, count),
        advances(a, count) == advances(b, count),
    decreases count,
{
    if count > 0 {
        lemma_same_prefix(a, b, count - 1);
    }
}

/// Consumed tokens only become more.
pub proof fn lemma_advances_grow(events: Seq<EventKind>, a: int, b: int)
    requires
        a <= b,
    ensures
        0 <= advances(events, a) <= advances(events, b),
    decreases b,
{
    if b > 0 && a < b {
        lemma_advances_grow(events, a, b - 1);
    }
    if a > 0 && a == b {
        lemma_advances_grow(events, a - 1, a - 1);
    }
}

/// What putting an `Open` in at `at` does to levels and consumed tokens.
pub proof fn lemma_insert_open(events: Seq<EventKind>, at: int, kind: TreeKind, count: int)
    requires
        0 <= at <= events.len(),
        0 <= count <= events.len() as int + 1,
    ensures
        level(events.insert(at, EventKind::Open { kind }), count) == (if count <= at {
            level(events, count)
        } else {
            level(events, count - 1) + 1
        }),
        advances(events.insert(at, EventKind::Open { kind }), count) == (if count <= at {
            advances(events, count)
        } else {
            advances(events, count - 1)
        }),
    decreases count,
{
    if count > 0 {
        lemma_insert_open(events, at, kind, count - 1);
        let more = events.insert(at, EventKind::Open { kind });
        if count - 1 < at {
            assert(more[count - 1] == events[count - 1]);
        } else if count - 1 == at {
            assert(more[at] == EventKind::Open { kind });
        } else {
            assert(more[count - 1] == events[count - 2]);
        }
    }
}

/// Giving an `Open` another kind changes neither levels nor consumed tokens.
pub proof fn lemma_update_open(events: Seq<EventKind>, at: int, kind: TreeKind, count: int)
    requires
        0 <= at < events.len(),
        events[at] is Open,
        0 <= count <= events.len(),
    ensures
        level(events.update(at, EventKind::Open { kind }), count) == level(events, count),
        advances(events.update(at, EventKind::Open { kind }), count) == advances(events, count),
    decreases count,
{
    if count > 0 {
        lemma_update_open(events, at, kind, count - 1);
    }
}

/// A forest stays one when events are put behind the events.
pub proof fn lemma_forest_kept(
    earlier: Seq<EventKind>,
    later: Seq<EventKind>,
    from: int,
    to: int,
)
    requires
        extends(later, earlier),
        to <= earlier.len(),
    ensures
        forest(earlier, from, to) ==> forest(later, from, to),
        one_tree(earlier, from, to) ==> one_tree(later, from, to),
{
    if 0 <= from <= to {
        assert forall|k: int| 0 <= k <= to implies #[trigger] level(later, k) == level(
            earlier,
            k,
        ) by {
            lemma_same_prefix(earlier, later, k);
        }
    }
}

/// One tree is a forest, and so are no events at all.
pub proof fn lemma_tree_is_forest(events: Seq<EventKind>, from: int, to: int)
    ensures
        one_tree(events, from, to) ==> forest(events, from, to),
        0 <= from <= events.len() ==> forest(events, from, from),
{
}

/// A forest behind a forest is a forest.
pub proof fn lemma_forest_behind(events: Seq<EventKind>, from: int, middle: int, to: int)
    requires
        forest(events, from, middle),
        forest(events, middle, to),
    ensures
        forest(events, from, to),
{
}

/// A token behind a forest is a forest.
pub proof fn lemma_forest_advance(events: Seq<EventKind>, from: int)
    requires
        forest(events, from, events.len() as int),
    ensures
        forest(events.push(EventKind::Advance), from, events.len() as int + 1),
        advances(events.push(EventKind::Advance), events.len() as int + 1) == advances(
            events,
            events.len() as int,
        ) + 1,
{
    let more = events.push(EventKind::Advance);
    assert forall|k: int| 0 <= k <= events.len() implies #[trigger] level(more, k) == level(
        events,
        k,
    ) by {
        lemma_same_prefix(events, more, k);
    }
    lemma_same_prefix(events, more, events.len() as int);
}

/// An `Open`, a forest and a `Close` are one tree. The `Open` may be given its kind at
/// the end.
pub proof fn lemma_close_tree(events: Seq<EventKind>, start: int, kind: TreeKind)
    requires
        0 <= start < events.len(),
        events[start] is Open,
        forest(events, start + 1, events.len() as int),
    ensures
        one_tree(
            events.update(start, EventKind::Open { kind }).push(EventKind::Close),
            start,
            events.len() as int + 1,
        ),
        extends(
            events.update(start, EventKind::Open { kind }).push(EventKind::Close),
            events.take(start),
        ),
        advances(
            events.update(start, EventKind::Open { kind }).push(EventKind::Close),
            events.len() as int + 1,
        ) == advances(events, events.len() as int),
{
    let updated = events.update(start, EventKind::Open { kind });
    let closed = updated.push(EventKind::Close);
    assert forall|k: int| 0 <= k <= events.len() implies #[trigger] level(closed, k) == level(
        events,
        k,
    ) by {
        lemma_update_open(events, start, kind, k);
        lemma_same_prefix(updated, closed, k);
    }
    lemma_update_open(events, start, kind, events.len() as int);
    lemma_same_prefix(updated, closed, events.len() as int);
    assert(level(events, start + 1) == level(events, start) + 1);
    assert(level(closed, events.len() as int + 1) == level(closed, events.len() as int) - 1);
    assert forall|k: int| start < k < events.len() as int + 1 implies #[trigger] level(closed, k)
        > level(closed, start) by {
        assert(level(events, k) >= level(events, start + 1));
    }
}

/// Putting an `Open` in before one tree leaves the `Open` and, behind it, a forest.
pub proof fn lemma_open_before(events: Seq<EventKind>, start: int)
    requires
        one_tree(events, start, events.len() as int),
    ensures
        forest(
            events.insert(start, EventKind::Open { kind: TreeKind::Error }),
            start + 1,
            events.len() as int + 1,
        ),
        events.insert(start, EventKind::Open { kind: TreeKind::Error })[start] is Open,
        advances(
            events.insert(start, EventKind::Open { kind: TreeKind::Error }),
            events.len() as int + 1,
        ) == advances(events, events.len() as int),
{
    let more = events.insert(start, EventKind::Open { kind: TreeKind::Error });
    assert forall|k: int| 0 <= k <= events.len() as int + 1 implies #[trigger] level(more, k) == (if k
        <= start {
        level(events, k)
    } else {
        level(events, k - 1) + 1
    }) by {
        lemma_insert_open(events, start, TreeKind::Error, k);
    }
    lemma_insert_open(events, start, TreeKind::Error, events.len() as int + 1);
    assert forall|k: int| start + 1 <= k <= events.len() as int + 1 implies #[trigger] level(more, k)
        >= level(more, start + 1) by {
        if k - 1 > start && k - 1 < events.len() {
            assert(level(events, k - 1) > level(events, start));
        }
    }
}

/// Events that are one whole tree fit together: the stack machine runs through all but
/// the closing event of the root and is left with the root alone.
pub proof fn lemma_run_levels(events: Seq<EventKind>, list: TokenSkipList, count: int)
    requires
        one_tree(events, 0, events.len() as int),
        advances(events, events.len() as int) <= list.code@.len(),
        0 <= count < events.len(),
    ensures
        run(events, list, count) matches Some(building) && building.stack.len() == level(
            events,
            count,
        ) && building.consumed == advances(events, count),
    decreases count,
{
    if count > 0 {
        lemma_run_levels(events, list, count - 1);
        let building = run(events, list, count - 1).unwrap();
        let event = events[count - 1];
        lemma_advances_grow(events, count, events.len() as int);
        lemma_advances_grow(events, count - 1, count - 1);
        if count - 1 > 0 {
            assert(level(events, count - 1) > level(events, 0));
        }
        assert(level(events, count) > level(events, 0));
        match event {
            EventKind::Open { kind } => {},
            EventKind::Close => {
                assert(building.stack.len() >= 2);
            },
            EventKind::Advance => {
                assert(count - 1 > 0);
                assert(building.stack.len() >= 1);
            },
        }
    }
}

/// Events that are one whole tree make a tree exactly when they consume every token.
pub proof fn lemma_tree_of(events: Seq<EventKind>, list: TokenSkipList)
    requires
        one_tree(events, 0, events.len() as int),
        advances(events, events.len() as int) <= list.code@.len(),
    ensures
        tree_of(events, list) is Some <==> advances(events, events.len() as int)
            == list.code@.len(),
{
    let n = events.len() as int;
    lemma_run_levels(events, list, n - 1);
    assert(level(events, n - 1) > level(events, 0));
    assert(level(events, n) == level(events, n - 1) + delta(events[n - 1]));
    assert(events[n - 1] == EventKind::Close);
    assert(events.last() == EventKind::Close);
}

/// The kinds of the events.
pub open spec fn kinds(events: Seq<Event>) -> Seq<EventKind> {
    Seq::new(events.len(), |i: int| events[i].kind)
}

/// What the trees hold.
pub open spec fn tree_views(trees: Seq<Tree>) -> Seq<TreeView> {
    Seq::new(trees.len(), |i: int| trees[i]@)
}

/// What a parser has done so far.
pub struct ParserView {
    /// Number of code tokens consumed.
    pub position: int,
    pub events: Seq<EventKind>,
    pub diagnostics: Seq<crate::diagnostic::DiagnosticView>,
}

impl Opened {
    /// Position of the event that opened the tree.
    pub closed spec fn index(&self) -> int {
        self.event_index as int
    }
}

impl Closed {
    /// Position of the event that opened the tree.
    pub closed spec fn index(&self) -> int {
        self.event_index as int
    }
}

impl<'s> View for Parser<'s> {
    type V = ParserView;

    closed spec fn view(&self) -> ParserView {
        ParserView {
            position: self.position as int,
            events: kinds(self.events@),
            diagnostics: views(self.diagnostics@),
        }
    }
}

impl<'s> Parser<'s> {
    /// The tokens that the parser reads.
    pub closed spec fn list(&self) -> TokenSkipList {
        self.tokens
    }

    /// The file that the tokens are of.
    pub closed spec fn file(&self) -> FileId {
        self.file_id
    }

    /// The sources that the file is one of.
    pub closed spec fn sources(&self) -> Sources {
        *self.sources
    }

    /// The bytes of the file.
    pub open spec fn source_bytes(&self) -> Seq<u8> {
        encode_utf8(self.sources()@[self.file().position()].source@)
    }

    /// Number of code tokens.
    pub open spec fn code_len(&self) -> int {
        self.list().code@.len() as int
    }

    /// The invariant of the parser: the skip list is well-formed, the file is one of the
    /// sources, and no more tokens were consumed than there are.
    pub closed spec fn wf(&self) -> bool {
        &&& self.tokens.wf()
        &&& self.file_id.position() < self.sources@.len()
        &&& self.position <= self.tokens.code@.len()
        &&& advances(kinds(self.events@), self.events@.len() as int) == self.position
    }

    /// What the invariant says of the state that contracts see.
    pub proof fn lemma_wf(&self)
        requires
            self.wf(),
        ensures
            self.list().wf(),
            0 <= self@.position <= self.code_len(),
            advances(self@.events, self@.events.len() as int) == self@.position,
    {
    }

    /// Number of code tokens that are not consumed yet.
    pub open spec fn remaining(&self) -> int {
        self.code_len() - self@.position
    }

    /// Whether this state comes after `before` in parsing the same input: nothing that
    /// was consumed or written down before is taken back.
    pub open spec fn follows(&self, before: &Self) -> bool {
        &&& self.same_input(before)
        &&& before@.position <= self@.position
        &&& extends(self@.events, before@.events)
        &&& before@.diagnostics.len() <= self@.diagnostics.len()
    }

    /// Whether another parser state reads the same tokens of the same file.
    pub open spec fn same_input(&self, other: &Self) -> bool {
        &&& self.list() == other.list()
        &&& self.file() == other.file()
        &&& self.sources() == other.sources()
    }

    /// The code token at `position`.
    pub open spec fn code_token(&self, position: int) -> Token {
        self.list().tokens@[self.list().code@[position] as int]
    }

    /// The token that the parser looks at: the current code token, or an end-of-file
    /// token behind the last one.
    pub open spec fn peeked(&self) -> Token {
        if self@.position < self.code_len() {
            self.code_token(self@.position)
        } else {
            Token {
                kind: TokenKind::EndOfFile,
                range: Range {
                    start: self.source_bytes().len() as usize,
                    end: self.source_bytes().len() as usize,
                },
            }
        }
    }

    /// Creates a new parser from the given source set and lexed+skipped tokens.
    pub fn new(sources: &'s Sources, file_id: FileId, tokens: TokenSkipList) -> (parser: Self)
        requires
            file_id.position() < sources@.len(),
            tokens.wf(),
        ensures
            parser.wf(),
            parser.list() == tokens,
            parser.file() == file_id,
            parser.sources() == *sources,
            parser@.position == 0,
            parser@.events == Seq::<EventKind>::empty(),
            parser@.diagnostics == Seq::<crate::diagnostic::DiagnosticView>::empty(),
    {
        let parser = Self {
            sources,
            file_id,
            tokens,
            position: 0,
            events: Vec::new(),
            diagnostics: Vec::new(),
        };
        assert(parser@.events =~= Seq::empty());
        assert(parser@.diagnostics =~= Seq::empty());
        parser
    }

    /// Begins constructing a new tree node.
    ///
    /// The `Opened` token must be used (passed into [`close`](Self::close)) before it goes
    /// out of scope. Otherwise no tree comes of the events.
    pub fn open(&mut self) -> (opened: Opened)
        requires
            old(self).wf(),
        ensures
            final(self).wf(),
            final(self).same_input(old(self)),
            final(self)@ == (ParserView {
                events: old(self)@.events.push(EventKind::Open { kind: TreeKind::Error }),
                ..old(self)@
            }),
            opened.index() == old(self)@.events.len(),
    {
        let opened = Opened { event_index: self.events.len() };
        self.events.push(Event { kind: EventKind::Open { kind: TreeKind::Error } });
        assert(self@.events =~= old(self)@.events.push(
            EventKind::Open { kind: TreeKind::Error },
        ));
        proof {
            lemma_same_prefix(old(self)@.events, self@.events, old(self)@.events.len() as int);
        }
        opened
    }

    /// Begins constructing a tree node around a closed one.
    pub fn open_before(&mut self, closed: Closed) -> (opened: Opened)
        requires
            old(self).wf(),
            closed.index() <= old(self)@.events.len(),
        ensures
            final(self).wf(),
            final(self).same_input(old(self)),
            final(self)@ == (ParserView {
                events: old(self)@.events.insert(
                    closed.index(),
                    EventKind::Open { kind: TreeKind::Error },
                ),
                ..old(self)@
            }),
            opened.index() == closed.index(),
    {
        let opened = Opened { event_index: closed.event_index };
        self.events.insert(
            opened.event_index,
            Event { kind: EventKind::Open { kind: TreeKind::Error } },
        );
        assert(self@.events =~= old(self)@.events.insert(
            closed.index(),
            EventKind::Open { kind: TreeKind::Error },
        ));
        proof {
            lemma_insert_open(
                old(self)@.events,
                closed.index(),
                TreeKind::Error,
                old(self)@.events.len() as int + 1,
            );
        }
        opened
    }

    /// Ends constructing a new tree node, and assigns it a tree kind.
    ///
    /// Note that the tree kind is not assigned until the node is fully parsed. This way
    /// later stages of the compilation pipeline can ignore nodes that failed to parse to
    /// the end.
    pub fn close(&mut self, opened: Opened, kind: TreeKind) -> (closed: Closed)
        requires
            old(self).wf(),
            opened.index() < old(self)@.events.len(),
            old(self)@.events[opened.index()] is Open,
        ensures
            final(self).wf(),
            final(self).same_input(old(self)),
            final(self)@ == (ParserView {
                events: old(self)@.events.update(opened.index(), EventKind::Open { kind }).push(
                    EventKind::Close,
                ),
                ..old(self)@
            }),
            closed.index() == opened.index(),
    {
        self.events.set(opened.event_index, Event { kind: EventKind::Open { kind } });
        self.events.push(Event { kind: EventKind::Close });
        assert(self@.events =~= old(self)@.events.update(
            opened.index(),
            EventKind::Open { kind },
        ).push(EventKind::Close));
        proof {
            let updated = old(self)@.events.update(opened.index(), EventKind::Open { kind });
            lemma_update_open(
                old(self)@.events,
                opened.index(),
                kind,
                old(self)@.events.len() as int,
            );
            lemma_same_prefix(updated, self@.events, updated.len() as int);
        }
        Closed { event_index: opened.event_index }
    }

    /// Advances by a single token.
    pub fn advance(&mut self)
        requires
            old(self).wf(),
            old(self)@.position < old(self).code_len(),
        ensures
            final(self).wf(),
            final(self).same_input(old(self)),
            final(self)@ == (ParserView {
                position: old(self)@.position + 1,
                events: old(self)@.events.push(EventKind::Advance),
                ..old(self)@
            }),
    {
        let count = self.tokens.code.len();
        self.events.push(Event { kind: EventKind::Advance });
        self.position += 1;
        assert(self@.events =~= old(self)@.events.push(EventKind::Advance));
        proof {
            lemma_same_prefix(old(self)@.events, self@.events, old(self)@.events.len() as int);
        }
    }

    /// Returns whether the parser is at the end of input.
    pub fn at_end(&self) -> (end: bool)
        ensures
            end == (self@.position >= self.code_len()),
    {
        self.position >= self.tokens.code.len()
    }

    /// Returns the [`Range`] that points to the end of the file.
    pub fn eof_range(&self) -> (range: Range<usize>)
        requires
            self.wf(),
        ensures
            range.start == self.source_bytes().len(),
            range.end == self.source_bytes().len(),
    {
        let len = self.sources.get(self.file_id).source.as_str().as_bytes().len();
        Range { start: len, end: len }
    }

    /// Constructs an [`EndOfFile`](TokenKind::EndOfFile) token at the
    /// [`eof_range`](Self::eof_range).
    pub fn eof_token(&self) -> (token: Token)
        requires
            self.wf(),
        ensures
            token.kind == TokenKind::EndOfFile,
            token.range.start == self.source_bytes().len(),
            token.range.end == self.source_bytes().len(),
    {
        Token { kind: TokenKind::EndOfFile, range: self.eof_range() }
    }

    /// Returns the current code token, or [`None`] if at the end of file.
    pub fn current(&self) -> (token: Option<&Token>)
        requires
            self.wf(),
        ensures
            match token {
                Some(token) => self@.position < self.code_len() && *token == self.code_token(
                    self@.position,
                ),
                None => self@.position >= self.code_len(),
            },
    {
        let count = self.tokens.tokens.len();
        proof {
            lemma_code_positions(self.tokens.tokens@);
        }
        self.tokens.get(self.position)
    }

    /// Peeks at the current code token and returns a copy of it. Returns
    /// [`eof_token`](Self::eof_token) at the end of the file.
    pub fn peek(&self) -> (token: Token)
        requires
            self.wf(),
        ensures
            token == self.peeked(),
    {
        match self.current() {
            Some(token) => token.copy(),
            None => self.eof_token(),
        }
    }

    /// Returns a [`SourceSpan`] representing the given range of characters in the file.
    pub fn span(&self, range: &Range<usize>) -> (span: SourceSpan)
        ensures
            span.file_id == self.file(),
            span.span == *range,
    {
        SourceSpan { file_id: self.file_id, span: Range { start: range.start, end: range.end } }
    }

    /// Returns the [`SourceSpan`] of the current token.
    pub fn current_span(&self) -> (span: SourceSpan)
        requires
            self.wf(),
        ensures
            span.file_id == self.file(),
            span.span == self.peeked().range,
    {
        let token = self.peek();
        SourceSpan { file_id: self.file_id, span: token.range }
    }

    /// The text of a token: what its range covers of the file, or nothing where the
    /// range does not lie on whole characters of the file.
    pub open spec fn text_of(&self, token: Token) -> Seq<char> {
        let span = SourceSpan { file_id: self.file(), span: token.range };
        if self.sources().covers(span) {
            decode_utf8(self.sources().span_bytes(span))
        } else {
            Seq::empty()
        }
    }

    /// Returns the token's text, or the empty text where the token does not lie on whole
    /// characters of the file.
    pub fn text(&self, token: &Token) -> (text: &str)
        requires
            self.wf(),
        ensures
            text@ == self.text_of(*token),
    {
        match self.sources.try_span(&self.span(&token.range)) {
            Some(text) => {
                proof {
                    vstd::utf8::encode_utf8_decode_utf8(text@);
                }
                text
            },
            None => {
                let empty = "";
                proof {
                    reveal_strlit("");
                }
                assert(empty@ =~= Seq::empty());
                empty
            },
        }
    }

    /// Returns whether the parser is at the given token.
    pub fn at(&self, kind: TokenKind) -> (at: bool)
        requires
            self.wf(),
        ensures
            at == (self.peeked().kind == kind),
    {
        self.peek().kind == kind
    }

    /// Eats a token of the given kind. Does not do advance if the current token is not of
    /// the given kind.
    pub fn eat(&mut self, kind: TokenKind) -> (eaten: bool)
        requires
            old(self).wf(),
        ensures
            final(self).wf(),
            final(self).same_input(old(self)),
            eaten == (old(self).peeked().kind == kind && old(self)@.position < old(self).code_len()),
            eaten ==> final(self)@ == (ParserView {
                position: old(self)@.position + 1,
                events: old(self)@.events.push(EventKind::Advance),
                ..old(self)@
            }),
            !eaten ==> final(self)@ == old(self)@,
    {
        if self.at(kind) && !self.at_end() {
            self.advance();
            true
        } else {
            false
        }
    }

    /// Expects that the next token will be of a given kind and eats it. Where it is of
    /// another kind, nothing is eaten and the span of that token comes back, for the
    /// diagnostic that the caller emits.
    pub fn expect(&mut self, kind: TokenKind) -> (found: Option<SourceSpan>)
        requires
            old(self).wf(),
        ensures
            final(self).wf(),
            final(self).same_input(old(self)),
            match found {
                None => {
                    &&& old(self).peeked().kind == kind
                    &&& old(self)@.position < old(self).code_len()
                    &&& final(self)@ == (ParserView {
                        position: old(self)@.position + 1,
                        events: old(self)@.events.push(EventKind::Advance),
                        ..old(self)@
                    })
                },
                Some(span) => {
                    &&& !(old(self).peeked().kind == kind && old(self)@.position < old(self).code_len())
                    &&& final(self)@ == old(self)@
                    &&& span.file_id == old(self).file()
                    &&& span.span == old(self).peeked().range
                },
            },
    {
        let span = self.current_span();
        if !self.eat(kind) {
            Some(span)
        } else {
            None
        }
    }

    /// The trivia between the code token before the current one and the current one; none
    /// at the end of input.
    pub open spec fn leading_trivia(&self) -> Seq<Token> {
        if self@.position < self.code_len() {
            self.list().tokens@.subrange(
                self.list().leading_start(self@.position),
                self.list().code@[self@.position] as int,
            )
        } else {
            Seq::empty()
        }
    }

    /// Returns the list of trivia tokens before the current token.
    pub fn preceding_trivia(&self) -> (trivia: &[Token])
        requires
            self.wf(),
        ensures
            trivia@ == self.leading_trivia(),
    {
        self.tokens.before(self.position)
    }

    /// Emits a diagnostic.
    pub fn emit(&mut self, diagnostic: Diagnostic)
        requires
            old(self).wf(),
        ensures
            final(self).wf(),
            final(self).same_input(old(self)),
            final(self)@ == (ParserView {
                diagnostics: old(self)@.diagnostics.push(diagnostic@),
                ..old(self)@
            }),
    {
        self.diagnostics.push(diagnostic);
        assert(self@.diagnostics =~= old(self)@.diagnostics.push(diagnostic@));
    }

    /// Constructs an error tree with the next token inside, or an empty one at the end of
    /// the input.
    pub fn advance_with_error(&mut self) -> (closed: Closed)
        requires
            old(self).wf(),
        ensures
            final(self).wf(),
            final(self).same_input(old(self)),
            closed.index() == old(self)@.events.len(),
            final(self)@.diagnostics == old(self)@.diagnostics,
            extends(final(self)@.events, old(self)@.events),
            one_tree(
                final(self)@.events,
                old(self)@.events.len() as int,
                final(self)@.events.len() as int,
            ),
            old(self)@.position < old(self).code_len() ==> final(self)@.position == old(self)@.position + 1 && final(self)@.events == old(self)@.events + seq![
                EventKind::Open { kind: TreeKind::Error },
                EventKind::Advance,
                EventKind::Close,
            ],
            old(self)@.position >= old(self).code_len() ==> final(self)@.position == old(self)@.position && final(self)@.events == old(self)@.events + seq![
                EventKind::Open { kind: TreeKind::Error },
                EventKind::Close,
            ],
    {
        let opened = self.open();
        if !self.at_end() {
            self.advance();
        }
        proof {
            let start = old(self)@.events.len() as int;
            let opened_events = old(self)@.events.push(EventKind::Open { kind: TreeKind::Error });
            lemma_tree_is_forest(opened_events, start + 1, start + 1);
            if old(self)@.position < old(self).code_len() {
                lemma_forest_advance(opened_events, start + 1);
            }
            lemma_close_tree(self@.events, start, TreeKind::Error);
        }
        let closed = self.close(opened, TreeKind::Error);
        assert(old(self)@.position < old(self).code_len() ==> self@.events =~= old(self)@.events + seq![
            EventKind::Open { kind: TreeKind::Error },
            EventKind::Advance,
            EventKind::Close,
        ]);
        assert(old(self)@.position >= old(self).code_len() ==> self@.events =~= old(self)@.events + seq![EventKind::Open { kind: TreeKind::Error }, EventKind::Close]);
        closed
    }
}


/// Putting children behind the innermost tree in two goes is putting them there in one.
pub proof fn lemma_extended_twice(
    stack: Seq<TreeView>,
    first: Seq<ChildView>,
    second: Seq<ChildView>,
)
    requires
        stack.len() >= 1,
    ensures
        extended(extended(stack, first), second) == extended(stack, first + second),
        extended(stack, Seq::empty()) == stack,
{
    let once = extended(stack, first);
    assert(once.last().children + second =~= stack.last().children + (first + second));
    assert(extended(once, second) =~= extended(stack, first + second));
    assert(stack.last().children + Seq::<ChildView>::empty() =~= stack.last().children);
    assert(extended(stack, Seq::empty()) =~= stack);
}

/// Puts `child` behind the children of the innermost tree.
fn adopt(stack: &mut Vec<Tree>, child: Child)
    requires
        old(stack)@.len() >= 1,
    ensures
        final(stack)@.len() == old(stack)@.len(),
        tree_views(final(stack)@) == extended(tree_views(old(stack)@), seq![child@]),
{
    let last = stack.len() - 1;
    let ghost before = stack@[last as int];
    stack[last].children.push(child);
    proof {
        lemma_tree_view(before);
        lemma_tree_view(stack@[last as int]);
        let after = stack@[last as int];
        assert(after@.children =~= before@.children + seq![child@]);
        assert(tree_views(stack@) =~= extended(tree_views(old(stack)@), seq![child@]));
    }
}

/// Puts copies of `tokens` behind the children of the innermost tree.
fn adopt_tokens(stack: &mut Vec<Tree>, tokens: &[Token])
    requires
        old(stack)@.len() >= 1,
    ensures
        final(stack)@.len() == old(stack)@.len(),
        tree_views(final(stack)@) == extended(tree_views(old(stack)@), token_children(tokens@)),
{
    let mut i: usize = 0;
    proof {
        lemma_extended_twice(tree_views(stack@), Seq::empty(), Seq::empty());
        assert(token_children(tokens@.subrange(0, 0)) =~= Seq::empty());
    }
    while i < tokens.len()
        invariant
            i <= tokens@.len(),
            stack@.len() == old(stack)@.len(),
            old(stack)@.len() >= 1,
            tree_views(stack@) == extended(
                tree_views(old(stack)@),
                token_children(tokens@.subrange(0, i as int)),
            ),
        decreases tokens@.len() - i,
    {
        let ghost before = tree_views(stack@);
        let child = Child::Token(tokens[i].copy());
        adopt(stack, child);
        proof {
            lemma_extended_twice(
                tree_views(old(stack)@),
                token_children(tokens@.subrange(0, i as int)),
                seq![child@],
            );
            assert(token_children(tokens@.subrange(0, i as int)) + seq![child@]
                =~= token_children(tokens@.subrange(0, i + 1)));
        }
        i += 1;
    }
    assert(tokens@.subrange(0, tokens@.len() as int) =~= tokens@);
}

impl<'s> Parser<'s> {
    /// Turns the flat list of parsed events into a [`Tree`].
    ///
    /// There is a tree only if the events fit together: every tree that was opened was
    /// closed, tokens were consumed inside of trees only, the last event closes the root,
    /// and every code token was consumed.
    pub fn into_tree(self) -> (tree: Option<Tree>)
        requires
            self.wf(),
        ensures
            match tree {
                Some(tree) => tree_of(self@.events, self.list()) == Some(tree@),
                None => tree_of(self@.events, self.list()) is None,
            },
            one_tree(self@.events, 0, self@.events.len() as int) ==> (tree is Some
                <==> self@.position == self.code_len()),
    {
        proof {
            if one_tree(self@.events, 0, self@.events.len() as int) {
                lemma_tree_of(self@.events, self.list());
            }
        }
        let ghost all = self@.events;
        let ghost list = self.list();
        let tokens = self.tokens;
        let events = self.events;
        let count = events.len();
        if count == 0 {
            return None;
        }
        match events[count - 1].kind {
            EventKind::Close => {},
            _ => {
                return None;
            },
        }
        let mut stack: Vec<Tree> = Vec::new();
        let mut consumed: usize = 0;
        let mut i: usize = 0;
        assert(tree_views(stack@) =~= Seq::empty());
        while i < count - 1
            invariant
                all == self@.events,
                list == self.list(),
                one_tree(all, 0, all.len() as int) ==> (tree_of(all, list) is Some
                    <==> self@.position == self.code_len()),
                all == kinds(events@),
                list == tokens,
                list.wf(),
                count == events@.len(),
                count > 0,
                i <= count - 1,
                consumed <= tokens.code@.len(),
                run(all, list, i as int) == Some(
                    Building { stack: tree_views(stack@), consumed: consumed as int },
                ),
            decreases count - i,
        {
            let ghost building = Building {
                stack: tree_views(stack@),
                consumed: consumed as int,
            };
            assert(all[i as int] == events@[i as int].kind);
            assert(run(all, list, i + 1) == step(building, all[i as int], list));
            match events[i].kind {
                EventKind::Open { kind } => {
                    stack.push(Tree { kind, children: Vec::new() });
                    proof {
                        let made = stack@[stack@.len() - 1];
                        lemma_tree_view(made);
                        assert(made@.children =~= Seq::empty());
                        assert(tree_views(stack@) =~= building.stack.push(
                            TreeView { kind, children: Seq::empty() },
                        ));
                    }
                },
                EventKind::Close => {
                    if stack.len() < 2 {
                        proof {
                            assert(run(all, list, i + 1) is None);
                            lemma_run_fails(all, list, i + 1, count - 1);
                        }
                        return None;
                    }
                    let tree = stack.pop().unwrap();
                    assert(tree_views(stack@) =~= building.stack.drop_last());
                    assert(tree@ == building.stack.last());
                    adopt(&mut stack, Child::Tree(tree));
                },
                EventKind::Advance => {
                    if stack.len() == 0 || consumed >= tokens.code.len() {
                        proof {
                            assert(run(all, list, i + 1) is None);
                            lemma_run_fails(all, list, i + 1, count - 1);
                        }
                        return None;
                    }
                    let total = tokens.tokens.len();
                    proof {
                        lemma_code_positions(tokens.tokens@);
                    }
                    let token = tokens.tokens[tokens.code[consumed]].copy();
                    let (leading, trailing) = tokens.trivia(consumed);
                    adopt(&mut stack, Child::Token(token));
                    let ghost first = tree_views(stack@);
                    adopt_tokens(&mut stack, leading);
                    let ghost second = tree_views(stack@);
                    adopt_tokens(&mut stack, trailing);
                    proof {
                        lemma_extended_twice(
                            building.stack,
                            seq![ChildView::Token(token)],
                            token_children(leading@),
                        );
                        lemma_extended_twice(
                            building.stack,
                            seq![ChildView::Token(token)] + token_children(leading@),
                            token_children(trailing@),
                        );
                        assert(token_children(Seq::<Token>::empty()) =~= Seq::empty());
                    }
                    consumed += 1;
                },
            }
            i += 1;
        }
        if stack.len() != 1 || consumed != tokens.code.len() {
            return None;
        }
        stack.pop()
    }
}

} // verus!
