//! Rich, structured diagnostic message support, inspired by rustc.

pub mod files;

use crate::source_code::SourceSpan;
use vstd::prelude::*;
use vstd::std_specs::cmp::PartialEqSpecImpl;

verus! {

/// Diagnostic severity.
#[derive(Debug, Clone, Copy, PartialEq, Eq, PartialOrd, Ord, Structural)]
pub enum Severity {
    /// Compiler bug.
    Bug,
    /// Compilation error. Archives not emitted.
    Error,
    /// Compilation warning. Does not prevent running the program, but continuous
    /// integration suites should not allow for submissions to the source repository if
    /// warnings are present.
    Warning,
    /// Note attached to another diagnostic.
    Note,
    /// Piece of help attached to another diagnostic.
    Help,
}

/// Importance of a label.
#[derive(Debug, Clone, Copy, PartialEq, Eq, PartialOrd, Ord, Structural)]
pub enum Importance {
    /// Shows where the exact error is.
    Primary,
    /// Points to extra context information about the error.
    Secondary,
}

/// Labels are a way of attaching spans of source code to diagnostics.
#[derive(Debug, Clone, PartialEq, Eq)]
pub struct Label {
    pub importance: Importance,
    pub source_span: SourceSpan,
    /// Optional message; can be empty, and should not contain newlines to render properly.
    pub message: String,
}

/// The kind of a note attached to a diagnostic.
#[derive(Debug, Clone, Copy, PartialEq, Eq, Structural)]
pub enum NoteKind {
    /// Contextual information that may not be noteworthy. Has no prefix.
    Context,
    /// Something noteworthy. Has a more attention-grabbing `note:` prefix.
    Note,
}

/// Note attached to a diagnostic. Notes render below diagnostics and provide additional
/// information that is independent of source code.
#[derive(Debug, Clone, PartialEq, Eq)]
pub struct Note {
    pub kind: NoteKind,
    pub message: String,
}

/// A structured diagnostic.
#[derive(Debug)]
pub struct Diagnostic {
    /// Severity of this diagnostic.
    pub severity: Severity,
    /// Message attached to this diagnostic. This should be a short summary of what the
    /// diagnostic is about, containing key information for identifying the issue.
    ///
    /// The message is the only part of a diagnostic that is guaranteed to be shown.
    /// Any extra information may be omitted depending on what the environment allows.
    /// All other parts of the diagnostic should be written with that in mind.
    pub message: String,
    /// Labels attached to the diagnostic, identifying spans of source code the diagnostic
    /// should point to.
    pub labels: Vec<Label>,
    /// Notes attached to the diagnostic. These are not attached to any source code, but
    /// provide extra insights as to why the diagnostic was emitted, and what can be done
    /// to fix it.
    pub notes: Vec<Note>,
    /// Child diagnostics. These are emitted along with this diagnostic and should be
    /// considered extensions of what this diagnostic has to say.
    pub children: Vec<Diagnostic>,
}

/// Kind of output that should be rendered.
#[derive(Debug, Clone, Copy, PartialEq, Eq, Structural)]
pub enum Output {
    Plain,
    Colored,
}

/// What a label says: its importance, where it points, and its text.
pub struct LabelView {
    pub importance: Importance,
    pub file: int,
    pub start: int,
    pub end: int,
    pub message: Seq<char>,
}

/// What a note says: its kind and its text.
pub struct NoteView {
    pub kind: NoteKind,
    pub message: Seq<char>,
}

/// What a diagnostic says, with everything attached to it.
pub struct DiagnosticView {
    pub severity: Severity,
    pub message: Seq<char>,
    pub labels: Seq<LabelView>,
    pub notes: Seq<NoteView>,
    pub children: Seq<DiagnosticView>,
}

/// What `diagnostic` says, with everything attached to it.
pub open spec fn diagnostic_view(diagnostic: Diagnostic) -> DiagnosticView
    decreases diagnostic,
{
    DiagnosticView {
        severity: diagnostic.severity,
        message: diagnostic.message@,
        labels: diagnostic.labels@.map_values(|label: Label| label@),
        notes: diagnostic.notes@.map_values(|note: Note| note@),
        children: Seq::new(
            diagnostic.children@.len(),
            |i: int|
                if 0 <= i < diagnostic.children@.len() {
                    diagnostic_view(diagnostic.children@[i])
                } else {
                    arbitrary()
                },
        ),
    }
}

impl View for Diagnostic {
    type V = DiagnosticView;

    open spec fn view(&self) -> DiagnosticView {
        diagnostic_view(*self)
    }
}

/// The view of a diagnostic, one level down.
pub proof fn lemma_diagnostic_view(diagnostic: Diagnostic)
    ensures
        diagnostic@.severity == diagnostic.severity,
        diagnostic@.message == diagnostic.message@,
        diagnostic@.labels == diagnostic.labels@.map_values(|label: Label| label@),
        diagnostic@.notes == diagnostic.notes@.map_values(|note: Note| note@),
        diagnostic@.children.len() == diagnostic.children@.len(),
        forall|i: int|
            0 <= i < diagnostic.children@.len() ==> #[trigger] diagnostic@.children[i]
                == diagnostic.children@[i]@,
{
}

impl View for Label {
    type V = LabelView;

    open spec fn view(&self) -> LabelView {
        LabelView {
            importance: self.importance,
            file: self.source_span.file_id.position(),
            start: self.source_span.span.start as int,
            end: self.source_span.span.end as int,
            message: self.message@,
        }
    }
}

impl View for Note {
    type V = NoteView;

    open spec fn view(&self) -> NoteView {
        NoteView { kind: self.kind, message: self.message@ }
    }
}

impl Importance {
    /// Construct a label of this importance.
    pub fn label(self, source_span: SourceSpan, message: &str) -> (label: Label)
        ensures
            label.importance == self,
            label.source_span == source_span,
            label.message@ == message@,
    {
        Label { importance: self, source_span, message: message.to_owned() }
    }
}

/// Construct a [`Note`] more conveniently.
pub fn note(kind: NoteKind, message: &str) -> (note: Note)
    ensures
        note.kind == kind,
        note.message@ == message@,
{
    Note { kind, message: message.to_owned() }
}

impl Note {
    /// The note as it is rendered: its message, behind `note: ` if it is noteworthy.
    pub fn rendered(&self) -> (text: String)
        ensures
            text@ == (match self.kind {
                NoteKind::Context => self.message@,
                NoteKind::Note => "note: "@ + self.message@,
            }),
    {
        match self.kind {
            NoteKind::Context => self.message.clone(),
            NoteKind::Note => {
                let mut text = "note: ".to_owned();
                crate::text::push_str(&mut text, self.message.as_str());
                text
            },
        }
    }
}

impl Severity {
    /// Construct a diagnostic with this severity and a message.
    pub fn diagnostic(self, message: &str) -> (diagnostic: Diagnostic)
        ensures
            diagnostic.severity == self,
            diagnostic.message@ == message@,
            diagnostic.labels@.len() == 0,
            diagnostic.notes@.len() == 0,
            diagnostic.children@.len() == 0,
    {
        Diagnostic {
            severity: self,
            message: message.to_owned(),
            labels: Vec::new(),
            notes: Vec::new(),
            children: Vec::new(),
        }
    }
}

/// What is rendered for `diagnostic` before its child at `count`: the diagnostic itself,
/// then all that is rendered for each of the children before that one, in turn.
pub open spec fn rendered_before(diagnostic: Diagnostic, count: nat) -> Seq<Diagnostic>
    decreases diagnostic, count,
{
    if count == 0 || count > diagnostic.children@.len() {
        seq![diagnostic]
    } else {
        rendered_before(diagnostic, (count - 1) as nat) + in_order(
            diagnostic.children@[count - 1],
        )
    }
}

/// All that is rendered for `diagnostic`, in the order of rendering: a diagnostic stands
/// before its children, and all that belongs to a child before the next child.
pub open spec fn in_order(diagnostic: Diagnostic) -> Seq<Diagnostic>
    decreases diagnostic, diagnostic.children@.len() + 1,
{
    rendered_before(diagnostic, diagnostic.children@.len())
}

/// All that is rendered for `diagnostics`, in the order of rendering.
pub open spec fn all_in_order(diagnostics: Seq<Diagnostic>) -> Seq<Diagnostic>
    decreases diagnostics.len(),
{
    if diagnostics.len() == 0 {
        Seq::empty()
    } else {
        all_in_order(diagnostics.drop_last()) + in_order(diagnostics.last())
    }
}

/// The diagnostics that `order` points to.
pub open spec fn pointed(order: Seq<&Diagnostic>) -> Seq<Diagnostic> {
    order.map_values(|diagnostic: &Diagnostic| *diagnostic)
}

/// Puts all that is rendered for `diagnostic` behind `order`.
fn put_in_order<'a>(diagnostic: &'a Diagnostic, order: &mut Vec<&'a Diagnostic>)
    ensures
        pointed(final(order)@) == pointed(old(order)@) + in_order(*diagnostic),
    decreases diagnostic,
{
    order.push(diagnostic);
    assert(pointed(order@) =~= pointed(old(order)@) + rendered_before(*diagnostic, 0));
    let mut i: usize = 0;
    while i < diagnostic.children.len()
        invariant
            i <= diagnostic.children@.len(),
            pointed(order@) == pointed(old(order)@) + rendered_before(*diagnostic, i as nat),
        decreases diagnostic.children@.len() - i,
    {
        put_in_order(&diagnostic.children[i], order);
        assert(pointed(order@) =~= pointed(old(order)@) + rendered_before(
            *diagnostic,
            (i + 1) as nat,
        ));
        i += 1;
    }
}

/// The diagnostics in the order in which they are rendered: each before its children,
/// and all that belongs to one before the next.
pub fn rendering_order(diagnostics: &[Diagnostic]) -> (order: Vec<&Diagnostic>)
    ensures
        pointed(order@) == all_in_order(diagnostics@),
{
    let mut order: Vec<&Diagnostic> = Vec::new();
    let mut i: usize = 0;
    assert(diagnostics@.subrange(0, 0) =~= Seq::empty());
    assert(pointed(order@) =~= all_in_order(diagnostics@.subrange(0, 0)));
    while i < diagnostics.len()
        invariant
            i <= diagnostics@.len(),
            pointed(order@) == all_in_order(diagnostics@.subrange(0, i as int)),
        decreases diagnostics@.len() - i,
    {
        put_in_order(&diagnostics[i], &mut order);
        proof {
            let next = diagnostics@.subrange(0, i + 1);
            assert(next.drop_last() =~= diagnostics@.subrange(0, i as int));
            assert(next.last() == diagnostics@[i as int]);
        }
        i += 1;
    }
    assert(diagnostics@.subrange(0, diagnostics@.len() as int) =~= diagnostics@);
    order
}

/// Whether two labels say the same.
fn same_label(a: &Label, b: &Label) -> (same: bool)
    ensures
        same == (a@ == b@),
{
    let same_importance = match (a.importance, b.importance) {
        (Importance::Primary, Importance::Primary) => true,
        (Importance::Secondary, Importance::Secondary) => true,
        _ => false,
    };
    same_importance && a.source_span.file_id.index() == b.source_span.file_id.index()
        && a.source_span.span.start == b.source_span.span.start && a.source_span.span.end
        == b.source_span.span.end && a.message == b.message
}

/// Whether two notes say the same.
fn same_note(a: &Note, b: &Note) -> (same: bool)
    ensures
        same == (a@ == b@),
{
    let same_kind = match (a.kind, b.kind) {
        (NoteKind::Context, NoteKind::Context) => true,
        (NoteKind::Note, NoteKind::Note) => true,
        _ => false,
    };
    same_kind && a.message == b.message
}

/// Whether two diagnostics say the same, with everything attached to them.
fn same_diagnostic(a: &Diagnostic, b: &Diagnostic) -> (same: bool)
    ensures
        same == (a@ == b@),
    decreases a,
{
    let same_severity = match (a.severity, b.severity) {
        (Severity::Bug, Severity::Bug) => true,
        (Severity::Error, Severity::Error) => true,
        (Severity::Warning, Severity::Warning) => true,
        (Severity::Note, Severity::Note) => true,
        (Severity::Help, Severity::Help) => true,
        _ => false,
    };
    proof {
        lemma_diagnostic_view(*a);
        lemma_diagnostic_view(*b);
    }
    if !same_severity || a.message != b.message || a.labels.len() != b.labels.len()
        || a.notes.len() != b.notes.len() || a.children.len() != b.children.len() {
        assert(a@.labels.len() == a.labels@.len());
        assert(b@.labels.len() == b.labels@.len());
        assert(a@.notes.len() == a.notes@.len());
        assert(b@.notes.len() == b.notes@.len());
        assert(a@.children.len() == a.children@.len());
        assert(b@.children.len() == b.children@.len());
        return false;
    }
    let mut i: usize = 0;
    while i < a.labels.len()
        invariant
            i <= a.labels@.len(),
            a.labels@.len() == b.labels@.len(),
            forall|j: int| 0 <= j < i ==> (#[trigger] a.labels@[j])@ == b.labels@[j]@,
        decreases a.labels@.len() - i,
    {
        if !same_label(&a.labels[i], &b.labels[i]) {
            assert(a@.labels[i as int] == a.labels@[i as int]@);
            assert(b@.labels[i as int] == b.labels@[i as int]@);
            return false;
        }
        i += 1;
    }
    let mut i: usize = 0;
    while i < a.notes.len()
        invariant
            i <= a.notes@.len(),
            a.notes@.len() == b.notes@.len(),
            forall|j: int| 0 <= j < i ==> (#[trigger] a.notes@[j])@ == b.notes@[j]@,
        decreases a.notes@.len() - i,
    {
        if !same_note(&a.notes[i], &b.notes[i]) {
            assert(a@.notes[i as int] == a.notes@[i as int]@);
            assert(b@.notes[i as int] == b.notes@[i as int]@);
            return false;
        }
        i += 1;
    }
    let mut i: usize = 0;
    while i < a.children.len()
        invariant
            i <= a.children@.len(),
            a.children@.len() == b.children@.len(),
            forall|j: int| 0 <= j < i ==> (#[trigger] a.children@[j])@ == b.children@[j]@,
        decreases a.children@.len() - i,
    {
        if !same_diagnostic(&a.children[i], &b.children[i]) {
            assert(a@.children[i as int] == a.children@[i as int]@);
            assert(b@.children[i as int] == b.children@[i as int]@);
            return false;
        }
        i += 1;
    }
    assert(a@.labels =~= b@.labels);
    assert(a@.notes =~= b@.notes);
    assert(a@.children =~= b@.children);
    true
}

/// A copy of a label.
fn copy_label(label: &Label) -> (copy: Label)
    ensures
        copy@ == label@,
{
    Label {
        importance: label.importance,
        source_span: label.source_span.clone(),
        message: label.message.clone(),
    }
}

/// A copy of a note.
fn copy_note(note: &Note) -> (copy: Note)
    ensures
        copy@ == note@,
{
    Note { kind: note.kind, message: note.message.clone() }
}

/// A copy of a diagnostic, with everything attached to it.
fn copy_diagnostic(d: &Diagnostic) -> (copy: Diagnostic)
    ensures
        copy@ == d@,
    decreases d,
{
    let mut labels: Vec<Label> = Vec::new();
    let mut i: usize = 0;
    while i < d.labels.len()
        invariant
            i <= d.labels@.len(),
            labels@.len() == i,
            forall|j: int| 0 <= j < i ==> (#[trigger] labels@[j])@ == d.labels@[j]@,
        decreases d.labels@.len() - i,
    {
        labels.push(copy_label(&d.labels[i]));
        i += 1;
    }
    let mut notes: Vec<Note> = Vec::new();
    let mut i: usize = 0;
    while i < d.notes.len()
        invariant
            i <= d.notes@.len(),
            notes@.len() == i,
            forall|j: int| 0 <= j < i ==> (#[trigger] notes@[j])@ == d.notes@[j]@,
        decreases d.notes@.len() - i,
    {
        notes.push(copy_note(&d.notes[i]));
        i += 1;
    }
    let mut children: Vec<Diagnostic> = Vec::new();
    let mut i: usize = 0;
    while i < d.children.len()
        invariant
            i <= d.children@.len(),
            children@.len() == i,
            forall|j: int| 0 <= j < i ==> (#[trigger] children@[j])@ == d.children@[j]@,
        decreases d.children@.len() - i,
    {
        children.push(copy_diagnostic(&d.children[i]));
        i += 1;
    }
    let copy = Diagnostic {
        severity: d.severity,
        message: d.message.clone(),
        labels,
        notes,
        children,
    };
    proof {
        lemma_diagnostic_view(copy);
        lemma_diagnostic_view(*d);
        assert(copy@.labels =~= d@.labels);
        assert(copy@.notes =~= d@.notes);
        assert(copy@.children =~= d@.children);
    }
    copy
}

impl Clone for Diagnostic {
    fn clone(&self) -> (copy: Self)
        ensures
            copy@ == self@,
    {
        copy_diagnostic(self)
    }
}

impl PartialEq for Diagnostic {
    fn eq(&self, other: &Self) -> (same: bool) {
        same_diagnostic(self, other)
    }
}

impl Eq for Diagnostic {

}

impl PartialEqSpecImpl for Diagnostic {
    open spec fn obeys_eq_spec() -> bool {
        true
    }

    open spec fn eq_spec(&self, other: &Self) -> bool {
        self@ == other@
    }
}

impl Diagnostic {
    /// Add a label to this diagnostic.
    pub fn with_label(self, label: Label) -> (diagnostic: Self)
        ensures
            diagnostic.labels@ == self.labels@.push(label),
            diagnostic.severity == self.severity,
            diagnostic.message == self.message,
            diagnostic.notes == self.notes,
            diagnostic.children == self.children,
    {
        let mut diagnostic = self;
        diagnostic.labels.push(label);
        diagnostic
    }

    /// Add a note to this diagnostic.
    pub fn with_note(self, note: Note) -> (diagnostic: Self)
        ensures
            diagnostic.notes@ == self.notes@.push(note),
            diagnostic.severity == self.severity,
            diagnostic.message == self.message,
            diagnostic.labels == self.labels,
            diagnostic.children == self.children,
    {
        let mut diagnostic = self;
        diagnostic.notes.push(note);
        diagnostic
    }

    /// Add a child to this diagnostic.
    pub fn with_child(self, child: Diagnostic) -> (diagnostic: Self)
        ensures
            diagnostic.children@ == self.children@.push(child),
            diagnostic.severity == self.severity,
            diagnostic.message == self.message,
            diagnostic.labels == self.labels,
            diagnostic.notes == self.notes,
    {
        let mut diagnostic = self;
        diagnostic.children.push(child);
        diagnostic
    }
}

} // verus!
