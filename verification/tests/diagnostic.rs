use rokugo::diagnostic::files::{DiagnosableSources, LineError};
use rokugo::diagnostic::{note, Diagnostic, Importance, NoteKind, Severity};
use rokugo::source_code::{File, SourceSpan, Sources};

fn sources() -> (Sources, rokugo::source_code::FileId, rokugo::source_code::FileId) {
    let mut sources = Sources::default();
    let a = sources.add(File {
        filename: "a.rk".into(),
        source: "one\ntwo\n\nłour".into(),
    });
    let b = sources.add(File {
        filename: "b.rk".into(),
        source: "".into(),
    });
    (sources, a, b)
}

#[test]
fn builders_attach_in_order() {
    let (_, a, _) = sources();
    let diagnostic = Severity::Warning
        .diagnostic("message")
        .with_label(Importance::Primary.label(a.span(0..3), "first"))
        .with_label(Importance::Secondary.label(a.span(4..7), "second"))
        .with_note(note(NoteKind::Context, "context"))
        .with_child(Severity::Help.diagnostic("help"));
    assert_eq!(diagnostic.severity, Severity::Warning);
    assert_eq!(diagnostic.message, "message");
    assert_eq!(diagnostic.labels.len(), 2);
    assert_eq!(diagnostic.labels[0].importance, Importance::Primary);
    assert_eq!(diagnostic.labels[1].message, "second");
    assert_eq!(diagnostic.labels[1].source_span, SourceSpan { file_id: a, span: 4..7 });
    assert_eq!(diagnostic.notes, vec![note(NoteKind::Context, "context")]);
    assert_eq!(diagnostic.children, vec![Severity::Help.diagnostic("help")]);
    let copy = diagnostic.clone();
    assert_eq!(copy, diagnostic);
    assert_ne!(copy, copy.clone().with_note(note(NoteKind::Note, "more")));
    assert_ne!(
        Severity::Help.diagnostic("a").with_child(Severity::Help.diagnostic("b")),
        Severity::Help.diagnostic("a").with_child(Severity::Help.diagnostic("c"))
    );
}

#[test]
fn spans_of_sources() {
    let (sources, a, b) = sources();
    assert_eq!(sources.span(&a.span(4..7)), "two");
    assert_eq!(sources.try_span(&a.span(9..11)), Some("ł"));
    assert_eq!(sources.try_span(&a.span(10..11)), None);
    assert_eq!(sources.try_span(&a.span(9..30)), None);
    assert_eq!(sources.try_span(&b.span(0..0)), Some(""));
    assert!(sources.contains(b));
    assert_eq!(sources.get(a).filename, "a.rk");
    assert_eq!(a.index(), 0);
}

#[test]
fn lines_of_diagnosable_sources() {
    let (sources, a, b) = sources();
    let diagnostics: Vec<Diagnostic> = vec![
        Severity::Error
            .diagnostic("x")
            .with_label(Importance::Primary.label(a.span(0..1), ""))
            .with_label(Importance::Primary.label(b.span(0..0), "")),
        Severity::Error.diagnostic("y"),
    ];
    let files = DiagnosableSources::new(&sources, &diagnostics);
    assert_eq!(files.name(a), "a.rk");
    assert_eq!(files.source(b), "");
    assert_eq!(files.line_count(a), 4);
    assert_eq!(files.line_count(b), 1);
    assert_eq!(files.line_start(a, 0), Ok(0));
    assert_eq!(files.line_start(a, 1), Ok(4));
    assert_eq!(files.line_start(a, 2), Ok(8));
    assert_eq!(files.line_start(a, 3), Ok(9));
    assert_eq!(files.line_start(a, 4), Ok(14));
    assert_eq!(
        files.line_start(a, 5),
        Err(LineError::LineTooLarge { given: 5, max: 3 })
    );
    assert_eq!(files.line_index(a, 0), 0);
    assert_eq!(files.line_index(a, 3), 0);
    assert_eq!(files.line_index(a, 4), 1);
    assert_eq!(files.line_index(a, 8), 2);
    assert_eq!(files.line_index(a, 9), 3);
    assert_eq!(files.line_index(a, 500), 3);
    assert_eq!(files.line_index(b, 0), 0);
    assert_eq!(files.line_range(a, 1), Ok(4..8));
    assert_eq!(files.line_range(a, 3), Ok(9..14));
    assert_eq!(
        files.line_range(a, 4),
        Err(LineError::LineTooLarge { given: 5, max: 3 })
    );
    assert_eq!(files.line_range(b, 0), Ok(0..0));
}
