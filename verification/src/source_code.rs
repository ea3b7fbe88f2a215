//! Source code storage and handling.

use crate::text::slice;
use crate::text::sliceable;
use core::ops::Range;
use vstd::prelude::*;
use vstd::string::StringSliceAdditionalSpecFns;
use vstd::utf8::encode_utf8;

verus! {

/// Loaded source file.
#[derive(Debug, Clone)]
pub struct File {
    pub filename: String,
    pub source: String,
}

/// Unique identifier used to look up files inside [`Sources`].
///
/// The representation of this identifier is unspecified and may change between
/// compilations.
#[derive(Debug, Clone, Copy, PartialEq, Eq, Hash, Structural)]
pub struct FileId(usize);

/// Set of source files indexable by [`FileId`]s.
#[derive(Debug, Clone)]
pub struct Sources {
    files: Vec<File>,
}

/// Span of bytes inside of a source file.
#[derive(Debug, PartialEq, Eq)]
pub struct SourceSpan {
    pub file_id: FileId,
    pub span: Range<usize>,
}

impl FileId {
    /// Position of the file in its set.
    pub closed spec fn position(self) -> int {
        self.0 as int
    }

    /// The identifier of the file at `position`.
    pub closed spec fn at(position: usize) -> FileId {
        FileId(position)
    }

    /// Position of the file in its set, as a machine number.
    pub closed spec fn key(self) -> usize {
        self.0
    }

    /// The position of a file tells the file.
    pub proof fn lemma_key(self)
        ensures
            self.key() == self.position(),
            FileId::at(self.key()) == self,
    {
    }

    /// Position of the file in its set.
    pub fn index(self) -> (index: usize)
        ensures
            index == self.position(),
            index == self.key(),
            FileId::at(index) == self,
    {
        self.0
    }

    /// Constructs a [`SourceSpan`] at the given span of bytes in this file.
    pub fn span(self, span: Range<usize>) -> (source_span: SourceSpan)
        ensures
            source_span.file_id == self,
            source_span.span == span,
    {
        SourceSpan { file_id: self, span }
    }
}

impl Clone for SourceSpan {
    fn clone(&self) -> (copy: Self)
        ensures
            copy == *self,
    {
        SourceSpan {
            file_id: self.file_id,
            span: Range { start: self.span.start, end: self.span.end },
        }
    }
}

impl View for Sources {
    type V = Seq<File>;

    closed spec fn view(&self) -> Seq<File> {
        self.files@
    }
}

impl Sources {
    /// Add a source file to the set, returning its ID.
    pub fn add(&mut self, file: File) -> (id: FileId)
        ensures
            final(self)@ == old(self)@.push(file),
            id.position() == old(self)@.len(),
    {
        let id = FileId(self.files.len());
        self.files.push(file);
        id
    }

    /// Whether `id` is the ID of a file of this set.
    pub fn contains(&self, id: FileId) -> (known: bool)
        ensures
            known == (id.position() < self@.len()),
    {
        id.0 < self.files.len()
    }

    /// Get a source file from the set.
    pub fn get(&self, id: FileId) -> (file: &File)
        requires
            id.position() < self@.len(),
        ensures
            *file == self@[id.position()],
    {
        &self.files[id.0]
    }

    /// The bytes of the file `id`.
    pub open spec fn bytes(&self, id: FileId) -> Seq<u8> {
        encode_utf8(self@[id.position()].source@)
    }

    /// Whether `span` names a file of this set and a range of whole characters within it.
    pub open spec fn covers(&self, span: SourceSpan) -> bool {
        &&& span.file_id.position() < self@.len()
        &&& sliceable(self.bytes(span.file_id), span.span.start as int, span.span.end as int)
    }

    /// The bytes that `span` covers.
    pub open spec fn span_bytes(&self, span: SourceSpan) -> Seq<u8> {
        self.bytes(span.file_id).subrange(span.span.start as int, span.span.end as int)
    }

    /// The text that `span` covers, if it names a file of this set and a range of whole
    /// characters within it.
    pub fn try_span(&self, span: &SourceSpan) -> (text: Option<&str>)
        ensures
            text is Some == self.covers(*span),
            text matches Some(text) ==> text.spec_bytes() == self.span_bytes(*span),
    {
        if span.file_id.0 < self.files.len() {
            slice(self.files[span.file_id.0].source.as_str(), span.span.start, span.span.end)
        } else {
            None
        }
    }

    /// The text that `span` covers.
    pub fn span(&self, span: &SourceSpan) -> (text: &str)
        requires
            self.covers(*span),
        ensures
            text.spec_bytes() == self.span_bytes(*span),
    {
        match self.try_span(span) {
            Some(text) => text,
            None => "",
        }
    }
}

impl Default for Sources {
    fn default() -> (sources: Self)
        ensures
            sources@ == Seq::<File>::empty(),
    {
        Sources { files: Vec::new() }
    }
}

} // verus!
