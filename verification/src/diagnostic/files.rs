//! Sources preprocessed for emitting diagnostics: where the lines of each file start.

use crate::diagnostic::Diagnostic;
use crate::source_code::FileId;
use crate::source_code::Sources;
use core::ops::Range;
use std::collections::HashMap;
use vstd::prelude::*;
use vstd::string::StringSliceAdditionalSpecFns;

verus! {

/// Sources preprocessed for emitting diagnostics.
pub struct DiagnosableSources<'a> {
    sources: &'a Sources,
    line_starts: HashMap<usize, Vec<usize>>,
}

/// A line was asked for that the file does not have.
#[derive(Debug, Clone, Copy, PartialEq, Eq, Structural)]
pub enum LineError {
    /// The file does not contain the given line; `max` is the last line it has.
    LineTooLarge { given: usize, max: usize },
}

/// The positions behind the line feeds among the first `upto` bytes, in ascending order.
pub open spec fn after_line_feeds(bytes: Seq<u8>, upto: int) -> Seq<usize>
    decreases upto,
{
    if upto <= 0 {
        Seq::empty()
    } else if bytes[upto - 1] == '\n' as u8 {
        after_line_feeds(bytes, upto - 1).push(upto as usize)
    } else {
        after_line_feeds(bytes, upto - 1)
    }
}

/// Where the lines of a text start: at 0, and behind every line feed.
pub open spec fn line_starts_of(bytes: Seq<u8>) -> Seq<usize> {
    seq![0usize] + after_line_feeds(bytes, bytes.len() as int)
}

/// The positions behind line feeds ascend strictly, are positive and no more than `upto`.
pub proof fn lemma_after_line_feeds(bytes: Seq<u8>, upto: int)
    requires
        upto <= bytes.len() <= usize::MAX,
    ensures
        forall|i: int|
            0 <= i < after_line_feeds(bytes, upto).len() ==> 0 < #[trigger] after_line_feeds(
                bytes,
                upto,
            )[i] <= upto,
        forall|i: int, j: int|
            0 <= i < j < after_line_feeds(bytes, upto).len() ==> after_line_feeds(bytes, upto)[i]
                < after_line_feeds(bytes, upto)[j],
    decreases upto,
{
    if upto > 0 {
        lemma_after_line_feeds(bytes, upto - 1);
        let rest = after_line_feeds(bytes, upto - 1);
        let all = after_line_feeds(bytes, upto);
        assert forall|i: int| 0 <= i < all.len() implies 0 < #[trigger] all[i] <= upto by {
            if i < rest.len() {
                assert(all[i] == rest[i]);
            }
        }
        assert forall|i: int, j: int| 0 <= i < j < all.len() implies all[i] < all[j] by {
            assert(all[i] == rest[i]);
            if j < rest.len() {
                assert(all[j] == rest[j]);
            }
        }
    }
}

/// Line starts ascend strictly from 0 and lie within the text.
pub proof fn lemma_line_starts(bytes: Seq<u8>)
    requires
        bytes.len() <= usize::MAX,
    ensures
        line_starts_of(bytes).len() >= 1,
        line_starts_of(bytes)[0] == 0,
        forall|i: int|
            0 <= i < line_starts_of(bytes).len() ==> #[trigger] line_starts_of(bytes)[i]
                <= bytes.len(),
        forall|i: int, j: int|
            0 <= i < j < line_starts_of(bytes).len() ==> line_starts_of(bytes)[i]
                < line_starts_of(bytes)[j],
{
    lemma_after_line_feeds(bytes, bytes.len() as int);
    let tail = after_line_feeds(bytes, bytes.len() as int);
    let starts = line_starts_of(bytes);
    assert forall|i: int| 0 <= i < starts.len() implies #[trigger] starts[i] <= bytes.len() by {
        if i > 0 {
            assert(starts[i] == tail[i - 1]);
        }
    }
    assert forall|i: int, j: int| 0 <= i < j < starts.len() implies starts[i] < starts[j] by {
        assert(starts[j] == tail[j - 1]);
        if i > 0 {
            assert(starts[i] == tail[i - 1]);
        }
    }
}

/// Whether a label of one of the diagnostics points into `file`. Labels of children do
/// not count.
pub open spec fn labelled(diagnostics: Seq<Diagnostic>, file: FileId) -> bool {
    exists|i: int, j: int|
        0 <= i < diagnostics.len() && 0 <= j < diagnostics[i].labels@.len() && (
        #[trigger] diagnostics[i].labels@[j]).source_span.file_id == file
}

/// `codespan_reporting::files::line_starts`, collected: the byte positions at which the
/// lines of `source` start, which are 0 and the position behind every line feed.
#[verifier::external_body]
fn line_starts(source: &str) -> (starts: Vec<usize>)
    ensures
        starts@ == line_starts_of(source.spec_bytes()),
{
    codespan_reporting::files::line_starts(source).collect()
}

/// The line that `byte_index` lies in: the last one that starts at or before it.
pub open spec fn line_of(starts: Seq<usize>, byte_index: usize) -> int
    decreases starts.len(),
{
    if starts.len() <= 1 || starts.last() <= byte_index {
        starts.len() - 1
    } else {
        line_of(starts.drop_last(), byte_index)
    }
}

/// What [`line_of`] finds among ascending line starts.
pub proof fn lemma_line_of(starts: Seq<usize>, byte_index: usize)
    requires
        starts.len() >= 1,
        starts[0] == 0,
        forall|i: int, j: int| 0 <= i < j < starts.len() ==> starts[i] < starts[j],
    ensures
        0 <= line_of(starts, byte_index) < starts.len(),
        starts[line_of(starts, byte_index)] <= byte_index,
        forall|i: int|
            line_of(starts, byte_index) < i < starts.len() ==> byte_index < #[trigger] starts[i],
    decreases starts.len(),
{
    if !(starts.len() <= 1 || starts.last() <= byte_index) {
        let front = starts.drop_last();
        assert forall|i: int, j: int| 0 <= i < j < front.len() implies front[i] < front[j] by {
            assert(front[i] == starts[i]);
            assert(front[j] == starts[j]);
        }
        lemma_line_of(front, byte_index);
        assert forall|i: int| line_of(starts, byte_index) < i < starts.len() implies byte_index
            < #[trigger] starts[i] by {
            if i < front.len() {
                assert(front[i] == starts[i]);
            }
        }
    }
}

/// The last of ascending `starts` that is at or before `byte_index`, by bisection.
fn find_line(starts: &Vec<usize>, byte_index: usize) -> (line: usize)
    requires
        starts@.len() >= 1,
        starts@[0] == 0,
        forall|i: int, j: int| 0 <= i < j < starts@.len() ==> starts@[i] < starts@[j],
    ensures
        line == line_of(starts@, byte_index),
{
    proof {
        lemma_line_of(starts@, byte_index);
    }
    // Invariant: starts[low] <= byte_index, and starts[i] > byte_index from high on.
    let mut low: usize = 0;
    let mut high: usize = starts.len();
    while high - low > 1
        invariant
            low < high <= starts@.len(),
            starts@[low as int] <= byte_index,
            forall|i: int| high <= i < starts@.len() ==> byte_index < #[trigger] starts@[i],
            forall|i: int, j: int| 0 <= i < j < starts@.len() ==> starts@[i] < starts@[j],
        decreases high - low,
    {
        let middle = low + (high - low) / 2;
        if starts[middle] <= byte_index {
            low = middle;
        } else {
            high = middle;
            assert forall|i: int| high <= i < starts@.len() implies byte_index
                < #[trigger] starts@[i] by {
                if i > middle {
                    assert(starts@[middle as int] < starts@[i]);
                }
            }
        }
    }
    proof {
        let found = line_of(starts@, byte_index);
        if found < low {
            assert(byte_index < starts@[low as int]);
        }
        if found > low {
            assert(found >= high);
        }
    }
    low
}

impl<'a> DiagnosableSources<'a> {
    /// The sources.
    pub closed spec fn sources(&self) -> Sources {
        *self.sources
    }

    /// Whether the line starts of `file` are known.
    pub closed spec fn has(&self, file: FileId) -> bool {
        self.line_starts@.contains_key(file.key()) && file.position() < self.sources@.len()
    }

    /// The line starts of `file`.
    pub closed spec fn starts(&self, file: FileId) -> Seq<usize> {
        self.line_starts@[file.key()]@
    }

    /// Whether what is known of every file is where its lines start.
    pub closed spec fn wf(&self) -> bool {
        forall|key: usize| #[trigger]
            self.line_starts@.contains_key(key) ==> key < self.sources@.len()
                && self.line_starts@[key]@ == line_starts_of(self.sources.bytes(FileId::at(key)))
    }

    /// What [`wf`](Self::wf) says of a file whose line starts are known.
    pub proof fn lemma_starts(&self, file: FileId)
        requires
            self.wf(),
            self.has(file),
        ensures
            self.starts(file) == line_starts_of(self.sources().bytes(file)),
    {
        file.lemma_key();
        assert(self.line_starts@.contains_key(file.key()));
    }

    /// Creates [`DiagnosableSources`] from a set of diagnostics: the line starts of every
    /// file that a label of one of the diagnostics points into are worked out.
    pub fn new(sources: &'a Sources, diagnostics: &[Diagnostic]) -> (made: Self)
        requires
            forall|i: int, j: int|
                0 <= i < diagnostics@.len() && 0 <= j < diagnostics@[i].labels@.len() ==> (
                #[trigger] diagnostics@[i].labels@[j]).source_span.file_id.position()
                    < sources@.len(),
        ensures
            made.wf(),
            made.sources() == *sources,
            forall|file: FileId| #[trigger] made.has(file) <==> labelled(diagnostics@, file),
    {
        broadcast use vstd::std_specs::hash::group_hash_axioms;

        let mut diagnosable_sources = Self { sources, line_starts: HashMap::new() };
        let mut i: usize = 0;
        while i < diagnostics.len()
            invariant
                i <= diagnostics@.len(),
                diagnosable_sources.wf(),
                diagnosable_sources.sources == sources,
                forall|i: int, j: int|
                    0 <= i < diagnostics@.len() && 0 <= j < diagnostics@[i].labels@.len() ==> (
                    #[trigger] diagnostics@[i].labels@[j]).source_span.file_id.position()
                        < sources@.len(),
                forall|file: FileId| #[trigger]
                    diagnosable_sources.has(file) <==> labelled(
                        diagnostics@.subrange(0, i as int),
                        file,
                    ),
            decreases diagnostics@.len() - i,
        {
            let labels = &diagnostics[i].labels;
            let mut j: usize = 0;
            while j < labels.len()
                invariant
                    i < diagnostics@.len(),
                    labels == &diagnostics@[i as int].labels,
                    j <= labels@.len(),
                    diagnosable_sources.wf(),
                    diagnosable_sources.sources == sources,
                    forall|i: int, j: int|
                        0 <= i < diagnostics@.len() && 0 <= j < diagnostics@[i].labels@.len()
                            ==> (#[trigger] diagnostics@[i].labels@[j]).source_span.file_id.position()
                            < sources@.len(),
                    forall|file: FileId| #[trigger]
                        diagnosable_sources.has(file) <==> (labelled(
                            diagnostics@.subrange(0, i as int),
                            file,
                        ) || exists|l: int|
                            0 <= l < j && (#[trigger] labels@[l]).source_span.file_id == file),
                decreases labels@.len() - j,
            {
                let ghost before = diagnosable_sources;
                assert(diagnostics@[i as int].labels@[j as int] == labels@[j as int]);
                let file_id = labels[j].source_span.file_id;
                diagnosable_sources.add_line_starts(file_id);
                proof {
                    assert forall|file: FileId| #[trigger]
                        diagnosable_sources.has(file) <==> (labelled(
                            diagnostics@.subrange(0, i as int),
                            file,
                        ) || exists|l: int|
                            0 <= l < j + 1 && (#[trigger] labels@[l]).source_span.file_id
                                == file) by {
                        if file == file_id {
                            assert(labels@[j as int].source_span.file_id == file);
                        }
                        if before.has(file) && !labelled(diagnostics@.subrange(0, i as int), file) {
                            let l = choose|l: int|
                                0 <= l < j && (#[trigger] labels@[l]).source_span.file_id == file;
                            assert(labels@[l].source_span.file_id == file);
                        }
                    }
                }
                j += 1;
            }
            proof {
                let done = diagnostics@.subrange(0, i as int);
                let more = diagnostics@.subrange(0, i + 1);
                assert forall|file: FileId| #[trigger]
                    diagnosable_sources.has(file) <==> labelled(more, file) by {
                    if labelled(done, file) {
                        let (k, l) = choose|k: int, l: int|
                            0 <= k < done.len() && 0 <= l < done[k].labels@.len() && (
                            #[trigger] done[k].labels@[l]).source_span.file_id == file;
                        assert(more[k].labels@[l].source_span.file_id == file);
                    }
                    if exists|l: int|
                        0 <= l < labels@.len() && (#[trigger] labels@[l]).source_span.file_id
                            == file {
                        let l = choose|l: int|
                            0 <= l < labels@.len() && (#[trigger] labels@[l]).source_span.file_id
                                == file;
                        assert(more[i as int].labels@[l].source_span.file_id == file);
                    }
                    if labelled(more, file) {
                        let (k, l) = choose|k: int, l: int|
                            0 <= k < more.len() && 0 <= l < more[k].labels@.len() && (
                            #[trigger] more[k].labels@[l]).source_span.file_id == file;
                        if k < i {
                            assert(done[k].labels@[l].source_span.file_id == file);
                        } else {
                            assert(labels@[l].source_span.file_id == file);
                        }
                    }
                }
            }
            i += 1;
        }
        assert(diagnostics@.subrange(0, diagnostics@.len() as int) =~= diagnostics@);
        diagnosable_sources
    }

    /// Works out where the lines of a file start, unless that is known already.
    fn add_line_starts(&mut self, file_id: FileId)
        requires
            old(self).wf(),
            file_id.position() < old(self).sources@.len(),
        ensures
            final(self).wf(),
            final(self).sources == old(self).sources,
            forall|other: FileId| #[trigger]
                final(self).has(other) <==> old(self).has(other) || other == file_id,
    {
        broadcast use vstd::std_specs::hash::group_hash_axioms;

        let key = file_id.index();
        if !self.line_starts.contains_key(&key) {
            let starts = line_starts(self.sources.get(file_id).source.as_str());
            assert(FileId::at(key) == file_id);
            self.line_starts.insert(key, starts);
        }
        proof {
            assert forall|other: FileId| #[trigger]
                self.has(other) <==> old(self).has(other) || other == file_id by {
                other.lemma_key();
                file_id.lemma_key();
            }
        }
    }

    /// The name of a file.
    pub fn name(&self, id: FileId) -> (name: &str)
        requires
            id.position() < self.sources()@.len(),
        ensures
            name@ == self.sources()@[id.position()].filename@,
    {
        self.sources.get(id).filename.as_str()
    }

    /// The text of a file.
    pub fn source(&self, id: FileId) -> (source: &str)
        requires
            id.position() < self.sources()@.len(),
        ensures
            source@ == self.sources()@[id.position()].source@,
    {
        self.sources.get(id).source.as_str()
    }

    /// Where the line `line_index` of a file starts. The line behind the last one starts
    /// at the end of the file; there is no line behind that.
    pub fn line_start(&self, file_id: FileId, line_index: usize) -> (r: Result<usize, LineError>)
        requires
            self.wf(),
            self.has(file_id),
        ensures
            match r {
                Ok(start) => if line_index < self.starts(file_id).len() {
                    start == self.starts(file_id)[line_index as int]
                } else {
                    line_index == self.starts(file_id).len() && start == self.sources().bytes(
                        file_id,
                    ).len()
                },
                Err(LineError::LineTooLarge { given, max }) => {
                    &&& line_index > self.starts(file_id).len()
                    &&& given == line_index
                    &&& max == self.starts(file_id).len() - 1
                },
            },
    {
        broadcast use vstd::std_specs::hash::group_hash_axioms;

        let key = file_id.index();
        let source_len = self.sources.get(file_id).source.as_str().as_bytes().len();
        proof {
            self.lemma_starts(file_id);
            lemma_line_starts(self.sources().bytes(file_id));
        }
        match self.line_starts.get(&key) {
            Some(line_starts) => {
                if line_index < line_starts.len() {
                    Ok(line_starts[line_index])
                } else if line_index == line_starts.len() {
                    Ok(source_len)
                } else {
                    Err(LineError::LineTooLarge { given: line_index, max: line_starts.len() - 1 })
                }
            },
            None => Ok(source_len),
        }
    }

    /// Whether the line starts of `file` are known.
    pub fn knows(&self, file: FileId) -> (known: bool)
        ensures
            known == self.has(file),
    {
        broadcast use vstd::std_specs::hash::group_hash_axioms;

        let key = file.index();
        self.sources.contains(file) && self.line_starts.contains_key(&key)
    }

    /// Number of lines of a file.
    pub fn line_count(&self, id: FileId) -> (count: usize)
        requires
            self.wf(),
            self.has(id),
        ensures
            count == self.starts(id).len(),
    {
        broadcast use vstd::std_specs::hash::group_hash_axioms;

        let key = id.index();
        match self.line_starts.get(&key) {
            Some(line_starts) => line_starts.len(),
            None => 0,
        }
    }

    /// The line that the byte `byte_index` of a file lies in.
    pub fn line_index(&self, id: FileId, byte_index: usize) -> (line: usize)
        requires
            self.wf(),
            self.has(id),
        ensures
            line == line_of(self.starts(id), byte_index),
    {
        broadcast use vstd::std_specs::hash::group_hash_axioms;

        let key = id.index();
        let source_len = self.sources.get(id).source.as_str().as_bytes().len();
        proof {
            self.lemma_starts(id);
            lemma_line_starts(self.sources().bytes(id));
        }
        match self.line_starts.get(&key) {
            Some(line_starts) => find_line(line_starts, byte_index),
            None => 0,
        }
    }

    /// The bytes of the line `line_index` of a file: from where it starts to where the next
    /// line starts.
    pub fn line_range(&self, id: FileId, line_index: usize) -> (r: Result<Range<usize>, LineError>)
        requires
            self.wf(),
            self.has(id),
        ensures
            match r {
                Ok(range) => {
                    &&& line_index < self.starts(id).len()
                    &&& range.start == self.starts(id)[line_index as int]
                    &&& range.end == (if line_index + 1 < self.starts(id).len() {
                        self.starts(id)[line_index + 1]
                    } else {
                        self.sources().bytes(id).len() as usize
                    })
                },
                Err(LineError::LineTooLarge { given, max }) => {
                    &&& line_index >= self.starts(id).len()
                    &&& max == self.starts(id).len() - 1
                    &&& given == (if line_index > self.starts(id).len() || line_index
                        == usize::MAX {
                        line_index
                    } else {
                        (line_index + 1) as usize
                    })
                },
            },
    {
        let source_len = self.sources.get(id).source.as_str().as_bytes().len();
        proof {
            self.lemma_starts(id);
            lemma_line_starts(self.sources().bytes(id));
        }
        let line_start = match self.line_start(id, line_index) {
            Ok(start) => start,
            Err(e) => {
                return Err(e);
            },
        };
        let count = self.line_count(id);
        let next_line = match line_index.checked_add(1) {
            Some(next_line) => next_line,
            None => {
                return Err(LineError::LineTooLarge { given: line_index, max: line_index - 1 });
            },
        };
        let next_line_start = match self.line_start(id, next_line) {
            Ok(start) => start,
            Err(e) => {
                return Err(e);
            },
        };
        Ok(Range { start: line_start, end: next_line_start })
    }
}

} // verus!
