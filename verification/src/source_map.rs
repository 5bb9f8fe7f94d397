//! A virtual byte address space over several source files.
//!
//! Each registered file occupies its own offset range, and consecutive files
//! are separated by a one-byte gap so that no span can straddle two files:
//!
//! ```text
//! File A (100 bytes): offsets 0..100
//! gap: 1 byte (offset 100)
//! File B (80 bytes):  offsets 101..181
//! ```
use vstd::prelude::*;
use crate::span::Span;
use vstd::string::StringSliceAdditionalSpecFns;

verus! {

/// A source file registered in a [`SourceMap`].
///
/// The file occupies `start_offset..end_offset` in the virtual address space;
/// the end offset is exclusive.
#[derive(Debug, Clone)]
pub struct SourceFile {
    name: String,
    source: String,
    start_offset: usize,
    end_offset: usize,
    first_imported_at: Option<Span>,
}

impl SourceFile {
    /// The file's name.
    pub closed spec fn spec_name(&self) -> Seq<char> {
        self.name@
    }

    /// The file's text.
    pub closed spec fn spec_source(&self) -> Seq<char> {
        self.source@
    }

    /// The UTF-8 bytes of the file's text.
    pub open spec fn spec_bytes(&self) -> Seq<u8> {
        vstd::utf8::encode_utf8(self.spec_source())
    }

    /// The first virtual offset of the file.
    pub closed spec fn spec_start(&self) -> nat {
        self.start_offset as nat
    }

    /// The virtual offset just past the file.
    pub closed spec fn spec_end(&self) -> nat {
        self.end_offset as nat
    }

    /// Where the file was first imported (`None` for the root file).
    pub closed spec fn spec_imported_at(&self) -> Option<Span> {
        self.first_imported_at
    }

    /// Whether the virtual offset `offset` lies in this file.
    pub open spec fn spec_holds(&self, offset: int) -> bool {
        self.spec_start() <= offset < self.spec_end()
    }

    /// Returns the file's name.
    pub fn name(&self) -> (r: &str)
        ensures
            r@ == self.spec_name(),
    {
        self.name.as_str()
    }

    /// Returns the file's text.
    pub fn source(&self) -> (r: &str)
        ensures
            r@ == self.spec_source(),
    {
        self.source.as_str()
    }

    /// Returns the first virtual offset of the file.
    pub fn start_offset(&self) -> (r: usize)
        ensures
            r == self.spec_start(),
    {
        self.start_offset
    }

    /// Returns the virtual offset just past the file.
    pub fn end_offset(&self) -> (r: usize)
        ensures
            r == self.spec_end(),
    {
        self.end_offset
    }

    /// Returns the span of the import that first loaded this file.
    pub fn first_imported_at(&self) -> (r: Option<Span>)
        ensures
            r == self.spec_imported_at(),
    {
        self.first_imported_at
    }

    /// Returns the length of the text in bytes.
    pub fn len(&self) -> (r: usize)
        ensures
            r == self.spec_bytes().len() as usize,
    {
        self.source.as_str().len()
    }

    /// Returns `true` when the text is empty.
    pub fn is_empty(&self) -> (r: bool)
        ensures
            r == (self.spec_source().len() == 0),
    {
        self.source.as_str().is_empty()
    }
}

/// The layout that a source map maintains: files follow one another in the
/// order they were added, each occupying as many offsets as it has bytes,
/// with a one-byte gap after each file.
pub open spec fn layout_ok(files: Seq<SourceFile>, next: nat) -> bool {
    &&& forall|i: int| 0 <= i < files.len()
        ==> #[trigger] files[i].spec_end() == files[i].spec_start() + files[i].spec_bytes().len()
    &&& files.len() > 0 ==> files[0].spec_start() == 0
    &&& forall|i: int| 0 < i < files.len()
        ==> #[trigger] files[i].spec_start() == files[i - 1].spec_end() + 1
    &&& forall|i: int, j: int| 0 <= i < j < files.len()
        ==> #[trigger] files[i].spec_end() < #[trigger] files[j].spec_start()
    &&& next == if files.len() == 0 { 0 } else { files.last().spec_end() + 1 }
}

/// Maps virtual byte offsets to source files.
#[derive(Debug)]
pub struct SourceMap {
    files: Vec<SourceFile>,
    next_offset: usize,
}

impl SourceMap {
    /// The registered files, in the order they were added.
    pub closed spec fn spec_files(&self) -> Seq<SourceFile> {
        self.files@
    }

    /// The offset at which the next file will start.
    pub closed spec fn spec_next_offset(&self) -> nat {
        self.next_offset as nat
    }

    /// The map keeps the file layout described by [`layout_ok`].
    pub closed spec fn wf(&self) -> bool {
        layout_ok(self.files@, self.next_offset as nat)
    }

    /// A well-formed map has the layout of [`layout_ok`].
    pub proof fn lemma_layout(&self)
        requires
            self.wf(),
        ensures
            layout_ok(self.spec_files(), self.spec_next_offset()),
    {
    }

    /// Creates an empty source map.
    pub fn new() -> (r: SourceMap)
        ensures
            r.spec_files().len() == 0,
            r.spec_next_offset() == 0,
            r.wf(),
    {
        SourceMap { files: Vec::new(), next_offset: 0 }
    }

    /// The offset at which the next file will start.
    pub(crate) fn next_offset(&self) -> (r: usize)
        ensures
            r == self.spec_next_offset(),
    {
        self.next_offset
    }

    /// Registers a file at the next free offset and returns that offset.
    ///
    /// The following file will start one byte after this file's end.
    pub fn add_file(&mut self, name: &str, source: &str, imported_at: Option<Span>) -> (r: usize)
        requires
            old(self).wf(),
            old(self).spec_next_offset() + source.spec_bytes().len() + 1 <= usize::MAX,
        ensures
            r == old(self).spec_next_offset(),
            final(self).spec_files().len() == old(self).spec_files().len() + 1,
            final(self).spec_files().drop_last() == old(self).spec_files(),
            final(self).spec_files().last().spec_name() == name@,
            final(self).spec_files().last().spec_source() == source@,
            final(self).spec_files().last().spec_start() == r,
            final(self).spec_files().last().spec_end() == r + source.spec_bytes().len(),
            final(self).spec_files().last().spec_imported_at() == imported_at,
            final(self).spec_next_offset() == r + source.spec_bytes().len() + 1,
            final(self).wf(),
    {
        let start_offset = self.next_offset;
        let end_offset = start_offset + source.len();
        let file = SourceFile {
            name: String::from_str(name),
            source: String::from_str(source),
            start_offset,
            end_offset,
            first_imported_at: imported_at,
        };
        let ghost old_files = self.files@;
        self.files.push(file);
        let ghost files = self.files@;
        proof {
            assert(files.drop_last() =~= old_files);
            assert forall|i: int, j: int| 0 <= i < j < files.len() implies
                #[trigger] files[i].spec_end() < #[trigger] files[j].spec_start() by {
                if j == files.len() - 1 && i < j {
                    if old_files.len() > 0 {
                        let l = old_files.len() - 1;
                        if i < l {
                            assert(old_files[i].spec_end() < old_files[l].spec_start());
                        }
                    }
                }
            }
        }
        self.next_offset = end_offset + 1;
        start_offset
    }

    /// Finds the file holding the virtual offset `offset`.
    ///
    /// Returns `None` when the offset falls in a gap or past the last file.
    pub fn lookup_file(&self, offset: usize) -> (r: Option<&SourceFile>)
        requires
            self.wf(),
        ensures
            match r {
                Some(f) => exists|i: int| 0 <= i < self.spec_files().len()
                    && self.spec_files()[i] == *f && (#[trigger] self.spec_files()[i]).spec_holds(offset as int),
                None => forall|i: int| 0 <= i < self.spec_files().len()
                    ==> !(#[trigger] self.spec_files()[i]).spec_holds(offset as int),
            },
    {
        let n = self.files.len();
        let mut lo: usize = 0;
        let mut hi: usize = n;
        while lo < hi
            invariant
                0 <= lo <= hi <= n,
                n == self.files@.len(),
                layout_ok(self.files@, self.next_offset as nat),
                forall|i: int| 0 <= i < lo ==> (#[trigger] self.files@[i]).spec_start() <= offset,
                forall|i: int| hi <= i < n ==> (#[trigger] self.files@[i]).spec_start() > offset,
            decreases hi - lo,
        {
            let mid = lo + (hi - lo) / 2;
            if self.files[mid].start_offset <= offset {
                proof {
                    assert forall|i: int| 0 <= i < mid + 1 implies (#[trigger] self.files@[i]).spec_start() <= offset by {
                        if i < mid {
                            assert(self.files@[i].spec_end() < self.files@[mid as int].spec_start());
                        }
                    }
                }
                lo = mid + 1;
            } else {
                proof {
                    assert forall|i: int| mid <= i < n implies (#[trigger] self.files@[i]).spec_start() > offset by {
                        if i > mid {
                            assert(self.files@[mid as int].spec_end() < self.files@[i].spec_start());
                        }
                    }
                }
                hi = mid;
            }
        }
        if lo == 0 {
            return None;
        }
        let file = &self.files[lo - 1];
        if offset < file.end_offset {
            proof {
                assert(self.spec_files()[lo - 1].spec_holds(offset as int));
            }
            Some(file)
        } else {
            proof {
                assert forall|i: int| 0 <= i < n implies !(#[trigger] self.files@[i]).spec_holds(offset as int) by {
                    if i < lo - 1 {
                        assert(self.files@[i].spec_end() < self.files@[lo - 1].spec_start());
                    }
                }
            }
            None
        }
    }

    /// Whether `span` lies within one file, and if so whether both of its
    /// ends fall on character boundaries of that file's text.
    pub open spec fn spec_slice_ok(&self, span: Span) -> bool {
        forall|i: int| 0 <= i < self.spec_files().len()
            && (#[trigger] self.spec_files()[i]).spec_holds(span.spec_start() as int)
            && span.spec_start() <= span.spec_end() <= self.spec_files()[i].spec_end()
            ==> {
                let f = self.spec_files()[i];
                &&& vstd::utf8::is_char_boundary(f.spec_bytes(), span.spec_start() - f.spec_start())
                &&& vstd::utf8::is_char_boundary(f.spec_bytes(), span.spec_end() - f.spec_start())
            }
    }

    /// Returns the text covered by `span`.
    ///
    /// Returns `None` when the span starts outside every file or runs past
    /// the end of the file it starts in.
    pub fn source_slice(&self, span: Span) -> (r: Option<&str>)
        requires
            self.wf(),
            self.spec_slice_ok(span),
        ensures
            match r {
                Some(s) => exists|i: int| 0 <= i < self.spec_files().len()
                    && (#[trigger] self.spec_files()[i]).spec_holds(span.spec_start() as int)
                    && span.spec_end() <= self.spec_files()[i].spec_end()
                    && s.spec_bytes() == self.spec_files()[i].spec_bytes().subrange(
                        span.spec_start() - self.spec_files()[i].spec_start(),
                        span.spec_end() - self.spec_files()[i].spec_start(),
                    ),
                None => forall|i: int| 0 <= i < self.spec_files().len()
                    && (#[trigger] self.spec_files()[i]).spec_holds(span.spec_start() as int)
                    ==> span.spec_end() > self.spec_files()[i].spec_end() || span.spec_end() < span.spec_start(),
            },
    {
        let file = match self.lookup_file(span.start()) {
            Some(f) => f,
            None => return None,
        };
        if span.end() > file.end_offset || span.end() < span.start() {
            return None;
        }
        let local_start = span.start() - file.start_offset;
        let local_end = span.end() - file.start_offset;
        let text = file.source.as_str();
        proof {
            vstd::utf8::encode_utf8_valid_utf8(text@);
        }
        let (head, _tail) = text.split_at(local_end);
        proof {
            let b = text.spec_bytes();
            vstd::utf8::valid_utf8_split(b, local_end as int);
            vstd::utf8::encode_utf8_valid_utf8(head@);
            vstd::utf8::decode_utf8_encode_utf8(head.spec_bytes());
            if local_start < local_end {
                vstd::utf8::is_char_boundary_iff_not_is_continuation_byte(b, local_start as int);
                vstd::utf8::is_char_boundary_iff_not_is_continuation_byte(head.spec_bytes(), local_start as int);
            } else {
                vstd::utf8::is_char_boundary_start_end_of_seq(head.spec_bytes());
            }
        }
        let (_skip, piece) = head.split_at(local_start);
        proof {
            assert(piece.spec_bytes() =~= text.spec_bytes().subrange(local_start as int, local_end as int));
        }
        Some(piece)
    }

    /// Returns the number of registered files.
    pub fn file_count(&self) -> (r: usize)
        ensures
            r == self.spec_files().len(),
    {
        self.files.len()
    }

    /// Returns the registered files in the order they were added.
    pub fn files(&self) -> (r: &[SourceFile])
        ensures
            r@ == self.spec_files(),
    {
        self.files.as_slice()
    }
}

impl Default for SourceMap {
    fn default() -> (r: SourceMap)
        ensures
            r.spec_files().len() == 0,
            r.spec_next_offset() == 0,
            r.wf(),
    {
        SourceMap::new()
    }
}

/// Every byte of a registered file is found in that file and no other:
/// files never overlap.
pub proof fn lemma_files_disjoint(map: &SourceMap, i: int, j: int, offset: int)
    requires
        map.wf(),
        0 <= i < map.spec_files().len(),
        0 <= j < map.spec_files().len(),
        map.spec_files()[i].spec_holds(offset),
        map.spec_files()[j].spec_holds(offset),
    ensures
        i == j,
{
    map.lemma_layout();
    let files = map.spec_files();
    if i < j {
        assert(files[i].spec_end() < files[j].spec_start());
    } else if j < i {
        assert(files[j].spec_end() < files[i].spec_start());
    }
}

/// The byte just past a file is a gap that belongs to no file.
pub proof fn lemma_gap_after_file(map: &SourceMap, i: int)
    requires
        map.wf(),
        0 <= i < map.spec_files().len(),
    ensures
        forall|j: int| 0 <= j < map.spec_files().len()
            ==> !(#[trigger] map.spec_files()[j]).spec_holds(map.spec_files()[i].spec_end() as int),
{
    map.lemma_layout();
    let files = map.spec_files();
    assert forall|j: int| 0 <= j < files.len() implies
        !(#[trigger] files[j]).spec_holds(files[i].spec_end() as int) by {
        if i < j {
            assert(files[i].spec_end() < files[j].spec_start());
        } else if j < i {
            assert(files[j].spec_end() < files[i].spec_start());
        }
    }
}

} // verus!
