//! Source positions: file identifiers, byte spans, and the registry of
//! source files with their line tables.
//!
//! Spans are half-open byte ranges `[start, end)` into a file registered in
//! a [`SourceMap`].

use std::collections::BTreeMap;
use vstd::prelude::*;
use vstd::utf8::encode_utf8;

verus! {

/// Identifier of a file registered in a [`SourceMap`]. `FileId(0)` is never
/// handed out by [`SourceMap::add`]; it stands for "no file".
#[derive(Clone, Copy, Debug, PartialEq, Eq, Hash, PartialOrd, Ord, Structural)]
pub struct FileId(pub u32);

/// A half-open byte range `[start, end)` into a source file.
#[derive(Clone, Copy, Debug, PartialEq, Eq, Hash, Structural)]
pub struct Span {
    /// Inclusive start byte offset.
    pub start: u32,
    /// Exclusive end byte offset.
    pub end: u32,
    /// File the span refers to.
    pub file: FileId,
}

impl Span {
    /// The smallest span covering two spans of one file.
    pub open spec fn spec_merge(self, other: Span) -> Span {
        Span {
            start: if self.start <= other.start { self.start } else { other.start },
            end: if self.end >= other.end { self.end } else { other.end },
            file: self.file,
        }
    }

    /// Construct a span.
    pub fn new(start: u32, end: u32, file: FileId) -> (s: Span)
        requires
            start <= end,
        ensures
            s == (Span { start, end, file }),
    {
        Span { start, end, file }
    }

    /// Zero-length span at `at` (used for end-of-input errors).
    pub fn point(at: u32, file: FileId) -> (s: Span)
        ensures
            s == (Span { start: at, end: at, file }),
    {
        Span { start: at, end: at, file }
    }

    /// Smallest span covering both `self` and `other`, which must lie in the
    /// same file.
    pub fn merge(self, other: Span) -> (s: Span)
        requires
            self.file == other.file,
        ensures
            s == self.spec_merge(other),
    {
        Span {
            start: if self.start <= other.start { self.start } else { other.start },
            end: if self.end >= other.end { self.end } else { other.end },
            file: self.file,
        }
    }
}

/// The bytes of a text, in UTF-8.
pub open spec fn text_bytes(s: Seq<char>) -> Seq<u8> {
    encode_utf8(s)
}

/// Line starts of the first `n` bytes of `b`: offset 0, then the offset just
/// after each newline byte, in increasing order.
pub open spec fn line_starts_upto(b: Seq<u8>, n: nat) -> Seq<u32>
    decreases n,
{
    if n == 0 {
        seq![0u32]
    } else if b[n - 1] == 0x0a {
        line_starts_upto(b, (n - 1) as nat).push(n as u32)
    } else {
        line_starts_upto(b, (n - 1) as nat)
    }
}

/// Line starts of a whole byte sequence.
pub open spec fn line_starts_of(b: Seq<u8>) -> Seq<u32> {
    line_starts_upto(b, b.len())
}

/// A registered source file: name, text and its line table.
#[derive(Debug)]
pub struct SourceFile {
    /// Human-readable file name.
    pub name: String,
    /// Source text.
    pub src: String,
    /// Byte offset of each line's first byte; strictly increasing, first 0.
    line_starts: Vec<u32>,
}

/// Facts about the line table built up to `n`: starts at 0, strictly
/// increasing, every entry at most `n`.
proof fn lemma_line_starts_shape(b: Seq<u8>, n: nat)
    requires
        n <= b.len(),
        b.len() < 0x1_0000_0000,
    ensures
        line_starts_upto(b, n).len() >= 1,
        line_starts_upto(b, n)[0] == 0,
        forall|i: int, j: int|
            0 <= i < j < line_starts_upto(b, n).len() ==> line_starts_upto(b, n)[i]
                < line_starts_upto(b, n)[j],
        forall|i: int|
            0 <= i < line_starts_upto(b, n).len() ==> line_starts_upto(b, n)[i] <= n,
        line_starts_upto(b, n).len() <= n + 1,
    decreases n,
{
    if n > 0 {
        lemma_line_starts_shape(b, (n - 1) as nat);
    }
}

impl SourceFile {
    /// The line table matches the text.
    pub closed spec fn wf(self) -> bool {
        &&& self.line_starts@ == line_starts_of(text_bytes(self.src@))
        &&& text_bytes(self.src@).len() < u32::MAX
    }

    /// The file's name: its public field `name`.
    pub closed spec fn spec_name(self) -> String {
        self.name
    }

    /// The file's text: its public field `src`.
    pub closed spec fn spec_src(self) -> String {
        self.src
    }

    /// The line table: offset 0, then one offset past every newline.
    pub closed spec fn spec_line_starts(self) -> Seq<u32> {
        self.line_starts@
    }

    /// The line table of a well-formed file is determined by its text.
    pub proof fn lemma_wf_line_starts(self)
        requires
            self.wf(),
        ensures
            self.spec_line_starts() == line_starts_of(text_bytes(self.spec_src()@)),
            text_bytes(self.spec_src()@).len() < u32::MAX,
    {
    }

    /// The bytes of the file's text.
    pub fn bytes(&self) -> (b: &[u8])
        requires
            self.wf(),
        ensures
            b@ == text_bytes(self.spec_src()@),
            b@.len() < u32::MAX,
    {
        self.src.as_str().as_bytes()
    }

    fn new(name: String, src: String) -> (f: SourceFile)
        requires
            text_bytes(src@).len() < u32::MAX,
        ensures
            f.wf(),
            f.spec_name() == name,
            f.spec_src() == src,
    {
        let mut line_starts: Vec<u32> = Vec::new();
        line_starts.push(0);
        let bytes = src.as_str().as_bytes();
        let mut i: usize = 0;
        while i < bytes.len()
            invariant
                bytes@ == text_bytes(src@),
                bytes@.len() < u32::MAX,
                i <= bytes@.len(),
                line_starts@ == line_starts_upto(bytes@, i as nat),
            decreases bytes@.len() - i,
        {
            if bytes[i] == 0x0a {
                line_starts.push((i + 1) as u32);
            }
            i = i + 1;
        }
        SourceFile { name, src, line_starts }
    }
}

/// Registry of source files, keyed by the number inside their [`FileId`].
#[derive(Debug)]
pub struct SourceMap {
    files: BTreeMap<u32, SourceFile>,
    next_id: u32,
}

impl SourceMap {
    #[verifier::type_invariant]
    closed spec fn inv(self) -> bool {
        &&& forall|k: u32| #[trigger] self.files@.contains_key(k) <==> 1 <= k <= self.next_id
        &&& forall|k: u32| #[trigger] self.files@.contains_key(k) ==> self.files@[k].wf()
    }

    /// The registered files, keyed by file number.
    pub closed spec fn spec_files(self) -> Map<u32, SourceFile> {
        self.files@
    }

    /// Number of files registered so far (the last id handed out).
    pub closed spec fn spec_next_id(self) -> u32 {
        self.next_id
    }

    /// An empty registry.
    pub fn new() -> (m: SourceMap)
        ensures
            m.spec_files() == Map::<u32, SourceFile>::empty(),
            m.spec_next_id() == 0,
            forall|k: u32| #[trigger] m.spec_files().contains_key(k) <==> 1 <= k <= m.spec_next_id(),
    {
        SourceMap { files: BTreeMap::new(), next_id: 0 }
    }

    /// Register a file and return its newly allocated id, which is one more
    /// than the previous one.
    pub fn add(&mut self, name: String, src: String) -> (id: FileId)
        requires
            old(self).spec_next_id() < u32::MAX,
            text_bytes(src@).len() < u32::MAX,
        ensures
            id.0 == old(self).spec_next_id() + 1,
            final(self).spec_next_id() == id.0,
            !old(self).spec_files().contains_key(id.0),
            final(self).spec_files().dom() == old(self).spec_files().dom().insert(id.0),
            forall|k: u32|
                #[trigger] old(self).spec_files().contains_key(k) ==> final(self).spec_files()[k]
                    == old(self).spec_files()[k],
            final(self).spec_files()[id.0].spec_name() == name,
            final(self).spec_files()[id.0].spec_src() == src,
            forall|k: u32|
                #[trigger] final(self).spec_files().contains_key(k) <==> 1 <= k
                    <= final(self).spec_next_id(),
    {
        proof {
            use_type_invariant(&*self);
        }
        let id_num = self.next_id + 1;
        let file = SourceFile::new(name, src);
        let mut taken = SourceMap::new();
        std::mem::swap(&mut taken, self);
        proof {
            use_type_invariant(&taken);
        }
        let SourceMap { mut files, next_id: _ } = taken;
        proof {
            assert(!files@.contains_key(id_num));
        }
        files.insert(id_num, file);
        *self = SourceMap { files, next_id: id_num };
        FileId(id_num)
    }

    /// Look up a registered file. The registered ids are exactly those
    /// `add` has handed out, `1..=next_id`; `FileId(0)` is never found.
    pub fn get(&self, file: FileId) -> (r: Option<&SourceFile>)
        ensures
            r is Some <==> self.spec_files().contains_key(file.0),
            r is Some <==> 1 <= file.0 <= self.spec_next_id(),
            r matches Some(f) ==> *f == self.spec_files()[file.0] && f.wf(),
    {
        proof {
            use_type_invariant(self);
        }
        self.files.get(&file.0)
    }

    /// 1-based `(line, column)` of a span's start byte, or `None` when the
    /// span's file is not registered. The line is the number of line starts
    /// at or before the byte; the column counts from that line's start. The
    /// column must fit in a `u32`: a start at `u32::MAX` in a file without
    /// a newline has none.
    pub fn line_col(&self, span: Span) -> (r: Option<(u32, u32)>)
        requires
            span.start == u32::MAX && self.spec_files().contains_key(span.file.0) ==> self.spec_files()[span.file.0].spec_line_starts().last()
                > 0,
        ensures
            !self.spec_files().contains_key(span.file.0) ==> r is None,
            self.spec_files().contains_key(span.file.0) ==> {
                let ls = self.spec_files()[span.file.0].spec_line_starts();
                r matches Some((line, col)) && 1 <= line <= ls.len() && ls[line - 1] <= span.start
                    && (line == ls.len() || ls[line as int] > span.start) && col == span.start
                    - ls[line - 1] + 1
            },
    {
        let file = match self.get(span.file) {
            Some(f) => f,
            None => return None,
        };
        let ls = &file.line_starts;
        proof {
            lemma_line_starts_shape(text_bytes(file.src@), text_bytes(file.src@).len());
        }
        // Partition point: the first index whose start lies after the span.
        let mut lo: usize = 0;
        let mut hi: usize = ls.len();
        while lo < hi
            invariant
                0 <= lo <= hi <= ls@.len(),
                ls@ == line_starts_of(text_bytes(file.src@)),
                forall|i: int, j: int| 0 <= i < j < ls@.len() ==> ls@[i] < ls@[j],
                forall|i: int| 0 <= i < lo ==> ls@[i] <= span.start,
                forall|i: int| hi <= i < ls@.len() ==> ls@[i] > span.start,
            decreases hi - lo,
        {
            let mid = lo + (hi - lo) / 2;
            if ls[mid] <= span.start {
                lo = mid + 1;
            } else {
                hi = mid;
            }
        }
        if lo == 0 {
            return None;
        }
        let line_idx = (lo - 1) as u32;
        let line_start = ls[lo - 1];
        let col = span.start - line_start;
        Some((line_idx + 1, col + 1))
    }
}

/// One registration, as `add` reports it: the id handed out is one past
/// the previous last id, and it joins the registered ids.
pub open spec fn add_step(before: SourceMap, after: SourceMap, id: FileId) -> bool {
    &&& id.0 == before.spec_next_id() + 1
    &&& after.spec_next_id() == id.0
    &&& after.spec_files().dom() == before.spec_files().dom().insert(id.0)
}

/// Law: after `new` and a series of `add`s that handed out `ids` (the maps
/// between the calls being `ms`), the registered files, which are exactly
/// what `get` finds, are those ids; `FileId(0)` is never among them.
pub proof fn law_get_finds_exactly_added(ms: Seq<SourceMap>, ids: Seq<FileId>)
    requires
        ms.len() == ids.len() + 1,
        ms[0].spec_files() == Map::<u32, SourceFile>::empty(),
        ms[0].spec_next_id() == 0,
        forall|i: int| 0 <= i < ids.len() ==> add_step(ms[i], ms[i + 1], #[trigger] ids[i]),
    ensures
        forall|k: u32|
            #[trigger] ms.last().spec_files().contains_key(k) <==> exists|i: int|
                0 <= i < ids.len() && #[trigger] ids[i].0 == k,
        !ms.last().spec_files().contains_key(0),
    decreases ids.len(),
{
    if ids.len() == 0 {
        return;
    }
    let n = ids.len() - 1;
    let ms2 = ms.subrange(0, n + 1);
    let ids2 = ids.subrange(0, n);
    assert forall|i: int| 0 <= i < ids2.len() implies add_step(ms2[i], ms2[i + 1], #[trigger] ids2[i]) by {
        assert(ms2[i] == ms[i] && ms2[i + 1] == ms[i + 1] && ids2[i] == ids[i]);
    }
    law_get_finds_exactly_added(ms2, ids2);
    assert(ms2.last() == ms[n]);
    assert(add_step(ms[n], ms[n + 1], ids[n]));
    assert(ms.last() == ms[n + 1]);
    assert forall|k: u32| #[trigger] ms.last().spec_files().contains_key(k) <==> exists|i: int|
        0 <= i < ids.len() && #[trigger] ids[i].0 == k by {
        assert(ms.last().spec_files().dom().contains(k) == (ms[n].spec_files().dom().contains(k) || k == ids[n].0));
        if exists|i: int| 0 <= i < ids2.len() && #[trigger] ids2[i].0 == k {
            let i = choose|i: int| 0 <= i < ids2.len() && #[trigger] ids2[i].0 == k;
            assert(ids[i].0 == k);
        }
        if exists|i: int| 0 <= i < ids.len() && #[trigger] ids[i].0 == k {
            let i = choose|i: int| 0 <= i < ids.len() && #[trigger] ids[i].0 == k;
            if i < n {
                assert(ids2[i].0 == k);
            }
        }
    }
}

} // verus!
