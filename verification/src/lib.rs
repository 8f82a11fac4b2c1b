use vstd::prelude::*;

mod crc;
pub mod date;
pub mod error;
pub mod zip;

use crate::crc::{crc32_of, crc_finalize, crc_new, crc_update, hashed};
use crate::date::Timestamp;
use crate::error::Error;
use crate::zip::{
    descriptor_bytes, directory_out, header_bytes, Descriptor, Directory, EntryView, FileHeader,
    HeaderView, ToBytes,
};

verus! {

/// Where one entry's records lie in an emitted stream: the local header's
/// bytes start exactly at the recorded offset, the file's content follows
/// the header, the recorded crc is the crc-32 of exactly that content, and
/// the trailing descriptor follows the content.
pub open spec fn entry_placed(stream: Seq<u8>, e: EntryView) -> bool {
    let content_start = e.offset + 30 + e.name.len();
    let content_end = content_start + e.size;
    &&& e.modified.wf()
    &&& e.modified.date_ok()
    &&& e.name.len() <= 0xFFFF
    &&& e.size <= 0xFFFF_FFFF
    &&& content_end + 16 <= stream.len()
    &&& stream.subrange(e.offset as int, content_start) == header_bytes(
        e.name,
        e.modified.time_field(),
        e.modified.date_field(),
    )
    &&& e.crc == crc32_of(stream.subrange(content_start, content_end))
    &&& stream.subrange(content_end, content_end + 16) == descriptor_bytes(e.crc, e.size as u32)
}

/// Every entry of the directory is placed in the stream.
pub open spec fn entries_placed(stream: Seq<u8>, entries: Seq<EntryView>) -> bool {
    forall|i: int| 0 <= i < entries.len() ==> entry_placed(stream, #[trigger] entries[i])
}

/// Records already placed in a stream stay placed when more bytes are
/// appended: nothing emitted is ever rewritten.
proof fn lemma_placed_after_append(stream: Seq<u8>, more: Seq<u8>, entries: Seq<EntryView>)
    requires
        entries_placed(stream, entries),
    ensures
        entries_placed(stream + more, entries),
{
    assert forall|i: int| 0 <= i < entries.len() implies entry_placed(
        stream + more,
        #[trigger] entries[i],
    ) by {
        let e = entries[i];
        let content_start = e.offset + 30 + e.name.len();
        let content_end = content_start + e.size;
        assert(entry_placed(stream, e));
        assert((stream + more).subrange(e.offset as int, content_start) =~= stream.subrange(
            e.offset as int,
            content_start,
        ));
        assert((stream + more).subrange(content_start, content_end) =~= stream.subrange(
            content_start,
            content_end,
        ));
        assert((stream + more).subrange(content_end, content_end + 16) =~= stream.subrange(
            content_end,
            content_end + 16,
        ));
    }
}

/// The streaming orchestrator: one single-pass run over an ordered list of
/// input files. For each file it emits the local header, folds the content
/// chunks the caller streams through it into a running crc-32, emits the
/// trailing descriptor, and records the directory entry; at the end it
/// emits the central directory. It never seeks: the cursor only grows, by
/// exactly the length of each chunk handed out.
pub struct Zipper {
    files: Vec<Vec<u8>>,
    next: usize,
    pos: u64,
    dir: Directory,
    current: Option<FileHeader>,
    header_offset: u64,
    content_offset: u64,
    hasher: crc32fast::Hasher,
    emitted: Ghost<Seq<u8>>,
}

impl Zipper {
    /// Every byte handed out so far, in order: the concatenation of all
    /// emitted chunks.
    pub closed spec fn stream(self) -> Seq<u8> {
        self.emitted@
    }

    /// The output cursor: the count of bytes emitted so far, the sole
    /// source of the offsets recorded in the directory.
    pub closed spec fn cursor(self) -> u64 {
        self.pos
    }

    /// The directory entries recorded so far, in file order.
    pub closed spec fn entries(self) -> Seq<EntryView> {
        self.dir.entries_view()
    }

    /// The file names not yet handed out by `next_file`.
    pub closed spec fn pending(self) -> Seq<Seq<u8>> {
        self.files@.map_values(|v: Vec<u8>| v@).skip(self.next as int)
    }

    /// A file is open: its header is emitted, its descriptor is not.
    pub closed spec fn in_file(self) -> bool {
        self.current is Some
    }

    /// The open file's header metadata.
    pub closed spec fn current_view(self) -> HeaderView {
        self.current.unwrap()@
    }

    /// The stream offset of the open file's local header.
    pub closed spec fn current_offset(self) -> u64 {
        self.header_offset
    }

    /// The stream offset where the open file's content begins.
    pub closed spec fn content_start(self) -> u64 {
        self.content_offset
    }

    /// The pipeline's invariant: the cursor equals the stream's length,
    /// every recorded entry is placed in the stream, and while a file is
    /// open its header sits at the remembered offset with the running
    /// checksum covering exactly the content emitted since.
    pub closed spec fn wf(self) -> bool {
        &&& self.pos == self.emitted@.len()
        &&& self.dir.offset_view() is None
        &&& self.dir.wf()
        &&& entries_placed(self.emitted@, self.dir.entries_view())
        &&& self.next <= self.files.len()
        &&& (self.current is Some ==> {
            let h = self.current.unwrap()@;
            &&& h.modified.wf()
            &&& h.modified.date_ok()
            &&& h.name.len() <= 0xFFFF
            &&& self.header_offset + 30 + h.name.len() == self.content_offset
            &&& self.content_offset <= self.pos
            &&& self.emitted@.subrange(self.header_offset as int, self.content_offset as int)
                == header_bytes(h.name, h.modified.time_field(), h.modified.date_field())
            &&& hashed(self.hasher) == self.emitted@.subrange(
                self.content_offset as int,
                self.pos as int,
            )
        })
    }

    /// Every recorded entry's records lie in the emitted stream exactly
    /// where the directory says: the local header at the recorded offset,
    /// the content right after it, the crc-32 taken over exactly that
    /// content, and the descriptor after the content.
    pub proof fn entries_well_placed(self)
        requires
            self.wf(),
        ensures
            entries_placed(self.stream(), self.entries()),
            self.cursor() == self.stream().len(),
    {
    }

    /// Begin a run over the given file names, in order. Nothing is emitted
    /// yet.
    pub fn from_iter(files: Vec<Vec<u8>>) -> (z: Zipper)
        ensures
            z.wf(),
            z.stream() == Seq::<u8>::empty(),
            z.cursor() == 0,
            z.entries() == Seq::<EntryView>::empty(),
            !z.in_file(),
            z.pending() == files@.map_values(|v: Vec<u8>| v@),
    {
        let z = Zipper {
            files,
            next: 0,
            pos: 0,
            dir: Directory::new(),
            current: None,
            header_offset: 0,
            content_offset: 0,
            hasher: crc_new(),
            emitted: Ghost(Seq::empty()),
        };
        proof {
            assert(z.pending() =~= files@.map_values(|v: Vec<u8>| v@));
        }
        z
    }

    /// The next file name to process, or `None` when the input is
    /// exhausted. Hands the name out and advances; emits nothing.
    pub fn next_file(&mut self) -> (r: Option<Vec<u8>>)
        requires
            old(self).wf(),
        ensures
            final(self).wf(),
            final(self).stream() == old(self).stream(),
            final(self).cursor() == old(self).cursor(),
            final(self).entries() == old(self).entries(),
            final(self).in_file() == old(self).in_file(),
            old(self).in_file() ==> final(self).current_view() == old(self).current_view()
                && final(self).current_offset() == old(self).current_offset()
                && final(self).content_start() == old(self).content_start(),
            old(self).pending().len() > 0 ==> r is Some && r.unwrap()@ == old(self).pending()[0]
                && final(self).pending() == old(self).pending().skip(1),
            old(self).pending().len() == 0 ==> r is None && *final(self) == *old(self),
    {
        if self.next < self.files.len() {
            let name = self.files[self.next].clone();
            self.next = self.next + 1;
            proof {
                assert(name@ =~= self.files@[self.next - 1]@);
                assert(self.pending() =~= old(self).pending().skip(1));
            }
            Some(name)
        } else {
            None
        }
    }

    /// Open the next file: emit its local header, remembering the cursor as
    /// the header's offset. The returned chunk holds exactly the header's
    /// bytes. Fails — emitting nothing — when the date cannot be packed,
    /// when the name exceeds the 16-bit length field, or when the cursor
    /// cannot advance.
    pub fn begin_file(&mut self, file_name: Vec<u8>, modified: Timestamp) -> (r: Result<
        Vec<u8>,
        Error,
    >)
        requires
            old(self).wf(),
            !old(self).in_file(),
            modified.wf(),
        ensures
            final(self).wf(),
            final(self).pending() == old(self).pending(),
            final(self).entries() == old(self).entries(),
            (match r {
                Ok(b) => {
                    &&& modified.date_ok()
                    &&& file_name@.len() <= 0xFFFF
                    &&& b@ == header_bytes(file_name@, modified.time_field(), modified.date_field())
                    &&& final(self).stream() == old(self).stream() + b@
                    &&& final(self).cursor() == old(self).cursor() + b@.len()
                    &&& final(self).in_file()
                    &&& final(self).current_view() == (HeaderView { name: file_name@, modified })
                    &&& final(self).current_offset() == old(self).cursor()
                    &&& final(self).content_start() == final(self).cursor()
                },
                Err(e) => {
                    &&& *final(self) == *old(self)
                    &&& (!modified.date_ok() || file_name@.len() > 0xFFFF || old(self).cursor() + 30
                        + file_name@.len() > u64::MAX)
                    &&& e == (if !modified.date_ok() {
                        Error::DateBeforeEpoch
                    } else if file_name@.len() > 0xFFFF {
                        Error::FileNameTooBig
                    } else {
                        Error::ArchiveTooBig
                    })
                },
            }),
    {
        let header = FileHeader::new(file_name, modified);
        let bytes = match header.to_bytes() {
            Ok(b) => b,
            Err(e) => {
                return Err(e);
            },
        };
        proof {
            assert(bytes@.len() == 30 + file_name@.len());
        }
        if self.pos > u64::MAX - (bytes.len() as u64) {
            return Err(Error::ArchiveTooBig);
        }
        let ghost old_self = *self;
        self.header_offset = self.pos;
        self.pos = self.pos + (bytes.len() as u64);
        self.content_offset = self.pos;
        self.hasher = crc_new();
        self.current = Some(header);
        let ghost new_stream = old_self.emitted@ + bytes@;
        self.emitted = Ghost(new_stream);
        proof {
            lemma_placed_after_append(old_self.emitted@, bytes@, self.dir.entries_view());
            assert(new_stream.subrange(
                self.header_offset as int,
                self.content_offset as int,
            ) =~= bytes@);
            assert(new_stream.subrange(self.pos as int, self.pos as int) =~= Seq::<u8>::empty());
        }
        Ok(bytes)
    }

    /// Stream one chunk of the open file's content: fold it into the
    /// running checksum and advance the cursor by its length. The chunk's
    /// bytes are the caller's to forward unchanged; the stream model counts
    /// them right after what was emitted before.
    pub fn consume_chunk(&mut self, data: &[u8]) -> (r: Result<(), Error>)
        requires
            old(self).wf(),
            old(self).in_file(),
        ensures
            final(self).wf(),
            final(self).pending() == old(self).pending(),
            final(self).entries() == old(self).entries(),
            (match r {
                Ok(()) => {
                    &&& final(self).stream() == old(self).stream() + data@
                    &&& final(self).cursor() == old(self).cursor() + data@.len()
                    &&& final(self).in_file()
                    &&& final(self).current_view() == old(self).current_view()
                    &&& final(self).current_offset() == old(self).current_offset()
                    &&& final(self).content_start() == old(self).content_start()
                },
                Err(e) => {
                    &&& *final(self) == *old(self)
                    &&& old(self).cursor() + data@.len() > u64::MAX
                    &&& e == Error::ArchiveTooBig
                },
            }),
    {
        if self.pos > u64::MAX - (data.len() as u64) {
            return Err(Error::ArchiveTooBig);
        }
        let ghost old_self = *self;
        crc_update(&mut self.hasher, data);
        self.pos = self.pos + (data.len() as u64);
        let ghost new_stream = old_self.emitted@ + data@;
        self.emitted = Ghost(new_stream);
        proof {
            lemma_placed_after_append(old_self.emitted@, data@, self.dir.entries_view());
            assert(new_stream.subrange(self.header_offset as int, self.content_offset as int)
                =~= old_self.emitted@.subrange(
                self.header_offset as int,
                self.content_offset as int,
            ));
            assert(new_stream.subrange(self.content_offset as int, self.pos as int)
                =~= old_self.emitted@.subrange(
                self.content_offset as int,
                old_self.pos as int,
            ) + data@);
        }
        Ok(())
    }

    /// Close the open file: emit its trailing descriptor — carrying the
    /// crc-32 of exactly the content streamed since the header, and the
    /// content's byte count as both sizes — and record its directory entry
    /// at the header's offset. Fails, emitting and recording nothing, when
    /// the content exceeds the 32-bit size fields or the cursor cannot
    /// advance.
    pub fn end_file(&mut self) -> (r: Result<Vec<u8>, Error>)
        requires
            old(self).wf(),
            old(self).in_file(),
        ensures
            final(self).wf(),
            final(self).pending() == old(self).pending(),
            (match r {
                Ok(b) => {
                    let size = (old(self).cursor() - old(self).content_start()) as u64;
                    let crc = crc32_of(
                        old(self).stream().subrange(
                            old(self).content_start() as int,
                            old(self).cursor() as int,
                        ),
                    );
                    &&& size <= 0xFFFF_FFFF
                    &&& b@ == descriptor_bytes(crc, size as u32)
                    &&& final(self).stream() == old(self).stream() + b@
                    &&& final(self).cursor() == old(self).cursor() + 16
                    &&& !final(self).in_file()
                    &&& final(self).entries() == old(self).entries().push(
                        EntryView {
                            name: old(self).current_view().name,
                            modified: old(self).current_view().modified,
                            crc,
                            size,
                            offset: old(self).current_offset(),
                        },
                    )
                },
                Err(e) => {
                    let size = (old(self).cursor() - old(self).content_start()) as u64;
                    &&& *final(self) == *old(self)
                    &&& final(self).entries() == old(self).entries()
                    &&& (size > 0xFFFF_FFFF || old(self).cursor() + 16 > u64::MAX)
                    &&& e == (if size > 0xFFFF_FFFF {
                        Error::FileTooBig(size)
                    } else {
                        Error::ArchiveTooBig
                    })
                },
            }),
    {
        let size: u64 = self.pos - self.content_offset;
        if size > 0xFFFF_FFFF {
            return Err(Error::FileTooBig(size));
        }
        if self.pos > u64::MAX - 16 {
            return Err(Error::ArchiveTooBig);
        }
        let ghost old_self = *self;
        let mut fresh = crc_new();
        core::mem::swap(&mut self.hasher, &mut fresh);
        let crc = crc_finalize(fresh);
        let desc = Descriptor::new(size, crc);
        let bytes = match desc.to_bytes() {
            Ok(b) => b,
            // The size was checked just above; the descriptor cannot refuse it.
            Err(_) => vstd::pervasive::unreached(),
        };
        let header = match self.current.take() {
            Some(h) => h,
            None => vstd::pervasive::unreached(),
        };
        self.dir.add_entry(header, desc, self.header_offset);
        self.pos = self.pos + (bytes.len() as u64);
        let ghost new_stream = old_self.emitted@ + bytes@;
        self.emitted = Ghost(new_stream);
        proof {
            let h = old_self.current.unwrap()@;
            let entry = EntryView {
                name: h.name,
                modified: h.modified,
                crc,
                size,
                offset: old_self.header_offset,
            };
            lemma_placed_after_append(old_self.emitted@, bytes@, old_self.dir.entries_view());
            let content_start = entry.offset + 30 + entry.name.len();
            let content_end = content_start + entry.size;
            assert(new_stream.subrange(entry.offset as int, content_start) =~= old_self.emitted@
                .subrange(old_self.header_offset as int, old_self.content_offset as int));
            assert(new_stream.subrange(content_start, content_end) =~= old_self.emitted@.subrange(
                old_self.content_offset as int,
                old_self.pos as int,
            ));
            assert(new_stream.subrange(content_end, content_end + 16) =~= bytes@);
            assert(entry_placed(new_stream, entry));
            assert(entries_placed(new_stream, self.dir.entries_view()));
        }
        Ok(bytes)
    }

    /// Emit the archive's final chunk: the whole central directory and its
    /// end record, whose directory offset is the cursor as it stands now —
    /// the position immediately after the last descriptor. Terminal: the
    /// pipeline is consumed, no further chunks follow.
    pub fn finish(self) -> (r: Result<Vec<u8>, Error>)
        requires
            self.wf(),
            !self.in_file(),
        ensures
            (match (r, directory_out(self.entries(), self.cursor())) {
                (Ok(v), Ok(s)) => v@ == s,
                (Err(e), Err(se)) => e == se,
                _ => false,
            }),
    {
        let Zipper { files: _, next: _, pos, dir, current: _, header_offset: _, content_offset: _, hasher: _, emitted: _ } = self;
        dir.finalize(pos)
    }
}

/// One input file held wholly in memory: the name under which it is
/// archived, its modification time, and its content bytes.
pub struct InputFile {
    pub name: Vec<u8>,
    pub modified: Timestamp,
    pub content: Vec<u8>,
}

/// What the pipeline reads of one input file.
pub ghost struct InputView {
    pub name: Seq<u8>,
    pub modified: Timestamp,
    pub content: Seq<u8>,
}

impl View for InputFile {
    type V = InputView;

    closed spec fn view(&self) -> InputView {
        InputView { name: self.name@, modified: self.modified, content: self.content@ }
    }
}

/// What the pipeline does to one file whose content is streamed as a
/// single chunk, starting with the cursor at `pos`: the bytes it emits —
/// local header, content, trailing descriptor — and the entry it records,
/// or the first error that aborts the run.
pub open spec fn file_out(f: InputView, pos: int) -> Result<(Seq<u8>, EntryView), Error> {
    if !f.modified.date_ok() {
        Err(Error::DateBeforeEpoch)
    } else if f.name.len() > 0xFFFF {
        Err(Error::FileNameTooBig)
    } else if pos + 30 + f.name.len() > u64::MAX {
        Err(Error::ArchiveTooBig)
    } else if pos + 30 + f.name.len() + f.content.len() > u64::MAX {
        Err(Error::ArchiveTooBig)
    } else if f.content.len() > 0xFFFF_FFFF {
        Err(Error::FileTooBig(f.content.len() as u64))
    } else if pos + 30 + f.name.len() + f.content.len() + 16 > u64::MAX {
        Err(Error::ArchiveTooBig)
    } else {
        let header = header_bytes(f.name, f.modified.time_field(), f.modified.date_field());
        let crc = crc32_of(f.content);
        let desc = descriptor_bytes(crc, f.content.len() as u32);
        Ok(
            (
                header + f.content + desc,
                EntryView {
                    name: f.name,
                    modified: f.modified,
                    crc,
                    size: f.content.len() as u64,
                    offset: pos as u64,
                },
            ),
        )
    }
}

/// The stream and the directory after the first `n` input files.
pub open spec fn run_state(files: Seq<InputView>, n: int) -> Result<
    (Seq<u8>, Seq<EntryView>),
    Error,
>
    decreases n,
{
    if n <= 0 {
        Ok((Seq::empty(), Seq::empty()))
    } else {
        match run_state(files, n - 1) {
            Err(e) => Err(e),
            Ok((out, entries)) => match file_out(files[n - 1], out.len() as int) {
                Err(e) => Err(e),
                Ok((bytes, entry)) => Ok((out + bytes, entries.push(entry))),
            },
        }
    }
}

/// The whole archive for an in-memory input list: every file's records in
/// order, then the central directory. A function of the names, times and
/// contents alone.
pub open spec fn archive_spec(files: Seq<InputView>) -> Result<Seq<u8>, Error> {
    match run_state(files, files.len() as int) {
        Err(e) => Err(e),
        Ok((out, entries)) => match directory_out(entries, out.len() as u64) {
            Err(e) => Err(e),
            Ok(dir_bytes) => Ok(out + dir_bytes),
        },
    }
}

/// Once the run has failed, it stays failed: later steps never recover.
proof fn lemma_run_state_err(files: Seq<InputView>, i: int, n: int)
    requires
        0 <= i < n,
        run_state(files, i) is Err,
    ensures
        run_state(files, n) == run_state(files, i),
    decreases n,
{
    if n > i + 1 {
        lemma_run_state_err(files, i, n - 1);
    }
}

/// A run that has not failed has recorded exactly one directory entry per
/// input file, in input order, and each entry carries that file's name,
/// its modification time, its exact byte count as the size, and the crc-32
/// of exactly its content bytes.
pub proof fn lemma_one_entry_per_file(files: Seq<InputView>, n: int)
    requires
        0 <= n <= files.len(),
        run_state(files, n) is Ok,
    ensures
        ({
            let entries = run_state(files, n).unwrap().1;
            &&& entries.len() == n
            &&& forall|i: int|
                0 <= i < n ==> {
                    &&& (#[trigger] entries[i]).name == files[i].name
                    &&& entries[i].modified == files[i].modified
                    &&& entries[i].size == files[i].content.len()
                    &&& entries[i].crc == crc32_of(files[i].content)
                }
        }),
    decreases n,
{
    if n > 0 {
        lemma_one_entry_per_file(files, n - 1);
    }
}

/// Idempotence: the archive is a function of the input files alone, so two
/// runs of the pipeline over the same immutable input set — same names,
/// same modification times, same bytes — produce byte-identical output.
pub proof fn lemma_archive_deterministic(a: Seq<InputView>, b: Seq<InputView>)
    requires
        a == b,
    ensures
        archive_spec(a) == archive_spec(b),
{
}

/// Run the whole pipeline over an in-memory input list, each file's
/// content streamed as one chunk, and collect every emitted chunk into one
/// byte vector: the complete archive, or the first error.
pub fn write_archive(files: &Vec<InputFile>) -> (r: Result<Vec<u8>, Error>)
    requires
        forall|i: int| 0 <= i < files@.len() ==> (#[trigger] files@[i])@.modified.wf(),
    ensures
        (match (r, archive_spec(files@.map_values(|f: InputFile| f@))) {
            (Ok(v), Ok(s)) => v@ == s,
            (Err(e), Err(se)) => e == se,
            _ => false,
        }),
{
    let ghost fv = files@.map_values(|f: InputFile| f@);
    let mut z = Zipper::from_iter(Vec::new());
    let mut out: Vec<u8> = Vec::new();
    let mut i: usize = 0;
    while i < files.len()
        invariant
            i <= files@.len(),
            fv == files@.map_values(|f: InputFile| f@),
            forall|j: int| 0 <= j < files@.len() ==> (#[trigger] files@[j])@.modified.wf(),
            z.wf(),
            !z.in_file(),
            run_state(fv, i as int) == Ok::<(Seq<u8>, Seq<EntryView>), Error>(
                (z.stream(), z.entries()),
            ),
            out@ == z.stream(),
            z.cursor() == z.stream().len(),
        decreases files@.len() - i,
    {
        let ghost pre_stream = z.stream();
        let ghost pre_entries = z.entries();
        let ghost f = fv[i as int];
        let name = files[i].name.clone();
        proof {
            assert(name@ =~= f.name);
        }
        let modified = files[i].modified;
        let mut hb = match z.begin_file(name, modified) {
            Ok(b) => b,
            Err(e) => {
                proof {
                    assert(run_state(fv, i as int + 1) == Err::<(Seq<u8>, Seq<EntryView>), Error>(
                        e,
                    ));
                    if i as int + 1 < fv.len() {
                        lemma_run_state_err(fv, i as int + 1, fv.len() as int);
                    }
                }
                return Err(e);
            },
        };
        out.append(&mut hb);
        match z.consume_chunk(files[i].content.as_slice()) {
            Ok(()) => {},
            Err(e) => {
                proof {
                    assert(run_state(fv, i as int + 1) == Err::<(Seq<u8>, Seq<EntryView>), Error>(
                        e,
                    ));
                    if i as int + 1 < fv.len() {
                        lemma_run_state_err(fv, i as int + 1, fv.len() as int);
                    }
                }
                return Err(e);
            },
        }
        let mut content = files[i].content.clone();
        proof {
            assert(content@ =~= f.content);
        }
        out.append(&mut content);
        let ghost mid_stream = z.stream();
        let mut db = match z.end_file() {
            Ok(b) => b,
            Err(e) => {
                proof {
                    assert(run_state(fv, i as int + 1) == Err::<(Seq<u8>, Seq<EntryView>), Error>(
                        e,
                    ));
                    if i as int + 1 < fv.len() {
                        lemma_run_state_err(fv, i as int + 1, fv.len() as int);
                    }
                }
                return Err(e);
            },
        };
        out.append(&mut db);
        i += 1;
        proof {
            assert(mid_stream.subrange(
                pre_stream.len() + 30 + f.name.len() as int,
                mid_stream.len() as int,
            ) =~= f.content);
            let step = file_out(f, pre_stream.len() as int);
            assert(step is Ok);
            assert(z.stream() =~= pre_stream + step.unwrap().0);
            assert(z.entries()[z.entries().len() - 1] == step.unwrap().1);
            assert(z.entries() =~= pre_entries.push(step.unwrap().1));
        }
    }
    let ghost final_stream = z.stream();
    match z.finish() {
        Ok(mut d) => {
            let ghost dv = d@;
            out.append(&mut d);
            proof {
                assert(out@ =~= final_stream + dv);
            }
            Ok(out)
        },
        Err(e) => Err(e),
    }
}

} // verus!
