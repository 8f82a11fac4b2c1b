use vstd::prelude::*;

use crate::date::Timestamp;
use crate::error::Error;

verus! {

pub const LOCAL_FILE_HEADER_SIGNATURE: u32 = 0x04034b50;
pub const CENTRAL_DIRECTORY_HEADER_SIGNATURE: u32 = 0x02014b50;
pub const CENTRAL_DIRECTORY_END_SIGNATURE: u32 = 0x06054b50;
pub const DATA_DESCRIPTOR_SIGNATURE: u32 = 0x08074b50;

/// Version needed to extract: 2.0.
pub const MIN_VERSION: u16 = 20;
/// General-purpose flag bits: bit 3 (sizes unknown, a trailing descriptor
/// follows the data) and bit 11 (names are UTF-8).
pub const FLAGS: u16 = 0x0808;
/// Compression method: stored, no compression.
pub const COMPRESS_STORE: u16 = 0;

/// A 16-bit field in the format's little-endian byte order.
pub open spec fn le16(x: u16) -> Seq<u8> {
    seq![(x & 0xff) as u8, ((x >> 8) & 0xff) as u8]
}

/// A 32-bit field in the format's little-endian byte order.
pub open spec fn le32(x: u32) -> Seq<u8> {
    seq![
        (x & 0xff) as u8,
        ((x >> 8) & 0xff) as u8,
        ((x >> 16) & 0xff) as u8,
        ((x >> 24) & 0xff) as u8,
    ]
}

fn push_u16(out: &mut Vec<u8>, x: u16)
    ensures
        final(out)@ == old(out)@ + le16(x),
{
    out.push((x & 0xff) as u8);
    out.push(((x >> 8) & 0xff) as u8);
    proof {
        assert(out@ =~= old(out)@ + le16(x));
    }
}

fn push_u32(out: &mut Vec<u8>, x: u32)
    ensures
        final(out)@ == old(out)@ + le32(x),
{
    out.push((x & 0xff) as u8);
    out.push(((x >> 8) & 0xff) as u8);
    out.push(((x >> 16) & 0xff) as u8);
    out.push(((x >> 24) & 0xff) as u8);
    proof {
        assert(out@ =~= old(out)@ + le32(x));
    }
}

fn push_bytes(out: &mut Vec<u8>, data: &[u8])
    ensures
        final(out)@ == old(out)@ + data@,
{
    let ghost orig: Seq<u8> = out@;
    let mut i: usize = 0;
    while i < data.len()
        invariant
            i <= data.len(),
            out@ == orig + data@.subrange(0, i as int),
        decreases data.len() - i,
    {
        out.push(data[i]);
        i = i + 1;
        proof {
            assert(out@ =~= orig + data@.subrange(0, i as int));
        }
    }
    proof {
        assert(out@ =~= orig + data@);
    }
}

/// A value with an exact serialized form: `to_bytes` returns precisely the
/// bytes `bytes_spec` names, or precisely the error it names.
pub trait ToBytes {
    /// Serialization may be attempted on this value.
    spec fn ready(&self) -> bool;

    /// What serialization returns: the exact bytes, or the error.
    spec fn bytes_spec(&self) -> Result<Seq<u8>, Error>;

    fn to_bytes(&self) -> (r: Result<Vec<u8>, Error>)
        requires
            self.ready(),
        ensures
            (match (r, self.bytes_spec()) {
                (Ok(v), Ok(s)) => v@ == s,
                (Err(e), Err(se)) => e == se,
                _ => false,
            }),
    ;
}

/// What a local file header records about one file.
pub ghost struct HeaderView {
    pub name: Seq<u8>,
    pub modified: Timestamp,
}

/// The per-file metadata block written immediately before that file's
/// content. Sizes and checksum are not known yet when it is emitted, so
/// those fields are written as zero and `FLAGS` announces the trailing
/// descriptor that carries the real values.
pub struct FileHeader {
    file_name: Vec<u8>,
    modified: Timestamp,
}

impl View for FileHeader {
    type V = HeaderView;

    closed spec fn view(&self) -> HeaderView {
        HeaderView { name: self.file_name@, modified: self.modified }
    }
}

/// The exact 30-byte local header prefix followed by the file name.
pub open spec fn header_bytes(name: Seq<u8>, time: u16, date: u16) -> Seq<u8> {
    le32(LOCAL_FILE_HEADER_SIGNATURE) + le16(MIN_VERSION) + le16(FLAGS) + le16(COMPRESS_STORE)
        + le16(time) + le16(date) + le32(0) + le32(0) + le32(0) + le16(name.len() as u16)
        + le16(0) + name
}

impl FileHeader {
    pub open spec fn wf(self) -> bool {
        self@.modified.wf()
    }

    pub fn new(file_name: Vec<u8>, modified: Timestamp) -> (h: FileHeader)
        requires
            modified.wf(),
        ensures
            h@ == (HeaderView { name: file_name@, modified }),
    {
        FileHeader { file_name, modified }
    }
}

impl ToBytes for FileHeader {
    open spec fn ready(&self) -> bool {
        self.wf()
    }

    open spec fn bytes_spec(&self) -> Result<Seq<u8>, Error> {
        if !self@.modified.date_ok() {
            Err(Error::DateBeforeEpoch)
        } else if self@.name.len() > 0xFFFF {
            Err(Error::FileNameTooBig)
        } else {
            Ok(header_bytes(self@.name, self@.modified.time_field(), self@.modified.date_field()))
        }
    }

    fn to_bytes(&self) -> Result<Vec<u8>, Error> {
        let time = self.modified.dos_timepart();
        let date = match self.modified.dos_datepart() {
            Ok(d) => d,
            Err(e) => {
                return Err(e);
            },
        };
        if self.file_name.len() > 0xFFFF {
            return Err(Error::FileNameTooBig);
        }
        let mut h: Vec<u8> = Vec::with_capacity(30 + self.file_name.len());
        push_u32(&mut h, LOCAL_FILE_HEADER_SIGNATURE);
        push_u16(&mut h, MIN_VERSION);
        push_u16(&mut h, FLAGS);
        push_u16(&mut h, COMPRESS_STORE);
        push_u16(&mut h, time);
        push_u16(&mut h, date);
        push_u32(&mut h, 0);
        push_u32(&mut h, 0);
        push_u32(&mut h, 0);
        push_u16(&mut h, self.file_name.len() as u16);
        push_u16(&mut h, 0);
        push_bytes(&mut h, self.file_name.as_slice());
        proof {
            assert(h@ =~= header_bytes(
                self@.name,
                self@.modified.time_field(),
                self@.modified.date_field(),
            ));
        }
        Ok(h)
    }
}

/// What a trailing descriptor records: the file's byte count and checksum,
/// known only once the content has been streamed.
pub ghost struct DescriptorView {
    pub size: u64,
    pub crc: u32,
}

/// The small record written immediately after a file's content, supplying
/// the size and crc-32 the header could not know in advance.
pub struct Descriptor {
    size: u64,
    crc: u32,
}

impl View for Descriptor {
    type V = DescriptorView;

    closed spec fn view(&self) -> DescriptorView {
        DescriptorView { size: self.size, crc: self.crc }
    }
}

/// The exact 16-byte descriptor: compressed and uncompressed size coincide
/// because content is only ever stored, never compressed.
pub open spec fn descriptor_bytes(crc: u32, size: u32) -> Seq<u8> {
    le32(DATA_DESCRIPTOR_SIGNATURE) + le32(crc) + le32(size) + le32(size)
}

impl Descriptor {
    pub fn new(size: u64, crc: u32) -> (d: Descriptor)
        ensures
            d@ == (DescriptorView { size, crc }),
    {
        Descriptor { size, crc }
    }
}

impl ToBytes for Descriptor {
    open spec fn ready(&self) -> bool {
        true
    }

    open spec fn bytes_spec(&self) -> Result<Seq<u8>, Error> {
        if self@.size > 0xFFFF_FFFF {
            Err(Error::FileTooBig(self@.size))
        } else {
            Ok(descriptor_bytes(self@.crc, self@.size as u32))
        }
    }

    fn to_bytes(&self) -> Result<Vec<u8>, Error> {
        if self.size > 0xFFFF_FFFF {
            return Err(Error::FileTooBig(self.size));
        }
        let mut d: Vec<u8> = Vec::with_capacity(16);
        push_u32(&mut d, DATA_DESCRIPTOR_SIGNATURE);
        push_u32(&mut d, self.crc);
        push_u32(&mut d, self.size as u32);
        push_u32(&mut d, self.size as u32);
        proof {
            assert(d@ =~= descriptor_bytes(self@.crc, self@.size as u32));
        }
        Ok(d)
    }
}

/// What one central-directory entry records: a file's header metadata, its
/// descriptor values, and the byte offset of its local header in the stream.
pub ghost struct EntryView {
    pub name: Seq<u8>,
    pub modified: Timestamp,
    pub crc: u32,
    pub size: u64,
    pub offset: u64,
}

/// One line of the central directory: the header's metadata joined with the
/// checksum and size now known, plus where in the stream the local header
/// was written.
pub struct DirectoryEntry {
    header: FileHeader,
    desc: Descriptor,
    offset: u64,
}

impl View for DirectoryEntry {
    type V = EntryView;

    closed spec fn view(&self) -> EntryView {
        EntryView {
            name: self.header@.name,
            modified: self.header@.modified,
            crc: self.desc@.crc,
            size: self.desc@.size,
            offset: self.offset,
        }
    }
}

/// The first reason an entry cannot be serialized, in the order the fields
/// are written: an unrepresentable date, a size or name length or offset
/// over its field's limit. `None` when the entry fits the format.
pub open spec fn entry_err(e: EntryView) -> Option<Error> {
    if !e.modified.date_ok() {
        Some(Error::DateBeforeEpoch)
    } else if e.size > 0xFFFF_FFFF {
        Some(Error::FileTooBig(e.size))
    } else if e.name.len() > 0xFFFF {
        Some(Error::FileNameTooBig)
    } else if e.offset > 0xFFFF_FFFF {
        Some(Error::ArchiveTooBig)
    } else {
        None
    }
}

/// The exact 46-byte central-directory entry prefix followed by the file
/// name. Meaningful when `entry_err(e)` is `None`.
pub open spec fn entry_bytes(e: EntryView) -> Seq<u8> {
    le32(CENTRAL_DIRECTORY_HEADER_SIGNATURE) + le16(MIN_VERSION) + le16(MIN_VERSION) + le16(FLAGS)
        + le16(COMPRESS_STORE) + le16(e.modified.time_field()) + le16(e.modified.date_field())
        + le32(e.crc) + le32(e.size as u32) + le32(e.size as u32) + le16(e.name.len() as u16)
        + le16(0) + le16(0) + le16(0) + le16(0) + le32(0) + le32(e.offset as u32) + e.name
}

impl DirectoryEntry {
    pub open spec fn wf(self) -> bool {
        self@.modified.wf()
    }

    /// The byte length of this entry's central-directory record: the fixed
    /// 46-byte prefix plus the file name.
    fn size(&self) -> (r: u32)
        requires
            self@.name.len() <= 0xFFFF,
        ensures
            r == self@.name.len() + 46,
    {
        (self.header.file_name.len() + 46) as u32
    }

    fn add_to_bytes(&self, buf: &mut Vec<u8>) -> (r: Result<(), Error>)
        requires
            self.wf(),
        ensures
            (match entry_err(self@) {
                None => r == Ok::<(), Error>(()) && final(buf)@ == old(buf)@ + entry_bytes(self@),
                Some(e) => r == Err::<(), Error>(e) && final(buf)@ == old(buf)@,
            }),
    {
        let time = self.header.modified.dos_timepart();
        let date = match self.header.modified.dos_datepart() {
            Ok(d) => d,
            Err(e) => {
                return Err(e);
            },
        };
        if self.desc.size > 0xFFFF_FFFF {
            return Err(Error::FileTooBig(self.desc.size));
        }
        if self.header.file_name.len() > 0xFFFF {
            return Err(Error::FileNameTooBig);
        }
        if self.offset > 0xFFFF_FFFF {
            return Err(Error::ArchiveTooBig);
        }
        let extra = self.size();
        buf.reserve(extra as usize);
        let ghost orig: Seq<u8> = buf@;
        push_u32(buf, CENTRAL_DIRECTORY_HEADER_SIGNATURE);
        push_u16(buf, MIN_VERSION);
        push_u16(buf, MIN_VERSION);
        push_u16(buf, FLAGS);
        push_u16(buf, COMPRESS_STORE);
        push_u16(buf, time);
        push_u16(buf, date);
        push_u32(buf, self.desc.crc);
        push_u32(buf, self.desc.size as u32);
        push_u32(buf, self.desc.size as u32);
        push_u16(buf, self.header.file_name.len() as u16);
        push_u16(buf, 0);
        push_u16(buf, 0);
        push_u16(buf, 0);
        push_u16(buf, 0);
        push_u32(buf, 0);
        push_u32(buf, self.offset as u32);
        push_bytes(buf, self.header.file_name.as_slice());
        proof {
            assert(buf@ =~= orig + entry_bytes(self@));
        }
        Ok(())
    }
}

/// The exact 22-byte end-of-directory record.
pub open spec fn end_bytes(count: u16, dir_size: u32, dir_offset: u32) -> Seq<u8> {
    le32(CENTRAL_DIRECTORY_END_SIGNATURE) + le16(0) + le16(0) + le16(count) + le16(count)
        + le32(dir_size) + le32(dir_offset) + le16(0)
}

/// The fixed record closing the archive: how many entries the directory
/// lists, how long the entries are in bytes, and where the directory starts.
struct DirectoryEnd {
    number_of_files: u16,
    dir_size: u32,
    dir_offset: u64,
}

impl DirectoryEnd {
    fn add_to_bytes(&self, buf: &mut Vec<u8>) -> (r: Result<(), Error>)
        ensures
            self.dir_offset <= 0xFFFF_FFFF ==> r == Ok::<(), Error>(()) && final(buf)@ == old(buf)@
                + end_bytes(self.number_of_files, self.dir_size, self.dir_offset as u32),
            self.dir_offset > 0xFFFF_FFFF ==> r == Err::<(), Error>(Error::ArchiveTooBig)
                && final(buf)@ == old(buf)@,
    {
        if self.dir_offset > 0xFFFF_FFFF {
            return Err(Error::ArchiveTooBig);
        }
        let ghost orig: Seq<u8> = buf@;
        push_u32(buf, CENTRAL_DIRECTORY_END_SIGNATURE);
        push_u16(buf, 0);
        push_u16(buf, 0);
        push_u16(buf, self.number_of_files);
        push_u16(buf, self.number_of_files);
        push_u32(buf, self.dir_size);
        push_u32(buf, self.dir_offset as u32);
        push_u16(buf, 0);
        proof {
            assert(buf@ =~= orig + end_bytes(
                self.number_of_files,
                self.dir_size,
                self.dir_offset as u32,
            ));
        }
        Ok(())
    }
}

/// The serialized central directory: every entry's record in order.
pub open spec fn dir_entries_bytes(entries: Seq<EntryView>) -> Seq<u8>
    decreases entries.len(),
{
    if entries.len() == 0 {
        Seq::empty()
    } else {
        dir_entries_bytes(entries.drop_last()) + entry_bytes(entries.last())
    }
}

/// The first error serialization of the entries hits, walking them in
/// order; `None` when every entry fits the format.
pub open spec fn dir_first_err(entries: Seq<EntryView>) -> Option<Error>
    decreases entries.len(),
{
    if entries.len() == 0 {
        None
    } else {
        match dir_first_err(entries.drop_last()) {
            Some(e) => Some(e),
            None => entry_err(entries.last()),
        }
    }
}

/// What serializing a whole directory at byte position `offset` returns:
/// every entry's record in order, then the end record giving the entry
/// count, the entries' exact byte length, and `offset` itself.
pub open spec fn directory_out(entries: Seq<EntryView>, offset: u64) -> Result<Seq<u8>, Error> {
    match dir_first_err(entries) {
        Some(e) => Err(e),
        None => if offset > 0xFFFF_FFFF {
            Err(Error::ArchiveTooBig)
        } else {
            Ok(
                dir_entries_bytes(entries) + end_bytes(
                    (entries.len() % 0x10000) as u16,
                    (dir_entries_bytes(entries).len() % 0x1_0000_0000) as u32,
                    offset as u32,
                ),
            )
        },
    }
}

/// The end-of-directory record closes the archive with the directory
/// offset it was finalized at — the cursor right after the last descriptor
/// — and with the exact byte length of the serialized entries, the end
/// record itself excluded.
pub proof fn lemma_directory_layout(entries: Seq<EntryView>, offset: u64)
    requires
        dir_first_err(entries) is None,
        offset <= 0xFFFF_FFFF,
    ensures
        directory_out(entries, offset) == Ok::<Seq<u8>, Error>(
            dir_entries_bytes(entries) + end_bytes(
                (entries.len() % 0x10000) as u16,
                (dir_entries_bytes(entries).len() % 0x1_0000_0000) as u32,
                offset as u32,
            ),
        ),
{
}

/// The accumulator for the central directory: one entry per finished file,
/// in processing order, and — set exactly once, at the end — the byte
/// position where the directory itself begins.
pub struct Directory {
    entries: Vec<DirectoryEntry>,
    offset: Option<u64>,
}

impl Directory {
    pub closed spec fn entries_view(self) -> Seq<EntryView> {
        self.entries@.map_values(|e: DirectoryEntry| e@)
    }

    pub closed spec fn offset_view(self) -> Option<u64> {
        self.offset
    }

    pub open spec fn wf(self) -> bool {
        forall|i: int|
            0 <= i < self.entries_view().len() ==> (#[trigger] self.entries_view()[i]).modified.wf()
    }

    pub fn new() -> (d: Directory)
        ensures
            d.entries_view() == Seq::<EntryView>::empty(),
            d.offset_view() is None,
            d.wf(),
    {
        let d = Directory { entries: Vec::new(), offset: None };
        proof {
            assert(d.entries_view() =~= Seq::<EntryView>::empty());
        }
        d
    }

    /// Append one entry, in call order: the caller hands over the header and
    /// descriptor of a finished file and the stream offset of its header.
    pub fn add_entry(&mut self, header: FileHeader, desc: Descriptor, offset: u64)
        requires
            old(self).wf(),
            header.wf(),
        ensures
            final(self).wf(),
            final(self).entries_view() == old(self).entries_view().push(
                EntryView {
                    name: header@.name,
                    modified: header@.modified,
                    crc: desc@.crc,
                    size: desc@.size,
                    offset,
                },
            ),
            final(self).offset_view() == old(self).offset_view(),
    {
        let ghost entry_v = EntryView {
            name: header@.name,
            modified: header@.modified,
            crc: desc@.crc,
            size: desc@.size,
            offset,
        };
        self.entries.push(DirectoryEntry { header, desc, offset });
        proof {
            assert(self.entries_view() =~= old(self).entries_view().push(entry_v));
        }
    }

    /// Set the directory's start offset — the cursor value just before the
    /// directory is emitted — and serialize: every entry's record in order,
    /// then the end record. A one-time, terminal operation.
    pub fn finalize(self, offset: u64) -> (r: Result<Vec<u8>, Error>)
        requires
            self.wf(),
        ensures
            (match (r, directory_out(self.entries_view(), offset)) {
                (Ok(v), Ok(s)) => v@ == s,
                (Err(e), Err(se)) => e == se,
                _ => false,
            }),
    {
        let mut s = self;
        s.offset = Some(offset);
        s.to_bytes()
    }
}

/// If every entry of a prefix serializes and the next one does not, the
/// whole directory's first error is that entry's.
proof fn lemma_dir_first_err_at(entries: Seq<EntryView>, i: int)
    requires
        0 <= i < entries.len(),
        dir_first_err(entries.take(i)) is None,
        entry_err(entries[i]) is Some,
    ensures
        dir_first_err(entries) == entry_err(entries[i]),
    decreases entries.len(),
{
    if entries.len() - 1 == i {
        assert(entries.drop_last() =~= entries.take(i));
        assert(entries.last() == entries[i]);
    } else {
        assert(entries.drop_last().take(i) =~= entries.take(i));
        lemma_dir_first_err_at(entries.drop_last(), i);
        assert(entries.drop_last()[i] == entries[i]);
    }
}

impl ToBytes for Directory {
    open spec fn ready(&self) -> bool {
        self.wf() && self.offset_view() is Some
    }

    open spec fn bytes_spec(&self) -> Result<Seq<u8>, Error> {
        directory_out(self.entries_view(), self.offset_view().unwrap())
    }

    #[verifier::rlimit(60)]
    fn to_bytes(&self) -> Result<Vec<u8>, Error> {
        let num_files: u16 = (self.entries.len() % 0x10000) as u16;
        let mut d: Vec<u8> = Vec::new();
        let mut i: usize = 0;
        while i < self.entries.len()
            invariant
                i <= self.entries.len(),
                self.wf(),
                dir_first_err(self.entries_view().take(i as int)) is None,
                d@ == dir_entries_bytes(self.entries_view().take(i as int)),
            decreases self.entries.len() - i,
        {
            let ghost pre = self.entries_view().take(i as int);
            proof {
                assert(self.entries_view()[i as int] == self.entries@[i as int]@);
            }
            match self.entries[i].add_to_bytes(&mut d) {
                Ok(()) => {},
                Err(e) => {
                    proof {
                        lemma_dir_first_err_at(self.entries_view(), i as int);
                    }
                    return Err(e);
                },
            }
            i += 1;
            proof {
                let cur = self.entries_view().take(i as int);
                assert(cur.drop_last() =~= pre);
                assert(cur.last() == self.entries_view()[i - 1]);
            }
        }
        proof {
            assert(self.entries_view().take(self.entries@.len() as int) =~= self.entries_view());
        }
        let dir_size: u32 = ((d.len() as u64) % 0x1_0000_0000) as u32;
        let offset: u64 = match self.offset {
            Some(o) => o,
            // Serializing before the offset is set breaks this function's
            // contract; no verified caller reaches this arm.
            None => vstd::pervasive::unreached(),
        };
        if offset > 0xFFFF_FFFF {
            return Err(Error::ArchiveTooBig);
        }
        let end = DirectoryEnd { number_of_files: num_files, dir_size, dir_offset: offset };
        match end.add_to_bytes(&mut d) {
            Ok(()) => {},
            Err(_) => {
                proof {
                    assert(false);
                }
            },
        }
        proof {
            let ev = self.entries_view();
            assert(dir_first_err(ev) is None);
            assert(num_files == (ev.len() % 0x10000) as u16);
            assert(dir_size == (dir_entries_bytes(ev).len() % 0x1_0000_0000) as u32);
            assert(d@ == dir_entries_bytes(ev) + end_bytes(num_files, dir_size, offset as u32));
        }
        Ok(d)
    }
}

} // verus!
