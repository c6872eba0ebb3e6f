//! The system calls on directories.
use crate::bytes::{
    get_le, law_le_bytes_round_trip, le_bytes, le_value, lemma_le_bytes_len, lemma_values, put_le,
};
use crate::errno::LinuxError;
use crate::frame::splice;
use crate::user::UserRef;
use vstd::prelude::*;

verus! {

/// The ioctl() system call manipulates the underlying device parameters
/// of special files. It has no effect so far.
///
/// # Arguments
/// * `fd` - The file descriptor
/// * `op` - The request code. It is of type unsigned long in glibc and BSD,
///   and of type int in musl and other UNIX systems.
/// * `argp` - The argument to the request. It is a pointer to a memory location
pub fn sys_ioctl(fd: i32, op: usize, argp: usize) -> (r: Result<isize, LinuxError>)
    ensures
        r == Ok::<isize, LinuxError>(0),
{
    Ok(0)
}

/// The type of a file in a directory.
#[derive(Debug, Clone, Copy, PartialEq, Eq, Structural)]
pub enum FileType {
    Unknown,
    Fifo,
    Chr,
    Dir,
    Blk,
    Reg,
    Lnk,
    Socket,
    Wht,
}

impl FileType {
    /// The number that stands for the type.
    pub open spec fn spec_code(self) -> u8 {
        match self {
            FileType::Unknown => 0,
            FileType::Fifo => 1,
            FileType::Chr => 2,
            FileType::Dir => 4,
            FileType::Blk => 6,
            FileType::Reg => 8,
            FileType::Lnk => 10,
            FileType::Socket => 12,
            FileType::Wht => 14,
        }
    }

    /// Returns the number that stands for the type.
    pub fn code(self) -> (r: u8)
        ensures
            r == self.spec_code(),
    {
        match self {
            FileType::Unknown => 0,
            FileType::Fifo => 1,
            FileType::Chr => 2,
            FileType::Dir => 4,
            FileType::Blk => 6,
            FileType::Reg => 8,
            FileType::Lnk => 10,
            FileType::Socket => 12,
            FileType::Wht => 14,
        }
    }

    /// Returns the type of a file that the file system calls a directory or a
    /// regular file, or neither.
    pub fn from_kind(is_dir: bool, is_file: bool) -> (r: FileType)
        ensures
            r == if is_dir {
                FileType::Dir
            } else if is_file {
                FileType::Reg
            } else {
                FileType::Unknown
            },
    {
        if is_dir {
            FileType::Dir
        } else if is_file {
            FileType::Reg
        } else {
            FileType::Unknown
        }
    }
}

/// The head of a directory entry. The name follows it.
#[derive(Debug, Clone, Copy, PartialEq, Eq, Structural)]
pub struct DirEnt {
    pub d_ino: u64,
    /// Where the next entry begins.
    pub d_off: i64,
    /// The length of the entry with its name.
    pub d_reclen: u16,
    pub d_type: u8,
}

/// The length of the head of an entry.
pub const FIXED_SIZE: usize = 19;

impl DirEnt {
    /// The bytes of the head.
    pub open spec fn head(self) -> Seq<u8> {
        le_bytes(self.d_ino as int, 8) + le_bytes(self.d_off as u64 as int, 8) + le_bytes(
            self.d_reclen as int,
            2,
        ) + seq![self.d_type]
    }

    /// The head that bytes hold at `at`.
    pub open spec fn at(bytes: Seq<u8>, at: int) -> DirEnt {
        DirEnt {
            d_ino: le_value(bytes.subrange(at, at + 8)) as u64,
            d_off: le_value(bytes.subrange(at + 8, at + 16)) as u64 as i64,
            d_reclen: le_value(bytes.subrange(at + 16, at + 18)) as u16,
            d_type: bytes[at + 18],
        }
    }

    /// Returns the head of an entry.
    pub fn new(ino: u64, off: i64, reclen: usize, file_type: FileType) -> (r: DirEnt)
        ensures
            r == (DirEnt {
                d_ino: ino,
                d_off: off,
                d_reclen: reclen as u16,
                d_type: file_type.spec_code(),
            }),
    {
        DirEnt { d_ino: ino, d_off: off, d_reclen: reclen as u16, d_type: file_type.code() }
    }

    /// Returns the bytes of the head.
    fn bytes(&self) -> (r: Vec<u8>)
        ensures
            r@ == self.head(),
            r@.len() == FIXED_SIZE,
    {
        let mut head = put_le(self.d_ino, 8);
        let mut off = put_le(self.d_off as u64, 8);
        let mut reclen = put_le(self.d_reclen as u64, 2);
        head.append(&mut off);
        head.append(&mut reclen);
        head.push(self.d_type);
        assert(head@ =~= self.head());
        head
    }
}

/// The head of an entry comes back from its bytes, wherever they lie.
pub proof fn law_dirent_round_trip(ent: DirEnt, bytes: Seq<u8>, at: int)
    requires
        0 <= at,
        at + FIXED_SIZE <= bytes.len(),
        bytes.subrange(at, at + FIXED_SIZE) == ent.head(),
    ensures
        DirEnt::at(bytes, at) == ent,
{
    let head = ent.head();
    lemma_values();
    lemma_le_bytes_len(ent.d_ino as int, 8);
    lemma_le_bytes_len(ent.d_off as u64 as int, 8);
    lemma_le_bytes_len(ent.d_reclen as int, 2);
    law_le_bytes_round_trip(ent.d_ino as int, 8);
    law_le_bytes_round_trip(ent.d_off as u64 as int, 8);
    law_le_bytes_round_trip(ent.d_reclen as int, 2);
    assert forall|i: int| 0 <= i < FIXED_SIZE implies #[trigger] bytes[at + i] == head[i] by {
        assert(bytes.subrange(at, at + FIXED_SIZE)[i] == head[i]);
    }
    assert(bytes.subrange(at, at + 8) =~= le_bytes(ent.d_ino as int, 8));
    let off_bytes = le_bytes(ent.d_off as u64 as int, 8);
    assert forall|i: int| 0 <= i < 8 implies bytes.subrange(at + 8, at + 16)[i] == off_bytes[i] by {
        assert(bytes[at + (8 + i)] == head[8 + i]);
        assert(head[8 + i] == off_bytes[i]);
    }
    assert(bytes.subrange(at + 8, at + 16) =~= off_bytes);
    let len_bytes = le_bytes(ent.d_reclen as int, 2);
    assert forall|i: int| 0 <= i < 2 implies bytes.subrange(at + 16, at + 18)[i]
        == len_bytes[i] by {
        assert(bytes[at + (16 + i)] == head[16 + i]);
        assert(head[16 + i] == len_bytes[i]);
    }
    assert(bytes.subrange(at + 16, at + 18) =~= len_bytes);
    assert(bytes[at + 18] == head[18]);
    let off = ent.d_off;
    assert(off as u64 as i64 == off) by (bit_vector);
}

/// The buffer that directory entries are written to.
pub struct DirBuffer {
    buf: Vec<u8>,
    offset: usize,
}

/// The model of [`DirBuffer`].
#[verifier::ext_equal]
pub struct DirBufferView {
    pub bytes: Seq<u8>,
    pub offset: int,
}

impl DirBufferView {
    /// How much room is left.
    pub open spec fn remaining(self) -> int {
        if self.offset <= self.bytes.len() {
            self.bytes.len() - self.offset
        } else {
            0
        }
    }

    /// The head of the entry at an offset, if the buffer reaches so far.
    pub open spec fn entry_at(self, at: int) -> Option<DirEnt> {
        if at + FIXED_SIZE > self.bytes.len() {
            None
        } else {
            Some(DirEnt::at(self.bytes, at))
        }
    }

    /// Writes an entry where the last one ends.
    pub open spec fn with_entry(self, ent: DirEnt, name: Seq<u8>) -> DirBufferView {
        DirBufferView {
            bytes: splice(self.bytes, self.offset, ent.head() + name),
            offset: self.offset + ent.d_reclen,
        }
    }
}

impl View for DirBuffer {
    type V = DirBufferView;

    closed spec fn view(&self) -> DirBufferView {
        DirBufferView { bytes: self.buf@, offset: self.offset as int }
    }
}

impl DirBuffer {
    /// Where a buffer goes on is never before its beginning.
    pub proof fn lemma_offset(&self)
        ensures
            0 <= self@.offset <= usize::MAX,
    {
    }

    /// Returns an empty buffer over the bytes `buf`.
    pub fn new(buf: Vec<u8>) -> (r: DirBuffer)
        ensures
            r@.bytes == buf@,
            r@.offset == 0,
    {
        DirBuffer { buf, offset: 0 }
    }

    /// Returns how much room is left.
    pub fn remaining_space(&self) -> (r: usize)
        ensures
            r == self@.remaining(),
    {
        self.buf.len().saturating_sub(self.offset)
    }

    /// Whether an entry of this size has room.
    pub fn can_fit_entry(&self, entry_size: usize) -> (r: bool)
        ensures
            r == (self@.remaining() >= entry_size),
    {
        self.remaining_space() >= entry_size
    }

    /// Writes an entry where the last one ends, if its length has room.
    pub fn write_entry(&mut self, dirent: DirEnt, name: &Vec<u8>) -> (r: Result<(), ()>)
        requires
            old(self)@.remaining() >= dirent.d_reclen ==> old(self)@.remaining() >= FIXED_SIZE
                + name@.len(),
        ensures
            final(self)@.bytes.len() == old(self)@.bytes.len(),
            match r {
                Ok(_) => {
                    &&& old(self)@.remaining() >= dirent.d_reclen
                    &&& final(self)@ == old(self)@.with_entry(dirent, name@)
                },
                Err(_) => {
                    &&& old(self)@.remaining() < dirent.d_reclen
                    &&& final(self)@ == old(self)@
                },
            },
    {
        if !self.can_fit_entry(dirent.d_reclen as usize) {
            return Err(());
        }
        let mut entry = dirent.bytes();
        let mut i: usize = 0;
        let ghost head = dirent.head();
        while i < name.len()
            invariant
                i <= name@.len(),
                entry@ == head + name@.take(i as int),
            decreases name@.len() - i,
        {
            entry.push(name[i]);
            i = i + 1;
            assert(entry@ =~= head + name@.take(i as int));
        }
        let ghost all = head + name@;
        assert(entry@ =~= all);
        let ghost before = self.buf@;
        assert(self.offset + dirent.d_reclen <= self.buf.len());
        let at: usize = self.offset;
        let mut j: usize = 0;
        while j < entry.len()
            invariant
                j <= entry@.len(),
                at + entry@.len() <= self.buf.len(),
                self.buf@.len() == before.len(),
                self.offset == at,
                forall|k: int| 0 <= k < j ==> #[trigger] self.buf@[at + k] == entry@[k],
                forall|k: int|
                    0 <= k < before.len() && !(at <= k < at + j) ==> #[trigger] self.buf@[k]
                        == before[k],
            decreases entry@.len() - j,
        {
            self.buf.set(at + j, entry[j]);
            j = j + 1;
        }
        assert(self.buf@ =~= splice(before, at as int, all)) by {
            assert forall|k: int| 0 <= k < before.len() implies #[trigger] self.buf@[k] == splice(
                before,
                at as int,
                all,
            )[k] by {
                if at <= k < at + entry@.len() {
                    assert(self.buf@[at + (k - at)] == entry@[k - at]);
                }
            }
        }
        self.offset = self.offset + dirent.d_reclen as usize;
        Ok(())
    }

    /// Returns the head of the entry at `offset`, if the buffer reaches so far.
    pub fn read_entry(&self, offset: usize) -> (r: Option<DirEnt>)
        requires
            offset + FIXED_SIZE <= usize::MAX,
        ensures
            r == self@.entry_at(offset as int),
            r is None <==> offset + FIXED_SIZE > self@.bytes.len(),
    {
        if offset + FIXED_SIZE > self.buf.len() {
            return None;
        }
        let ino: u64 = get_le(&self.buf, offset, 8);
        let off: u64 = get_le(&self.buf, offset + 8, 8);
        let reclen: u64 = get_le(&self.buf, offset + 16, 2);
        Some(
            DirEnt {
                d_ino: ino,
                d_off: off as i64,
                d_reclen: reclen as u16,
                d_type: self.buf[offset + 18],
            },
        )
    }

    /// Gives the bytes back.
    pub fn into_bytes(self) -> (r: Vec<u8>)
        ensures
            r@ == self@.bytes,
    {
        self.buf
    }
}

/// A file in a directory.
pub struct DirEntry {
    /// The name, as bytes.
    pub name: Vec<u8>,
    pub file_type: FileType,
}

/// The length of the entry of a file: its head, its name and a zero.
pub open spec fn entry_size(entry: DirEntry) -> int {
    FIXED_SIZE + entry.name@.len() + 1
}

/// Whether the length of every entry can be told.
pub open spec fn names_fit(entries: Seq<DirEntry>) -> bool {
    forall|i: int| 0 <= i < entries.len() ==> entry_size(#[trigger] entries[i]) <= u16::MAX
}

/// Where the entries end that bytes hold from `at` on, and how many they are. They
/// end at an entry of no length, or where there is no room for one.
pub open spec fn scan(bytes: Seq<u8>, at: int) -> (int, int)
    decreases bytes.len() + 0x1_0000 - at,
{
    if at < 0 || at + FIXED_SIZE > bytes.len() || DirEnt::at(bytes, at).d_reclen == 0 {
        (at, 0)
    } else {
        let (end, count) = scan(bytes, at + DirEnt::at(bytes, at).d_reclen);
        (end, count + 1)
    }
}

/// Whether each entry that bytes hold from `at` on says where the next begins.
pub open spec fn consistent(bytes: Seq<u8>, at: int) -> bool
    decreases bytes.len() + 0x1_0000 - at,
{
    if at < 0 || at + FIXED_SIZE > bytes.len() || DirEnt::at(bytes, at).d_reclen == 0 {
        true
    } else {
        let ent = DirEnt::at(bytes, at);
        ent.d_off == at + ent.d_reclen && consistent(bytes, at + ent.d_reclen)
    }
}

/// How far a listing has come.
#[verifier::ext_equal]
pub struct Listing {
    pub buffer: DirBufferView,
    /// The offset that the last entry names.
    pub current: int,
    /// What the call returns.
    pub total: int,
}

impl Listing {
    /// The listing with one more entry, which has room.
    pub open spec fn with_file(self, entry: DirEntry) -> Listing {
        let size = entry_size(entry);
        let ent = DirEnt {
            d_ino: 1,
            d_off: (self.current + size) as i64,
            d_reclen: size as u16,
            d_type: entry.file_type.spec_code(),
        };
        Listing {
            buffer: self.buffer.with_entry(ent, entry.name@.push(0)),
            current: self.current + size,
            total: self.total + size,
        }
    }

    /// The listing with the entries from `k` on, up to the first that has no
    /// room. That one is counted in the offset nevertheless.
    pub open spec fn with_files(self, entries: Seq<DirEntry>, k: int) -> Listing
        decreases entries.len() - k,
    {
        if k < 0 || k >= entries.len() {
            self
        } else if self.buffer.remaining() < entry_size(entries[k]) {
            Listing { current: self.current + entry_size(entries[k]), ..self }
        } else {
            self.with_file(entries[k]).with_files(entries, k + 1)
        }
    }

    /// How many of the entries from `k` on have room.
    pub open spec fn fitting(self, entries: Seq<DirEntry>, k: int) -> int
        decreases entries.len() - k,
    {
        if k < 0 || k >= entries.len() || self.buffer.remaining() < entry_size(entries[k]) {
            0
        } else {
            1 + self.with_file(entries[k]).fitting(entries, k + 1)
        }
    }

    /// The bytes of the listing, with an entry of no length at its end if it is
    /// not empty and there is room.
    pub open spec fn finished(self) -> Seq<u8> {
        if self.total > 0 && self.buffer.remaining() >= FIXED_SIZE {
            let last = DirEnt {
                d_ino: 1,
                d_off: self.current as i64,
                d_reclen: 0,
                d_type: FileType::Reg.spec_code(),
            };
            self.buffer.with_entry(last, Seq::empty()).bytes
        } else {
            self.buffer.bytes
        }
    }
}

/// The listing that a call begins with: the buffer tells how far the last call
/// has come, and is written from its beginning.
pub open spec fn listing_start(bytes: Seq<u8>) -> Listing {
    let end = scan(bytes, 0).0;
    Listing { buffer: DirBufferView { bytes, offset: 0 }, current: end, total: end }
}

/// The listing that a call makes.
pub open spec fn listing(bytes: Seq<u8>, entries: Seq<DirEntry>) -> Listing {
    listing_start(bytes).with_files(entries, scan(bytes, 0).1)
}

/// Whether a buffer is small enough that offsets in it can be told.
pub open spec fn listing_fits(bytes: Seq<u8>) -> bool {
    2 * bytes.len() + 0x4_0000 <= isize::MAX && 2 * bytes.len() + 0x4_0000 <= i64::MAX
}

/// Where the entries end that a buffer holds, and how many they are, or `None`
/// if one of them does not say where the next begins.
pub fn scan_entries(buffer: &DirBuffer) -> (r: Option<(usize, usize)>)
    requires
        listing_fits(buffer@.bytes),
    ensures
        match r {
            Some((end, count)) => {
                &&& consistent(buffer@.bytes, 0)
                &&& (end as int, count as int) == scan(buffer@.bytes, 0)
                &&& end <= buffer@.bytes.len() + u16::MAX
            },
            None => !consistent(buffer@.bytes, 0),
        },
{
    let mut at: usize = 0;
    let mut count: usize = 0;
    let ghost bytes = buffer@.bytes;
    loop
        invariant
            bytes == buffer@.bytes,
            listing_fits(bytes),
            count <= at <= bytes.len() + u16::MAX,
            consistent(bytes, at as int) == consistent(bytes, 0),
            scan(bytes, 0) == (scan(bytes, at as int).0, scan(bytes, at as int).1 + count),
        decreases bytes.len() + u16::MAX - at,
    {
        match buffer.read_entry(at) {
            None => {
                return Some((at, count));
            },
            Some(ent) => {
                if ent.d_reclen == 0 {
                    return Some((at, count));
                }
                let next: usize = at + ent.d_reclen as usize;
                if ent.d_off != next as i64 {
                    return None;
                }
                at = next;
                count = count + 1;
            },
        }
    }
}

/// Lists a directory into a buffer, which is given back, and returns how far the
/// listing has come. `dir` holds the files of the directory.
///
/// The buffer of the last call tells where to go on: as many files are passed
/// over as it has entries.
pub fn sys_getdents64(buf: Vec<u8>, dir: Result<Vec<DirEntry>, LinuxError>) -> (r: (
    Vec<u8>,
    Result<isize, LinuxError>,
))
    requires
        listing_fits(buf@),
        buf@.len() >= FIXED_SIZE ==> consistent(buf@, 0),
        dir matches Ok(entries) ==> names_fit(entries@),
    ensures
        if buf@.len() < FIXED_SIZE {
            r.0@ == buf@ && r.1 == Err::<isize, LinuxError>(LinuxError::EINVAL)
        } else {
            match dir {
                Err(e) => r.0@ == buf@ && r.1 == Err::<isize, LinuxError>(e),
                Ok(entries) => {
                    &&& r.0@ == listing(buf@, entries@).finished()
                    &&& r.1 matches Ok(total)
                    &&& total == listing(buf@, entries@).total
                },
            }
        },
{
    if buf.len() < FIXED_SIZE {
        return (buf, Err(LinuxError::EINVAL));
    }
    let ghost bytes = buf@;
    let mut buffer = DirBuffer::new(buf);
    let (start, count) = match scan_entries(&buffer) {
        Some(scanned) => scanned,
        None => {
            return (buffer.into_bytes(), Err(LinuxError::EINVAL));
        },
    };
    let entries = match dir {
        Err(e) => {
            return (buffer.into_bytes(), Err(e));
        },
        Ok(entries) => entries,
    };
    let mut total: usize = start;
    let mut current: i64 = start as i64;
    let mut k: usize = count;
    let ghost goal = listing(bytes, entries@);
    while k < entries.len()
        invariant_except_break
            current == total,
            goal == (Listing { buffer: buffer@, current: current as int, total: total as int }).with_files(
                entries@,
                k as int,
            ),
        invariant
            names_fit(entries@),
            listing_fits(bytes),
            buffer@.bytes.len() == bytes.len(),
            start <= bytes.len() + u16::MAX,
            0 <= buffer@.offset <= bytes.len(),
            total == start + buffer@.offset,
        ensures
            goal == (Listing { buffer: buffer@, current: current as int, total: total as int }),
        decreases entries@.len() - k,
    {
        let entry = &entries[k];
        assert(entry_size(*entry) <= u16::MAX);
        let mut name: Vec<u8> = Vec::new();
        let mut i: usize = 0;
        while i < entry.name.len()
            invariant
                i <= entry.name@.len(),
                name@ == entry.name@.take(i as int),
            decreases entry.name@.len() - i,
        {
            name.push(entry.name[i]);
            i = i + 1;
            assert(name@ =~= entry.name@.take(i as int));
        }
        assert(entry.name@.take(i as int) =~= entry.name@);
        name.push(0);
        let size: usize = FIXED_SIZE + name.len();
        let ghost before = Listing {
            buffer: buffer@,
            current: current as int,
            total: total as int,
        };
        current = current + size as i64;
        let dirent = DirEnt::new(1, current, size, entry.file_type);
        if buffer.write_entry(dirent, &name).is_err() {
            assert(goal == (Listing { current: current as int, ..before }));
            break;
        }
        total = total + size;
        k = k + 1;
    }
    if total > 0 && buffer.can_fit_entry(FIXED_SIZE) {
        let terminal = DirEnt::new(1, current, 0, FileType::Reg);
        let no_name: Vec<u8> = Vec::new();
        let _ = buffer.write_entry(terminal, &no_name);
    }
    (buffer.into_bytes(), Ok(total as isize))
}

/// Whether bytes hold `count` entries between `at` and `end`, each of which says
/// where the next begins.
spec fn chain(bytes: Seq<u8>, at: int, end: int, count: int) -> bool
    decreases count,
{
    if count <= 0 {
        count == 0 && at == end
    } else {
        let ent = DirEnt::at(bytes, at);
        &&& 0 <= at
        &&& ent.d_reclen >= FIXED_SIZE
        &&& ent.d_off == at + ent.d_reclen
        &&& at + ent.d_reclen <= end <= bytes.len()
        &&& chain(bytes, at + ent.d_reclen, end, count - 1)
    }
}

/// The head of an entry depends on its own bytes only.
proof fn lemma_entry_kept(a: Seq<u8>, b: Seq<u8>, at: int)
    requires
        0 <= at,
        at + FIXED_SIZE <= a.len(),
        a.len() == b.len(),
        forall|i: int| at <= i < at + FIXED_SIZE ==> a[i] == b[i],
    ensures
        DirEnt::at(a, at) == DirEnt::at(b, at),
{
    assert(a.subrange(at, at + 8) =~= b.subrange(at, at + 8));
    assert(a.subrange(at + 8, at + 16) =~= b.subrange(at + 8, at + 16));
    assert(a.subrange(at + 16, at + 18) =~= b.subrange(at + 16, at + 18));
}

/// What is written behind entries does not change them.
proof fn lemma_chain_kept(a: Seq<u8>, b: Seq<u8>, at: int, end: int, count: int)
    requires
        chain(a, at, end, count),
        a.len() == b.len(),
        forall|i: int| 0 <= i < end ==> a[i] == b[i],
    ensures
        chain(b, at, end, count),
    decreases count,
{
    if count > 0 {
        lemma_entry_kept(a, b, at);
        lemma_chain_kept(a, b, at + DirEnt::at(a, at).d_reclen, end, count - 1);
    }
}

/// One more entry.
proof fn lemma_chain_longer(bytes: Seq<u8>, at: int, end: int, count: int)
    requires
        0 <= at <= end,
        chain(bytes, at, end, count),
        count >= 0,
        DirEnt::at(bytes, end).d_reclen >= FIXED_SIZE,
        DirEnt::at(bytes, end).d_off == end + DirEnt::at(bytes, end).d_reclen,
        end + DirEnt::at(bytes, end).d_reclen <= bytes.len(),
    ensures
        chain(bytes, at, end + DirEnt::at(bytes, end).d_reclen, count + 1),
    decreases count,
{
    let more = end + DirEnt::at(bytes, end).d_reclen;
    if count > 0 {
        lemma_chain_longer(bytes, at + DirEnt::at(bytes, at).d_reclen, end, count - 1);
    } else {
        assert(chain(bytes, more, more, 0));
    }
}

/// A scan finds no fewer than no entries.
proof fn lemma_scan_count(bytes: Seq<u8>, at: int)
    ensures
        scan(bytes, at).1 >= 0,
    decreases bytes.len() + 0x1_0000 - at,
{
    if !(at < 0 || at + FIXED_SIZE > bytes.len() || DirEnt::at(bytes, at).d_reclen == 0) {
        lemma_scan_count(bytes, at + DirEnt::at(bytes, at).d_reclen);
    }
}

/// Entries that end where a scan stops are found by it.
proof fn lemma_chain_scanned(bytes: Seq<u8>, at: int, end: int, count: int)
    requires
        0 <= at,
        chain(bytes, at, end, count),
        end + FIXED_SIZE > bytes.len() || DirEnt::at(bytes, end).d_reclen == 0,
    ensures
        scan(bytes, at) == (end, count),
        consistent(bytes, at),
    decreases count,
{
    if count > 0 {
        lemma_chain_scanned(bytes, at + DirEnt::at(bytes, at).d_reclen, end, count - 1);
    }
}

/// An entry that was written is found where it was written.
proof fn lemma_written_entry(buffer: DirBufferView, ent: DirEnt, name: Seq<u8>)
    requires
        0 <= buffer.offset,
        buffer.offset + FIXED_SIZE + name.len() <= buffer.bytes.len(),
    ensures
        DirEnt::at(buffer.with_entry(ent, name).bytes, buffer.offset) == ent,
        buffer.with_entry(ent, name).bytes.len() == buffer.bytes.len(),
        forall|i: int|
            0 <= i < buffer.offset ==> #[trigger] buffer.with_entry(ent, name).bytes[i]
                == buffer.bytes[i],
{
    let at = buffer.offset;
    let after = buffer.with_entry(ent, name).bytes;
    lemma_le_bytes_len(ent.d_ino as int, 8);
    lemma_le_bytes_len(ent.d_off as u64 as int, 8);
    lemma_le_bytes_len(ent.d_reclen as int, 2);
    assert(ent.head().len() == FIXED_SIZE);
    assert(after.subrange(at, at + FIXED_SIZE) =~= ent.head());
    law_dirent_round_trip(ent, after, at);
}

/// What was written can be read: the head of an entry that has just been written
/// is read where it was written, and what lies before it is as it was.
pub proof fn law_read_entry_after_write_entry(buffer: DirBufferView, ent: DirEnt, name: Seq<u8>)
    requires
        0 <= buffer.offset,
        buffer.remaining() >= ent.d_reclen,
        buffer.remaining() >= FIXED_SIZE + name.len(),
    ensures
        buffer.with_entry(ent, name).entry_at(buffer.offset) == Some(ent),
        buffer.with_entry(ent, name).bytes.len() == buffer.bytes.len(),
        forall|i: int|
            0 <= i < buffer.offset ==> #[trigger] buffer.with_entry(ent, name).bytes[i]
                == buffer.bytes[i],
{
    lemma_written_entry(buffer, ent, name);
}

/// The entries that a listing adds lie behind those that it has.
proof fn lemma_listing_chain(l: Listing, entries: Seq<DirEntry>, k: int, count: int)
    requires
        0 <= k,
        0 <= count,
        names_fit(entries),
        listing_fits(l.buffer.bytes),
        0 <= l.buffer.offset <= l.buffer.bytes.len(),
        l.current == l.buffer.offset,
        l.total == l.buffer.offset,
        chain(l.buffer.bytes, 0, l.buffer.offset, count),
    ensures
        ({
            let after = l.with_files(entries, k);
            let n = l.fitting(entries, k);
            &&& 0 <= n <= entries.len() - k || k > entries.len() && n == 0
            &&& after.buffer.bytes.len() == l.buffer.bytes.len()
            &&& l.buffer.offset <= after.buffer.offset <= after.buffer.bytes.len()
            &&& after.total == after.buffer.offset
            &&& chain(after.buffer.bytes, 0, after.buffer.offset, count + n)
            &&& n == 0 ==> after.buffer == l.buffer
        }),
    decreases entries.len() - k,
{
    if k < entries.len() && l.buffer.remaining() >= entry_size(entries[k]) {
        let entry = entries[k];
        let size = entry_size(entry);
        let name = entry.name@.push(0);
        let ent = DirEnt {
            d_ino: 1,
            d_off: (l.current + size) as i64,
            d_reclen: size as u16,
            d_type: entry.file_type.spec_code(),
        };
        let next = l.with_file(entry);
        lemma_written_entry(l.buffer, ent, name);
        lemma_chain_kept(l.buffer.bytes, next.buffer.bytes, 0, l.buffer.offset, count);
        lemma_chain_longer(next.buffer.bytes, 0, l.buffer.offset, count);
        lemma_listing_chain(next, entries, k + 1, count + 1);
    }
}

/// A call goes on where the last one stopped: the buffer that a call has filled
/// holds one entry for each file that it lists, each says where the next begins,
/// and they end where the call says. So the next call passes over just these
/// files.
pub proof fn law_getdents_resumes(bytes: Seq<u8>, entries: Seq<DirEntry>)
    requires
        listing_fits(bytes),
        bytes.len() >= FIXED_SIZE,
        names_fit(entries),
        scan(bytes, 0) == (0int, 0int),
    ensures
        ({
            let after = listing(bytes, entries);
            let listed = listing_start(bytes).fitting(entries, 0);
            &&& consistent(after.finished(), 0)
            &&& scan(after.finished(), 0) == (after.total, listed)
        }),
{
    let start = listing_start(bytes);
    lemma_listing_chain(start, entries, 0, 0);
    let after = listing(bytes, entries);
    let n = start.fitting(entries, 0);
    let end = after.buffer.offset;
    if after.total > 0 && after.buffer.remaining() >= FIXED_SIZE {
        let last = DirEnt {
            d_ino: 1,
            d_off: after.current as i64,
            d_reclen: 0,
            d_type: FileType::Reg.spec_code(),
        };
        lemma_written_entry(after.buffer, last, Seq::empty());
        lemma_chain_kept(after.buffer.bytes, after.finished(), 0, end, n);
    } else if n == 0 {
        assert(after.buffer.bytes == bytes);
        lemma_scan_count(bytes, DirEnt::at(bytes, 0).d_reclen as int);
    } else {
        assert(end > 0);
    }
    lemma_chain_scanned(after.finished(), 0, end, n);
}

/// The numbers of the types of files are those that programs know.
pub proof fn law_file_type_numbers()
    ensures
        FileType::Unknown.spec_code() == 0,
        FileType::Fifo.spec_code() == 1,
        FileType::Chr.spec_code() == 2,
        FileType::Dir.spec_code() == 4,
        FileType::Blk.spec_code() == 6,
        FileType::Reg.spec_code() == 8,
        FileType::Lnk.spec_code() == 10,
        FileType::Socket.spec_code() == 12,
        FileType::Wht.spec_code() == 14,
{
}

/// How the head of an entry lies in memory: the number of the file in the first eight
/// bytes, where the next entry begins in the next eight, the length in two and the type in
/// the last of nineteen, with the lowest byte of each number first.
pub proof fn law_head_of_an_entry(ent: DirEnt)
    ensures
        ent.head().len() == 19,
        ent.head().subrange(0, 8) == le_bytes(ent.d_ino as int, 8),
        ent.d_off >= 0 ==> ent.head().subrange(8, 16) == le_bytes(ent.d_off as int, 8),
        ent.head()[16] == ent.d_reclen % 256,
        ent.head()[17] == ent.d_reclen / 256,
        ent.head()[18] == ent.d_type,
{
    lemma_le_bytes_len(ent.d_ino as int, 8);
    lemma_le_bytes_len(ent.d_off as u64 as int, 8);
    lemma_le_bytes_len(ent.d_reclen as int, 2);
    reveal_with_fuel(le_bytes, 3);
    assert(ent.head().subrange(0, 8) =~= le_bytes(ent.d_ino as int, 8));
    assert(ent.head().subrange(8, 16) =~= le_bytes(ent.d_off as u64 as int, 8));
}

/// An entry is written where the last one ends: its head and then its name. What lies before
/// and behind stays, and the next entry is written behind its length.
pub proof fn law_entry_is_written_behind_the_last(
    buffer: DirBufferView,
    ent: DirEnt,
    name: Seq<u8>,
    i: int,
)
    requires
        0 <= buffer.offset,
        buffer.offset + 19 + name.len() <= buffer.bytes.len(),
        0 <= i < buffer.bytes.len(),
    ensures
        ({
            let after = buffer.with_entry(ent, name);
            let at = i - buffer.offset;
            &&& after.offset == buffer.offset + ent.d_reclen
            &&& after.bytes.len() == buffer.bytes.len()
            &&& 0 <= at < 19 ==> after.bytes[i] == ent.head()[at]
            &&& 19 <= at < 19 + name.len() ==> after.bytes[i] == name[at - 19]
            &&& at < 0 || at >= 19 + name.len() ==> after.bytes[i] == buffer.bytes[i]
        }),
{
    law_head_of_an_entry(ent);
}

/// How much the entries of the files `k` to before `j` take up: nineteen bytes, the name
/// and a zero each.
pub open spec fn taken_up(entries: Seq<DirEntry>, k: int, j: int) -> int
    decreases j - k,
{
    if j <= k {
        0
    } else {
        20 + entries[k].name@.len() + taken_up(entries, k + 1, j)
    }
}

/// A listing holds the files of the directory one after the other from the first on, as
/// many as have room, and none that has not: the entry of each has its type, its name with a
/// zero behind it, and a length that leads to the next. The call returns how much they take
/// up.
pub proof fn law_listing_holds_the_files(l: Listing, entries: Seq<DirEntry>, k: int, j: int)
    requires
        names_fit(entries),
        0 <= k <= entries.len(),
        0 <= l.buffer.offset <= l.buffer.bytes.len(),
        listing_fits(l.buffer.bytes),
    ensures
        ({
            let n = l.fitting(entries, k);
            let after = l.with_files(entries, k);
            let bytes = after.finished();
            let end = l.buffer.offset + taken_up(entries, k, k + n);
            let at = l.buffer.offset + taken_up(entries, k, j);
            &&& 0 <= n <= entries.len() - k
            &&& after.total == l.total + taken_up(entries, k, k + n)
            &&& end <= l.buffer.bytes.len()
            &&& k + n < entries.len() ==> end + 20 + entries[k + n].name@.len()
                > l.buffer.bytes.len()
            &&& bytes.len() == l.buffer.bytes.len()
            &&& k <= j < k + n ==> {
                &&& l.buffer.offset <= at
                &&& at + 20 + entries[j].name@.len() <= end
                &&& DirEnt::at(bytes, at).d_reclen == 20 + entries[j].name@.len()
                &&& DirEnt::at(bytes, at).d_ino == 1
                &&& bytes[at + 18] == entries[j].file_type.spec_code()
                &&& forall|i: int|
                    0 <= i < entries[j].name@.len() ==> bytes[at + 19 + i]
                        == #[trigger] entries[j].name@[i]
                &&& bytes[at + 19 + entries[j].name@.len()] == 0
            }
            &&& forall|i: int| 0 <= i < l.buffer.offset ==> #[trigger] bytes[i] == l.buffer.bytes[i]
        }),
    decreases entries.len() - k,
{
    let n = l.fitting(entries, k);
    let after = l.with_files(entries, k);
    if k < entries.len() && l.buffer.remaining() >= entry_size(entries[k]) {
        let entry = entries[k];
        let size = entry_size(entry);
        let name = entry.name@.push(0);
        let ent = DirEnt {
            d_ino: 1,
            d_off: (l.current + size) as i64,
            d_reclen: size as u16,
            d_type: entry.file_type.spec_code(),
        };
        let next = l.with_file(entry);
        lemma_written_entry(l.buffer, ent, name);
        law_listing_holds_the_files(next, entries, k + 1, j);
        let bytes = after.finished();
        if j == k && 0 < n {
            let at = l.buffer.offset;
            law_head_of_an_entry(ent);
            assert forall|i: int| at <= i < at + size implies bytes[i] == next.buffer.bytes[i] by {
                assert(i < next.buffer.offset);
            }
            lemma_entry_kept(next.buffer.bytes, bytes, at);
            assert forall|i: int| 0 <= i < entry.name@.len() implies bytes[at + 19 + i]
                == #[trigger] entry.name@[i] by {
                law_entry_is_written_behind_the_last(l.buffer, ent, name, at + 19 + i);
            }
            law_entry_is_written_behind_the_last(l.buffer, ent, name, at + 18);
            law_entry_is_written_behind_the_last(
                l.buffer,
                ent,
                name,
                at + 19 + entry.name@.len(),
            );
        }
        assert forall|i: int| 0 <= i < l.buffer.offset implies #[trigger] bytes[i]
            == l.buffer.bytes[i] by {
            assert(bytes[i] == next.buffer.bytes[i]);
        }
        lemma_taken_up(entries, k + 1, k + n);
        assert(entry_size(entries[k]) <= u16::MAX);
    } else {
        lemma_finished_keeps(after);
    }
}

/// A call goes on behind the files that the last one listed: those that the buffer has
/// entries of are passed over, the next ones are written from the beginning of the buffer on,
/// and the call returns what both take up.
pub proof fn law_getdents_goes_on(bytes: Seq<u8>, entries: Seq<DirEntry>)
    requires
        listing_fits(bytes),
        names_fit(entries),
        0 <= scan(bytes, 0).1 <= entries.len(),
    ensures
        ({
            let (end, count) = scan(bytes, 0);
            let n = listing_start(bytes).fitting(entries, count);
            let after = listing(bytes, entries);
            &&& 0 <= n <= entries.len() - count
            &&& after.total == end + taken_up(entries, count, count + n)
            &&& n > 0 ==> DirEnt::at(after.finished(), 0).d_reclen == 20
                + entries[count].name@.len()
            &&& n > 0 ==> forall|i: int|
                0 <= i < entries[count].name@.len() ==> after.finished()[19 + i]
                    == #[trigger] entries[count].name@[i]
        }),
{
    let (end, count) = scan(bytes, 0);
    law_listing_holds_the_files(listing_start(bytes), entries, count, count);
}

/// Entries take up no less than nothing.
proof fn lemma_taken_up(entries: Seq<DirEntry>, k: int, j: int)
    ensures
        taken_up(entries, k, j) >= 0,
    decreases j - k,
{
    if k < j {
        lemma_taken_up(entries, k + 1, j);
    }
}

/// Nothing before the end of a listing changes when it is finished.
proof fn lemma_finished_keeps(l: Listing)
    requires
        0 <= l.buffer.offset <= l.buffer.bytes.len(),
    ensures
        l.finished().len() == l.buffer.bytes.len(),
        forall|i: int| 0 <= i < l.buffer.offset ==> #[trigger] l.finished()[i] == l.buffer.bytes[i],
{
    if l.total > 0 && l.buffer.remaining() >= FIXED_SIZE {
        let last = DirEnt {
            d_ino: 1,
            d_off: l.current as i64,
            d_reclen: 0,
            d_type: FileType::Reg.spec_code(),
        };
        lemma_written_entry(l.buffer, last, Seq::empty());
    }
}

/// The flag that asks to remove a directory.
pub const AT_REMOVEDIR: u32 = 512;

/// What happens while a link is removed.
#[derive(Debug, Clone, Copy)]
pub enum UnlinkEvent {
    /// The call was made with these flags.
    Called(u32),
    /// The directory was removed, or not.
    DirRemoved(Result<(), LinuxError>),
    /// Whether the path names a directory.
    LookedUp(Result<bool, LinuxError>),
    /// Whether there was a link that could be removed.
    LinkRemoved(bool),
}

/// What is done to remove a link.
#[derive(Debug, Clone, Copy)]
pub enum UnlinkStep {
    /// Remove the directory.
    RemoveDir,
    /// Look at what the path names.
    LookUp,
    /// Remove the link.
    RemoveLink,
    /// The call returns this.
    Return(Result<isize, LinuxError>),
}

/// What is done to remove a link, after `event`.
pub open spec fn unlink_step(event: UnlinkEvent) -> UnlinkStep {
    match event {
        UnlinkEvent::Called(flags) => if flags == AT_REMOVEDIR {
            UnlinkStep::RemoveDir
        } else {
            UnlinkStep::LookUp
        },
        UnlinkEvent::DirRemoved(Ok(_)) => UnlinkStep::Return(Ok(0)),
        UnlinkEvent::DirRemoved(Err(e)) => UnlinkStep::Return(Err(e)),
        UnlinkEvent::LookedUp(Err(e)) => UnlinkStep::Return(Err(e)),
        UnlinkEvent::LookedUp(Ok(true)) => UnlinkStep::Return(Err(LinuxError::EISDIR)),
        UnlinkEvent::LookedUp(Ok(false)) => UnlinkStep::RemoveLink,
        UnlinkEvent::LinkRemoved(true) => UnlinkStep::Return(Ok(0)),
        UnlinkEvent::LinkRemoved(false) => UnlinkStep::Return(Err(LinuxError::ENOENT)),
    }
}

/// A directory is removed only with the flag 512 and nothing else, and anything but a
/// directory only without. The call returns zero where something was removed, and otherwise
/// what went wrong: a directory without the flag is refused as such, and what is not there as
/// that.
pub proof fn law_unlink_removes_what_is_named(
    flags: u32,
    removed: Result<(), LinuxError>,
    is_dir: Result<bool, LinuxError>,
    gone: bool,
)
    ensures
        unlink_step(UnlinkEvent::Called(flags)) is RemoveDir <==> flags == 512,
        unlink_step(UnlinkEvent::Called(flags)) is LookUp <==> flags != 512,
        unlink_step(UnlinkEvent::DirRemoved(removed)) == UnlinkStep::Return(
            match removed {
                Ok(_) => Ok(0isize),
                Err(e) => Err(e),
            },
        ),
        unlink_step(UnlinkEvent::LookedUp(is_dir)) is RemoveLink <==> is_dir == Ok::<
            bool,
            LinuxError,
        >(false),
        is_dir == Ok::<bool, LinuxError>(true) ==> unlink_step(UnlinkEvent::LookedUp(is_dir))
            == UnlinkStep::Return(Err(LinuxError::EISDIR)),
        is_dir is Err ==> unlink_step(UnlinkEvent::LookedUp(is_dir)) == UnlinkStep::Return(
            Err(is_dir->Err_0),
        ),
        gone ==> unlink_step(UnlinkEvent::LinkRemoved(gone)) == UnlinkStep::Return(Ok(0)),
        !gone ==> unlink_step(UnlinkEvent::LinkRemoved(gone)) == UnlinkStep::Return(
            Err(LinuxError::ENOENT),
        ),
{
}

/// remove link of specific file (can be used to delete file)
///
/// The flags can be 0 or AT_REMOVEDIR. A directory is removed only with the
/// flag.
pub fn sys_unlinkat(event: UnlinkEvent) -> (r: UnlinkStep)
    ensures
        r == unlink_step(event),
{
    match event {
        UnlinkEvent::Called(flags) => if flags == AT_REMOVEDIR {
            UnlinkStep::RemoveDir
        } else {
            UnlinkStep::LookUp
        },
        UnlinkEvent::DirRemoved(removed) => match removed {
            Ok(_) => UnlinkStep::Return(Ok(0)),
            Err(e) => UnlinkStep::Return(Err(e)),
        },
        UnlinkEvent::LookedUp(is_dir) => match is_dir {
            Err(e) => UnlinkStep::Return(Err(e)),
            Ok(is_dir) => if is_dir {
                UnlinkStep::Return(Err(LinuxError::EISDIR))
            } else {
                UnlinkStep::RemoveLink
            },
        },
        UnlinkEvent::LinkRemoved(removed) => if removed {
            UnlinkStep::Return(Ok(0))
        } else {
            UnlinkStep::Return(Err(LinuxError::ENOENT))
        },
    }
}

/// What the current directory is reported as.
#[derive(Debug)]
pub enum Getcwd {
    /// There is nowhere to report it: the call returns zero.
    Nowhere,
    /// The bytes are written to the caller's buffer, and the call returns its
    /// address.
    Written(Vec<u8>),
    Failed(LinuxError),
}

/// Whether there is a zero among the bytes.
fn has_zero(bytes: &Vec<u8>) -> (r: bool)
    ensures
        r == bytes@.contains(0),
{
    let mut i: usize = 0;
    while i < bytes.len()
        invariant
            i <= bytes@.len(),
            forall|j: int| 0 <= j < i ==> #[trigger] bytes@[j] != 0,
        decreases bytes@.len() - i,
    {
        if bytes[i] == 0 {
            assert(bytes@[i as int] == 0);
            return true;
        }
        i = i + 1;
    }
    false
}

/// What a call of `sys_getcwd` comes to.
pub open spec fn getcwd_done(
    buf: UserRef<()>,
    size: usize,
    cwd: Result<Vec<u8>, LinuxError>,
    r: Getcwd,
) -> bool {
    match (buf, cwd) {
        (UserRef::Invalid(e), _) => r == Getcwd::Failed(e),
        (UserRef::Null, _) => r is Nowhere,
        (UserRef::Valid(_), Err(e)) => r == Getcwd::Failed(e),
        (UserRef::Valid(_), Ok(path)) => if path@.contains(0) {
            r == Getcwd::Failed(LinuxError::EINVAL)
        } else if path@.len() + 1 <= size {
            r matches Getcwd::Written(bytes) && bytes@ == path@.push(0)
        } else {
            r == Getcwd::Failed(LinuxError::ERANGE)
        },
    }
}

/// The current directory is reported whole, with one zero behind it and none in it, and
/// never beyond the buffer. It is reported exactly where there is a buffer, the directory is
/// known and has no zero in it, and the buffer has room for it and the zero.
pub proof fn law_directory_is_reported_whole(
    buf: UserRef<()>,
    size: usize,
    cwd: Result<Vec<u8>, LinuxError>,
    r: Getcwd,
)
    requires
        getcwd_done(buf, size, cwd, r),
    ensures
        r is Written <==> buf is Valid && cwd is Ok && !cwd->Ok_0@.contains(0)
            && cwd->Ok_0@.len() < size,
        r matches Getcwd::Written(bytes) ==> {
            &&& bytes@.len() <= size
            &&& bytes@.len() == cwd->Ok_0@.len() + 1
            &&& bytes@.last() == 0
            &&& bytes@.drop_last() == cwd->Ok_0@
        },
        r is Nowhere <==> buf is Null,
        buf is Invalid ==> r == Getcwd::Failed(buf->Invalid_0),
        buf is Valid && cwd is Err ==> r == Getcwd::Failed(cwd->Err_0),
        buf is Valid && cwd is Ok && cwd->Ok_0@.contains(0) ==> r == Getcwd::Failed(
            LinuxError::EINVAL,
        ),
        buf is Valid && cwd is Ok && !cwd->Ok_0@.contains(0) && cwd->Ok_0@.len() >= size ==> r
            == Getcwd::Failed(LinuxError::ERANGE),
{
    if let Getcwd::Written(bytes) = r {
        assert(bytes@.drop_last() =~= cwd->Ok_0@);
    }
}

/// Reports the current directory `cwd` to a buffer of `size` bytes, with a zero
/// behind it. `buf` tells whether the buffer can be used.
pub fn sys_getcwd(buf: UserRef<()>, size: usize, cwd: Result<Vec<u8>, LinuxError>) -> (r: Getcwd)
    ensures
        getcwd_done(buf, size, cwd, r),
{
    match buf {
        UserRef::Invalid(e) => Getcwd::Failed(e),
        UserRef::Null => Getcwd::Nowhere,
        UserRef::Valid(_) => match cwd {
            Err(e) => Getcwd::Failed(e),
            Ok(path) => {
                if has_zero(&path) {
                    return Getcwd::Failed(LinuxError::EINVAL);
                }
                if path.len() < size {
                    let mut bytes = path;
                    bytes.push(0);
                    Getcwd::Written(bytes)
                } else {
                    Getcwd::Failed(LinuxError::ERANGE)
                }
            },
        },
    }
}

} // verus!
