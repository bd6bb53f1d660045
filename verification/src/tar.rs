use vstd::prelude::*;
use crate::error::IndexError;
use crate::header::gnu::{gnu_encoding, GnuHeader, GnuTypeFlag};
use crate::header::helper::{append_zeros, decimal_chars, decimal_text, zeros};
use crate::header::ustar::UstarTypeFlag;
use crate::index::bounds::members_within;
use crate::index::file::{FileEntryView, FileMetaView};
use crate::index::{
    flush_rows, flushed, linked, writes_of, FileEntry, FileMeta, Index, NewPage, RowWrite,
    PAGE_SIZE,
};
use crate::ordered::{key_index, value_of};
use crate::stream::{block_padding, padded_len};

verus! {

/// The size of a block of the archive.
pub const BLOCK_SIZE: u64 = 512;

/// The size of the trailer of an archive: two blocks of zeros.
pub const TRAILER_SIZE: u64 = 1024;

/// A handle on one member: the index of its entry, and the cursor, a
/// position in the archive.
#[derive(Debug, Clone, Copy, PartialEq, Eq, Structural)]
pub struct SubFile {
    /// Index of the entry, where 0 is the first entry behind the sentinel.
    pub index: usize,
    /// The cursor.
    pub pos: u64,
}

/// What is to be done before a read or a write through a handle.
#[derive(Debug, Clone, Copy, PartialEq, Eq, Structural)]
pub struct Move {
    /// True when what was written must be flushed first.
    pub flush: bool,
    /// Where to move the stream, if it is to be moved.
    pub seek: Option<u64>,
}

/// What a write that reaches the end of a member's reserved bytes leads to.
#[derive(Debug, Clone, Copy, PartialEq, Eq, Structural)]
pub enum Partition {
    /// The bytes fit into what is reserved.
    Fits,
    /// The member is the last one of the archive, and was given this size.
    Extended(u64),
    /// The member has got a new part: the number of bytes that still go
    /// into the member, and the handle of the part for the others.
    Split(u64, SubFile),
}

/// What adding a member asks to be written.
pub struct Member {
    /// The page that was added before the member, where no slot was free.
    pub page: Option<NewPage>,
    /// The blocks of the member's header.
    pub header: Vec<u8>,
    /// Where the header is to stand.
    pub header_offset: u64,
    /// The handle of the member, whose cursor stands at its first byte.
    pub file: SubFile,
}

/// The controller of an archive: the index, whether something was written
/// that is not flushed, whether the trailer is to be written, and where the
/// trailer stands.
pub struct Tar {
    pub index: Index,
    pub need_flush: bool,
    pub need_closing: bool,
    /// The position of the trailer: the end of the last member.
    pub end: u64,
}

/// The number of zero bytes that pads `len` bytes to whole blocks.
pub fn pad_zeroes(len: u64) -> (n: u64)
    ensures
        n == block_padding(len as nat),
{
    let remaining: u64 = 512 - (len % 512);
    if remaining < 512 {
        remaining
    } else {
        0
    }
}

/// `size` bytes in whole blocks, where that fits in 64 bits.
pub fn padded_size(size: u64) -> (r: Option<u64>)
    ensures
        match r {
            Some(n) => n == padded_len(size as nat),
            None => padded_len(size as nat) > u64::MAX,
        },
{
    let padding = pad_zeroes(size);
    if size > u64::MAX - padding {
        None
    } else {
        Some(size + padding)
    }
}

/// The trailer of an archive: two blocks of zeros.
pub fn trailer() -> (bytes: Vec<u8>)
    ensures
        bytes@ == zeros(1024),
{
    let mut bytes: Vec<u8> = Vec::new();
    append_zeros(&mut bytes, 1024);
    bytes
}

/// The path of the page with the given number: a dot, the number and
/// ".rhindex".
pub fn page_path(number: u64) -> (path: String)
    ensures
        path@ == page_path_of(number as nat),
{
    let digits = decimal_text(number);
    let mut path = ".".to_owned();
    path.append(digits.as_str());
    path.append(".rhindex");
    path
}

/// The header of a member: the blocks of a GNU header of a regular file
/// of `size` bytes with the path as name.
#[verifier::opaque]
pub open spec fn member_blocks(path: Seq<char>, size: u64) -> Seq<u8> {
    gnu_encoding(GnuHeader::file_fields(path, size))
}

/// The path of the page with the given number.
pub open spec fn page_path_of(number: nat) -> Seq<char> {
    "."@ + decimal_chars(number) + ".rhindex"@
}

impl Tar {
    /// A controller over an index, whose trailer stands at `end`. Nothing is
    /// to be flushed or closed.
    pub fn new(index: Index, end: u64) -> (tar: Self)
        ensures
            tar.index@ == index@,
            tar.end == end,
            !tar.need_flush,
            !tar.need_closing,
    {
        Tar { index, need_flush: false, need_closing: false, end }
    }

    /// Creates the controller of a new archive, and the first page of its
    /// index, which stands at offset 0 under the path ".0.rhindex": the
    /// three blocks of its header, and its table behind them. The trailer
    /// is to be written behind the page.
    pub fn create_new() -> (r: Result<(Self, NewPage), IndexError>)
        ensures
            r is Ok,
            r matches Ok(made) ==> made.1.offset == 0 && made.1.link is None && made.1.header@
                == crate::index::page_header(page_path_of(0)) && made.1.header@.len() == 1536
                && made.1.table_offset == 1536,
            r matches Ok(made) ==> made.0.end == 1536 + PAGE_SIZE && made.0.aligned()
                && made.0.need_closing && !made.0.need_flush && made.0.bounded()
                && crate::index::links_fit(made.0.index@.entries) && crate::index::parted_ok(
                made.0.index@.entries,
            ),
            r matches Ok(made) ==> made.0.index.wf() && made.0.index@ == (crate::index::IndexView {
                first_page: 0,
                pages: seq![
                    crate::index::page::PageView {
                        offset: 0,
                        table_offset: made.1.table_offset,
                        rows: Seq::new(51, |i: int| crate::index::file::empty_record()),
                    },
                ],
                entries: seq![
                    (Seq::<char>::empty(), crate::index::file::entry_of(crate::index::file::empty_record())),
                ],
                modified: Seq::<usize>::empty(),
                max_index: 0,
            }),
    {
        proof {
            crate::index::chain::lemma_page_path(0);
            crate::index::chain::lemma_page_fits(0, page_path_of(0));
            crate::index::chain::lemma_page_header_round_trip(
                page_path_of(0),
                Seq::<u8>::empty(),
            );
        }
        let mut index = Index::new();
        let path = page_path(0);
        let page = index.add_page(0, path.as_str())?;
        if page.table_offset > u64::MAX - PAGE_SIZE {
            return Err(IndexError::OutOfBounds);
        }
        let end: u64 = page.table_offset + PAGE_SIZE;
        Ok((Tar { index, need_flush: false, need_closing: true, end }, page))
    }

    /// Tells what is to be done before a read or a write through `file`:
    /// where the stream does not stand at the cursor, what was written is
    /// flushed first, and the stream is moved to the cursor.
    pub fn move_to(&mut self, stream_pos: u64, file: &SubFile) -> (m: Move)
        ensures
            stream_pos == file.pos ==> m == (Move { flush: false, seek: None }) && *final(self)
                == *old(self),
            stream_pos != file.pos ==> m == (Move {
                flush: old(self).need_flush,
                seek: Some(file.pos),
            }) && final(self).need_flush == false && final(self).index == old(self).index
                && final(self).need_closing == old(self).need_closing && final(self).end == old(
                self,
            ).end,
    {
        if stream_pos != file.pos {
            let flush = self.need_flush;
            self.need_flush = false;
            Move { flush, seek: Some(file.pos) }
        } else {
            Move { flush: false, seek: None }
        }
    }

    /// Takes note of `count` bytes that were read through `file`: the cursor
    /// moves behind them.
    pub fn inner_read(&self, file: &mut SubFile, count: u64)
        requires
            old(file).pos + count <= u64::MAX,
        ensures
            *final(file) == (SubFile { pos: (old(file).pos + count) as u64, ..*old(file) }),
    {
        file.pos = file.pos + count;
    }

    /// Takes note of `count` bytes that were written through `file`: the
    /// cursor moves behind them, and there is something to flush.
    pub fn inner_write(&mut self, file: &mut SubFile, count: u64)
        requires
            old(file).pos + count <= u64::MAX,
        ensures
            *final(file) == (SubFile { pos: (old(file).pos + count) as u64, ..*old(file) }),
            final(self).need_flush,
            final(self).index == old(self).index,
            final(self).need_closing == old(self).need_closing,
            final(self).end == old(self).end,
    {
        file.pos = file.pos + count;
        self.need_flush = true;
    }

    /// Flushes what was written: where there is something to flush, gives
    /// the rows that are to be written to the table, and nothing is left to
    /// flush.
    pub fn flush(&mut self) -> (writes: Option<Vec<RowWrite>>)
        ensures
            !old(self).need_flush ==> writes is None && *final(self) == *old(self),
            old(self).need_flush ==> writes is Some && writes_of(writes->Some_0@) == flush_rows(
                old(self).index@,
            ) && final(self).index@ == flushed(old(self).index@) && !final(self).need_flush
                && final(self).need_closing == old(self).need_closing && final(self).end
                == old(self).end,
            old(self).index.wf() ==> final(self).index.wf(),
    {
        if !self.need_flush {
            return None;
        }
        let writes = self.index.flush();
        self.need_flush = false;
        Some(writes)
    }

    /// Closes the archive: what was written is flushed, and where the
    /// trailer is to be written, gives the rows of the flush and the
    /// position at which the two blocks of zeros are to stand.
    pub fn close(&mut self) -> (r: (Option<Vec<RowWrite>>, Option<u64>))
        ensures
            (r.0 is Some) == old(self).need_flush,
            old(self).need_flush ==> writes_of(r.0->Some_0@) == flush_rows(old(self).index@)
                && final(self).index@ == flushed(old(self).index@),
            !old(self).need_flush ==> final(self).index == old(self).index,
            r.1 == (if old(self).need_closing {
                Some(old(self).end)
            } else {
                None
            }),
            !final(self).need_flush,
            !final(self).need_closing,
            final(self).end == old(self).end,
            old(self).index.wf() ==> final(self).index.wf(),
    {
        let writes = self.flush();
        if !self.need_closing {
            return (writes, None);
        }
        self.need_closing = false;
        (writes, Some(self.end))
    }

    /// Opens a member: a handle whose cursor stands at the first byte of the
    /// member of that path, if there is one.
    pub fn open_member(&self, path: &str) -> (r: Option<SubFile>)
        ensures
            match r {
                Some(file) => key_index(self.index@.entries, path@) == Some(file.index + 1)
                    && file.pos == self.index@.entries[file.index + 1].1.meta.offset,
                None => key_index(self.index@.entries, path@) is None || key_index(
                    self.index@.entries,
                    path@,
                ) == Some(0int),
            },
    {
        match self.index.position(path) {
            Some(slot) => {
                if slot == 0 {
                    return None;
                }
                match self.index.get_index(slot - 1) {
                    Some(entry) => Some(SubFile { index: slot - 1, pos: entry.meta.offset }),
                    None => None,
                }
            },
            None => None,
        }
    }

    /// Removes the member of that path from the index. Its bytes stay in
    /// the archive. A path that is not present, the path of the sentinel
    /// and an entry whose links lead out of the index are refused.
    pub fn remove_member(&mut self, path: &str) -> (r: Result<(), IndexError>)
        ensures
            r is Ok <==> key_index(old(self).index@.entries, path@) is Some
                && crate::index::removable(
                old(self).index@.entries,
                key_index(old(self).index@.entries, path@)->Some_0,
            ),
            r is Ok ==> final(self).index@.entries == crate::index::remove_slot(
                old(self).index@.entries,
                key_index(old(self).index@.entries, path@)->Some_0,
            ),
            r is Ok ==> final(self).need_flush,
            r matches Err(e) ==> e == IndexError::OutOfBounds && final(self).index@ == old(
                self,
            ).index@ && final(self).need_flush == old(self).need_flush,
            key_index(old(self).index@.entries, path@) is None ==> r is Err,
            old(self).index.wf() && key_index(old(self).index@.entries, path@) is Some
                && key_index(old(self).index@.entries, path@) != Some(0int) ==> r is Ok,
            final(self).end == old(self).end,
            final(self).need_closing == old(self).need_closing,
            old(self).index.wf() ==> final(self).index.wf(),
            old(self).bounded() ==> final(self).bounded(),
            old(self).index.wf() && crate::index::links_fit(old(self).index@.entries)
                ==> crate::index::links_fit(final(self).index@.entries),
            old(self).index.wf() && crate::index::parted_ok(old(self).index@.entries)
                ==> crate::index::parted_ok(final(self).index@.entries),
    {
        match self.index.position(path) {
            Some(slot) => {
                if slot == 0 {
                    proof {
                        crate::ordered::lemma_key_position(self.index@.entries, path@, 0);
                    }
                    assert(!crate::index::removable(self.index@.entries, 0));
                    return Err(IndexError::OutOfBounds);
                }
                match self.index.remove(slot - 1) {
                    Ok(()) => {
                        proof {
                            if old(self).bounded() {
                                crate::index::bounds::lemma_remove_keeps_members(
                                    old(self).index@.entries,
                                    slot as int,
                                    self.end,
                                );
                            }
                        }
                        self.need_flush = true;
                        Ok(())
                    },
                    Err(e) => Err(e),
                }
            },
            None => Err(IndexError::OutOfBounds),
        }
    }

    /// Lists the members: a copy of every entry behind the sentinel, in the
    /// order of their slots.
    pub fn list(&self) -> (entries: Vec<FileEntry>)
        ensures
            entries@.len() == (if self.index@.entries.len() > 0 {
                self.index@.entries.len() - 1
            } else {
                0
            }),
            forall|i: int|
                0 <= i < entries@.len() ==> (#[trigger] entries@[i])@ == self.index@.entries[i
                    + 1].1,
    {
        let count: usize = self.index.len();
        let mut entries: Vec<FileEntry> = Vec::new();
        let mut i: usize = 0;
        while i < count
            invariant
                i <= count,
                count == (if self.index@.entries.len() > 0 {
                    self.index@.entries.len() - 1
                } else {
                    0
                }),
                entries@.len() == i,
                forall|j: int|
                    0 <= j < i ==> (#[trigger] entries@[j])@ == self.index@.entries[j + 1].1,
            decreases count - i,
        {
            match self.index.get_index(i) {
                Some(entry) => {
                    entries.push(entry.duplicate());
                },
                None => {},
            }
            i += 1;
        }
        entries
    }
}


impl Tar {
    /// True when every member ends, in whole blocks, where the trailer
    /// stands or before it: what is added at the trailer's place lies
    /// behind the bytes of every member.
    pub open spec fn bounded(&self) -> bool {
        members_within(self.index@.entries, self.end)
    }

    /// True when the trailer stands on a block boundary.
    pub open spec fn aligned(&self) -> bool {
        self.end % 512 == 0
    }

    /// True when every page is full.
    pub open spec fn is_full(&self) -> bool {
        self.index@.entries.len() - 1 >= 50 * self.index@.pages.len()
    }

    /// Where the header of a new member is to stand: where the trailer
    /// stands, or behind the page that is added first where every page is
    /// full.
    pub open spec fn member_start(&self) -> int {
        if self.is_full() {
            self.end + crate::index::page_header(
                page_path_of(self.index@.pages.len()),
            ).len() + PAGE_SIZE
        } else {
            self.end as int
        }
    }

    /// True when a member with this path and size can be added: the path is
    /// new, the page that is added first, if any, has room, and the member
    /// ends within 64 bits.
    pub open spec fn member_fits(&self, path: Seq<char>, size: u64) -> bool {
        &&& key_index(self.index@.entries, path) is None
        &&& self.index@.entries.len() >= 1
        &&& self.is_full() ==> crate::index::page_fits(
            self.end,
            page_path_of(self.index@.pages.len()),
        )
        &&& self.member_start() + member_blocks(path, size).len()
            + padded_len(size as nat) <= u64::MAX
    }

    /// Adds a member of `size` reserved bytes at the end of the archive.
    /// Where no slot of the index is free, a page is added first, which
    /// stands where the trailer stood. The member gets a GNU header of a
    /// regular file, its bytes follow the header, and the trailer is to be
    /// written behind them; there is something to flush. A path that is
    /// present is refused, and so is a member that has no room in 64 bits.
    pub fn add_member(&mut self, path: String, size: u64) -> (r: Result<Member, IndexError>)
        ensures
            r is Ok <==> old(self).member_fits(path@, size),
            r matches Err(e) ==> (e == IndexError::Duplicate <==> key_index(
                old(self).index@.entries,
                path@,
            ) is Some),
            r matches Err(e) ==> e == IndexError::Duplicate || e == IndexError::OutOfBounds,
            r matches Err(e) ==> final(self).index@.entries == old(self).index@.entries
                && final(self).need_flush == old(self).need_flush,
            r == Err::<Member, IndexError>(IndexError::Duplicate) ==> *final(self) == *old(self),
            r matches Ok(m) ==> m.header@ == member_blocks(path@, size),
            r matches Ok(m) ==> m.header_offset == old(self).member_start(),
            r matches Ok(m) ==> m.file == (SubFile {
                index: (old(self).index@.entries.len() - 1) as usize,
                pos: (m.header_offset + m.header@.len()) as u64,
            }),
            r matches Ok(m) ==> final(self).index@.entries == old(self).index@.entries.push(
                (
                    path@,
                    FileEntryView {
                        meta: FileMetaView { offset: m.file.pos, path: path@, parted: false, size },
                        next_part: 0,
                        prev_part: 0,
                    },
                ),
            ),
            r matches Ok(m) ==> final(self).end == m.file.pos + padded_len(size as nat),
            r matches Ok(m) ==> final(self).need_closing && final(self).need_flush,
            r matches Ok(m) ==> (old(self).aligned() ==> m.header_offset % 512 == 0 && m.file.pos
                % 512 == 0 && final(self).aligned()),
            r matches Ok(m) ==> (m.page is Some <==> old(self).is_full()),
            r matches Ok(m) ==> (m.page matches Some(page) ==> page.offset == old(self).end
                && page.header@ == crate::index::page_header(
                page_path_of(old(self).index@.pages.len()),
            ) && page.table_offset == page.offset + page.header@.len()
                && final(self).index@.pages.len() == old(self).index@.pages.len() + 1),
            r matches Ok(m) ==> (m.page is None ==> final(self).index@.pages == old(
                self,
            ).index@.pages),
            r matches Ok(m) ==> (m.page matches Some(page) ==> final(self).index@.pages
                == crate::index::relinked_pages(
                old(self).index@.pages,
                crate::index::link_record(
                    old(self).end,
                    page_path_of(old(self).index@.pages.len()),
                ),
            ).push(
                crate::index::page::PageView {
                    offset: old(self).end,
                    table_offset: page.table_offset,
                    rows: Seq::new(51, |i: int| crate::index::file::empty_record()),
                },
            ) && (match page.link {
                Some((at, row)) => old(self).index@.pages.len() > 0 && at == old(
                    self,
                ).index@.pages.len() - 1 && row@ == crate::index::link_record(
                    old(self).end,
                    page_path_of(old(self).index@.pages.len()),
                ),
                None => old(self).index@.pages.len() == 0,
            })),
            r matches Ok(m) ==> m.header_offset >= old(self).end,
            old(self).index.wf() ==> final(self).index.wf(),
            old(self).bounded() ==> final(self).bounded(),
            crate::index::links_fit(old(self).index@.entries) ==> crate::index::links_fit(
                final(self).index@.entries,
            ),
            crate::index::parted_ok(old(self).index@.entries) ==> crate::index::parted_ok(
                final(self).index@.entries,
            ),
    {
        if self.index.position(path.as_str()).is_some() {
            return Err(IndexError::Duplicate);
        }
        let slots: usize = self.index.slot_count();
        if slots == 0 {
            return Err(IndexError::OutOfBounds);
        }
        let bytes = member_header(path.as_str(), size);
        let padded = match padded_size(size) {
            Some(n) => n,
            None => {
                return Err(IndexError::OutOfBounds);
            },
        };
        let length: usize = bytes.len();
        if padded > u64::MAX - length as u64 {
            return Err(IndexError::OutOfBounds);
        }
        let (at, page) = match self.make_room(length as u64 + padded) {
            Ok(room) => room,
            Err(e) => {
                return Err(e);
            },
        };
        let content: u64 = at + length as u64;
        let ghost held = self.index@.entries;
        push_member(&mut self.index, FileMeta { offset: content, path, parted: false, size });
        proof {
            if old(self).bounded() {
                crate::index::bounds::lemma_push_keeps_members(
                    held,
                    self.index@.entries.last(),
                    old(self).end,
                    (content + padded) as u64,
                );
                assert(self.index@.entries =~= held.push(self.index@.entries.last()));
            }
        }
        self.end = content + padded;
        self.need_closing = true;
        self.need_flush = true;
        Ok(
            Member {
                page,
                header: bytes,
                header_offset: at,
                file: SubFile { index: slots - 1, pos: content },
            },
        )
    }

    /// Adds a page where every page is full, and tells where the header of
    /// the next member is to stand, behind which `need` bytes must have
    /// room.
    fn make_room(&mut self, need: u64) -> (r: Result<(u64, Option<NewPage>), IndexError>)
        ensures
            r is Ok <==> (old(self).is_full() ==> crate::index::page_fits(
                old(self).end,
                page_path_of(old(self).index@.pages.len()),
            )) && old(self).member_start() + need <= u64::MAX,
            r matches Err(e) ==> e == IndexError::OutOfBounds,
            r matches Ok(room) ==> room.0 == old(self).member_start(),
            r matches Ok(room) ==> (room.1 is Some <==> old(self).is_full()),
            r matches Ok(room) ==> (room.1 matches Some(page) ==> page.offset == old(self).end
                && page.header@ == crate::index::page_header(
                page_path_of(old(self).index@.pages.len()),
            ) && page.table_offset == page.offset + page.header@.len()
                && final(self).index@.pages.len() == old(self).index@.pages.len() + 1),
            r matches Ok(room) ==> (room.1 is None ==> final(self).index@.pages == old(
                self,
            ).index@.pages),
            r matches Ok(room) ==> (old(self).aligned() ==> room.0 % 512 == 0),
            r matches Ok(room) ==> (room.1 matches Some(page) ==> final(self).index@.pages
                == crate::index::relinked_pages(
                old(self).index@.pages,
                crate::index::link_record(
                    old(self).end,
                    page_path_of(old(self).index@.pages.len()),
                ),
            ).push(
                crate::index::page::PageView {
                    offset: old(self).end,
                    table_offset: page.table_offset,
                    rows: Seq::new(51, |i: int| crate::index::file::empty_record()),
                },
            ) && (match page.link {
                Some((at, row)) => old(self).index@.pages.len() > 0 && at == old(
                    self,
                ).index@.pages.len() - 1 && row@ == crate::index::link_record(
                    old(self).end,
                    page_path_of(old(self).index@.pages.len()),
                ),
                None => old(self).index@.pages.len() == 0,
            })),
            r matches Ok(room) ==> room.0 >= old(self).end,
            final(self).index@.entries == old(self).index@.entries,
            final(self).index@.modified == old(self).index@.modified,
            final(self).index@.max_index == old(self).index@.max_index,
            final(self).end == old(self).end,
            final(self).need_flush == old(self).need_flush,
            final(self).need_closing == old(self).need_closing,
    {
        let mut at: u64 = self.end;
        let mut page: Option<NewPage> = None;
        if self.index.is_full() {
            let number: usize = self.index.page_count();
            let name = page_path(number as u64);
            let added = match self.index.add_page(at, name.as_str()) {
                Ok(added) => added,
                Err(e) => {
                    return Err(IndexError::OutOfBounds);
                },
            };
            if added.table_offset > u64::MAX - PAGE_SIZE {
                return Err(IndexError::OutOfBounds);
            }
            at = added.table_offset + PAGE_SIZE;
            page = Some(added);
        }
        if need > u64::MAX - at {
            return Err(IndexError::OutOfBounds);
        }
        Ok((at, page))
    }
}

/// Appends the entry of a member without parts, whose path is new.
fn push_member(index: &mut Index, meta: FileMeta)
    requires
        key_index(old(index)@.entries, meta@.path) is None,
    ensures
        final(index)@.entries == old(index)@.entries.push(
            (meta@.path, FileEntryView { meta: meta@, next_part: 0, prev_part: 0 }),
        ),
        final(index)@.pages == old(index)@.pages,
        old(index).wf() ==> final(index).wf(),
        crate::index::links_fit(old(index)@.entries) ==> crate::index::links_fit(
            final(index)@.entries,
        ),
        !meta.parted && crate::index::parted_ok(old(index)@.entries) ==> crate::index::parted_ok(
            final(index)@.entries,
        ),
{
    proof {
        if index.wf() {
            crate::index::lemma_append_keeps_links(
                index@.entries,
                (meta@.path, FileEntryView { meta: meta@, next_part: 0, prev_part: 0 }),
            );
        }
    }
    let _ = index.append(meta, 0, 0);
}

/// Builds the header of a member: a GNU header of a regular file with the
/// path as name.
fn member_header(path: &str, size: u64) -> (bytes: Vec<u8>)
    ensures
        bytes@ == member_blocks(path@, size),
        bytes@.len() % 512 == 0,
        bytes@.len() >= 512,
{
    let mut header = GnuHeader::for_file(path.to_owned(), size);
    let mut bytes: Vec<u8> = Vec::new();
    header.save(&mut bytes);
    proof {
        reveal(member_blocks);
        crate::header::gnu_round_trip::lemma_gnu_encoding_len(GnuHeader::file_fields(path@, size));
    }
    bytes
}

impl Tar {
    /// The number of reserved bytes of the member at `index` that lie
    /// behind `cursor` bytes of it.
    pub open spec fn room_at(&self, index: usize, cursor: u64) -> int {
        let size = self.index@.entries[index + 1].1.meta.size;
        if cursor < size {
            size - cursor
        } else {
            0
        }
    }

    /// True when the member at `index` is to get a new part for a write of
    /// `bytes` bytes at `cursor` bytes into it: the member exists, the
    /// write ends within 64 bits and behind what is reserved, and the
    /// member is not the last one of the archive.
    pub open spec fn needs_part(&self, index: usize, cursor: u64, bytes: u64) -> bool {
        let meta = self.index@.entries[index + 1].1.meta;
        &&& index + 1 < self.index@.entries.len()
        &&& cursor + bytes <= u64::MAX
        &&& cursor + bytes > meta.size
        &&& !is_last_member(meta, self.end)
    }

    /// True when room can be made for a write of `bytes` bytes at `cursor`
    /// bytes into the member at `index`: the member exists and the write
    /// ends within 64 bits; and either the bytes fit into what is
    /// reserved, or the member is the last one and can grow within 64
    /// bits, or a part with the path `part_path` can be linked behind it
    /// and ends within 64 bits.
    pub open spec fn partition_fits(
        &self,
        index: usize,
        cursor: u64,
        bytes: u64,
        part_path: Seq<char>,
    ) -> bool {
        let entries = self.index@.entries;
        let meta = entries[index + 1].1.meta;
        &&& index + 1 < entries.len()
        &&& cursor + bytes <= u64::MAX
        &&& (cursor + bytes <= meta.size || (is_last_member(meta, self.end) && meta.offset
            + padded_len((cursor + bytes) as nat) <= u64::MAX) || (!is_last_member(meta, self.end)
            && crate::index::can_link(entries, index + 1, part_path) && self.end + padded_len(
            (bytes - self.room_at(index, cursor)) as nat,
        ) <= u64::MAX))
    }

    /// True when a new part is refused because its path is present: the
    /// member is to get a part, which ends within 64 bits, and the index
    /// holds the path `part_path`.
    pub open spec fn part_is_duplicate(
        &self,
        index: usize,
        cursor: u64,
        bytes: u64,
        part_path: Seq<char>,
    ) -> bool {
        &&& self.needs_part(index, cursor, bytes)
        &&& self.end + padded_len((bytes - self.room_at(index, cursor)) as nat) <= u64::MAX
        &&& key_index(self.index@.entries, part_path) is Some
    }

    /// Makes room for a write of `bytes` bytes at `cursor` bytes into the
    /// member at `index`. Where they fit into what is reserved, nothing
    /// changes. Where they do not and the member is the last one of the
    /// archive, its size grows in place, and the trailer is to be written
    /// anew. Otherwise the member gets a new part at the end of the archive
    /// under the path `part_path`, for the bytes that do not fit: the two
    /// entries are linked and marked as parted. Where the index has
    /// changed, there is something to flush. A member that does not exist,
    /// a write or a member that would end behind 64 bits, a member that has
    /// a part behind it already, and a part whose slot no row could name
    /// are refused as out of bounds; a part whose path is present, as a
    /// duplicate. On an error nothing changes.
    pub fn auto_partition(&mut self, index: usize, cursor: u64, bytes: u64, part_path: String) -> (r:
        Result<Partition, IndexError>)
        ensures
            r is Ok <==> old(self).partition_fits(index, cursor, bytes, part_path@),
            r matches Err(e) ==> (e == IndexError::Duplicate <==> old(self).part_is_duplicate(
                index,
                cursor,
                bytes,
                part_path@,
            )),
            r matches Err(e) ==> e == IndexError::Duplicate || e == IndexError::OutOfBounds,
            r matches Err(e) ==> final(self).index@ == old(self).index@ && final(self).end == old(
                self,
            ).end && final(self).need_closing == old(self).need_closing && final(self).need_flush
                == old(self).need_flush,
            r matches Ok(p) ==> (p == Partition::Fits <==> cursor + bytes <= old(
                self,
            ).index@.entries[index + 1].1.meta.size),
            r matches Ok(p) ==> (p is Extended <==> cursor + bytes > old(
                self,
            ).index@.entries[index + 1].1.meta.size && is_last_member(
                old(self).index@.entries[index + 1].1.meta,
                old(self).end,
            )),
            r matches Ok(p) ==> (p is Split <==> cursor + bytes > old(
                self,
            ).index@.entries[index + 1].1.meta.size && !is_last_member(
                old(self).index@.entries[index + 1].1.meta,
                old(self).end,
            )),
            r == Ok::<Partition, IndexError>(Partition::Fits) ==> *final(self) == *old(self),
            r matches Ok(Partition::Extended(size)) ==> size == cursor + bytes,
            r matches Ok(Partition::Extended(size)) ==> final(self).index@.entries == old(
                self,
            ).index@.entries.update(
                index + 1,
                (
                    old(self).index@.entries[index + 1].0,
                    FileEntryView {
                        meta: FileMetaView { size, ..old(self).index@.entries[index + 1].1.meta },
                        ..old(self).index@.entries[index + 1].1
                    },
                ),
            ),
            r matches Ok(Partition::Extended(size)) ==> final(self).end == old(
                self,
            ).index@.entries[index + 1].1.meta.offset + padded_len(size as nat),
            r matches Ok(Partition::Split(room, part)) ==> room == old(self).room_at(index, cursor),
            r matches Ok(Partition::Split(room, part)) ==> part == (SubFile {
                index: (old(self).index@.entries.len() - 1) as usize,
                pos: old(self).end,
            }),
            r matches Ok(Partition::Split(room, part)) ==> final(self).index@.entries == linked(
                old(self).index@.entries,
                index + 1,
                FileMetaView {
                    offset: old(self).end,
                    path: part_path@,
                    parted: true,
                    size: (bytes - room) as u64,
                },
            ),
            r matches Ok(Partition::Split(room, part)) ==> final(self).end == old(self).end
                + padded_len((bytes - room) as nat),
            r is Ok ==> final(self).index@.pages == old(self).index@.pages,
            old(self).aligned() ==> final(self).aligned(),
            r is Ok && r != Ok::<Partition, IndexError>(Partition::Fits) ==> final(self).need_closing,
            r is Ok && r != Ok::<Partition, IndexError>(Partition::Fits) ==> final(self).need_flush,
            old(self).index.wf() ==> final(self).index.wf(),
            crate::index::links_fit(old(self).index@.entries) ==> crate::index::links_fit(
                final(self).index@.entries,
            ),
            crate::index::parted_ok(old(self).index@.entries) ==> crate::index::parted_ok(
                final(self).index@.entries,
            ),
            old(self).bounded() ==> final(self).bounded(),
    {
        let (offset, size) = match self.index.get_index(index) {
            Some(entry) => (entry.meta.offset, entry.meta.size),
            None => {
                return Err(IndexError::OutOfBounds);
            },
        };
        if bytes > u64::MAX - cursor {
            return Err(IndexError::OutOfBounds);
        }
        let wanted: u64 = cursor + bytes;
        if wanted <= size {
            return Ok(Partition::Fits);
        }
        let last = match padded_size(size) {
            Some(n) => n <= u64::MAX - offset && offset + n == self.end,
            None => false,
        };
        if last {
            let padded = match padded_size(wanted) {
                Some(n) => n,
                None => {
                    return Err(IndexError::OutOfBounds);
                },
            };
            if padded > u64::MAX - offset {
                return Err(IndexError::OutOfBounds);
            }
            let ghost before = self.index@;
            match self.index.get_index_mut(index) {
                Some(entry) => {
                    entry.meta.size = wanted;
                },
                None => {},
            }
            proof {
                if old(self).index.wf() {
                    crate::index::lemma_meta_keeps_links(
                        before.entries,
                        index + 1,
                        self.index@.entries[index + 1].1.meta,
                    );
                }
                if old(self).bounded() {
                    crate::index::bounds::lemma_padded_len_grows(size as nat, wanted as nat);
                    crate::index::bounds::lemma_resize_keeps_members(
                        before.entries,
                        index + 1,
                        wanted,
                        old(self).end,
                        (offset + padded) as u64,
                    );
                }
            }
            self.end = offset + padded;
            self.need_closing = true;
            self.need_flush = true;
            return Ok(Partition::Extended(wanted));
        }
        let room: u64 = if cursor < size { size - cursor } else { 0 };
        let rest: u64 = bytes - room;
        let padded = match padded_size(rest) {
            Some(n) => n,
            None => {
                return Err(IndexError::OutOfBounds);
            },
        };
        if padded > u64::MAX - self.end {
            return Err(IndexError::OutOfBounds);
        }
        let start: u64 = self.end;
        let part = FileMeta { offset: start, path: part_path, parted: true, size: rest };
        let at = match self.index.link_part(index, part) {
            Ok(at) => at,
            Err(e) => {
                return Err(e);
            },
        };
        proof {
            if old(self).bounded() {
                crate::index::bounds::lemma_link_keeps_members(
                    old(self).index@.entries,
                    index + 1,
                    FileMetaView { offset: start, path: part_path@, parted: true, size: rest },
                    start,
                    (start + padded) as u64,
                );
            }
        }
        self.end = start + padded;
        self.need_closing = true;
        self.need_flush = true;
        Ok(Partition::Split(room, SubFile { index: at, pos: start }))
    }
}

/// True when the member is the last one of the archive: its bytes, in whole
/// blocks, end where the trailer stands.
pub open spec fn is_last_member(meta: FileMetaView, end: u64) -> bool {
    meta.offset + padded_len(meta.size as nat) == end
}

} // verus!
