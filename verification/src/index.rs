pub mod bounds;
pub mod chain;
pub mod file;
pub mod page;

pub use file::{FileEntry, FileMeta, Record};
pub use page::{Page, RECORD_COUNT as PAGE_RECORD_COUNT};

use vstd::prelude::*;
use indexmap::IndexMap;
use crate::error::IndexError;
use crate::header::pax::{
    attrs_fit, lemma_pax_encoding_len, number_attr, pax_encoding, pax_flag, pax_flag_byte, AttrValue,
    AttributeView, PaxHeader, PaxTypeFlag,
};
use crate::header::traits::{FileKind, IsTypeTrait};
use crate::header::ustar::{lemma_ustar_raw_len, ustar_block, UstarFields, UstarHeader};
use crate::header::{content_kind, content_of, content_size_of, tar_parse, TarContent, TarHeader};
use crate::ordered::{key_index, put, value_of};
use crate::stream::Stream;
use file::{empty_record, entry_of, record_of, FileEntryView, RecordView};
use page::{live_rows, pages_of, rows_of, PageView};

verus! {

/// The size of a page's payload: 1 MiB.
pub const PAGE_SIZE: u64 = 1048576;

/// The pairs of path and entry that a map of entries holds, in their order.
pub uninterp spec fn entries_of(m: IndexMap<String, FileEntry>) -> Seq<(Seq<char>, FileEntryView)>;

/// Makes an empty map with `IndexMap::new`.
#[verifier::external_body]
fn entries_new() -> (m: IndexMap<String, FileEntry>)
    ensures
        entries_of(m) == Seq::<(Seq<char>, FileEntryView)>::empty(),
{
    IndexMap::new()
}

/// The number of pairs, by `IndexMap::len`.
#[verifier::external_body]
fn entries_len(m: &IndexMap<String, FileEntry>) -> (n: usize)
    ensures
        n == entries_of(*m).len(),
{
    m.len()
}

/// Looks a path up with `IndexMap::get`: the entry of the pair with that
/// path, if there is one.
#[verifier::external_body]
fn entries_get<'a>(m: &'a IndexMap<String, FileEntry>, path: &str) -> (r: Option<&'a FileEntry>)
    ensures
        match r {
            Some(e) => value_of(entries_of(*m), path@) == Some(e@),
            None => value_of(entries_of(*m), path@) is None,
        },
{
    m.get(path)
}

/// The pair at a position, by `IndexMap::get_index`: there is one below the
/// number of pairs.
#[verifier::external_body]
fn entries_get_index<'a>(m: &'a IndexMap<String, FileEntry>, index: usize) -> (r: Option<
    (&'a String, &'a FileEntry),
>)
    ensures
        match r {
            Some((k, e)) => index < entries_of(*m).len() && entries_of(*m)[index as int] == (
                k@,
                e@,
            ),
            None => index >= entries_of(*m).len(),
        },
{
    m.get_index(index)
}

/// Inserts a pair with `IndexMap::insert`: where the path is present, the
/// entry takes the place of the old one, which is returned; where it is not,
/// the pair comes last.
#[verifier::external_body]
fn entries_insert(m: &mut IndexMap<String, FileEntry>, path: String, entry: FileEntry) -> (r:
    Option<FileEntry>)
    ensures
        entries_of(*final(m)) == put(entries_of(*old(m)), path@, entry@),
        match r {
            Some(e) => value_of(entries_of(*old(m)), path@) == Some(e@),
            None => value_of(entries_of(*old(m)), path@) is None,
        },
{
    m.insert(path, entry)
}

/// Swaps the pairs at two positions with `IndexMap::swap_indices`, which
/// panics on a position that is out of bounds.
#[verifier::external_body]
fn entries_swap_indices(m: &mut IndexMap<String, FileEntry>, a: usize, b: usize)
    requires
        a < entries_of(*old(m)).len(),
        b < entries_of(*old(m)).len(),
    ensures
        entries_of(*final(m)) == entries_of(*old(m)).update(
            a as int,
            entries_of(*old(m))[b as int],
        ).update(b as int, entries_of(*old(m))[a as int]),
{
    m.swap_indices(a, b)
}

/// Removes the last pair with `IndexMap::pop`, and returns it.
#[verifier::external_body]
fn entries_pop(m: &mut IndexMap<String, FileEntry>) -> (r: Option<(String, FileEntry)>)
    ensures
        match r {
            Some((k, e)) => entries_of(*old(m)).len() > 0 && entries_of(*old(m)).last() == (
                k@,
                e@,
            ) && entries_of(*final(m)) == entries_of(*old(m)).drop_last(),
            None => entries_of(*old(m)).len() == 0 && entries_of(*final(m)) == entries_of(*old(m)),
        },
{
    m.pop()
}

/// Replaces the entry at a position through the `IndexMut<usize>` of
/// `IndexMap`, which panics on a position that is out of bounds. The path of
/// the pair stays.
#[verifier::external_body]
fn entries_set(m: &mut IndexMap<String, FileEntry>, index: usize, entry: FileEntry)
    requires
        index < entries_of(*old(m)).len(),
    ensures
        entries_of(*final(m)) == entries_of(*old(m)).update(
            index as int,
            (entries_of(*old(m))[index as int].0, entry@),
        ),
{
    m[index] = entry;
}

/// A write of one row of the table: the slot and what the row is to hold.
#[derive(Debug)]
pub struct RowWrite {
    pub slot: usize,
    pub row: Record,
}

/// A `RowWrite` as values.
pub ghost struct RowWriteView {
    pub slot: usize,
    pub row: RecordView,
}

impl View for RowWrite {
    type V = RowWriteView;

    open spec fn view(&self) -> RowWriteView {
        RowWriteView { slot: self.slot, row: self.row@ }
    }
}

/// The page that a slot behind the sentinel stands in: each page holds 50
/// members.
pub open spec fn page_of(slot: int) -> int {
    (slot - 1) / 50
}

/// The row of its page's table that a slot behind the sentinel stands at:
/// the members take the rows from 1 on, row 0 being the link to the next
/// page.
pub open spec fn row_of(slot: int) -> int {
    (slot - 1) % 50 + 1
}

impl RowWrite {
    /// The page and the row that the write goes to; none for slot 0, which
    /// holds the sentinel and is no row of a table.
    pub fn place(&self) -> (r: Option<(usize, usize)>)
        ensures
            r is Some <==> self.slot >= 1,
            r matches Some((page, row)) ==> page == page_of(self.slot as int) && row == row_of(
                self.slot as int,
            ) && 1 <= row <= 50 && self.slot == 50 * page + row,
    {
        if self.slot == 0 {
            return None;
        }
        let member: usize = self.slot - 1;
        Some((member / 50, member % 50 + 1))
    }
}

/// The index of an archive: the pages of its chain, the entries of the
/// members in the order of their slots, and the slots that were changed
/// since the last flush. Slot 0 holds a sentinel, so that 0 can stand for
/// "no part".
pub struct Index {
    pub first_page: usize,
    pub pages: Vec<Page>,
    /// Entries by path, in the order of their slots.
    entries: IndexMap<String, FileEntry>,
    /// The slots that were changed, each once.
    modified: Vec<usize>,
    /// The highest slot that was in use since the last flush.
    max_index: usize,
}

/// An index as values.
pub ghost struct IndexView {
    pub first_page: usize,
    pub pages: Seq<PageView>,
    pub entries: Seq<(Seq<char>, FileEntryView)>,
    pub modified: Seq<usize>,
    pub max_index: usize,
}

impl View for Index {
    type V = IndexView;

    closed spec fn view(&self) -> IndexView {
        IndexView {
            first_page: self.first_page,
            pages: pages_of(self.pages@),
            entries: entries_of(self.entries),
            modified: self.modified@,
            max_index: self.max_index,
        }
    }
}

/// The entries with the slot of the part before entry `i` set to `v`.
pub open spec fn set_prev(entries: Seq<(Seq<char>, FileEntryView)>, i: int, v: usize) -> Seq<
    (Seq<char>, FileEntryView),
> {
    entries.update(i, (entries[i].0, FileEntryView { prev_part: v, ..entries[i].1 }))
}

/// The entries with the slot of the part behind entry `i` set to `v`.
pub open spec fn set_next(entries: Seq<(Seq<char>, FileEntryView)>, i: int, v: usize) -> Seq<
    (Seq<char>, FileEntryView),
> {
    entries.update(i, (entries[i].0, FileEntryView { next_part: v, ..entries[i].1 }))
}

/// True when the links of entry `i` are answered: the part behind it names
/// it as the part before, and the part before it names it as the part
/// behind.
pub open spec fn link_ok(entries: Seq<(Seq<char>, FileEntryView)>, i: int) -> bool {
    let e = entries[i].1;
    &&& e.next_part != 0 ==> e.next_part < entries.len() && entries[e.next_part as int].1.prev_part
        == i
    &&& e.prev_part != 0 ==> e.prev_part < entries.len() && entries[e.prev_part as int].1.next_part
        == i
}

/// The largest slot that an entry can name as a part: a row of a table
/// holds each link in one byte.
pub const LINK_MAX: usize = 255;

/// True when every link of every entry can be written in a row: none names
/// a slot behind `LINK_MAX`.
pub open spec fn links_fit(entries: Seq<(Seq<char>, FileEntryView)>) -> bool {
    forall|i: int|
        0 <= i < entries.len() ==> (#[trigger] entries[i]).1.next_part <= LINK_MAX
            && entries[i].1.prev_part <= LINK_MAX
}

/// True when slot 0 holds the sentinel and the links of every entry are
/// answered.
pub open spec fn links_ok(entries: Seq<(Seq<char>, FileEntryView)>) -> bool {
    &&& entries.len() >= 1
    &&& entries[0].1.next_part == 0
    &&& entries[0].1.prev_part == 0
    &&& forall|i: int| 0 <= i < entries.len() ==> link_ok(entries, i)
}

/// The entries after the neighbours of the entry at `slot` were joined to
/// each other: the part behind it names the part before it as the part
/// before, and the part before it names the part behind it as the part
/// behind.
pub open spec fn unlink(entries: Seq<(Seq<char>, FileEntryView)>, slot: int) -> Seq<
    (Seq<char>, FileEntryView),
> {
    let gone = entries[slot].1;
    let a = if gone.next_part > 0 {
        set_prev(entries, gone.next_part as int, gone.prev_part)
    } else {
        entries
    };
    if gone.prev_part > 0 {
        set_next(a, gone.prev_part as int, gone.next_part)
    } else {
        a
    }
}

/// The entries after the last one took the place of the one at `slot`,
/// which is dropped: the parts before and behind the last entry name its
/// new slot.
pub open spec fn compact(entries: Seq<(Seq<char>, FileEntryView)>, slot: int) -> Seq<
    (Seq<char>, FileEntryView),
> {
    let last = entries.len() - 1;
    if slot < last {
        let behind = entries[last].1.next_part;
        let before = entries[last].1.prev_part;
        let a = if behind > 0 {
            set_prev(entries, behind as int, slot as usize)
        } else {
            entries
        };
        let b = if before > 0 {
            set_next(a, before as int, slot as usize)
        } else {
            a
        };
        b.update(slot, b[last]).drop_last()
    } else {
        entries.drop_last()
    }
}

/// The entries after the one at `slot` was removed: its neighbours are
/// joined to each other, and the last entry takes its place.
pub open spec fn remove_slot(entries: Seq<(Seq<char>, FileEntryView)>, slot: int) -> Seq<
    (Seq<char>, FileEntryView),
> {
    let last = entries.len() - 1;
    let gone = entries[slot].1;
    settle(
        settle(compact(unlink(entries, slot), slot), new_place(gone.next_part, slot, last)),
        new_place(gone.prev_part, slot, last),
    )
}

/// Where the entry of slot `n` stands after the last entry took the place
/// of the one at `slot`.
pub open spec fn new_place(n: usize, slot: int, last: int) -> int {
    if n == last {
        slot
    } else {
        n as int
    }
}

/// The entries with the entry at `place` marked as parted exactly when it
/// names a part before or behind it. Slot 0 and a place without an entry
/// are left alone.
pub open spec fn settle(entries: Seq<(Seq<char>, FileEntryView)>, place: int) -> Seq<
    (Seq<char>, FileEntryView),
> {
    if 0 < place < entries.len() {
        let e = entries[place].1;
        entries.update(
            place,
            (
                entries[place].0,
                FileEntryView {
                    meta: file::FileMetaView {
                        parted: e.next_part != 0 || e.prev_part != 0,
                        ..e.meta
                    },
                    ..e
                },
            ),
        )
    } else {
        entries
    }
}

/// True when every entry behind the sentinel is marked as parted exactly
/// when it names a part before or behind it.
pub open spec fn parted_ok(entries: Seq<(Seq<char>, FileEntryView)>) -> bool {
    forall|i: int|
        1 <= i < entries.len() ==> (#[trigger] entries[i]).1.meta.parted == (entries[i].1.next_part
            != 0 || entries[i].1.prev_part != 0)
}

/// True when the entry at `slot` can be removed: the slot holds an entry
/// behind the sentinel, and the links that removing it follows stay in
/// bounds: those of the entry, and those of the last entry once the
/// neighbours of the removed one are joined.
pub open spec fn removable(entries: Seq<(Seq<char>, FileEntryView)>, slot: int) -> bool {
    let last = entries.len() - 1;
    let joined = unlink(entries, slot);
    &&& 1 <= slot <= last
    &&& entries[slot].1.next_part <= last
    &&& entries[slot].1.prev_part <= last
    &&& slot < last ==> joined[last].1.next_part <= last && joined[last].1.prev_part <= last
}

/// The slots with `slot` added, where it was not among them.
pub open spec fn marked(modified: Seq<usize>, slot: usize) -> Seq<usize> {
    if modified.contains(slot) {
        modified
    } else {
        modified.push(slot)
    }
}

/// Sets the slot of the part before the entry at `index`.
fn set_prev_part(m: &mut IndexMap<String, FileEntry>, index: usize, v: usize)
    requires
        index < entries_of(*old(m)).len(),
    ensures
        entries_of(*final(m)) == set_prev(entries_of(*old(m)), index as int, v),
{
    let copy = match entries_get_index(m, index) {
        Some((_, e)) => {
            let mut copy = e.duplicate();
            copy.prev_part = v;
            copy
        },
        None => FileEntry::default(),
    };
    entries_set(m, index, copy);
}

/// Sets the slot of the part behind the entry at `index`.
fn set_next_part(m: &mut IndexMap<String, FileEntry>, index: usize, v: usize)
    requires
        index < entries_of(*old(m)).len(),
    ensures
        entries_of(*final(m)) == set_next(entries_of(*old(m)), index as int, v),
{
    let copy = match entries_get_index(m, index) {
        Some((_, e)) => {
            let mut copy = e.duplicate();
            copy.next_part = v;
            copy
        },
        None => FileEntry::default(),
    };
    entries_set(m, index, copy);
}

/// Marks the entry at `place` as parted exactly when it names a part.
fn settle_at(m: &mut IndexMap<String, FileEntry>, place: usize)
    ensures
        entries_of(*final(m)) == settle(entries_of(*old(m)), place as int),
{
    let len: usize = entries_len(m);
    if place == 0 || place >= len {
        return ;
    }
    let copy = match entries_get_index(m, place) {
        Some((_, e)) => {
            let mut copy = e.duplicate();
            copy.meta.parted = copy.next_part != 0 || copy.prev_part != 0;
            copy
        },
        None => FileEntry::default(),
    };
    entries_set(m, place, copy);
}

/// The slots of the parts behind and before the entry at `index`.
fn links_at(m: &IndexMap<String, FileEntry>, index: usize) -> (links: (usize, usize))
    requires
        index < entries_of(*m).len(),
    ensures
        links.0 == entries_of(*m)[index as int].1.next_part,
        links.1 == entries_of(*m)[index as int].1.prev_part,
{
    match entries_get_index(m, index) {
        Some((_, e)) => (e.next_part, e.prev_part),
        None => (0, 0),
    }
}

/// Adds `slot` to the slots that were changed, where it is not among them.
fn mark(modified: &mut Vec<usize>, slot: usize)
    ensures
        final(modified)@ == marked(old(modified)@, slot),
{
    let mut i: usize = 0;
    while i < modified.len()
        invariant
            i <= modified@.len(),
            modified@ == old(modified)@,
            forall|j: int| 0 <= j < i ==> modified@[j] != slot,
        decreases modified@.len() - i,
    {
        if modified[i] == slot {
            return ;
        }
        i += 1;
    }
    modified.push(slot);
}


/// The larger of two slots.
pub open spec fn max_slot(a: usize, b: usize) -> usize {
    if a >= b {
        a
    } else {
        b
    }
}

/// The slots that removing the entry at `slot` marks as changed: the
/// neighbours of the removed entry, and, where the last entry takes its
/// place, the neighbours of the last entry and the slot itself.
pub open spec fn remove_marks(
    entries: Seq<(Seq<char>, FileEntryView)>,
    modified: Seq<usize>,
    slot: int,
) -> Seq<usize> {
    compact_marks(unlink(entries, slot), unlink_marks(entries, modified, slot), slot)
}

impl Index {
    /// True when slot 0 holds the sentinel and the links of every entry are
    /// answered.
    pub open spec fn wf(&self) -> bool {
        links_ok(self@.entries)
    }

    /// Creates an index without pages, which holds the sentinel only.
    pub fn new() -> (index: Self)
        ensures
            index@ == (IndexView {
                first_page: 0,
                pages: Seq::<PageView>::empty(),
                entries: seq![(Seq::<char>::empty(), entry_of(empty_record()))],
                modified: Seq::<usize>::empty(),
                max_index: 0,
            }),
            index.wf(),
            links_fit(index@.entries),
            parted_ok(index@.entries),
    {
        let mut entries = entries_new();
        entries_insert(&mut entries, String::new(), FileEntry::default());
        proof {
            let start = Seq::<(Seq<char>, FileEntryView)>::empty();
            assert(key_index(start, Seq::<char>::empty()) is None);
            assert(entries_of(entries) =~= seq![(Seq::<char>::empty(), entry_of(empty_record()))]);
        }
        let pages: Vec<Page> = Vec::new();
        assert(pages_of(pages@) =~= Seq::<PageView>::empty());
        Index { first_page: 0, pages, entries, modified: Vec::new(), max_index: 0 }
    }

    /// Gets the number of entries, the sentinel not counted.
    pub fn len(&self) -> (n: usize)
        ensures
            n == (if self@.entries.len() > 0 {
                self@.entries.len() - 1
            } else {
                0
            }),
    {
        let n: usize = entries_len(&self.entries);
        if n > 0 {
            n - 1
        } else {
            0
        }
    }

    /// Gets an entry by path.
    pub fn get(&self, path: &str) -> (r: Option<&FileEntry>)
        ensures
            match r {
                Some(e) => value_of(self@.entries, path@) == Some(e@),
                None => value_of(self@.entries, path@) is None,
            },
    {
        entries_get(&self.entries, path)
    }

    /// Gets an entry by index: index 0 is the first entry behind the
    /// sentinel.
    pub fn get_index(&self, index: usize) -> (r: Option<&FileEntry>)
        ensures
            match r {
                Some(e) => index + 1 < self@.entries.len() && self@.entries[index + 1].1 == e@,
                None => index + 1 >= self@.entries.len(),
            },
    {
        if index == usize::MAX {
            let n: usize = entries_len(&self.entries);
            return None;
        }
        match entries_get_index(&self.entries, index + 1) {
            Some((_, entry)) => Some(entry),
            None => None,
        }
    }

    /// Appends an entry at the next free slot. A path that is present is
    /// refused, and so is a link to a slot behind `LINK_MAX`, which no row
    /// can hold.
    pub fn append(&mut self, entry: FileMeta, prev_part: usize, next_part: usize) -> (r: Result<
        (),
        IndexError,
    >)
        ensures
            r is Ok <==> key_index(old(self)@.entries, entry@.path) is None && prev_part
                <= LINK_MAX && next_part <= LINK_MAX,
            match r {
                Ok(()) => final(self)@ == (
                IndexView {
                    entries: old(self)@.entries.push(
                        (entry@.path, FileEntryView { meta: entry@, next_part, prev_part }),
                    ),
                    modified: marked(old(self)@.modified, old(self)@.entries.len() as usize),
                    max_index: max_slot(old(self)@.max_index, old(self)@.entries.len() as usize),
                    ..old(self)@
                }),
                Err(e) => final(self)@ == old(self)@ && (e == IndexError::Duplicate <==> key_index(
                    old(self)@.entries,
                    entry@.path,
                ) is Some) && (e == IndexError::Duplicate || e == IndexError::OutOfBounds),
            },
            r is Ok && links_fit(old(self)@.entries) ==> links_fit(final(self)@.entries),
            r is Ok && parted_ok(old(self)@.entries) && entry@.parted == (next_part != 0
                || prev_part != 0) ==> parted_ok(final(self)@.entries),
    {
        let length: usize = entries_len(&self.entries);
        if entries_get(&self.entries, entry.path.as_str()).is_some() {
            return Err(IndexError::Duplicate);
        }
        if prev_part > LINK_MAX || next_part > LINK_MAX {
            return Err(IndexError::OutOfBounds);
        }
        let path = entry.path.clone();
        entries_insert(&mut self.entries, path, FileEntry { meta: entry, next_part, prev_part });
        mark(&mut self.modified, length);
        if length > self.max_index {
            self.max_index = length;
        }
        Ok(())
    }

    /// Removes the entry at `index`, where index 0 is the first entry
    /// behind the sentinel. Its neighbours are joined to each other, and the
    /// last entry takes its slot, so that the slots in use stay together;
    /// the links of the neighbours of the last entry follow it. A neighbour
    /// that names no part any more is no longer marked as parted. Every
    /// slot that was touched is marked as changed.
    pub fn remove(&mut self, index: usize) -> (r: Result<(), IndexError>)
        ensures
            match r {
                Ok(()) => removable(old(self)@.entries, index + 1) && final(self)@ == (IndexView {
                    entries: remove_slot(old(self)@.entries, index + 1),
                    modified: remove_marks(old(self)@.entries, old(self)@.modified, index + 1),
                    ..old(self)@
                }),
                Err(e) => e == IndexError::OutOfBounds && !removable(
                    old(self)@.entries,
                    index + 1,
                ) && final(self)@ == old(self)@,
            },
            old(self).wf() ==> (r is Ok <==> index + 1 < old(self)@.entries.len()),
            old(self).wf() && r is Ok ==> final(self).wf(),
            old(self).wf() && r is Ok && links_fit(old(self)@.entries) ==> links_fit(
                final(self)@.entries,
            ),
            old(self).wf() && r is Ok && parted_ok(old(self)@.entries) ==> parted_ok(
                final(self)@.entries,
            ),
    {
        proof {
            if self.wf() && index + 1 < self@.entries.len() {
                lemma_links_removable(self@.entries, index + 1);
                lemma_remove_keeps_links(self@.entries, index + 1);
                if links_fit(self@.entries) {
                    lemma_remove_keeps_fit(self@.entries, index + 1);
                }
                if parted_ok(self@.entries) {
                    lemma_remove_keeps_parted(self@.entries, index + 1);
                }
            }
        }
        let len: usize = entries_len(&self.entries);
        if index == usize::MAX || len < 2 || index + 1 > len - 1 {
            return Err(IndexError::OutOfBounds);
        }
        let slot: usize = index + 1;
        if !can_remove(&self.entries, slot) {
            return Err(IndexError::OutOfBounds);
        }
        let (next, prev) = links_at(&self.entries, slot);
        join_neighbours(&mut self.entries, &mut self.modified, slot);
        move_last_to(&mut self.entries, &mut self.modified, slot);
        settle_at(&mut self.entries, if next == len - 1 { slot } else { next });
        settle_at(&mut self.entries, if prev == len - 1 { slot } else { prev });
        Ok(())
    }
}

/// What an entry holds after it was settled: its links and its member as
/// before, but for the mark of a parted member.
pub proof fn lemma_settle_entry(entries: Seq<(Seq<char>, FileEntryView)>, place: int, j: int)
    requires
        0 <= j < entries.len(),
    ensures
        settle(entries, place).len() == entries.len(),
        settle(entries, place)[j].0 == entries[j].0,
        settle(entries, place)[j].1.next_part == entries[j].1.next_part,
        settle(entries, place)[j].1.prev_part == entries[j].1.prev_part,
        settle(entries, place)[j].1.meta.offset == entries[j].1.meta.offset,
        settle(entries, place)[j].1.meta.size == entries[j].1.meta.size,
        settle(entries, place)[j].1.meta.path == entries[j].1.meta.path,
        settle(entries, place)[j].1.meta.parted == (if j == place && j > 0 {
            entries[j].1.next_part != 0 || entries[j].1.prev_part != 0
        } else {
            entries[j].1.meta.parted
        }),
{
}

/// Settling an entry leaves the links of every entry answered.
pub proof fn lemma_settle_links(entries: Seq<(Seq<char>, FileEntryView)>, place: int)
    requires
        links_ok(entries),
    ensures
        links_ok(settle(entries, place)),
        settle(entries, place).len() == entries.len(),
{
    let result = settle(entries, place);
    lemma_settle_entry(entries, place, 0);
    assert forall|i: int| 0 <= i < result.len() implies link_ok(result, i) by {
        assert(link_ok(entries, i));
        lemma_settle_entry(entries, place, i);
        if entries[i].1.next_part != 0 {
            lemma_settle_entry(entries, place, entries[i].1.next_part as int);
        }
        if entries[i].1.prev_part != 0 {
            lemma_settle_entry(entries, place, entries[i].1.prev_part as int);
        }
    }
}

/// Tells whether the entry at `slot` can be removed.
fn can_remove(m: &IndexMap<String, FileEntry>, slot: usize) -> (ok: bool)
    requires
        1 <= slot < entries_of(*m).len(),
    ensures
        ok == removable(entries_of(*m), slot as int),
{
    let len: usize = entries_len(m);
    let last: usize = len - 1;
    let (next, prev) = links_at(m, slot);
    if next > last || prev > last {
        return false;
    }
    if slot == last {
        return true;
    }
    // What the links of the last entry are once the neighbours of the
    // removed one are joined.
    let (tail_next, tail_prev) = links_at(m, last);
    let behind: usize = if prev == last && prev > 0 { next } else { tail_next };
    let before: usize = if next == last && next > 0 { prev } else { tail_prev };
    assert(unlink(entries_of(*m), slot as int)[last as int].1.next_part == behind);
    assert(unlink(entries_of(*m), slot as int)[last as int].1.prev_part == before);
    behind <= last && before <= last
}

/// The slots that joining the neighbours of the entry at `slot` marks as
/// changed.
pub open spec fn unlink_marks(
    entries: Seq<(Seq<char>, FileEntryView)>,
    modified: Seq<usize>,
    slot: int,
) -> Seq<usize> {
    let gone = entries[slot].1;
    let a = if gone.next_part > 0 {
        marked(modified, gone.next_part)
    } else {
        modified
    };
    if gone.prev_part > 0 {
        marked(a, gone.prev_part)
    } else {
        a
    }
}

/// The slots that putting the last entry in the place of the one at `slot`
/// marks as changed.
pub open spec fn compact_marks(
    entries: Seq<(Seq<char>, FileEntryView)>,
    modified: Seq<usize>,
    slot: int,
) -> Seq<usize> {
    let last = entries.len() - 1;
    let behind = entries[last].1.next_part;
    let before = entries[last].1.prev_part;
    let c = if slot < last && behind > 0 {
        marked(modified, behind)
    } else {
        modified
    };
    let d = if slot < last && before > 0 {
        marked(c, before)
    } else {
        c
    };
    if slot < last {
        marked(d, slot as usize)
    } else {
        d
    }
}

/// Joins the neighbours of the entry at `slot` to each other.
fn join_neighbours(m: &mut IndexMap<String, FileEntry>, modified: &mut Vec<usize>, slot: usize)
    requires
        slot < entries_of(*old(m)).len(),
        entries_of(*old(m))[slot as int].1.next_part < entries_of(*old(m)).len(),
        entries_of(*old(m))[slot as int].1.prev_part < entries_of(*old(m)).len(),
    ensures
        entries_of(*final(m)) == unlink(entries_of(*old(m)), slot as int),
        final(modified)@ == unlink_marks(entries_of(*old(m)), old(modified)@, slot as int),
{
    let (next, prev) = links_at(m, slot);
    if next > 0 {
        set_prev_part(m, next, prev);
        mark(modified, next);
    }
    if prev > 0 {
        set_next_part(m, prev, next);
        mark(modified, prev);
    }
}

/// Puts the last entry in the place of the one at `slot`, which is dropped.
fn move_last_to(m: &mut IndexMap<String, FileEntry>, modified: &mut Vec<usize>, slot: usize)
    requires
        1 <= slot < entries_of(*old(m)).len(),
        slot < entries_of(*old(m)).len() - 1 ==> entries_of(*old(m)).last().1.next_part
            < entries_of(*old(m)).len() && entries_of(*old(m)).last().1.prev_part < entries_of(
            *old(m),
        ).len(),
    ensures
        entries_of(*final(m)) == compact(entries_of(*old(m)), slot as int),
        final(modified)@ == compact_marks(entries_of(*old(m)), old(modified)@, slot as int),
{
    let len: usize = entries_len(m);
    let last: usize = len - 1;
    let ghost start = entries_of(*m);
    if slot < last {
        let (behind, before) = links_at(m, last);
        if behind > 0 {
            set_prev_part(m, behind, slot);
            mark(modified, behind);
        }
        if before > 0 {
            set_next_part(m, before, slot);
            mark(modified, before);
        }
        entries_swap_indices(m, slot, last);
        mark(modified, slot);
    }
    entries_pop(m);
    assert(entries_of(*m) =~= compact(start, slot as int));
}

/// True when the links of entry `i` are answered by others than the entry
/// at `slot`.
pub open spec fn link_ok_around(entries: Seq<(Seq<char>, FileEntryView)>, slot: int, i: int)
    -> bool {
    &&& link_ok(entries, i)
    &&& entries[i].1.next_part != slot
    &&& entries[i].1.prev_part != slot
}

/// True when slot 0 holds the sentinel, and the links of every entry but
/// the one at `slot` are answered by others than that one.
pub open spec fn links_ok_around(entries: Seq<(Seq<char>, FileEntryView)>, slot: int) -> bool {
    &&& entries.len() >= 1
    &&& entries[0].1.next_part == 0
    &&& entries[0].1.prev_part == 0
    &&& forall|i: int|
        0 <= i < entries.len() && i != slot ==> #[trigger] link_ok_around(entries, slot, i)
}

/// Where the links of every entry are answered, the entry at any slot in
/// use can be removed.
pub proof fn lemma_links_removable(entries: Seq<(Seq<char>, FileEntryView)>, slot: int)
    requires
        links_ok(entries),
        1 <= slot < entries.len(),
    ensures
        removable(entries, slot),
{
    let last = entries.len() - 1;
    assert(link_ok(entries, slot));
    assert(link_ok(entries, last));
}

/// What the entry at place `j` holds after the neighbours of the entry at
/// `slot` were joined: the part behind the entry names the part before it
/// as the part before, the part before it names the part behind it as the
/// part behind, and nothing else has changed.
pub proof fn lemma_unlink_entry(entries: Seq<(Seq<char>, FileEntryView)>, slot: int, j: int)
    requires
        0 <= slot < entries.len(),
        0 <= j < entries.len(),
        entries[slot].1.next_part < entries.len(),
        entries[slot].1.prev_part < entries.len(),
    ensures
        unlink(entries, slot).len() == entries.len(),
        unlink(entries, slot)[j].0 == entries[j].0,
        unlink(entries, slot)[j].1.meta == entries[j].1.meta,
        unlink(entries, slot)[j].1.prev_part == (if entries[slot].1.next_part > 0 && j
            == entries[slot].1.next_part {
            entries[slot].1.prev_part
        } else {
            entries[j].1.prev_part
        }),
        unlink(entries, slot)[j].1.next_part == (if entries[slot].1.prev_part > 0 && j
            == entries[slot].1.prev_part {
            entries[slot].1.next_part
        } else {
            entries[j].1.next_part
        }),
{
    let gone = entries[slot].1;
    let first = if gone.next_part > 0 {
        set_prev(entries, gone.next_part as int, gone.prev_part)
    } else {
        entries
    };
    assert(first.len() == entries.len());
    assert(first[j].1.next_part == entries[j].1.next_part);
}

/// What the entry at place `j` holds after the last entry was put in the
/// place of the one at `slot`: the entry that stood there, or the last one
/// at `slot`, where the links that named the last entry name `slot`.
pub proof fn lemma_compact_entry(entries: Seq<(Seq<char>, FileEntryView)>, slot: int, j: int)
    requires
        1 <= slot < entries.len(),
        0 <= j < entries.len() - 1,
        slot < entries.len() - 1 ==> entries.last().1.next_part < entries.len()
            && entries.last().1.prev_part < entries.len(),
    ensures
        compact(entries, slot).len() == entries.len() - 1,
        ({
            let last = entries.len() - 1;
            let from = if j == slot {
                last
            } else {
                j
            };
            let behind = entries[last].1.next_part;
            let before = entries[last].1.prev_part;
            let moved = compact(entries, slot)[j];
            &&& moved.0 == entries[from].0
            &&& moved.1.meta == entries[from].1.meta
            &&& moved.1.prev_part == (if slot < last && behind > 0 && from == behind {
                slot as usize
            } else {
                entries[from].1.prev_part
            })
            &&& moved.1.next_part == (if slot < last && before > 0 && from == before {
                slot as usize
            } else {
                entries[from].1.next_part
            })
        }),
{
    let last = entries.len() - 1;
    if slot < last {
        let behind = entries[last].1.next_part;
        let before = entries[last].1.prev_part;
        let a = if behind > 0 {
            set_prev(entries, behind as int, slot as usize)
        } else {
            entries
        };
        let b = if before > 0 {
            set_next(a, before as int, slot as usize)
        } else {
            a
        };
        assert(a.len() == entries.len());
        assert(b.len() == entries.len());
        let from = if j == slot {
            last
        } else {
            j
        };
        assert(a[from].1.next_part == entries[from].1.next_part);
        assert(b[from].1.prev_part == a[from].1.prev_part);
        assert(compact(entries, slot) == b.update(slot, b[last]).drop_last());
        assert(b.update(slot, b[last]).drop_last()[j] == b[from]);
    } else {
        assert(compact(entries, slot) == entries.drop_last());
    }
}

/// Joining the neighbours of an entry leaves the links of every other entry
/// answered, and none of them names the entry.
pub proof fn lemma_unlink_links(entries: Seq<(Seq<char>, FileEntryView)>, slot: int)
    requires
        links_ok(entries),
        1 <= slot < entries.len(),
    ensures
        links_ok_around(unlink(entries, slot), slot),
        unlink(entries, slot).len() == entries.len(),
{
    let joined = unlink(entries, slot);
    let gone = entries[slot].1;
    assert(link_ok(entries, slot));
    assert(link_ok(entries, 0));
    lemma_unlink_entry(entries, slot, 0);
    assert forall|i: int| 0 <= i < joined.len() && i != slot implies #[trigger] link_ok_around(
        joined,
        slot,
        i,
    ) by {
        assert(link_ok(entries, i));
        lemma_unlink_entry(entries, slot, i);
        let e = entries[i].1;
        if e.next_part != 0 {
            assert(link_ok(entries, e.next_part as int));
            lemma_unlink_entry(entries, slot, e.next_part as int);
        }
        if e.prev_part != 0 {
            assert(link_ok(entries, e.prev_part as int));
            lemma_unlink_entry(entries, slot, e.prev_part as int);
        }
        if gone.next_part != 0 {
            assert(link_ok(entries, gone.next_part as int));
            lemma_unlink_entry(entries, slot, gone.next_part as int);
        }
        if gone.prev_part != 0 {
            assert(link_ok(entries, gone.prev_part as int));
            lemma_unlink_entry(entries, slot, gone.prev_part as int);
        }
    }
}

/// Where no other entry names the entry at `slot`, putting the last entry
/// in its place leaves the links of every entry answered.
pub proof fn lemma_compact_links(entries: Seq<(Seq<char>, FileEntryView)>, slot: int)
    requires
        links_ok_around(entries, slot),
        1 <= slot < entries.len(),
    ensures
        links_ok(compact(entries, slot)),
        compact(entries, slot).len() == entries.len() - 1,
{
    let last = entries.len() - 1;
    let result = compact(entries, slot);
    assert(link_ok_around(entries, slot, 0));
    if slot < last {
        assert(link_ok_around(entries, slot, last));
    }
    lemma_compact_entry(entries, slot, 0);
    assert forall|i: int| 0 <= i < result.len() implies link_ok(result, i) by {
        let from = if i == slot {
            last
        } else {
            i
        };
        assert(link_ok_around(entries, slot, from));
        lemma_compact_entry(entries, slot, i);
        let e = entries[from].1;
        let r = result[i].1;
        if e.next_part != 0 {
            assert(link_ok_around(entries, slot, e.next_part as int));
        }
        if e.prev_part != 0 {
            assert(link_ok_around(entries, slot, e.prev_part as int));
        }
        if r.next_part != 0 {
            lemma_compact_entry(entries, slot, r.next_part as int);
        }
        if r.prev_part != 0 {
            lemma_compact_entry(entries, slot, r.prev_part as int);
        }
    }
}

/// Invariant of the links under removal: where slot 0 holds the sentinel
/// and the links of every entry are answered, they still are after the
/// entry at any slot in use was removed.
pub proof fn lemma_remove_keeps_links(entries: Seq<(Seq<char>, FileEntryView)>, slot: int)
    requires
        links_ok(entries),
        1 <= slot < entries.len(),
    ensures
        links_ok(remove_slot(entries, slot)),
        remove_slot(entries, slot).len() == entries.len() - 1,
{
    lemma_unlink_links(entries, slot);
    lemma_compact_links(unlink(entries, slot), slot);
    let last = entries.len() - 1;
    let moved = compact(unlink(entries, slot), slot);
    let first = settle(moved, new_place(entries[slot].1.next_part, slot, last));
    lemma_settle_links(moved, new_place(entries[slot].1.next_part, slot, last));
    lemma_settle_links(first, new_place(entries[slot].1.prev_part, slot, last));
}

/// Where every link can be written in a row, the row written for an entry
/// is read back as that entry.
pub proof fn lemma_rows_read_back(entries: Seq<(Seq<char>, FileEntryView)>, i: int)
    requires
        links_fit(entries),
        0 <= i < entries.len(),
    ensures
        entry_of(record_of(entries[i].1)) == entries[i].1,
{
    file::lemma_record_round_trip(entries[i].1);
}

/// Invariant of the links under removal: where the links of every entry
/// are answered and every link can be written in a row, every link can
/// still be written in a row after the entry at any slot in use was
/// removed.
pub proof fn lemma_remove_keeps_fit(entries: Seq<(Seq<char>, FileEntryView)>, slot: int)
    requires
        links_ok(entries),
        links_fit(entries),
        1 <= slot < entries.len(),
    ensures
        links_fit(remove_slot(entries, slot)),
{
    let last = entries.len() - 1;
    let gone = entries[slot].1;
    let joined = unlink(entries, slot);
    assert(link_ok(entries, slot));
    assert(link_ok(entries, last));
    assert(joined.len() == entries.len());
    assert forall|i: int| 0 <= i < joined.len() implies (#[trigger] joined[i]).1.next_part
        <= LINK_MAX && joined[i].1.prev_part <= LINK_MAX by {
        assert(entries[i].1.next_part <= LINK_MAX);
    }
    let behind = joined[last].1.next_part;
    let before = joined[last].1.prev_part;
    if slot < last && (behind > 0 || before > 0) {
        // A link of the last entry is answered by an entry that names the
        // last slot, or was taken over from the removed entry, which named it.
        if behind > 0 {
            if entries[last].1.next_part == behind {
                assert(entries[behind as int].1.prev_part == last);
            } else {
                assert(gone.prev_part == last);
            }
        } else {
            if entries[last].1.prev_part == before {
                assert(entries[before as int].1.next_part == last);
            } else {
                assert(gone.next_part == last);
            }
        }
        assert(last <= LINK_MAX);
    }
    let moved = compact(joined, slot);
    assert forall|i: int| 0 <= i < moved.len() implies (#[trigger] moved[i]).1.next_part
        <= LINK_MAX && moved[i].1.prev_part <= LINK_MAX by {
        assert(joined[i].1.next_part <= LINK_MAX);
        assert(joined[last].1.next_part <= LINK_MAX);
    }
    let first = settle(moved, new_place(gone.next_part, slot, last));
    let result = remove_slot(entries, slot);
    assert forall|i: int| 0 <= i < result.len() implies (#[trigger] result[i]).1.next_part
        <= LINK_MAX && result[i].1.prev_part <= LINK_MAX by {
        lemma_settle_entry(moved, new_place(gone.next_part, slot, last), i);
        lemma_settle_entry(first, new_place(gone.prev_part, slot, last), i);
        assert(moved[i].1.next_part <= LINK_MAX);
    }
}

/// Invariant of the mark of parted members under removal: where the links
/// of every entry are answered and every entry is marked as parted exactly
/// when it names a part, that still holds after the entry at any slot in
/// use was removed.
pub proof fn lemma_remove_keeps_parted(entries: Seq<(Seq<char>, FileEntryView)>, slot: int)
    requires
        links_ok(entries),
        parted_ok(entries),
        1 <= slot < entries.len(),
    ensures
        parted_ok(remove_slot(entries, slot)),
{
    let last = entries.len() - 1;
    let gone = entries[slot].1;
    let joined = unlink(entries, slot);
    let moved = compact(joined, slot);
    let p = new_place(gone.next_part, slot, last);
    let q = new_place(gone.prev_part, slot, last);
    let first = settle(moved, p);
    let result = settle(first, q);
    assert(link_ok(entries, slot));
    assert(link_ok(entries, last));
    lemma_links_removable(entries, slot);
    lemma_unlink_entry(entries, slot, last);
    assert forall|j: int| 1 <= j < result.len() implies (#[trigger] result[j]).1.meta.parted == (
    result[j].1.next_part != 0 || result[j].1.prev_part != 0) by {
        let from = if j == slot {
            last
        } else {
            j
        };
        lemma_unlink_entry(entries, slot, from);
        lemma_compact_entry(joined, slot, j);
        lemma_settle_entry(moved, p, j);
        lemma_settle_entry(first, q, j);
        assert(entries[from].1.meta.parted == (entries[from].1.next_part != 0
            || entries[from].1.prev_part != 0));
        assert(link_ok(entries, from));
    }
}

/// Invariant of the links under appending: an entry without links keeps the
/// links of every entry answered.
pub proof fn lemma_append_keeps_links(
    entries: Seq<(Seq<char>, FileEntryView)>,
    pair: (Seq<char>, FileEntryView),
)
    requires
        links_ok(entries),
        pair.1.next_part == 0,
        pair.1.prev_part == 0,
    ensures
        links_ok(entries.push(pair)),
{
    let result = entries.push(pair);
    assert forall|i: int| 0 <= i < result.len() implies link_ok(result, i) by {
        if i < entries.len() {
            assert(link_ok(entries, i));
        }
    }
}


/// Gets the entry at a position for changing it, by
/// `IndexMap::get_index_mut`: there is one below the number of pairs. What
/// the entry holds when the borrow ends is what the map holds at the
/// position.
#[verifier::external_body]
fn entries_get_index_mut<'a>(m: &'a mut IndexMap<String, FileEntry>, index: usize) -> (r: Option<
    &'a mut FileEntry,
>)
    ensures
        match r {
            Some(e) => index < entries_of(*old(m)).len() && (*e)@ == entries_of(
                *old(m),
            )[index as int].1 && entries_of(*final(m)) == entries_of(*old(m)).update(
                index as int,
                (entries_of(*old(m))[index as int].0, (*final(e))@),
            ),
            None => index >= entries_of(*old(m)).len() && entries_of(*final(m)) == entries_of(
                *old(m),
            ),
        },
{
    m.get_index_mut(index).map(|(_, v)| v)
}

/// The position of a path, by `IndexMap::get_index_of`.
#[verifier::external_body]
fn entries_get_index_of(m: &IndexMap<String, FileEntry>, path: &str) -> (r: Option<usize>)
    ensures
        match r {
            Some(i) => key_index(entries_of(*m), path@) == Some(i as int),
            None => key_index(entries_of(*m), path@) is None,
        },
{
    m.get_index_of(path)
}

/// The rows that a flush writes for the slots that were changed: for each
/// of them that holds an entry, the row of the entry.
pub open spec fn changed_rows(entries: Seq<(Seq<char>, FileEntryView)>, modified: Seq<usize>)
    -> Seq<RowWriteView>
    decreases modified.len(),
{
    if modified.len() == 0 {
        Seq::<RowWriteView>::empty()
    } else {
        let rest = changed_rows(entries, modified.drop_last());
        let slot = modified.last();
        if slot < entries.len() {
            rest.push(RowWriteView { slot, row: record_of(entries[slot as int].1) })
        } else {
            rest
        }
    }
}

/// The rows that a flush writes for the slots that are no longer in use:
/// rows of zeros from slot `from` up to slot `high`.
pub open spec fn cleared_rows(from: int, high: int) -> Seq<RowWriteView> {
    if high < from {
        Seq::<RowWriteView>::empty()
    } else {
        Seq::new(
            (high + 1 - from) as nat,
            |i: int| RowWriteView { slot: (from + i) as usize, row: empty_record() },
        )
    }
}

/// The rows that a flush gives: those of the slots that were changed, then
/// those of the slots that are no longer in use.
pub open spec fn flush_rows(v: IndexView) -> Seq<RowWriteView> {
    changed_rows(v.entries, v.modified) + cleared_rows(v.entries.len() as int, v.max_index as int)
}

/// The index after a flush: no slot counts as changed, and the highest slot
/// in use is the one of the last entry.
pub open spec fn flushed(v: IndexView) -> IndexView {
    IndexView { modified: Seq::<usize>::empty(), max_index: last_slot(v.entries), ..v }
}

/// The rows of a list of writes as values.
pub open spec fn writes_of(writes: Seq<RowWrite>) -> Seq<RowWriteView> {
    writes.map_values(|w: RowWrite| w@)
}

/// The slot of the last entry.
pub open spec fn last_slot(entries: Seq<(Seq<char>, FileEntryView)>) -> usize {
    if entries.len() > 0 {
        (entries.len() - 1) as usize
    } else {
        0
    }
}

/// The entries after the member rows `rows[from..to]` of a page were
/// installed, each under its path.
pub open spec fn installed(
    entries: Seq<(Seq<char>, FileEntryView)>,
    rows: Seq<RecordView>,
    from: int,
    to: int,
) -> Seq<(Seq<char>, FileEntryView)>
    decreases to - from,
{
    if to <= from {
        entries
    } else {
        put(installed(entries, rows, from, to - 1), rows[to - 1].path, entry_of(rows[to - 1]))
    }
}

impl Index {
    /// Gets the entry at `index` for changing it: index 0 is the first
    /// entry behind the sentinel. The slot is marked as changed.
    pub fn get_index_mut(&mut self, index: usize) -> (r: Option<&mut FileEntry>)
        ensures
            match r {
                Some(e) => index + 1 < old(self)@.entries.len() && (*e)@ == old(
                    self,
                )@.entries[index + 1].1 && final(self)@ == (IndexView {
                    entries: old(self)@.entries.update(
                        index + 1,
                        (old(self)@.entries[index + 1].0, (*final(e))@),
                    ),
                    modified: marked(old(self)@.modified, (index + 1) as usize),
                    ..old(self)@
                }),
                None => index + 1 >= old(self)@.entries.len() && final(self)@ == old(self)@,
            },
    {
        let len: usize = entries_len(&self.entries);
        if index == usize::MAX || index + 1 >= len {
            return None;
        }
        mark(&mut self.modified, index + 1);
        entries_get_index_mut(&mut self.entries, index + 1)
    }

    /// Gets the entry of a path for changing it. The slot is marked as
    /// changed.
    pub fn get_mut(&mut self, path: &str) -> (r: Option<&mut FileEntry>)
        ensures
            match r {
                Some(e) => key_index(old(self)@.entries, path@) is Some && (*e)@ == old(
                    self,
                )@.entries[key_index(old(self)@.entries, path@)->Some_0].1 && final(self)@ == (
                IndexView {
                    entries: old(self)@.entries.update(
                        key_index(old(self)@.entries, path@)->Some_0,
                        (path@, (*final(e))@),
                    ),
                    modified: marked(
                        old(self)@.modified,
                        key_index(old(self)@.entries, path@)->Some_0 as usize,
                    ),
                    ..old(self)@
                }),
                None => key_index(old(self)@.entries, path@) is None && final(self)@ == old(self)@,
            },
    {
        match entries_get_index_of(&self.entries, path) {
            Some(slot) => {
                proof {
                    crate::ordered::lemma_key_position(self@.entries, path@, 0);
                }
                mark(&mut self.modified, slot);
                entries_get_index_mut(&mut self.entries, slot)
            },
            None => None,
        }
    }

    /// Gives the rows that are to be written to the table: for every slot
    /// that was changed and holds an entry, the row of the entry; and a row
    /// of zeros for every slot that was in use and is no longer. Afterwards
    /// no slot counts as changed.
    pub fn flush(&mut self) -> (writes: Vec<RowWrite>)
        ensures
            writes_of(writes@) == flush_rows(old(self)@),
            final(self)@ == flushed(old(self)@),
            old(self).wf() ==> final(self).wf(),
    {
        let ghost entries = self@.entries;
        let ghost modified = self@.modified;
        let length: usize = entries_len(&self.entries);
        let mut writes: Vec<RowWrite> = Vec::new();
        let mut i: usize = 0;
        while i < self.modified.len()
            invariant
                i <= self.modified@.len(),
                self@ == old(self)@,
                entries == entries_of(self.entries),
                modified == self.modified@,
                length == entries.len(),
                writes@.map_values(|w: RowWrite| w@) == changed_rows(
                    entries,
                    modified.take(i as int),
                ),
            decreases self.modified@.len() - i,
        {
            let slot: usize = self.modified[i];
            let ghost before = writes@.map_values(|w: RowWrite| w@);
            proof {
                assert(modified.take(i + 1).drop_last() =~= modified.take(i as int));
                assert(modified.take(i + 1).last() == slot);
            }
            if slot < length {
                match entries_get_index(&self.entries, slot) {
                    Some((_, entry)) => {
                        writes.push(RowWrite { slot, row: entry.as_record() });
                        assert(writes@.map_values(|w: RowWrite| w@) =~= before.push(
                            RowWriteView { slot, row: record_of(entries[slot as int].1) },
                        ));
                    },
                    None => {},
                }
            }
            i += 1;
        }
        assert(modified.take(modified.len() as int) =~= modified);
        let ghost changed = writes@.map_values(|w: RowWrite| w@);
        let high: usize = self.max_index;
        if high >= length {
            let mut slot: usize = length;
            while slot < high
                invariant
                    length <= slot <= high,
                    changed == changed_rows(entries, modified),
                    writes@.map_values(|w: RowWrite| w@) == changed + cleared_rows(
                        length as int,
                        slot - 1,
                    ),
                decreases high - slot,
            {
                let ghost before = writes@.map_values(|w: RowWrite| w@);
                writes.push(RowWrite { slot, row: Record::empty() });
                proof {
                    assert(writes@.map_values(|w: RowWrite| w@) =~= before.push(
                        RowWriteView { slot, row: empty_record() },
                    ));
                    assert(cleared_rows(length as int, slot as int) =~= cleared_rows(
                        length as int,
                        slot - 1,
                    ).push(RowWriteView { slot, row: empty_record() }));
                }
                slot += 1;
            }
            let ghost before = writes@.map_values(|w: RowWrite| w@);
            writes.push(RowWrite { slot: high, row: Record::empty() });
            proof {
                assert(writes@.map_values(|w: RowWrite| w@) =~= before.push(
                    RowWriteView { slot: high, row: empty_record() },
                ));
                assert(cleared_rows(length as int, high as int) =~= cleared_rows(
                    length as int,
                    high - 1,
                ).push(RowWriteView { slot: high, row: empty_record() }));
            }
        } else {
            assert(changed + Seq::<RowWriteView>::empty() =~= changed);
        }
        self.modified = Vec::new();
        self.max_index = if length > 0 { length - 1 } else { 0 };
        writes
    }

    /// Takes a page of the chain into the index: the page with its offsets,
    /// and the entries of its member rows, which end before the first row
    /// whose offset is 0. Returns the offset of the next page, which row 0
    /// holds, or 0 at the end of the chain. A table that does not hold 51
    /// rows is refused.
    pub fn load_page(&mut self, offset: u64, table_offset: u64, rows: Vec<Record>) -> (r: Result<
        u64,
        IndexError,
    >)
        ensures
            match r {
                Ok(next) => rows@.len() == 51 && next == rows@[0].offset && final(self)@ == (
                IndexView {
                    pages: old(self)@.pages.push(
                        PageView { offset, table_offset, rows: rows_of(rows@) },
                    ),
                    entries: installed(
                        old(self)@.entries,
                        rows_of(rows@),
                        1,
                        live_rows(rows_of(rows@), 1),
                    ),
                    max_index: max_slot(
                        old(self)@.max_index,
                        last_slot(
                            installed(
                                old(self)@.entries,
                                rows_of(rows@),
                                1,
                                live_rows(rows_of(rows@), 1),
                            ),
                        ),
                    ),
                    ..old(self)@
                }),
                Err(e) => rows@.len() != 51 && e == IndexError::CorruptPage && final(self)@ == old(
                    self,
                )@,
            },
            links_fit(old(self)@.entries) ==> links_fit(final(self)@.entries),
    {
        let mut page = match Page::load(rows) {
            Ok(page) => page,
            Err(e) => {
                return Err(e);
            },
        };
        page.offset = offset;
        page.table_offset = table_offset;
        let next: u64 = page.rows[0].offset;
        let used: usize = page.used_rows();
        let ghost all = rows_of(page.rows@);
        let mut i: usize = 1;
        while i < used
            invariant
                1 <= i <= used <= page.rows@.len(),
                all == rows_of(page.rows@),
                page.rows@ == rows@,
                page.offset == offset,
                page.table_offset == table_offset,
                self@ == (IndexView {
                    entries: installed(old(self)@.entries, all, 1, i as int),
                    ..old(self)@
                }),
                links_fit(old(self)@.entries) ==> links_fit(self@.entries),
            decreases used - i,
        {
            let entry = FileEntry::from_record(&page.rows[i]);
            let path = page.rows[i].path.clone();
            let ghost held = self@.entries;
            proof {
                crate::ordered::lemma_key_position(held, path@, 0);
            }
            entries_insert(&mut self.entries, path, entry);
            proof {
                let now = self@.entries;
                if links_fit(held) {
                    assert forall|k: int| 0 <= k < now.len() implies (#[trigger] now[k]).1.next_part
                        <= LINK_MAX && now[k].1.prev_part <= LINK_MAX by {
                        if now[k].1 != entry@ {
                            assert(now[k] == held[k]);
                        }
                    }
                }
            }
            i += 1;
        }
        let length: usize = entries_len(&self.entries);
        let high: usize = if length > 0 { length - 1 } else { 0 };
        if high > self.max_index {
            self.max_index = high;
        }
        let ghost before = self.pages@;
        self.pages.push(page);
        assert(pages_of(self.pages@) =~= pages_of(before).push(
            PageView { offset, table_offset, rows: rows_of(rows@) },
        ));
        Ok(next)
    }

    /// The number of slots in use, the one of the sentinel included.
    pub fn slot_count(&self) -> (n: usize)
        ensures
            n == self@.entries.len(),
    {
        entries_len(&self.entries)
    }

    /// The number of pages of the chain.
    pub fn page_count(&self) -> (n: usize)
        ensures
            n == self@.pages.len(),
    {
        self.pages.len()
    }

    /// The slot of a path, if the path is present.
    pub fn position(&self, path: &str) -> (r: Option<usize>)
        ensures
            match r {
                Some(slot) => key_index(self@.entries, path@) == Some(slot as int),
                None => key_index(self@.entries, path@) is None,
            },
    {
        entries_get_index_of(&self.entries, path)
    }

    /// Tells whether every page is full: the entries take all the member
    /// slots of the pages, 50 in each.
    pub fn is_full(&self) -> (full: bool)
        ensures
            full == (self@.entries.len() - 1 >= 50 * self@.pages.len()),
    {
        let length: usize = entries_len(&self.entries);
        let pages: usize = self.pages.len();
        if length == 0 {
            return false;
        }
        (length - 1) / 50 >= pages
    }
}


/// What adding a page asks to be written: the header of the page, where the
/// page and its table stand, and the new chain link of the page before it.
pub struct NewPage {
    /// The blocks of the page's header.
    pub header: Vec<u8>,
    /// Offset of the page's header in the archive.
    pub offset: u64,
    /// Offset of the page's table in the archive.
    pub table_offset: u64,
    /// The page before the new one in the chain, and what its row 0 is to
    /// hold, if there is a page before it.
    pub link: Option<(usize, Record)>,
}

/// The fields of the header of the regular file that a page is.
pub open spec fn page_file_fields(path: Seq<char>) -> crate::header::ustar::UstarFields {
    crate::header::ustar::UstarFields {
        core: crate::header::fields::CoreFields {
            name: path,
            mode: 0,
            uid: 0,
            gid: 0,
            size: PAGE_SIZE,
            mtime: 0,
            chksum: 0,
            flag: 0x30,
            linkname: Seq::<char>::empty(),
        },
        ext: crate::header::fields::ExtFields {
            magic: "ustar\0"@,
            version: "00"@,
            uname: Seq::<char>::empty(),
            gname: Seq::<char>::empty(),
            devmajor: 0,
            devminor: 0,
        },
        prefix: Seq::<char>::empty(),
    }
}

/// The fields of the extended header that stands before the header of a
/// page's file.
pub open spec fn page_pax_fields() -> UstarFields {
    UstarFields {
        core: crate::header::fields::CoreFields {
            name: Seq::<char>::empty(),
            mode: 0,
            uid: 0,
            gid: 0,
            size: 0,
            mtime: 0,
            chksum: 0,
            flag: pax_flag_byte(PaxTypeFlag::Extended),
            linkname: Seq::<char>::empty(),
        },
        ext: crate::header::fields::ExtFields {
            magic: "ustar\0"@,
            version: "00"@,
            uname: Seq::<char>::empty(),
            gname: Seq::<char>::empty(),
            devmajor: 0,
            devminor: 0,
        },
        prefix: Seq::<char>::empty(),
    }
}

/// The attributes of the extended header of a page: its path and its size.
pub open spec fn page_attrs(path: Seq<char>) -> Seq<(Seq<char>, AttributeView)> {
    put(
        put(
            Seq::<(Seq<char>, AttributeView)>::empty(),
            "path"@,
            AttributeView { value: AttrValue::Default, raw: path },
        ),
        "size"@,
        number_attr(PAGE_SIZE),
    )
}

/// The header of a page: an extended PAX header with the path and the size
/// of the page, and the USTAR header of a regular file of the page size.
#[verifier::opaque]
pub open spec fn page_header(path: Seq<char>) -> Seq<u8> {
    pax_encoding(page_pax_fields(), page_attrs(path)) + ustar_block(page_file_fields(path))
}

/// True when a page with this path can be added at the offset: the records
/// of its attributes fit the machine's integers, and the table of the page
/// begins within 64 bits.
pub open spec fn page_fits(offset: u64, path: Seq<char>) -> bool {
    attrs_fit(page_attrs(path)) && offset + page_header(path).len() <= u64::MAX
}

/// The row that points to a page: its offset and its path.
pub open spec fn link_record(offset: u64, path: Seq<char>) -> RecordView {
    RecordView { offset, path, parted: false, size: 0, next_part: 0, prev_part: 0 }
}

/// The pages with row 0 of the last one set to `row`, where there is a page
/// and it has a row.
pub open spec fn relinked_pages(pages: Seq<PageView>, row: RecordView) -> Seq<PageView> {
    if pages.len() > 0 && pages.last().rows.len() > 0 {
        pages.update(
            pages.len() - 1,
            PageView { rows: pages.last().rows.update(0, row), ..pages.last() },
        )
    } else {
        pages
    }
}

impl Index {
    /// Adds a page to the chain, whose header is to stand at `offset`. The
    /// header is an extended PAX header that names the path and the size of
    /// the page, followed by the header of a regular file of the page size;
    /// the table of the page stands behind it. Row 0 of the page before it
    /// is set to point to the new page. An offset behind which the page has
    /// no room in 64 bits is refused.
    pub fn add_page(&mut self, offset: u64, path: &str) -> (r: Result<NewPage, IndexError>)
        ensures
            r is Ok <==> page_fits(offset, path@),
            match r {
                Ok(page) => page.offset == offset && page.header@ == page_header(path@)
                    && page.header@.len() > 0 && page.table_offset == offset + page.header@.len()
                    && page.header@.len() % 512 == 0 && final(self)@ == (IndexView {
                    pages: relinked_pages(old(self)@.pages, link_record(offset, path@)).push(
                        PageView {
                            offset,
                            table_offset: page.table_offset,
                            rows: Seq::new(51, |i: int| empty_record()),
                        },
                    ),
                    ..old(self)@
                }) && (match page.link {
                    Some((at, row)) => old(self)@.pages.len() > 0 && at == old(self)@.pages.len()
                        - 1 && row@ == link_record(offset, path@),
                    None => old(self)@.pages.len() == 0,
                }),
                Err(e) => e == IndexError::OutOfBounds && final(self)@ == old(self)@,
            },
    {
        reveal(page_header);
        let mut pax = PaxHeader::new(PaxTypeFlag::Extended);
        pax.set_attr_path(path);
        pax.set_attr_size(PAGE_SIZE);
        if !pax.attrs_fit_check() {
            return Err(IndexError::OutOfBounds);
        }
        let mut header: Vec<u8> = Vec::new();
        pax.save(&mut header);
        let mut file = UstarHeader::for_file(path.to_owned(), PAGE_SIZE);
        file.save(&mut header);
        proof {
            lemma_pax_encoding_len(page_pax_fields(), page_attrs(path@));
            lemma_ustar_raw_len(page_file_fields(path@));
            assert(header@ =~= page_header(path@));
        }
        let size: usize = header.len();
        if size as u64 > u64::MAX - offset {
            return Err(IndexError::OutOfBounds);
        }
        let table_offset: u64 = offset + size as u64;
        let mut page = Page::new();
        page.offset = offset;
        page.table_offset = table_offset;
        let ghost before = self.pages@;
        let count: usize = self.pages.len();
        let mut link: Option<(usize, Record)> = None;
        if count > 0 {
            let row = Record {
                offset,
                path: path.to_owned(),
                parted: false,
                size: 0,
                next_part: 0,
                prev_part: 0,
            };
            link = Some((count - 1, row.duplicate()));
            match self.pages.pop() {
                Some(last) => {
                    let mut last = last;
                    let ghost old_last = last;
                    if last.rows.len() > 0 {
                        last.rows[0] = row;
                        assert(rows_of(last.rows@) =~= rows_of(old_last.rows@).update(
                            0,
                            link_record(offset, path@),
                        ));
                    }
                    self.pages.push(last);
                    assert(old_last == before.last());
                    assert(self.pages@ =~= before.drop_last().push(last));
                    assert(pages_of(before).last() == old_last@);
                },
                None => {},
            }
            assert(pages_of(self.pages@) =~= relinked_pages(
                pages_of(before),
                link_record(offset, path@),
            ));
        }
        let ghost relinked = self.pages@;
        assert(rows_of(page.rows@) =~= Seq::new(51, |i: int| empty_record()));
        self.pages.push(page);
        assert(pages_of(self.pages@) =~= pages_of(relinked).push(
            PageView { offset, table_offset, rows: Seq::new(51, |i: int| empty_record()) },
        ));
        Ok(NewPage { header, offset, table_offset, link })
    }

    /// Appends the next part of a member: a new entry, which the entry at
    /// `index` names as the part behind it, and which names that entry as
    /// the part before it. Both are marked as parted and as changed.
    /// Returns the index of the new entry. The entry at `index` must exist
    /// and have no part behind it, the path of the part must be new, and
    /// the slot of the new entry must be one that a row can name: none
    /// behind `LINK_MAX`.
    pub fn link_part(&mut self, index: usize, part: FileMeta) -> (r: Result<usize, IndexError>)
        ensures
            r is Ok <==> can_link(old(self)@.entries, index + 1, part@.path),
            match r {
                Ok(at) => at + 1 == old(self)@.entries.len() && final(self)@ == (IndexView {
                    entries: linked(old(self)@.entries, index + 1, part@),
                    modified: marked(
                        marked(old(self)@.modified, (index + 1) as usize),
                        old(self)@.entries.len() as usize,
                    ),
                    max_index: max_slot(old(self)@.max_index, old(self)@.entries.len() as usize),
                    ..old(self)@
                }),
                Err(e) => final(self)@ == old(self)@ && (if key_index(
                    old(self)@.entries,
                    part@.path,
                ) is Some {
                    e == IndexError::Duplicate
                } else {
                    e == IndexError::OutOfBounds
                }),
            },
            old(self).wf() && r is Ok ==> final(self).wf(),
            r is Ok && links_fit(old(self)@.entries) ==> links_fit(final(self)@.entries),
            r is Ok && parted_ok(old(self)@.entries) ==> parted_ok(final(self)@.entries),
    {
        let length: usize = entries_len(&self.entries);
        if entries_get(&self.entries, part.path.as_str()).is_some() {
            return Err(IndexError::Duplicate);
        }
        if index == usize::MAX || index + 1 >= length || length > LINK_MAX {
            return Err(IndexError::OutOfBounds);
        }
        let slot: usize = index + 1;
        let (next, _) = links_at(&self.entries, slot);
        if next != 0 {
            return Err(IndexError::OutOfBounds);
        }
        proof {
            if self.wf() {
                lemma_link_keeps_links(self@.entries, slot as int, part@);
            }
        }
        let ghost start = self@.entries;
        let first = match entries_get_index(&self.entries, slot) {
            Some((_, e)) => {
                let mut copy = e.duplicate();
                copy.next_part = length;
                copy.meta.parted = true;
                copy
            },
            None => FileEntry::default(),
        };
        entries_set(&mut self.entries, slot, first);
        mark(&mut self.modified, slot);
        let path = part.path.clone();
        let mut meta = part;
        meta.parted = true;
        proof {
            crate::ordered::lemma_key_position(start, path@, 0);
            crate::ordered::lemma_key_position(entries_of(self.entries), path@, 0);
            assert(key_index(entries_of(self.entries), path@) is None) by {
                let now = entries_of(self.entries);
                assert forall|i: int| 0 <= i < now.len() implies now[i].0 != path@ by {
                    assert(now[i].0 == start[i].0);
                }
            }
        }
        entries_insert(
            &mut self.entries,
            path,
            FileEntry { meta, next_part: 0, prev_part: slot },
        );
        mark(&mut self.modified, length);
        if length > self.max_index {
            self.max_index = length;
        }
        Ok(length - 1)
    }
}

/// True when a part with the given path can be linked behind the entry at
/// `slot`: the slot holds an entry behind the sentinel that has no part
/// behind it, the path is new, and the slot that the part will stand at is
/// not behind `LINK_MAX`.
pub open spec fn can_link(entries: Seq<(Seq<char>, FileEntryView)>, slot: int, path: Seq<char>) -> bool {
    &&& 1 <= slot < entries.len()
    &&& entries[slot].1.next_part == 0
    &&& key_index(entries, path) is None
    &&& entries.len() <= LINK_MAX
}

/// The entries after a part was linked behind the entry at `slot`: that
/// entry names the new slot as the part behind it, the new entry names
/// `slot` as the part before it, and both are parted.
pub open spec fn linked(
    entries: Seq<(Seq<char>, FileEntryView)>,
    slot: int,
    part: file::FileMetaView,
) -> Seq<(Seq<char>, FileEntryView)> {
    entries.update(
        slot,
        (
            entries[slot].0,
            FileEntryView {
                meta: file::FileMetaView { parted: true, ..entries[slot].1.meta },
                next_part: entries.len() as usize,
                ..entries[slot].1
            },
        ),
    ).push(
        (
            part.path,
            FileEntryView {
                meta: file::FileMetaView { parted: true, ..part },
                next_part: 0,
                prev_part: slot as usize,
            },
        ),
    )
}

/// Invariant of the links under linking a part: where the links of every
/// entry are answered and the entry at `slot` has no part behind it, they
/// still are after a part was linked behind it.
pub proof fn lemma_link_keeps_links(
    entries: Seq<(Seq<char>, FileEntryView)>,
    slot: int,
    part: file::FileMetaView,
)
    requires
        links_ok(entries),
        1 <= slot < entries.len(),
        entries.len() <= usize::MAX,
        entries[slot].1.next_part == 0,
    ensures
        links_ok(linked(entries, slot, part)),
{
    let result = linked(entries, slot, part);
    assert(link_ok(entries, 0));
    assert forall|i: int| 0 <= i < result.len() implies link_ok(result, i) by {
        if i < entries.len() {
            assert(link_ok(entries, i));
            let e = entries[i].1;
            if e.next_part != 0 {
                assert(link_ok(entries, e.next_part as int));
            }
            if e.prev_part != 0 {
                assert(link_ok(entries, e.prev_part as int));
            }
        }
    }
}


/// Invariant of the links under a change of what an entry holds of its
/// member: the links of every entry stay answered.
pub proof fn lemma_meta_keeps_links(
    entries: Seq<(Seq<char>, FileEntryView)>,
    slot: int,
    meta: file::FileMetaView,
)
    requires
        links_ok(entries),
        0 <= slot < entries.len(),
    ensures
        links_ok(
            entries.update(slot, (entries[slot].0, FileEntryView { meta, ..entries[slot].1 })),
        ),
{
    let result = entries.update(slot, (entries[slot].0, FileEntryView { meta, ..entries[slot].1 }));
    assert forall|i: int| 0 <= i < result.len() implies link_ok(result, i) by {
        assert(link_ok(entries, i));
    }
}


/// The size that the attributes of an extended header give, if they hold a
/// size that is a number.
pub open spec fn attr_size(attrs: Seq<(Seq<char>, AttributeView)>) -> Option<u64> {
    match value_of(attrs, "size"@) {
        Some(a) => match a.value {
            AttrValue::U64(v) => Some(v),
            _ => None,
        },
        None => None,
    }
}

/// True when a header is the one of a page: a regular file of the page
/// size. A size that an extended header gave comes before the one of the
/// header itself.
pub open spec fn is_page_file(c: TarContent, size: Option<u64>) -> bool {
    &&& content_kind(c) == FileKind::RegularFile
    &&& (match size {
        Some(n) => n,
        None => content_size_of(c),
    }) == PAGE_SIZE
}

/// What reading the header of a page from the bytes `rem` gives: the number
/// of bytes that it takes. An extended PAX header may stand before the
/// header of the regular file that the page is.
pub open spec fn page_header_parse(rem: Seq<u8>) -> Result<nat, IndexError> {
    match tar_parse(rem) {
        Err(e) => Err(IndexError::Header(e)),
        Ok((TarContent::Pax(f, attrs), used)) => if pax_flag(f.core.flag) == PaxTypeFlag::Extended
            && used <= rem.len() {
            match tar_parse(rem.skip(used as int)) {
                Err(e) => Err(IndexError::Header(e)),
                Ok((file, more)) => if is_page_file(file, attr_size(attrs)) {
                    Ok(used + more)
                } else {
                    Err(IndexError::CorruptIndex)
                },
            }
        } else {
            Err(IndexError::CorruptIndex)
        },
        Ok((c, used)) => if is_page_file(c, None) {
            Ok(used)
        } else {
            Err(IndexError::CorruptIndex)
        },
    }
}

/// Tells whether a header is the one of a page.
fn check_page_file(header: &TarHeader, size: Option<u64>) -> (ok: bool)
    requires
        header.kind() == content_kind(content_of(header@)),
        header.content_size() == content_size_of(content_of(header@)),
    ensures
        ok == is_page_file(content_of(header@), size),
{
    if !header.is_regular_file() {
        return false;
    }
    let declared: u64 = match size {
        Some(n) => n,
        None => header.get_content_size(),
    };
    declared == PAGE_SIZE
}

impl Index {
    /// Reads the header of a page from the stream, and returns the offset
    /// of the page's table, which stands behind the header. A header that
    /// is not the one of a regular file of the page size is refused.
    pub fn read_page_header(stream: &mut Stream) -> (r: Result<u64, IndexError>)
        ensures
            final(stream).data == old(stream).data,
            match r {
                Ok(at) => at == final(stream).pos && final(stream).pos >= old(stream).pos
                    && page_header_parse(old(stream).remaining()) == Ok::<nat, IndexError>(
                    (final(stream).pos - old(stream).pos) as nat,
                ),
                Err(e) => page_header_parse(old(stream).remaining()) == Err::<nat, IndexError>(e),
            },
    {
        let ghost rem = stream.remaining();
        let avail: usize = stream.available();
        let start: usize = stream.pos;
        let first = match TarHeader::load(stream) {
            Ok(h) => h,
            Err(e) => {
                return Err(IndexError::Header(e));
            },
        };
        let ghost used = (stream.pos - old(stream).pos) as nat;
        match &first {
            TarHeader::Pax(pax) => {
                if !matches!(pax.type_flag(), PaxTypeFlag::Extended) || stream.pos - start > avail {
                    return Err(IndexError::CorruptIndex);
                }
                let size = pax.get_attr_size();
                assert(stream.remaining() =~= rem.skip(used as int));
                let file = match TarHeader::load(stream) {
                    Ok(h) => h,
                    Err(e) => {
                        return Err(IndexError::Header(e));
                    },
                };
                if !check_page_file(&file, size) {
                    return Err(IndexError::CorruptIndex);
                }
            },
            _ => {
                if !check_page_file(&first, None) {
                    return Err(IndexError::CorruptIndex);
                }
            },
        }
        Ok(stream.pos as u64)
    }
}

} // verus!
