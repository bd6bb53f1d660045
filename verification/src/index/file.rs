use vstd::prelude::*;

verus! {

/// What the index keeps of a member: where it stands and how large it is.
#[derive(Clone, PartialEq, Debug)]
pub struct FileMeta {
    /// Byte position in the archive.
    pub offset: u64,
    /// Path of the member.
    pub path: String,
    /// True when the member is one part of several.
    pub parted: bool,
    /// Number of bytes reserved for the member.
    pub size: u64,
}

/// A `FileMeta` as values.
pub ghost struct FileMetaView {
    pub offset: u64,
    pub path: Seq<char>,
    pub parted: bool,
    pub size: u64,
}

impl View for FileMeta {
    type V = FileMetaView;

    open spec fn view(&self) -> FileMetaView {
        FileMetaView { offset: self.offset, path: self.path@, parted: self.parted, size: self.size }
    }
}

impl FileMeta {
    /// Copies the values from another file meta into this one.
    pub fn copy_from(&mut self, meta: &FileMeta)
        ensures
            final(self)@ == meta@,
    {
        self.offset = meta.offset;
        self.path = meta.path.clone();
        self.parted = meta.parted;
        self.size = meta.size;
    }

    /// A copy of the file meta.
    pub fn duplicate(&self) -> (copy: FileMeta)
        ensures
            copy@ == self@,
    {
        FileMeta {
            offset: self.offset,
            path: self.path.clone(),
            parted: self.parted,
            size: self.size,
        }
    }
}

impl Default for FileMeta {
    fn default() -> (meta: Self)
        ensures
            meta@ == (FileMetaView {
                offset: 0,
                path: Seq::<char>::empty(),
                parted: false,
                size: 0,
            }),
    {
        FileMeta { offset: 0, path: String::new(), parted: false, size: 0 }
    }
}

/// An entry of the index: a member, and the slots of the parts before and
/// behind it, where 0 stands for none.
#[derive(Clone, PartialEq, Debug)]
pub struct FileEntry {
    pub meta: FileMeta,
    pub next_part: usize,
    pub prev_part: usize,
}

/// A `FileEntry` as values.
pub ghost struct FileEntryView {
    pub meta: FileMetaView,
    pub next_part: usize,
    pub prev_part: usize,
}

impl View for FileEntry {
    type V = FileEntryView;

    open spec fn view(&self) -> FileEntryView {
        FileEntryView { meta: self.meta@, next_part: self.next_part, prev_part: self.prev_part }
    }
}

/// A row of a page's table: the fields of the table's schema as values.
#[derive(Clone, PartialEq, Debug)]
pub struct Record {
    pub offset: u64,
    pub path: String,
    pub parted: bool,
    pub size: u64,
    pub next_part: u8,
    pub prev_part: u8,
}

/// A `Record` as values.
pub ghost struct RecordView {
    pub offset: u64,
    pub path: Seq<char>,
    pub parted: bool,
    pub size: u64,
    pub next_part: u8,
    pub prev_part: u8,
}

impl View for Record {
    type V = RecordView;

    open spec fn view(&self) -> RecordView {
        RecordView {
            offset: self.offset,
            path: self.path@,
            parted: self.parted,
            size: self.size,
            next_part: self.next_part,
            prev_part: self.prev_part,
        }
    }
}

/// The row of zeros: what an unused row of a table holds.
pub open spec fn empty_record() -> RecordView {
    RecordView {
        offset: 0,
        path: Seq::<char>::empty(),
        parted: false,
        size: 0,
        next_part: 0,
        prev_part: 0,
    }
}

impl Record {
    /// The row of zeros.
    pub fn empty() -> (row: Record)
        ensures
            row@ == empty_record(),
    {
        Record {
            offset: 0,
            path: String::new(),
            parted: false,
            size: 0,
            next_part: 0,
            prev_part: 0,
        }
    }

    /// A copy of the row.
    pub fn duplicate(&self) -> (copy: Record)
        ensures
            copy@ == self@,
    {
        Record {
            offset: self.offset,
            path: self.path.clone(),
            parted: self.parted,
            size: self.size,
            next_part: self.next_part,
            prev_part: self.prev_part,
        }
    }
}

/// The row that an entry is written as. A row holds the slots of the parts
/// in one byte each: a slot up to 255 is written as it is, which is all
/// that the index lets an entry name; of a larger one, set by hand, only
/// the low 8 bits are kept.
pub open spec fn record_of(entry: FileEntryView) -> RecordView {
    RecordView {
        offset: entry.meta.offset,
        path: entry.meta.path,
        parted: entry.meta.parted,
        size: entry.meta.size,
        next_part: (entry.next_part % 256) as u8,
        prev_part: (entry.prev_part % 256) as u8,
    }
}

/// The entry that a row is read as.
pub open spec fn entry_of(row: RecordView) -> FileEntryView {
    FileEntryView {
        meta: FileMetaView {
            offset: row.offset,
            path: row.path,
            parted: row.parted,
            size: row.size,
        },
        next_part: row.next_part as usize,
        prev_part: row.prev_part as usize,
    }
}

impl FileEntry {
    /// Copies the values from another file entry into this one.
    pub fn copy_from(&mut self, entry: &FileEntry)
        ensures
            final(self)@ == entry@,
    {
        self.meta.copy_from(&entry.meta);
        self.next_part = entry.next_part;
        self.prev_part = entry.prev_part;
    }

    /// A copy of the entry.
    pub fn duplicate(&self) -> (copy: FileEntry)
        ensures
            copy@ == self@,
    {
        FileEntry {
            meta: self.meta.duplicate(),
            next_part: self.next_part,
            prev_part: self.prev_part,
        }
    }

    /// The row that the entry is written as.
    pub fn as_record(&self) -> (row: Record)
        ensures
            row@ == record_of(self@),
    {
        Record {
            offset: self.meta.offset,
            path: self.meta.path.clone(),
            parted: self.meta.parted,
            size: self.meta.size,
            next_part: (self.next_part % 256) as u8,
            prev_part: (self.prev_part % 256) as u8,
        }
    }

    /// The entry that a row is read as.
    pub fn from_record(record: &Record) -> (entry: Self)
        ensures
            entry@ == entry_of(record@),
    {
        FileEntry {
            meta: FileMeta {
                offset: record.offset,
                path: record.path.clone(),
                parted: record.parted,
                size: record.size,
            },
            next_part: record.next_part as usize,
            prev_part: record.prev_part as usize,
        }
    }
}

impl Default for FileEntry {
    fn default() -> (entry: Self)
        ensures
            entry@ == entry_of(empty_record()),
    {
        FileEntry { meta: FileMeta::default(), next_part: 0, prev_part: 0 }
    }
}

/// An entry whose slots of parts fit in one byte each is read back from the
/// row written for it.
pub proof fn lemma_record_round_trip(entry: FileEntryView)
    requires
        entry.next_part < 256,
        entry.prev_part < 256,
    ensures
        entry_of(record_of(entry)) == entry,
{
}

} // verus!
