use vstd::prelude::*;
use vstd::std_specs::convert::FromSpecImpl;
use vstd::utf8::encode_utf8;
use crate::error::HeaderError;
use crate::stream::{block_padding, padded_len, Stream};
use super::fields::{
    core_bytes, core_parse, ext_bytes, ext_parse, load_core, load_ext, max32, max64, push_core,
    push_ext, push_octal, push_text, CoreFields, ExtFields,
};
use super::helper::{
    append_bytes, append_zeros, checksum, checksum_of, get_padded_text, is_all_zero, octal_field,
    octal_parse_in, padded_text_parse, parse_octal, seal, sealed, text_field, zeros,
};
use super::traits::{FileKind, IsTypeTrait, UsedBlocksTrait};
use super::ustar::{ustar_flag, ustar_flag_byte, UstarTypeFlag};

verus! {

/// GNU header type flag.
#[derive(Debug, Clone, Copy, PartialEq, Eq, Structural)]
pub enum GnuTypeFlag {
    LongName,
    LongLinkName,
    DirectoryDump,
    MultiVolume,
    NextFile,
    Sparse,
    Ustar(UstarTypeFlag),
}

/// The GNU type flag that a byte stands for.
pub open spec fn gnu_flag(value: u8) -> GnuTypeFlag {
    if value == 0x4c {
        GnuTypeFlag::LongName
    } else if value == 0x4b {
        GnuTypeFlag::LongLinkName
    } else if value == 0x44 {
        GnuTypeFlag::DirectoryDump
    } else if value == 0x4d {
        GnuTypeFlag::MultiVolume
    } else if value == 0x4e {
        GnuTypeFlag::NextFile
    } else if value == 0x53 {
        GnuTypeFlag::Sparse
    } else {
        GnuTypeFlag::Ustar(ustar_flag(value))
    }
}

/// The byte that stands for a GNU type flag.
pub open spec fn gnu_flag_byte(flag: GnuTypeFlag) -> u8 {
    match flag {
        GnuTypeFlag::LongName => 0x4c,
        GnuTypeFlag::LongLinkName => 0x4b,
        GnuTypeFlag::DirectoryDump => 0x44,
        GnuTypeFlag::MultiVolume => 0x4d,
        GnuTypeFlag::NextFile => 0x4e,
        GnuTypeFlag::Sparse => 0x53,
        GnuTypeFlag::Ustar(v) => ustar_flag_byte(v),
    }
}

impl From<u8> for GnuTypeFlag {
    fn from(value: u8) -> (flag: Self) {
        match value {
            0x4cu8 => GnuTypeFlag::LongName,
            0x4bu8 => GnuTypeFlag::LongLinkName,
            0x44u8 => GnuTypeFlag::DirectoryDump,
            0x4du8 => GnuTypeFlag::MultiVolume,
            0x4eu8 => GnuTypeFlag::NextFile,
            0x53u8 => GnuTypeFlag::Sparse,
            v => GnuTypeFlag::Ustar(UstarTypeFlag::from(v)),
        }
    }
}

impl FromSpecImpl<u8> for GnuTypeFlag {
    open spec fn obeys_from_spec() -> bool {
        true
    }

    open spec fn from_spec(value: u8) -> Self {
        gnu_flag(value)
    }
}

impl From<GnuTypeFlag> for u8 {
    fn from(value: GnuTypeFlag) -> (byte: Self) {
        match value {
            GnuTypeFlag::LongName => 0x4cu8,
            GnuTypeFlag::LongLinkName => 0x4bu8,
            GnuTypeFlag::DirectoryDump => 0x44u8,
            GnuTypeFlag::MultiVolume => 0x4du8,
            GnuTypeFlag::NextFile => 0x4eu8,
            GnuTypeFlag::Sparse => 0x53u8,
            GnuTypeFlag::Ustar(v) => u8::from(v),
        }
    }
}

impl FromSpecImpl<GnuTypeFlag> for u8 {
    open spec fn obeys_from_spec() -> bool {
        true
    }

    open spec fn from_spec(value: GnuTypeFlag) -> Self {
        gnu_flag_byte(value)
    }
}

impl IsTypeTrait for GnuTypeFlag {
    open spec fn kind(&self) -> FileKind {
        match *self {
            GnuTypeFlag::Ustar(v) => v.kind(),
            _ => FileKind::Other,
        }
    }

    fn is_regular_file(&self) -> (b: bool) {
        match self {
            GnuTypeFlag::Ustar(v) => v.is_regular_file(),
            _ => false,
        }
    }

    fn is_hard_link(&self) -> (b: bool) {
        match self {
            GnuTypeFlag::Ustar(v) => v.is_hard_link(),
            _ => false,
        }
    }

    fn is_symbolic_link(&self) -> (b: bool) {
        match self {
            GnuTypeFlag::Ustar(v) => v.is_symbolic_link(),
            _ => false,
        }
    }

    fn is_character_special(&self) -> (b: bool) {
        match self {
            GnuTypeFlag::Ustar(v) => v.is_character_special(),
            _ => false,
        }
    }

    fn is_block_special(&self) -> (b: bool) {
        match self {
            GnuTypeFlag::Ustar(v) => v.is_block_special(),
            _ => false,
        }
    }

    fn is_directory(&self) -> (b: bool) {
        match self {
            GnuTypeFlag::Ustar(v) => v.is_directory(),
            _ => false,
        }
    }

    fn is_fifo(&self) -> (b: bool) {
        match self {
            GnuTypeFlag::Ustar(v) => v.is_fifo(),
            _ => false,
        }
    }

    fn is_contiguous_file(&self) -> (b: bool) {
        match self {
            GnuTypeFlag::Ustar(v) => v.is_contiguous_file(),
            _ => false,
        }
    }
}

/// Represents a GNU sparse entry.
#[derive(Debug, Clone, Copy, PartialEq, Eq, Structural)]
pub struct SparseEntry {
    /// Offset in the file (as bytes from start).
    pub offset: u64,
    /// Number of bytes in the sparse segment.
    pub numbytes: u64,
}

/// Represents a GNU TAR header, including GNU extensions.
#[derive(Debug, Clone, PartialEq)]
pub struct GnuHeader {
    /// File name.
    name: String,
    /// File mode.
    pub mode: u32,
    /// Owner user ID.
    pub uid: u32,
    /// Owner group ID.
    pub gid: u32,
    /// File size in bytes.
    pub size: u64,
    /// Modification time.
    pub mtime: u64,
    /// Header checksum.
    chksum: u32,
    /// Type flag.
    pub typeflag: GnuTypeFlag,
    /// Name of linked file.
    linkname: String,
    /// GNU magic.
    pub magic: String,
    /// GNU version.
    pub version: String,
    /// Owner user name.
    pub uname: String,
    /// Owner group name.
    pub gname: String,
    /// Device major number.
    pub devmajor: u32,
    /// Device minor number.
    pub devminor: u32,
    /// Sparse entries: the first four stand in the header block, the others
    /// in extension blocks.
    sparse: Vec<SparseEntry>,
    /// True if there are extended sparse headers.
    pub isextended: bool,
    /// Actual file size (for sparse files).
    pub realsize: Option<u64>,
    /// Access time (seconds since epoch).
    pub atime: Option<u64>,
    /// Change time (seconds since epoch).
    pub ctime: Option<u64>,
    /// Optional incremental dump fields (not always used).
    pub incremental: Option<String>,
    /// Additional GNU fields not parsed.
    pub gnu_extra: [u8; 12],
    /// The used blocks so far not saved yet.
    used_blocks: usize,
    /// The used blocks saved.
    saved_blocks: usize,
    /// True when `used_blocks` was calculated since the last change.
    updated_used_blocks: bool,
}

/// The fields of a GNU header that its blocks carry, as values.
pub ghost struct GnuFields {
    pub name: Seq<char>,
    pub mode: u32,
    pub uid: u32,
    pub gid: u32,
    pub size: u64,
    pub mtime: u64,
    pub chksum: u32,
    pub typeflag: GnuTypeFlag,
    pub linkname: Seq<char>,
    pub ext: ExtFields,
    pub sparse: Seq<SparseEntry>,
    pub isextended: bool,
    pub realsize: Option<u64>,
    pub atime: Option<u64>,
    pub ctime: Option<u64>,
    pub incremental: Option<Seq<char>>,
    pub gnu_extra: Seq<u8>,
}

/// A GNU header as values.
pub ghost struct GnuView {
    /// The fields that the blocks carry.
    pub fields: GnuFields,
    /// The number of blocks that the header remembers to take.
    pub used_blocks: nat,
    /// The number of blocks that the header took when it was last read or
    /// written.
    pub saved_blocks: nat,
    /// True when `used_blocks` was calculated since the last change.
    pub updated_used_blocks: bool,
}

/// The characters of an optional text.
pub open spec fn opt_chars(text: Option<String>) -> Option<Seq<char>> {
    match text {
        Some(s) => Some(s@),
        None => None,
    }
}

impl View for GnuHeader {
    type V = GnuView;

    closed spec fn view(&self) -> GnuView {
        GnuView {
            fields: GnuFields {
                name: self.name@,
                mode: self.mode,
                uid: self.uid,
                gid: self.gid,
                size: self.size,
                mtime: self.mtime,
                chksum: self.chksum,
                typeflag: self.typeflag,
                linkname: self.linkname@,
                ext: ExtFields {
                    magic: self.magic@,
                    version: self.version@,
                    uname: self.uname@,
                    gname: self.gname@,
                    devmajor: self.devmajor,
                    devminor: self.devminor,
                },
                sparse: self.sparse@,
                isextended: self.isextended,
                realsize: self.realsize,
                atime: self.atime,
                ctime: self.ctime,
                incremental: opt_chars(self.incremental),
                gnu_extra: self.gnu_extra@,
            },
            used_blocks: self.used_blocks as nat,
            saved_blocks: self.saved_blocks as nat,
            updated_used_blocks: self.updated_used_blocks,
        }
    }
}

/// The number of blocks that a name of `len` bytes adds to a header: none up
/// to 100 bytes, else one and one more for every 512 bytes above 100, begun
/// ones included.
pub open spec fn long_text_blocks(len: nat) -> nat {
    if len > 100 {
        (1 + (len - 100 + 511) / 512) as nat
    } else {
        0
    }
}

/// The number of extension blocks that `count` sparse entries need: one for
/// every 21 entries above 4, begun ones included.
pub open spec fn sparse_blocks(count: nat) -> nat {
    if count > 4 {
        ((count - 4 + 20) / 21) as nat
    } else {
        0
    }
}

/// The number of blocks that a GNU header takes.
pub open spec fn gnu_blocks(f: GnuFields) -> nat {
    1 + long_text_blocks(encode_utf8(f.name).len()) + long_text_blocks(
        encode_utf8(f.linkname).len(),
    ) + sparse_blocks(f.sparse.len())
}

impl GnuHeader {
    /// Returns the name of the file.
    pub fn get_name(&self) -> (name: &str)
        ensures
            name@ == self@.fields.name,
    {
        self.name.as_str()
    }

    /// Sets the name of the file.
    pub fn set_name(&mut self, name: String)
        ensures
            final(self)@ == (GnuView {
                fields: GnuFields { name: name@, ..old(self)@.fields },
                updated_used_blocks: false,
                ..old(self)@
            }),
    {
        self.updated_used_blocks = false;
        self.name = name;
    }

    /// Returns the link name of the file.
    pub fn get_linkname(&self) -> (linkname: &str)
        ensures
            linkname@ == self@.fields.linkname,
    {
        self.linkname.as_str()
    }

    /// Sets the link name of the file.
    pub fn set_linkname(&mut self, linkname: String)
        ensures
            final(self)@ == (GnuView {
                fields: GnuFields { linkname: linkname@, ..old(self)@.fields },
                updated_used_blocks: false,
                ..old(self)@
            }),
    {
        self.updated_used_blocks = false;
        self.linkname = linkname;
    }

    /// Pushes a sparse entry to the header.
    pub fn push_sparse(&mut self, entry: SparseEntry)
        ensures
            final(self)@ == (GnuView {
                fields: GnuFields {
                    sparse: old(self)@.fields.sparse.push(entry),
                    ..old(self)@.fields
                },
                updated_used_blocks: false,
                ..old(self)@
            }),
    {
        self.updated_used_blocks = false;
        self.sparse.push(entry);
    }

    /// Pops a sparse entry from the header: the last one, if there is any.
    pub fn pop_sparse(&mut self) -> (entry: Option<SparseEntry>)
        ensures
            old(self)@.fields.sparse.len() == 0 ==> entry is None && final(self)@ == (GnuView {
                updated_used_blocks: false,
                ..old(self)@
            }),
            old(self)@.fields.sparse.len() > 0 ==> entry == Some(old(self)@.fields.sparse.last())
                && final(self)@ == (GnuView {
                fields: GnuFields {
                    sparse: old(self)@.fields.sparse.drop_last(),
                    ..old(self)@.fields
                },
                updated_used_blocks: false,
                ..old(self)@
            }),
    {
        self.updated_used_blocks = false;
        self.sparse.pop()
    }

    /// Inserts a sparse entry at the specified index, which is at most the
    /// number of entries.
    pub fn insert_sparse(&mut self, index: usize, entry: SparseEntry)
        requires
            index <= old(self)@.fields.sparse.len(),
        ensures
            final(self)@ == (GnuView {
                fields: GnuFields {
                    sparse: old(self)@.fields.sparse.insert(index as int, entry),
                    ..old(self)@.fields
                },
                updated_used_blocks: false,
                ..old(self)@
            }),
    {
        self.updated_used_blocks = false;
        self.sparse.insert(index, entry);
    }

    /// Removes the sparse entry at the specified index, which is below the
    /// number of entries.
    pub fn remove_sparse(&mut self, index: usize)
        requires
            index < old(self)@.fields.sparse.len(),
        ensures
            final(self)@ == (GnuView {
                fields: GnuFields {
                    sparse: old(self)@.fields.sparse.remove(index as int),
                    ..old(self)@.fields
                },
                updated_used_blocks: false,
                ..old(self)@
            }),
    {
        self.updated_used_blocks = false;
        self.sparse.remove(index);
    }

    /// Clears all sparse entries from the header.
    pub fn clear_sparse(&mut self)
        ensures
            final(self)@ == (GnuView {
                fields: GnuFields { sparse: Seq::<SparseEntry>::empty(), ..old(self)@.fields },
                updated_used_blocks: false,
                ..old(self)@
            }),
    {
        self.updated_used_blocks = false;
        self.sparse.clear();
    }

    /// Returns the sparse entries in their order.
    pub fn iter_sparse(&self) -> (entries: &[SparseEntry])
        ensures
            entries@ == self@.fields.sparse,
    {
        self.sparse.as_slice()
    }

    /// Returns the sparse entries for changing them. What they hold when
    /// the borrow ends is what the header holds.
    pub fn iter_sparse_mut(&mut self) -> (entries: &mut [SparseEntry])
        ensures
            entries@ == old(self)@.fields.sparse,
            final(self)@ == (GnuView {
                fields: GnuFields { sparse: final(entries)@, ..old(self)@.fields },
                updated_used_blocks: false,
                ..old(self)@
            }),
    {
        self.updated_used_blocks = false;
        self.sparse.as_mut_slice()
    }

    /// The fields of the header of a regular file with the given name and
    /// size.
    pub open spec fn file_fields(name: Seq<char>, size: u64) -> GnuFields {
        GnuFields {
            name,
            mode: 0,
            uid: 0,
            gid: 0,
            size,
            mtime: 0,
            chksum: 0,
            typeflag: GnuTypeFlag::Ustar(UstarTypeFlag::RegularFile),
            linkname: Seq::<char>::empty(),
            ext: ExtFields {
                magic: "ustar "@,
                version: " \0"@,
                uname: Seq::<char>::empty(),
                gname: Seq::<char>::empty(),
                devmajor: 0,
                devminor: 0,
            },
            sparse: Seq::<SparseEntry>::empty(),
            isextended: false,
            realsize: None,
            atime: None,
            ctime: None,
            incremental: None,
            gnu_extra: zeros(12),
        }
    }

    /// Creates the header of a regular file with the given name and size.
    pub fn for_file(name: String, size: u64) -> (h: Self)
        ensures
            h@.fields == GnuHeader::file_fields(name@, size),
            !h@.updated_used_blocks,
            h@.saved_blocks == 0,
    {
        let mut h = GnuHeader::new(GnuTypeFlag::Ustar(UstarTypeFlag::RegularFile));
        h.name = name;
        h.size = size;
        h
    }

    /// The size of the content in bytes.
    pub fn content_size(&self) -> (size: u64)
        ensures
            size == self@.fields.size,
    {
        self.size
    }

    /// The type flag.
    pub fn type_flag(&self) -> (flag: GnuTypeFlag)
        ensures
            flag == self@.fields.typeflag,
    {
        self.typeflag
    }

    /// Tells whether the number of used blocks was calculated since the last
    /// change of the header.
    pub fn is_used_blocks_updated(&self) -> (b: bool)
        ensures
            b == self@.updated_used_blocks,
    {
        self.updated_used_blocks
    }

    /// Creates a new GNU header, with the magic and the version of GNU.
    pub fn new(typeflag: GnuTypeFlag) -> (h: Self)
        ensures
            h@ == (GnuView {
                fields: GnuFields {
                    name: Seq::<char>::empty(),
                    mode: 0,
                    uid: 0,
                    gid: 0,
                    size: 0,
                    mtime: 0,
                    chksum: 0,
                    typeflag,
                    linkname: Seq::<char>::empty(),
                    ext: ExtFields {
                        magic: "ustar "@,
                        version: " \0"@,
                        uname: Seq::<char>::empty(),
                        gname: Seq::<char>::empty(),
                        devmajor: 0,
                        devminor: 0,
                    },
                    sparse: Seq::<SparseEntry>::empty(),
                    isextended: false,
                    realsize: None,
                    atime: None,
                    ctime: None,
                    incremental: None,
                    gnu_extra: zeros(12),
                },
                used_blocks: 0,
                saved_blocks: 0,
                updated_used_blocks: false,
            }),
    {
        let h = GnuHeader {
            name: String::new(),
            mode: 0,
            uid: 0,
            gid: 0,
            size: 0,
            mtime: 0,
            chksum: 0,
            typeflag,
            linkname: String::new(),
            magic: "ustar ".to_owned(),
            version: " \0".to_owned(),
            uname: String::new(),
            gname: String::new(),
            devmajor: 0,
            devminor: 0,
            sparse: Vec::new(),
            isextended: false,
            realsize: None,
            atime: None,
            ctime: None,
            incremental: None,
            gnu_extra: [0u8; 12],
            used_blocks: 0,
            saved_blocks: 0,
            updated_used_blocks: false,
        };
        assert(h.gnu_extra@ =~= zeros(12));
        h
    }
}

/// The number of blocks that a name of `len` bytes adds to a header.
fn text_blocks(len: usize) -> (n: usize)
    ensures
        n == long_text_blocks(len as nat),
        n <= len / 512 + 2,
{
    if len > 100 {
        let rest: usize = len - 100;
        let begun: usize = if rest % 512 > 0 { 1 } else { 0 };
        1 + rest / 512 + begun
    } else {
        0
    }
}

/// The number of extension blocks that `count` sparse entries need.
fn entry_blocks(count: usize) -> (n: usize)
    ensures
        n == sparse_blocks(count as nat),
        n <= count / 21 + 1,
{
    if count > 4 {
        let rest: usize = count - 4;
        let begun: usize = if rest % 21 > 0 { 1 } else { 0 };
        rest / 21 + begun
    } else {
        0
    }
}

impl UsedBlocksTrait for GnuHeader {
    open spec fn blocks(&self) -> nat {
        gnu_blocks(self@.fields)
    }

    open spec fn countable(&self) -> bool {
        true
    }

    open spec fn cache_valid(&self) -> bool {
        self@.updated_used_blocks ==> self@.used_blocks == gnu_blocks(self@.fields)
    }

    open spec fn saved(&self) -> nat {
        self@.saved_blocks
    }

    fn calc_used_blocks(&self) -> (n: usize) {
        let name_blocks: usize = text_blocks(self.name.as_str().as_bytes().len());
        let linkname_blocks: usize = text_blocks(self.linkname.as_str().as_bytes().len());
        let sparse_blocks: usize = entry_blocks(self.sparse.len());
        1 + name_blocks + linkname_blocks + sparse_blocks
    }

    fn get_used_blocks(&mut self) -> (n: usize)
        ensures
            final(self)@ == (GnuView {
                used_blocks: gnu_blocks(old(self)@.fields),
                updated_used_blocks: true,
                ..old(self)@
            }),
    {
        if !self.updated_used_blocks {
            self.used_blocks = self.calc_used_blocks();
            self.updated_used_blocks = true;
        }
        self.used_blocks
    }

    fn get_saved_blocks(&self) -> (n: usize) {
        self.saved_blocks
    }
}


// ---------------------------------------------------------------------
// What a GNU header writes
// ---------------------------------------------------------------------

/// The bytes of the GNU magic and version: "ustar ", a space and a NUL byte.
pub open spec fn gnu_magic_bytes() -> Seq<u8> {
    seq![0x75u8, 0x73u8, 0x74u8, 0x61u8, 0x72u8, 0x20u8, 0x20u8, 0u8]
}

/// The header block of a long-name record, before its checksum is written:
/// the fixed name, zero numbers but for the size, which is the length of the
/// long text, and the magic and version of GNU.
pub open spec fn long_raw(flag: u8, len: nat) -> Seq<u8> {
    core_bytes(
        CoreFields {
            name: "././@LongLink"@,
            mode: 0,
            uid: 0,
            gid: 0,
            size: len as u64,
            mtime: 0,
            chksum: 0,
            flag,
            linkname: Seq::<char>::empty(),
        },
    ) + gnu_magic_bytes() + zeros(247)
}

/// The record that carries a text of more than 100 bytes in front of the
/// header: a header block, then the text, filled up with NUL bytes to whole
/// blocks. A shorter text has no record.
pub open spec fn long_record(flag: u8, text: Seq<char>) -> Seq<u8> {
    let bytes = encode_utf8(text);
    if bytes.len() < 101 {
        Seq::<u8>::empty()
    } else {
        sealed(long_raw(flag, bytes.len())) + bytes + zeros(block_padding(bytes.len()) as int)
    }
}

/// A field of 12 bytes for an optional number: zeros where there is none.
pub open spec fn opt_octal_field(v: Option<u64>) -> Seq<u8> {
    match v {
        Some(n) => octal_field(n as nat, 12),
        None => zeros(12),
    }
}

/// The 24 bytes of a sparse entry.
pub open spec fn sparse_pair(e: SparseEntry) -> Seq<u8> {
    octal_field(e.offset as nat, 12) + octal_field(e.numbytes as nat, 12)
}

/// The bytes of sparse entries, one behind the other.
pub open spec fn sparse_bytes(entries: Seq<SparseEntry>) -> Seq<u8>
    decreases entries.len(),
{
    if entries.len() == 0 {
        Seq::<u8>::empty()
    } else {
        sparse_bytes(entries.drop_last()) + sparse_pair(entries.last())
    }
}

/// `slots` places for sparse entries: the entries, then zeros in the places
/// that are left.
pub open spec fn sparse_slots(entries: Seq<SparseEntry>, slots: int) -> Seq<u8> {
    sparse_bytes(entries) + zeros(24 * (slots - entries.len()))
}

/// The entries that stand in the header block: the first four.
pub open spec fn sparse_head(entries: Seq<SparseEntry>) -> Seq<SparseEntry> {
    if entries.len() > 4 {
        entries.take(4)
    } else {
        entries
    }
}

/// The entries that stand in extension blocks: those behind the first four.
pub open spec fn sparse_tail(entries: Seq<SparseEntry>) -> Seq<SparseEntry> {
    if entries.len() > 4 {
        entries.skip(4)
    } else {
        Seq::<SparseEntry>::empty()
    }
}

/// The byte that tells whether more sparse entries follow.
pub open spec fn more_flag(more: bool) -> u8 {
    if more {
        0x31
    } else {
        0x30
    }
}

/// Bytes 369 to 500 of a GNU header block. Without sparse entries they hold
/// the incremental dump text; with sparse entries the first four of them,
/// the flag for more, and the real size.
pub open spec fn gnu_middle(f: GnuFields) -> Seq<u8> {
    if f.sparse.len() == 0 {
        match f.incremental {
            Some(text) => text_field(encode_utf8(text), 131),
            None => zeros(131),
        }
    } else {
        zeros(17) + sparse_slots(sparse_head(f.sparse), 4) + seq![more_flag(f.sparse.len() > 4)]
            + opt_octal_field(f.realsize) + zeros(5)
    }
}

/// The name as it stands in the header block: empty where a long-name
/// record carries it.
pub open spec fn short_text(text: Seq<char>) -> Seq<char> {
    if encode_utf8(text).len() < 101 {
        text
    } else {
        Seq::<char>::empty()
    }
}

/// The first 257 bytes of a GNU header block, as fields.
pub open spec fn gnu_core(f: GnuFields) -> CoreFields {
    CoreFields {
        name: short_text(f.name),
        mode: f.mode,
        uid: f.uid,
        gid: f.gid,
        size: f.size,
        mtime: f.mtime,
        chksum: 0,
        flag: gnu_flag_byte(f.typeflag),
        linkname: short_text(f.linkname),
    }
}

/// A GNU header block before its checksum is written.
pub open spec fn gnu_raw(f: GnuFields) -> Seq<u8> {
    core_bytes(gnu_core(f)) + ext_bytes(f.ext) + opt_octal_field(f.atime) + opt_octal_field(
        f.ctime,
    ) + gnu_middle(f) + f.gnu_extra
}

/// The extension blocks for sparse entries: 21 entries in each, and at byte
/// 504 the flag that tells whether another block follows.
pub open spec fn sparse_ext(rest: Seq<SparseEntry>) -> Seq<u8>
    decreases rest.len(),
{
    if rest.len() == 0 {
        Seq::<u8>::empty()
    } else if rest.len() <= 21 {
        sparse_slots(rest, 21) + seq![more_flag(false)] + zeros(7)
    } else {
        sparse_slots(rest.take(21), 21) + seq![more_flag(true)] + zeros(7) + sparse_ext(
            rest.skip(21),
        )
    }
}

/// Everything that saving a GNU header writes: the long-name record and the
/// long-link record where the texts need them, the header block, and the
/// extension blocks for sparse entries.
pub open spec fn gnu_encoding(f: GnuFields) -> Seq<u8> {
    long_record(0x4c, f.name) + long_record(0x4b, f.linkname) + sealed(gnu_raw(f)) + sparse_ext(
        sparse_tail(f.sparse),
    )
}

/// Appends a field of 12 bytes for an optional number.
fn push_opt_octal(block: &mut Vec<u8>, v: Option<u64>)
    ensures
        final(block)@ == old(block)@ + opt_octal_field(v),
{
    match v {
        Some(n) => push_octal(block, n, 12),
        None => append_zeros(block, 12),
    }
}

/// Appends `slots` places for sparse entries, which hold
/// `entries[from..from + count]`.
fn push_sparse_slots(
    block: &mut Vec<u8>,
    entries: &[SparseEntry],
    from: usize,
    count: usize,
    slots: usize,
)
    requires
        count <= slots <= 21,
        from + count <= entries@.len(),
    ensures
        final(block)@ == old(block)@ + sparse_slots(
            entries@.subrange(from as int, from + count),
            slots as int,
        ),
{
    let ghost part = entries@.subrange(from as int, from + count);
    let len: usize = entries.len();
    let mut i: usize = 0;
    while i < count
        invariant
            i <= count <= slots <= 21,
            from + count <= entries@.len(),
            len == entries@.len(),
            part == entries@.subrange(from as int, from + count),
            block@ == old(block)@ + sparse_bytes(part.take(i as int)),
        decreases count - i,
    {
        let entry = entries[from + i];
        let ghost before = block@;
        push_octal(block, entry.offset, 12);
        push_octal(block, entry.numbytes, 12);
        proof {
            assert(part.take(i + 1).drop_last() =~= part.take(i as int));
            assert(part.take(i + 1).last() == entry);
            assert(block@ =~= before + sparse_pair(entry));
            assert(block@ =~= old(block)@ + sparse_bytes(part.take(i + 1)));
        }
        i += 1;
    }
    assert(part.take(count as int) =~= part);
    append_zeros(block, 24 * (slots - count));
}

/// Appends the magic and the version of GNU.
fn push_gnu_magic(block: &mut Vec<u8>)
    ensures
        final(block)@ == old(block)@ + gnu_magic_bytes(),
{
    block.push(0x75u8);
    block.push(0x73u8);
    block.push(0x74u8);
    block.push(0x61u8);
    block.push(0x72u8);
    block.push(0x20u8);
    block.push(0x20u8);
    block.push(0u8);
    assert(block@ =~= old(block)@ + gnu_magic_bytes());
}

/// Builds the header block of a long-name record, without its checksum.
fn build_long_block(typeflag: u8, len: usize) -> (block: Vec<u8>)
    ensures
        block@ == long_raw(typeflag, len as nat),
        block@.len() == 512,
{
    let mut block: Vec<u8> = Vec::new();
    push_core(&mut block, "././@LongLink", 0, 0, 0, len as u64, 0, typeflag, "");
    proof {
        assert(""@ =~= Seq::<char>::empty()) by {
            reveal_strlit("");
        }
        super::fields::lemma_core_layout(
            CoreFields {
                name: "././@LongLink"@,
                mode: 0,
                uid: 0,
                gid: 0,
                size: len as u64,
                mtime: 0,
                chksum: 0,
                flag: typeflag,
                linkname: Seq::<char>::empty(),
            },
        );
    }
    push_gnu_magic(&mut block);
    append_zeros(&mut block, 247);
    block
}

/// Appends the extension block that begins with `entries[from]`, and returns
/// the index of the first entry behind those that it holds.
fn push_ext_block(writer: &mut Vec<u8>, entries: &[SparseEntry], from: usize) -> (next: usize)
    requires
        from < entries@.len(),
    ensures
        from < next <= entries@.len(),
        next == (if entries@.len() - from > 21 {
            from + 21
        } else {
            entries@.len() as int
        }),
        final(writer)@ + sparse_ext(entries@.skip(next as int)) == old(writer)@ + sparse_ext(
            entries@.skip(from as int),
        ),
{
    let left: usize = entries.len() - from;
    let count: usize = if left > 21 { 21 } else { left };
    let ghost rest = entries@.skip(from as int);
    let mut ext: Vec<u8> = Vec::new();
    push_sparse_slots(&mut ext, entries, from, count, 21);
    ext.push(if left > 21 { 0x31u8 } else { 0x30u8 });
    append_zeros(&mut ext, 7);
    append_bytes(writer, ext.as_slice());
    proof {
        assert(entries@.subrange(from as int, from + count) =~= rest.take(count as int));
        if left <= 21 {
            assert(rest.take(count as int) =~= rest);
            assert(entries@.skip(from + count) =~= Seq::<SparseEntry>::empty());
        } else {
            assert(rest.skip(21) =~= entries@.skip(from + count));
        }
        assert(sparse_ext(rest) =~= ext@ + sparse_ext(entries@.skip(from + count)));
        assert(writer@ + sparse_ext(entries@.skip(from + count)) =~= old(writer)@ + sparse_ext(
            rest,
        ));
    }
    from + count
}

/// Appends the extension blocks for the sparse entries from `from` on.
fn push_sparse_ext(writer: &mut Vec<u8>, entries: &[SparseEntry], from: usize)
    requires
        from <= entries@.len(),
    ensures
        final(writer)@ == old(writer)@ + sparse_ext(entries@.skip(from as int)),
{
    let total: usize = entries.len();
    let mut processed: usize = from;
    while processed < total
        invariant
            from <= processed <= total,
            total == entries@.len(),
            writer@ + sparse_ext(entries@.skip(processed as int)) == old(writer)@ + sparse_ext(
                entries@.skip(from as int),
            ),
        decreases total - processed,
    {
        processed = push_ext_block(writer, entries, processed);
    }
    proof {
        assert(entries@.skip(total as int) =~= Seq::<SparseEntry>::empty());
        assert(writer@ + Seq::<u8>::empty() =~= writer@);
    }
}

impl GnuHeader {
    /// Saves the record that carries a long name or link name, where `value`
    /// has more than 100 bytes, and tells whether it did.
    pub fn save_long_header(&self, writer: &mut Vec<u8>, typeflag: u8, value: &str) -> (written:
        bool)
        ensures
            written == (encode_utf8(value@).len() >= 101),
            final(writer)@ == old(writer)@ + long_record(typeflag, value@),
    {
        let value_bytes = value.as_bytes();
        let value_bytes_len: usize = value_bytes.len();
        if value_bytes_len < 101 {
            assert(writer@ =~= old(writer)@ + long_record(typeflag, value@));
            return false;
        }
        let mut block = build_long_block(typeflag, value_bytes_len);
        seal(&mut block);
        append_bytes(writer, block.as_slice());
        append_bytes(writer, value_bytes);
        let rest: usize = value_bytes_len % 512;
        let padding: usize = if rest == 0 { 0 } else { 512 - rest };
        append_zeros(writer, padding);
        assert(padding == block_padding(value_bytes_len as nat));
        assert(writer@ =~= old(writer)@ + (sealed(long_raw(typeflag, value_bytes_len as nat))
            + value_bytes@ + zeros(padding as int)));
        true
    }

    /// Saves the long-name record where the name needs one, and tells
    /// whether it did.
    pub fn save_long_name(&self, writer: &mut Vec<u8>) -> (written: bool)
        ensures
            written == (encode_utf8(self@.fields.name).len() >= 101),
            final(writer)@ == old(writer)@ + long_record(0x4c, self@.fields.name),
    {
        self.save_long_header(writer, 0x4c, self.name.as_str())
    }

    /// Saves the long-link record where the link name needs one, and tells
    /// whether it did.
    pub fn save_long_link(&self, writer: &mut Vec<u8>) -> (written: bool)
        ensures
            written == (encode_utf8(self@.fields.linkname).len() >= 101),
            final(writer)@ == old(writer)@ + long_record(0x4b, self@.fields.linkname),
    {
        self.save_long_header(writer, 0x4b, self.linkname.as_str())
    }

    /// Builds the header block, without its checksum.
    fn build_block(&self, skip_name: bool, skip_linkname: bool) -> (block: Vec<u8>)
        requires
            skip_name == (encode_utf8(self@.fields.name).len() >= 101),
            skip_linkname == (encode_utf8(self@.fields.linkname).len() >= 101),
        ensures
            block@ == gnu_raw(self@.fields),
            block@.len() == 512,
    {
        let mut block: Vec<u8> = Vec::new();
        push_core(
            &mut block,
            if skip_name { "" } else { self.name.as_str() },
            self.mode,
            self.uid,
            self.gid,
            self.size,
            self.mtime,
            u8::from(self.typeflag),
            if skip_linkname { "" } else { self.linkname.as_str() },
        );
        proof {
            assert(""@ =~= Seq::<char>::empty()) by {
                reveal_strlit("");
            }
            super::fields::lemma_core_layout(gnu_core(self@.fields));
            super::fields::lemma_ext_layout(self@.fields.ext);
        }
        assert(block@ =~= core_bytes(gnu_core(self@.fields)));
        push_ext(
            &mut block,
            self.magic.as_str(),
            self.version.as_str(),
            self.uname.as_str(),
            self.gname.as_str(),
            self.devmajor,
            self.devminor,
        );
        push_opt_octal(&mut block, self.atime);
        push_opt_octal(&mut block, self.ctime);
        let ghost front = block@;
        let count: usize = self.sparse.len();
        if count == 0 {
            match &self.incremental {
                Some(text) => push_text(&mut block, text.as_str(), 131),
                None => append_zeros(&mut block, 131),
            }
        } else {
            append_zeros(&mut block, 17);
            let head: usize = if count > 4 { 4 } else { count };
            push_sparse_slots(&mut block, self.sparse.as_slice(), 0, head, 4);
            assert(self.sparse@.subrange(0, head as int) =~= sparse_head(self.sparse@));
            block.push(if count > 4 { 0x31u8 } else { 0x30u8 });
            push_opt_octal(&mut block, self.realsize);
            append_zeros(&mut block, 5);
        }
        assert(block@ =~= front + gnu_middle(self@.fields));
        proof {
            lemma_gnu_middle_len(self@.fields);
        }
        append_bytes(&mut block, self.gnu_extra.as_slice());
        assert(block@ =~= gnu_raw(self@.fields));
        block
    }

    /// Saves the header: the long-name and long-link records where needed,
    /// the header block, and the extension blocks for sparse entries. The
    /// header keeps the checksum that was written and the number of blocks
    /// that it takes.
    pub fn save(&mut self, writer: &mut Vec<u8>)
        ensures
            final(writer)@ == old(writer)@ + gnu_encoding(old(self)@.fields),
            final(self)@ == (GnuView {
                fields: GnuFields {
                    chksum: checksum_of(gnu_raw(old(self)@.fields)),
                    ..old(self)@.fields
                },
                used_blocks: gnu_blocks(old(self)@.fields),
                saved_blocks: gnu_blocks(old(self)@.fields),
                updated_used_blocks: true,
            }),
    {
        let ghost f = self@.fields;
        let skip_name = self.save_long_name(writer);
        let skip_linkname = self.save_long_link(writer);
        let mut block = self.build_block(skip_name, skip_linkname);
        let chksum = seal(&mut block);
        append_bytes(writer, block.as_slice());
        let total: usize = self.sparse.len();
        let from: usize = if total > 4 { 4 } else { total };
        push_sparse_ext(writer, self.sparse.as_slice(), from);
        proof {
            assert(self.sparse@.skip(from as int) =~= sparse_tail(f.sparse));
            assert(writer@ =~= old(writer)@ + gnu_encoding(f));
        }
        self.chksum = chksum;
        self.updated_used_blocks = false;
        self.saved_blocks = self.get_used_blocks();
    }
}

/// Bytes 369 to 500 of a GNU header block are 131 bytes.
pub proof fn lemma_gnu_middle_len(f: GnuFields)
    ensures
        gnu_middle(f).len() == 131,
{
    if f.sparse.len() > 0 {
        lemma_sparse_bytes_len(sparse_head(f.sparse));
    }
}

/// Every sparse entry takes 24 bytes.
pub proof fn lemma_sparse_bytes_len(entries: Seq<SparseEntry>)
    ensures
        sparse_bytes(entries).len() == 24 * entries.len(),
    decreases entries.len(),
{
    if entries.len() > 0 {
        lemma_sparse_bytes_len(entries.drop_last());
    }
}


// ---------------------------------------------------------------------
// What a GNU header reads
// ---------------------------------------------------------------------

/// True when the block carries the magic and the version of GNU.
pub open spec fn has_gnu_magic(b: Seq<u8>) -> bool {
    b.subrange(257, 265) == gnu_magic_bytes()
}

/// What reading a long-name record gives, from its header block `b` and the
/// bytes `rest` behind it: the text and the number of bytes taken from
/// `rest`. The checksum of the header block is held against the block, and
/// the text is the payload without the NUL bytes at its end.
#[verifier::opaque]
pub open spec fn long_parse(b: Seq<u8>, rest: Seq<u8>) -> Result<(Seq<char>, nat), HeaderError> {
    match octal_parse_in(b.subrange(148, 156), max32()) {
        Err(e) => Err(e),
        Ok(sum) => if sum != checksum_of(b) {
            Err(HeaderError::BadChecksum)
        } else {
            match octal_parse_in(b.subrange(124, 136), max64()) {
                Err(e) => Err(e),
                Ok(size) => if rest.len() < padded_len(size as nat) {
                    Err(HeaderError::ShortRead)
                } else {
                    match padded_text_parse(rest.take(size as int)) {
                        Err(e) => Err(e),
                        Ok(text) => Ok((text, padded_len(size as nat))),
                    }
                },
            }
        },
    }
}

/// What reading a field of 12 bytes for an optional number gives: nothing
/// for a field of NUL bytes and for one that holds no octal number.
pub open spec fn opt_octal_parse(field: Seq<u8>) -> Option<u64> {
    if field == zeros(12) {
        None
    } else {
        match octal_parse_in(field, max64()) {
            Ok(v) => Some(v),
            Err(_) => None,
        }
    }
}

/// What reading the place for a sparse entry at `at` gives: nothing where
/// the offset or the length is NUL bytes only.
pub open spec fn slot_parse(b: Seq<u8>, at: int) -> Result<Option<SparseEntry>, HeaderError> {
    let offset = b.subrange(at, at + 12);
    let numbytes = b.subrange(at + 12, at + 24);
    if offset == zeros(12) || numbytes == zeros(12) {
        Ok(None)
    } else {
        match octal_parse_in(offset, max64()) {
            Err(e) => Err(e),
            Ok(o) => match octal_parse_in(numbytes, max64()) {
                Err(e) => Err(e),
                Ok(n) => Ok(Some(SparseEntry { offset: o, numbytes: n })),
            },
        }
    }
}

/// What reading `count` places for sparse entries from `base` on gives: the
/// entries of the places that hold one, or the first error.
pub open spec fn slots_parse(b: Seq<u8>, base: int, count: nat) -> Result<
    Seq<SparseEntry>,
    HeaderError,
>
    decreases count,
{
    if count == 0 {
        Ok(Seq::<SparseEntry>::empty())
    } else {
        match slots_parse(b, base, (count - 1) as nat) {
            Err(e) => Err(e),
            Ok(entries) => match slot_parse(b, base + 24 * (count - 1)) {
                Err(e) => Err(e),
                Ok(Some(entry)) => Ok(entries.push(entry)),
                Ok(None) => Ok(entries),
            },
        }
    }
}

/// What reading the chain of extension blocks gives: the entries, and the
/// number of bytes taken. The chain goes on while `more` says so.
pub open spec fn chain_parse(rest: Seq<u8>, more: bool) -> Result<
    (Seq<SparseEntry>, nat),
    HeaderError,
>
    decreases rest.len(),
{
    if !more {
        Ok((Seq::<SparseEntry>::empty(), 0nat))
    } else if rest.len() < 512 {
        Err(HeaderError::ShortRead)
    } else {
        match slots_parse(rest.take(512), 0, 21) {
            Err(e) => Err(e),
            Ok(entries) => match chain_parse(rest.skip(512), rest[504] == 0x31) {
                Err(e) => Err(e),
                Ok((tail, used)) => Ok((entries + tail, used + 512)),
            },
        }
    }
}

/// What reading the incremental dump text gives: the text of bytes 369 to
/// 500 without the NUL bytes at its end, where the header has no sparse
/// entry and the bytes are not NUL bytes only.
pub open spec fn incremental_parse(b: Seq<u8>, no_sparse: bool) -> Result<
    Option<Seq<char>>,
    HeaderError,
> {
    if no_sparse && b.subrange(369, 500) != zeros(131) {
        match padded_text_parse(b.subrange(369, 500)) {
            Err(e) => Err(e),
            Ok(text) => Ok(Some(text)),
        }
    } else {
        Ok(None)
    }
}

/// What a GNU header block alone gives, as values.
pub ghost struct GnuBlockFields {
    pub core: CoreFields,
    pub ext: ExtFields,
    pub typeflag: GnuTypeFlag,
    pub head: Seq<SparseEntry>,
    pub isextended: bool,
    pub realsize: Option<u64>,
    pub atime: Option<u64>,
    pub ctime: Option<u64>,
    pub incremental: Option<Seq<char>>,
    pub gnu_extra: Seq<u8>,
}

/// What reading a GNU header block gives: the fields in the order in which
/// they stand, or the first error among them. With `no_prior` the header
/// had no sparse entry before.
pub open spec fn gnu_block_parse(b: Seq<u8>, skip_name: bool, skip_linkname: bool, no_prior: bool)
    -> Result<GnuBlockFields, HeaderError> {
    match core_parse(b, skip_name, skip_linkname) {
        Err(e) => Err(e),
        Ok(core) => match ext_parse(b) {
            Err(e) => Err(e),
            Ok(ext) => match slots_parse(b, 386, 4) {
                Err(e) => Err(e),
                Ok(head) => match incremental_parse(b, no_prior && head.len() == 0) {
                    Err(e) => Err(e),
                    Ok(incremental) => Ok(
                        GnuBlockFields {
                            core,
                            ext,
                            typeflag: gnu_flag(b[156]),
                            head,
                            isextended: b[482] == 0x31,
                            realsize: opt_octal_parse(b.subrange(483, 495)),
                            atime: opt_octal_parse(b.subrange(345, 357)),
                            ctime: opt_octal_parse(b.subrange(357, 369)),
                            incremental,
                            gnu_extra: b.subrange(500, 512),
                        },
                    ),
                },
            },
        },
    }
}

/// The fields of a header of which `block` was read from the header block
/// and `tail` from the extension blocks.
pub open spec fn gnu_fields_of(
    block: GnuBlockFields,
    long_name: Option<Seq<char>>,
    long_link: Option<Seq<char>>,
    prior: Seq<SparseEntry>,
    tail: Seq<SparseEntry>,
) -> GnuFields {
    GnuFields {
        name: match long_name {
            Some(text) => text,
            None => block.core.name,
        },
        mode: block.core.mode,
        uid: block.core.uid,
        gid: block.core.gid,
        size: block.core.size,
        mtime: block.core.mtime,
        chksum: block.core.chksum,
        typeflag: block.typeflag,
        linkname: match long_link {
            Some(text) => text,
            None => block.core.linkname,
        },
        ext: block.ext,
        sparse: prior + block.head + tail,
        isextended: block.isextended,
        realsize: block.realsize,
        atime: block.atime,
        ctime: block.ctime,
        incremental: block.incremental,
        gnu_extra: block.gnu_extra,
    }
}

/// What reading a GNU header block `b` and the extension blocks in `rest`
/// gives: the fields, and the number of bytes taken from `rest`. A name and
/// a link name that a preceding record gave are kept, and the sparse entries
/// follow those that the header already had.
#[verifier::opaque]
pub open spec fn gnu_fields_parse(
    b: Seq<u8>,
    rest: Seq<u8>,
    long_name: Option<Seq<char>>,
    long_link: Option<Seq<char>>,
    prior: Seq<SparseEntry>,
) -> Result<(GnuFields, nat), HeaderError> {
    match gnu_block_parse(b, long_name is Some, long_link is Some, prior.len() == 0) {
        Err(e) => Err(e),
        Ok(block) => match chain_parse(rest, block.isextended) {
            Err(e) => Err(e),
            Ok((tail, used)) => Ok((gnu_fields_of(block, long_name, long_link, prior, tail), used)),
        },
    }
}

/// What reading a header goes on with behind a long-name record, if there
/// was one: a long-link record where the block `b` begins one, then the
/// header block and its extension blocks.
#[verifier::opaque]
pub open spec fn gnu_parse_link(b: Seq<u8>, rest: Seq<u8>, long_name: Option<Seq<char>>) -> Result<
    (GnuFields, nat),
    HeaderError,
> {
    if gnu_flag(b[156]) == GnuTypeFlag::LongLinkName {
        match long_parse(b, rest) {
            Err(e) => Err(e),
            Ok((link, n)) => if rest.len() < n + 512 {
                Err(HeaderError::ShortRead)
            } else {
                match gnu_fields_parse(
                    rest.subrange(n as int, (n + 512) as int),
                    rest.skip((n + 512) as int),
                    long_name,
                    Some(link),
                    Seq::<SparseEntry>::empty(),
                ) {
                    Err(e) => Err(e),
                    Ok((f, m)) => Ok((f, n + 512 + m)),
                }
            },
        }
    } else {
        gnu_fields_parse(b, rest, long_name, None, Seq::<SparseEntry>::empty())
    }
}

/// What reading a GNU header gives, from its first block `b` and the bytes
/// `rest` behind it: nothing where the magic or the version is not of GNU;
/// else the fields and the number of bytes taken from `rest`, or the first
/// error. A long-name record, then a long-link record may stand before the
/// header block.
pub open spec fn gnu_parse(b: Seq<u8>, rest: Seq<u8>) -> Result<
    Option<(GnuFields, nat)>,
    HeaderError,
> {
    if !has_gnu_magic(b) {
        Ok(None)
    } else if gnu_flag(b[156]) == GnuTypeFlag::LongName {
        match long_parse(b, rest) {
            Err(e) => Err(e),
            Ok((name, n)) => if rest.len() < n + 512 {
                Err(HeaderError::ShortRead)
            } else {
                match gnu_parse_link(
                    rest.subrange(n as int, (n + 512) as int),
                    rest.skip((n + 512) as int),
                    Some(name),
                ) {
                    Err(e) => Err(e),
                    Ok((f, m)) => Ok(Some((f, n + 512 + m))),
                }
            },
        }
    } else {
        match gnu_parse_link(b, rest, None) {
            Err(e) => Err(e),
            Ok(found) => Ok(Some(found)),
        }
    }
}

/// Reads a field of 12 bytes for an optional number.
fn parse_opt_octal(field: &[u8]) -> (v: Option<u64>)
    requires
        field@.len() == 12,
    ensures
        v == opt_octal_parse(field@),
{
    if is_all_zero(field) {
        None
    } else {
        match parse_octal::<u64>(field) {
            Ok(n) => Some(n),
            Err(_) => None,
        }
    }
}

/// Reads the place for a sparse entry at `at`.
fn parse_slot(b: &[u8; 512], at: usize) -> (r: Result<Option<SparseEntry>, HeaderError>)
    requires
        at + 24 <= 512,
    ensures
        r == slot_parse(b@, at as int),
{
    let offset = &b[at..at + 12];
    let numbytes = &b[at + 12..at + 24];
    if is_all_zero(offset) || is_all_zero(numbytes) {
        return Ok(None);
    }
    let o = parse_octal::<u64>(offset)?;
    let n = parse_octal::<u64>(numbytes)?;
    Ok(Some(SparseEntry { offset: o, numbytes: n }))
}

/// Reads `count` places for sparse entries from `base` on, and appends the
/// entries to `out`.
fn parse_slots(b: &[u8; 512], base: usize, count: usize, out: &mut Vec<SparseEntry>) -> (r:
    Result<(), HeaderError>)
    requires
        base + 24 * count <= 512,
    ensures
        match r {
            Ok(()) => slots_parse(b@, base as int, count as nat) is Ok && final(out)@ == old(out)@
                + slots_parse(b@, base as int, count as nat)->Ok_0,
            Err(e) => slots_parse(b@, base as int, count as nat) == Err::<
                Seq<SparseEntry>,
                HeaderError,
            >(e),
        },
{
    let mut i: usize = 0;
    while i < count
        invariant
            i <= count,
            base + 24 * count <= 512,
            slots_parse(b@, base as int, i as nat) is Ok,
            out@ == old(out)@ + slots_parse(b@, base as int, i as nat)->Ok_0,
        decreases count - i,
    {
        match parse_slot(b, base + 24 * i) {
            Err(e) => {
                proof {
                    lemma_slots_error(b@, base as int, (i + 1) as nat, count as nat);
                }
                return Err(e);
            },
            Ok(Some(entry)) => {
                out.push(entry);
                assert(out@ =~= old(out)@ + slots_parse(b@, base as int, (i + 1) as nat)->Ok_0);
            },
            Ok(None) => {},
        }
        i += 1;
    }
    Ok(())
}

/// An error among the first places is the error of all the places.
pub proof fn lemma_slots_error(b: Seq<u8>, base: int, i: nat, count: nat)
    requires
        i <= count,
        slots_parse(b, base, i) is Err,
    ensures
        slots_parse(b, base, count) == slots_parse(b, base, i),
    decreases count - i,
{
    if i < count {
        lemma_slots_error(b, base, i, (count - 1) as nat);
    }
}

/// The result of a chain of extension blocks of which a first part gave
/// `entries` from `used` bytes, and the rest gives `tail`.
pub open spec fn chain_join(
    entries: Seq<SparseEntry>,
    used: nat,
    tail: Result<(Seq<SparseEntry>, nat), HeaderError>,
) -> Result<(Seq<SparseEntry>, nat), HeaderError> {
    match tail {
        Err(e) => Err(e),
        Ok((more, n)) => Ok((entries + more, used + n)),
    }
}

/// Reads the chain of extension blocks, and appends the entries to `out`.
fn load_chain(reader: &mut Stream, more: bool, out: &mut Vec<SparseEntry>) -> (r: Result<
    (),
    HeaderError,
>)
    ensures
        final(reader).data == old(reader).data,
        match r {
            Ok(()) => final(reader).pos >= old(reader).pos && chain_parse(
                old(reader).remaining(),
                more,
            ) == Ok::<(Seq<SparseEntry>, nat), HeaderError>(
                (
                    final(out)@.skip(old(out)@.len() as int),
                    (final(reader).pos - old(reader).pos) as nat,
                ),
            ) && final(out)@.take(old(out)@.len() as int) == old(out)@ && final(out)@.len()
                >= old(out)@.len(),
            Err(e) => chain_parse(old(reader).remaining(), more) == Err::<
                (Seq<SparseEntry>, nat),
                HeaderError,
            >(e),
        },
{
    let mut next: bool = more;
    let ghost start = old(reader).remaining();
    let ghost first = old(out)@;
    assert(out@.skip(first.len() as int) =~= Seq::<SparseEntry>::empty());
    assert(out@.take(first.len() as int) =~= first);
    while next
        invariant
            reader.data == old(reader).data,
            reader.pos >= old(reader).pos,
            start == old(reader).remaining(),
            first == old(out)@,
            out@.len() >= first.len(),
            out@.take(first.len() as int) == first,
            chain_parse(start, more) == chain_join(
                out@.skip(first.len() as int),
                (reader.pos - old(reader).pos) as nat,
                chain_parse(reader.remaining(), next),
            ),
        decreases reader.remaining().len(),
    {
        let ghost rest = reader.remaining();
        let ghost before = out@;
        let ghost used = (reader.pos - old(reader).pos) as nat;
        let block = match reader.read_block() {
            Ok(block) => block,
            Err(e) => {
                return Err(e);
            },
        };
        match parse_slots(&block, 0, 21, out) {
            Ok(()) => {},
            Err(e) => {
                return Err(e);
            },
        }
        next = block[504] == 0x31;
        proof {
            let entries = slots_parse(rest.take(512), 0, 21)->Ok_0;
            assert(reader.remaining() =~= rest.skip(512));
            assert(rest[504] == rest.take(512)[504]);
            assert(out@.skip(first.len() as int) =~= before.skip(first.len() as int) + entries);
            assert(out@.take(first.len() as int) =~= first);
            let tail = chain_parse(rest.skip(512), next);
            assert(chain_join(before.skip(first.len() as int), used, chain_parse(rest, true))
                == chain_join(out@.skip(first.len() as int), used + 512, tail)) by {
                if tail is Ok {
                    assert(before.skip(first.len() as int) + (entries + tail->Ok_0.0) =~= (
                    before.skip(first.len() as int) + entries) + tail->Ok_0.0);
                }
            }
        }
    }
    proof {
        assert(out@.skip(first.len() as int) + Seq::<SparseEntry>::empty() =~= out@.skip(
            first.len() as int,
        ));
    }
    Ok(())
}


/// What a GNU header block alone gives.
pub struct GnuBlock {
    pub core: super::fields::Core,
    pub ext: super::fields::Ext,
    pub typeflag: GnuTypeFlag,
    pub head: Vec<SparseEntry>,
    pub isextended: bool,
    pub realsize: Option<u64>,
    pub atime: Option<u64>,
    pub ctime: Option<u64>,
    pub incremental: Option<String>,
    pub gnu_extra: [u8; 12],
}

impl View for GnuBlock {
    type V = GnuBlockFields;

    open spec fn view(&self) -> GnuBlockFields {
        GnuBlockFields {
            core: self.core@,
            ext: self.ext@,
            typeflag: self.typeflag,
            head: self.head@,
            isextended: self.isextended,
            realsize: self.realsize,
            atime: self.atime,
            ctime: self.ctime,
            incremental: opt_chars(self.incremental),
            gnu_extra: self.gnu_extra@,
        }
    }
}

/// Reads the incremental dump text of a header block.
fn load_incremental(buf: &[u8; 512], no_sparse: bool) -> (r: Result<Option<String>, HeaderError>)
    ensures
        match r {
            Ok(text) => incremental_parse(buf@, no_sparse) == Ok::<
                Option<Seq<char>>,
                HeaderError,
            >(opt_chars(text)),
            Err(e) => incremental_parse(buf@, no_sparse) == Err::<Option<Seq<char>>, HeaderError>(
                e,
            ),
        },
{
    if no_sparse && !is_all_zero(&buf[369..500]) {
        let text = get_padded_text(&buf[369..500])?;
        Ok(Some(text))
    } else {
        Ok(None)
    }
}

/// Copies the last 12 bytes of a header block.
fn load_gnu_extra(buf: &[u8; 512]) -> (extra: [u8; 12])
    ensures
        extra@ == buf@.subrange(500, 512),
{
    let mut extra = [0u8; 12];
    let mut i: usize = 0;
    while i < 12
        invariant
            i <= 12,
            forall|j: int| 0 <= j < i ==> extra@[j] == buf@[500 + j],
        decreases 12 - i,
    {
        extra[i] = buf[500 + i];
        i += 1;
    }
    assert(extra@ =~= buf@.subrange(500, 512));
    extra
}

/// Reads a GNU header block.
fn load_block(buf: &[u8; 512], skip_name: bool, skip_linkname: bool, no_prior: bool) -> (r: Result<
    GnuBlock,
    HeaderError,
>)
    ensures
        match r {
            Ok(block) => gnu_block_parse(buf@, skip_name, skip_linkname, no_prior) == Ok::<
                GnuBlockFields,
                HeaderError,
            >(block@),
            Err(e) => gnu_block_parse(buf@, skip_name, skip_linkname, no_prior) == Err::<
                GnuBlockFields,
                HeaderError,
            >(e),
        },
{
    let core = load_core(buf, skip_name, skip_linkname)?;
    let ext = load_ext(buf)?;
    let mut head: Vec<SparseEntry> = Vec::new();
    parse_slots(buf, 386, 4, &mut head)?;
    assert(head@ =~= slots_parse(buf@, 386, 4)->Ok_0);
    let incremental = load_incremental(buf, no_prior && head.len() == 0)?;
    Ok(
        GnuBlock {
            core,
            ext,
            typeflag: GnuTypeFlag::from(buf[156]),
            head,
            isextended: buf[482] == 0x31,
            realsize: parse_opt_octal(&buf[483..495]),
            atime: parse_opt_octal(&buf[345..357]),
            ctime: parse_opt_octal(&buf[357..369]),
            incremental,
            gnu_extra: load_gnu_extra(buf),
        },
    )
}

/// Appends `more` to `entries`.
fn extend_sparse(entries: &mut Vec<SparseEntry>, more: &Vec<SparseEntry>)
    ensures
        final(entries)@ == old(entries)@ + more@,
{
    let mut k: usize = 0;
    while k < more.len()
        invariant
            k <= more@.len(),
            entries@ == old(entries)@ + more@.take(k as int),
        decreases more@.len() - k,
    {
        entries.push(more[k]);
        k += 1;
        assert(entries@ =~= old(entries)@ + more@.take(k as int));
    }
    assert(more@.take(more@.len() as int) =~= more@);
}

/// Tells whether the block carries the magic and the version of GNU.
fn check_gnu_magic(buf: &[u8; 512]) -> (ok: bool)
    ensures
        ok == has_gnu_magic(buf@),
{
    let ok = buf[257] == 0x75 && buf[258] == 0x73 && buf[259] == 0x74 && buf[260] == 0x61
        && buf[261] == 0x72 && buf[262] == 0x20 && buf[263] == 0x20 && buf[264] == 0;
    proof {
        let m = buf@.subrange(257, 265);
        assert(m[0] == buf@[257] && m[1] == buf@[258] && m[2] == buf@[259] && m[3] == buf@[260]
            && m[4] == buf@[261] && m[5] == buf@[262] && m[6] == buf@[263] && m[7] == buf@[264]);
        if ok {
            assert(m =~= gnu_magic_bytes());
        }
    }
    ok
}

impl GnuHeader {
    /// Reads the text of a long-name record, whose header block is `buf`,
    /// from the reader, which stands behind that block. The checksum of the
    /// header block must be the one that the block holds.
    pub fn read_long_header(buf: &[u8; 512], reader: &mut Stream) -> (r: Result<
        String,
        HeaderError,
    >)
        ensures
            final(reader).data == old(reader).data,
            match r {
                Ok(text) => final(reader).pos >= old(reader).pos && long_parse(
                    buf@,
                    old(reader).remaining(),
                ) == Ok::<(Seq<char>, nat), HeaderError>(
                    (text@, (final(reader).pos - old(reader).pos) as nat),
                ) && final(reader).remaining() == old(reader).remaining().skip(
                    final(reader).pos - old(reader).pos,
                ),
                Err(e) => long_parse(buf@, old(reader).remaining()) == Err::<
                    (Seq<char>, nat),
                    HeaderError,
                >(e),
            },
    {
        reveal(long_parse);
        let chksum = parse_octal::<u32>(&buf[148..156])?;
        let new_chksum = checksum(buf.as_slice());
        if chksum != new_chksum {
            return Err(HeaderError::BadChecksum);
        }
        let size = parse_octal::<u64>(&buf[124..136])?;
        let data = reader.read_padded(size)?;
        get_padded_text(data.as_slice())
    }

    /// Loads the name from a long-name record.
    pub fn load_long_name(&mut self, buf: &[u8; 512], reader: &mut Stream) -> (r: Result<
        (),
        HeaderError,
    >)
        ensures
            final(reader).data == old(reader).data,
            match r {
                Ok(()) => final(reader).pos >= old(reader).pos && long_parse(
                    buf@,
                    old(reader).remaining(),
                ) == Ok::<(Seq<char>, nat), HeaderError>(
                    (final(self)@.fields.name, (final(reader).pos - old(reader).pos) as nat),
                ) && final(reader).remaining() == old(reader).remaining().skip(
                    final(reader).pos - old(reader).pos,
                ) && final(self)@ == (GnuView {
                    fields: GnuFields { name: final(self)@.fields.name, ..old(self)@.fields },
                    updated_used_blocks: false,
                    ..old(self)@
                }),
                Err(e) => long_parse(buf@, old(reader).remaining()) == Err::<
                    (Seq<char>, nat),
                    HeaderError,
                >(e) && final(self)@ == old(self)@,
            },
    {
        let name = GnuHeader::read_long_header(buf, reader)?;
        self.set_name(name);
        Ok(())
    }

    /// Loads the link name from a long-link record.
    pub fn load_long_link(&mut self, buf: &[u8; 512], reader: &mut Stream) -> (r: Result<
        (),
        HeaderError,
    >)
        ensures
            final(reader).data == old(reader).data,
            match r {
                Ok(()) => final(reader).pos >= old(reader).pos && long_parse(
                    buf@,
                    old(reader).remaining(),
                ) == Ok::<(Seq<char>, nat), HeaderError>(
                    (final(self)@.fields.linkname, (final(reader).pos - old(reader).pos) as nat),
                ) && final(reader).remaining() == old(reader).remaining().skip(
                    final(reader).pos - old(reader).pos,
                ) && final(self)@ == (GnuView {
                    fields: GnuFields {
                        linkname: final(self)@.fields.linkname,
                        ..old(self)@.fields
                    },
                    updated_used_blocks: false,
                    ..old(self)@
                }),
                Err(e) => long_parse(buf@, old(reader).remaining()) == Err::<
                    (Seq<char>, nat),
                    HeaderError,
                >(e) && final(self)@ == old(self)@,
            },
    {
        let linkname = GnuHeader::read_long_header(buf, reader)?;
        self.set_linkname(linkname);
        Ok(())
    }

    /// Loads the fields of the header block `buf`, and the sparse entries of
    /// the extension blocks from the reader. With `skip_name` the name is
    /// kept as it is, with `skip_linkname` the link name. The sparse entries
    /// are added to those that the header has.
    pub fn load_standard(
        &mut self,
        buf: &[u8; 512],
        reader: &mut Stream,
        skip_name: bool,
        skip_linkname: bool,
    ) -> (r: Result<(), HeaderError>)
        ensures
            final(reader).data == old(reader).data,
            match r {
                Ok(()) => final(reader).pos >= old(reader).pos && gnu_fields_parse(
                    buf@,
                    old(reader).remaining(),
                    if skip_name {
                        Some(old(self)@.fields.name)
                    } else {
                        None
                    },
                    if skip_linkname {
                        Some(old(self)@.fields.linkname)
                    } else {
                        None
                    },
                    old(self)@.fields.sparse,
                ) == Ok::<(GnuFields, nat), HeaderError>(
                    (final(self)@.fields, (final(reader).pos - old(reader).pos) as nat),
                ) && final(self)@.updated_used_blocks == false && final(self)@.saved_blocks == old(
                    self,
                )@.saved_blocks,
                Err(e) => gnu_fields_parse(
                    buf@,
                    old(reader).remaining(),
                    if skip_name {
                        Some(old(self)@.fields.name)
                    } else {
                        None
                    },
                    if skip_linkname {
                        Some(old(self)@.fields.linkname)
                    } else {
                        None
                    },
                    old(self)@.fields.sparse,
                ) == Err::<(GnuFields, nat), HeaderError>(e),
            },
    {
        reveal(gnu_fields_parse);
        let no_prior = self.sparse.len() == 0;
        let block = load_block(buf, skip_name, skip_linkname, no_prior)?;
        let mut tail: Vec<SparseEntry> = Vec::new();
        load_chain(reader, block.isextended, &mut tail)?;
        assert(tail@.skip(0) =~= tail@);
        self.apply_block(block, tail, skip_name, skip_linkname);
        Ok(())
    }

    /// Takes over the fields that were read from a header block and its
    /// extension blocks.
    fn apply_block(
        &mut self,
        block: GnuBlock,
        tail: Vec<SparseEntry>,
        skip_name: bool,
        skip_linkname: bool,
    )
        ensures
            final(self)@ == (GnuView {
                fields: gnu_fields_of(
                    block@,
                    if skip_name {
                        Some(old(self)@.fields.name)
                    } else {
                        None
                    },
                    if skip_linkname {
                        Some(old(self)@.fields.linkname)
                    } else {
                        None
                    },
                    old(self)@.fields.sparse,
                    tail@,
                ),
                updated_used_blocks: false,
                ..old(self)@
            }),
    {
        extend_sparse(&mut self.sparse, &block.head);
        extend_sparse(&mut self.sparse, &tail);
        if !skip_name {
            self.name = block.core.name;
        }
        self.mode = block.core.mode;
        self.uid = block.core.uid;
        self.gid = block.core.gid;
        self.size = block.core.size;
        self.mtime = block.core.mtime;
        self.chksum = block.core.chksum;
        self.typeflag = block.typeflag;
        if !skip_linkname {
            self.linkname = block.core.linkname;
        }
        self.magic = block.ext.magic;
        self.version = block.ext.version;
        self.uname = block.ext.uname;
        self.gname = block.ext.gname;
        self.devmajor = block.ext.devmajor;
        self.devminor = block.ext.devminor;
        self.atime = block.atime;
        self.ctime = block.ctime;
        self.isextended = block.isextended;
        self.realsize = block.realsize;
        self.incremental = block.incremental;
        self.gnu_extra = block.gnu_extra;
        self.updated_used_blocks = false;
    }

    /// Loads the header block that follows a long-name record, if there was
    /// one: a long-link record where `buf` begins one, then the header block
    /// and its extension blocks.
    fn load_link(&mut self, buf: &[u8; 512], reader: &mut Stream, skip_name: bool) -> (r: Result<
        (),
        HeaderError,
    >)
        requires
            old(self)@.fields.sparse.len() == 0,
        ensures
            final(reader).data == old(reader).data,
            match r {
                Ok(()) => final(reader).pos >= old(reader).pos && gnu_parse_link(
                    buf@,
                    old(reader).remaining(),
                    if skip_name {
                        Some(old(self)@.fields.name)
                    } else {
                        None
                    },
                ) == Ok::<(GnuFields, nat), HeaderError>(
                    (final(self)@.fields, (final(reader).pos - old(reader).pos) as nat),
                ) && !final(self)@.updated_used_blocks,
                Err(e) => gnu_parse_link(
                    buf@,
                    old(reader).remaining(),
                    if skip_name {
                        Some(old(self)@.fields.name)
                    } else {
                        None
                    },
                ) == Err::<(GnuFields, nat), HeaderError>(e),
            },
    {
        reveal(gnu_parse_link);
        let ghost rest = reader.remaining();
        assert(self@.fields.sparse =~= Seq::<SparseEntry>::empty());
        if matches!(GnuTypeFlag::from(buf[156]), GnuTypeFlag::LongLinkName) {
            self.load_long_link(buf, reader)?;
            let ghost n = (reader.pos - old(reader).pos) as nat;
            let block = reader.read_block()?;
            assert(block@ =~= rest.subrange(n as int, (n + 512) as int));
            assert(reader.remaining() =~= rest.skip((n + 512) as int));
            self.load_standard(&block, reader, skip_name, true)
        } else {
            self.load_standard(buf, reader, skip_name, false)
        }
    }

    /// Loads a GNU header from its first block `buf` and the reader, which
    /// stands behind that block: a long-name record and a long-link record
    /// where there are any, the header block and the extension blocks for
    /// sparse entries. A block whose magic or version is not of GNU gives
    /// `None`, and nothing is read.
    pub fn load(buf: &[u8; 512], reader: &mut Stream) -> (r: Result<Option<Self>, HeaderError>)
        ensures
            final(reader).data == old(reader).data,
            match r {
                Ok(Some(h)) => final(reader).pos >= old(reader).pos && gnu_parse(
                    buf@,
                    old(reader).remaining(),
                ) == Ok::<Option<(GnuFields, nat)>, HeaderError>(
                    Some((h@.fields, (final(reader).pos - old(reader).pos) as nat)),
                ) && h@.used_blocks == gnu_blocks(h@.fields) && h@.saved_blocks == gnu_blocks(
                    h@.fields,
                ) && h@.updated_used_blocks,
                Ok(None) => gnu_parse(buf@, old(reader).remaining()) == Ok::<
                    Option<(GnuFields, nat)>,
                    HeaderError,
                >(None) && final(reader).pos == old(reader).pos,
                Err(e) => gnu_parse(buf@, old(reader).remaining()) == Err::<
                    Option<(GnuFields, nat)>,
                    HeaderError,
                >(e),
            },
    {
        if !check_gnu_magic(buf) {
            return Ok(None);
        }
        let typeflag = GnuTypeFlag::from(buf[156]);
        let ghost rest = reader.remaining();
        let mut header = GnuHeader::new(typeflag);
        if matches!(typeflag, GnuTypeFlag::LongName) {
            header.load_long_name(buf, reader)?;
            let ghost n = (reader.pos - old(reader).pos) as nat;
            let block = reader.read_block()?;
            assert(block@ =~= rest.subrange(n as int, (n + 512) as int));
            assert(reader.remaining() =~= rest.skip((n + 512) as int));
            header.load_link(&block, reader, true)?;
        } else {
            header.load_link(buf, reader, false)?;
        }
        header.saved_blocks = header.get_used_blocks();
        Ok(Some(header))
    }
}

impl GnuHeader {
    /// The file mode.
    pub fn get_mode(&self) -> (v: u32)
        ensures
            v == self@.fields.mode,
    {
        self.mode
    }

    /// Sets the file mode.
    pub fn set_mode(&mut self, v: u32)
        ensures
            final(self)@ == (GnuView {
                fields: GnuFields { mode: v, ..old(self)@.fields },
                ..old(self)@
            }),
    {
        self.mode = v;
    }

    /// The user ID of the owner.
    pub fn get_uid(&self) -> (v: u32)
        ensures
            v == self@.fields.uid,
    {
        self.uid
    }

    /// Sets the user ID of the owner.
    pub fn set_uid(&mut self, v: u32)
        ensures
            final(self)@ == (GnuView {
                fields: GnuFields { uid: v, ..old(self)@.fields },
                ..old(self)@
            }),
    {
        self.uid = v;
    }

    /// The group ID of the owner.
    pub fn get_gid(&self) -> (v: u32)
        ensures
            v == self@.fields.gid,
    {
        self.gid
    }

    /// Sets the group ID of the owner.
    pub fn set_gid(&mut self, v: u32)
        ensures
            final(self)@ == (GnuView {
                fields: GnuFields { gid: v, ..old(self)@.fields },
                ..old(self)@
            }),
    {
        self.gid = v;
    }

    /// Sets the size in bytes.
    pub fn set_size(&mut self, v: u64)
        ensures
            final(self)@ == (GnuView {
                fields: GnuFields { size: v, ..old(self)@.fields },
                ..old(self)@
            }),
    {
        self.size = v;
    }

    /// The modification time.
    pub fn get_mtime(&self) -> (v: u64)
        ensures
            v == self@.fields.mtime,
    {
        self.mtime
    }

    /// Sets the modification time.
    pub fn set_mtime(&mut self, v: u64)
        ensures
            final(self)@ == (GnuView {
                fields: GnuFields { mtime: v, ..old(self)@.fields },
                ..old(self)@
            }),
    {
        self.mtime = v;
    }

    /// The checksum of the header.
    pub fn get_chksum(&self) -> (v: u32)
        ensures
            v == self@.fields.chksum,
    {
        self.chksum
    }

    /// Sets the checksum of the header.
    pub fn set_chksum(&mut self, v: u32)
        ensures
            final(self)@ == (GnuView {
                fields: GnuFields { chksum: v, ..old(self)@.fields },
                ..old(self)@
            }),
    {
        self.chksum = v;
    }

    /// Sets the type flag.
    pub fn set_typeflag(&mut self, v: GnuTypeFlag)
        ensures
            final(self)@ == (GnuView {
                fields: GnuFields { typeflag: v, ..old(self)@.fields },
                ..old(self)@
            }),
    {
        self.typeflag = v;
    }

    /// The magic of the flavour.
    pub fn get_magic(&self) -> (v: &str)
        ensures
            v@ == self@.fields.ext.magic,
    {
        self.magic.as_str()
    }

    /// Sets the magic of the flavour.
    pub fn set_magic(&mut self, v: String)
        ensures
            final(self)@ == (GnuView {
                fields: GnuFields {
                    ext: ExtFields { magic: v@, ..old(self)@.fields.ext },
                    ..old(self)@.fields
                },
                ..old(self)@
            }),
    {
        self.magic = v;
    }

    /// The version of the flavour.
    pub fn get_version(&self) -> (v: &str)
        ensures
            v@ == self@.fields.ext.version,
    {
        self.version.as_str()
    }

    /// Sets the version of the flavour.
    pub fn set_version(&mut self, v: String)
        ensures
            final(self)@ == (GnuView {
                fields: GnuFields {
                    ext: ExtFields { version: v@, ..old(self)@.fields.ext },
                    ..old(self)@.fields
                },
                ..old(self)@
            }),
    {
        self.version = v;
    }

    /// The user name of the owner.
    pub fn get_uname(&self) -> (v: &str)
        ensures
            v@ == self@.fields.ext.uname,
    {
        self.uname.as_str()
    }

    /// Sets the user name of the owner.
    pub fn set_uname(&mut self, v: String)
        ensures
            final(self)@ == (GnuView {
                fields: GnuFields {
                    ext: ExtFields { uname: v@, ..old(self)@.fields.ext },
                    ..old(self)@.fields
                },
                ..old(self)@
            }),
    {
        self.uname = v;
    }

    /// The group name of the owner.
    pub fn get_gname(&self) -> (v: &str)
        ensures
            v@ == self@.fields.ext.gname,
    {
        self.gname.as_str()
    }

    /// Sets the group name of the owner.
    pub fn set_gname(&mut self, v: String)
        ensures
            final(self)@ == (GnuView {
                fields: GnuFields {
                    ext: ExtFields { gname: v@, ..old(self)@.fields.ext },
                    ..old(self)@.fields
                },
                ..old(self)@
            }),
    {
        self.gname = v;
    }

    /// The major number of the device.
    pub fn get_devmajor(&self) -> (v: u32)
        ensures
            v == self@.fields.ext.devmajor,
    {
        self.devmajor
    }

    /// Sets the major number of the device.
    pub fn set_devmajor(&mut self, v: u32)
        ensures
            final(self)@ == (GnuView {
                fields: GnuFields {
                    ext: ExtFields { devmajor: v, ..old(self)@.fields.ext },
                    ..old(self)@.fields
                },
                ..old(self)@
            }),
    {
        self.devmajor = v;
    }

    /// The minor number of the device.
    pub fn get_devminor(&self) -> (v: u32)
        ensures
            v == self@.fields.ext.devminor,
    {
        self.devminor
    }

    /// Sets the minor number of the device.
    pub fn set_devminor(&mut self, v: u32)
        ensures
            final(self)@ == (GnuView {
                fields: GnuFields {
                    ext: ExtFields { devminor: v, ..old(self)@.fields.ext },
                    ..old(self)@.fields
                },
                ..old(self)@
            }),
    {
        self.devminor = v;
    }

    /// The mark of extension blocks.
    pub fn get_isextended(&self) -> (v: bool)
        ensures
            v == self@.fields.isextended,
    {
        self.isextended
    }

    /// Sets the mark of extension blocks.
    pub fn set_isextended(&mut self, v: bool)
        ensures
            final(self)@ == (GnuView {
                fields: GnuFields { isextended: v, ..old(self)@.fields },
                ..old(self)@
            }),
    {
        self.isextended = v;
    }

    /// The real size of a sparse file.
    pub fn get_realsize(&self) -> (v: Option<u64>)
        ensures
            v == self@.fields.realsize,
    {
        self.realsize
    }

    /// Sets the real size of a sparse file.
    pub fn set_realsize(&mut self, v: Option<u64>)
        ensures
            final(self)@ == (GnuView {
                fields: GnuFields { realsize: v, ..old(self)@.fields },
                ..old(self)@
            }),
    {
        self.realsize = v;
    }

    /// The access time.
    pub fn get_atime(&self) -> (v: Option<u64>)
        ensures
            v == self@.fields.atime,
    {
        self.atime
    }

    /// Sets the access time.
    pub fn set_atime(&mut self, v: Option<u64>)
        ensures
            final(self)@ == (GnuView {
                fields: GnuFields { atime: v, ..old(self)@.fields },
                ..old(self)@
            }),
    {
        self.atime = v;
    }

    /// The change time.
    pub fn get_ctime(&self) -> (v: Option<u64>)
        ensures
            v == self@.fields.ctime,
    {
        self.ctime
    }

    /// Sets the change time.
    pub fn set_ctime(&mut self, v: Option<u64>)
        ensures
            final(self)@ == (GnuView {
                fields: GnuFields { ctime: v, ..old(self)@.fields },
                ..old(self)@
            }),
    {
        self.ctime = v;
    }

    /// The text of an incremental dump.
    pub fn get_incremental(&self) -> (v: Option<&str>)
        ensures
            match v {
                Some(text) => self@.fields.incremental == Some(text@),
                None => self@.fields.incremental is None,
            },
    {
        match &self.incremental {
            Some(text) => Some(text.as_str()),
            None => None,
        }
    }

    /// Sets the text of an incremental dump.
    pub fn set_incremental(&mut self, v: Option<String>)
        ensures
            final(self)@ == (GnuView {
                fields: GnuFields { incremental: opt_chars(v), ..old(self)@.fields },
                ..old(self)@
            }),
    {
        self.incremental = v;
    }

    /// The bytes that are kept as read.
    pub fn get_gnu_extra(&self) -> (v: [u8; 12])
        ensures
            v@ == self@.fields.gnu_extra,
    {
        self.gnu_extra
    }

    /// Sets the bytes that are kept as read.
    pub fn set_gnu_extra(&mut self, v: [u8; 12])
        ensures
            final(self)@ == (GnuView {
                fields: GnuFields { gnu_extra: v@, ..old(self)@.fields },
                ..old(self)@
            }),
    {
        self.gnu_extra = v;
    }
}

} // verus!
