use vstd::prelude::*;
use vstd::std_specs::convert::FromSpecImpl;
use vstd::utf8::encode_utf8;
use crate::error::HeaderError;
use super::fields::{
    core_bytes, core_fits, core_parse, ext_bytes, ext_fits, ext_parse, lemma_core_layout,
    lemma_core_round_trip, lemma_ext_layout, lemma_ext_round_trip, load_core, load_ext,
    push_core, push_ext, push_text, CoreFields, ExtFields,
};
use super::helper::{
    append_bytes, append_zeros, checksum_of, get_str, lemma_text_round_trip, seal, sealed,
    text_field, text_fits, text_parse, zeros,
};
use super::traits::{FileKind, IsTypeTrait, UsedBlocksTrait};

verus! {

/// USTAR header type flag.
#[derive(Debug, Clone, Copy, PartialEq, Eq, Structural)]
pub enum UstarTypeFlag {
    RegularFile,
    HardLink,
    SymbolicLink,
    CharacterSpecial,
    BlockSpecial,
    Directory,
    FIFO,
    ContiguousFile,
    Unknown(u8),
}

/// The USTAR type flag that a byte stands for.
pub open spec fn ustar_flag(value: u8) -> UstarTypeFlag {
    if value == 0x30 {
        UstarTypeFlag::RegularFile
    } else if value == 0x31 {
        UstarTypeFlag::HardLink
    } else if value == 0x32 {
        UstarTypeFlag::SymbolicLink
    } else if value == 0x33 {
        UstarTypeFlag::CharacterSpecial
    } else if value == 0x34 {
        UstarTypeFlag::BlockSpecial
    } else if value == 0x35 {
        UstarTypeFlag::Directory
    } else if value == 0x36 {
        UstarTypeFlag::FIFO
    } else if value == 0x37 {
        UstarTypeFlag::ContiguousFile
    } else {
        UstarTypeFlag::Unknown(value)
    }
}

/// The byte that stands for a USTAR type flag.
pub open spec fn ustar_flag_byte(flag: UstarTypeFlag) -> u8 {
    match flag {
        UstarTypeFlag::RegularFile => 0x30,
        UstarTypeFlag::HardLink => 0x31,
        UstarTypeFlag::SymbolicLink => 0x32,
        UstarTypeFlag::CharacterSpecial => 0x33,
        UstarTypeFlag::BlockSpecial => 0x34,
        UstarTypeFlag::Directory => 0x35,
        UstarTypeFlag::FIFO => 0x36,
        UstarTypeFlag::ContiguousFile => 0x37,
        UstarTypeFlag::Unknown(v) => v,
    }
}

impl From<u8> for UstarTypeFlag {
    fn from(value: u8) -> (flag: Self) {
        match value {
            0x30u8 => UstarTypeFlag::RegularFile,
            0x31u8 => UstarTypeFlag::HardLink,
            0x32u8 => UstarTypeFlag::SymbolicLink,
            0x33u8 => UstarTypeFlag::CharacterSpecial,
            0x34u8 => UstarTypeFlag::BlockSpecial,
            0x35u8 => UstarTypeFlag::Directory,
            0x36u8 => UstarTypeFlag::FIFO,
            0x37u8 => UstarTypeFlag::ContiguousFile,
            v => UstarTypeFlag::Unknown(v),
        }
    }
}

impl FromSpecImpl<u8> for UstarTypeFlag {
    open spec fn obeys_from_spec() -> bool {
        true
    }

    open spec fn from_spec(value: u8) -> Self {
        ustar_flag(value)
    }
}

impl From<UstarTypeFlag> for u8 {
    fn from(value: UstarTypeFlag) -> (byte: Self) {
        match value {
            UstarTypeFlag::RegularFile => 0x30u8,
            UstarTypeFlag::HardLink => 0x31u8,
            UstarTypeFlag::SymbolicLink => 0x32u8,
            UstarTypeFlag::CharacterSpecial => 0x33u8,
            UstarTypeFlag::BlockSpecial => 0x34u8,
            UstarTypeFlag::Directory => 0x35u8,
            UstarTypeFlag::FIFO => 0x36u8,
            UstarTypeFlag::ContiguousFile => 0x37u8,
            UstarTypeFlag::Unknown(v) => v,
        }
    }
}

impl FromSpecImpl<UstarTypeFlag> for u8 {
    open spec fn obeys_from_spec() -> bool {
        true
    }

    open spec fn from_spec(value: UstarTypeFlag) -> Self {
        ustar_flag_byte(value)
    }
}

impl IsTypeTrait for UstarTypeFlag {
    open spec fn kind(&self) -> FileKind {
        match *self {
            UstarTypeFlag::RegularFile => FileKind::RegularFile,
            UstarTypeFlag::HardLink => FileKind::HardLink,
            UstarTypeFlag::SymbolicLink => FileKind::SymbolicLink,
            UstarTypeFlag::CharacterSpecial => FileKind::CharacterSpecial,
            UstarTypeFlag::BlockSpecial => FileKind::BlockSpecial,
            UstarTypeFlag::Directory => FileKind::Directory,
            UstarTypeFlag::FIFO => FileKind::Fifo,
            UstarTypeFlag::ContiguousFile => FileKind::ContiguousFile,
            UstarTypeFlag::Unknown(_) => FileKind::Other,
        }
    }

    fn is_regular_file(&self) -> (b: bool) {
        matches!(self, UstarTypeFlag::RegularFile)
    }

    fn is_hard_link(&self) -> (b: bool) {
        matches!(self, UstarTypeFlag::HardLink)
    }

    fn is_symbolic_link(&self) -> (b: bool) {
        matches!(self, UstarTypeFlag::SymbolicLink)
    }

    fn is_character_special(&self) -> (b: bool) {
        matches!(self, UstarTypeFlag::CharacterSpecial)
    }

    fn is_block_special(&self) -> (b: bool) {
        matches!(self, UstarTypeFlag::BlockSpecial)
    }

    fn is_directory(&self) -> (b: bool) {
        matches!(self, UstarTypeFlag::Directory)
    }

    fn is_fifo(&self) -> (b: bool) {
        matches!(self, UstarTypeFlag::FIFO)
    }

    fn is_contiguous_file(&self) -> (b: bool) {
        matches!(self, UstarTypeFlag::ContiguousFile)
    }
}

/// Represents a USTAR TAR header (POSIX).
#[derive(Debug, Clone, PartialEq)]
pub struct UstarHeader {
    /// File name.
    pub name: String,
    /// File mode.
    pub mode: u32,
    /// Owner user ID.
    pub uid: u32,
    /// Owner group ID.
    pub gid: u32,
    /// File size in bytes.
    pub size: u64,
    /// Modification time.
    pub mtime: u64,
    /// Header checksum.
    pub chksum: u32,
    /// Type flag.
    pub typeflag: UstarTypeFlag,
    /// Name of linked file.
    pub linkname: String,
    /// USTAR indicator "ustar".
    pub magic: String,
    /// USTAR version "00".
    pub version: String,
    /// Owner user name.
    pub uname: String,
    /// Owner group name.
    pub gname: String,
    /// Device major number.
    pub devmajor: u32,
    /// Device minor number.
    pub devminor: u32,
    /// Filename prefix.
    pub prefix: String,
    /// The used blocks saved.
    saved_blocks: usize,
}

/// The fields of a USTAR header block, as values.
pub ghost struct UstarFields {
    pub core: CoreFields,
    pub ext: ExtFields,
    pub prefix: Seq<char>,
}

/// A USTAR header as values.
pub ghost struct UstarView {
    /// The fields as they stand in the block, the type flag as its byte.
    pub fields: UstarFields,
    /// The type flag.
    pub typeflag: UstarTypeFlag,
    /// The number of blocks that the header took when it was last read or
    /// written.
    pub saved_blocks: nat,
}

impl View for UstarHeader {
    type V = UstarView;

    closed spec fn view(&self) -> UstarView {
        UstarView {
            fields: UstarFields {
                core: CoreFields {
                    name: self.name@,
                    mode: self.mode,
                    uid: self.uid,
                    gid: self.gid,
                    size: self.size,
                    mtime: self.mtime,
                    chksum: self.chksum,
                    flag: ustar_flag_byte(self.typeflag),
                    linkname: self.linkname@,
                },
                ext: ExtFields {
                    magic: self.magic@,
                    version: self.version@,
                    uname: self.uname@,
                    gname: self.gname@,
                    devmajor: self.devmajor,
                    devminor: self.devminor,
                },
                prefix: self.prefix@,
            },
            typeflag: self.typeflag,
            saved_blocks: self.saved_blocks as nat,
        }
    }
}

/// True when the block carries the USTAR magic, followed by a NUL byte or a
/// space.
pub open spec fn has_ustar_magic(b: Seq<u8>) -> bool {
    &&& b[257] == 0x75
    &&& b[258] == 0x73
    &&& b[259] == 0x74
    &&& b[260] == 0x61
    &&& b[261] == 0x72
    &&& (b[262] == 0x20 || b[262] == 0)
}

/// True when the block carries the USTAR version, "00".
pub open spec fn has_ustar_version(b: Seq<u8>) -> bool {
    b[263] == 0x30 && b[264] == 0x30
}

/// A USTAR header block before its checksum is written.
pub open spec fn ustar_raw(f: UstarFields) -> Seq<u8> {
    core_bytes(f.core) + ext_bytes(f.ext) + text_field(encode_utf8(f.prefix), 155) + zeros(12)
}

/// The block of a USTAR header.
pub open spec fn ustar_block(f: UstarFields) -> Seq<u8> {
    sealed(ustar_raw(f))
}

/// What reading the fields of a block in the USTAR layout gives: the fields,
/// or the first error among them in the order in which they stand.
#[verifier::opaque]
pub open spec fn ustar_fields_parse(b: Seq<u8>) -> Result<UstarFields, HeaderError> {
    match core_parse(b, false, false) {
        Err(e) => Err(e),
        Ok(core) => match ext_parse(b) {
            Err(e) => Err(e),
            Ok(ext) => match text_parse(b.subrange(345, 500), 0) {
                Err(e) => Err(e),
                Ok(prefix) => Ok(UstarFields { core, ext, prefix }),
            },
        },
    }
}

/// What reading a block as a USTAR header gives: nothing where the magic or
/// the version is not of USTAR, else the fields or the first error among
/// them. A type flag that is none of USTAR is kept as it is.
pub open spec fn ustar_parse(b: Seq<u8>) -> Result<Option<UstarFields>, HeaderError> {
    if !has_ustar_magic(b) || !has_ustar_version(b) {
        Ok(None)
    } else {
        match ustar_fields_parse(b) {
            Ok(f) => Ok(Some(f)),
            Err(e) => Err(e),
        }
    }
}

/// Tells whether the block carries the USTAR magic.
pub fn check_ustar_magic(buf: &[u8; 512]) -> (ok: bool)
    ensures
        ok == has_ustar_magic(buf@),
{
    buf[257] == 0x75 && buf[258] == 0x73 && buf[259] == 0x74 && buf[260] == 0x61 && buf[261]
        == 0x72 && (buf[262] == 0x20 || buf[262] == 0)
}

/// The fields of a block in the USTAR layout, as read.
pub struct UstarParts {
    pub core: super::fields::Core,
    pub ext: super::fields::Ext,
    pub prefix: String,
}

impl View for UstarParts {
    type V = UstarFields;

    open spec fn view(&self) -> UstarFields {
        UstarFields { core: self.core@, ext: self.ext@, prefix: self.prefix@ }
    }
}

/// Reads the fields of a block in the USTAR layout.
pub fn load_ustar_fields(buf: &[u8; 512]) -> (r: Result<UstarParts, HeaderError>)
    ensures
        match r {
            Ok(p) => ustar_fields_parse(buf@) == Ok::<UstarFields, HeaderError>(p@)
                && p@.core.flag == buf@[156],
            Err(e) => ustar_fields_parse(buf@) == Err::<UstarFields, HeaderError>(e),
        },
{
    reveal(ustar_fields_parse);
    let core = load_core(buf, false, false)?;
    let ext = load_ext(buf)?;
    let prefix = get_str(&buf[345..500])?;
    Ok(UstarParts { core, ext, prefix })
}

impl UstarHeader {
    /// Creates a new USTAR header, with the magic and the version of USTAR.
    pub fn new(typeflag: UstarTypeFlag) -> (h: Self)
        ensures
            h@ == (UstarView {
                fields: UstarFields {
                    core: CoreFields {
                        name: Seq::<char>::empty(),
                        mode: 0,
                        uid: 0,
                        gid: 0,
                        size: 0,
                        mtime: 0,
                        chksum: 0,
                        flag: ustar_flag_byte(typeflag),
                        linkname: Seq::<char>::empty(),
                    },
                    ext: ExtFields {
                        magic: "ustar\0"@,
                        version: "00"@,
                        uname: Seq::<char>::empty(),
                        gname: Seq::<char>::empty(),
                        devmajor: 0,
                        devminor: 0,
                    },
                    prefix: Seq::<char>::empty(),
                },
                typeflag,
                saved_blocks: 0,
            }),
    {
        UstarHeader {
            name: String::new(),
            mode: 0,
            uid: 0,
            gid: 0,
            size: 0,
            mtime: 0,
            chksum: 0,
            typeflag,
            linkname: String::new(),
            magic: "ustar\0".to_owned(),
            version: "00".to_owned(),
            uname: String::new(),
            gname: String::new(),
            devmajor: 0,
            devminor: 0,
            prefix: String::new(),
            saved_blocks: 0,
        }
    }

    /// Creates the header of a regular file with the given name and size.
    pub fn for_file(name: String, size: u64) -> (h: Self)
        ensures
            h@ == (UstarView {
                fields: UstarFields {
                    core: CoreFields {
                        name: name@,
                        mode: 0,
                        uid: 0,
                        gid: 0,
                        size,
                        mtime: 0,
                        chksum: 0,
                        flag: 0x30,
                        linkname: Seq::<char>::empty(),
                    },
                    ext: ExtFields {
                        magic: "ustar\0"@,
                        version: "00"@,
                        uname: Seq::<char>::empty(),
                        gname: Seq::<char>::empty(),
                        devmajor: 0,
                        devminor: 0,
                    },
                    prefix: Seq::<char>::empty(),
                },
                typeflag: UstarTypeFlag::RegularFile,
                saved_blocks: 0,
            }),
    {
        let mut h = UstarHeader::new(UstarTypeFlag::RegularFile);
        h.name = name;
        h.size = size;
        h
    }

    /// The size of the content in bytes.
    pub fn content_size(&self) -> (size: u64)
        ensures
            size == self@.fields.core.size,
    {
        self.size
    }

    /// The type flag, whose byte is the flag byte of the fields.
    pub fn type_flag(&self) -> (flag: UstarTypeFlag)
        ensures
            flag == self@.typeflag,
            self@.fields.core.flag == ustar_flag_byte(flag),
    {
        self.typeflag
    }

    /// Loads a USTAR header from the block. A block whose magic or version
    /// is not of USTAR gives `None`.
    pub fn load(buf: &[u8; 512]) -> (r: Result<Option<Self>, HeaderError>)
        ensures
            match r {
                Ok(Some(h)) => ustar_parse(buf@) == Ok::<Option<UstarFields>, HeaderError>(
                    Some(h@.fields),
                ) && h@.typeflag == ustar_flag(buf@[156]) && h@.typeflag == ustar_flag(
                    h@.fields.core.flag,
                ) && h@.saved_blocks == 1,
                Ok(None) => ustar_parse(buf@) == Ok::<Option<UstarFields>, HeaderError>(None),
                Err(e) => ustar_parse(buf@) == Err::<Option<UstarFields>, HeaderError>(e),
            },
    {
        if !check_ustar_magic(buf) || buf[263] != 0x30 || buf[264] != 0x30 {
            return Ok(None);
        }
        let typeflag = UstarTypeFlag::from(buf[156]);
        let parts = load_ustar_fields(buf)?;
        Ok(
            Some(
                UstarHeader {
                    name: parts.core.name,
                    mode: parts.core.mode,
                    uid: parts.core.uid,
                    gid: parts.core.gid,
                    size: parts.core.size,
                    mtime: parts.core.mtime,
                    chksum: parts.core.chksum,
                    typeflag,
                    linkname: parts.core.linkname,
                    magic: parts.ext.magic,
                    version: parts.ext.version,
                    uname: parts.ext.uname,
                    gname: parts.ext.gname,
                    devmajor: parts.ext.devmajor,
                    devminor: parts.ext.devminor,
                    prefix: parts.prefix,
                    saved_blocks: 1,
                },
            ),
        )
    }

    /// Appends the block of the header to the writer.
    pub fn save(&mut self, writer: &mut Vec<u8>)
        ensures
            final(writer)@ == old(writer)@ + ustar_block(old(self)@.fields),
            final(self)@ == (UstarView { saved_blocks: 1, ..old(self)@ }),
    {
        let mut block: Vec<u8> = Vec::new();
        push_core(
            &mut block,
            self.name.as_str(),
            self.mode,
            self.uid,
            self.gid,
            self.size,
            self.mtime,
            u8::from(self.typeflag),
            self.linkname.as_str(),
        );
        push_ext(
            &mut block,
            self.magic.as_str(),
            self.version.as_str(),
            self.uname.as_str(),
            self.gname.as_str(),
            self.devmajor,
            self.devminor,
        );
        push_text(&mut block, self.prefix.as_str(), 155);
        append_zeros(&mut block, 12);
        proof {
            let f = self@.fields;
            lemma_core_layout(f.core);
            lemma_ext_layout(f.ext);
            assert(core_bytes(CoreFields { chksum: 0, ..f.core }) == core_bytes(f.core));
            assert(block@ =~= ustar_raw(f));
        }
        let chksum = seal(&mut block);
        append_bytes(writer, block.as_slice());
        self.saved_blocks = 1;
    }
}

impl UsedBlocksTrait for UstarHeader {
    open spec fn blocks(&self) -> nat {
        1
    }

    open spec fn countable(&self) -> bool {
        true
    }

    open spec fn cache_valid(&self) -> bool {
        true
    }

    open spec fn saved(&self) -> nat {
        self@.saved_blocks
    }

    fn calc_used_blocks(&self) -> (n: usize) {
        1
    }

    fn get_used_blocks(&mut self) -> (n: usize)
        ensures
            final(self)@ == old(self)@,
    {
        1
    }

    fn get_saved_blocks(&self) -> (n: usize) {
        self.saved_blocks
    }
}

/// True when the fields of a block in the USTAR layout are read back from
/// their places.
pub open spec fn ustar_fits(f: UstarFields) -> bool {
    &&& core_fits(f.core)
    &&& ext_fits(f.ext)
    &&& text_fits(f.prefix, 155)
}

/// The fields of a block in the USTAR layout are read back from the sealed
/// block, with the checksum that was computed.
pub proof fn lemma_ustar_fields_round_trip(f: UstarFields)
    requires
        ustar_fits(f),
    ensures
        ustar_block(f).len() == 512,
        ustar_block(f)[156] == f.core.flag,
        ustar_block(f).subrange(257, 265) == text_field(encode_utf8(f.ext.magic), 6) + text_field(
            encode_utf8(f.ext.version),
            2,
        ),
        ustar_fields_parse(ustar_block(f)) == Ok::<UstarFields, HeaderError>(
            UstarFields {
                core: CoreFields { chksum: checksum_of(ustar_raw(f)), ..f.core },
                ..f
            },
        ),
{
    reveal(ustar_fields_parse);
    let raw = ustar_raw(f);
    let s = sealed(raw);
    lemma_core_layout(f.core);
    lemma_ext_layout(f.ext);
    assert(raw.take(257) =~= core_bytes(f.core));
    assert(raw.subrange(257, 345) =~= ext_bytes(f.ext));
    lemma_core_round_trip(f.core, raw);
    lemma_ext_round_trip(f.ext, raw);
    assert(s.subrange(345, 500) =~= text_field(encode_utf8(f.prefix), 155));
    lemma_text_round_trip(f.prefix, 155);
    assert(s[156] == raw[156]);
    assert(raw[156] == core_bytes(f.core)[156]);
    assert(s.subrange(257, 265) =~= ext_bytes(f.ext).subrange(0, 6) + ext_bytes(f.ext).subrange(
        6,
        8,
    ));
}

/// Round trip: a USTAR header whose fields fit their places, whose magic is
/// "ustar" with a NUL byte or a space and whose version is "00" is read back
/// from the block written for it, with the checksum that was computed.
pub proof fn lemma_ustar_round_trip(f: UstarFields)
    requires
        ustar_fits(f),
        encode_utf8(f.ext.magic) == seq![0x75u8, 0x73u8, 0x74u8, 0x61u8, 0x72u8, 0u8]
            || encode_utf8(f.ext.magic) == seq![0x75u8, 0x73u8, 0x74u8, 0x61u8, 0x72u8, 0x20u8],
        encode_utf8(f.ext.version) == seq![0x30u8, 0x30u8],
    ensures
        ustar_block(f).len() == 512,
        ustar_parse(ustar_block(f)) == Ok::<Option<UstarFields>, HeaderError>(
            Some(
                UstarFields {
                    core: CoreFields { chksum: checksum_of(ustar_raw(f)), ..f.core },
                    ..f
                },
            ),
        ),
{
    lemma_ustar_fields_round_trip(f);
    let s = ustar_block(f);
    let m = s.subrange(257, 265);
    assert(m[0] == s[257] && m[1] == s[258] && m[2] == s[259] && m[3] == s[260] && m[4] == s[261]
        && m[5] == s[262] && m[6] == s[263] && m[7] == s[264]);
}


/// A block in the USTAR layout has 512 bytes, with and without its checksum.
pub proof fn lemma_ustar_raw_len(f: UstarFields)
    ensures
        ustar_raw(f).len() == 512,
        ustar_block(f).len() == 512,
{
    lemma_core_layout(f.core);
    lemma_ext_layout(f.ext);
    super::helper::lemma_octal_field_len(checksum_of(ustar_raw(f)) as nat, 7);
}

impl UstarHeader {
    /// The file name.
    pub fn get_name(&self) -> (v: &str)
        ensures
            v@ == self@.fields.core.name,
    {
        self.name.as_str()
    }

    /// Sets the file name.
    pub fn set_name(&mut self, v: String)
        ensures
            final(self)@ == (UstarView {
                fields: UstarFields {
                    core: CoreFields { name: v@, ..old(self)@.fields.core },
                    ..old(self)@.fields
                },
                ..old(self)@
            }),
    {
        self.name = v;
    }

    /// The file mode.
    pub fn get_mode(&self) -> (v: u32)
        ensures
            v == self@.fields.core.mode,
    {
        self.mode
    }

    /// Sets the file mode.
    pub fn set_mode(&mut self, v: u32)
        ensures
            final(self)@ == (UstarView {
                fields: UstarFields {
                    core: CoreFields { mode: v, ..old(self)@.fields.core },
                    ..old(self)@.fields
                },
                ..old(self)@
            }),
    {
        self.mode = v;
    }

    /// The user ID of the owner.
    pub fn get_uid(&self) -> (v: u32)
        ensures
            v == self@.fields.core.uid,
    {
        self.uid
    }

    /// Sets the user ID of the owner.
    pub fn set_uid(&mut self, v: u32)
        ensures
            final(self)@ == (UstarView {
                fields: UstarFields {
                    core: CoreFields { uid: v, ..old(self)@.fields.core },
                    ..old(self)@.fields
                },
                ..old(self)@
            }),
    {
        self.uid = v;
    }

    /// The group ID of the owner.
    pub fn get_gid(&self) -> (v: u32)
        ensures
            v == self@.fields.core.gid,
    {
        self.gid
    }

    /// Sets the group ID of the owner.
    pub fn set_gid(&mut self, v: u32)
        ensures
            final(self)@ == (UstarView {
                fields: UstarFields {
                    core: CoreFields { gid: v, ..old(self)@.fields.core },
                    ..old(self)@.fields
                },
                ..old(self)@
            }),
    {
        self.gid = v;
    }

    /// Sets the size in bytes.
    pub fn set_size(&mut self, v: u64)
        ensures
            final(self)@ == (UstarView {
                fields: UstarFields {
                    core: CoreFields { size: v, ..old(self)@.fields.core },
                    ..old(self)@.fields
                },
                ..old(self)@
            }),
    {
        self.size = v;
    }

    /// The modification time.
    pub fn get_mtime(&self) -> (v: u64)
        ensures
            v == self@.fields.core.mtime,
    {
        self.mtime
    }

    /// Sets the modification time.
    pub fn set_mtime(&mut self, v: u64)
        ensures
            final(self)@ == (UstarView {
                fields: UstarFields {
                    core: CoreFields { mtime: v, ..old(self)@.fields.core },
                    ..old(self)@.fields
                },
                ..old(self)@
            }),
    {
        self.mtime = v;
    }

    /// The checksum of the header.
    pub fn get_chksum(&self) -> (v: u32)
        ensures
            v == self@.fields.core.chksum,
    {
        self.chksum
    }

    /// Sets the checksum of the header.
    pub fn set_chksum(&mut self, v: u32)
        ensures
            final(self)@ == (UstarView {
                fields: UstarFields {
                    core: CoreFields { chksum: v, ..old(self)@.fields.core },
                    ..old(self)@.fields
                },
                ..old(self)@
            }),
    {
        self.chksum = v;
    }

    /// The name of the linked file.
    pub fn get_linkname(&self) -> (v: &str)
        ensures
            v@ == self@.fields.core.linkname,
    {
        self.linkname.as_str()
    }

    /// Sets the name of the linked file.
    pub fn set_linkname(&mut self, v: String)
        ensures
            final(self)@ == (UstarView {
                fields: UstarFields {
                    core: CoreFields { linkname: v@, ..old(self)@.fields.core },
                    ..old(self)@.fields
                },
                ..old(self)@
            }),
    {
        self.linkname = v;
    }

    /// The magic of the flavour.
    pub fn get_magic(&self) -> (v: &str)
        ensures
            v@ == self@.fields.ext.magic,
    {
        self.magic.as_str()
    }

    /// Sets the magic of the flavour.
    pub fn set_magic(&mut self, v: String)
        ensures
            final(self)@ == (UstarView {
                fields: UstarFields {
                    ext: ExtFields { magic: v@, ..old(self)@.fields.ext },
                    ..old(self)@.fields
                },
                ..old(self)@
            }),
    {
        self.magic = v;
    }

    /// The version of the flavour.
    pub fn get_version(&self) -> (v: &str)
        ensures
            v@ == self@.fields.ext.version,
    {
        self.version.as_str()
    }

    /// Sets the version of the flavour.
    pub fn set_version(&mut self, v: String)
        ensures
            final(self)@ == (UstarView {
                fields: UstarFields {
                    ext: ExtFields { version: v@, ..old(self)@.fields.ext },
                    ..old(self)@.fields
                },
                ..old(self)@
            }),
    {
        self.version = v;
    }

    /// The user name of the owner.
    pub fn get_uname(&self) -> (v: &str)
        ensures
            v@ == self@.fields.ext.uname,
    {
        self.uname.as_str()
    }

    /// Sets the user name of the owner.
    pub fn set_uname(&mut self, v: String)
        ensures
            final(self)@ == (UstarView {
                fields: UstarFields {
                    ext: ExtFields { uname: v@, ..old(self)@.fields.ext },
                    ..old(self)@.fields
                },
                ..old(self)@
            }),
    {
        self.uname = v;
    }

    /// The group name of the owner.
    pub fn get_gname(&self) -> (v: &str)
        ensures
            v@ == self@.fields.ext.gname,
    {
        self.gname.as_str()
    }

    /// Sets the group name of the owner.
    pub fn set_gname(&mut self, v: String)
        ensures
            final(self)@ == (UstarView {
                fields: UstarFields {
                    ext: ExtFields { gname: v@, ..old(self)@.fields.ext },
                    ..old(self)@.fields
                },
                ..old(self)@
            }),
    {
        self.gname = v;
    }

    /// The major number of the device.
    pub fn get_devmajor(&self) -> (v: u32)
        ensures
            v == self@.fields.ext.devmajor,
    {
        self.devmajor
    }

    /// Sets the major number of the device.
    pub fn set_devmajor(&mut self, v: u32)
        ensures
            final(self)@ == (UstarView {
                fields: UstarFields {
                    ext: ExtFields { devmajor: v, ..old(self)@.fields.ext },
                    ..old(self)@.fields
                },
                ..old(self)@
            }),
    {
        self.devmajor = v;
    }

    /// The minor number of the device.
    pub fn get_devminor(&self) -> (v: u32)
        ensures
            v == self@.fields.ext.devminor,
    {
        self.devminor
    }

    /// Sets the minor number of the device.
    pub fn set_devminor(&mut self, v: u32)
        ensures
            final(self)@ == (UstarView {
                fields: UstarFields {
                    ext: ExtFields { devminor: v, ..old(self)@.fields.ext },
                    ..old(self)@.fields
                },
                ..old(self)@
            }),
    {
        self.devminor = v;
    }

    /// The prefix of the file name.
    pub fn get_prefix(&self) -> (v: &str)
        ensures
            v@ == self@.fields.prefix,
    {
        self.prefix.as_str()
    }

    /// Sets the prefix of the file name.
    pub fn set_prefix(&mut self, v: String)
        ensures
            final(self)@ == (UstarView {
                fields: UstarFields { prefix: v@, ..old(self)@.fields },
                ..old(self)@
            }),
    {
        self.prefix = v;
    }

    /// Sets the type flag.
    pub fn set_typeflag(&mut self, v: UstarTypeFlag)
        ensures
            final(self)@ == (UstarView {
                fields: UstarFields {
                    core: CoreFields { flag: ustar_flag_byte(v), ..old(self)@.fields.core },
                    ..old(self)@.fields
                },
                typeflag: v,
                ..old(self)@
            }),
    {
        self.typeflag = v;
    }

    /// The flag byte of the fields is the byte of the type flag.
    pub proof fn lemma_flag_byte(&self)
        ensures
            self@.fields.core.flag == ustar_flag_byte(self@.typeflag),
    {
    }
}

} // verus!
