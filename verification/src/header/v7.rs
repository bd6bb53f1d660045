use vstd::prelude::*;
use vstd::std_specs::convert::FromSpecImpl;
use crate::error::HeaderError;
use super::fields::{
    core_bytes, core_fits, core_parse, lemma_core_layout, lemma_core_round_trip, load_core,
    push_core, CoreFields,
};
use super::helper::{append_bytes, append_zeros, checksum_of, seal, sealed, zeros};
use super::traits::{FileKind, IsTypeTrait, UsedBlocksTrait};

verus! {

/// V7 header type flag.
#[derive(Debug, Clone, Copy, PartialEq, Eq, Structural)]
#[allow(clippy::upper_case_acronyms)]
pub enum V7TypeFlag {
    RegularFile,
    HardLink,
    SymbolicLink,
    Directory,
    FIFO,
    Unknown(u8),
}

/// The V7 type flag that a byte stands for.
pub open spec fn v7_flag(value: u8) -> V7TypeFlag {
    if value == 0x30 {
        V7TypeFlag::RegularFile
    } else if value == 0x31 {
        V7TypeFlag::HardLink
    } else if value == 0x32 {
        V7TypeFlag::SymbolicLink
    } else if value == 0x35 {
        V7TypeFlag::Directory
    } else if value == 0x36 {
        V7TypeFlag::FIFO
    } else {
        V7TypeFlag::Unknown(value)
    }
}

/// The byte that stands for a V7 type flag.
pub open spec fn v7_flag_byte(flag: V7TypeFlag) -> u8 {
    match flag {
        V7TypeFlag::RegularFile => 0x30,
        V7TypeFlag::HardLink => 0x31,
        V7TypeFlag::SymbolicLink => 0x32,
        V7TypeFlag::Directory => 0x35,
        V7TypeFlag::FIFO => 0x36,
        V7TypeFlag::Unknown(v) => v,
    }
}

impl From<u8> for V7TypeFlag {
    fn from(value: u8) -> (flag: Self) {
        match value {
            0x30u8 => V7TypeFlag::RegularFile,
            0x31u8 => V7TypeFlag::HardLink,
            0x32u8 => V7TypeFlag::SymbolicLink,
            0x35u8 => V7TypeFlag::Directory,
            0x36u8 => V7TypeFlag::FIFO,
            v => V7TypeFlag::Unknown(v),
        }
    }
}

impl FromSpecImpl<u8> for V7TypeFlag {
    open spec fn obeys_from_spec() -> bool {
        true
    }

    open spec fn from_spec(value: u8) -> Self {
        v7_flag(value)
    }
}

impl From<V7TypeFlag> for u8 {
    fn from(value: V7TypeFlag) -> (byte: Self) {
        match value {
            V7TypeFlag::RegularFile => 0x30u8,
            V7TypeFlag::HardLink => 0x31u8,
            V7TypeFlag::SymbolicLink => 0x32u8,
            V7TypeFlag::Directory => 0x35u8,
            V7TypeFlag::FIFO => 0x36u8,
            V7TypeFlag::Unknown(v) => v,
        }
    }
}

impl FromSpecImpl<V7TypeFlag> for u8 {
    open spec fn obeys_from_spec() -> bool {
        true
    }

    open spec fn from_spec(value: V7TypeFlag) -> Self {
        v7_flag_byte(value)
    }
}

impl IsTypeTrait for V7TypeFlag {
    open spec fn kind(&self) -> FileKind {
        match *self {
            V7TypeFlag::RegularFile => FileKind::RegularFile,
            V7TypeFlag::HardLink => FileKind::HardLink,
            V7TypeFlag::SymbolicLink => FileKind::SymbolicLink,
            V7TypeFlag::Directory => FileKind::Directory,
            V7TypeFlag::FIFO => FileKind::Fifo,
            V7TypeFlag::Unknown(_) => FileKind::Other,
        }
    }

    fn is_regular_file(&self) -> (b: bool) {
        matches!(self, V7TypeFlag::RegularFile)
    }

    fn is_hard_link(&self) -> (b: bool) {
        matches!(self, V7TypeFlag::HardLink)
    }

    fn is_symbolic_link(&self) -> (b: bool) {
        matches!(self, V7TypeFlag::SymbolicLink)
    }

    fn is_character_special(&self) -> (b: bool) {
        false
    }

    fn is_block_special(&self) -> (b: bool) {
        false
    }

    fn is_directory(&self) -> (b: bool) {
        matches!(self, V7TypeFlag::Directory)
    }

    fn is_fifo(&self) -> (b: bool) {
        matches!(self, V7TypeFlag::FIFO)
    }

    fn is_contiguous_file(&self) -> (b: bool) {
        false
    }
}

/// Represents a V7 TAR header (Seventh Edition UNIX).
#[derive(Debug, Clone, PartialEq)]
pub struct V7Header {
    /// File name.
    pub name: String,
    /// File mode.
    pub mode: u32,
    /// Owner user ID.
    pub uid: u32,
    /// Owner group ID.
    pub gid: u32,
    /// File size in bytes.
    pub size: u64,
    /// Modification time.
    pub mtime: u64,
    /// Header checksum.
    pub chksum: u32,
    /// Type flag.
    pub typeflag: V7TypeFlag,
    /// Name of linked file.
    pub linkname: String,
    /// The used blocks saved.
    saved_blocks: usize,
}

/// A V7 header as values.
pub ghost struct V7View {
    /// The fields as they stand in the block, the type flag as its byte.
    pub fields: CoreFields,
    /// The type flag.
    pub typeflag: V7TypeFlag,
    /// The number of blocks that the header took when it was last read or
    /// written.
    pub saved_blocks: nat,
}

impl View for V7Header {
    type V = V7View;

    closed spec fn view(&self) -> V7View {
        V7View {
            fields: CoreFields {
                name: self.name@,
                mode: self.mode,
                uid: self.uid,
                gid: self.gid,
                size: self.size,
                mtime: self.mtime,
                chksum: self.chksum,
                flag: v7_flag_byte(self.typeflag),
                linkname: self.linkname@,
            },
            typeflag: self.typeflag,
            saved_blocks: self.saved_blocks as nat,
        }
    }
}

/// A V7 header block before its checksum is written: the shared fields, and
/// zeros up to the end.
pub open spec fn v7_raw(f: CoreFields) -> Seq<u8> {
    core_bytes(f) + zeros(255)
}

/// The block of a V7 header.
pub open spec fn v7_block(f: CoreFields) -> Seq<u8> {
    sealed(v7_raw(f))
}

/// What reading a block as a V7 header gives: nothing where the type flag is
/// none of V7, else the fields or the first error among them.
pub open spec fn v7_parse(b: Seq<u8>) -> Result<Option<CoreFields>, HeaderError> {
    if v7_flag(b[156]) is Unknown {
        Ok(None)
    } else {
        match core_parse(b, false, false) {
            Ok(f) => Ok(Some(f)),
            Err(e) => Err(e),
        }
    }
}

impl V7Header {
    /// Creates a new V7 header.
    pub fn new(typeflag: V7TypeFlag) -> (h: Self)
        ensures
            h@ == (V7View {
                fields: CoreFields {
                    name: Seq::<char>::empty(),
                    mode: 0,
                    uid: 0,
                    gid: 0,
                    size: 0,
                    mtime: 0,
                    chksum: 0,
                    flag: v7_flag_byte(typeflag),
                    linkname: Seq::<char>::empty(),
                },
                typeflag,
                saved_blocks: 0,
            }),
    {
        V7Header {
            name: String::new(),
            mode: 0,
            uid: 0,
            gid: 0,
            size: 0,
            mtime: 0,
            chksum: 0,
            typeflag,
            linkname: String::new(),
            saved_blocks: 0,
        }
    }

    /// The size of the content in bytes.
    pub fn content_size(&self) -> (size: u64)
        ensures
            size == self@.fields.size,
    {
        self.size
    }

    /// The type flag, whose byte is the flag byte of the fields.
    pub fn type_flag(&self) -> (flag: V7TypeFlag)
        ensures
            flag == self@.typeflag,
            self@.fields.flag == v7_flag_byte(flag),
    {
        self.typeflag
    }

    /// Loads a V7 header from the block. A block whose type flag is none of
    /// V7 gives `None`.
    pub fn load(buf: &[u8; 512]) -> (r: Result<Option<Self>, HeaderError>)
        ensures
            match r {
                Ok(Some(h)) => v7_parse(buf@) == Ok::<Option<CoreFields>, HeaderError>(
                    Some(h@.fields),
                ) && h@.typeflag == v7_flag(buf@[156]) && h@.typeflag == v7_flag(h@.fields.flag)
                    && h@.saved_blocks == 1,
                Ok(None) => v7_parse(buf@) == Ok::<Option<CoreFields>, HeaderError>(None),
                Err(e) => v7_parse(buf@) == Err::<Option<CoreFields>, HeaderError>(e),
            },
    {
        let typeflag = V7TypeFlag::from(buf[156]);
        if let V7TypeFlag::Unknown(_) = typeflag {
            return Ok(None);
        }
        let core = load_core(buf, false, false)?;
        Ok(
            Some(
                V7Header {
                    name: core.name,
                    mode: core.mode,
                    uid: core.uid,
                    gid: core.gid,
                    size: core.size,
                    mtime: core.mtime,
                    chksum: core.chksum,
                    typeflag,
                    linkname: core.linkname,
                    saved_blocks: 1,
                },
            ),
        )
    }

    /// Appends the block of the header to the writer, and keeps the checksum
    /// that was written.
    pub fn save(&mut self, writer: &mut Vec<u8>)
        ensures
            final(writer)@ == old(writer)@ + v7_block(old(self)@.fields),
            final(self)@ == (V7View {
                fields: CoreFields {
                    chksum: checksum_of(v7_raw(old(self)@.fields)),
                    ..old(self)@.fields
                },
                typeflag: old(self)@.typeflag,
                saved_blocks: 1,
            }),
    {
        let mut block: Vec<u8> = Vec::new();
        push_core(
            &mut block,
            self.name.as_str(),
            self.mode,
            self.uid,
            self.gid,
            self.size,
            self.mtime,
            u8::from(self.typeflag),
            self.linkname.as_str(),
        );
        append_zeros(&mut block, 255);
        proof {
            assert(core_bytes(CoreFields { chksum: 0, ..self@.fields }) == core_bytes(
                self@.fields,
            ));
            assert(block@ =~= v7_raw(self@.fields));
        }
        let chksum = seal(&mut block);
        append_bytes(writer, block.as_slice());
        self.chksum = chksum;
        self.saved_blocks = 1;
    }
}

impl UsedBlocksTrait for V7Header {
    open spec fn blocks(&self) -> nat {
        1
    }

    open spec fn countable(&self) -> bool {
        true
    }

    open spec fn cache_valid(&self) -> bool {
        true
    }

    open spec fn saved(&self) -> nat {
        self@.saved_blocks
    }

    fn calc_used_blocks(&self) -> (n: usize) {
        1
    }

    fn get_used_blocks(&mut self) -> (n: usize)
        ensures
            final(self)@ == old(self)@,
    {
        1
    }

    fn get_saved_blocks(&self) -> (n: usize) {
        self.saved_blocks
    }
}

/// Round trip: a V7 header whose fields fit their places and whose type flag
/// is one of V7 is read back from the block written for it, with the
/// checksum that was computed.
pub proof fn lemma_v7_round_trip(f: CoreFields)
    requires
        core_fits(f),
        !(v7_flag(f.flag) is Unknown),
    ensures
        v7_block(f).len() == 512,
        v7_parse(v7_block(f)) == Ok::<Option<CoreFields>, HeaderError>(
            Some(CoreFields { chksum: checksum_of(v7_raw(f)), ..f }),
        ),
{
    let raw = v7_raw(f);
    lemma_core_layout(f);
    assert(raw.take(257) =~= core_bytes(f));
    lemma_core_round_trip(f, raw);
    assert(sealed(raw)[156] == raw[156]);
    assert(raw[156] == core_bytes(f)[156]);
}

impl V7Header {
    /// The file name.
    pub fn get_name(&self) -> (v: &str)
        ensures
            v@ == self@.fields.name,
    {
        self.name.as_str()
    }

    /// Sets the file name.
    pub fn set_name(&mut self, v: String)
        ensures
            final(self)@ == (V7View {
                fields: CoreFields { name: v@, ..old(self)@.fields },
                ..old(self)@
            }),
    {
        self.name = v;
    }

    /// The file mode.
    pub fn get_mode(&self) -> (v: u32)
        ensures
            v == self@.fields.mode,
    {
        self.mode
    }

    /// Sets the file mode.
    pub fn set_mode(&mut self, v: u32)
        ensures
            final(self)@ == (V7View {
                fields: CoreFields { mode: v, ..old(self)@.fields },
                ..old(self)@
            }),
    {
        self.mode = v;
    }

    /// The user ID of the owner.
    pub fn get_uid(&self) -> (v: u32)
        ensures
            v == self@.fields.uid,
    {
        self.uid
    }

    /// Sets the user ID of the owner.
    pub fn set_uid(&mut self, v: u32)
        ensures
            final(self)@ == (V7View {
                fields: CoreFields { uid: v, ..old(self)@.fields },
                ..old(self)@
            }),
    {
        self.uid = v;
    }

    /// The group ID of the owner.
    pub fn get_gid(&self) -> (v: u32)
        ensures
            v == self@.fields.gid,
    {
        self.gid
    }

    /// Sets the group ID of the owner.
    pub fn set_gid(&mut self, v: u32)
        ensures
            final(self)@ == (V7View {
                fields: CoreFields { gid: v, ..old(self)@.fields },
                ..old(self)@
            }),
    {
        self.gid = v;
    }

    /// Sets the size in bytes.
    pub fn set_size(&mut self, v: u64)
        ensures
            final(self)@ == (V7View {
                fields: CoreFields { size: v, ..old(self)@.fields },
                ..old(self)@
            }),
    {
        self.size = v;
    }

    /// The modification time.
    pub fn get_mtime(&self) -> (v: u64)
        ensures
            v == self@.fields.mtime,
    {
        self.mtime
    }

    /// Sets the modification time.
    pub fn set_mtime(&mut self, v: u64)
        ensures
            final(self)@ == (V7View {
                fields: CoreFields { mtime: v, ..old(self)@.fields },
                ..old(self)@
            }),
    {
        self.mtime = v;
    }

    /// The checksum of the header.
    pub fn get_chksum(&self) -> (v: u32)
        ensures
            v == self@.fields.chksum,
    {
        self.chksum
    }

    /// Sets the checksum of the header.
    pub fn set_chksum(&mut self, v: u32)
        ensures
            final(self)@ == (V7View {
                fields: CoreFields { chksum: v, ..old(self)@.fields },
                ..old(self)@
            }),
    {
        self.chksum = v;
    }

    /// The name of the linked file.
    pub fn get_linkname(&self) -> (v: &str)
        ensures
            v@ == self@.fields.linkname,
    {
        self.linkname.as_str()
    }

    /// Sets the name of the linked file.
    pub fn set_linkname(&mut self, v: String)
        ensures
            final(self)@ == (V7View {
                fields: CoreFields { linkname: v@, ..old(self)@.fields },
                ..old(self)@
            }),
    {
        self.linkname = v;
    }

    /// Sets the type flag.
    pub fn set_typeflag(&mut self, v: V7TypeFlag)
        ensures
            final(self)@ == (V7View {
                fields: CoreFields { flag: v7_flag_byte(v), ..old(self)@.fields },
                typeflag: v,
                ..old(self)@
            }),
    {
        self.typeflag = v;
    }

    /// The flag byte of the fields is the byte of the type flag.
    pub proof fn lemma_flag_byte(&self)
        ensures
            self@.fields.flag == v7_flag_byte(self@.typeflag),
    {
    }
}

} // verus!
