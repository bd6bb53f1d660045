pub mod fields;
pub mod gnu;
pub mod gnu_round_trip;
pub mod helper;
pub mod pax;
pub mod pax_round_trip;
pub mod traits;
pub mod ustar;
pub mod v7;

pub use gnu::{GnuHeader, GnuTypeFlag, SparseEntry};
pub use pax::{AttrValue, Attribute as PaxAttribute, PaxHeader, PaxTypeFlag};
pub use traits::{FileKind, IsTypeTrait, UsedBlocksTrait};
pub use ustar::{UstarHeader, UstarTypeFlag};
pub use v7::{V7Header, V7TypeFlag};

use vstd::prelude::*;
use crate::error::HeaderError;
use crate::stream::Stream;
use fields::CoreFields;
use gnu::{gnu_encoding, gnu_parse, GnuFields, GnuView};
use helper::{append_bytes, checksum_of, copy_range, zeros};
use pax::{attrs_fit, pax_encoding, pax_parse, AttributeView, PaxView};
use ustar::{ustar_block, ustar_parse, UstarFields, UstarView};
use v7::{v7_block, v7_parse, V7View};

verus! {

/// Represents any supported TAR header.
pub enum TarHeader {
    Ustar(UstarHeader),
    Gnu(GnuHeader),
    Pax(PaxHeader),
    V7(V7Header),
    /// A block that is none of the flavours, or fewer bytes than a block:
    /// the bytes as read, filled up with zeros, and how many were read.
    Unknown([u8; 512], usize),
}

/// A header of any flavour as values.
pub ghost enum TarView {
    Ustar(UstarView),
    Gnu(GnuView),
    Pax(PaxView),
    V7(V7View),
    Unknown(Seq<u8>, nat),
}

impl View for TarHeader {
    type V = TarView;

    open spec fn view(&self) -> TarView {
        match *self {
            TarHeader::Ustar(h) => TarView::Ustar(h@),
            TarHeader::Gnu(h) => TarView::Gnu(h@),
            TarHeader::Pax(h) => TarView::Pax(h@),
            TarHeader::V7(h) => TarView::V7(h@),
            TarHeader::Unknown(bytes, size) => TarView::Unknown(bytes@, size as nat),
        }
    }
}

/// What a header holds of what its blocks carry.
pub ghost enum TarContent {
    Ustar(UstarFields),
    Gnu(GnuFields),
    Pax(UstarFields, Seq<(Seq<char>, AttributeView)>),
    V7(CoreFields),
    Unknown(Seq<u8>, nat),
}

/// What a header holds of what its blocks carry.
pub open spec fn content_of(v: TarView) -> TarContent {
    match v {
        TarView::Ustar(h) => TarContent::Ustar(h.fields),
        TarView::Gnu(h) => TarContent::Gnu(h.fields),
        TarView::Pax(h) => TarContent::Pax(h.fields, h.attrs),
        TarView::V7(h) => TarContent::V7(h.fields),
        TarView::Unknown(bytes, size) => TarContent::Unknown(bytes, size),
    }
}

/// What reading a header of any flavour from a whole block `b` and the bytes
/// `rest` behind it gives: the content and the number of bytes taken from
/// `rest`. The flavours are tried in the order GNU, PAX, USTAR, V7; a block
/// that is none of them is given as it is.
pub open spec fn block_parse(b: Seq<u8>, rest: Seq<u8>) -> Result<(TarContent, nat), HeaderError> {
    match gnu_parse(b, rest) {
        Err(e) => Err(e),
        Ok(Some((f, used))) => Ok((TarContent::Gnu(f), used)),
        Ok(None) => match pax_parse(b, rest) {
            Err(e) => Err(e),
            Ok(Some((f, attrs, used))) => Ok((TarContent::Pax(f, attrs), used)),
            Ok(None) => match ustar_parse(b) {
                Err(e) => Err(e),
                Ok(Some(f)) => Ok((TarContent::Ustar(f), 0nat)),
                Ok(None) => match v7_parse(b) {
                    Err(e) => Err(e),
                    Ok(Some(f)) => Ok((TarContent::V7(f), 0nat)),
                    Ok(None) => Ok((TarContent::Unknown(b, 512nat), 0nat)),
                },
            },
        },
    }
}

/// What reading a header from the bytes `rem` gives: the content and the
/// number of bytes taken. Fewer bytes than a block are given as they are,
/// filled up with zeros.
#[verifier::opaque]
pub open spec fn tar_parse(rem: Seq<u8>) -> Result<(TarContent, nat), HeaderError> {
    if rem.len() < 512 {
        Ok((TarContent::Unknown(rem + zeros(512 - rem.len()), rem.len()), rem.len()))
    } else {
        match block_parse(rem.take(512), rem.skip(512)) {
            Err(e) => Err(e),
            Ok((content, used)) => Ok((content, 512 + used)),
        }
    }
}

/// The kind of member that the content of a header stands for.
pub open spec fn content_kind(c: TarContent) -> FileKind {
    match c {
        TarContent::Ustar(f) => ustar::ustar_flag(f.core.flag).kind(),
        TarContent::Gnu(f) => f.typeflag.kind(),
        TarContent::Pax(f, _) => pax::pax_flag(f.core.flag).kind(),
        TarContent::V7(f) => v7::v7_flag(f.flag).kind(),
        TarContent::Unknown(_, _) => FileKind::Other,
    }
}

/// The size that the content of a header declares.
pub open spec fn content_size_of(c: TarContent) -> u64 {
    match c {
        TarContent::Ustar(f) => f.core.size,
        TarContent::Gnu(f) => f.size,
        TarContent::Pax(f, _) => f.core.size,
        TarContent::V7(f) => f.size,
        TarContent::Unknown(_, _) => 0,
    }
}

/// A header after it was saved: it keeps the checksum that was written,
/// where its flavour keeps one, and the number of blocks that it took.
pub open spec fn saved_view(v: TarView) -> TarView {
    match v {
        TarView::Ustar(h) => TarView::Ustar(UstarView { saved_blocks: 1, ..h }),
        TarView::Gnu(h) => TarView::Gnu(
            GnuView {
                fields: GnuFields { chksum: checksum_of(gnu::gnu_raw(h.fields)), ..h.fields },
                used_blocks: gnu::gnu_blocks(h.fields),
                saved_blocks: gnu::gnu_blocks(h.fields),
                updated_used_blocks: true,
            },
        ),
        TarView::Pax(h) => TarView::Pax(
            PaxView {
                fields: UstarFields {
                    core: CoreFields {
                        chksum: checksum_of(pax::pax_raw(h.fields, h.attrs)),
                        ..h.fields.core
                    },
                    ..h.fields
                },
                used_blocks: pax::pax_blocks(h.attrs),
                saved_blocks: pax::pax_blocks(h.attrs),
                updated_used_blocks: true,
                ..h
            },
        ),
        TarView::V7(h) => TarView::V7(
            V7View {
                fields: CoreFields { chksum: checksum_of(v7::v7_raw(h.fields)), ..h.fields },
                saved_blocks: 1,
                ..h
            },
        ),
        TarView::Unknown(bytes, size) => v,
    }
}

/// Everything that saving a header writes.
pub open spec fn tar_encoding(v: TarView) -> Seq<u8> {
    match v {
        TarView::Ustar(h) => ustar_block(h.fields),
        TarView::Gnu(h) => gnu_encoding(h.fields),
        TarView::Pax(h) => pax_encoding(h.fields, h.attrs),
        TarView::V7(h) => v7_block(h.fields),
        TarView::Unknown(bytes, size) => bytes.take(size as int),
    }
}

impl TarHeader {
    /// Loads a TAR header from the reader. The flavours are tried in the
    /// order GNU, PAX, USTAR, V7.
    pub fn load(reader: &mut Stream) -> (r: Result<Self, HeaderError>)
        ensures
            final(reader).data == old(reader).data,
            match r {
                Ok(h) => final(reader).pos >= old(reader).pos && tar_parse(old(reader).remaining())
                    == Ok::<(TarContent, nat), HeaderError>(
                    (content_of(h@), (final(reader).pos - old(reader).pos) as nat),
                ) && h.cache_valid() && h.countable() && h.kind() == content_kind(content_of(h@))
                    && h.content_size() == content_size_of(content_of(h@)) && (h matches TarHeader::Pax(
                    p,
                ) ==> p@.typeflag == pax::pax_flag(p@.fields.core.flag)) && (h matches TarHeader::Ustar(
                    u,
                ) ==> u@.typeflag == ustar::ustar_flag(u@.fields.core.flag)) && (h matches TarHeader::V7(
                    v,
                ) ==> v@.typeflag == v7::v7_flag(v@.fields.flag)),
                Err(e) => tar_parse(old(reader).remaining()) == Err::<
                    (TarContent, nat),
                    HeaderError,
                >(e),
            },
    {
        reveal(tar_parse);
        let ghost rem = reader.remaining();
        let (buf, readed) = reader.read();
        if readed != 512 {
            assert(rem.take(readed as int) =~= rem);
            return Ok(TarHeader::Unknown(buf, readed));
        }
        assert(reader.remaining() =~= rem.skip(512));
        if let Some(header) = GnuHeader::load(&buf, reader)? {
            return Ok(TarHeader::Gnu(header));
        }
        if let Some(header) = PaxHeader::load(&buf, reader)? {
            return Ok(TarHeader::Pax(header));
        }
        if let Some(header) = UstarHeader::load(&buf)? {
            return Ok(TarHeader::Ustar(header));
        }
        if let Some(header) = V7Header::load(&buf)? {
            return Ok(TarHeader::V7(header));
        }
        Ok(TarHeader::Unknown(buf, 512))
    }

    /// True when the header can be saved: the attribute data of a PAX header
    /// fit the machine's integers, and an unknown block has no more than 512
    /// bytes.
    pub open spec fn savable(&self) -> bool {
        match *self {
            TarHeader::Pax(h) => attrs_fit(h@.attrs),
            TarHeader::Unknown(_, size) => size <= 512,
            _ => true,
        }
    }

    /// Saves the TAR header to the writer. Of an unknown block the bytes
    /// that were read are written.
    pub fn save(&mut self, writer: &mut Vec<u8>)
        requires
            old(self).savable(),
        ensures
            final(writer)@ == old(writer)@ + tar_encoding(old(self)@),
            final(self)@ == saved_view(old(self)@),
    {
        match self {
            TarHeader::Ustar(h) => h.save(writer),
            TarHeader::Gnu(h) => h.save(writer),
            TarHeader::Pax(h) => h.save(writer),
            TarHeader::V7(h) => h.save(writer),
            TarHeader::Unknown(bytes, size) => {
                if *size > 0 {
                    let part = copy_range(bytes.as_slice(), 0, *size);
                    append_bytes(writer, part.as_slice());
                    assert(part@ =~= bytes@.take(*size as int));
                } else {
                    assert(writer@ =~= old(writer)@ + bytes@.take(0));
                }
            },
        }
    }

    /// The size of the content in bytes, as the header declares it.
    pub open spec fn content_size(&self) -> u64 {
        match self@ {
            TarView::Ustar(h) => h.fields.core.size,
            TarView::Gnu(h) => h.fields.size,
            TarView::Pax(h) => h.fields.core.size,
            TarView::V7(h) => h.fields.size,
            TarView::Unknown(_, _) => 0,
        }
    }

    /// Returns the size of the content in bytes.
    pub fn get_content_size(&self) -> (size: u64)
        ensures
            size == self.content_size(),
    {
        match self {
            TarHeader::Ustar(h) => h.content_size(),
            TarHeader::Gnu(h) => h.content_size(),
            TarHeader::Pax(h) => h.content_size(),
            TarHeader::V7(h) => h.content_size(),
            TarHeader::Unknown(_, _) => 0,
        }
    }
}

impl UsedBlocksTrait for TarHeader {
    open spec fn blocks(&self) -> nat {
        match *self {
            TarHeader::Ustar(h) => h.blocks(),
            TarHeader::Gnu(h) => h.blocks(),
            TarHeader::Pax(h) => h.blocks(),
            TarHeader::V7(h) => h.blocks(),
            TarHeader::Unknown(_, _) => 0,
        }
    }

    open spec fn countable(&self) -> bool {
        match *self {
            TarHeader::Pax(h) => h.countable(),
            _ => true,
        }
    }

    open spec fn cache_valid(&self) -> bool {
        match *self {
            TarHeader::Gnu(h) => h.cache_valid(),
            TarHeader::Pax(h) => h.cache_valid(),
            _ => true,
        }
    }

    open spec fn saved(&self) -> nat {
        match *self {
            TarHeader::Ustar(h) => h.saved(),
            TarHeader::Gnu(h) => h.saved(),
            TarHeader::Pax(h) => h.saved(),
            TarHeader::V7(h) => h.saved(),
            TarHeader::Unknown(_, _) => 0,
        }
    }

    fn calc_used_blocks(&self) -> (n: usize) {
        match self {
            TarHeader::Ustar(h) => h.calc_used_blocks(),
            TarHeader::Gnu(h) => h.calc_used_blocks(),
            TarHeader::Pax(h) => h.calc_used_blocks(),
            TarHeader::V7(h) => h.calc_used_blocks(),
            TarHeader::Unknown(_, _) => 0,
        }
    }

    fn get_used_blocks(&mut self) -> (n: usize)
        ensures
            content_of(final(self)@) == content_of(old(self)@),
            final(self).kind() == old(self).kind(),
    {
        match self {
            TarHeader::Ustar(h) => h.get_used_blocks(),
            TarHeader::Gnu(h) => h.get_used_blocks(),
            TarHeader::Pax(h) => h.get_used_blocks(),
            TarHeader::V7(h) => h.get_used_blocks(),
            TarHeader::Unknown(_, _) => 0,
        }
    }

    fn get_saved_blocks(&self) -> (n: usize) {
        match self {
            TarHeader::Ustar(h) => h.get_saved_blocks(),
            TarHeader::Gnu(h) => h.get_saved_blocks(),
            TarHeader::Pax(h) => h.get_saved_blocks(),
            TarHeader::V7(h) => h.get_saved_blocks(),
            TarHeader::Unknown(_, _) => 0,
        }
    }
}

impl IsTypeTrait for TarHeader {
    open spec fn kind(&self) -> FileKind {
        match self@ {
            TarView::Ustar(h) => h.typeflag.kind(),
            TarView::Gnu(h) => h.fields.typeflag.kind(),
            TarView::Pax(h) => h.typeflag.kind(),
            TarView::V7(h) => h.typeflag.kind(),
            TarView::Unknown(_, _) => FileKind::Other,
        }
    }

    fn is_regular_file(&self) -> (b: bool) {
        match self {
            TarHeader::Ustar(h) => h.type_flag().is_regular_file(),
            TarHeader::Gnu(h) => h.type_flag().is_regular_file(),
            TarHeader::Pax(h) => h.type_flag().is_regular_file(),
            TarHeader::V7(h) => h.type_flag().is_regular_file(),
            TarHeader::Unknown(_, _) => false,
        }
    }

    fn is_hard_link(&self) -> (b: bool) {
        match self {
            TarHeader::Ustar(h) => h.type_flag().is_hard_link(),
            TarHeader::Gnu(h) => h.type_flag().is_hard_link(),
            TarHeader::Pax(h) => h.type_flag().is_hard_link(),
            TarHeader::V7(h) => h.type_flag().is_hard_link(),
            TarHeader::Unknown(_, _) => false,
        }
    }

    fn is_symbolic_link(&self) -> (b: bool) {
        match self {
            TarHeader::Ustar(h) => h.type_flag().is_symbolic_link(),
            TarHeader::Gnu(h) => h.type_flag().is_symbolic_link(),
            TarHeader::Pax(h) => h.type_flag().is_symbolic_link(),
            TarHeader::V7(h) => h.type_flag().is_symbolic_link(),
            TarHeader::Unknown(_, _) => false,
        }
    }

    fn is_character_special(&self) -> (b: bool) {
        match self {
            TarHeader::Ustar(h) => h.type_flag().is_character_special(),
            TarHeader::Gnu(h) => h.type_flag().is_character_special(),
            TarHeader::Pax(h) => h.type_flag().is_character_special(),
            TarHeader::V7(h) => h.type_flag().is_character_special(),
            TarHeader::Unknown(_, _) => false,
        }
    }

    fn is_block_special(&self) -> (b: bool) {
        match self {
            TarHeader::Ustar(h) => h.type_flag().is_block_special(),
            TarHeader::Gnu(h) => h.type_flag().is_block_special(),
            TarHeader::Pax(h) => h.type_flag().is_block_special(),
            TarHeader::V7(h) => h.type_flag().is_block_special(),
            TarHeader::Unknown(_, _) => false,
        }
    }

    fn is_directory(&self) -> (b: bool) {
        match self {
            TarHeader::Ustar(h) => h.type_flag().is_directory(),
            TarHeader::Gnu(h) => h.type_flag().is_directory(),
            TarHeader::Pax(h) => h.type_flag().is_directory(),
            TarHeader::V7(h) => h.type_flag().is_directory(),
            TarHeader::Unknown(_, _) => false,
        }
    }

    fn is_fifo(&self) -> (b: bool) {
        match self {
            TarHeader::Ustar(h) => h.type_flag().is_fifo(),
            TarHeader::Gnu(h) => h.type_flag().is_fifo(),
            TarHeader::Pax(h) => h.type_flag().is_fifo(),
            TarHeader::V7(h) => h.type_flag().is_fifo(),
            TarHeader::Unknown(_, _) => false,
        }
    }

    fn is_contiguous_file(&self) -> (b: bool) {
        match self {
            TarHeader::Ustar(h) => h.type_flag().is_contiguous_file(),
            TarHeader::Gnu(h) => h.type_flag().is_contiguous_file(),
            TarHeader::Pax(h) => h.type_flag().is_contiguous_file(),
            TarHeader::V7(h) => h.type_flag().is_contiguous_file(),
            TarHeader::Unknown(_, _) => false,
        }
    }
}


/// True when a block of 512 bytes carries the magic and the version of
/// USTAR.
pub open spec fn is_ustar_block(b: Seq<u8>) -> bool {
    ustar::has_ustar_magic(b) && ustar::has_ustar_version(b)
}

/// Detection: a block with the magic and version of GNU is read as a GNU
/// header; else one with the USTAR magic and the type flag of an extended or
/// global header as a PAX header; else one with the magic and version of
/// USTAR as a USTAR header; else one whose type flag is one of V7 as a V7
/// header; and any other block is given as it is. A block that is detected
/// as a header is read as that header or gives an error.
pub proof fn lemma_detection(b: Seq<u8>, rest: Seq<u8>)
    ensures
        gnu::has_gnu_magic(b) ==> block_parse(b, rest) is Err || block_parse(b, rest)->Ok_0.0
            is Gnu,
        !gnu::has_gnu_magic(b) && pax::has_pax_magic(b) ==> block_parse(b, rest) is Err
            || block_parse(b, rest)->Ok_0.0 is Pax,
        !gnu::has_gnu_magic(b) && !pax::has_pax_magic(b) && is_ustar_block(b) ==> block_parse(
            b,
            rest,
        ) is Err || block_parse(b, rest)->Ok_0.0 is Ustar,
        !gnu::has_gnu_magic(b) && !pax::has_pax_magic(b) && !is_ustar_block(b) && !(v7::v7_flag(
            b[156],
        ) is Unknown) ==> block_parse(b, rest) is Err || block_parse(b, rest)->Ok_0.0 is V7,
        !gnu::has_gnu_magic(b) && !pax::has_pax_magic(b) && !is_ustar_block(b) && v7::v7_flag(
            b[156],
        ) is Unknown ==> block_parse(b, rest) == Ok::<(TarContent, nat), HeaderError>(
            (TarContent::Unknown(b, 512nat), 0nat),
        ),
{
}

/// Round trip of what is no header: fewer bytes than a block are read back
/// as they were written, and so is a whole block that is not detected as a
/// header, whatever follows it.
pub proof fn lemma_unknown_round_trip(bytes: Seq<u8>, size: nat, tail: Seq<u8>)
    requires
        bytes.len() == 512,
        size <= 512,
        size == 512 ==> !gnu::has_gnu_magic(bytes) && !pax::has_pax_magic(bytes)
            && !is_ustar_block(bytes) && v7::v7_flag(bytes[156]) is Unknown,
    ensures
        tar_encoding(TarView::Unknown(bytes, size)) == bytes.take(size as int),
        size < 512 ==> tar_parse(tar_encoding(TarView::Unknown(bytes, size))) == Ok::<
            (TarContent, nat),
            HeaderError,
        >((TarContent::Unknown(bytes.take(size as int) + zeros(512 - size), size), size)),
        size == 512 ==> tar_parse(tar_encoding(TarView::Unknown(bytes, size)) + tail) == Ok::<
            (TarContent, nat),
            HeaderError,
        >((TarContent::Unknown(bytes, 512nat), 512nat)),
{
    reveal(tar_parse);
    if size == 512 {
        let written = bytes.take(512) + tail;
        assert(bytes.take(512) =~= bytes);
        assert(written.take(512) =~= bytes);
        lemma_detection(bytes, written.skip(512));
    }
}

} // verus!
