use vstd::prelude::*;
use vstd::utf8::*;
use crate::error::HeaderError;
use super::helper::{
    append_bytes, append_zeros, checksum_of, get_str, get_str_with_min_size,
    lemma_checksum_of_sealed, lemma_octal_field_len, lemma_octal_limits, lemma_octal_round_trip,
    lemma_text_round_trip, lemma_text_round_trip_full, octal_field, octal_fits, octal_parse_in,
    parse_octal, put_octal, put_str, sealed, text_field, text_fits, text_parse, zeros, OctalInt,
};

verus! {

/// The fields that the headers of every flavour begin with, as values.
pub ghost struct CoreFields {
    pub name: Seq<char>,
    pub mode: u32,
    pub uid: u32,
    pub gid: u32,
    pub size: u64,
    pub mtime: u64,
    pub chksum: u32,
    pub flag: u8,
    pub linkname: Seq<char>,
}

/// The fields that the headers of every flavour begin with: bytes 0 to 257
/// of the block.
pub struct Core {
    pub name: String,
    pub mode: u32,
    pub uid: u32,
    pub gid: u32,
    pub size: u64,
    pub mtime: u64,
    pub chksum: u32,
    pub flag: u8,
    pub linkname: String,
}

impl View for Core {
    type V = CoreFields;

    open spec fn view(&self) -> CoreFields {
        CoreFields {
            name: self.name@,
            mode: self.mode,
            uid: self.uid,
            gid: self.gid,
            size: self.size,
            mtime: self.mtime,
            chksum: self.chksum,
            flag: self.flag,
            linkname: self.linkname@,
        }
    }
}

/// The fields that USTAR added behind the type flag and the link name, as
/// values.
pub ghost struct ExtFields {
    pub magic: Seq<char>,
    pub version: Seq<char>,
    pub uname: Seq<char>,
    pub gname: Seq<char>,
    pub devmajor: u32,
    pub devminor: u32,
}

/// The fields that USTAR added: bytes 257 to 345 of the block.
pub struct Ext {
    pub magic: String,
    pub version: String,
    pub uname: String,
    pub gname: String,
    pub devmajor: u32,
    pub devminor: u32,
}

impl View for Ext {
    type V = ExtFields;

    open spec fn view(&self) -> ExtFields {
        ExtFields {
            magic: self.magic@,
            version: self.version@,
            uname: self.uname@,
            gname: self.gname@,
            devmajor: self.devmajor,
            devminor: self.devminor,
        }
    }
}

/// The largest number of 32 bits.
pub open spec fn max32() -> nat {
    0xffff_ffff
}

/// The largest number of 64 bits.
pub open spec fn max64() -> nat {
    0xffff_ffff_ffff_ffff
}

/// What reading the first 257 bytes of a header block gives. The fields are
/// read in the order in which they stand, and the first one that cannot be
/// read decides the error. A name or a link name that was read from a
/// preceding record is skipped, and given as empty.
pub open spec fn core_parse(b: Seq<u8>, skip_name: bool, skip_linkname: bool) -> Result<
    CoreFields,
    HeaderError,
> {
    let name = if skip_name {
        Ok(Seq::<char>::empty())
    } else {
        text_parse(b.subrange(0, 100), 0)
    };
    let mode = octal_parse_in(b.subrange(100, 108), max32());
    let uid = octal_parse_in(b.subrange(108, 116), max32());
    let gid = octal_parse_in(b.subrange(116, 124), max32());
    let size = octal_parse_in(b.subrange(124, 136), max64());
    let mtime = octal_parse_in(b.subrange(136, 148), max64());
    let chksum = octal_parse_in(b.subrange(148, 156), max32());
    let linkname = if skip_linkname {
        Ok(Seq::<char>::empty())
    } else {
        text_parse(b.subrange(157, 257), 0)
    };
    if name is Err {
        Err(name->Err_0)
    } else if mode is Err {
        Err(mode->Err_0)
    } else if uid is Err {
        Err(uid->Err_0)
    } else if gid is Err {
        Err(gid->Err_0)
    } else if size is Err {
        Err(size->Err_0)
    } else if mtime is Err {
        Err(mtime->Err_0)
    } else if chksum is Err {
        Err(chksum->Err_0)
    } else if linkname is Err {
        Err(linkname->Err_0)
    } else {
        Ok(
            CoreFields {
                name: name->Ok_0,
                mode: mode->Ok_0 as u32,
                uid: uid->Ok_0 as u32,
                gid: gid->Ok_0 as u32,
                size: size->Ok_0,
                mtime: mtime->Ok_0,
                chksum: chksum->Ok_0 as u32,
                flag: b[156],
                linkname: linkname->Ok_0,
            },
        )
    }
}

/// What reading bytes 257 to 345 of a header block gives. The magic and the
/// version are taken whole, NUL bytes included.
pub open spec fn ext_parse(b: Seq<u8>) -> Result<ExtFields, HeaderError> {
    let magic = text_parse(b.subrange(257, 263), 6);
    let version = text_parse(b.subrange(263, 265), 2);
    let uname = text_parse(b.subrange(265, 297), 0);
    let gname = text_parse(b.subrange(297, 329), 0);
    let devmajor = octal_parse_in(b.subrange(329, 337), max32());
    let devminor = octal_parse_in(b.subrange(337, 345), max32());
    if magic is Err {
        Err(magic->Err_0)
    } else if version is Err {
        Err(version->Err_0)
    } else if uname is Err {
        Err(uname->Err_0)
    } else if gname is Err {
        Err(gname->Err_0)
    } else if devmajor is Err {
        Err(devmajor->Err_0)
    } else if devminor is Err {
        Err(devminor->Err_0)
    } else {
        Ok(
            ExtFields {
                magic: magic->Ok_0,
                version: version->Ok_0,
                uname: uname->Ok_0,
                gname: gname->Ok_0,
                devmajor: devmajor->Ok_0 as u32,
                devminor: devminor->Ok_0 as u32,
            },
        )
    }
}

/// The first 257 bytes of a header block, with zeros in the checksum field.
pub open spec fn core_bytes(f: CoreFields) -> Seq<u8> {
    text_field(encode_utf8(f.name), 100) + octal_field(f.mode as nat, 8) + octal_field(
        f.uid as nat,
        8,
    ) + octal_field(f.gid as nat, 8) + octal_field(f.size as nat, 12) + octal_field(
        f.mtime as nat,
        12,
    ) + zeros(8) + seq![f.flag] + text_field(encode_utf8(f.linkname), 100)
}

/// Bytes 257 to 345 of a header block.
pub open spec fn ext_bytes(f: ExtFields) -> Seq<u8> {
    text_field(encode_utf8(f.magic), 6) + text_field(encode_utf8(f.version), 2) + text_field(
        encode_utf8(f.uname),
        32,
    ) + text_field(encode_utf8(f.gname), 32) + octal_field(f.devmajor as nat, 8) + octal_field(
        f.devminor as nat,
        8,
    )
}

/// Reads the first 257 bytes of a header block.
pub fn load_core(buf: &[u8; 512], skip_name: bool, skip_linkname: bool) -> (r: Result<
    Core,
    HeaderError,
>)
    ensures
        match r {
            Ok(c) => core_parse(buf@, skip_name, skip_linkname) == Ok::<CoreFields, HeaderError>(
                c@,
            ),
            Err(e) => core_parse(buf@, skip_name, skip_linkname) == Err::<CoreFields, HeaderError>(
                e,
            ),
        },
{
    let name = if skip_name {
        String::new()
    } else {
        get_str(&buf[0..100])?
    };
    let mode = parse_octal::<u32>(&buf[100..108])?;
    let uid = parse_octal::<u32>(&buf[108..116])?;
    let gid = parse_octal::<u32>(&buf[116..124])?;
    let size = parse_octal::<u64>(&buf[124..136])?;
    let mtime = parse_octal::<u64>(&buf[136..148])?;
    let chksum = parse_octal::<u32>(&buf[148..156])?;
    let flag: u8 = buf[156];
    let linkname = if skip_linkname {
        String::new()
    } else {
        get_str(&buf[157..257])?
    };
    Ok(Core { name, mode, uid, gid, size, mtime, chksum, flag, linkname })
}

/// Reads bytes 257 to 345 of a header block.
pub fn load_ext(buf: &[u8; 512]) -> (r: Result<Ext, HeaderError>)
    ensures
        match r {
            Ok(x) => ext_parse(buf@) == Ok::<ExtFields, HeaderError>(x@),
            Err(e) => ext_parse(buf@) == Err::<ExtFields, HeaderError>(e),
        },
{
    let magic = get_str_with_min_size(&buf[257..263], 6)?;
    let version = get_str_with_min_size(&buf[263..265], 2)?;
    let uname = get_str(&buf[265..297])?;
    let gname = get_str(&buf[297..329])?;
    let devmajor = parse_octal::<u32>(&buf[329..337])?;
    let devminor = parse_octal::<u32>(&buf[337..345])?;
    Ok(Ext { magic, version, uname, gname, devmajor, devminor })
}

/// Appends a text field of `width` bytes.
pub fn push_text(block: &mut Vec<u8>, value: &str, width: usize)
    ensures
        final(block)@ == old(block)@ + text_field(encode_utf8(value@), width as int),
{
    let mut field: Vec<u8> = Vec::new();
    append_zeros(&mut field, width);
    put_str(field.as_mut_slice(), value);
    append_bytes(block, field.as_slice());
}

/// Appends an octal field of `width` bytes.
pub fn push_octal<T: OctalInt>(block: &mut Vec<u8>, value: T, width: usize)
    requires
        width >= 1,
    ensures
        final(block)@ == old(block)@ + octal_field(value.value(), width as int),
{
    let mut field: Vec<u8> = Vec::new();
    append_zeros(&mut field, width);
    put_octal(field.as_mut_slice(), value);
    append_bytes(block, field.as_slice());
}


/// Appends the first 257 bytes of a header block, with zeros in the checksum
/// field.
pub fn push_core(
    block: &mut Vec<u8>,
    name: &str,
    mode: u32,
    uid: u32,
    gid: u32,
    size: u64,
    mtime: u64,
    flag: u8,
    linkname: &str,
)
    ensures
        final(block)@ == old(block)@ + core_bytes(
            CoreFields {
                name: name@,
                mode,
                uid,
                gid,
                size,
                mtime,
                chksum: 0,
                flag,
                linkname: linkname@,
            },
        ),
{
    let ghost start = block@;
    push_text(block, name, 100);
    push_octal(block, mode, 8);
    push_octal(block, uid, 8);
    push_octal(block, gid, 8);
    push_octal(block, size, 12);
    push_octal(block, mtime, 12);
    append_zeros(block, 8);
    block.push(flag);
    push_text(block, linkname, 100);
    assert(block@ =~= start + core_bytes(
        CoreFields { name: name@, mode, uid, gid, size, mtime, chksum: 0, flag, linkname: linkname@ },
    ));
}

/// Appends bytes 257 to 345 of a header block.
pub fn push_ext(
    block: &mut Vec<u8>,
    magic: &str,
    version: &str,
    uname: &str,
    gname: &str,
    devmajor: u32,
    devminor: u32,
)
    ensures
        final(block)@ == old(block)@ + ext_bytes(
            ExtFields {
                magic: magic@,
                version: version@,
                uname: uname@,
                gname: gname@,
                devmajor,
                devminor,
            },
        ),
{
    let ghost start = block@;
    push_text(block, magic, 6);
    push_text(block, version, 2);
    push_text(block, uname, 32);
    push_text(block, gname, 32);
    push_octal(block, devmajor, 8);
    push_octal(block, devminor, 8);
    assert(block@ =~= start + ext_bytes(
        ExtFields { magic: magic@, version: version@, uname: uname@, gname: gname@, devmajor, devminor },
    ));
}

/// True when every one of the first fields is read back from its place in
/// the block.
pub open spec fn core_fits(f: CoreFields) -> bool {
    &&& text_fits(f.name, 100)
    &&& octal_fits(f.mode as nat, 8)
    &&& octal_fits(f.uid as nat, 8)
    &&& octal_fits(f.gid as nat, 8)
    &&& octal_fits(f.size as nat, 12)
    &&& octal_fits(f.mtime as nat, 12)
    &&& text_fits(f.linkname, 100)
}

/// True when every one of the USTAR fields is read back from its place in
/// the block. The magic and the version fill their fields.
pub open spec fn ext_fits(f: ExtFields) -> bool {
    &&& encode_utf8(f.magic).len() == 6
    &&& encode_utf8(f.version).len() == 2
    &&& text_fits(f.uname, 32)
    &&& text_fits(f.gname, 32)
    &&& octal_fits(f.devmajor as nat, 8)
    &&& octal_fits(f.devminor as nat, 8)
}

/// Where each field stands in the first 257 bytes.
pub proof fn lemma_core_layout(f: CoreFields)
    ensures
        core_bytes(f).len() == 257,
        core_bytes(f).subrange(0, 100) == text_field(encode_utf8(f.name), 100),
        core_bytes(f).subrange(100, 108) == octal_field(f.mode as nat, 8),
        core_bytes(f).subrange(108, 116) == octal_field(f.uid as nat, 8),
        core_bytes(f).subrange(116, 124) == octal_field(f.gid as nat, 8),
        core_bytes(f).subrange(124, 136) == octal_field(f.size as nat, 12),
        core_bytes(f).subrange(136, 148) == octal_field(f.mtime as nat, 12),
        core_bytes(f)[156] == f.flag,
        core_bytes(f).subrange(157, 257) == text_field(encode_utf8(f.linkname), 100),
{
    let b = core_bytes(f);
    lemma_octal_field_len(f.mode as nat, 8);
    lemma_octal_field_len(f.uid as nat, 8);
    lemma_octal_field_len(f.gid as nat, 8);
    lemma_octal_field_len(f.size as nat, 12);
    lemma_octal_field_len(f.mtime as nat, 12);
    assert(b.subrange(0, 100) =~= text_field(encode_utf8(f.name), 100));
    assert(b.subrange(100, 108) =~= octal_field(f.mode as nat, 8));
    assert(b.subrange(108, 116) =~= octal_field(f.uid as nat, 8));
    assert(b.subrange(116, 124) =~= octal_field(f.gid as nat, 8));
    assert(b.subrange(124, 136) =~= octal_field(f.size as nat, 12));
    assert(b.subrange(136, 148) =~= octal_field(f.mtime as nat, 12));
    assert(b.subrange(157, 257) =~= text_field(encode_utf8(f.linkname), 100));
}

/// Where each field stands in bytes 257 to 345.
pub proof fn lemma_ext_layout(f: ExtFields)
    ensures
        ext_bytes(f).len() == 88,
        ext_bytes(f).subrange(0, 6) == text_field(encode_utf8(f.magic), 6),
        ext_bytes(f).subrange(6, 8) == text_field(encode_utf8(f.version), 2),
        ext_bytes(f).subrange(8, 40) == text_field(encode_utf8(f.uname), 32),
        ext_bytes(f).subrange(40, 72) == text_field(encode_utf8(f.gname), 32),
        ext_bytes(f).subrange(72, 80) == octal_field(f.devmajor as nat, 8),
        ext_bytes(f).subrange(80, 88) == octal_field(f.devminor as nat, 8),
{
    let b = ext_bytes(f);
    lemma_octal_field_len(f.devmajor as nat, 8);
    lemma_octal_field_len(f.devminor as nat, 8);
    assert(b.subrange(0, 6) =~= text_field(encode_utf8(f.magic), 6));
    assert(b.subrange(6, 8) =~= text_field(encode_utf8(f.version), 2));
    assert(b.subrange(8, 40) =~= text_field(encode_utf8(f.uname), 32));
    assert(b.subrange(40, 72) =~= text_field(encode_utf8(f.gname), 32));
    assert(b.subrange(72, 80) =~= octal_field(f.devmajor as nat, 8));
    assert(b.subrange(80, 88) =~= octal_field(f.devminor as nat, 8));
}

/// The first fields are read back from a sealed block that begins with their
/// bytes; the checksum read is the one that sealing computed.
pub proof fn lemma_core_round_trip(f: CoreFields, raw: Seq<u8>)
    requires
        raw.len() == 512,
        raw.take(257) == core_bytes(f),
        core_fits(f),
    ensures
        core_parse(sealed(raw), false, false) == Ok::<CoreFields, HeaderError>(
            CoreFields { chksum: checksum_of(raw), ..f },
        ),
{
    lemma_core_round_trip_skipping(f, raw, false, false);
}

/// The first fields are read back from a sealed block that begins with their
/// bytes, also where an empty name or link name is skipped.
pub proof fn lemma_core_round_trip_skipping(
    f: CoreFields,
    raw: Seq<u8>,
    skip_name: bool,
    skip_linkname: bool,
)
    requires
        raw.len() == 512,
        raw.take(257) == core_bytes(f),
        core_fits(f),
        skip_name ==> f.name == Seq::<char>::empty(),
        skip_linkname ==> f.linkname == Seq::<char>::empty(),
    ensures
        core_parse(sealed(raw), skip_name, skip_linkname) == Ok::<CoreFields, HeaderError>(
            CoreFields { chksum: checksum_of(raw), ..f },
        ),
{
    let s = sealed(raw);
    let cb = core_bytes(f);
    lemma_core_layout(f);
    lemma_checksum_of_sealed(raw);
    lemma_octal_limits();
    assert(s.subrange(0, 100) =~= cb.subrange(0, 100));
    assert(s.subrange(100, 108) =~= cb.subrange(100, 108));
    assert(s.subrange(108, 116) =~= cb.subrange(108, 116));
    assert(s.subrange(116, 124) =~= cb.subrange(116, 124));
    assert(s.subrange(124, 136) =~= cb.subrange(124, 136));
    assert(s.subrange(136, 148) =~= cb.subrange(136, 148));
    assert(s.subrange(157, 257) =~= cb.subrange(157, 257));
    assert(s[156] == raw[156]);
    assert(raw[156] == raw.take(257)[156]);
    lemma_text_round_trip(f.name, 100);
    lemma_text_round_trip(f.linkname, 100);
    lemma_octal_round_trip(f.mode as nat, 8);
    lemma_octal_round_trip(f.uid as nat, 8);
    lemma_octal_round_trip(f.gid as nat, 8);
    lemma_octal_round_trip(f.size as nat, 12);
    lemma_octal_round_trip(f.mtime as nat, 12);
}

/// The USTAR fields are read back from a sealed block that holds their bytes
/// from position 257 on.
pub proof fn lemma_ext_round_trip(f: ExtFields, raw: Seq<u8>)
    requires
        raw.len() == 512,
        raw.subrange(257, 345) == ext_bytes(f),
        ext_fits(f),
    ensures
        ext_parse(sealed(raw)) == Ok::<ExtFields, HeaderError>(f),
{
    let s = sealed(raw);
    let eb = ext_bytes(f);
    lemma_ext_layout(f);
    lemma_octal_limits();
    assert(s.subrange(257, 263) =~= eb.subrange(0, 6));
    assert(s.subrange(263, 265) =~= eb.subrange(6, 8));
    assert(s.subrange(265, 297) =~= eb.subrange(8, 40));
    assert(s.subrange(297, 329) =~= eb.subrange(40, 72));
    assert(s.subrange(329, 337) =~= eb.subrange(72, 80));
    assert(s.subrange(337, 345) =~= eb.subrange(80, 88));
    lemma_text_round_trip_full(f.magic, 6);
    lemma_text_round_trip_full(f.version, 2);
    lemma_text_round_trip(f.uname, 32);
    lemma_text_round_trip(f.gname, 32);
    lemma_octal_round_trip(f.devmajor as nat, 8);
    lemma_octal_round_trip(f.devminor as nat, 8);
}

} // verus!
