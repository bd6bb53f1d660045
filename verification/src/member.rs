use vstd::prelude::*;
use vstd::utf8::{encode_utf8, is_ascii_chars, is_ascii_chars_encode_utf8};
use crate::error::HeaderError;
use crate::header::gnu::{gnu_flag, gnu_flag_byte, GnuHeader};
use crate::header::gnu_round_trip::{
    entries_fit, gnu_ok, gnu_read_back, incremental_ok, lemma_gnu_round_trip, name_ok,
};
use crate::header::helper::{lemma_octal_limits, octal_fits, text_fits, zeros};
use crate::header::{tar_parse, TarContent};
use crate::tar::member_blocks;

verus! {

/// True when the header of a member with this path and size is read back:
/// the path is one that a header can hold, and the size has no more than 11
/// octal digits.
pub open spec fn member_ok(path: Seq<char>, size: u64) -> bool {
    name_ok(path) && octal_fits(size as nat, 12)
}

/// The fields of the header of a member are fit to be read back.
proof fn lemma_member_fields(path: Seq<char>, size: u64)
    requires
        member_ok(path, size),
    ensures
        gnu_ok(GnuHeader::file_fields(path, size)),
{
    reveal(gnu_ok);
    reveal(entries_fit);
    reveal_strlit("ustar ");
    reveal_strlit(" \0");
    let f = GnuHeader::file_fields(path, size);
    let none = Seq::<char>::empty();
    assert(is_ascii_chars("ustar "@));
    assert(is_ascii_chars(" \0"@));
    assert(is_ascii_chars(none));
    is_ascii_chars_encode_utf8("ustar "@);
    is_ascii_chars_encode_utf8(" \0"@);
    is_ascii_chars_encode_utf8(none);
    assert(encode_utf8(f.ext.magic) =~= seq![0x75u8, 0x73u8, 0x74u8, 0x61u8, 0x72u8, 0x20u8]);
    assert(encode_utf8(f.ext.version) =~= seq![0x20u8, 0u8]);
    assert(encode_utf8(none) =~= Seq::<u8>::empty());
    lemma_octal_limits();
    assert(text_fits(none, 100));
    assert(text_fits(none, 32));
    assert(name_ok(none));
    assert(zeros(12).len() == 12);
    assert(gnu_flag(gnu_flag_byte(f.typeflag)) == f.typeflag);
    assert(incremental_ok(f.incremental));
}

/// Round trip of the header of a member: what is written for a member is
/// read back as a GNU header with the member's path and size, whatever
/// follows it, whether the path stands in the header block or in a record
/// before it.
pub proof fn lemma_member_header_round_trip(path: Seq<char>, size: u64, tail: Seq<u8>)
    requires
        member_ok(path, size),
    ensures
        member_blocks(path, size).len() >= 512,
        tar_parse(member_blocks(path, size) + tail) == Ok::<(TarContent, nat), HeaderError>(
            (
                TarContent::Gnu(gnu_read_back(GnuHeader::file_fields(path, size))),
                member_blocks(path, size).len(),
            ),
        ),
        gnu_read_back(GnuHeader::file_fields(path, size)).name == path,
        gnu_read_back(GnuHeader::file_fields(path, size)).size == size,
{
    reveal(member_blocks);
    reveal(tar_parse);
    let f = GnuHeader::file_fields(path, size);
    lemma_member_fields(path, size);
    lemma_gnu_round_trip(f, tail);
    lemma_blocks_apart(member_blocks(path, size), tail);
}

/// The first block of what is written, and what stands behind it.
proof fn lemma_blocks_apart(written: Seq<u8>, tail: Seq<u8>)
    requires
        written.len() >= 512,
    ensures
        (written + tail).take(512) == written.take(512),
        (written + tail).skip(512) == written.skip(512) + tail,
{
    assert((written + tail).take(512) =~= written.take(512));
    assert((written + tail).skip(512) =~= written.skip(512) + tail);
}

} // verus!
