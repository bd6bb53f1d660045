use vstd::prelude::*;
use vstd::utf8::{decode_utf8, encode_utf8, is_ascii_chars, is_ascii_chars_encode_utf8};
use crate::error::{HeaderError, IndexError};
use crate::header::fields::{core_fits, ext_fits, CoreFields};
use crate::header::gnu::{gnu_magic_bytes, gnu_parse, has_gnu_magic};
use crate::header::helper::{
    decimal_chars, decimal_digits, decimal_len, is_digit, lemma_ascii_is_utf8,
    lemma_decimal_digits, lemma_octal_limits, number_parse, pow10, text_field, text_fits,
};
use crate::header::pax::{
    has_pax_magic, lemma_decimal_len_of_bounds, number_attr, pair_fits, pair_len, pax_encoding,
    pax_flag, record_len, records_len, typed_attr, AttrValue, AttributeView, PaxTypeFlag,
};
use crate::header::pax_round_trip::{
    attrs_ok, lemma_pax_round_trip, pair_ok, pax_ok, pax_read_back, without_byte,
};
use crate::header::traits::{FileKind, IsTypeTrait};
use crate::header::ustar::{
    lemma_ustar_fields_round_trip, lemma_ustar_round_trip, ustar_block, ustar_fits, ustar_flag,
    ustar_raw, UstarFields,
};
use crate::header::{block_parse, tar_parse, TarContent};
use crate::ordered::{key_index, key_position, keys_unique, put};
use crate::stream::padded_len;
use crate::tar::page_path_of;
use super::{
    attr_size, is_page_file, page_attrs, page_file_fields, page_fits, page_header,
    page_header_parse, page_pax_fields, PAGE_SIZE,
};

verus! {

/// The bytes of the texts that the header of a page is made of.
proof fn lemma_page_texts()
    ensures
        encode_utf8("path"@) == seq![0x70u8, 0x61u8, 0x74u8, 0x68u8],
        encode_utf8("size"@) == seq![0x73u8, 0x69u8, 0x7au8, 0x65u8],
        encode_utf8("ustar\0"@) == seq![0x75u8, 0x73u8, 0x74u8, 0x61u8, 0x72u8, 0u8],
        encode_utf8("00"@) == seq![0x30u8, 0x30u8],
        encode_utf8(Seq::<char>::empty()) == Seq::<u8>::empty(),
{
    reveal_strlit("path");
    reveal_strlit("size");
    reveal_strlit("ustar\0");
    reveal_strlit("00");
    assert(is_ascii_chars("path"@));
    assert(is_ascii_chars("size"@));
    assert(is_ascii_chars("ustar\0"@));
    assert(is_ascii_chars("00"@));
    assert(is_ascii_chars(Seq::<char>::empty()));
    is_ascii_chars_encode_utf8("path"@);
    is_ascii_chars_encode_utf8("size"@);
    is_ascii_chars_encode_utf8("ustar\0"@);
    is_ascii_chars_encode_utf8("00"@);
    is_ascii_chars_encode_utf8(Seq::<char>::empty());
    assert(encode_utf8("path"@) =~= seq![0x70u8, 0x61u8, 0x74u8, 0x68u8]);
    assert(encode_utf8("size"@) =~= seq![0x73u8, 0x69u8, 0x7au8, 0x65u8]);
    assert(encode_utf8("ustar\0"@) =~= seq![0x75u8, 0x73u8, 0x74u8, 0x61u8, 0x72u8, 0u8]);
    assert(encode_utf8("00"@) =~= seq![0x30u8, 0x30u8]);
    assert(encode_utf8(Seq::<char>::empty()) =~= Seq::<u8>::empty());
}

/// True when a path can be the one of a page: it fits the name of a header
/// and holds no line feed, which would end its record.
pub open spec fn page_path_ok(path: Seq<char>) -> bool {
    text_fits(path, 100) && without_byte(encode_utf8(path), 0x0au8)
}

/// The decimal writing of a number is read back as that number.
proof fn lemma_decimal_read_back(v: u64)
    ensures
        encode_utf8(decimal_chars(v as nat)) == decimal_digits(v as nat),
        number_parse(decimal_digits(v as nat), 10) == Some(v),
        without_byte(decimal_digits(v as nat), 0x0au8),
{
    broadcast use vstd::utf8::group_utf8_lib;

    let d = decimal_digits(v as nat);
    lemma_decimal_digits(v as nat);
    assert forall|i: int| 0 <= i < d.len() implies d[i] <= 0x7f && d[i] != 0x0au8 by {
        assert(is_digit(d[i], 10));
    }
    lemma_ascii_is_utf8(d);
    assert(is_digit(d[0], 10));
}

/// The record of a pair whose key and value take up to 200 bytes takes up
/// to 206.
proof fn lemma_short_record(base: nat)
    requires
        base <= 203,
    ensures
        record_len(base) <= base + 3,
{
    reveal_with_fuel(pow10, 4);
    lemma_decimal_len_of_bounds(base, 3);
    lemma_decimal_len_of_bounds(base + decimal_len(base), 3);
}

/// The attributes of the header of a page are its path and its size, which
/// are read back from their records.
pub proof fn lemma_page_attrs(path: Seq<char>)
    requires
        page_path_ok(path),
    ensures
        page_attrs(path) == seq![
            ("path"@, AttributeView { value: AttrValue::Default, raw: path }),
            ("size"@, number_attr(PAGE_SIZE)),
        ],
        attrs_ok(page_attrs(path)),
        records_len(page_attrs(path)) <= 512,
        attr_size(page_attrs(path)) == Some(PAGE_SIZE),
{
    reveal(attrs_ok);
    lemma_page_texts();
    reveal_strlit("path");
    reveal_strlit("size");
    reveal_strlit("uid");
    reveal_strlit("gid");
    reveal_strlit("mtime");
    reveal_strlit("atime");
    reveal_strlit("ctime");
    let first = ("path"@, AttributeView { value: AttrValue::Default, raw: path });
    let second = ("size"@, number_attr(PAGE_SIZE));
    let none = Seq::<(Seq<char>, AttributeView)>::empty();
    assert("path"@[0] != "size"@[0]);
    assert(key_index(none, "path"@) is None);
    let one = put(none, "path"@, first.1);
    assert(one =~= seq![first]);
    reveal_with_fuel(key_position, 3);
    assert(key_index(one, "size"@) is None);
    let attrs = page_attrs(path);
    assert(attrs =~= seq![first, second]);
    assert(key_index(attrs, "size"@) == Some(1int));
    // the pairs
    lemma_decimal_read_back(PAGE_SIZE);
    assert("path"@[0] != "uid"@[0] && "path"@[0] != "gid"@[0] && "path"@[0] != "mtime"@[0]
        && "path"@[0] != "atime"@[0] && "path"@[0] != "ctime"@[0]);
    assert(typed_attr("path"@, path) == Ok::<AttributeView, HeaderError>(first.1));
    assert(typed_attr("size"@, second.1.raw) == Ok::<AttributeView, HeaderError>(second.1));
    // the lengths
    lemma_decimal_digits(PAGE_SIZE as nat);
    reveal_with_fuel(pow10, 8);
    lemma_decimal_len_of_bounds(PAGE_SIZE as nat, 7);
    assert(encode_utf8(second.1.raw).len() <= 7);
    assert(without_byte(encode_utf8(second.0), 0x3du8));
    assert(without_byte(encode_utf8(first.0), 0x3du8));
    assert(pair_ok(first));
    assert(pair_ok(second));
    lemma_short_record(encode_utf8(first.0).len() + encode_utf8(first.1.raw).len() + 3);
    lemma_short_record(encode_utf8(second.0).len() + encode_utf8(second.1.raw).len() + 3);
    assert(attrs.drop_last() =~= seq![first]);
    assert(attrs.drop_last().drop_last() =~= none);
    reveal_with_fuel(records_len, 3);
    assert(records_len(attrs) == pair_len(first) + pair_len(second));
    assert forall|i: int| 0 <= i < attrs.len() implies pair_ok(#[trigger] attrs[i]) by {}
    assert forall|i: int| 0 <= i < attrs.len() implies pair_fits(#[trigger] attrs[i]) by {}
    assert(keys_unique(attrs));
}

/// A block in the USTAR layout with the version "00" is read as a block of
/// that layout: it carries no GNU magic.
proof fn lemma_plain_block(f: UstarFields)
    requires
        ustar_fits(f),
        encode_utf8(f.ext.magic) == seq![0x75u8, 0x73u8, 0x74u8, 0x61u8, 0x72u8, 0u8],
        encode_utf8(f.ext.version) == seq![0x30u8, 0x30u8],
    ensures
        ustar_block(f).len() == 512,
        ustar_block(f)[156] == f.core.flag,
        !has_gnu_magic(ustar_block(f)),
        forall|rest: Seq<u8>| gnu_parse(ustar_block(f), rest) == Ok::<
            Option<(crate::header::gnu::GnuFields, nat)>,
            HeaderError,
        >(None),
{
    lemma_ustar_fields_round_trip(f);
    let b = ustar_block(f);
    let m = b.subrange(257, 265);
    let version = text_field(encode_utf8(f.ext.version), 2);
    assert(version =~= seq![0x30u8, 0x30u8]);
    assert(text_field(encode_utf8(f.ext.magic), 6).len() == 6);
    assert(m[6] == version[0]);
    assert(gnu_magic_bytes()[6] == 0x20u8);
}

/// The fields of the two headers of a page fit their places.
proof fn lemma_page_fields(path: Seq<char>)
    requires
        page_path_ok(path),
    ensures
        pax_ok(page_pax_fields(), page_attrs(path)),
        ustar_fits(page_file_fields(path)),
        ustar_fits(
            UstarFields {
                core: CoreFields {
                    size: records_len(page_attrs(path)) as u64,
                    ..page_pax_fields().core
                },
                ..page_pax_fields()
            },
        ),
{
    reveal(pax_ok);
    lemma_page_texts();
    lemma_page_attrs(path);
    lemma_octal_limits();
    assert(text_fits(Seq::<char>::empty(), 100));
    assert(text_fits(Seq::<char>::empty(), 32));
    assert(text_fits(Seq::<char>::empty(), 155));
    assert(ext_fits(page_pax_fields().ext));
    assert(core_fits(page_pax_fields().core));
    assert(core_fits(page_file_fields(path).core));
}

/// The extended header of a page is read back from its two blocks,
/// whatever follows them.
proof fn lemma_page_first(path: Seq<char>, rest: Seq<u8>)
    requires
        page_path_ok(path),
    ensures
        pax_encoding(page_pax_fields(), page_attrs(path)).len() == 1024,
        tar_parse(pax_encoding(page_pax_fields(), page_attrs(path)) + rest) == Ok::<
            (TarContent, nat),
            HeaderError,
        >(
            (
                TarContent::Pax(
                    pax_read_back(page_pax_fields(), page_attrs(path)),
                    page_attrs(path),
                ),
                1024nat,
            ),
        ),
{
    reveal(tar_parse);
    lemma_page_fields(path);
    lemma_records_positive(path);
    let pf = page_pax_fields();
    let attrs = page_attrs(path);
    let sized = UstarFields {
        core: CoreFields { size: records_len(attrs) as u64, ..pf.core },
        ..pf
    };
    let enc = pax_encoding(pf, attrs);
    lemma_pax_round_trip(pf, attrs, rest);
    lemma_page_texts();
    lemma_plain_block(sized);
    assert(padded_len(records_len(attrs)) == 512);
    let b = enc.take(512);
    assert(b =~= ustar_block(sized));
    let rem = enc + rest;
    assert(rem.take(512) =~= b);
    assert(rem.skip(512) =~= enc.skip(512) + rest);
}

/// The header of the file of a page is read back from its block, whatever
/// follows it.
proof fn lemma_page_second(path: Seq<char>, tail: Seq<u8>)
    requires
        page_path_ok(path),
    ensures
        ustar_block(page_file_fields(path)).len() == 512,
        tar_parse(ustar_block(page_file_fields(path)) + tail) is Ok,
        tar_parse(ustar_block(page_file_fields(path)) + tail)->Ok_0.1 == 512,
        is_page_file(
            tar_parse(ustar_block(page_file_fields(path)) + tail)->Ok_0.0,
            Some(PAGE_SIZE),
        ),
{
    reveal(tar_parse);
    lemma_page_fields(path);
    lemma_page_texts();
    let ff = page_file_fields(path);
    let file = ustar_block(ff);
    lemma_plain_block(ff);
    lemma_ustar_round_trip(ff);
    let rem = file + tail;
    assert(rem.take(512) =~= file);
    assert(!has_pax_magic(file));
    let read = UstarFields {
        core: CoreFields { chksum: crate::header::helper::checksum_of(ustar_raw(ff)), ..ff.core },
        ..ff
    };
    assert(block_parse(file, rem.skip(512)) == Ok::<(TarContent, nat), HeaderError>(
        (TarContent::Ustar(read), 0nat),
    ));
    assert(ustar_flag(0x30u8).kind() == FileKind::RegularFile);
}

/// Round trip of the header of a page: what is written for a page whose
/// path can be one of a page is read back as the header of a page,
/// whatever follows it, and takes three blocks.
pub proof fn lemma_page_header_round_trip(path: Seq<char>, tail: Seq<u8>)
    requires
        page_path_ok(path),
    ensures
        page_header(path).len() == 1536,
        page_header_parse(page_header(path) + tail) == Ok::<nat, IndexError>(1536nat),
{
    reveal(page_header);
    let enc = pax_encoding(page_pax_fields(), page_attrs(path));
    let file = ustar_block(page_file_fields(path));
    let rem = page_header(path) + tail;
    lemma_page_first(path, file + tail);
    lemma_page_second(path, tail);
    lemma_page_attrs(path);
    assert(rem =~= enc + (file + tail));
    assert(rem.skip(1024) =~= file + tail);
    assert(pax_flag(0x78u8) == PaxTypeFlag::Extended);
}

/// A page whose path can be one of a page has room at an offset exactly
/// when the three blocks of its header end within 64 bits.
pub proof fn lemma_page_fits(offset: u64, path: Seq<char>)
    requires
        page_path_ok(path),
    ensures
        page_fits(offset, path) <==> offset + 1536 <= u64::MAX,
{
    reveal(attrs_ok);
    lemma_page_attrs(path);
    lemma_page_header_round_trip(path, Seq::<u8>::empty());
}

/// The decimal writing of a number is made of ASCII digits.
proof fn lemma_decimal_chars(v: nat)
    ensures
        is_ascii_chars(decimal_chars(v)),
        decimal_chars(v).len() == decimal_len(v),
        forall|i: int|
            0 <= i < decimal_chars(v).len() ==> '0' <= #[trigger] decimal_chars(v)[i] <= '9',
{
    broadcast use vstd::utf8::group_utf8_lib;

    let d = decimal_digits(v);
    lemma_decimal_digits(v);
    let chars = Seq::new(d.len(), |i: int| d[i] as char);
    assert forall|i: int| 0 <= i < chars.len() implies '0' <= #[trigger] chars[i] <= '9' by {
        assert(is_digit(d[i], 10));
    }
    assert(is_ascii_chars(chars));
    is_ascii_chars_encode_utf8(chars);
    assert(encode_utf8(chars) =~= d) by {
        assert forall|i: int| 0 <= i < d.len() implies encode_utf8(chars)[i] == d[i] by {
            assert(is_digit(d[i], 10));
            assert(chars[i] as u8 == d[i]);
        }
    }
    assert(decode_utf8(encode_utf8(chars)) == chars);
}

/// The path that the archive gives to the page of any number can be the
/// one of a page.
pub proof fn lemma_page_path(number: u64)
    ensures
        page_path_ok(page_path_of(number as nat)),
{
    broadcast use vstd::utf8::group_utf8_lib;

    reveal_strlit(".");
    reveal_strlit(".rhindex");
    let digits = decimal_chars(number as nat);
    lemma_decimal_chars(number as nat);
    reveal_with_fuel(pow10, 21);
    lemma_decimal_len_of_bounds(number as nat, 20);
    let path = page_path_of(number as nat);
    assert(path.len() == 1 + digits.len() + 8);
    assert forall|i: int| 0 <= i < path.len() implies '\0' < #[trigger] path[i] <= '\u{7f}'
        && path[i] != '\n' by {
        if i < 1 {
        } else if i < 1 + digits.len() {
            assert(path[i] == digits[i - 1]);
        } else {
            assert(path[i] == ".rhindex"@[i - 1 - digits.len()]);
        }
    }
    assert(is_ascii_chars(path));
    is_ascii_chars_encode_utf8(path);
    let bytes = encode_utf8(path);
    assert forall|i: int| 0 <= i < bytes.len() implies bytes[i] != 0 && bytes[i] != 0x0au8 by {
        assert(bytes[i] == path[i] as u8);
    }
}

/// The records of the attributes of a page take at least one byte.
proof fn lemma_records_positive(path: Seq<char>)
    requires
        page_path_ok(path),
    ensures
        0 < records_len(page_attrs(path)) <= 512,
{
    lemma_page_attrs(path);
    let attrs = page_attrs(path);
    crate::header::pax::lemma_decimal_len_bounds(
        encode_utf8(attrs.last().0).len() + encode_utf8(attrs.last().1.raw).len() + 3,
    );
    crate::header::pax::lemma_decimal_len_bounds(
        encode_utf8(attrs.last().0).len() + encode_utf8(attrs.last().1.raw).len() + 3
            + decimal_len(encode_utf8(attrs.last().0).len() + encode_utf8(attrs.last().1.raw).len() + 3),
    );
}

} // verus!
