use vstd::prelude::*;
use vstd::utf8::{decode_utf8, encode_utf8, valid_utf8};
use crate::error::HeaderError;
use crate::ordered::{key_index, key_position, keys_unique, put};
use crate::stream::{block_padding, padded_len};
use super::fields::CoreFields;
use super::helper::{
    checksum_of, decimal_digits, decimal_len, find_byte, is_digit,
    lemma_ascii_is_utf8, lemma_decimal_digits, lemma_find_byte, number_parse, octal_fits, sealed,
    text_parse, zeros,
};
use super::pax::{
    attrs_fit, has_pax_magic, insert_all, lemma_record_len, lemma_records_len, pair_fits,
    pair_len, pax_encoding, pax_parse, pax_raw, record, record_parse, records, records_len,
    records_parse_from, typed_attr, AttributeView,
};
use super::ustar::{
    lemma_ustar_fields_round_trip, ustar_block, ustar_fields_parse, ustar_fits, ustar_raw,
    UstarFields,
};

verus! {

/// True when the bytes hold no byte `b`.
pub open spec fn without_byte(s: Seq<u8>, b: u8) -> bool {
    forall|i: int| 0 <= i < s.len() ==> s[i] != b
}

/// True when a pair is read back from its record: the key holds no equals
/// sign and the raw value no line feed, the value is the one that the key
/// asks for, and the length of the record fits in 64 bits.
pub open spec fn pair_ok(pair: (Seq<char>, AttributeView)) -> bool {
    &&& without_byte(encode_utf8(pair.0), 0x3d)
    &&& without_byte(encode_utf8(pair.1.raw), 0x0a)
    &&& typed_attr(pair.0, pair.1.raw) == Ok::<AttributeView, HeaderError>(pair.1)
    &&& pair_fits(pair)
}

/// True when the attributes are read back from their records: every pair
/// is, no key stands twice, and the lengths fit the machine's integers.
#[verifier::opaque]
pub open spec fn attrs_ok(attrs: Seq<(Seq<char>, AttributeView)>) -> bool {
    &&& forall|i: int| 0 <= i < attrs.len() ==> pair_ok(#[trigger] attrs[i])
    &&& keys_unique(attrs)
    &&& attrs_fit(attrs)
}

/// `find_byte` is the first place at or after `from` that holds the byte.
pub proof fn lemma_find_byte_is(s: Seq<u8>, b: u8, from: int, at: int)
    requires
        0 <= from <= at < s.len(),
        s[at] == b,
        forall|i: int| from <= i < at ==> s[i] != b,
    ensures
        find_byte(s, b, from) == at,
    decreases at - from,
{
    if from < at {
        lemma_find_byte_is(s, b, from + 1, at);
    }
}

/// Read as a whole, bytes that are UTF-8 give the text that they encode.
pub proof fn lemma_whole_text(chars: Seq<char>)
    ensures
        text_parse(encode_utf8(chars), encode_utf8(chars).len() as int) == Ok::<
            Seq<char>,
            HeaderError,
        >(chars),
{
    broadcast use vstd::utf8::group_utf8_lib;

    let bytes = encode_utf8(chars);
    assert(bytes.take(bytes.len() as int) =~= bytes);
}

/// The decimal writing of a 64-bit number is read back as that number, and
/// holds digits only.
pub proof fn lemma_decimal_round_trip(v: nat)
    requires
        v <= u64::MAX,
    ensures
        number_parse(decimal_digits(v), 10) == Some(v as u64),
        without_byte(decimal_digits(v), 0x20),
        valid_utf8(decimal_digits(v)),
        decimal_digits(v).len() >= 1,
{
    let d = decimal_digits(v);
    lemma_decimal_digits(v);
    assert(is_digit(d[0], 10));
    assert forall|i: int| 0 <= i < d.len() implies d[i] != 0x20 && d[i] <= 0x7f by {
        assert(is_digit(d[i], 10));
    }
    lemma_ascii_is_utf8(d);
}

/// The length of a record is at most 20 bytes more than what its key, its
/// value and its separators take.
pub proof fn lemma_pair_len_bound(pair: (Seq<char>, AttributeView))
    requires
        pair_fits(pair),
    ensures
        pair_len(pair) <= encode_utf8(pair.0).len() + encode_utf8(pair.1.raw).len() + 23,
        pair_len(pair) <= u64::MAX,
{
    let base = encode_utf8(pair.0).len() + encode_utf8(pair.1.raw).len() + 3;
    reveal_with_fuel(super::helper::pow10, 21);
    assert(super::helper::pow10(20) == 100000000000000000000);
    super::pax::lemma_decimal_len_of_bounds(base, 20);
    super::pax::lemma_decimal_len_of_bounds(base + decimal_len(base), 20);
}

/// Where the parts of a record stand that begins at `pos` in the data: the
/// digits of the length up to the first space, the key up to the first
/// equals sign behind it, and the raw value up to the first line feed behind
/// that.
pub proof fn lemma_record_places(data: Seq<u8>, pos: int, pair: (Seq<char>, AttributeView))
    requires
        pair_ok(pair),
        0 <= pos,
        pos + record(pair).len() <= data.len(),
        data.subrange(pos, pos + record(pair).len()) == record(pair),
    ensures
        ({
            let digits = decimal_digits(pair_len(pair));
            let key = encode_utf8(pair.0);
            let raw = encode_utf8(pair.1.raw);
            let space = pos + digits.len();
            let equals = space + 1 + key.len();
            let feed = equals + 1 + raw.len();
            &&& record(pair).len() == pair_len(pair)
            &&& feed + 1 == pos + record(pair).len()
            &&& find_byte(data, 0x20, pos) == space
            &&& find_byte(data, 0x3d, space + 1) == equals
            &&& find_byte(data, 0x0a, equals + 1) == feed
            &&& data.subrange(pos, space) == digits
            &&& data.subrange(space + 1, equals) == key
            &&& data.subrange(equals + 1, feed) == raw
        }),
{
    let r = record(pair);
    let digits = decimal_digits(pair_len(pair));
    let key = encode_utf8(pair.0);
    let raw = encode_utf8(pair.1.raw);
    lemma_record_len(pair);
    lemma_pair_len_bound(pair);
    lemma_decimal_round_trip(pair_len(pair));
    let space = pos + digits.len();
    let equals = space + 1 + key.len();
    let feed = equals + 1 + raw.len();
    assert(r.len() == digits.len() + key.len() + raw.len() + 3);
    assert forall|j: int| 0 <= j < r.len() implies data[pos + j] == #[trigger] r[j] by {
        assert(data.subrange(pos, pos + r.len())[j] == data[pos + j]);
    }
    assert(r.subrange(0, digits.len() as int) =~= digits);
    assert(r.subrange(space + 1 - pos, equals - pos) =~= key);
    assert(r.subrange(equals + 1 - pos, feed - pos) =~= raw);
    lemma_part_place(data, pos, r, 0, digits, 0x20);
    lemma_part_place(data, pos, r, space + 1 - pos, key, 0x3d);
    lemma_part_place(data, pos, r, equals + 1 - pos, raw, 0x0a);
}

/// A part of a record that holds no byte `b` and is followed by one is found
/// in the data as it stands in the record, and the byte is the first one
/// behind the start of the part.
pub proof fn lemma_part_place(data: Seq<u8>, pos: int, r: Seq<u8>, at: int, part: Seq<u8>, b: u8)
    requires
        0 <= pos,
        0 <= at,
        at + part.len() < r.len(),
        pos + r.len() <= data.len(),
        forall|j: int| 0 <= j < r.len() ==> data[pos + j] == #[trigger] r[j],
        r.subrange(at, at + part.len()) == part,
        r[at + part.len()] == b,
        without_byte(part, b),
    ensures
        find_byte(data, b, pos + at) == pos + at + part.len(),
        data.subrange(pos + at, pos + at + part.len()) == part,
{
    let from = pos + at;
    let to = from + part.len();
    assert forall|i: int| from <= i < to implies data[i] != b by {
        assert(data[i] == r[i - pos]);
        assert(r.subrange(at, at + part.len())[i - from] == r[i - pos]);
    }
    assert(data[to] == r[to - pos]);
    lemma_find_byte_is(data, b, from, to);
    assert(data.subrange(from, to) =~= part) by {
        assert forall|j: int| 0 <= j < part.len() implies data.subrange(from, to)[j] == part[j] by {
            assert(data[from + j] == r[at + j]);
            assert(r.subrange(at, at + part.len())[j] == r[at + j]);
        }
    }
}

/// A record that stands at `pos` in the data is read as its pair, and the
/// next record begins behind it.
pub proof fn lemma_record_round_trip(data: Seq<u8>, pos: int, pair: (Seq<char>, AttributeView))
    requires
        pair_ok(pair),
        0 <= pos,
        pos + record(pair).len() <= data.len(),
        data.subrange(pos, pos + record(pair).len()) == record(pair),
    ensures
        record_parse(data, pos) == Ok::<Option<((Seq<char>, AttributeView), int)>, HeaderError>(
            Some((pair, pos + record(pair).len())),
        ),
        record(pair).len() == pair_len(pair),
        record(pair).len() > 0,
{
    lemma_record_places(data, pos, pair);
    lemma_pair_len_bound(pair);
    lemma_decimal_round_trip(pair_len(pair));
    let digits = decimal_digits(pair_len(pair));
    assert(digits.take(digits.len() as int) =~= digits);
    lemma_whole_text(pair.0);
    lemma_whole_text(pair.1.raw);
}

/// The records of the first pairs stand at the start of the records of all.
pub proof fn lemma_records_prefix(attrs: Seq<(Seq<char>, AttributeView)>, i: int)
    requires
        0 <= i <= attrs.len(),
    ensures
        records(attrs.take(i)).len() <= records(attrs).len(),
        records(attrs).take(records(attrs.take(i)).len() as int) == records(attrs.take(i)),
    decreases attrs.len() - i,
{
    if i < attrs.len() {
        lemma_records_prefix(attrs, i + 1);
        assert(attrs.take(i + 1).drop_last() =~= attrs.take(i));
        let longer = records(attrs.take(i + 1));
        let shorter = records(attrs.take(i));
        assert(longer == shorter + record(attrs[i]));
        assert(records(attrs).take(shorter.len() as int) =~= shorter) by {
            assert(records(attrs).take(longer.len() as int) == longer);
        }
    } else {
        assert(attrs.take(i) =~= attrs);
        assert(records(attrs).take(records(attrs).len() as int) =~= records(attrs));
    }
}

/// From the place behind the first `i` records on, the records are read as
/// the pairs from the `i`-th on.
pub proof fn lemma_records_round_trip(attrs: Seq<(Seq<char>, AttributeView)>, i: int)
    requires
        attrs_ok(attrs),
        0 <= i <= attrs.len(),
    ensures
        records_parse_from(records(attrs), records(attrs.take(i)).len() as int) == Ok::<
            Seq<(Seq<char>, AttributeView)>,
            HeaderError,
        >(attrs.skip(i)),
    decreases attrs.len() - i,
{
    reveal(attrs_ok);
    let data = records(attrs);
    let pos = records(attrs.take(i)).len() as int;
    lemma_records_prefix(attrs, i);
    if i < attrs.len() {
        let pair = attrs[i];
        lemma_records_prefix(attrs, i + 1);
        assert(attrs.take(i + 1).drop_last() =~= attrs.take(i));
        let next = records(attrs.take(i + 1)).len() as int;
        assert(records(attrs.take(i + 1)) == records(attrs.take(i)) + record(pair));
        assert(data.subrange(pos, pos + record(pair).len()) =~= record(pair)) by {
            assert(data.take(next) == records(attrs.take(i)) + record(pair));
            assert forall|j: int| 0 <= j < record(pair).len() implies data[pos + j] == record(
                pair,
            )[j] by {
                assert(data.take(next)[pos + j] == data[pos + j]);
            }
        }
        lemma_record_round_trip(data, pos, pair);
        lemma_records_round_trip(attrs, i + 1);
        assert(seq![pair] + attrs.skip(i + 1) =~= attrs.skip(i));
    } else {
        assert(attrs.take(i) =~= attrs);
        lemma_find_byte(data, 0x20, pos);
        assert(attrs.skip(i) =~= Seq::<(Seq<char>, AttributeView)>::empty());
    }
}

/// Pairs whose keys differ, inserted one after the other into an empty map,
/// make the map that holds them in their order.
pub proof fn lemma_insert_all_unique(attrs: Seq<(Seq<char>, AttributeView)>)
    requires
        keys_unique(attrs),
    ensures
        insert_all(Seq::<(Seq<char>, AttributeView)>::empty(), attrs) == attrs,
    decreases attrs.len(),
{
    if attrs.len() > 0 {
        let front = attrs.drop_last();
        let last = attrs.last();
        assert forall|i: int, j: int|
            0 <= i < front.len() && 0 <= j < front.len() && #[trigger] front[i].0
                == #[trigger] front[j].0 implies i == j by {
            assert(attrs[i].0 == attrs[j].0);
        }
        lemma_insert_all_unique(front);
        crate::ordered::lemma_key_position(front, last.0, 0);
        let at = key_position(front, last.0, 0);
        if at < front.len() {
            assert(attrs[at].0 == attrs[attrs.len() - 1].0);
        }
        assert(key_index(front, last.0) is None);
        assert(front.push(last) =~= attrs);
    } else {
        assert(attrs =~= Seq::<(Seq<char>, AttributeView)>::empty());
    }
}

/// The fields of a PAX header as they are read back: the size is the one of
/// the attribute data, and the checksum the one that was computed.
pub open spec fn pax_read_back(f: UstarFields, attrs: Seq<(Seq<char>, AttributeView)>)
    -> UstarFields {
    UstarFields {
        core: CoreFields {
            size: records_len(attrs) as u64,
            chksum: checksum_of(pax_raw(f, attrs)),
            ..f.core
        },
        ..f
    }
}

/// True when a PAX header is read back from what is written for it: its
/// fields fit their places, the magic is "ustar" with a NUL byte or a space,
/// the version is "00" or a space and a NUL byte, the type flag is the one
/// of an extended or of a global header, the size of the attribute data
/// fits its field, and the attributes are read back from their records.
#[verifier::opaque]
pub open spec fn pax_ok(f: UstarFields, attrs: Seq<(Seq<char>, AttributeView)>) -> bool {
    &&& ustar_fits(f)
    &&& octal_fits(records_len(attrs), 12)
    &&& (encode_utf8(f.ext.magic) == seq![0x75u8, 0x73u8, 0x74u8, 0x61u8, 0x72u8, 0u8]
        || encode_utf8(f.ext.magic) == seq![0x75u8, 0x73u8, 0x74u8, 0x61u8, 0x72u8, 0x20u8])
    &&& (encode_utf8(f.ext.version) == seq![0x30u8, 0x30u8] || encode_utf8(f.ext.version)
        == seq![0x20u8, 0u8])
    &&& (f.core.flag == 0x78 || f.core.flag == 0x67)
    &&& attrs_ok(attrs)
}

/// The header block of a PAX header that is fit for it is a block of 512
/// bytes with the magic, the version and the type flag of a PAX header, from
/// which the fields are read back.
pub proof fn lemma_pax_block(f: UstarFields, attrs: Seq<(Seq<char>, AttributeView)>)
    requires
        pax_ok(f, attrs),
    ensures
        sealed(pax_raw(f, attrs)).len() == 512,
        has_pax_magic(sealed(pax_raw(f, attrs))),
        ustar_fields_parse(sealed(pax_raw(f, attrs))) == Ok::<UstarFields, HeaderError>(
            pax_read_back(f, attrs),
        ),
        attrs_fit(attrs),
        attrs_ok(attrs),
        records_len(attrs) <= u64::MAX,
{
    reveal(pax_ok);
    reveal(attrs_ok);
    let size = records_len(attrs);
    let sized = UstarFields { core: CoreFields { size: size as u64, ..f.core }, ..f };
    assert(pax_raw(f, attrs) == ustar_raw(sized));
    super::helper::lemma_octal_limits();
    lemma_ustar_fields_round_trip(sized);
    let block = ustar_block(sized);
    let m = block.subrange(257, 265);
    assert(m[0] == block[257] && m[1] == block[258] && m[2] == block[259] && m[3] == block[260]
        && m[4] == block[261] && m[5] == block[262] && m[6] == block[263] && m[7] == block[264]);
}

/// The attributes are read back from their records, and inserted one after
/// the other they make the map that holds them in their order.
pub proof fn lemma_pax_data(attrs: Seq<(Seq<char>, AttributeView)>)
    requires
        attrs_ok(attrs),
    ensures
        records(attrs).len() == records_len(attrs),
        records_parse_from(records(attrs), 0) == Ok::<
            Seq<(Seq<char>, AttributeView)>,
            HeaderError,
        >(attrs),
        insert_all(Seq::<(Seq<char>, AttributeView)>::empty(), attrs) == attrs,
{
    reveal(attrs_ok);
    lemma_records_len(attrs);
    assert(attrs.take(0) =~= Seq::<(Seq<char>, AttributeView)>::empty());
    lemma_records_round_trip(attrs, 0);
    assert(attrs.skip(0) =~= attrs);
    lemma_insert_all_unique(attrs);
}

/// A header block, the attribute data and their padding are read as the
/// header whose fields the block gives and whose attributes the data give.
pub proof fn lemma_pax_compose(
    block: Seq<u8>,
    data: Seq<u8>,
    padding: Seq<u8>,
    tail: Seq<u8>,
    found: UstarFields,
    attrs: Seq<(Seq<char>, AttributeView)>,
)
    requires
        block.len() == 512,
        has_pax_magic(block),
        ustar_fields_parse(block) == Ok::<UstarFields, HeaderError>(found),
        found.core.size == data.len(),
        padding.len() == block_padding(data.len()),
        records_parse_from(data, 0) == Ok::<Seq<(Seq<char>, AttributeView)>, HeaderError>(attrs),
        insert_all(Seq::<(Seq<char>, AttributeView)>::empty(), attrs) == attrs,
        attrs_fit(attrs),
    ensures
        (block + data + padding).len() == 512 + padded_len(data.len()),
        pax_parse((block + data + padding).take(512), (block + data + padding).skip(512) + tail)
            == Ok::<Option<(UstarFields, Seq<(Seq<char>, AttributeView)>, nat)>, HeaderError>(
            Some((found, attrs, padded_len(data.len()))),
        ),
{
    lemma_framing(block, data, padding, tail);
    let size = data.len();
    assert(size + block_padding(size) == padded_len(size));
}

/// Round trip: a PAX header that is fit for it is read back from what is
/// written for it, whatever follows in the stream: the fields, with the
/// size of the attribute data and the checksum that was computed, and the
/// attributes in their order; as many bytes are taken as were written
/// behind the header block.
pub proof fn lemma_pax_round_trip(
    f: UstarFields,
    attrs: Seq<(Seq<char>, AttributeView)>,
    tail: Seq<u8>,
)
    requires
        pax_ok(f, attrs),
    ensures
        pax_encoding(f, attrs).len() == 512 + padded_len(records_len(attrs)),
        pax_parse(pax_encoding(f, attrs).take(512), pax_encoding(f, attrs).skip(512) + tail) == Ok::<
            Option<(UstarFields, Seq<(Seq<char>, AttributeView)>, nat)>,
            HeaderError,
        >(Some((pax_read_back(f, attrs), attrs, padded_len(records_len(attrs))))),
{
    lemma_pax_block(f, attrs);
    lemma_pax_data(attrs);
    lemma_pax_compose(
        sealed(pax_raw(f, attrs)),
        records(attrs),
        zeros(block_padding(records_len(attrs)) as int),
        tail,
        pax_read_back(f, attrs),
        attrs,
    );
}

/// A block, a payload and its padding, written one behind the other, are
/// found again at their places, whatever follows.
pub proof fn lemma_framing(block: Seq<u8>, data: Seq<u8>, padding: Seq<u8>, tail: Seq<u8>)
    requires
        block.len() == 512,
    ensures
        (block + data + padding).len() == 512 + data.len() + padding.len(),
        (block + data + padding).take(512) == block,
        ((block + data + padding).skip(512) + tail).len() >= data.len() + padding.len(),
        ((block + data + padding).skip(512) + tail).take(data.len() as int) == data,
        ((block + data + padding).skip(512) + tail).skip((data.len() + padding.len()) as int)
            == tail,
{
    let whole = block + data + padding;
    assert(whole.take(512) =~= block);
    let rest = whole.skip(512) + tail;
    assert(rest =~= data + padding + tail);
    assert(rest.take(data.len() as int) =~= data);
    assert(rest.skip((data.len() + padding.len()) as int) =~= tail);
}

} // verus!
