use vstd::prelude::*;
use vstd::utf8::{decode_utf8, encode_utf8, valid_utf8};
use crate::error::HeaderError;
use crate::stream::{block_padding, padded_len};
use super::fields::{
    core_bytes, core_fits, ext_bytes, ext_fits, lemma_core_layout, lemma_core_round_trip_skipping,
    lemma_ext_layout, lemma_ext_round_trip, max64, CoreFields,
};
use super::gnu::{
    chain_parse, gnu_block_parse, gnu_blocks, gnu_core, gnu_encoding, gnu_fields_of,
    gnu_fields_parse, gnu_flag, gnu_flag_byte, gnu_magic_bytes, gnu_middle, gnu_parse,
    gnu_parse_link, gnu_raw, has_gnu_magic, incremental_parse, lemma_gnu_middle_len,
    lemma_sparse_bytes_len, long_parse, long_raw, long_record, more_flag, opt_octal_field,
    opt_octal_parse, slot_parse, slots_parse, sparse_blocks, sparse_bytes, sparse_ext,
    sparse_head, sparse_pair, sparse_slots, sparse_tail, GnuBlockFields, GnuFields, GnuTypeFlag,
    SparseEntry,
};
use super::helper::{
    checksum_of, lemma_checksum_of_sealed, lemma_octal_field_len, lemma_octal_limits,
    lemma_octal_round_trip, lemma_octal_text, octal_field, octal_fits, octal_parse_in,
    octal_text, padded_text_parse, pow8, sealed, strip_nuls, text_field, text_fits, zeros,
};

verus! {

/// True when a sparse entry is read back from its place: its numbers have no
/// more than 11 octal digits.
pub open spec fn entry_fits(e: SparseEntry) -> bool {
    octal_fits(e.offset as nat, 12) && octal_fits(e.numbytes as nat, 12)
}

/// An octal field of 12 bytes begins with a digit, and so is not made of NUL
/// bytes.
pub proof fn lemma_octal_field_not_zero(v: nat)
    requires
        octal_fits(v, 12),
    ensures
        octal_field(v, 12) != zeros(12),
        octal_field(v, 12).len() == 12,
        v <= u64::MAX,
{
    lemma_octal_limits();
    lemma_octal_text(v, 11);
    let text = octal_text(v, 11);
    assert(text.skip(0) =~= text);
    assert(super::helper::is_digit(text[0], 8));
    assert(octal_field(v, 12)[0] == text[0]);
    assert(zeros(12)[0] == 0);
}

/// A field for an optional number is read back.
pub proof fn lemma_opt_octal_round_trip(v: Option<u64>)
    requires
        v matches Some(n) ==> octal_fits(n as nat, 12),
    ensures
        opt_octal_field(v).len() == 12,
        opt_octal_parse(opt_octal_field(v)) == v,
{
    match v {
        Some(n) => {
            lemma_octal_field_not_zero(n as nat);
            lemma_octal_round_trip(n as nat, 12);
        },
        None => {},
    }
}

/// The place of a sparse entry is read back as the entry.
pub proof fn lemma_slot_round_trip(b: Seq<u8>, at: int, e: SparseEntry)
    requires
        entry_fits(e),
        0 <= at,
        at + 24 <= b.len(),
        b.subrange(at, at + 24) == sparse_pair(e),
    ensures
        slot_parse(b, at) == Ok::<Option<SparseEntry>, HeaderError>(Some(e)),
{
    lemma_octal_field_not_zero(e.offset as nat);
    lemma_octal_field_not_zero(e.numbytes as nat);
    lemma_octal_round_trip(e.offset as nat, 12);
    lemma_octal_round_trip(e.numbytes as nat, 12);
    let pair = b.subrange(at, at + 24);
    assert(b.subrange(at, at + 12) =~= pair.subrange(0, 12));
    assert(b.subrange(at + 12, at + 24) =~= pair.subrange(12, 24));
    assert(pair.subrange(0, 12) =~= octal_field(e.offset as nat, 12));
    assert(pair.subrange(12, 24) =~= octal_field(e.numbytes as nat, 12));
}

/// A place of NUL bytes holds no sparse entry.
pub proof fn lemma_slot_empty(b: Seq<u8>, at: int)
    requires
        0 <= at,
        at + 24 <= b.len(),
        b.subrange(at, at + 12) == zeros(12),
    ensures
        slot_parse(b, at) == Ok::<Option<SparseEntry>, HeaderError>(None),
{
}

/// The bytes of the first sparse entries stand at the start of the bytes of
/// all.
pub proof fn lemma_sparse_bytes_index(entries: Seq<SparseEntry>, i: int)
    requires
        0 <= i < entries.len(),
    ensures
        sparse_bytes(entries).len() == 24 * entries.len(),
        sparse_bytes(entries).subrange(24 * i, 24 * i + 24) == sparse_pair(entries[i]),
    decreases entries.len(),
{
    lemma_sparse_bytes_len(entries);
    lemma_sparse_bytes_len(entries.drop_last());
    lemma_octal_field_len(entries.last().offset as nat, 12);
    lemma_octal_field_len(entries.last().numbytes as nat, 12);
    let all = sparse_bytes(entries);
    if i == entries.len() - 1 {
        assert(all.subrange(24 * i, 24 * i + 24) =~= sparse_pair(entries[i]));
    } else {
        lemma_sparse_bytes_index(entries.drop_last(), i);
        assert(all.subrange(24 * i, 24 * i + 24) =~= sparse_bytes(entries.drop_last()).subrange(
            24 * i,
            24 * i + 24,
        ));
    }
}

/// Places that hold sparse entries and then NUL bytes are read back as the
/// entries: the first `count` places as the first `count` entries.
pub proof fn lemma_slots_round_trip(
    b: Seq<u8>,
    base: int,
    entries: Seq<SparseEntry>,
    slots: int,
    count: nat,
)
    requires
        0 <= base,
        entries.len() <= slots,
        count <= slots,
        base + 24 * slots <= b.len(),
        b.subrange(base, base + 24 * slots) == sparse_slots(entries, slots),
        forall|i: int| 0 <= i < entries.len() ==> entry_fits(#[trigger] entries[i]),
    ensures
        slots_parse(b, base, count) == Ok::<Seq<SparseEntry>, HeaderError>(
            if count <= entries.len() {
                entries.take(count as int)
            } else {
                entries
            },
        ),
    decreases count,
{
    if count > 0 {
        lemma_slots_round_trip(b, base, entries, slots, (count - 1) as nat);
        let i = count - 1;
        let at = base + 24 * i;
        let region = b.subrange(base, base + 24 * slots);
        lemma_sparse_bytes_len(entries);
        if i < entries.len() {
            lemma_sparse_bytes_index(entries, i);
            assert(b.subrange(at, at + 24) =~= sparse_pair(entries[i])) by {
                assert forall|j: int| 0 <= j < 24 implies b[at + j] == sparse_pair(entries[i])[j] by {
                    assert(region[24 * i + j] == b[at + j]);
                    assert(sparse_bytes(entries).subrange(24 * i, 24 * i + 24)[j]
                        == sparse_bytes(entries)[24 * i + j]);
                }
                lemma_octal_field_len(entries[i].offset as nat, 12);
                lemma_octal_field_len(entries[i].numbytes as nat, 12);
            }
            lemma_slot_round_trip(b, at, entries[i]);
            assert(entries.take(i).push(entries[i]) =~= entries.take(count as int));
        } else {
            assert(b.subrange(at, at + 12) =~= zeros(12)) by {
                assert forall|j: int| 0 <= j < 12 implies #[trigger] b.subrange(at, at + 12)[j]
                    == 0 by {
                    assert(region[24 * i + j] == b[at + j]);
                }
            }
            lemma_slot_empty(b, at);
            if i == entries.len() {
                assert(entries.take(i) =~= entries);
            }
        }
    } else {
        assert(entries.take(0) =~= Seq::<SparseEntry>::empty());
    }
}


/// A block of extension places holds 504 bytes of places.
pub proof fn lemma_sparse_slots_len(entries: Seq<SparseEntry>, slots: int)
    requires
        entries.len() <= slots,
    ensures
        sparse_slots(entries, slots).len() == 24 * slots,
{
    lemma_sparse_bytes_len(entries);
}

/// True when every sparse entry is read back from its place.
#[verifier::opaque]
pub open spec fn entries_fit(entries: Seq<SparseEntry>) -> bool {
    forall|i: int| 0 <= i < entries.len() ==> entry_fits(#[trigger] entries[i])
}

/// The entries of the first extension block: up to 21.
pub open spec fn first_block_entries(entries: Seq<SparseEntry>) -> Seq<SparseEntry> {
    if entries.len() <= 21 {
        entries
    } else {
        entries.take(21)
    }
}

/// The entries of the extension blocks behind the first one.
pub open spec fn other_block_entries(entries: Seq<SparseEntry>) -> Seq<SparseEntry> {
    if entries.len() <= 21 {
        Seq::<SparseEntry>::empty()
    } else {
        entries.skip(21)
    }
}

/// The first extension block.
pub open spec fn first_block(entries: Seq<SparseEntry>) -> Seq<u8> {
    sparse_slots(first_block_entries(entries), 21) + seq![more_flag(entries.len() > 21)] + zeros(
        7,
    )
}

/// The first extension block is a block of 512 bytes whose places are read
/// back as its entries, and the other blocks follow it.
pub proof fn lemma_first_block(entries: Seq<SparseEntry>)
    requires
        entries.len() > 0,
        entries_fit(entries),
    ensures
        first_block(entries).len() == 512,
        first_block(entries)[504] == more_flag(entries.len() > 21),
        sparse_ext(entries) == first_block(entries) + sparse_ext(other_block_entries(entries)),
        slots_parse(first_block(entries), 0, 21) == Ok::<Seq<SparseEntry>, HeaderError>(
            first_block_entries(entries),
        ),
        first_block_entries(entries) + other_block_entries(entries) == entries,
        other_block_entries(entries).len() < entries.len(),
        (other_block_entries(entries).len() > 0) == (entries.len() > 21),
        entries_fit(other_block_entries(entries)),
{
    reveal(entries_fit);
    let first = first_block_entries(entries);
    let others = other_block_entries(entries);
    let places = sparse_slots(first, 21);
    lemma_sparse_slots_len(first, 21);
    let block = first_block(entries);
    assert(block.len() == 512);
    assert(block.subrange(0, 504) =~= places);
    assert forall|i: int| 0 <= i < first.len() implies entry_fits(#[trigger] first[i]) by {
        assert(first[i] == entries[i]);
    }
    lemma_slots_round_trip(block, 0, first, 21, 21);
    assert(first.len() >= 21 ==> first.take(21) =~= first);
    assert(first + others =~= entries);
    if entries.len() <= 21 {
        assert(sparse_ext(others) =~= Seq::<u8>::empty());
        assert(sparse_ext(entries) =~= block + sparse_ext(others));
    } else {
        assert forall|i: int| 0 <= i < others.len() implies entry_fits(#[trigger] others[i]) by {
            assert(others[i] == entries[21 + i]);
        }
    }
}

/// The chain of extension blocks is read back as the entries that it was
/// written for, whatever follows it, and takes as many bytes as it has.
pub proof fn lemma_chain_round_trip(entries: Seq<SparseEntry>, tail: Seq<u8>)
    requires
        entries_fit(entries),
    ensures
        chain_parse(sparse_ext(entries) + tail, entries.len() > 0) == Ok::<
            (Seq<SparseEntry>, nat),
            HeaderError,
        >((entries, sparse_ext(entries).len())),
        (sparse_ext(entries) + tail).skip(sparse_ext(entries).len() as int) == tail,
    decreases entries.len(),
{
    let data = sparse_ext(entries) + tail;
    assert(data.skip(sparse_ext(entries).len() as int) =~= tail);
    if entries.len() == 0 {
        assert(sparse_ext(entries) =~= Seq::<u8>::empty());
        assert(entries =~= Seq::<SparseEntry>::empty());
    } else {
        lemma_first_block(entries);
        let block = first_block(entries);
        let others = other_block_entries(entries);
        lemma_chain_round_trip(others, tail);
        let rest = sparse_ext(others) + tail;
        lemma_block_split(block, sparse_ext(others), tail);
        assert(data == block + sparse_ext(others) + tail);
        assert(block + sparse_ext(others) + tail =~= block + rest);
        assert(data.skip(512) == rest);
        assert(chain_parse(rest, others.len() > 0) == Ok::<(Seq<SparseEntry>, nat), HeaderError>(
            (others, sparse_ext(others).len()),
        ));
        assert(data.len() >= 512);
        assert(chain_parse(data, true) == Ok::<(Seq<SparseEntry>, nat), HeaderError>(
            (first_block_entries(entries) + others, sparse_ext(others).len() + 512),
        ));
    }
}

/// A block and what is written behind it are found again at their places.
pub proof fn lemma_block_split(block: Seq<u8>, more: Seq<u8>, tail: Seq<u8>)
    requires
        block.len() == 512,
    ensures
        (block + more + tail).len() == 512 + more.len() + tail.len(),
        (block + more + tail).take(512) == block,
        (block + more + tail).skip(512) == more + tail,
        (block + more + tail)[504] == block[504],
        (block + more + tail)[156] == block[156],
{
    let whole = block + more + tail;
    assert(whole.take(512) =~= block);
    assert(whole.skip(512) =~= more + tail);
}

/// True when a name or a link name is read back: it fits the field of the
/// header block and holds no NUL byte, or it has more than 100 bytes, whose
/// number fits the size field, and does not end with a NUL byte.
pub open spec fn name_ok(text: Seq<char>) -> bool {
    let bytes = encode_utf8(text);
    if bytes.len() < 101 {
        text_fits(text, 100)
    } else {
        bytes.last() != 0 && octal_fits(bytes.len(), 12)
    }
}

/// Bytes that do not end with a NUL byte are what is left when the NUL bytes
/// at the end of their padding are dropped.
pub proof fn lemma_strip_padding(bytes: Seq<u8>, n: int)
    requires
        n >= 0,
        bytes.len() == 0 || bytes.last() != 0,
    ensures
        strip_nuls(bytes + zeros(n)) == bytes,
    decreases n,
{
    let padded = bytes + zeros(n);
    if n > 0 {
        assert(padded.drop_last() =~= bytes + zeros(n - 1));
        lemma_strip_padding(bytes, n - 1);
    } else {
        assert(padded =~= bytes);
    }
}

/// The record of a long name or link name is read back as the text,
/// whatever follows it: its header block carries the magic of GNU and its
/// type flag, and the record takes the blocks of its payload.
pub proof fn lemma_long_record_round_trip(flag: u8, text: Seq<char>, tail: Seq<u8>)
    requires
        encode_utf8(text).len() >= 101,
        name_ok(text),
    ensures
        long_record(flag, text).len() == 512 + padded_len(encode_utf8(text).len()),
        has_gnu_magic(long_record(flag, text).take(512)),
        long_record(flag, text)[156] == flag,
        long_parse(long_record(flag, text).take(512), long_record(flag, text).skip(512) + tail)
            == Ok::<(Seq<char>, nat), HeaderError>((text, padded_len(encode_utf8(text).len()))),
        (long_record(flag, text).skip(512) + tail).skip(
            padded_len(encode_utf8(text).len()) as int,
        ) == tail,
{
    broadcast use vstd::utf8::group_utf8_lib;

    reveal(long_parse);
    let bytes = encode_utf8(text);
    let len = bytes.len();
    lemma_octal_limits();
    let core = CoreFields {
        name: "././@LongLink"@,
        mode: 0,
        uid: 0,
        gid: 0,
        size: len as u64,
        mtime: 0,
        chksum: 0,
        flag,
        linkname: Seq::<char>::empty(),
    };
    let raw = long_raw(flag, len);
    lemma_core_layout(core);
    assert(raw.len() == 512);
    let block = sealed(raw);
    lemma_checksum_of_sealed(raw);
    let padding = zeros(block_padding(len) as int);
    super::pax_round_trip::lemma_framing(block, bytes, padding, tail);
    let record = long_record(flag, text);
    assert(record == block + bytes + padding);
    assert(len + block_padding(len) == padded_len(len));
    assert(block.subrange(124, 136) =~= core_bytes(core).subrange(124, 136));
    lemma_octal_round_trip(len, 12);
    assert(block[156] == raw[156]);
    assert(raw[156] == core_bytes(core)[156]);
    assert(block.subrange(257, 265) =~= gnu_magic_bytes());
    lemma_strip_padding(bytes, 0);
    assert(bytes + zeros(0) =~= bytes);
    assert(record[156] == block[156]);
}


/// True when the incremental dump text is read back: there is none, or it
/// has at most 17 bytes, so that it ends before the places of the sparse
/// entries, and does not end with a NUL byte.
pub open spec fn incremental_ok(text: Option<Seq<char>>) -> bool {
    match text {
        None => true,
        Some(t) => 1 <= encode_utf8(t).len() <= 17 && encode_utf8(t).last() != 0,
    }
}

/// True when a GNU header is read back from what is written for it.
///
/// The names are fit for it, the numbers fit their fields, the magic is
/// "ustar " and the version a space and a NUL byte, and the type flag is
/// neither the one of a long-name nor the one of a long-link record, and is
/// the one that its byte stands for. The flag for extension blocks says
/// whether there are more than four sparse entries. Without sparse entries
/// the header has no real size, since the incremental dump text takes its
/// place; with sparse entries it has no incremental dump text.
#[verifier::opaque]
pub open spec fn gnu_ok(f: GnuFields) -> bool {
    &&& name_ok(f.name)
    &&& name_ok(f.linkname)
    &&& octal_fits(f.mode as nat, 8)
    &&& octal_fits(f.uid as nat, 8)
    &&& octal_fits(f.gid as nat, 8)
    &&& octal_fits(f.size as nat, 12)
    &&& octal_fits(f.mtime as nat, 12)
    &&& encode_utf8(f.ext.magic) == seq![0x75u8, 0x73u8, 0x74u8, 0x61u8, 0x72u8, 0x20u8]
    &&& encode_utf8(f.ext.version) == seq![0x20u8, 0u8]
    &&& text_fits(f.ext.uname, 32)
    &&& text_fits(f.ext.gname, 32)
    &&& octal_fits(f.ext.devmajor as nat, 8)
    &&& octal_fits(f.ext.devminor as nat, 8)
    &&& (f.atime matches Some(n) ==> octal_fits(n as nat, 12))
    &&& (f.ctime matches Some(n) ==> octal_fits(n as nat, 12))
    &&& (f.realsize matches Some(n) ==> octal_fits(n as nat, 12))
    &&& entries_fit(f.sparse)
    &&& f.gnu_extra.len() == 12
    &&& f.typeflag != GnuTypeFlag::LongName
    &&& f.typeflag != GnuTypeFlag::LongLinkName
    &&& gnu_flag(gnu_flag_byte(f.typeflag)) == f.typeflag
    &&& f.isextended == (f.sparse.len() > 4)
    &&& (f.sparse.len() == 0 ==> f.realsize is None && incremental_ok(f.incremental))
    &&& (f.sparse.len() > 0 ==> f.incremental is None)
}

/// Where each part stands in a GNU header block.
pub proof fn lemma_gnu_layout(f: GnuFields)
    requires
        f.gnu_extra.len() == 12,
    ensures
        gnu_raw(f).len() == 512,
        gnu_raw(f).take(257) == core_bytes(gnu_core(f)),
        gnu_raw(f).subrange(257, 345) == ext_bytes(f.ext),
        gnu_raw(f).subrange(345, 357) == opt_octal_field(f.atime),
        gnu_raw(f).subrange(357, 369) == opt_octal_field(f.ctime),
        gnu_raw(f).subrange(369, 500) == gnu_middle(f),
        gnu_raw(f).subrange(500, 512) == f.gnu_extra,
{
    let raw = gnu_raw(f);
    lemma_core_layout(gnu_core(f));
    lemma_ext_layout(f.ext);
    lemma_opt_octal_len(f.atime);
    lemma_opt_octal_len(f.ctime);
    lemma_gnu_middle_len(f);
    assert(raw.take(257) =~= core_bytes(gnu_core(f)));
    assert(raw.subrange(257, 345) =~= ext_bytes(f.ext));
    assert(raw.subrange(345, 357) =~= opt_octal_field(f.atime));
    assert(raw.subrange(357, 369) =~= opt_octal_field(f.ctime));
    assert(raw.subrange(369, 500) =~= gnu_middle(f));
    assert(raw.subrange(500, 512) =~= f.gnu_extra);
}

/// A field for an optional number has 12 bytes.
pub proof fn lemma_opt_octal_len(v: Option<u64>)
    ensures
        opt_octal_field(v).len() == 12,
{
    match v {
        Some(n) => lemma_octal_field_len(n as nat, 12),
        None => {},
    }
}

/// What the middle of a header block with sparse entries holds at the
/// places of the entries, of the flag and of the real size.
pub proof fn lemma_middle_sparse(f: GnuFields)
    requires
        f.sparse.len() > 0,
    ensures
        gnu_middle(f).len() == 131,
        gnu_middle(f).subrange(17, 113) == sparse_slots(sparse_head(f.sparse), 4),
        gnu_middle(f)[113] == more_flag(f.sparse.len() > 4),
        gnu_middle(f).subrange(114, 126) == opt_octal_field(f.realsize),
{
    let m = gnu_middle(f);
    lemma_sparse_slots_len(sparse_head(f.sparse), 4);
    lemma_opt_octal_len(f.realsize);
    assert(m.subrange(17, 113) =~= sparse_slots(sparse_head(f.sparse), 4));
    assert(m.subrange(114, 126) =~= opt_octal_field(f.realsize));
}

/// What the middle of a header block without sparse entries holds: the
/// incremental dump text, and NUL bytes from the places of the entries on.
pub proof fn lemma_middle_plain(f: GnuFields)
    requires
        f.sparse.len() == 0,
        incremental_ok(f.incremental),
    ensures
        gnu_middle(f).len() == 131,
        gnu_middle(f).subrange(17, 131) == zeros(114),
        (gnu_middle(f) == zeros(131)) == (f.incremental is None),
        f.incremental matches Some(t) ==> padded_text_parse(gnu_middle(f)) == Ok::<
            Seq<char>,
            HeaderError,
        >(t),
{
    broadcast use vstd::utf8::group_utf8_lib;

    let m = gnu_middle(f);
    match f.incremental {
        Some(t) => {
            let bytes = encode_utf8(t);
            assert(m =~= bytes + zeros(131 - bytes.len()));
            assert(m.subrange(17, 131) =~= zeros(114));
            assert(m[bytes.len() - 1] == bytes.last());
            assert(zeros(131)[bytes.len() - 1] == 0);
            lemma_strip_padding(bytes, 131 - bytes.len());
        },
        None => {
            assert(m.subrange(17, 131) =~= zeros(114));
        },
    }
}

/// The fields that are read back from the header block of a GNU header: the
/// name and the link name that stand in the block, the checksum that was
/// computed, and the sparse entries of the block.
pub open spec fn gnu_block_read_back(f: GnuFields) -> GnuBlockFields {
    GnuBlockFields {
        core: CoreFields { chksum: checksum_of(gnu_raw(f)), ..gnu_core(f) },
        ext: f.ext,
        typeflag: f.typeflag,
        head: sparse_head(f.sparse),
        isextended: f.isextended,
        realsize: f.realsize,
        atime: f.atime,
        ctime: f.ctime,
        incremental: f.incremental,
        gnu_extra: f.gnu_extra,
    }
}

/// True when a name stands in a record of its own.
pub open spec fn is_long(text: Seq<char>) -> bool {
    encode_utf8(text).len() >= 101
}

/// The sparse entries of the header block are read back from their places.
pub proof fn lemma_gnu_head(f: GnuFields)
    requires
        gnu_ok(f),
    ensures
        gnu_ok(f),
        slots_parse(sealed(gnu_raw(f)), 386, 4) == Ok::<Seq<SparseEntry>, HeaderError>(
            sparse_head(f.sparse),
        ),
{
    reveal(gnu_ok);
    let raw = gnu_raw(f);
    let s = sealed(raw);
    lemma_gnu_layout(f);
    let head = sparse_head(f.sparse);
    let m = gnu_middle(f);
    assert(s.subrange(369, 500) =~= m);
    assert(s.subrange(386, 482) =~= m.subrange(17, 113));
    assert(entries_fit(head)) by {
        reveal(entries_fit);
        assert forall|i: int| 0 <= i < head.len() implies entry_fits(#[trigger] head[i]) by {
            assert(head[i] == f.sparse[i]);
        }
    }
    if f.sparse.len() > 0 {
        lemma_middle_sparse(f);
    } else {
        lemma_middle_plain(f);
        assert(m.subrange(17, 113) =~= zeros(96));
        assert(sparse_bytes(head) =~= Seq::<u8>::empty());
        assert(sparse_slots(head, 4) =~= zeros(96));
    }
    reveal(entries_fit);
    lemma_slots_round_trip(s, 386, head, 4, 4);
    assert(head.len() >= 4 ==> head.take(4) =~= head);
}

/// The times, the flag, the real size, the incremental dump text and the
/// last bytes of a header block are read back.
pub proof fn lemma_gnu_rest(f: GnuFields)
    requires
        gnu_ok(f),
    ensures
        gnu_ok(f),
        sealed(gnu_raw(f)).len() == 512,
        has_gnu_magic(sealed(gnu_raw(f))),
        sealed(gnu_raw(f))[156] == gnu_flag_byte(f.typeflag),
        opt_octal_parse(sealed(gnu_raw(f)).subrange(345, 357)) == f.atime,
        opt_octal_parse(sealed(gnu_raw(f)).subrange(357, 369)) == f.ctime,
        opt_octal_parse(sealed(gnu_raw(f)).subrange(483, 495)) == f.realsize,
        (sealed(gnu_raw(f))[482] == 0x31) == f.isextended,
        incremental_parse(sealed(gnu_raw(f)), f.sparse.len() == 0) == Ok::<
            Option<Seq<char>>,
            HeaderError,
        >(f.incremental),
        sealed(gnu_raw(f)).subrange(500, 512) == f.gnu_extra,
{
    reveal(gnu_ok);
    let raw = gnu_raw(f);
    let s = sealed(raw);
    lemma_gnu_layout(f);
    lemma_checksum_of_sealed(raw);
    lemma_ext_layout(f.ext);
    let m = gnu_middle(f);
    assert(s.subrange(345, 357) =~= raw.subrange(345, 357));
    assert(s.subrange(357, 369) =~= raw.subrange(357, 369));
    assert(s.subrange(369, 500) =~= m);
    assert(s.subrange(500, 512) =~= raw.subrange(500, 512));
    assert(s.subrange(483, 495) =~= m.subrange(114, 126));
    assert(s[482] == m[113]);
    assert(s[156] == raw[156]);
    assert(raw[156] == core_bytes(gnu_core(f))[156]) by {
        assert(raw.take(257)[156] == raw[156]);
    }
    lemma_opt_octal_round_trip(f.atime);
    lemma_opt_octal_round_trip(f.ctime);
    lemma_opt_octal_round_trip(f.realsize);
    let magic = s.subrange(257, 265);
    assert(magic =~= raw.subrange(257, 345).subrange(0, 8));
    assert(ext_bytes(f.ext).subrange(0, 8) =~= ext_bytes(f.ext).subrange(0, 6) + ext_bytes(
        f.ext,
    ).subrange(6, 8));
    assert(magic =~= gnu_magic_bytes());
    if f.sparse.len() > 0 {
        lemma_middle_sparse(f);
    } else {
        lemma_middle_plain(f);
        assert(m.subrange(114, 126) =~= zeros(12)) by {
            assert(m.subrange(17, 131).subrange(97, 109) =~= m.subrange(114, 126));
        }
        assert(m[113] == m.subrange(17, 131)[96]);
    }
}

/// The header block of a GNU header that is fit for it is read back.
pub proof fn lemma_gnu_block_round_trip(f: GnuFields)
    requires
        gnu_ok(f),
    ensures
        sealed(gnu_raw(f)).len() == 512,
        has_gnu_magic(sealed(gnu_raw(f))),
        gnu_flag(sealed(gnu_raw(f))[156]) == f.typeflag,
        gnu_block_parse(sealed(gnu_raw(f)), is_long(f.name), is_long(f.linkname), true) == Ok::<
            GnuBlockFields,
            HeaderError,
        >(gnu_block_read_back(f)),
        f.typeflag != GnuTypeFlag::LongName,
        f.typeflag != GnuTypeFlag::LongLinkName,
        f.isextended == (f.sparse.len() > 4),
        entries_fit(f.sparse),
        name_ok(f.name),
        name_ok(f.linkname),
{
    reveal(gnu_ok);
    let raw = gnu_raw(f);
    lemma_gnu_layout(f);
    lemma_gnu_rest(f);
    lemma_gnu_head(f);
    lemma_gnu_core(f);
    lemma_ext_round_trip(f.ext, raw);
}

/// The first fields of the header block of a GNU header are read back.
pub proof fn lemma_gnu_core(f: GnuFields)
    requires
        gnu_ok(f),
    ensures
        gnu_ok(f),
        super::fields::core_parse(sealed(gnu_raw(f)), is_long(f.name), is_long(f.linkname))
            == Ok::<CoreFields, HeaderError>(
            CoreFields { chksum: checksum_of(gnu_raw(f)), ..gnu_core(f) },
        ),
        ext_fits(f.ext),
{
    broadcast use vstd::utf8::group_utf8_lib;

    reveal(gnu_ok);
    lemma_gnu_layout(f);
    let core = gnu_core(f);
    assert(encode_utf8(Seq::<char>::empty()) =~= Seq::<u8>::empty());
    assert(core_fits(core));
    lemma_core_round_trip_skipping(core, gnu_raw(f), is_long(f.name), is_long(f.linkname));
}


/// The fields of a GNU header as they are read back: with the checksum that
/// was computed.
pub open spec fn gnu_read_back(f: GnuFields) -> GnuFields {
    GnuFields { chksum: checksum_of(gnu_raw(f)), ..f }
}

/// The name that a preceding record gave, if the name stands in one.
pub open spec fn long_of(text: Seq<char>) -> Option<Seq<char>> {
    if is_long(text) {
        Some(text)
    } else {
        None
    }
}

/// The header block and the extension blocks of a GNU header that is fit
/// for it are read back, whatever follows them.
pub proof fn lemma_gnu_fields_round_trip(f: GnuFields, tail: Seq<u8>)
    requires
        gnu_ok(f),
    ensures
        gnu_fields_parse(
            sealed(gnu_raw(f)),
            sparse_ext(sparse_tail(f.sparse)) + tail,
            long_of(f.name),
            long_of(f.linkname),
            Seq::<SparseEntry>::empty(),
        ) == Ok::<(GnuFields, nat), HeaderError>(
            (gnu_read_back(f), sparse_ext(sparse_tail(f.sparse)).len()),
        ),
{
    reveal(gnu_fields_parse);
    lemma_gnu_block_round_trip(f);
    lemma_sparse_facts(f.sparse);
    let behind = sparse_tail(f.sparse);
    lemma_chain_round_trip(behind, tail);
    let block = gnu_block_read_back(f);
    assert(gnu_fields_of(
        block,
        long_of(f.name),
        long_of(f.linkname),
        Seq::<SparseEntry>::empty(),
        behind,
    ) == gnu_read_back(f));
}

/// The entries of the header block and those of the extension blocks make
/// up the entries, and fit where all fit.
pub proof fn lemma_sparse_facts(entries: Seq<SparseEntry>)
    requires
        entries_fit(entries),
    ensures
        entries_fit(sparse_tail(entries)),
        Seq::<SparseEntry>::empty() + sparse_head(entries) + sparse_tail(entries) == entries,
        (sparse_tail(entries).len() > 0) == (entries.len() > 4),
{
    reveal(entries_fit);
    let behind = sparse_tail(entries);
    assert forall|i: int| 0 <= i < behind.len() implies entry_fits(#[trigger] behind[i]) by {
        assert(behind[i] == entries[4 + i]);
    }
    assert(Seq::<SparseEntry>::empty() + sparse_head(entries) + behind =~= entries);
}

/// What saving a GNU header writes from the long-link record on.
pub open spec fn gnu_link_part(f: GnuFields) -> Seq<u8> {
    long_record(0x4b, f.linkname) + sealed(gnu_raw(f)) + sparse_ext(sparse_tail(f.sparse))
}

/// A header block and its extension blocks behind a long-link record are
/// read as the record and then as the header.
pub proof fn lemma_link_compose(
    record: Seq<u8>,
    block: Seq<u8>,
    ext: Seq<u8>,
    tail: Seq<u8>,
    long_name: Option<Seq<char>>,
    link: Seq<char>,
    n: nat,
    found: GnuFields,
    m: nat,
)
    requires
        record.len() == 512 + n,
        block.len() == 512,
        gnu_flag(record[156]) == GnuTypeFlag::LongLinkName,
        long_parse(record.take(512), record.skip(512) + (block + ext + tail)) == Ok::<
            (Seq<char>, nat),
            HeaderError,
        >((link, n)),
        gnu_fields_parse(block, ext + tail, long_name, Some(link), Seq::<SparseEntry>::empty())
            == Ok::<(GnuFields, nat), HeaderError>((found, m)),
    ensures
        gnu_parse_link(
            (record + block + ext).take(512),
            (record + block + ext).skip(512) + tail,
            long_name,
        ) == Ok::<(GnuFields, nat), HeaderError>((found, n + 512 + m)),
        (record + block + ext)[156] == record[156],
        (record + block + ext).take(512) == record.take(512),
{
    reveal(gnu_parse_link);
    let part = record + block + ext;
    let rest = part.skip(512) + tail;
    assert(part.take(512) =~= record.take(512));
    assert(rest =~= record.skip(512) + (block + ext + tail));
    assert(rest.subrange(n as int, (n + 512) as int) =~= block);
    assert(rest.skip((n + 512) as int) =~= ext + tail);
}

/// A header block and its extension blocks without a long-link record are
/// read as the header.
pub proof fn lemma_plain_compose(
    block: Seq<u8>,
    ext: Seq<u8>,
    tail: Seq<u8>,
    long_name: Option<Seq<char>>,
    found: GnuFields,
    m: nat,
)
    requires
        block.len() == 512,
        gnu_flag(block[156]) != GnuTypeFlag::LongLinkName,
        gnu_fields_parse(block, ext + tail, long_name, None, Seq::<SparseEntry>::empty()) == Ok::<
            (GnuFields, nat),
            HeaderError,
        >((found, m)),
    ensures
        gnu_parse_link((block + ext).take(512), (block + ext).skip(512) + tail, long_name) == Ok::<
            (GnuFields, nat),
            HeaderError,
        >((found, m)),
        (block + ext)[156] == block[156],
        (block + ext).take(512) == block,
{
    reveal(gnu_parse_link);
    let part = block + ext;
    assert(part.take(512) =~= block);
    assert(part.skip(512) + tail =~= ext + tail);
}

/// The header block of a GNU header that is fit for it has 512 bytes, and
/// the names of the header are fit for it.
pub proof fn lemma_gnu_facts(f: GnuFields)
    requires
        gnu_ok(f),
    ensures
        sealed(gnu_raw(f)).len() == 512,
        name_ok(f.name),
        name_ok(f.linkname),
{
    lemma_gnu_block_round_trip(f);
}

/// What is written from the long-link record on is read back, where the
/// link name stands in a record of its own.
pub proof fn lemma_gnu_link_long(f: GnuFields, tail: Seq<u8>)
    requires
        gnu_ok(f),
        is_long(f.linkname),
    ensures
        gnu_link_part(f).len() >= 512,
        has_gnu_magic(gnu_link_part(f).take(512)),
        gnu_flag(gnu_link_part(f)[156]) != GnuTypeFlag::LongName,
        gnu_parse_link(gnu_link_part(f).take(512), gnu_link_part(f).skip(512) + tail, long_of(f.name))
            == Ok::<(GnuFields, nat), HeaderError>(
            (gnu_read_back(f), (gnu_link_part(f).len() - 512) as nat),
        ),
{
    let block = sealed(gnu_raw(f));
    let ext = sparse_ext(sparse_tail(f.sparse));
    let record = long_record(0x4b, f.linkname);
    lemma_gnu_facts(f);
    lemma_gnu_fields_round_trip(f, tail);
    lemma_long_record_round_trip(0x4b, f.linkname, block + ext + tail);
    lemma_link_compose(
        record,
        block,
        ext,
        tail,
        long_of(f.name),
        f.linkname,
        padded_len(encode_utf8(f.linkname).len()),
        gnu_read_back(f),
        ext.len(),
    );
}

/// What is written from the long-link record on is read back, where the
/// link name stands in the header block.
pub proof fn lemma_gnu_link_short(f: GnuFields, tail: Seq<u8>)
    requires
        gnu_ok(f),
        !is_long(f.linkname),
    ensures
        gnu_link_part(f).len() >= 512,
        has_gnu_magic(gnu_link_part(f).take(512)),
        gnu_flag(gnu_link_part(f)[156]) != GnuTypeFlag::LongName,
        gnu_parse_link(gnu_link_part(f).take(512), gnu_link_part(f).skip(512) + tail, long_of(f.name))
            == Ok::<(GnuFields, nat), HeaderError>(
            (gnu_read_back(f), (gnu_link_part(f).len() - 512) as nat),
        ),
{
    let block = sealed(gnu_raw(f));
    let ext = sparse_ext(sparse_tail(f.sparse));
    lemma_gnu_block_round_trip(f);
    lemma_gnu_fields_round_trip(f, tail);
    lemma_plain_compose(block, ext, tail, long_of(f.name), gnu_read_back(f), ext.len());
    assert(long_record(0x4b, f.linkname) =~= Seq::<u8>::empty());
    assert(gnu_link_part(f) =~= block + ext);
}

/// What is written from the long-link record on is read back, whatever
/// follows it and whether or not a long-name record stood before it.
pub proof fn lemma_gnu_link_round_trip(f: GnuFields, tail: Seq<u8>)
    requires
        gnu_ok(f),
    ensures
        gnu_link_part(f).len() >= 512,
        has_gnu_magic(gnu_link_part(f).take(512)),
        gnu_flag(gnu_link_part(f)[156]) != GnuTypeFlag::LongName,
        gnu_parse_link(gnu_link_part(f).take(512), gnu_link_part(f).skip(512) + tail, long_of(f.name))
            == Ok::<(GnuFields, nat), HeaderError>(
            (gnu_read_back(f), (gnu_link_part(f).len() - 512) as nat),
        ),
        name_ok(f.name),
{
    lemma_gnu_facts(f);
    if is_long(f.linkname) {
        lemma_gnu_link_long(f, tail);
    } else {
        lemma_gnu_link_short(f, tail);
    }
}

/// A long-name record and what follows it are read as the record and then
/// as the rest.
pub proof fn lemma_name_compose(
    record: Seq<u8>,
    part: Seq<u8>,
    tail: Seq<u8>,
    name: Seq<char>,
    n: nat,
    found: GnuFields,
    m: nat,
)
    requires
        record.len() == 512 + n,
        part.len() >= 512,
        has_gnu_magic(record.take(512)),
        gnu_flag(record[156]) == GnuTypeFlag::LongName,
        long_parse(record.take(512), record.skip(512) + (part + tail)) == Ok::<
            (Seq<char>, nat),
            HeaderError,
        >((name, n)),
        gnu_parse_link(part.take(512), part.skip(512) + tail, Some(name)) == Ok::<
            (GnuFields, nat),
            HeaderError,
        >((found, m)),
    ensures
        gnu_parse((record + part).take(512), (record + part).skip(512) + tail) == Ok::<
            Option<(GnuFields, nat)>,
            HeaderError,
        >(Some((found, n + 512 + m))),
{
    let whole = record + part;
    let rest = whole.skip(512) + tail;
    assert(whole.take(512) =~= record.take(512));
    assert(rest =~= record.skip(512) + (part + tail));
    assert(rest.subrange(n as int, (n + 512) as int) =~= part.take(512));
    assert(rest.skip((n + 512) as int) =~= part.skip(512) + tail);
    assert(whole.take(512)[156] == record[156]);
}

/// Round trip: a GNU header that is fit for it is read back from what is
/// written for it, whatever follows in the stream: the long-name and the
/// long-link record, the header block and the extension blocks give the
/// fields, with the checksum that was computed; as many bytes are taken as
/// were written behind the first block.
pub proof fn lemma_gnu_round_trip(f: GnuFields, tail: Seq<u8>)
    requires
        gnu_ok(f),
    ensures
        gnu_encoding(f).len() >= 512,
        gnu_parse(gnu_encoding(f).take(512), gnu_encoding(f).skip(512) + tail) == Ok::<
            Option<(GnuFields, nat)>,
            HeaderError,
        >(Some((gnu_read_back(f), (gnu_encoding(f).len() - 512) as nat))),
{
    let part = gnu_link_part(f);
    lemma_gnu_link_round_trip(f, tail);
    lemma_encoding_parts(f);
    if is_long(f.name) {
        let record = long_record(0x4c, f.name);
        lemma_long_record_round_trip(0x4c, f.name, part + tail);
        lemma_name_compose(
            record,
            part,
            tail,
            f.name,
            padded_len(encode_utf8(f.name).len()),
            gnu_read_back(f),
            (part.len() - 512) as nat,
        );
    } else {
        assert(part[156] == part.take(512)[156]);
    }
}

/// What saving a GNU header writes is the long-name record, where there is
/// one, and what is written from the long-link record on.
pub proof fn lemma_encoding_parts(f: GnuFields)
    ensures
        gnu_encoding(f) == long_record(0x4c, f.name) + gnu_link_part(f),
        !is_long(f.name) ==> gnu_encoding(f) == gnu_link_part(f),
{
    assert(gnu_encoding(f) =~= long_record(0x4c, f.name) + gnu_link_part(f));
    if !is_long(f.name) {
        assert(long_record(0x4c, f.name) + gnu_link_part(f) =~= gnu_link_part(f));
    }
}

/// The sparse entries that do not fit the header block take as many
/// extension blocks as the header counts for them: one for every 21 entries
/// above 4, a begun one included.
pub proof fn lemma_sparse_blocks(entries: Seq<SparseEntry>)
    ensures
        sparse_ext(sparse_tail(entries)).len() == 512 * sparse_blocks(entries.len()),
        sparse_blocks(entries.len()) == (if entries.len() > 4 {
            (entries.len() - 4 + 20) / 21
        } else {
            0
        }),
{
    lemma_sparse_ext_len(sparse_tail(entries));
}

/// The extension blocks of `n` entries are one block for every 21 entries,
/// a begun one included.
pub proof fn lemma_sparse_ext_len(entries: Seq<SparseEntry>)
    ensures
        sparse_ext(entries).len() == 512 * ((entries.len() + 20) / 21),
    decreases entries.len(),
{
    if entries.len() > 0 {
        lemma_sparse_slots_len(first_block_entries(entries), 21);
        if entries.len() > 21 {
            lemma_sparse_ext_len(entries.skip(21));
        }
    }
}


/// The record of a long name or link name takes whole blocks.
pub proof fn lemma_long_record_len(flag: u8, text: Seq<char>)
    ensures
        long_record(flag, text).len() % 512 == 0,
        long_record(flag, text).len() == (if is_long(text) {
            512 + padded_len(encode_utf8(text).len())
        } else {
            0
        }),
{
    let len = encode_utf8(text).len();
    if len >= 101 {
        let core = CoreFields {
            name: "././@LongLink"@,
            mode: 0,
            uid: 0,
            gid: 0,
            size: len as u64,
            mtime: 0,
            chksum: 0,
            flag,
            linkname: Seq::<char>::empty(),
        };
        lemma_core_layout(core);
        lemma_octal_field_len(checksum_of(long_raw(flag, len)) as nat, 7);
        assert(len + block_padding(len) == padded_len(len));
    }
}

/// What saving a GNU header writes takes whole blocks.
pub proof fn lemma_gnu_encoding_len(f: GnuFields)
    requires
        f.gnu_extra.len() == 12,
    ensures
        gnu_encoding(f).len() % 512 == 0,
        gnu_encoding(f).len() >= 512,
{
    lemma_long_record_len(0x4c, f.name);
    lemma_long_record_len(0x4b, f.linkname);
    lemma_gnu_layout(f);
    lemma_octal_field_len(checksum_of(gnu_raw(f)) as nat, 7);
    lemma_sparse_ext_len(sparse_tail(f.sparse));
}

} // verus!
