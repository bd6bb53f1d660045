use vstd::prelude::*;
use vstd::std_specs::convert::FromSpecImpl;
use vstd::utf8::encode_utf8;
use indexmap::IndexMap;
use crate::error::HeaderError;
use crate::ordered::{key_index, put, put_at, value_of};
use crate::stream::{block_padding, padded_len, Stream};
use super::fields::{
    core_bytes, lemma_core_layout, lemma_ext_layout, push_core, push_ext, push_text, CoreFields,
    ExtFields,
};
use super::helper::{
    append_bytes, append_zeros, checksum_of, decimal_digits, decimal_len, decimal_len_of,
    decimal_chars, decimal_text, find, find_byte, get_str_with_min_size, number_parse, parse_number, seal,
    sealed, text_eq, text_parse, zeros,
};
use super::traits::{FileKind, IsTypeTrait, UsedBlocksTrait};
use super::ustar::{
    check_ustar_magic, has_ustar_magic, load_ustar_fields, ustar_fields_parse, ustar_flag,
    ustar_flag_byte, ustar_raw, UstarFields, UstarTypeFlag,
};

verus! {

/// PAX header type flag.
#[derive(Debug, Clone, Copy, PartialEq, Eq, Structural)]
pub enum PaxTypeFlag {
    Extended,
    Global,
    Ustar(UstarTypeFlag),
}

/// The PAX type flag that a byte stands for.
pub open spec fn pax_flag(value: u8) -> PaxTypeFlag {
    if value == 0x78 {
        PaxTypeFlag::Extended
    } else if value == 0x67 {
        PaxTypeFlag::Global
    } else {
        PaxTypeFlag::Ustar(ustar_flag(value))
    }
}

/// The byte that stands for a PAX type flag.
pub open spec fn pax_flag_byte(flag: PaxTypeFlag) -> u8 {
    match flag {
        PaxTypeFlag::Extended => 0x78,
        PaxTypeFlag::Global => 0x67,
        PaxTypeFlag::Ustar(v) => ustar_flag_byte(v),
    }
}

impl From<u8> for PaxTypeFlag {
    fn from(value: u8) -> (flag: Self) {
        match value {
            0x78u8 => PaxTypeFlag::Extended,
            0x67u8 => PaxTypeFlag::Global,
            v => PaxTypeFlag::Ustar(UstarTypeFlag::from(v)),
        }
    }
}

impl FromSpecImpl<u8> for PaxTypeFlag {
    open spec fn obeys_from_spec() -> bool {
        true
    }

    open spec fn from_spec(value: u8) -> Self {
        pax_flag(value)
    }
}

impl From<PaxTypeFlag> for u8 {
    fn from(value: PaxTypeFlag) -> (byte: Self) {
        match value {
            PaxTypeFlag::Extended => 0x78u8,
            PaxTypeFlag::Global => 0x67u8,
            PaxTypeFlag::Ustar(v) => u8::from(v),
        }
    }
}

impl FromSpecImpl<PaxTypeFlag> for u8 {
    open spec fn obeys_from_spec() -> bool {
        true
    }

    open spec fn from_spec(value: PaxTypeFlag) -> Self {
        pax_flag_byte(value)
    }
}

impl IsTypeTrait for PaxTypeFlag {
    open spec fn kind(&self) -> FileKind {
        match *self {
            PaxTypeFlag::Ustar(v) => v.kind(),
            _ => FileKind::Other,
        }
    }

    fn is_regular_file(&self) -> (b: bool) {
        match self {
            PaxTypeFlag::Ustar(v) => v.is_regular_file(),
            _ => false,
        }
    }

    fn is_hard_link(&self) -> (b: bool) {
        match self {
            PaxTypeFlag::Ustar(v) => v.is_hard_link(),
            _ => false,
        }
    }

    fn is_symbolic_link(&self) -> (b: bool) {
        match self {
            PaxTypeFlag::Ustar(v) => v.is_symbolic_link(),
            _ => false,
        }
    }

    fn is_character_special(&self) -> (b: bool) {
        match self {
            PaxTypeFlag::Ustar(v) => v.is_character_special(),
            _ => false,
        }
    }

    fn is_block_special(&self) -> (b: bool) {
        match self {
            PaxTypeFlag::Ustar(v) => v.is_block_special(),
            _ => false,
        }
    }

    fn is_directory(&self) -> (b: bool) {
        match self {
            PaxTypeFlag::Ustar(v) => v.is_directory(),
            _ => false,
        }
    }

    fn is_fifo(&self) -> (b: bool) {
        match self {
            PaxTypeFlag::Ustar(v) => v.is_fifo(),
            _ => false,
        }
    }

    fn is_contiguous_file(&self) -> (b: bool) {
        match self {
            PaxTypeFlag::Ustar(v) => v.is_contiguous_file(),
            _ => false,
        }
    }
}

/// The typed value of an attribute.
#[derive(Debug, Clone, Copy, PartialEq, Eq, Structural)]
pub enum AttrValue {
    /// A text: the value is the raw text itself.
    Default,
    /// An unsigned integer.
    U64(u64),
    /// A decimal fraction, which the raw text writes.
    Decimal,
}

/// An attribute of a PAX header.
#[derive(Debug, Clone, PartialEq)]
pub struct Attribute {
    /// The value of the attribute, unless it is a text.
    pub value: AttrValue,
    /// The raw value of the attribute.
    pub raw: String,
}

/// An attribute as values.
pub ghost struct AttributeView {
    pub value: AttrValue,
    pub raw: Seq<char>,
}

impl View for Attribute {
    type V = AttributeView;

    open spec fn view(&self) -> AttributeView {
        AttributeView { value: self.value, raw: self.raw@ }
    }
}

/// The attribute that holds `v`, written in decimal digits.
pub open spec fn number_attr(v: u64) -> AttributeView {
    AttributeView { value: AttrValue::U64(v), raw: decimal_chars(v as nat) }
}

impl Attribute {
    /// An attribute that holds a text.
    pub fn from_str(s: String) -> (a: Self)
        ensures
            a@ == (AttributeView { value: AttrValue::Default, raw: s@ }),
    {
        Attribute { value: AttrValue::Default, raw: s }
    }

    /// An attribute that holds the unsigned integer which `s` writes in
    /// decimal digits.
    pub fn from_u64(s: String) -> (a: Self)
        requires
            number_parse(encode_utf8(s@), 10) is Some,
        ensures
            a@ == (AttributeView {
                value: AttrValue::U64(number_parse(encode_utf8(s@), 10)->Some_0),
                raw: s@,
            }),
    {
        match parse_number(s.as_str(), 10) {
            Some(v) => Attribute { value: AttrValue::U64(v), raw: s },
            None => Attribute { value: AttrValue::Default, raw: s },
        }
    }

    /// An attribute that holds the unsigned integer which `s` writes in
    /// decimal digits, if it writes one.
    pub fn try_from_u64(s: String) -> (r: Result<Self, HeaderError>)
        ensures
            match r {
                Ok(a) => number_parse(encode_utf8(s@), 10) is Some && a@ == (AttributeView {
                    value: AttrValue::U64(number_parse(encode_utf8(s@), 10)->Some_0),
                    raw: s@,
                }),
                Err(e) => number_parse(encode_utf8(s@), 10) is None && e == HeaderError::BadNumber,
            },
    {
        match parse_number(s.as_str(), 10) {
            Some(v) => Ok(Attribute { value: AttrValue::U64(v), raw: s }),
            None => Err(HeaderError::BadNumber),
        }
    }

    /// An attribute that holds the decimal fraction which `s` writes.
    pub fn from_f64(s: String) -> (a: Self)
        ensures
            a@ == (AttributeView { value: AttrValue::Decimal, raw: s@ }),
    {
        Attribute { value: AttrValue::Decimal, raw: s }
    }

    /// An attribute that holds `v`, written in decimal digits.
    pub fn of_u64(v: u64) -> (a: Self)
        ensures
            a@ == number_attr(v),
            encode_utf8(a.raw@) == decimal_digits(v as nat),
    {
        Attribute { value: AttrValue::U64(v), raw: decimal_text(v) }
    }

    /// The raw text of the attribute.
    pub fn text(&self) -> (text: &str)
        ensures
            text@ == self.raw@,
    {
        self.raw.as_str()
    }
}

/// The pairs of an attribute map, in their order.
pub type Attrs = Seq<(Seq<char>, AttributeView)>;

/// The pairs of key and attribute that an attribute map holds, in their
/// order.
pub uninterp spec fn attrs_of(m: IndexMap<String, Attribute>) -> Seq<(Seq<char>, AttributeView)>;

/// Makes an empty map with `IndexMap::new`.
#[verifier::external_body]
fn attrs_new() -> (m: IndexMap<String, Attribute>)
    ensures
        attrs_of(m) == Seq::<(Seq<char>, AttributeView)>::empty(),
{
    IndexMap::new()
}

/// The number of pairs, by `IndexMap::len`.
#[verifier::external_body]
fn attrs_len(m: &IndexMap<String, Attribute>) -> (n: usize)
    ensures
        n == attrs_of(*m).len(),
{
    m.len()
}

/// Looks a key up with `IndexMap::get`: the attribute of the pair with that
/// key, if there is one.
#[verifier::external_body]
fn attrs_get<'a>(m: &'a IndexMap<String, Attribute>, key: &str) -> (r: Option<&'a Attribute>)
    ensures
        match r {
            Some(a) => value_of(attrs_of(*m), key@) == Some(a@),
            None => value_of(attrs_of(*m), key@) is None,
        },
{
    m.get(key)
}

/// The position of a key, by `IndexMap::get_index_of`.
#[verifier::external_body]
fn attrs_get_index_of(m: &IndexMap<String, Attribute>, key: &str) -> (r: Option<usize>)
    ensures
        match r {
            Some(i) => key_index(attrs_of(*m), key@) == Some(i as int),
            None => key_index(attrs_of(*m), key@) is None,
        },
{
    m.get_index_of(key)
}

/// The pair at a position, by `IndexMap::get_index`: there is one below the
/// number of pairs.
#[verifier::external_body]
fn attrs_get_index<'a>(m: &'a IndexMap<String, Attribute>, index: usize) -> (r: Option<
    (&'a String, &'a Attribute),
>)
    ensures
        match r {
            Some((k, a)) => index < attrs_of(*m).len() && attrs_of(*m)[index as int] == (k@, a@),
            None => index >= attrs_of(*m).len(),
        },
{
    m.get_index(index)
}

/// Gets the value at a position for changing it, by
/// `IndexMap::get_index_mut`: there is one below the number of pairs. What
/// the value holds when the borrow ends is what the map holds at the
/// position, under the same key.
#[verifier::external_body]
fn attrs_get_index_mut<'a>(m: &'a mut IndexMap<String, Attribute>, index: usize) -> (r: Option<
    &'a mut Attribute,
>)
    ensures
        match r {
            Some(a) => index < attrs_of(*old(m)).len() && (*a)@ == attrs_of(
                *old(m),
            )[index as int].1 && attrs_of(*final(m)) == attrs_of(*old(m)).update(
                index as int,
                (attrs_of(*old(m))[index as int].0, (*final(a))@),
            ),
            None => index >= attrs_of(*old(m)).len() && attrs_of(*final(m)) == attrs_of(*old(m)),
        },
{
    m.get_index_mut(index).map(|(_, v)| v)
}

/// Inserts a pair with `IndexMap::insert`: where the key is present, the
/// value takes the place of the old one, which is returned; where it is not,
/// the pair comes last.
#[verifier::external_body]
fn attrs_insert(m: &mut IndexMap<String, Attribute>, key: String, value: Attribute) -> (r: Option<
    Attribute,
>)
    ensures
        attrs_of(*final(m)) == put(attrs_of(*old(m)), key@, value@),
        match r {
            Some(a) => value_of(attrs_of(*old(m)), key@) == Some(a@),
            None => value_of(attrs_of(*old(m)), key@) is None,
        },
{
    m.insert(key, value)
}

/// Inserts a pair at a position with `IndexMap::shift_insert`: where the key
/// is present, its pair moves to the position with the new value, and the
/// old value is returned; where it is not, the pair is inserted at the
/// position. The call panics on a position behind the last place that the
/// pair can take.
#[verifier::external_body]
fn attrs_shift_insert(
    m: &mut IndexMap<String, Attribute>,
    index: usize,
    key: String,
    value: Attribute,
) -> (r: Option<Attribute>)
    requires
        key_index(attrs_of(*old(m)), key@) is Some ==> index < attrs_of(*old(m)).len(),
        key_index(attrs_of(*old(m)), key@) is None ==> index <= attrs_of(*old(m)).len(),
    ensures
        attrs_of(*final(m)) == put_at(attrs_of(*old(m)), index as int, key@, value@),
        match r {
            Some(a) => value_of(attrs_of(*old(m)), key@) == Some(a@),
            None => value_of(attrs_of(*old(m)), key@) is None,
        },
{
    m.shift_insert(index, key, value)
}

/// Removes the pair of a key with `IndexMap::shift_remove`: the pairs behind
/// it move up, and its value is returned.
#[verifier::external_body]
fn attrs_shift_remove(m: &mut IndexMap<String, Attribute>, key: &str) -> (r: Option<Attribute>)
    ensures
        match r {
            Some(a) => key_index(attrs_of(*old(m)), key@) is Some && value_of(
                attrs_of(*old(m)),
                key@,
            ) == Some(a@) && attrs_of(*final(m)) == attrs_of(*old(m)).remove(
                key_index(attrs_of(*old(m)), key@)->Some_0,
            ),
            None => key_index(attrs_of(*old(m)), key@) is None && attrs_of(*final(m)) == attrs_of(
                *old(m),
            ),
        },
{
    m.shift_remove(key)
}

/// Removes the pair at a position with `IndexMap::shift_remove_index`: the
/// pairs behind it move up, and the pair is returned.
#[verifier::external_body]
fn attrs_shift_remove_index(m: &mut IndexMap<String, Attribute>, index: usize) -> (r: Option<
    (String, Attribute),
>)
    ensures
        match r {
            Some((k, a)) => index < attrs_of(*old(m)).len() && attrs_of(*old(m))[index as int] == (
                k@,
                a@,
            ) && attrs_of(*final(m)) == attrs_of(*old(m)).remove(index as int),
            None => index >= attrs_of(*old(m)).len() && attrs_of(*final(m)) == attrs_of(*old(m)),
        },
{
    m.shift_remove_index(index)
}

/// Removes the last pair with `IndexMap::pop`, and returns it.
#[verifier::external_body]
fn attrs_pop(m: &mut IndexMap<String, Attribute>) -> (r: Option<(String, Attribute)>)
    ensures
        match r {
            Some((k, a)) => attrs_of(*old(m)).len() > 0 && attrs_of(*old(m)).last() == (k@, a@)
                && attrs_of(*final(m)) == attrs_of(*old(m)).drop_last(),
            None => attrs_of(*old(m)).len() == 0 && attrs_of(*final(m)) == attrs_of(*old(m)),
        },
{
    m.pop()
}

/// Removes every pair with `IndexMap::clear`.
#[verifier::external_body]
fn attrs_clear(m: &mut IndexMap<String, Attribute>)
    ensures
        attrs_of(*final(m)) == Seq::<(Seq<char>, AttributeView)>::empty(),
{
    m.clear()
}

/// Represents a PAX TAR header (extended attributes).
#[derive(Debug)]
pub struct PaxHeader {
    /// File name.
    pub name: String,
    /// File mode.
    pub mode: u32,
    /// Owner user ID.
    pub uid: u32,
    /// Owner group ID.
    pub gid: u32,
    /// Size in bytes of the attribute data, as read.
    pub size: u64,
    /// Modification time.
    pub mtime: u64,
    /// Header checksum.
    pub chksum: u32,
    /// Type flag.
    pub typeflag: PaxTypeFlag,
    /// Name of linked file.
    pub linkname: String,
    /// USTAR indicator "ustar".
    pub magic: String,
    /// USTAR version "00".
    pub version: String,
    /// Owner user name.
    pub uname: String,
    /// Owner group name.
    pub gname: String,
    /// Device major number.
    pub devmajor: u32,
    /// Device minor number.
    pub devminor: u32,
    /// Filename prefix.
    pub prefix: String,
    /// PAX attributes: pairs of key and value in the order of insertion.
    attributes: IndexMap<String, Attribute>,
    /// The used blocks so far not saved yet.
    used_blocks: usize,
    /// The used blocks saved.
    saved_blocks: usize,
    /// True when `used_blocks` was calculated since the last change.
    updated_used_blocks: bool,
}

/// A PAX header as values.
pub ghost struct PaxView {
    /// The fields as they stand in the block, the type flag as its byte.
    pub fields: UstarFields,
    /// The type flag.
    pub typeflag: PaxTypeFlag,
    /// The attributes in their order.
    pub attrs: Seq<(Seq<char>, AttributeView)>,
    /// The number of blocks that the header remembers to take.
    pub used_blocks: nat,
    /// The number of blocks that the header took when it was last read or
    /// written.
    pub saved_blocks: nat,
    /// True when `used_blocks` was calculated since the last change.
    pub updated_used_blocks: bool,
}

impl View for PaxHeader {
    type V = PaxView;

    closed spec fn view(&self) -> PaxView {
        PaxView {
            fields: UstarFields {
                core: CoreFields {
                    name: self.name@,
                    mode: self.mode,
                    uid: self.uid,
                    gid: self.gid,
                    size: self.size,
                    mtime: self.mtime,
                    chksum: self.chksum,
                    flag: pax_flag_byte(self.typeflag),
                    linkname: self.linkname@,
                },
                ext: ExtFields {
                    magic: self.magic@,
                    version: self.version@,
                    uname: self.uname@,
                    gname: self.gname@,
                    devmajor: self.devmajor,
                    devminor: self.devminor,
                },
                prefix: self.prefix@,
            },
            typeflag: self.typeflag,
            attrs: attrs_of(self.attributes),
            used_blocks: self.used_blocks as nat,
            saved_blocks: self.saved_blocks as nat,
            updated_used_blocks: self.updated_used_blocks,
        }
    }
}

/// The length of a record whose key, value and three separators take `base`
/// bytes: `base` and the number of digits of the length itself.
pub open spec fn record_len(base: nat) -> nat {
    let first = base + decimal_len(base);
    if decimal_len(first) == decimal_len(base) {
        first
    } else {
        base + decimal_len(first)
    }
}

/// The length of the record of a pair.
pub open spec fn pair_len(pair: (Seq<char>, AttributeView)) -> nat {
    record_len(encode_utf8(pair.0).len() + encode_utf8(pair.1.raw).len() + 3)
}

/// The record of a pair: its length in decimal digits, a space, the key, an
/// equals sign, the raw value and a line feed.
pub open spec fn record(pair: (Seq<char>, AttributeView)) -> Seq<u8> {
    decimal_digits(pair_len(pair)) + seq![0x20u8] + encode_utf8(pair.0) + seq![0x3du8]
        + encode_utf8(pair.1.raw) + seq![0x0au8]
}

/// The number of bytes that the records of the pairs take.
pub open spec fn records_len(attrs: Seq<(Seq<char>, AttributeView)>) -> nat
    decreases attrs.len(),
{
    if attrs.len() == 0 {
        0
    } else {
        records_len(attrs.drop_last()) + pair_len(attrs.last())
    }
}

/// The records of the pairs, one behind the other.
pub open spec fn records(attrs: Seq<(Seq<char>, AttributeView)>) -> Seq<u8>
    decreases attrs.len(),
{
    if attrs.len() == 0 {
        Seq::<u8>::empty()
    } else {
        records(attrs.drop_last()) + record(attrs.last())
    }
}

/// The number of blocks that a PAX header takes: its block, and the blocks
/// of the attribute data, a begun one included.
pub open spec fn pax_blocks(attrs: Seq<(Seq<char>, AttributeView)>) -> nat {
    1 + (records_len(attrs) + 511) / 512
}

/// True when the pair has a record whose length fits in 64 bits.
pub open spec fn pair_fits(pair: (Seq<char>, AttributeView)) -> bool {
    encode_utf8(pair.0).len() + encode_utf8(pair.1.raw).len() + 23 <= u64::MAX
}

/// True when every record and the sum of their lengths fit in 64 bits, and
/// the number of blocks in a `usize`.
pub open spec fn attrs_fit(attrs: Seq<(Seq<char>, AttributeView)>) -> bool {
    &&& forall|i: int| 0 <= i < attrs.len() ==> pair_fits(#[trigger] attrs[i])
    &&& records_len(attrs) <= u64::MAX
    &&& pax_blocks(attrs) <= usize::MAX
}


/// The records of the first pairs take no more bytes than those of all.
pub proof fn lemma_records_len_take(attrs: Seq<(Seq<char>, AttributeView)>, i: int)
    requires
        0 <= i <= attrs.len(),
    ensures
        records_len(attrs.take(i)) <= records_len(attrs),
    decreases attrs.len() - i,
{
    if i < attrs.len() {
        lemma_records_len_take(attrs, i + 1);
        assert(attrs.take(i + 1).drop_last() =~= attrs.take(i));
    } else {
        assert(attrs.take(i) =~= attrs);
    }
}

/// The records take as many bytes as `records_len` says.
pub proof fn lemma_records_len(attrs: Seq<(Seq<char>, AttributeView)>)
    ensures
        records(attrs).len() == records_len(attrs),
    decreases attrs.len(),
{
    if attrs.len() > 0 {
        lemma_records_len(attrs.drop_last());
        lemma_record_len(attrs.last());
    }
}

/// A number with up to `k` decimal digits is below the `k`-th power of 10,
/// and one with `k` digits is at least the power before, from 10 on.
pub proof fn lemma_decimal_len_bounds(v: nat)
    ensures
        v < super::helper::pow10(decimal_len(v)),
        v >= 10 ==> v >= super::helper::pow10((decimal_len(v) - 1) as nat),
        decimal_len(v) >= 1,
    decreases v,
{
    reveal_with_fuel(super::helper::pow10, 2);
    if v >= 10 {
        lemma_decimal_len_bounds(v / 10);
    }
}

/// A number below the `k`-th power of 10 has at most `k` decimal digits, and
/// one that is at least that power has more.
pub proof fn lemma_decimal_len_of_bounds(v: nat, k: nat)
    ensures
        k >= 1 && v < super::helper::pow10(k) ==> decimal_len(v) <= k,
        v >= super::helper::pow10(k) ==> decimal_len(v) > k,
    decreases v,
{
    reveal_with_fuel(super::helper::pow10, 2);
    if k >= 1 {
        super::helper::lemma_pow10_grows((k - 1) as nat, (k - 1) as nat);
        if v >= 10 {
            lemma_decimal_len_of_bounds(v / 10, (k - 1) as nat);
        }
    }
}

/// The number of digits is small against the power of 10 that it counts.
pub proof fn lemma_digits_below_power(k: nat)
    requires
        k >= 1,
    ensures
        k + 1 <= 9 * super::helper::pow10((k - 1) as nat),
    decreases k,
{
    reveal_with_fuel(super::helper::pow10, 2);
    if k > 1 {
        lemma_digits_below_power((k - 1) as nat);
    }
}

/// Fixed point of the record length: the length of a record is the number
/// of bytes of its key, its value and its three separators, and the number
/// of decimal digits of the length itself.
pub proof fn lemma_record_len_fixed_point(base: nat)
    ensures
        record_len(base) == base + decimal_len(record_len(base)),
{
    let d1 = decimal_len(base);
    let first = base + d1;
    let d2 = decimal_len(first);
    if d2 != d1 {
        let p = super::helper::pow10(d1);
        lemma_decimal_len_bounds(base);
        lemma_decimal_len_bounds(first);
        lemma_digits_below_power(d1);
        reveal_with_fuel(super::helper::pow10, 2);
        // `first` is below the next power of 10, so it has one digit more.
        assert(first < 10 * p);
        lemma_decimal_len_of_bounds(first, d1 + 1);
        lemma_decimal_len_of_bounds(first, d1);
        assert(first >= p) by {
            if first < p {
                lemma_decimal_len_of_bounds(first, d1);
                lemma_decimal_len_monotone(base, first);
            }
        }
        lemma_decimal_len_monotone(base, first);
        assert(d2 == d1 + 1);
        let second = base + d2;
        assert(second >= p);
        assert(second < 10 * p);
        lemma_decimal_len_of_bounds(second, d1 + 1);
        lemma_decimal_len_of_bounds(second, d1);
    }
}

/// A larger number has no fewer decimal digits.
pub proof fn lemma_decimal_len_monotone(a: nat, b: nat)
    requires
        a <= b,
    ensures
        decimal_len(a) <= decimal_len(b),
    decreases b,
{
    if a >= 10 {
        lemma_decimal_len_monotone(a / 10, b / 10);
    }
}

/// A record is as long as the length that it declares.
pub proof fn lemma_record_len(pair: (Seq<char>, AttributeView))
    ensures
        record(pair).len() == pair_len(pair),
{
    let base = encode_utf8(pair.0).len() + encode_utf8(pair.1.raw).len() + 3;
    lemma_record_len_fixed_point(base);
    super::helper::lemma_decimal_digits(pair_len(pair));
}

/// Calculates the size of the record of a pair.
fn line_size(key: &str, value: &Attribute) -> (n: u64)
    requires
        pair_fits((key@, value@)),
    ensures
        n == pair_len((key@, value@)),
{
    let key_len: usize = key.as_bytes().len();
    let raw_len: usize = value.raw.as_str().as_bytes().len();
    let base: u64 = key_len as u64 + raw_len as u64 + 3;
    let first: u64 = base + decimal_len_of(base);
    let digits: u64 = decimal_len_of(first);
    if digits == decimal_len_of(base) {
        first
    } else {
        base + digits
    }
}

impl PaxHeader {
    /// Calculates the size of the record of a pair: the bytes of the key, of
    /// the raw value and of the three separators, and the digits of the
    /// size itself.
    pub fn calc_line_size(key: &str, value: &Attribute) -> (n: u64)
        requires
            pair_fits((key@, value@)),
        ensures
            n == pair_len((key@, value@)),
    {
        line_size(key, value)
    }

    /// The size of the attribute data: the sum of the lengths of the records.
    fn attrs_size(&self) -> (n: u64)
        requires
            attrs_fit(self@.attrs),
        ensures
            n == records_len(self@.attrs),
    {
        let ghost attrs = self@.attrs;
        let count: usize = attrs_len(&self.attributes);
        let mut total: u64 = 0;
        let mut i: usize = 0;
        while i < count
            invariant
                i <= count,
                count == attrs.len(),
                attrs == attrs_of(self.attributes),
                attrs_fit(attrs),
                total == records_len(attrs.take(i as int)),
            decreases count - i,
        {
            proof {
                lemma_records_len_take(attrs, i + 1);
                assert(attrs.take(i + 1).drop_last() =~= attrs.take(i as int));
            }
            match attrs_get_index(&self.attributes, i) {
                Some((k, a)) => {
                    total = total + line_size(k.as_str(), a);
                },
                None => {},
            }
            i += 1;
        }
        assert(attrs.take(count as int) =~= attrs);
        total
    }

    /// Appends the records of the attributes.
    fn save_records(&self, writer: &mut Vec<u8>)
        requires
            attrs_fit(self@.attrs),
        ensures
            final(writer)@ == old(writer)@ + records(self@.attrs),
    {
        let ghost attrs = self@.attrs;
        let count: usize = attrs_len(&self.attributes);
        let mut i: usize = 0;
        while i < count
            invariant
                i <= count,
                count == attrs.len(),
                attrs == attrs_of(self.attributes),
                attrs_fit(attrs),
                writer@ == old(writer)@ + records(attrs.take(i as int)),
            decreases count - i,
        {
            let ghost before = writer@;
            match attrs_get_index(&self.attributes, i) {
                Some((k, a)) => {
                    let size = line_size(k.as_str(), a);
                    let prefix = super::helper::decimal_digits_of(size);
                    append_bytes(writer, prefix.as_slice());
                    writer.push(0x20u8);
                    append_bytes(writer, k.as_str().as_bytes());
                    writer.push(0x3du8);
                    append_bytes(writer, a.raw.as_str().as_bytes());
                    writer.push(0x0au8);
                    assert(writer@ =~= before + record(attrs[i as int]));
                },
                None => {},
            }
            proof {
                assert(attrs.take(i + 1).drop_last() =~= attrs.take(i as int));
                assert(attrs.take(i + 1).last() == attrs[i as int]);
                assert(writer@ =~= old(writer)@ + records(attrs.take(i + 1)));
            }
            i += 1;
        }
        assert(attrs.take(count as int) =~= attrs);
    }
}

/// The header block of a PAX header before its checksum is written: the
/// block of the USTAR layout, with the size of the attribute data as size.
pub open spec fn pax_raw(f: UstarFields, attrs: Seq<(Seq<char>, AttributeView)>) -> Seq<u8> {
    ustar_raw(
        UstarFields { core: CoreFields { size: records_len(attrs) as u64, ..f.core }, ..f },
    )
}

/// Everything that saving a PAX header writes: the header block, the
/// records of the attributes, and zeros up to whole blocks.
pub open spec fn pax_encoding(f: UstarFields, attrs: Seq<(Seq<char>, AttributeView)>) -> Seq<u8> {
    sealed(pax_raw(f, attrs)) + records(attrs) + zeros(block_padding(records_len(attrs)) as int)
}

impl UsedBlocksTrait for PaxHeader {
    open spec fn blocks(&self) -> nat {
        pax_blocks(self@.attrs)
    }

    open spec fn countable(&self) -> bool {
        attrs_fit(self@.attrs)
    }

    open spec fn cache_valid(&self) -> bool {
        self@.updated_used_blocks ==> self@.used_blocks == pax_blocks(self@.attrs)
    }

    open spec fn saved(&self) -> nat {
        self@.saved_blocks
    }

    fn calc_used_blocks(&self) -> (n: usize) {
        let total = self.attrs_size();
        let begun: u64 = if total % 512 > 0 { 1 } else { 0 };
        let data_blocks: u64 = total / 512 + begun;
        1 + data_blocks as usize
    }

    fn get_used_blocks(&mut self) -> (n: usize)
        ensures
            final(self)@ == (PaxView {
                used_blocks: pax_blocks(old(self)@.attrs),
                updated_used_blocks: true,
                ..old(self)@
            }),
    {
        if !self.updated_used_blocks {
            self.used_blocks = self.calc_used_blocks();
            self.updated_used_blocks = true;
        }
        self.used_blocks
    }

    fn get_saved_blocks(&self) -> (n: usize) {
        self.saved_blocks
    }
}

impl PaxHeader {
    /// Creates a new PAX header, with the magic and the version of USTAR and
    /// without attributes.
    pub fn new(typeflag: PaxTypeFlag) -> (h: Self)
        ensures
            h@ == (PaxView {
                fields: UstarFields {
                    core: CoreFields {
                        name: Seq::<char>::empty(),
                        mode: 0,
                        uid: 0,
                        gid: 0,
                        size: 0,
                        mtime: 0,
                        chksum: 0,
                        flag: pax_flag_byte(typeflag),
                        linkname: Seq::<char>::empty(),
                    },
                    ext: ExtFields {
                        magic: "ustar\0"@,
                        version: "00"@,
                        uname: Seq::<char>::empty(),
                        gname: Seq::<char>::empty(),
                        devmajor: 0,
                        devminor: 0,
                    },
                    prefix: Seq::<char>::empty(),
                },
                typeflag,
                attrs: Seq::<(Seq<char>, AttributeView)>::empty(),
                used_blocks: 0,
                saved_blocks: 0,
                updated_used_blocks: false,
            }),
    {
        PaxHeader {
            name: String::new(),
            mode: 0,
            uid: 0,
            gid: 0,
            size: 0,
            mtime: 0,
            chksum: 0,
            typeflag,
            linkname: String::new(),
            magic: "ustar\0".to_owned(),
            version: "00".to_owned(),
            uname: String::new(),
            gname: String::new(),
            devmajor: 0,
            devminor: 0,
            prefix: String::new(),
            attributes: attrs_new(),
            used_blocks: 0,
            saved_blocks: 0,
            updated_used_blocks: false,
        }
    }

    /// Saves the header: the header block, which declares the size of the
    /// attribute data, the records of the attributes, and zeros up to whole
    /// blocks. The header keeps the checksum that was written and the number
    /// of blocks that it takes.
    pub fn save(&mut self, writer: &mut Vec<u8>)
        requires
            attrs_fit(old(self)@.attrs),
        ensures
            final(writer)@ == old(writer)@ + pax_encoding(old(self)@.fields, old(self)@.attrs),
            final(self)@ == (PaxView {
                fields: UstarFields {
                    core: CoreFields {
                        chksum: checksum_of(pax_raw(old(self)@.fields, old(self)@.attrs)),
                        ..old(self)@.fields.core
                    },
                    ..old(self)@.fields
                },
                used_blocks: pax_blocks(old(self)@.attrs),
                saved_blocks: pax_blocks(old(self)@.attrs),
                updated_used_blocks: true,
                ..old(self)@
            }),
    {
        let ghost f = self@.fields;
        let ghost attrs = self@.attrs;
        let pax_size = self.attrs_size();
        let mut block: Vec<u8> = Vec::new();
        push_core(
            &mut block,
            self.name.as_str(),
            self.mode,
            self.uid,
            self.gid,
            pax_size,
            self.mtime,
            u8::from(self.typeflag),
            self.linkname.as_str(),
        );
        push_ext(
            &mut block,
            self.magic.as_str(),
            self.version.as_str(),
            self.uname.as_str(),
            self.gname.as_str(),
            self.devmajor,
            self.devminor,
        );
        push_text(&mut block, self.prefix.as_str(), 155);
        append_zeros(&mut block, 12);
        proof {
            let sized = CoreFields { size: pax_size, ..f.core };
            lemma_core_layout(sized);
            lemma_ext_layout(f.ext);
            assert(core_bytes(CoreFields { chksum: 0, ..sized }) == core_bytes(sized));
            assert(block@ =~= pax_raw(f, attrs));
        }
        let chksum = seal(&mut block);
        append_bytes(writer, block.as_slice());
        self.save_records(writer);
        let rest: u64 = pax_size % 512;
        let padding: usize = if rest == 0 { 0 } else { (512 - rest) as usize };
        append_zeros(writer, padding);
        assert(writer@ =~= old(writer)@ + pax_encoding(f, attrs));
        self.chksum = chksum;
        self.updated_used_blocks = false;
        self.saved_blocks = self.get_used_blocks();
    }

    /// The size of the attribute data in bytes, as the header block said.
    pub fn content_size(&self) -> (size: u64)
        ensures
            size == self@.fields.core.size,
    {
        self.size
    }

    /// The type flag, whose byte is the flag byte of the fields.
    pub fn type_flag(&self) -> (flag: PaxTypeFlag)
        ensures
            flag == self@.typeflag,
            self@.fields.core.flag == pax_flag_byte(flag),
    {
        self.typeflag
    }

    /// Tells whether the number of used blocks was calculated since the last
    /// change of the header.
    pub fn is_used_blocks_updated(&self) -> (b: bool)
        ensures
            b == self@.updated_used_blocks,
    {
        self.updated_used_blocks
    }

    /// Returns true if this PAX header is a global header, which applies to
    /// all subsequent files.
    pub fn is_global(&self) -> (b: bool)
        ensures
            b == (self@.typeflag == PaxTypeFlag::Global),
    {
        matches!(self.typeflag, PaxTypeFlag::Global)
    }
}


// ---------------------------------------------------------------------
// What a PAX header reads
// ---------------------------------------------------------------------

/// True when the block carries the USTAR magic, the version of USTAR or of
/// GNU, and the type flag of an extended or a global header.
pub open spec fn has_pax_magic(b: Seq<u8>) -> bool {
    &&& has_ustar_magic(b)
    &&& ((b[263] == 0x30 && b[264] == 0x30) || (b[263] == 0x20 && b[264] == 0))
    &&& (b[156] == 0x78 || b[156] == 0x67)
}

/// True for the keys whose value is an unsigned integer.
pub open spec fn is_number_key(key: Seq<char>) -> bool {
    key == "uid"@ || key == "gid"@ || key == "size"@
}

/// True for the keys whose value is a decimal fraction.
pub open spec fn is_time_key(key: Seq<char>) -> bool {
    key == "mtime"@ || key == "atime"@ || key == "ctime"@
}

/// The attribute that a record with this key and raw value gives: a number
/// for the keys of numbers, which must be written in decimal digits, a
/// decimal fraction for the keys of times, and a text for the others.
pub open spec fn typed_attr(key: Seq<char>, raw: Seq<char>) -> Result<AttributeView, HeaderError> {
    if is_number_key(key) {
        match number_parse(encode_utf8(raw), 10) {
            Some(v) => Ok(AttributeView { value: AttrValue::U64(v), raw }),
            None => Err(HeaderError::BadNumber),
        }
    } else if is_time_key(key) {
        Ok(AttributeView { value: AttrValue::Decimal, raw })
    } else {
        Ok(AttributeView { value: AttrValue::Default, raw })
    }
}

/// What reading one record from position `pos` on gives: the pair and the
/// position behind the record; nothing where the data end before the space,
/// the equals sign or the line feed. The length comes before the first
/// space and must be a decimal number; the key ends at the first equals
/// sign behind it, and the value at the first line feed behind that.
pub open spec fn record_parse(data: Seq<u8>, pos: int) -> Result<
    Option<((Seq<char>, AttributeView), int)>,
    HeaderError,
> {
    let space = find_byte(data, 0x20, pos);
    let equals = find_byte(data, 0x3d, space + 1);
    let feed = find_byte(data, 0x0a, equals + 1);
    let length = text_parse(data.subrange(pos, space), space - pos);
    let key = text_parse(data.subrange(space + 1, equals), equals - space - 1);
    let raw = text_parse(data.subrange(equals + 1, feed), feed - equals - 1);
    if space >= data.len() {
        Ok(None)
    } else if length is Err {
        Err(length->Err_0)
    } else if number_parse(data.subrange(pos, space), 10) is None {
        Err(HeaderError::BadNumber)
    } else if equals >= data.len() {
        Ok(None)
    } else if key is Err {
        Err(key->Err_0)
    } else if feed >= data.len() {
        Ok(None)
    } else if raw is Err {
        Err(raw->Err_0)
    } else {
        match typed_attr(key->Ok_0, raw->Ok_0) {
            Err(e) => Err(e),
            Ok(attr) => Ok(Some(((key->Ok_0, attr), feed + 1))),
        }
    }
}

/// What reading the records from position `pos` on gives: the pairs in
/// their order, or the first error. An unfinished record at the end is left
/// out.
pub open spec fn records_parse_from(data: Seq<u8>, pos: int) -> Result<
    Seq<(Seq<char>, AttributeView)>,
    HeaderError,
>
    decreases data.len() - pos,
{
    match record_parse(data, pos) {
        Err(e) => Err(e),
        Ok(None) => Ok(Seq::<(Seq<char>, AttributeView)>::empty()),
        Ok(Some((pair, next))) => if next <= pos {
            Ok(Seq::<(Seq<char>, AttributeView)>::empty())
        } else {
            match records_parse_from(data, next) {
                Err(e) => Err(e),
                Ok(more) => Ok(seq![pair] + more),
            }
        },
    }
}

/// The map that inserting the pairs one after the other makes of `base`.
pub open spec fn insert_all(
    base: Seq<(Seq<char>, AttributeView)>,
    list: Seq<(Seq<char>, AttributeView)>,
) -> Seq<(Seq<char>, AttributeView)>
    decreases list.len(),
{
    if list.len() == 0 {
        base
    } else {
        put(insert_all(base, list.drop_last()), list.last().0, list.last().1)
    }
}

/// What reading a PAX header gives, from its block `b` and the bytes `rest`
/// behind it: nothing where the magic, the version or the type flag is not
/// of a PAX header; else the fields, the attributes and the number of bytes
/// taken from `rest`, or the first error. The attribute data are as many
/// bytes as the size field says, and stand in whole blocks.
pub open spec fn pax_parse(b: Seq<u8>, rest: Seq<u8>) -> Result<
    Option<(UstarFields, Seq<(Seq<char>, AttributeView)>, nat)>,
    HeaderError,
> {
    if !has_pax_magic(b) {
        Ok(None)
    } else {
        match ustar_fields_parse(b) {
            Err(e) => Err(e),
            Ok(f) => if rest.len() < padded_len(f.core.size as nat) {
                Err(HeaderError::ShortRead)
            } else {
                match records_parse_from(rest.take(f.core.size as int), 0) {
                    Err(e) => Err(e),
                    Ok(list) => if !attrs_fit(
                        insert_all(Seq::<(Seq<char>, AttributeView)>::empty(), list),
                    ) {
                        Err(HeaderError::TooLarge)
                    } else {
                        Ok(
                            Some(
                                (
                                    f,
                                    insert_all(Seq::<(Seq<char>, AttributeView)>::empty(), list),
                                    padded_len(f.core.size as nat),
                                ),
                            ),
                        )
                    },
                }
            },
        }
    }
}

/// Makes the attribute of a record from its key and its raw value.
fn make_typed_attr(key: &str, raw: String) -> (r: Result<Attribute, HeaderError>)
    ensures
        match r {
            Ok(a) => typed_attr(key@, raw@) == Ok::<AttributeView, HeaderError>(a@),
            Err(e) => typed_attr(key@, raw@) == Err::<AttributeView, HeaderError>(e),
        },
{
    if text_eq(key, "uid") || text_eq(key, "gid") || text_eq(key, "size") {
        Attribute::try_from_u64(raw)
    } else if text_eq(key, "mtime") || text_eq(key, "atime") || text_eq(key, "ctime") {
        Ok(Attribute::from_f64(raw))
    } else {
        Ok(Attribute::from_str(raw))
    }
}

/// Reads one record from position `pos` on.
fn parse_record(data: &[u8], pos: usize) -> (r: Result<
    Option<(String, Attribute, usize)>,
    HeaderError,
>)
    requires
        pos <= data@.len(),
    ensures
        match r {
            Ok(Some((key, attr, next))) => record_parse(data@, pos as int) == Ok::<
                Option<((Seq<char>, AttributeView), int)>,
                HeaderError,
            >(Some(((key@, attr@), next as int))) && pos < next <= data@.len(),
            Ok(None) => record_parse(data@, pos as int) == Ok::<
                Option<((Seq<char>, AttributeView), int)>,
                HeaderError,
            >(None),
            Err(e) => record_parse(data@, pos as int) == Err::<
                Option<((Seq<char>, AttributeView), int)>,
                HeaderError,
            >(e),
        },
{
    let len: usize = data.len();
    let space: usize = find(data, 0x20u8, pos);
    if space >= len {
        return Ok(None);
    }
    let length = get_str_with_min_size(&data[pos..space], space - pos)?;
    assert(encode_utf8(length@) == data@.subrange(pos as int, space as int)) by {
        broadcast use vstd::utf8::group_utf8_lib;

        let seg = data@.subrange(pos as int, space as int);
        super::helper::lemma_nul_index_bounds(seg, space - pos);
        assert(seg.take(seg.len() as int) =~= seg);
    }
    if parse_number(length.as_str(), 10).is_none() {
        return Err(HeaderError::BadNumber);
    }
    let equals: usize = find(data, 0x3du8, space + 1);
    if equals >= len {
        return Ok(None);
    }
    let key = get_str_with_min_size(&data[space + 1..equals], equals - space - 1)?;
    let feed: usize = find(data, 0x0au8, equals + 1);
    if feed >= len {
        return Ok(None);
    }
    let raw = get_str_with_min_size(&data[equals + 1..feed], feed - equals - 1)?;
    let attr = make_typed_attr(key.as_str(), raw)?;
    Ok(Some((key, attr, feed + 1)))
}

/// The result of reading records of which a first part gave `done`, and the
/// rest gives `tail`.
pub open spec fn records_join(
    done: Seq<(Seq<char>, AttributeView)>,
    tail: Result<Seq<(Seq<char>, AttributeView)>, HeaderError>,
) -> Result<Seq<(Seq<char>, AttributeView)>, HeaderError> {
    match tail {
        Err(e) => Err(e),
        Ok(more) => Ok(done + more),
    }
}

/// Reads the records of the attribute data and inserts the pairs into the
/// map.
fn parse_records(data: &[u8], m: &mut IndexMap<String, Attribute>) -> (r: Result<(), HeaderError>)
    ensures
        match r {
            Ok(()) => records_parse_from(data@, 0) is Ok && attrs_of(*final(m)) == insert_all(
                attrs_of(*old(m)),
                records_parse_from(data@, 0)->Ok_0,
            ),
            Err(e) => records_parse_from(data@, 0) == Err::<
                Seq<(Seq<char>, AttributeView)>,
                HeaderError,
            >(e),
        },
{
    let mut pos: usize = 0;
    let ghost mut done: Seq<(Seq<char>, AttributeView)> = Seq::empty();
    assert(done + records_parse_from(data@, 0)->Ok_0 =~= records_parse_from(data@, 0)->Ok_0);
    loop
        invariant
            pos <= data@.len(),
            records_parse_from(data@, 0) == records_join(done, records_parse_from(data@, pos as int)),
            attrs_of(*m) == insert_all(attrs_of(*old(m)), done),
        decreases data@.len() - pos,
    {
        let ghost tail = records_parse_from(data@, pos as int);
        match parse_record(data, pos) {
            Err(e) => {
                return Err(e);
            },
            Ok(None) => {
                assert(done + Seq::<(Seq<char>, AttributeView)>::empty() =~= done);
                return Ok(());
            },
            Ok(Some((key, attr, next))) => {
                let ghost pair = (key@, attr@);
                attrs_insert(m, key, attr);
                proof {
                    let after = records_parse_from(data@, next as int);
                    assert(done.push(pair).drop_last() =~= done);
                    if after is Ok {
                        assert(done + (seq![pair] + after->Ok_0) =~= done.push(pair) + after->Ok_0);
                    }
                    done = done.push(pair);
                }
                pos = next;
            },
        }
    }
}

/// Tells whether the block carries the magic, the version and the type flag
/// of a PAX header.
fn check_pax_magic(buf: &[u8; 512]) -> (ok: bool)
    ensures
        ok == has_pax_magic(buf@),
{
    check_ustar_magic(buf) && ((buf[263] == 0x30 && buf[264] == 0x30) || (buf[263] == 0x20
        && buf[264] == 0)) && (buf[156] == 0x78 || buf[156] == 0x67)
}

impl PaxHeader {
    /// Tells whether the lengths of the records, their sum and the number of
    /// blocks fit the machine's integers.
    pub fn attrs_fit_check(&self) -> (fit: bool)
        ensures
            fit == attrs_fit(self@.attrs),
    {
        let ghost attrs = self@.attrs;
        let count: usize = attrs_len(&self.attributes);
        let mut total: u64 = 0;
        let mut i: usize = 0;
        while i < count
            invariant
                i <= count,
                count == attrs.len(),
                attrs == attrs_of(self.attributes),
                forall|j: int| 0 <= j < i ==> pair_fits(#[trigger] attrs[j]),
                total == records_len(attrs.take(i as int)),
            decreases count - i,
        {
            proof {
                lemma_records_len_take(attrs, i + 1);
                assert(attrs.take(i + 1).drop_last() =~= attrs.take(i as int));
            }
            match attrs_get_index(&self.attributes, i) {
                Some((k, a)) => {
                    let key_len: usize = k.as_str().as_bytes().len();
                    let raw_len: usize = a.raw.as_str().as_bytes().len();
                    if key_len as u64 > u64::MAX - 23 || raw_len as u64 > u64::MAX - 23
                        - key_len as u64 {
                        return false;
                    }
                    let line = line_size(k.as_str(), a);
                    if total > u64::MAX - line {
                        return false;
                    }
                    total = total + line;
                },
                None => {},
            }
            i += 1;
        }
        assert(attrs.take(count as int) =~= attrs);
        let begun: u64 = if total % 512 > 0 { 1 } else { 0 };
        let data_blocks: u64 = total / 512 + begun;
        data_blocks < usize::MAX as u64
    }

    /// Loads a PAX header from its block `buf` and the reader, which stands
    /// behind that block: the fields of the block, and the attributes from
    /// the data that follow. A block whose magic, version or type flag is
    /// not of a PAX header gives `None`, and nothing is read.
    pub fn load(buf: &[u8; 512], reader: &mut Stream) -> (r: Result<Option<Self>, HeaderError>)
        ensures
            final(reader).data == old(reader).data,
            match r {
                Ok(Some(h)) => final(reader).pos >= old(reader).pos && pax_parse(
                    buf@,
                    old(reader).remaining(),
                ) == Ok::<
                    Option<(UstarFields, Seq<(Seq<char>, AttributeView)>, nat)>,
                    HeaderError,
                >(Some((h@.fields, h@.attrs, (final(reader).pos - old(reader).pos) as nat)))
                    && h@.typeflag == pax_flag(buf@[156]) && h@.typeflag == pax_flag(
                    h@.fields.core.flag,
                ) && h@.used_blocks == pax_blocks(
                    h@.attrs,
                ) && h@.saved_blocks == pax_blocks(h@.attrs) && h@.updated_used_blocks,
                Ok(None) => pax_parse(buf@, old(reader).remaining()) == Ok::<
                    Option<(UstarFields, Seq<(Seq<char>, AttributeView)>, nat)>,
                    HeaderError,
                >(None) && final(reader).pos == old(reader).pos,
                Err(e) => pax_parse(buf@, old(reader).remaining()) == Err::<
                    Option<(UstarFields, Seq<(Seq<char>, AttributeView)>, nat)>,
                    HeaderError,
                >(e),
            },
    {
        if !check_pax_magic(buf) {
            return Ok(None);
        }
        let typeflag = PaxTypeFlag::from(buf[156]);
        let parts = load_ustar_fields(buf)?;
        let data = reader.read_padded(parts.core.size)?;
        let mut attributes = attrs_new();
        parse_records(data.as_slice(), &mut attributes)?;
        let mut header = PaxHeader {
            name: parts.core.name,
            mode: parts.core.mode,
            uid: parts.core.uid,
            gid: parts.core.gid,
            size: parts.core.size,
            mtime: parts.core.mtime,
            chksum: parts.core.chksum,
            typeflag,
            linkname: parts.core.linkname,
            magic: parts.ext.magic,
            version: parts.ext.version,
            uname: parts.ext.uname,
            gname: parts.ext.gname,
            devmajor: parts.ext.devmajor,
            devminor: parts.ext.devminor,
            prefix: parts.prefix,
            attributes,
            used_blocks: 0,
            saved_blocks: 0,
            updated_used_blocks: false,
        };
        if !header.attrs_fit_check() {
            return Err(HeaderError::TooLarge);
        }
        header.saved_blocks = header.get_used_blocks();
        Ok(Some(header))
    }
}


impl PaxHeader {
    /// Returns the PAX attribute if present.
    pub fn get_attr(&self, key: &str) -> (r: Option<&Attribute>)
        ensures
            match r {
                Some(a) => value_of(self@.attrs, key@) == Some(a@),
                None => value_of(self@.attrs, key@) is None,
            },
    {
        attrs_get(&self.attributes, key)
    }

    /// The raw text of the attribute of `key`, if present.
    fn get_text(&self, key: &str) -> (r: Option<&str>)
        ensures
            match r {
                Some(text) => value_of(self@.attrs, key@) is Some && value_of(
                    self@.attrs,
                    key@,
                )->Some_0.raw == text@,
                None => value_of(self@.attrs, key@) is None,
            },
    {
        match attrs_get(&self.attributes, key) {
            Some(attr) => Some(attr.raw.as_str()),
            None => None,
        }
    }

    /// The number of the attribute of `key`, if present and a number.
    fn get_number(&self, key: &str) -> (r: Option<u64>)
        ensures
            match r {
                Some(v) => value_of(self@.attrs, key@) is Some && value_of(
                    self@.attrs,
                    key@,
                )->Some_0.value == AttrValue::U64(v),
                None => value_of(self@.attrs, key@) is None || !(value_of(
                    self@.attrs,
                    key@,
                )->Some_0.value is U64),
            },
    {
        match attrs_get(&self.attributes, key) {
            Some(attr) => match attr.value {
                AttrValue::U64(v) => Some(v),
                _ => None,
            },
            None => None,
        }
    }

    /// The text of the decimal fraction of the attribute of `key`, if
    /// present and a decimal fraction.
    fn get_decimal(&self, key: &str) -> (r: Option<&str>)
        ensures
            match r {
                Some(text) => value_of(self@.attrs, key@) is Some && value_of(
                    self@.attrs,
                    key@,
                )->Some_0 == (AttributeView { value: AttrValue::Decimal, raw: text@ }),
                None => value_of(self@.attrs, key@) is None || !(value_of(
                    self@.attrs,
                    key@,
                )->Some_0.value is Decimal),
            },
    {
        match attrs_get(&self.attributes, key) {
            Some(attr) => match attr.value {
                AttrValue::Decimal => Some(attr.raw.as_str()),
                _ => None,
            },
            None => None,
        }
    }

    /// Inserts the PAX attribute: it takes the place of the attribute of
    /// that key where there is one, which is returned, and comes last where
    /// there is none.
    pub fn insert_attr(&mut self, key: &str, value: Attribute) -> (r: Option<Attribute>)
        ensures
            final(self)@ == (PaxView {
                attrs: put(old(self)@.attrs, key@, value@),
                updated_used_blocks: false,
                ..old(self)@
            }),
            match r {
                Some(a) => value_of(old(self)@.attrs, key@) == Some(a@),
                None => value_of(old(self)@.attrs, key@) is None,
            },
    {
        self.updated_used_blocks = false;
        attrs_insert(&mut self.attributes, key.to_owned(), value)
    }

    /// Sets the PAX attribute.
    pub fn set_attr(&mut self, key: &str, value: Attribute)
        ensures
            final(self)@ == (PaxView {
                attrs: put(old(self)@.attrs, key@, value@),
                updated_used_blocks: false,
                ..old(self)@
            }),
    {
        self.insert_attr(key, value);
    }

    /// Pushes the PAX attribute to the end of the attributes, or gives the
    /// attribute of that key the value where there is one.
    pub fn push_attr(&mut self, key: &str, value: Attribute)
        ensures
            final(self)@ == (PaxView {
                attrs: put(old(self)@.attrs, key@, value@),
                updated_used_blocks: false,
                ..old(self)@
            }),
    {
        self.insert_attr(key, value);
    }

    /// True when `index` is a place at which an attribute of `key` can be
    /// inserted: below the number of attributes where the key is present,
    /// and up to it where it is not.
    pub open spec fn can_insert_at(&self, index: usize, key: Seq<char>) -> bool {
        if key_index(self@.attrs, key) is Some {
            index < self@.attrs.len()
        } else {
            index <= self@.attrs.len()
        }
    }

    /// Tells whether an attribute of `key` can be inserted at `index`.
    pub fn check_insert_at(&self, index: usize, key: &str) -> (ok: bool)
        ensures
            ok == self.can_insert_at(index, key@),
    {
        let len: usize = attrs_len(&self.attributes);
        match attrs_get_index_of(&self.attributes, key) {
            Some(_) => index < len,
            None => index <= len,
        }
    }

    /// Inserts the PAX attribute at the specified index. An attribute of
    /// that key leaves its place first.
    pub fn insert_attr_at(&mut self, index: usize, key: &str, value: Attribute)
        requires
            old(self).can_insert_at(index, key@),
        ensures
            final(self)@ == (PaxView {
                attrs: put_at(old(self)@.attrs, index as int, key@, value@),
                updated_used_blocks: false,
                ..old(self)@
            }),
    {
        self.updated_used_blocks = false;
        attrs_shift_insert(&mut self.attributes, index, key.to_owned(), value);
    }

    /// Returns the index of the PAX attribute with the specified key.
    pub fn get_attr_index(&self, key: &str) -> (r: Option<usize>)
        ensures
            match r {
                Some(i) => key_index(self@.attrs, key@) == Some(i as int),
                None => key_index(self@.attrs, key@) is None,
            },
    {
        attrs_get_index_of(&self.attributes, key)
    }

    /// Removes the PAX attribute with the specified key, and returns it.
    /// The attributes behind it move up.
    pub fn remove_attr(&mut self, key: &str) -> (r: Option<Attribute>)
        ensures
            match r {
                Some(a) => key_index(old(self)@.attrs, key@) is Some && value_of(
                    old(self)@.attrs,
                    key@,
                ) == Some(a@) && final(self)@ == (PaxView {
                    attrs: old(self)@.attrs.remove(key_index(old(self)@.attrs, key@)->Some_0),
                    updated_used_blocks: false,
                    ..old(self)@
                }),
                None => key_index(old(self)@.attrs, key@) is None && final(self)@ == (PaxView {
                    updated_used_blocks: false,
                    ..old(self)@
                }),
            },
    {
        self.updated_used_blocks = false;
        attrs_shift_remove(&mut self.attributes, key)
    }

    /// Removes the PAX attribute at the specified index, and returns it
    /// with its key. The attributes behind it move up.
    pub fn remove_attr_at(&mut self, index: usize) -> (r: Option<(String, Attribute)>)
        ensures
            match r {
                Some((k, a)) => index < old(self)@.attrs.len() && old(self)@.attrs[index as int]
                    == (k@, a@) && final(self)@ == (PaxView {
                    attrs: old(self)@.attrs.remove(index as int),
                    updated_used_blocks: false,
                    ..old(self)@
                }),
                None => index >= old(self)@.attrs.len() && final(self)@ == (PaxView {
                    updated_used_blocks: false,
                    ..old(self)@
                }),
            },
    {
        self.updated_used_blocks = false;
        attrs_shift_remove_index(&mut self.attributes, index)
    }

    /// Pops the PAX attribute from the end of the attributes.
    pub fn pop_attr(&mut self) -> (r: Option<(String, Attribute)>)
        ensures
            match r {
                Some((k, a)) => old(self)@.attrs.len() > 0 && old(self)@.attrs.last() == (k@, a@)
                    && final(self)@ == (PaxView {
                    attrs: old(self)@.attrs.drop_last(),
                    updated_used_blocks: false,
                    ..old(self)@
                }),
                None => old(self)@.attrs.len() == 0 && final(self)@ == (PaxView {
                    updated_used_blocks: false,
                    ..old(self)@
                }),
            },
    {
        self.updated_used_blocks = false;
        attrs_pop(&mut self.attributes)
    }

    /// Clears all PAX attributes.
    pub fn clear_attr(&mut self)
        ensures
            final(self)@ == (PaxView {
                attrs: Seq::<(Seq<char>, AttributeView)>::empty(),
                updated_used_blocks: false,
                ..old(self)@
            }),
    {
        self.updated_used_blocks = false;
        attrs_clear(&mut self.attributes);
    }

    /// Returns the number of PAX attributes.
    pub fn attr_count(&self) -> (n: usize)
        ensures
            n == self@.attrs.len(),
    {
        attrs_len(&self.attributes)
    }

    /// Gets the attribute at `index` for changing it. The number of blocks
    /// that the header remembers to take is no longer up to date.
    pub fn get_attr_mut(&mut self, index: usize) -> (r: Option<&mut Attribute>)
        ensures
            match r {
                Some(a) => index < old(self)@.attrs.len() && (*a)@ == old(self)@.attrs[index as int].1
                    && final(self)@ == (PaxView {
                    attrs: old(self)@.attrs.update(
                        index as int,
                        (old(self)@.attrs[index as int].0, (*final(a))@),
                    ),
                    updated_used_blocks: false,
                    ..old(self)@
                }),
                None => index >= old(self)@.attrs.len() && final(self)@ == (PaxView {
                    updated_used_blocks: false,
                    ..old(self)@
                }),
            },
    {
        self.updated_used_blocks = false;
        attrs_get_index_mut(&mut self.attributes, index)
    }

    /// Returns the PAX attributes with their keys, in their order.
    pub fn iter_attr(&self) -> (pairs: Vec<(&String, &Attribute)>)
        ensures
            pairs@.len() == self@.attrs.len(),
            forall|i: int|
                0 <= i < pairs@.len() ==> self@.attrs[i] == ((#[trigger] pairs@[i]).0@, pairs@[i].1@),
    {
        let count: usize = attrs_len(&self.attributes);
        let mut pairs: Vec<(&String, &Attribute)> = Vec::new();
        let mut i: usize = 0;
        while i < count
            invariant
                i <= count,
                count == self@.attrs.len(),
                pairs@.len() == i,
                forall|j: int|
                    0 <= j < i ==> self@.attrs[j] == ((#[trigger] pairs@[j]).0@, pairs@[j].1@),
            decreases count - i,
        {
            match attrs_get_index(&self.attributes, i) {
                Some(pair) => {
                    pairs.push(pair);
                },
                None => {},
            }
            i += 1;
        }
        pairs
    }

    /// Returns the PAX path attribute if present.
    pub fn get_attr_path(&self) -> (r: Option<&str>)
        ensures
            match r {
                Some(text) => value_of(self@.attrs, "path"@) is Some && value_of(
                    self@.attrs,
                    "path"@,
                )->Some_0.raw == text@,
                None => value_of(self@.attrs, "path"@) is None,
            },
    {
        self.get_text("path")
    }

    /// Sets the PAX path attribute.
    pub fn set_attr_path(&mut self, path: &str)
        ensures
            final(self)@ == (PaxView {
                attrs: put(
                    old(self)@.attrs,
                    "path"@,
                    AttributeView { value: AttrValue::Default, raw: path@ },
                ),
                updated_used_blocks: false,
                ..old(self)@
            }),
    {
        self.set_attr("path", Attribute::from_str(path.to_owned()));
    }

    /// Returns the PAX linkpath attribute if present.
    pub fn get_attr_linkpath(&self) -> (r: Option<&str>)
        ensures
            match r {
                Some(text) => value_of(self@.attrs, "linkpath"@) is Some && value_of(
                    self@.attrs,
                    "linkpath"@,
                )->Some_0.raw == text@,
                None => value_of(self@.attrs, "linkpath"@) is None,
            },
    {
        self.get_text("linkpath")
    }

    /// Sets the PAX linkpath attribute.
    pub fn set_attr_linkpath(&mut self, linkpath: &str)
        ensures
            final(self)@ == (PaxView {
                attrs: put(
                    old(self)@.attrs,
                    "linkpath"@,
                    AttributeView { value: AttrValue::Default, raw: linkpath@ },
                ),
                updated_used_blocks: false,
                ..old(self)@
            }),
    {
        self.set_attr("linkpath", Attribute::from_str(linkpath.to_owned()));
    }

    /// Returns the PAX uname attribute if present.
    pub fn get_attr_uname(&self) -> (r: Option<&str>)
        ensures
            match r {
                Some(text) => value_of(self@.attrs, "uname"@) is Some && value_of(
                    self@.attrs,
                    "uname"@,
                )->Some_0.raw == text@,
                None => value_of(self@.attrs, "uname"@) is None,
            },
    {
        self.get_text("uname")
    }

    /// Sets the PAX uname attribute.
    pub fn set_attr_uname(&mut self, uname: &str)
        ensures
            final(self)@ == (PaxView {
                attrs: put(
                    old(self)@.attrs,
                    "uname"@,
                    AttributeView { value: AttrValue::Default, raw: uname@ },
                ),
                updated_used_blocks: false,
                ..old(self)@
            }),
    {
        self.set_attr("uname", Attribute::from_str(uname.to_owned()));
    }

    /// Returns the PAX gname attribute if present.
    pub fn get_attr_gname(&self) -> (r: Option<&str>)
        ensures
            match r {
                Some(text) => value_of(self@.attrs, "gname"@) is Some && value_of(
                    self@.attrs,
                    "gname"@,
                )->Some_0.raw == text@,
                None => value_of(self@.attrs, "gname"@) is None,
            },
    {
        self.get_text("gname")
    }

    /// Sets the PAX gname attribute.
    pub fn set_attr_gname(&mut self, gname: &str)
        ensures
            final(self)@ == (PaxView {
                attrs: put(
                    old(self)@.attrs,
                    "gname"@,
                    AttributeView { value: AttrValue::Default, raw: gname@ },
                ),
                updated_used_blocks: false,
                ..old(self)@
            }),
    {
        self.set_attr("gname", Attribute::from_str(gname.to_owned()));
    }

    /// Returns the PAX uid attribute if present and a number.
    pub fn get_attr_uid(&self) -> (r: Option<u64>)
        ensures
            match r {
                Some(v) => value_of(self@.attrs, "uid"@) is Some && value_of(
                    self@.attrs,
                    "uid"@,
                )->Some_0.value == AttrValue::U64(v),
                None => value_of(self@.attrs, "uid"@) is None || !(value_of(
                    self@.attrs,
                    "uid"@,
                )->Some_0.value is U64),
            },
    {
        self.get_number("uid")
    }

    /// Sets the PAX uid attribute, written in decimal digits.
    pub fn set_attr_uid(&mut self, uid: u64)
        ensures
            final(self)@ == (PaxView {
                attrs: put(old(self)@.attrs, "uid"@, number_attr(uid)),
                updated_used_blocks: false,
                ..old(self)@
            }),
    {
        self.set_attr("uid", Attribute::of_u64(uid));
    }

    /// Returns the PAX gid attribute if present and a number.
    pub fn get_attr_gid(&self) -> (r: Option<u64>)
        ensures
            match r {
                Some(v) => value_of(self@.attrs, "gid"@) is Some && value_of(
                    self@.attrs,
                    "gid"@,
                )->Some_0.value == AttrValue::U64(v),
                None => value_of(self@.attrs, "gid"@) is None || !(value_of(
                    self@.attrs,
                    "gid"@,
                )->Some_0.value is U64),
            },
    {
        self.get_number("gid")
    }

    /// Sets the PAX gid attribute, written in decimal digits.
    pub fn set_attr_gid(&mut self, gid: u64)
        ensures
            final(self)@ == (PaxView {
                attrs: put(old(self)@.attrs, "gid"@, number_attr(gid)),
                updated_used_blocks: false,
                ..old(self)@
            }),
    {
        self.set_attr("gid", Attribute::of_u64(gid));
    }

    /// Returns the PAX size attribute if present and a number.
    pub fn get_attr_size(&self) -> (r: Option<u64>)
        ensures
            match r {
                Some(v) => value_of(self@.attrs, "size"@) is Some && value_of(
                    self@.attrs,
                    "size"@,
                )->Some_0.value == AttrValue::U64(v),
                None => value_of(self@.attrs, "size"@) is None || !(value_of(
                    self@.attrs,
                    "size"@,
                )->Some_0.value is U64),
            },
    {
        self.get_number("size")
    }

    /// Sets the PAX size attribute, written in decimal digits.
    pub fn set_attr_size(&mut self, size: u64)
        ensures
            final(self)@ == (PaxView {
                attrs: put(old(self)@.attrs, "size"@, number_attr(size)),
                updated_used_blocks: false,
                ..old(self)@
            }),
    {
        self.set_attr("size", Attribute::of_u64(size));
    }

    /// Returns the text of the PAX mtime attribute if present and a decimal
    /// fraction.
    pub fn get_attr_mtime(&self) -> (r: Option<&str>)
        ensures
            match r {
                Some(text) => value_of(self@.attrs, "mtime"@) is Some && value_of(
                    self@.attrs,
                    "mtime"@,
                )->Some_0 == (AttributeView { value: AttrValue::Decimal, raw: text@ }),
                None => value_of(self@.attrs, "mtime"@) is None || !(value_of(
                    self@.attrs,
                    "mtime"@,
                )->Some_0.value is Decimal),
            },
    {
        self.get_decimal("mtime")
    }

    /// Sets the PAX mtime attribute to the decimal fraction that `mtime`
    /// writes.
    pub fn set_attr_mtime(&mut self, mtime: &str)
        ensures
            final(self)@ == (PaxView {
                attrs: put(
                    old(self)@.attrs,
                    "mtime"@,
                    AttributeView { value: AttrValue::Decimal, raw: mtime@ },
                ),
                updated_used_blocks: false,
                ..old(self)@
            }),
    {
        self.set_attr("mtime", Attribute::from_f64(mtime.to_owned()));
    }

    /// Returns the text of the PAX atime attribute if present and a decimal
    /// fraction.
    pub fn get_attr_atime(&self) -> (r: Option<&str>)
        ensures
            match r {
                Some(text) => value_of(self@.attrs, "atime"@) is Some && value_of(
                    self@.attrs,
                    "atime"@,
                )->Some_0 == (AttributeView { value: AttrValue::Decimal, raw: text@ }),
                None => value_of(self@.attrs, "atime"@) is None || !(value_of(
                    self@.attrs,
                    "atime"@,
                )->Some_0.value is Decimal),
            },
    {
        self.get_decimal("atime")
    }

    /// Sets the PAX atime attribute to the decimal fraction that `atime`
    /// writes.
    pub fn set_attr_atime(&mut self, atime: &str)
        ensures
            final(self)@ == (PaxView {
                attrs: put(
                    old(self)@.attrs,
                    "atime"@,
                    AttributeView { value: AttrValue::Decimal, raw: atime@ },
                ),
                updated_used_blocks: false,
                ..old(self)@
            }),
    {
        self.set_attr("atime", Attribute::from_f64(atime.to_owned()));
    }

    /// Returns the text of the PAX ctime attribute if present and a decimal
    /// fraction.
    pub fn get_attr_ctime(&self) -> (r: Option<&str>)
        ensures
            match r {
                Some(text) => value_of(self@.attrs, "ctime"@) is Some && value_of(
                    self@.attrs,
                    "ctime"@,
                )->Some_0 == (AttributeView { value: AttrValue::Decimal, raw: text@ }),
                None => value_of(self@.attrs, "ctime"@) is None || !(value_of(
                    self@.attrs,
                    "ctime"@,
                )->Some_0.value is Decimal),
            },
    {
        self.get_decimal("ctime")
    }

    /// Sets the PAX ctime attribute to the decimal fraction that `ctime`
    /// writes.
    pub fn set_attr_ctime(&mut self, ctime: &str)
        ensures
            final(self)@ == (PaxView {
                attrs: put(
                    old(self)@.attrs,
                    "ctime"@,
                    AttributeView { value: AttrValue::Decimal, raw: ctime@ },
                ),
                updated_used_blocks: false,
                ..old(self)@
            }),
    {
        self.set_attr("ctime", Attribute::from_f64(ctime.to_owned()));
    }
}

/// What saving a PAX header writes is the header block and the attribute
/// data in whole blocks.
pub proof fn lemma_pax_encoding_len(f: UstarFields, attrs: Seq<(Seq<char>, AttributeView)>)
    ensures
        pax_encoding(f, attrs).len() == 512 + padded_len(records_len(attrs)),
        pax_encoding(f, attrs).len() % 512 == 0,
{
    let sized = UstarFields { core: CoreFields { size: records_len(attrs) as u64, ..f.core }, ..f };
    super::ustar::lemma_ustar_raw_len(sized);
    lemma_records_len(attrs);
    lemma_whole_blocks(sealed(pax_raw(f, attrs)), records(attrs), records_len(attrs));
}

/// A block and data that are filled up with zeros take whole blocks.
proof fn lemma_whole_blocks(head: Seq<u8>, data: Seq<u8>, size: nat)
    requires
        head.len() == 512,
        data.len() == size,
    ensures
        (head + data + zeros(block_padding(size) as int)).len() == 512 + padded_len(size),
        (head + data + zeros(block_padding(size) as int)).len() % 512 == 0,
{
    assert(size + block_padding(size) == padded_len(size));
}

impl PaxHeader {
    /// The file name.
    pub fn get_name(&self) -> (v: &str)
        ensures
            v@ == self@.fields.core.name,
    {
        self.name.as_str()
    }

    /// Sets the file name.
    pub fn set_name(&mut self, v: String)
        ensures
            final(self)@ == (PaxView {
                fields: UstarFields {
                    core: CoreFields { name: v@, ..old(self)@.fields.core },
                    ..old(self)@.fields
                },
                ..old(self)@
            }),
    {
        self.name = v;
    }

    /// The file mode.
    pub fn get_mode(&self) -> (v: u32)
        ensures
            v == self@.fields.core.mode,
    {
        self.mode
    }

    /// Sets the file mode.
    pub fn set_mode(&mut self, v: u32)
        ensures
            final(self)@ == (PaxView {
                fields: UstarFields {
                    core: CoreFields { mode: v, ..old(self)@.fields.core },
                    ..old(self)@.fields
                },
                ..old(self)@
            }),
    {
        self.mode = v;
    }

    /// The user ID of the owner.
    pub fn get_uid(&self) -> (v: u32)
        ensures
            v == self@.fields.core.uid,
    {
        self.uid
    }

    /// Sets the user ID of the owner.
    pub fn set_uid(&mut self, v: u32)
        ensures
            final(self)@ == (PaxView {
                fields: UstarFields {
                    core: CoreFields { uid: v, ..old(self)@.fields.core },
                    ..old(self)@.fields
                },
                ..old(self)@
            }),
    {
        self.uid = v;
    }

    /// The group ID of the owner.
    pub fn get_gid(&self) -> (v: u32)
        ensures
            v == self@.fields.core.gid,
    {
        self.gid
    }

    /// Sets the group ID of the owner.
    pub fn set_gid(&mut self, v: u32)
        ensures
            final(self)@ == (PaxView {
                fields: UstarFields {
                    core: CoreFields { gid: v, ..old(self)@.fields.core },
                    ..old(self)@.fields
                },
                ..old(self)@
            }),
    {
        self.gid = v;
    }

    /// Sets the size in bytes.
    pub fn set_size(&mut self, v: u64)
        ensures
            final(self)@ == (PaxView {
                fields: UstarFields {
                    core: CoreFields { size: v, ..old(self)@.fields.core },
                    ..old(self)@.fields
                },
                ..old(self)@
            }),
    {
        self.size = v;
    }

    /// The modification time.
    pub fn get_mtime(&self) -> (v: u64)
        ensures
            v == self@.fields.core.mtime,
    {
        self.mtime
    }

    /// Sets the modification time.
    pub fn set_mtime(&mut self, v: u64)
        ensures
            final(self)@ == (PaxView {
                fields: UstarFields {
                    core: CoreFields { mtime: v, ..old(self)@.fields.core },
                    ..old(self)@.fields
                },
                ..old(self)@
            }),
    {
        self.mtime = v;
    }

    /// The checksum of the header.
    pub fn get_chksum(&self) -> (v: u32)
        ensures
            v == self@.fields.core.chksum,
    {
        self.chksum
    }

    /// Sets the checksum of the header.
    pub fn set_chksum(&mut self, v: u32)
        ensures
            final(self)@ == (PaxView {
                fields: UstarFields {
                    core: CoreFields { chksum: v, ..old(self)@.fields.core },
                    ..old(self)@.fields
                },
                ..old(self)@
            }),
    {
        self.chksum = v;
    }

    /// The name of the linked file.
    pub fn get_linkname(&self) -> (v: &str)
        ensures
            v@ == self@.fields.core.linkname,
    {
        self.linkname.as_str()
    }

    /// Sets the name of the linked file.
    pub fn set_linkname(&mut self, v: String)
        ensures
            final(self)@ == (PaxView {
                fields: UstarFields {
                    core: CoreFields { linkname: v@, ..old(self)@.fields.core },
                    ..old(self)@.fields
                },
                ..old(self)@
            }),
    {
        self.linkname = v;
    }

    /// The magic of the flavour.
    pub fn get_magic(&self) -> (v: &str)
        ensures
            v@ == self@.fields.ext.magic,
    {
        self.magic.as_str()
    }

    /// Sets the magic of the flavour.
    pub fn set_magic(&mut self, v: String)
        ensures
            final(self)@ == (PaxView {
                fields: UstarFields {
                    ext: ExtFields { magic: v@, ..old(self)@.fields.ext },
                    ..old(self)@.fields
                },
                ..old(self)@
            }),
    {
        self.magic = v;
    }

    /// The version of the flavour.
    pub fn get_version(&self) -> (v: &str)
        ensures
            v@ == self@.fields.ext.version,
    {
        self.version.as_str()
    }

    /// Sets the version of the flavour.
    pub fn set_version(&mut self, v: String)
        ensures
            final(self)@ == (PaxView {
                fields: UstarFields {
                    ext: ExtFields { version: v@, ..old(self)@.fields.ext },
                    ..old(self)@.fields
                },
                ..old(self)@
            }),
    {
        self.version = v;
    }

    /// The user name of the owner.
    pub fn get_uname(&self) -> (v: &str)
        ensures
            v@ == self@.fields.ext.uname,
    {
        self.uname.as_str()
    }

    /// Sets the user name of the owner.
    pub fn set_uname(&mut self, v: String)
        ensures
            final(self)@ == (PaxView {
                fields: UstarFields {
                    ext: ExtFields { uname: v@, ..old(self)@.fields.ext },
                    ..old(self)@.fields
                },
                ..old(self)@
            }),
    {
        self.uname = v;
    }

    /// The group name of the owner.
    pub fn get_gname(&self) -> (v: &str)
        ensures
            v@ == self@.fields.ext.gname,
    {
        self.gname.as_str()
    }

    /// Sets the group name of the owner.
    pub fn set_gname(&mut self, v: String)
        ensures
            final(self)@ == (PaxView {
                fields: UstarFields {
                    ext: ExtFields { gname: v@, ..old(self)@.fields.ext },
                    ..old(self)@.fields
                },
                ..old(self)@
            }),
    {
        self.gname = v;
    }

    /// The major number of the device.
    pub fn get_devmajor(&self) -> (v: u32)
        ensures
            v == self@.fields.ext.devmajor,
    {
        self.devmajor
    }

    /// Sets the major number of the device.
    pub fn set_devmajor(&mut self, v: u32)
        ensures
            final(self)@ == (PaxView {
                fields: UstarFields {
                    ext: ExtFields { devmajor: v, ..old(self)@.fields.ext },
                    ..old(self)@.fields
                },
                ..old(self)@
            }),
    {
        self.devmajor = v;
    }

    /// The minor number of the device.
    pub fn get_devminor(&self) -> (v: u32)
        ensures
            v == self@.fields.ext.devminor,
    {
        self.devminor
    }

    /// Sets the minor number of the device.
    pub fn set_devminor(&mut self, v: u32)
        ensures
            final(self)@ == (PaxView {
                fields: UstarFields {
                    ext: ExtFields { devminor: v, ..old(self)@.fields.ext },
                    ..old(self)@.fields
                },
                ..old(self)@
            }),
    {
        self.devminor = v;
    }

    /// The prefix of the file name.
    pub fn get_prefix(&self) -> (v: &str)
        ensures
            v@ == self@.fields.prefix,
    {
        self.prefix.as_str()
    }

    /// Sets the prefix of the file name.
    pub fn set_prefix(&mut self, v: String)
        ensures
            final(self)@ == (PaxView {
                fields: UstarFields { prefix: v@, ..old(self)@.fields },
                ..old(self)@
            }),
    {
        self.prefix = v;
    }

    /// Sets the type flag.
    pub fn set_typeflag(&mut self, v: PaxTypeFlag)
        ensures
            final(self)@ == (PaxView {
                fields: UstarFields {
                    core: CoreFields { flag: pax_flag_byte(v), ..old(self)@.fields.core },
                    ..old(self)@.fields
                },
                typeflag: v,
                ..old(self)@
            }),
    {
        self.typeflag = v;
    }

    /// The flag byte of the fields is the byte of the type flag.
    pub proof fn lemma_flag_byte(&self)
        ensures
            self@.fields.core.flag == pax_flag_byte(self@.typeflag),
    {
    }
}

} // verus!
