use vstd::prelude::*;
use vstd::utf8::*;
use crate::error::HeaderError;

verus! {

// ---------------------------------------------------------------------
// Text fields
// ---------------------------------------------------------------------

/// Position of the first NUL byte of `s` at or after `from`, or the length of
/// `s` when there is none.
pub open spec fn nul_index(s: Seq<u8>, from: int) -> int
    decreases s.len() - from,
{
    if from >= s.len() {
        s.len() as int
    } else if from >= 0 && s[from] == 0 {
        from
    } else {
        nul_index(s, from + 1)
    }
}

/// The bytes of a text field: everything before the first NUL byte that
/// stands at or after position `min`.
pub open spec fn field_text(s: Seq<u8>, min: int) -> Seq<u8> {
    s.take(nul_index(s, min))
}

/// What reading a text field gives: its characters, when the bytes before the
/// terminator are UTF-8.
pub open spec fn text_parse(s: Seq<u8>, min: int) -> Result<Seq<char>, HeaderError> {
    if valid_utf8(field_text(s, min)) {
        Ok(decode_utf8(field_text(s, min)))
    } else {
        Err(HeaderError::BadEncoding)
    }
}

/// `n` zero bytes.
pub open spec fn zeros(n: int) -> Seq<u8> {
    Seq::new(n as nat, |i: int| 0u8)
}

/// A text field of `width` bytes holding `bytes`: cut to the width, or
/// filled up with NUL bytes.
pub open spec fn text_field(bytes: Seq<u8>, width: int) -> Seq<u8> {
    if bytes.len() >= width {
        bytes.take(width)
    } else {
        bytes + zeros(width - bytes.len())
    }
}

/// `nul_index` lies between its start and the length of the sequence.
pub proof fn lemma_nul_index_bounds(s: Seq<u8>, from: int)
    requires
        0 <= from,
    ensures
        from <= nul_index(s, from) || nul_index(s, from) == s.len(),
        nul_index(s, from) <= s.len(),
        from <= s.len() ==> from <= nul_index(s, from),
    decreases s.len() - from,
{
    if from < s.len() && s[from] != 0 {
        lemma_nul_index_bounds(s, from + 1);
    }
}

/// `nul_index` is the only position at or after `from` that holds the first
/// NUL byte.
pub proof fn lemma_nul_index_is(s: Seq<u8>, from: int, n: int)
    requires
        0 <= from <= n <= s.len(),
        forall|i: int| from <= i < n ==> s[i] != 0,
        n < s.len() ==> s[n] == 0,
    ensures
        nul_index(s, from) == n,
    decreases n - from,
{
    if from < n {
        lemma_nul_index_is(s, from + 1, n);
    }
}

/// Turns bytes into a `String` with `String::from_utf8`: the call succeeds
/// exactly on valid UTF-8, and the string then holds the decoded characters.
#[verifier::external_body]
pub(crate) fn string_from_utf8(bytes: Vec<u8>) -> (r: Option<String>)
    ensures
        r.is_some() == valid_utf8(bytes@),
        r matches Some(s) ==> s@ == decode_utf8(bytes@),
{
    String::from_utf8(bytes).ok()
}

/// Copies `src[from..to]` into a new vector.
pub fn copy_range(src: &[u8], from: usize, to: usize) -> (out: Vec<u8>)
    requires
        from <= to <= src@.len(),
    ensures
        out@ == src@.subrange(from as int, to as int),
{
    let mut out: Vec<u8> = Vec::new();
    let mut i: usize = from;
    while i < to
        invariant
            from <= i <= to <= src@.len(),
            out@ == src@.subrange(from as int, i as int),
        decreases to - i,
    {
        out.push(src[i]);
        i += 1;
        assert(out@ =~= src@.subrange(from as int, i as int));
    }
    out
}

/// Appends `bytes` to `out`.
pub fn append_bytes(out: &mut Vec<u8>, bytes: &[u8])
    ensures
        final(out)@ == old(out)@ + bytes@,
{
    let mut i: usize = 0;
    while i < bytes.len()
        invariant
            i <= bytes@.len(),
            out@ == old(out)@ + bytes@.take(i as int),
        decreases bytes@.len() - i,
    {
        out.push(bytes[i]);
        i += 1;
        assert(out@ =~= old(out)@ + bytes@.take(i as int));
    }
    assert(bytes@.take(bytes@.len() as int) =~= bytes@);
}

/// Appends `n` zero bytes to `out`.
pub fn append_zeros(out: &mut Vec<u8>, n: usize)
    ensures
        final(out)@ == old(out)@ + zeros(n as int),
{
    let mut i: usize = 0;
    while i < n
        invariant
            i <= n,
            out@ == old(out)@ + zeros(i as int),
        decreases n - i,
    {
        out.push(0u8);
        i += 1;
        assert(out@ =~= old(out)@ + zeros(i as int));
    }
}

/// Reads a text field whose terminator is looked for from position
/// `min_size` on: NUL bytes before it belong to the text.
pub fn get_str_with_min_size(buf: &[u8], min_size: usize) -> (r: Result<String, HeaderError>)
    ensures
        match r {
            Ok(s) => text_parse(buf@, min_size as int) == Ok::<Seq<char>, HeaderError>(s@),
            Err(e) => text_parse(buf@, min_size as int) == Err::<Seq<char>, HeaderError>(e),
        },
{
    let len: usize = buf.len();
    let mut nul: usize = if min_size < len { min_size } else { len };
    while nul < len && buf[nul] != 0
        invariant
            len == buf@.len(),
            nul <= len,
            min_size < len ==> min_size <= nul,
            min_size < len ==> nul_index(buf@, min_size as int) == nul_index(buf@, nul as int),
            min_size >= len ==> nul == len,
        decreases len - nul,
    {
        nul += 1;
    }
    let text = copy_range(buf, 0, nul);
    assert(text@ == field_text(buf@, min_size as int));
    match string_from_utf8(text) {
        Some(s) => Ok(s),
        None => Err(HeaderError::BadEncoding),
    }
}

/// Reads a NUL-terminated text field: the text up to the first NUL byte, or
/// the whole buffer when it holds none.
pub fn get_str(buf: &[u8]) -> (r: Result<String, HeaderError>)
    ensures
        match r {
            Ok(s) => text_parse(buf@, 0) == Ok::<Seq<char>, HeaderError>(s@),
            Err(e) => text_parse(buf@, 0) == Err::<Seq<char>, HeaderError>(e),
        },
{
    get_str_with_min_size(buf, 0)
}

/// Writes `value` into the field `dst`: as many of its bytes as fit, and NUL
/// bytes in what is left.
pub fn put_str(dst: &mut [u8], value: &str)
    ensures
        final(dst)@ == text_field(encode_utf8(value@), old(dst)@.len() as int),
{
    let bytes = value.as_bytes();
    let width: usize = dst.len();
    let mut i: usize = 0;
    while i < width
        invariant
            i <= width,
            width == dst@.len(),
            width == old(dst)@.len(),
            bytes@ == encode_utf8(value@),
            dst@.take(i as int) == text_field(bytes@, width as int).take(i as int),
        decreases width - i,
    {
        let b: u8 = if i < bytes.len() { bytes[i] } else { 0u8 };
        dst[i] = b;
        i += 1;
        assert(dst@.take(i as int) =~= text_field(bytes@, width as int).take(i as int));
    }
    assert(dst@ =~= dst@.take(width as int));
    assert(text_field(bytes@, width as int) =~= text_field(bytes@, width as int).take(width as int));
}

/// A text that fits its field and holds no NUL byte is read back as written.
pub proof fn lemma_text_round_trip(chars: Seq<char>, width: int)
    requires
        encode_utf8(chars).len() <= width,
        forall|i: int| 0 <= i < encode_utf8(chars).len() ==> encode_utf8(chars)[i] != 0,
    ensures
        text_parse(text_field(encode_utf8(chars), width), 0) == Ok::<Seq<char>, HeaderError>(chars),
{
    broadcast use vstd::utf8::group_utf8_lib;

    let bytes = encode_utf8(chars);
    let field = text_field(bytes, width);
    lemma_nul_index_is(field, 0, bytes.len() as int);
    assert(field.take(bytes.len() as int) =~= bytes);
}

/// A text that fills its field exactly is read back as written when the
/// terminator is looked for from the end of the field on.
pub proof fn lemma_text_round_trip_full(chars: Seq<char>, width: int)
    requires
        encode_utf8(chars).len() == width,
    ensures
        text_parse(text_field(encode_utf8(chars), width), width) == Ok::<Seq<char>, HeaderError>(
            chars,
        ),
{
    broadcast use vstd::utf8::group_utf8_lib;

    let bytes = encode_utf8(chars);
    let field = text_field(bytes, width);
    assert(field =~= bytes);
    assert(field.take(width) =~= bytes);
}


// ---------------------------------------------------------------------
// Numeric fields
// ---------------------------------------------------------------------

/// The bytes that surround a number in its field: NUL and the ASCII space.
pub open spec fn is_pad(b: u8) -> bool {
    b == 0 || b == 0x20
}

/// Position of the first byte at or after `from` that is no padding, or the
/// length of `s`.
pub open spec fn content_start(s: Seq<u8>, from: int) -> int
    decreases s.len() - from,
{
    if from >= s.len() {
        s.len() as int
    } else if from >= 0 && !is_pad(s[from]) {
        from
    } else {
        content_start(s, from + 1)
    }
}

/// One past the last byte before `upto` that is no padding, or 0.
pub open spec fn content_end(s: Seq<u8>, upto: int) -> int
    decreases upto,
{
    if upto <= 0 {
        0
    } else if upto <= s.len() && !is_pad(s[upto - 1]) {
        upto
    } else {
        content_end(s, upto - 1)
    }
}

/// A field without its leading and trailing padding.
pub open spec fn trimmed(s: Seq<u8>) -> Seq<u8> {
    let from = content_start(s, 0);
    let to = content_end(s, s.len() as int);
    if from < to {
        s.subrange(from, to)
    } else {
        Seq::<u8>::empty()
    }
}

/// True for the ASCII digits of the given radix, which is at most 10.
pub open spec fn is_digit(b: u8, radix: int) -> bool {
    0x30 <= b && b < 0x30 + radix
}

/// True when every byte is a digit of the radix.
pub open spec fn all_digits(s: Seq<u8>, radix: int) -> bool {
    forall|i: int| 0 <= i < s.len() ==> is_digit(#[trigger] s[i], radix)
}

/// The number that a sequence of digits writes.
pub open spec fn digits_value(s: Seq<u8>, radix: int) -> int
    decreases s.len(),
{
    if s.len() == 0 {
        0
    } else {
        digits_value(s.drop_last(), radix) * radix + (s.last() - 0x30)
    }
}

/// What reading an unsigned number gives: one optional `+`, then at least one
/// digit and nothing else, and a value that fits in 64 bits.
pub open spec fn number_parse(s: Seq<u8>, radix: int) -> Option<u64> {
    let digits = if s.len() > 0 && s[0] == 0x2b {
        s.skip(1)
    } else {
        s
    };
    if digits.len() > 0 && all_digits(digits, radix) && digits_value(digits, radix) <= u64::MAX {
        Some(digits_value(digits, radix) as u64)
    } else {
        None
    }
}

/// What reading an octal field gives: 0 for a field of padding only, else the
/// number that its trimmed text writes in base 8.
pub open spec fn octal_parse(field: Seq<u8>) -> Result<u64, HeaderError> {
    let text = trimmed(field);
    if !valid_utf8(text) {
        Err(HeaderError::BadEncoding)
    } else if text.len() == 0 {
        Ok(0)
    } else {
        match number_parse(text, 8) {
            Some(v) => Ok(v),
            None => Err(HeaderError::BadOctal),
        }
    }
}

/// The shortest octal writing of `v`.
pub open spec fn octal_digits(v: nat) -> Seq<u8>
    decreases v,
{
    if v < 8 {
        seq![(0x30 + v) as u8]
    } else {
        octal_digits(v / 8).push((0x30 + v % 8) as u8)
    }
}

/// `n` ASCII zero digits.
pub open spec fn zero_digits(n: int) -> Seq<u8> {
    Seq::new(n as nat, |i: int| 0x30u8)
}

/// The octal writing of `v`, with zeros in front up to `width` digits.
pub open spec fn octal_text(v: nat, width: int) -> Seq<u8> {
    let digits = octal_digits(v);
    if digits.len() >= width {
        digits
    } else {
        zero_digits(width - digits.len()) + digits
    }
}

/// An octal field of `width` bytes: the last `width - 1` digits of the
/// zero-padded writing of `v`, then a NUL byte. A number with more digits
/// than that loses its most significant ones.
pub open spec fn octal_field(v: nat, width: int) -> Seq<u8> {
    let text = octal_text(v, width - 1);
    text.skip(text.len() - (width - 1)).push(0u8)
}

/// 8 to the power of `n`.
pub open spec fn pow8(n: nat) -> nat
    decreases n,
{
    if n == 0 {
        1
    } else {
        8 * pow8((n - 1) as nat)
    }
}

/// The unsigned integers that a numeric field can hold.
pub trait OctalInt: Sized + Copy {
    /// The number as a natural number.
    spec fn value(self) -> nat;

    /// The largest number of the type.
    spec fn max_value() -> nat;

    /// Narrows a 64-bit number, where it fits.
    fn from_u64(v: u64) -> (r: Option<Self>)
        ensures
            r.is_some() == (v <= Self::max_value()),
            r matches Some(x) ==> x.value() == v;

    /// Widens to 64 bits.
    fn to_u64(self) -> (v: u64)
        ensures
            v == self.value(),
            v <= Self::max_value();
}

impl OctalInt for u64 {
    open spec fn value(self) -> nat {
        self as nat
    }

    open spec fn max_value() -> nat {
        u64::MAX as nat
    }

    fn from_u64(v: u64) -> (r: Option<Self>) {
        Some(v)
    }

    fn to_u64(self) -> (v: u64) {
        self
    }
}

impl OctalInt for u32 {
    open spec fn value(self) -> nat {
        self as nat
    }

    open spec fn max_value() -> nat {
        u32::MAX as nat
    }

    fn from_u64(v: u64) -> (r: Option<Self>) {
        if v <= 0xffff_ffff {
            Some(v as u32)
        } else {
            None
        }
    }

    fn to_u64(self) -> (v: u64) {
        self as u64
    }
}

/// What reading an octal field into an integer type gives: the number of
/// `octal_parse`, refused as no octal number where the type cannot hold it.
pub open spec fn octal_parse_in(field: Seq<u8>, max: nat) -> Result<u64, HeaderError> {
    match octal_parse(field) {
        Ok(v) => if v <= max {
            Ok(v)
        } else {
            Err(HeaderError::BadOctal)
        },
        Err(e) => Err(e),
    }
}

/// Reads an unsigned number with `num_traits::Num::from_str_radix` for `u64`,
/// which hands the text to the integer parser of the standard library: one
/// optional `+`, then digits only; an empty text, any other character and a
/// value beyond 64 bits are errors.
#[verifier::external_body]
fn from_str_radix(text: &str, radix: u32) -> (r: Option<u64>)
    requires
        2 <= radix <= 10,
    ensures
        r == number_parse(encode_utf8(text@), radix as int),
{
    <u64 as num_traits::Num>::from_str_radix(text, radix).ok()
}

/// Reads a number written in the given radix, at most 10.
pub fn parse_number(text: &str, radix: u32) -> (r: Option<u64>)
    requires
        2 <= radix <= 10,
    ensures
        r == number_parse(encode_utf8(text@), radix as int),
{
    from_str_radix(text, radix)
}

/// Reads an octal field: padding of NUL bytes and spaces around the number is
/// dropped, an empty field is 0.
pub fn parse_octal<T: OctalInt>(buf: &[u8]) -> (r: Result<T, HeaderError>)
    ensures
        match r {
            Ok(x) => octal_parse_in(buf@, T::max_value()) == Ok::<u64, HeaderError>(
                x.value() as u64,
            ),
            Err(e) => octal_parse_in(buf@, T::max_value()) == Err::<u64, HeaderError>(e),
        },
{
    broadcast use vstd::utf8::group_utf8_lib;

    let len: usize = buf.len();
    let mut from: usize = 0;
    while from < len && (buf[from] == 0 || buf[from] == 0x20)
        invariant
            len == buf@.len(),
            from <= len,
            content_start(buf@, 0) == content_start(buf@, from as int),
        decreases len - from,
    {
        from += 1;
    }
    let mut to: usize = len;
    while to > 0 && (buf[to - 1] == 0 || buf[to - 1] == 0x20)
        invariant
            len == buf@.len(),
            to <= len,
            content_end(buf@, len as int) == content_end(buf@, to as int),
        decreases to,
    {
        to -= 1;
    }
    let text: Vec<u8> = if from < to {
        copy_range(buf, from, to)
    } else {
        Vec::new()
    };
    assert(text@ =~= trimmed(buf@));
    let text_len: usize = text.len();
    match string_from_utf8(text) {
        None => Err(HeaderError::BadEncoding),
        Some(s) => {
            if text_len == 0 {
                match T::from_u64(0) {
                    Some(x) => Ok(x),
                    None => Err(HeaderError::BadOctal),
                }
            } else {
                match from_str_radix(s.as_str(), 8) {
                    Some(v) => match T::from_u64(v) {
                        Some(x) => Ok(x),
                        None => Err(HeaderError::BadOctal),
                    },
                    None => Err(HeaderError::BadOctal),
                }
            }
        },
    }
}

/// The shortest octal writing of `v`, most significant digit first.
fn octal_digits_of(v: u64) -> (digits: Vec<u8>)
    ensures
        digits@ == octal_digits(v as nat),
    decreases v,
{
    if v < 8 {
        let mut digits: Vec<u8> = Vec::new();
        digits.push(0x30u8 + (v as u8));
        assert(digits@ =~= octal_digits(v as nat));
        digits
    } else {
        let mut digits = octal_digits_of(v / 8);
        digits.push(0x30u8 + ((v % 8) as u8));
        digits
    }
}

/// Writes `value` into the field `dst` as zero-padded octal digits with a NUL
/// byte at the end. Of a number with more digits than the field has room for,
/// the trailing ones are written: the most significant digits are cut off.
pub fn put_octal<T: OctalInt>(dst: &mut [u8], value: T)
    requires
        old(dst)@.len() >= 1,
    ensures
        final(dst)@ == octal_field(value.value(), old(dst)@.len() as int),
{
    let digits = octal_digits_of(value.to_u64());
    let width: usize = dst.len() - 1;
    let count: usize = digits.len();
    let pad: usize = if count >= width { 0 } else { width - count };
    let cut: usize = if count >= width { count - width } else { 0 };
    let ghost text = octal_text(value.value(), width as int);
    assert(text.len() == width + cut);
    let ghost kept = text.skip(cut as int);
    let mut i: usize = 0;
    while i < width
        invariant
            i <= width,
            width + 1 == dst@.len(),
            count == digits@.len(),
            digits@ == octal_digits(value.value()),
            pad == (if count >= width { 0 } else { width - count }),
            cut == (if count >= width { count - width } else { 0 }),
            text == octal_text(value.value(), width as int),
            text.len() == width + cut,
            kept == text.skip(cut as int),
            dst@.take(i as int) == kept.take(i as int),
        decreases width - i,
    {
        let b: u8 = if i < pad { 0x30u8 } else { digits[i - pad + cut] };
        dst[i] = b;
        i += 1;
        assert(dst@.take(i as int) =~= kept.take(i as int));
    }
    assert(kept.take(width as int) =~= kept);
    let ghost filled = dst@;
    dst[width] = 0u8;
    assert(dst@.take(width as int) =~= filled.take(width as int));
    assert(dst@ =~= kept.push(0u8));
}


/// Bytes of the ASCII range are valid UTF-8.
pub proof fn lemma_ascii_is_utf8(s: Seq<u8>)
    requires
        forall|i: int| 0 <= i < s.len() ==> s[i] <= 0x7f,
    ensures
        valid_utf8(s),
{
    assert(s.subrange(0, 0) =~= Seq::<u8>::empty());
    assert(partial_valid_utf8(s, 0));
    assert forall|i: int| 0 <= 0 <= i < s.len() <= s.len() implies #[trigger] is_leading_byte_width_1(
        s[i],
    ) by {}
    partial_valid_utf8_extend_ascii_block(s, 0, s.len() as int);
    assert(s.subrange(0, s.len() as int) =~= s);
}

/// The shortest octal writing of a number holds octal digits only and
/// writes that number.
pub proof fn lemma_octal_digits(v: nat)
    ensures
        octal_digits(v).len() >= 1,
        all_digits(octal_digits(v), 8),
        digits_value(octal_digits(v), 8) == v,
    decreases v,
{
    if v < 8 {
        let d = octal_digits(v);
        assert(d.drop_last() =~= Seq::<u8>::empty());
        assert(digits_value(d.drop_last(), 8) == 0);
    } else {
        lemma_octal_digits(v / 8);
        let d = octal_digits(v);
        assert(d.drop_last() =~= octal_digits(v / 8));
        assert(d.last() == (0x30 + v % 8) as u8);
    }
}

/// A number below the `k`-th power of 8 has at most `k` octal digits.
pub proof fn lemma_octal_digits_len(v: nat, k: nat)
    requires
        k >= 1,
        v < pow8(k),
    ensures
        octal_digits(v).len() <= k,
    decreases v,
{
    if v >= 8 {
        reveal_with_fuel(pow8, 2);
        assert(k >= 2);
        lemma_octal_digits_len(v / 8, (k - 1) as nat);
    }
}

/// Zeros in front of a digit sequence do not change the number it writes.
pub proof fn lemma_zero_padding(n: int, digits: Seq<u8>)
    requires
        n >= 0,
        all_digits(digits, 8),
    ensures
        all_digits(zero_digits(n) + digits, 8),
        digits_value(zero_digits(n) + digits, 8) == digits_value(digits, 8),
    decreases digits.len(), n,
{
    let whole = zero_digits(n) + digits;
    if digits.len() == 0 {
        assert(whole =~= zero_digits(n));
        if n > 0 {
            assert(whole.drop_last() =~= zero_digits(n - 1) + digits);
            lemma_zero_padding(n - 1, digits);
        }
    } else {
        assert(whole.drop_last() =~= zero_digits(n) + digits.drop_last());
        assert(whole.last() == digits.last());
        lemma_zero_padding(n, digits.drop_last());
    }
}

/// The zero-padded writing of a number that has room is made of exactly
/// `width` octal digits, which write the number.
pub proof fn lemma_octal_text(v: nat, width: int)
    requires
        width >= 1,
        v < pow8(width as nat),
    ensures
        octal_text(v, width).len() == width,
        all_digits(octal_text(v, width), 8),
        digits_value(octal_text(v, width), 8) == v,
{
    lemma_octal_digits(v);
    lemma_octal_digits_len(v, width as nat);
    lemma_zero_padding(width - octal_digits(v).len(), octal_digits(v));
    if octal_digits(v).len() == width {
        assert(zero_digits(0) + octal_digits(v) =~= octal_digits(v));
    }
}

/// A number that has room in its field is read back as written.
pub proof fn lemma_octal_round_trip(v: nat, width: int)
    requires
        width >= 1,
        v < pow8((width - 1) as nat),
        v <= u64::MAX,
    ensures
        octal_field(v, width).len() == width,
        octal_parse(octal_field(v, width)) == Ok::<u64, HeaderError>(v as u64),
{
    let field = octal_field(v, width);
    if width == 1 {
        reveal_with_fuel(pow8, 1);
        assert(field =~= seq![0u8]);
        reveal_with_fuel(content_start, 2);
        assert(content_start(field, 0) == 1);
        reveal_with_fuel(content_end, 2);
        assert(content_end(field, 1) == 0);
        assert(trimmed(field) =~= Seq::<u8>::empty());
    } else {
        let n = width - 1;
        lemma_octal_text(v, n);
        let text = octal_text(v, n);
        assert(text.skip(0) =~= text);
        assert(field =~= text.push(0u8));
        assert(is_digit(text[0], 8));
        assert(is_digit(text[n - 1], 8));
        assert(field[0] == text[0]);
        assert(field[n - 1] == text[n - 1]);
        assert(content_start(field, 0) == 0);
        reveal_with_fuel(content_end, 2);
        assert(content_end(field, width) == n);
        assert(trimmed(field) =~= text);
        assert forall|i: int| 0 <= i < text.len() implies text[i] <= 0x7f by {
            assert(is_digit(text[i], 8));
        }
        lemma_ascii_is_utf8(text);
    }
}

// ---------------------------------------------------------------------
// Checksum
// ---------------------------------------------------------------------

/// The sum of the bytes.
pub open spec fn byte_sum(s: Seq<u8>) -> nat
    decreases s.len(),
{
    if s.len() == 0 {
        0
    } else {
        byte_sum(s.drop_last()) + s.last() as nat
    }
}

/// `n` ASCII spaces.
pub open spec fn spaces(n: int) -> Seq<u8> {
    Seq::new(n as nat, |i: int| 0x20u8)
}

/// A header block with its checksum field filled with spaces.
pub open spec fn blanked(block: Seq<u8>) -> Seq<u8> {
    block.take(148) + spaces(8) + block.skip(156)
}

/// The checksum of a header block: the sum of its bytes, modulo 2^32, with
/// the checksum field taken as spaces.
pub open spec fn checksum_of(block: Seq<u8>) -> u32 {
    (byte_sum(blanked(block)) % 0x1_0000_0000) as u32
}

/// The checksum field: six octal digits, a NUL byte and a space.
pub open spec fn checksum_field(sum: u32) -> Seq<u8> {
    octal_field(sum as nat, 7).push(0x20u8)
}

/// A header block with its checksum written into the checksum field.
pub open spec fn sealed(block: Seq<u8>) -> Seq<u8> {
    block.take(148) + checksum_field(checksum_of(block)) + block.skip(156)
}

/// The sum of `n` bytes is at most `255 * n`.
pub proof fn lemma_byte_sum_bound(s: Seq<u8>)
    ensures
        byte_sum(s) <= 255 * s.len(),
    decreases s.len(),
{
    if s.len() > 0 {
        lemma_byte_sum_bound(s.drop_last());
    }
}

/// The checksum of a block of 512 bytes is the plain sum of its bytes, and
/// has no more than six octal digits.
pub proof fn lemma_checksum_small(block: Seq<u8>)
    requires
        block.len() == 512,
    ensures
        checksum_of(block) == byte_sum(blanked(block)),
        checksum_of(block) < pow8(6),
{
    lemma_byte_sum_bound(blanked(block));
    reveal_with_fuel(pow8, 7);
}

/// Computes the checksum of a header block.
pub fn checksum(block: &[u8]) -> (sum: u32)
    requires
        block@.len() == 512,
    ensures
        sum == checksum_of(block@),
{
    let ghost blank = blanked(block@);
    let mut sum: u32 = 0;
    let mut i: usize = 0;
    while i < 512
        invariant
            i <= 512,
            block@.len() == 512,
            blank == blanked(block@),
            sum == byte_sum(blank.take(i as int)),
            sum <= 255 * i,
        decreases 512 - i,
    {
        let b: u8 = if 148 <= i && i < 156 { 0x20u8 } else { block[i] };
        assert(b == blank[i as int]);
        assert(blank.take(i + 1).drop_last() =~= blank.take(i as int));
        sum = sum.wrapping_add(b as u32);
        i += 1;
    }
    assert(blank.take(512) =~= blank);
    proof {
        lemma_checksum_small(block@);
    }
    sum
}

/// Writes the checksum of a header block into its checksum field, and
/// returns it.
pub fn seal(block: &mut Vec<u8>) -> (sum: u32)
    requires
        old(block)@.len() == 512,
    ensures
        final(block)@ == sealed(old(block)@),
        sum == checksum_of(old(block)@),
{
    let sum = checksum(block.as_slice());
    let mut field: Vec<u8> = Vec::new();
    append_zeros(&mut field, 7);
    put_octal(field.as_mut_slice(), sum);
    field.push(0x20u8);
    assert(field@ == checksum_field(sum));
    let mut i: usize = 0;
    while i < 8
        invariant
            i <= 8,
            block@.len() == 512,
            field@.len() == 8,
            block@.take(148) == old(block)@.take(148),
            block@.skip(156) == old(block)@.skip(156),
            block@.subrange(148, 148 + i) == field@.take(i as int),
        decreases 8 - i,
    {
        let ghost before = block@;
        block[148 + i] = field[i];
        i += 1;
        assert(block@.take(148) =~= before.take(148));
        assert(block@.skip(156) =~= before.skip(156));
        assert(block@.subrange(148, 148 + i) =~= field@.take(i as int));
    }
    assert(field@.take(8) =~= field@);
    assert(block@ =~= block@.take(148) + block@.subrange(148, 156) + block@.skip(156));
    sum
}

/// The checksum of a block does not depend on what its checksum field holds.
pub proof fn lemma_checksum_of_sealed(block: Seq<u8>)
    requires
        block.len() == 512,
    ensures
        sealed(block).len() == 512,
        checksum_of(sealed(block)) == checksum_of(block),
        octal_parse(sealed(block).subrange(148, 156)) == Ok::<u64, HeaderError>(
            checksum_of(block) as u64,
        ),
{
    let sum = checksum_of(block);
    lemma_checksum_small(block);
    reveal_with_fuel(pow8, 7);
    lemma_octal_round_trip(sum as nat, 7);
    let field = checksum_field(sum);
    assert(field.len() == 8);
    assert(blanked(sealed(block)) =~= blanked(block));
    assert(sealed(block).subrange(148, 156) =~= field);
    lemma_trailing_pad(octal_field(sum as nat, 7), 0x20u8);
}

/// One more padding byte at the end of a field does not change the number
/// read from it.
pub proof fn lemma_trailing_pad(field: Seq<u8>, pad: u8)
    requires
        is_pad(pad),
    ensures
        octal_parse(field.push(pad)) == octal_parse(field),
{
    let longer = field.push(pad);
    assert(content_end(longer, longer.len() as int) == content_end(longer, field.len() as int));
    lemma_content_end_prefix(field, longer, field.len() as int);
    lemma_content_start_push(field, pad, 0);
    let from = content_start(field, 0);
    let to = content_end(field, field.len() as int);
    lemma_content_bounds(field);
    if from < to {
        assert(longer.subrange(from, to) =~= field.subrange(from, to));
    } else {
        lemma_content_all_pad(field);
        lemma_content_none(longer);
        lemma_content_none(field);
    }
}

/// The end of the content lies between 0 and the length, and the start too.
pub proof fn lemma_content_bounds(s: Seq<u8>)
    ensures
        0 <= content_start(s, 0) <= s.len(),
        0 <= content_end(s, s.len() as int) <= s.len(),
{
    lemma_content_start_bounds(s, 0);
    lemma_content_end_bounds(s, s.len() as int);
}

/// `content_start` lies between its start and the length, and stands on a
/// byte that is no padding.
pub proof fn lemma_content_start_bounds(s: Seq<u8>, from: int)
    requires
        0 <= from <= s.len(),
    ensures
        from <= content_start(s, from) <= s.len(),
        content_start(s, from) < s.len() ==> !is_pad(s[content_start(s, from)]),
        forall|i: int| from <= i < content_start(s, from) ==> is_pad(s[i]),
    decreases s.len() - from,
{
    if from < s.len() && is_pad(s[from]) {
        lemma_content_start_bounds(s, from + 1);
    }
}

/// `content_end` lies between 0 and its bound, and stands behind a byte that
/// is no padding.
pub proof fn lemma_content_end_bounds(s: Seq<u8>, upto: int)
    requires
        0 <= upto <= s.len(),
    ensures
        0 <= content_end(s, upto) <= upto,
        content_end(s, upto) > 0 ==> !is_pad(s[content_end(s, upto) - 1]),
        forall|i: int| content_end(s, upto) <= i < upto ==> is_pad(s[i]),
    decreases upto,
{
    if upto > 0 && is_pad(s[upto - 1]) {
        lemma_content_end_bounds(s, upto - 1);
    }
}

/// `content_end` below `upto` reads the bytes before `upto` only.
pub proof fn lemma_content_end_prefix(a: Seq<u8>, b: Seq<u8>, upto: int)
    requires
        0 <= upto <= a.len(),
        upto <= b.len(),
        forall|i: int| 0 <= i < upto ==> a[i] == b[i],
    ensures
        content_end(a, upto) == content_end(b, upto),
    decreases upto,
{
    if upto > 0 && is_pad(a[upto - 1]) {
        lemma_content_end_prefix(a, b, upto - 1);
    }
}

/// A padding byte pushed at the end moves the start of the content only
/// when there is no content.
pub proof fn lemma_content_start_push(s: Seq<u8>, pad: u8, from: int)
    requires
        is_pad(pad),
        0 <= from <= s.len(),
    ensures
        content_start(s, from) < s.len() ==> content_start(s.push(pad), from) == content_start(
            s,
            from,
        ),
        content_start(s, from) == s.len() ==> content_start(s.push(pad), from) == s.len() + 1,
    decreases s.len() - from,
{
    let longer = s.push(pad);
    if from < s.len() {
        assert(longer[from] == s[from]);
        if is_pad(s[from]) {
            lemma_content_start_push(s, pad, from + 1);
        }
    } else {
        reveal_with_fuel(content_start, 2);
    }
}

/// Where the content ends before it starts, the field is padding only.
pub proof fn lemma_content_all_pad(s: Seq<u8>)
    requires
        content_start(s, 0) >= content_end(s, s.len() as int),
    ensures
        content_start(s, 0) == s.len(),
{
    lemma_content_start_bounds(s, 0);
    lemma_content_end_bounds(s, s.len() as int);
}

/// A field of padding only has no content.
pub proof fn lemma_content_none(s: Seq<u8>)
    requires
        content_start(s, 0) == s.len(),
    ensures
        trimmed(s) == Seq::<u8>::empty(),
{
    lemma_content_start_bounds(s, 0);
    lemma_content_end_bounds(s, s.len() as int);
}


/// An octal field is as long as its width.
pub proof fn lemma_octal_field_len(v: nat, width: int)
    requires
        width >= 1,
    ensures
        octal_field(v, width).len() == width,
{
}

/// True when a text fits a field of `width` bytes and is read back from it:
/// its bytes are no more than the width and hold no NUL.
pub open spec fn text_fits(chars: Seq<char>, width: int) -> bool {
    &&& encode_utf8(chars).len() <= width
    &&& forall|i: int| 0 <= i < encode_utf8(chars).len() ==> encode_utf8(chars)[i] != 0
}

/// True when a number fits an octal field of `width` bytes: it has no more
/// than `width - 1` octal digits.
pub open spec fn octal_fits(v: nat, width: int) -> bool {
    width >= 1 && v < pow8((width - 1) as nat)
}

/// The bounds of the two widths of octal field that headers use.
pub proof fn lemma_octal_limits()
    ensures
        pow8(7) == 0o10000000,
        pow8(11) == 0o100000000000,
{
    reveal_with_fuel(pow8, 12);
}


/// A sequence without the NUL bytes at its end.
pub open spec fn strip_nuls(s: Seq<u8>) -> Seq<u8>
    decreases s.len(),
{
    if s.len() > 0 && s.last() == 0 {
        strip_nuls(s.drop_last())
    } else {
        s
    }
}

/// What reading a text that is filled up with NUL bytes gives: the
/// characters before the NUL bytes at the end, when they are UTF-8.
pub open spec fn padded_text_parse(s: Seq<u8>) -> Result<Seq<char>, HeaderError> {
    if valid_utf8(strip_nuls(s)) {
        Ok(decode_utf8(strip_nuls(s)))
    } else {
        Err(HeaderError::BadEncoding)
    }
}

/// Reads a text that is filled up with NUL bytes at its end.
pub fn get_padded_text(bytes: &[u8]) -> (r: Result<String, HeaderError>)
    ensures
        match r {
            Ok(s) => padded_text_parse(bytes@) == Ok::<Seq<char>, HeaderError>(s@),
            Err(e) => padded_text_parse(bytes@) == Err::<Seq<char>, HeaderError>(e),
        },
{
    let mut end: usize = bytes.len();
    assert(bytes@.take(bytes@.len() as int) =~= bytes@);
    while end > 0 && bytes[end - 1] == 0
        invariant
            end <= bytes@.len(),
            strip_nuls(bytes@) == strip_nuls(bytes@.take(end as int)),
        decreases end,
    {
        assert(bytes@.take(end as int).drop_last() =~= bytes@.take(end - 1));
        end -= 1;
    }
    let text = copy_range(bytes, 0, end);
    assert(text@ =~= bytes@.take(end as int));
    match string_from_utf8(text) {
        Some(s) => Ok(s),
        None => Err(HeaderError::BadEncoding),
    }
}

/// Tells whether every byte is zero.
pub fn is_all_zero(bytes: &[u8]) -> (b: bool)
    ensures
        b == (bytes@ == zeros(bytes@.len() as int)),
{
    let mut i: usize = 0;
    while i < bytes.len()
        invariant
            i <= bytes@.len(),
            forall|j: int| 0 <= j < i ==> bytes@[j] == 0,
        decreases bytes@.len() - i,
    {
        if bytes[i] != 0 {
            assert(zeros(bytes@.len() as int)[i as int] == 0);
            return false;
        }
        i += 1;
    }
    assert(bytes@ =~= zeros(bytes@.len() as int));
    true
}


// ---------------------------------------------------------------------
// Decimal numbers
// ---------------------------------------------------------------------

/// The shortest decimal writing of `v`.
pub open spec fn decimal_digits(v: nat) -> Seq<u8>
    decreases v,
{
    if v < 10 {
        seq![(0x30 + v) as u8]
    } else {
        decimal_digits(v / 10).push((0x30 + v % 10) as u8)
    }
}

/// The number of decimal digits of `v`.
pub open spec fn decimal_len(v: nat) -> nat
    decreases v,
{
    if v < 10 {
        1
    } else {
        1 + decimal_len(v / 10)
    }
}

/// The shortest decimal writing of a number holds decimal digits only,
/// writes that number, and has `decimal_len` digits.
pub proof fn lemma_decimal_digits(v: nat)
    ensures
        decimal_digits(v).len() == decimal_len(v),
        all_digits(decimal_digits(v), 10),
        digits_value(decimal_digits(v), 10) == v,
    decreases v,
{
    if v < 10 {
        let d = decimal_digits(v);
        assert(d.drop_last() =~= Seq::<u8>::empty());
        assert(digits_value(d.drop_last(), 10) == 0);
    } else {
        lemma_decimal_digits(v / 10);
        let d = decimal_digits(v);
        assert(d.drop_last() =~= decimal_digits(v / 10));
        assert(d.last() == (0x30 + v % 10) as u8);
    }
}

/// The shortest decimal writing of `v`, most significant digit first.
pub fn decimal_digits_of(v: u64) -> (digits: Vec<u8>)
    ensures
        digits@ == decimal_digits(v as nat),
    decreases v,
{
    if v < 10 {
        let mut digits: Vec<u8> = Vec::new();
        digits.push(0x30u8 + (v as u8));
        assert(digits@ =~= decimal_digits(v as nat));
        digits
    } else {
        let mut digits = decimal_digits_of(v / 10);
        digits.push(0x30u8 + ((v % 10) as u8));
        digits
    }
}

/// The characters of the decimal writing of `v`.
pub open spec fn decimal_chars(v: nat) -> Seq<char> {
    decode_utf8(decimal_digits(v))
}

/// The decimal writing of `v` as a text.
pub fn decimal_text(v: u64) -> (text: String)
    ensures
        text@ == decimal_chars(v as nat),
        encode_utf8(text@) == decimal_digits(v as nat),
{
    broadcast use vstd::utf8::group_utf8_lib;

    let digits = decimal_digits_of(v);
    proof {
        lemma_decimal_digits(v as nat);
        assert forall|i: int| 0 <= i < digits@.len() implies digits@[i] <= 0x7f by {
            assert(is_digit(digits@[i], 10));
        }
        lemma_ascii_is_utf8(digits@);
    }
    match string_from_utf8(digits) {
        Some(text) => text,
        None => String::new(),
    }
}

/// The number of decimal digits of `v`.
pub fn decimal_len_of(v: u64) -> (n: u64)
    ensures
        n == decimal_len(v as nat),
        1 <= n <= 20,
{
    let mut n: u64 = 1;
    let mut rest: u64 = v;
    assert(pow10(0) == 1);
    assert(rest * pow10(0) == rest);
    while rest >= 10
        invariant
            1 <= n,
            n + decimal_len(rest as nat) == 1 + decimal_len(v as nat),
            rest <= v,
            n <= 20,
            rest * pow10((n - 1) as nat) <= v,
        decreases rest,
    {
        proof {
            lemma_pow10_step(rest as nat, (n - 1) as nat, v as nat);
        }
        rest = rest / 10;
        n += 1;
    }
    n
}

/// 10 to the power of `n`.
pub open spec fn pow10(n: nat) -> nat
    decreases n,
{
    if n == 0 {
        1
    } else {
        10 * pow10((n - 1) as nat)
    }
}

/// One more division by 10 in the count of digits of a 64-bit number.
proof fn lemma_pow10_step(rest: nat, k: nat, v: nat)
    requires
        rest >= 10,
        rest * pow10(k) <= v,
        v <= u64::MAX,
    ensures
        (rest / 10) * pow10(k + 1) <= v,
        k + 2 <= 20,
{
    assert((rest / 10) * pow10(k + 1) == (rest / 10) * 10 * pow10(k)) by (nonlinear_arith)
        requires
            pow10(k + 1) == 10 * pow10(k),
    ;
    assert((rest / 10) * 10 * pow10(k) <= rest * pow10(k)) by (nonlinear_arith)
        requires
            (rest / 10) * 10 <= rest,
            pow10(k) >= 0,
    ;
    if k >= 19 {
        lemma_pow10_grows(19, k);
        reveal_with_fuel(pow10, 20);
        assert(pow10(19) == 10000000000000000000);
        assert(rest * pow10(k) >= 10 * pow10(19)) by (nonlinear_arith)
            requires
                rest >= 10,
                pow10(k) >= pow10(19),
        ;
    }
}

/// Powers of 10 grow with the exponent.
pub proof fn lemma_pow10_grows(a: nat, b: nat)
    requires
        a <= b,
    ensures
        pow10(a) <= pow10(b),
        pow10(a) >= 1,
    decreases b,
{
    if a < b {
        lemma_pow10_grows(a, (b - 1) as nat);
    } else if a > 0 {
        lemma_pow10_grows((a - 1) as nat, (a - 1) as nat);
    }
}


/// Position of the first byte `b` of `s` at or after `from`, or the length
/// of `s` when there is none.
pub open spec fn find_byte(s: Seq<u8>, b: u8, from: int) -> int
    decreases s.len() - from,
{
    if from >= s.len() {
        s.len() as int
    } else if from >= 0 && s[from] == b {
        from
    } else {
        find_byte(s, b, from + 1)
    }
}

/// `find_byte` lies between its start and the length, stands on the byte,
/// and no byte between the start and it is the byte.
pub proof fn lemma_find_byte(s: Seq<u8>, b: u8, from: int)
    requires
        0 <= from <= s.len(),
    ensures
        from <= find_byte(s, b, from) <= s.len(),
        find_byte(s, b, from) < s.len() ==> s[find_byte(s, b, from)] == b,
        forall|i: int| from <= i < find_byte(s, b, from) ==> s[i] != b,
    decreases s.len() - from,
{
    if from < s.len() && s[from] != b {
        lemma_find_byte(s, b, from + 1);
    }
}

/// Looks for the first byte `b` at or after `from`.
pub fn find(bytes: &[u8], b: u8, from: usize) -> (at: usize)
    requires
        from <= bytes@.len(),
    ensures
        at == find_byte(bytes@, b, from as int),
        from <= at <= bytes@.len(),
{
    let len: usize = bytes.len();
    let mut at: usize = from;
    while at < len && bytes[at] != b
        invariant
            len == bytes@.len(),
            from <= at <= len,
            find_byte(bytes@, b, from as int) == find_byte(bytes@, b, at as int),
        decreases len - at,
    {
        at += 1;
    }
    at
}

/// Tells whether two texts are the same.
pub fn text_eq(a: &str, b: &str) -> (same: bool)
    ensures
        same == (a@ == b@),
{
    broadcast use vstd::utf8::group_utf8_lib;

    let x = a.as_bytes();
    let y = b.as_bytes();
    if x.len() != y.len() {
        return false;
    }
    let mut i: usize = 0;
    while i < x.len()
        invariant
            i <= x@.len(),
            x@.len() == y@.len(),
            x@ == encode_utf8(a@),
            y@ == encode_utf8(b@),
            forall|j: int| 0 <= j < i ==> x@[j] == y@[j],
        decreases x@.len() - i,
    {
        if x[i] != y[i] {
            return false;
        }
        i += 1;
    }
    assert(x@ =~= y@);
    assert(decode_utf8(encode_utf8(a@)) == a@);
    assert(decode_utf8(encode_utf8(b@)) == b@);
    true
}

} // verus!
