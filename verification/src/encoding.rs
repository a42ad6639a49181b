//! The byte format underneath the messages: variable-length integers,
//! length-prefixed buffers and strings, written and read by the version 1
//! encoder and decoder of `yrs`.

use vstd::prelude::*;
use vstd::utf8::*;
use yrs::encoding::read::{Error as YrsError, Read};
use yrs::encoding::write::Write;
use yrs::updates::decoder::{Decoder, DecoderV1};
use yrs::updates::encoder::{Encoder, EncoderV1};

verus! {

/// The version 1 encoder of `yrs`: a growing byte buffer.
#[verifier::external_type_specification]
#[verifier::external_body]
pub struct ExEncoderV1(EncoderV1);

/// The version 1 decoder of `yrs`: a byte slice with a position in it.
#[verifier::external_type_specification]
#[verifier::external_body]
pub struct ExDecoderV1<'a>(DecoderV1<'a>);

/// The error that the readers of `yrs` report.
#[verifier::external_type_specification]
#[verifier::external_body]
pub struct ExYrsError(YrsError);

/// The bytes that an encoder holds so far.
pub uninterp spec fn written(encoder: EncoderV1) -> Seq<u8>;

/// The bytes that a decoder has not consumed yet: those from its position on, and
/// none where the position lies beyond the end.
pub uninterp spec fn unread(decoder: DecoderV1) -> Seq<u8>;

/// The position of a decoder lies in its slice or right behind it. A decoder can be
/// made with a position further out.
pub uninterp spec fn is_in_range(decoder: DecoderV1) -> bool;

/// Why a value could not be read.
#[derive(Debug)]
pub enum ReadError {
    /// A variable-length integer goes on for too long, or its value does not fit.
    InvalidVarInt,
    /// The buffer ended before the given number of bytes could be taken from it.
    EndOfBuffer(usize),
    /// The bytes were there, but what they hold has no meaning at this place.
    UnexpectedValue,
    /// Any other failure that `yrs` knows. No reader of this crate reports it.
    Other(YrsError),
}

/// The variable-length encoding of `n`: seven bits to a byte, the lowest first,
/// with the high bit set on every byte but the last.
pub open spec fn var_bytes(n: nat) -> Seq<u8>
    decreases n,
{
    if n < 0x80 {
        seq![n as u8]
    } else {
        seq![(n % 0x80 + 0x80) as u8] + var_bytes(n / 0x80)
    }
}

/// A buffer with its length in front.
pub open spec fn buf_bytes(data: Seq<u8>) -> Seq<u8> {
    var_bytes(data.len()) + data
}

/// A string as the buffer of its UTF-8 encoding.
pub open spec fn string_bytes(chars: Seq<char>) -> Seq<u8> {
    buf_bytes(encode_utf8(chars))
}

/// What one byte adds to a variable-length integer of `width` bits: its low
/// seven bits, moved up by `shift`, cut off at the width.
pub open spec fn var_digit(byte: u8, shift: u64, width: u64) -> u64 {
    let moved = ((byte & 0x7f) as u64) << shift;
    if width == 32 {
        moved & 0xffff_ffff
    } else {
        moved
    }
}

/// Reads on in a variable-length integer of `width` bits, at the byte with
/// index `i`, with `acc` gathered from the bytes before it: the value, or what is
/// wrong, and the bytes left unread.
///
/// The shift of a byte is taken modulo the width, and the eleventh byte must be
/// the last.
pub open spec fn var_read_from(s: Seq<u8>, width: u64, i: nat, acc: u64) -> (
    Result<u64, ReadError>,
    Seq<u8>,
)
    decreases 11 - i,
{
    if i >= s.len() {
        (Err(ReadError::EndOfBuffer(1)), Seq::empty())
    } else {
        let value = acc | var_digit(s[i as int], ((7 * i) % (width as nat)) as u64, width);
        let rest = s.skip(i as int + 1);
        if s[i as int] < 0x80 {
            (Ok(value), rest)
        } else if i >= 10 {
            (Err(ReadError::InvalidVarInt), rest)
        } else {
            var_read_from(s, width, i + 1, value)
        }
    }
}

/// The variable-length integer of 64 bits at the front of `s`.
pub open spec fn var_u64_read(s: Seq<u8>) -> (Result<u64, ReadError>, Seq<u8>) {
    var_read_from(s, 64, 0, 0)
}

/// The variable-length integer of 32 bits at the front of `s`.
pub open spec fn var_u32_read(s: Seq<u8>) -> (Result<u32, ReadError>, Seq<u8>) {
    let (value, rest) = var_read_from(s, 32, 0, 0);
    match value {
        Ok(n) => (Ok(n as u32), rest),
        Err(e) => (Err(e), rest),
    }
}

/// The variable-length integer at the front of `s`, which has to fit in a byte.
pub open spec fn var_u8_read(s: Seq<u8>) -> (Result<u8, ReadError>, Seq<u8>) {
    let (value, rest) = var_u32_read(s);
    match value {
        Ok(n) => if n <= u8::MAX {
            (Ok(n as u8), rest)
        } else {
            (Err(ReadError::InvalidVarInt), rest)
        },
        Err(e) => (Err(e), rest),
    }
}

/// The length-prefixed buffer at the front of `s`. Where fewer bytes follow the
/// length than it announces, only the length is consumed.
pub open spec fn buf_read(s: Seq<u8>) -> (Result<Seq<u8>, ReadError>, Seq<u8>) {
    let (len, rest) = var_u32_read(s);
    match len {
        Ok(n) => if n <= rest.len() {
            (Ok(rest.take(n as int)), rest.skip(n as int))
        } else {
            (Err(ReadError::EndOfBuffer(n as usize)), rest)
        },
        Err(e) => (Err(e), rest),
    }
}

/// The length-prefixed string at the front of `s`. A buffer that is not UTF-8 is
/// consumed and refused.
pub open spec fn string_read(s: Seq<u8>) -> (Result<Seq<char>, ReadError>, Seq<u8>) {
    let (bytes, rest) = buf_read(s);
    match bytes {
        Ok(b) => if valid_utf8(b) {
            (Ok(decode_utf8(b)), rest)
        } else {
            (Err(ReadError::UnexpectedValue), rest)
        },
        Err(e) => (Err(e), rest),
    }
}

/// Wraps `EncoderV1::new`: the new encoder holds nothing.
#[verifier::external_body]
pub(crate) fn new_encoder() -> (encoder: EncoderV1)
    ensures
        written(encoder) == Seq::<u8>::empty(),
{
    EncoderV1::new()
}

/// Wraps `Encoder::to_vec`: hands out the bytes that the encoder holds.
#[verifier::external_body]
pub(crate) fn into_bytes(encoder: EncoderV1) -> (bytes: Vec<u8>)
    ensures
        bytes@ == written(encoder),
{
    encoder.to_vec()
}

/// Wraps `Write::write_var` at `u64`: appends the variable-length encoding of
/// `value`. At the narrower unsigned types it writes the same bytes for the same
/// value.
#[verifier::external_body]
pub(crate) fn write_var(encoder: &mut EncoderV1, value: u64)
    ensures
        written(*final(encoder)) == written(*old(encoder)) + var_bytes(value as nat),
{
    encoder.write_var(value)
}

/// Wraps `Write::write_buf`: appends the length of `data` as a variable-length
/// integer, and then `data`.
#[verifier::external_body]
pub(crate) fn write_buf(encoder: &mut EncoderV1, data: &[u8])
    ensures
        written(*final(encoder)) == written(*old(encoder)) + buf_bytes(data@),
{
    encoder.write_buf(data)
}

/// Wraps `Write::write_string`: appends the UTF-8 bytes of `text` as a buffer.
#[verifier::external_body]
pub(crate) fn write_string(encoder: &mut EncoderV1, text: &str)
    ensures
        written(*final(encoder)) == written(*old(encoder)) + string_bytes(text@),
{
    encoder.write_string(text)
}

/// Wraps `DecoderV1::from`: a decoder at the front of `data`.
#[verifier::external_body]
pub(crate) fn new_decoder(data: &[u8]) -> (decoder: DecoderV1<'_>)
    ensures
        unread(decoder) == data@,
{
    DecoderV1::from(data)
}

/// Wraps `Read::read_var` at `u8`.
#[verifier::external_body]
pub(crate) fn read_var_u8(decoder: &mut DecoderV1) -> (value: Result<u8, ReadError>)
    ensures
        (value, unread(*final(decoder))) == var_u8_read(unread(*old(decoder))),
{
    match decoder.read_var::<u8>() {
        Ok(value) => Ok(value),
        Err(YrsError::InvalidVarInt) => Err(ReadError::InvalidVarInt),
        Err(YrsError::EndOfBuffer(n)) => Err(ReadError::EndOfBuffer(n)),
        Err(YrsError::UnexpectedValue) => Err(ReadError::UnexpectedValue),
        Err(other) => Err(ReadError::Other(other)),
    }
}

/// Wraps `Read::read_var` at `u32`. Where it succeeds, the last byte that it took is
/// in the slice, so its position is in range.
#[verifier::external_body]
pub(crate) fn read_var_u32(decoder: &mut DecoderV1) -> (value: Result<u32, ReadError>)
    ensures
        (value, unread(*final(decoder))) == var_u32_read(unread(*old(decoder))),
        value is Ok ==> is_in_range(*final(decoder)),
{
    match decoder.read_var::<u32>() {
        Ok(value) => Ok(value),
        Err(YrsError::InvalidVarInt) => Err(ReadError::InvalidVarInt),
        Err(YrsError::EndOfBuffer(n)) => Err(ReadError::EndOfBuffer(n)),
        Err(YrsError::UnexpectedValue) => Err(ReadError::UnexpectedValue),
        Err(other) => Err(ReadError::Other(other)),
    }
}

/// Wraps `Read::read_var` at `u64`.
#[verifier::external_body]
pub(crate) fn read_var_u64(decoder: &mut DecoderV1) -> (value: Result<u64, ReadError>)
    ensures
        (value, unread(*final(decoder))) == var_u64_read(unread(*old(decoder))),
{
    match decoder.read_var::<u64>() {
        Ok(value) => Ok(value),
        Err(YrsError::InvalidVarInt) => Err(ReadError::InvalidVarInt),
        Err(YrsError::EndOfBuffer(n)) => Err(ReadError::EndOfBuffer(n)),
        Err(YrsError::UnexpectedValue) => Err(ReadError::UnexpectedValue),
        Err(other) => Err(ReadError::Other(other)),
    }
}

/// What a result of bytes holds, taken by its view.
pub open spec fn bytes_result(r: Result<Vec<u8>, ReadError>) -> Result<Seq<u8>, ReadError> {
    match r {
        Ok(bytes) => Ok(bytes@),
        Err(e) => Err(e),
    }
}

/// What a result of a string holds, taken by its view.
pub open spec fn string_result(r: Result<String, ReadError>) -> Result<Seq<char>, ReadError> {
    match r {
        Ok(text) => Ok(text@),
        Err(e) => Err(e),
    }
}

/// Wraps `Decoder::read_to_end`: shows the bytes that are left, without consuming
/// them. It slices at the position, which must therefore be in range.
#[verifier::external_body]
fn rest_of<'a>(decoder: &'a mut DecoderV1) -> (rest: Option<&'a [u8]>)
    requires
        is_in_range(*old(decoder)),
    ensures
        rest matches Some(bytes) && bytes@ == unread(*old(decoder)),
        *final(decoder) == *old(decoder),
{
    decoder.read_to_end().ok()
}

/// Wraps `Read::read_exact`, and copies the bytes out: takes the next `n` bytes. It
/// adds `n` to the position before it looks at the end, so there must be as many.
#[verifier::external_body]
fn read_exact(decoder: &mut DecoderV1, n: usize) -> (data: Option<Vec<u8>>)
    requires
        is_in_range(*old(decoder)),
        n <= unread(*old(decoder)).len(),
    ensures
        data matches Some(bytes) && bytes@ == unread(*old(decoder)).take(n as int),
        unread(*final(decoder)) == unread(*old(decoder)).skip(n as int),
{
    match decoder.read_exact(n) {
        Ok(data) => Some(data.to_vec()),
        Err(_) => None,
    }
}

/// Reads a length-prefixed buffer. An announced length is held against the bytes
/// that are left before any of them is taken.
pub(crate) fn read_buf(decoder: &mut DecoderV1) -> (data: Result<Vec<u8>, ReadError>)
    ensures
        (bytes_result(data), unread(*final(decoder))) == buf_read(unread(*old(decoder))),
{
    let len: usize = match read_var_u32(decoder) {
        Ok(len) => len as usize,
        Err(e) => return Err(e),
    };
    let left: usize = rest_of(decoder).unwrap().len();
    if len <= left {
        Ok(read_exact(decoder, len).unwrap())
    } else {
        Err(ReadError::EndOfBuffer(len))
    }
}

/// Wraps `String::from_utf8`: a string exactly where the bytes are UTF-8, and
/// then the one that they encode.
#[verifier::external_body]
fn string_from_utf8(bytes: Vec<u8>) -> (text: Option<String>)
    ensures
        text is Some <==> valid_utf8(bytes@),
        text matches Some(s) ==> encode_utf8(s@) == bytes@,
{
    String::from_utf8(bytes).ok()
}

/// Reads a length-prefixed string, and refuses bytes that are not UTF-8.
pub(crate) fn read_string(decoder: &mut DecoderV1) -> (text: Result<String, ReadError>)
    ensures
        (string_result(text), unread(*final(decoder))) == string_read(unread(*old(decoder))),
{
    match read_buf(decoder) {
        Ok(bytes) => {
            let ghost data = bytes@;
            match string_from_utf8(bytes) {
                Some(text) => {
                    proof {
                        encode_utf8_decode_utf8(text@);
                    }
                    Ok(text)
                },
                None => Err(ReadError::UnexpectedValue),
            }
        },
        Err(e) => Err(e),
    }
}

/// Reading on in the encoding of `total`, `i` bytes in.
proof fn lemma_var_read_from(
    prefix: Seq<u8>,
    total: u64,
    width: u64,
    i: nat,
    acc: u64,
    tail: Seq<u8>,
)
    requires
        width == 64 || (width == 32 && total <= u32::MAX),
        prefix.len() == i,
        i <= 9,
        width == 32 ==> i <= 4,
        acc == total & (((1u64 << (7 * i) as u64) - 1) as u64),
    ensures
        ({
            let n = total >> (7 * i) as u64;
            var_read_from(prefix + var_bytes(n as nat) + tail, width, i, acc) == (
                Ok::<u64, ReadError>(total),
                tail,
            )
        }),
    decreases 11 - i,
{
    let s: u64 = (7 * i) as u64;
    let n: u64 = total >> s;
    let bytes = var_bytes(n as nat);
    let all = prefix + bytes + tail;
    let byte = bytes[0];
    assert(all[i as int] == byte);
    assert((7 * i) % (width as nat) == s);
    if width == 32 {
        assert(((n & 0x7f) << s) & 0xffff_ffff == (n & 0x7f) << s) by (bit_vector)
            requires
                total <= 0xffff_ffff,
                n == total >> s,
                s <= 63,
        ;
    }
    if n < 0x80 {
        assert((byte & 0x7f) as u64 == n & 0x7f && n & 0x7f == n) by (bit_vector)
            requires
                byte == n as u8,
                n < 0x80,
        ;
        assert(acc | (n << s) == total) by (bit_vector)
            requires
                s <= 63,
                n == total >> s,
                acc == total & (((1u64 << s) - 1) as u64),
        ;
        assert(all.skip(i as int + 1) =~= tail);
    } else {
        let low = (n % 0x80) as u8;
        assert((byte & 0x7f) as u64 == n & 0x7f) by (bit_vector)
            requires
                low == n % 0x80,
                byte == low + 0x80,
        ;
        let value = acc | ((n & 0x7f) << s);
        let t: u64 = (s + 7) as u64;
        assert(t <= 63 && value == total & (((1u64 << t) - 1) as u64) && total >> t == n / 0x80)
            by (bit_vector)
            requires
                s <= 63,
                t == s + 7,
                n == total >> s,
                n >= 0x80,
                acc == total & (((1u64 << s) - 1) as u64),
                value == acc | ((n & 0x7f) << s),
        ;
        if width == 32 {
            assert(t <= 28) by (bit_vector)
                requires
                    total <= 0xffff_ffff,
                    s <= 28,
                    s % 7 == 0,
                    t == s + 7,
                    n == total >> s,
                    n >= 0x80,
            ;
        }
        let longer = prefix.push(byte);
        lemma_var_read_from(longer, total, width, i + 1, value, tail);
        assert(bytes =~= seq![byte] + var_bytes((n / 0x80) as nat));
        assert(longer + var_bytes((n / 0x80) as nat) + tail =~= all);
    }
}

/// What `write_var` writes, `read_var` reads back, and it stops right behind.
pub proof fn lemma_var_read(n: u64, width: u64, tail: Seq<u8>)
    requires
        width == 64 || (width == 32 && n <= u32::MAX),
    ensures
        var_read_from(var_bytes(n as nat) + tail, width, 0, 0) == (Ok::<u64, ReadError>(n), tail),
{
    assert(n >> 0u64 == n) by (bit_vector);
    assert(n & (((1u64 << 0u64) - 1) as u64) == 0) by (bit_vector);
    lemma_var_read_from(Seq::empty(), n, width, 0, 0, tail);
    assert(Seq::<u8>::empty() + var_bytes(n as nat) + tail =~= var_bytes(n as nat) + tail);
}

/// A small tag, written as a variable-length integer, reads back as itself.
pub proof fn lemma_var_u8_read(n: u8, tail: Seq<u8>)
    ensures
        var_u8_read(var_bytes(n as nat) + tail) == (Ok::<u8, ReadError>(n), tail),
{
    lemma_var_read(n as u64, 32, tail);
}

/// A 32-bit integer reads back as itself.
pub proof fn lemma_var_u32_read(n: u32, tail: Seq<u8>)
    ensures
        var_u32_read(var_bytes(n as nat) + tail) == (Ok::<u32, ReadError>(n), tail),
{
    lemma_var_read(n as u64, 32, tail);
}

/// A 64-bit integer reads back as itself.
pub proof fn lemma_var_u64_read(n: u64, tail: Seq<u8>)
    ensures
        var_u64_read(var_bytes(n as nat) + tail) == (Ok::<u64, ReadError>(n), tail),
{
    lemma_var_read(n, 64, tail);
}

/// A buffer whose length fits in 32 bits reads back as itself.
pub proof fn lemma_buf_read(data: Seq<u8>, tail: Seq<u8>)
    requires
        data.len() <= u32::MAX,
    ensures
        buf_read(buf_bytes(data) + tail) == (Ok::<Seq<u8>, ReadError>(data), tail),
{
    lemma_var_u32_read(data.len() as u32, data + tail);
    assert(buf_bytes(data) + tail =~= var_bytes(data.len()) + (data + tail));
    assert((data + tail).take(data.len() as int) =~= data);
    assert((data + tail).skip(data.len() as int) =~= tail);
}

/// A string whose encoding fits in 32 bits reads back as itself.
pub proof fn lemma_string_read(chars: Seq<char>, tail: Seq<u8>)
    requires
        encode_utf8(chars).len() <= u32::MAX,
    ensures
        string_read(string_bytes(chars) + tail) == (Ok::<Seq<char>, ReadError>(chars), tail),
{
    lemma_buf_read(encode_utf8(chars), tail);
    encode_utf8_valid_utf8(chars);
    encode_utf8_decode_utf8(chars);
}

/// `rest` is what is left of `s` once something was taken off its front.
pub open spec fn is_tail_of(rest: Seq<u8>, s: Seq<u8>) -> bool {
    rest.len() <= s.len() && rest == s.skip(s.len() - rest.len())
}

/// A tail of a tail is a tail.
pub proof fn lemma_tail_of_tail(a: Seq<u8>, b: Seq<u8>, c: Seq<u8>)
    requires
        is_tail_of(a, b),
        is_tail_of(b, c),
    ensures
        is_tail_of(a, c),
{
    assert(a =~= c.skip(c.len() - a.len()));
}

/// Reading an integer takes bytes off the front, and at least one where there is
/// one.
proof fn lemma_var_read_from_tail(s: Seq<u8>, width: u64, i: nat, acc: u64)
    requires
        i < s.len(),
    ensures
        is_tail_of(var_read_from(s, width, i, acc).1, s),
        var_read_from(s, width, i, acc).1.len() < s.len(),
    decreases 11 - i,
{
    let value = acc | var_digit(s[i as int], ((7 * i) % (width as nat)) as u64, width);
    if s[i as int] >= 0x80 && i < 10 {
        if i + 1 < s.len() {
            lemma_var_read_from_tail(s, width, i + 1, value);
        } else {
            assert(Seq::<u8>::empty() =~= s.skip(s.len() as int));
        }
    }
}

/// Reading a 64-bit integer takes bytes off the front, and at least one where there
/// is one; of nothing, nothing is read.
pub proof fn lemma_var_u64_read_tail(s: Seq<u8>)
    ensures
        is_tail_of(var_u64_read(s).1, s),
        s.len() > 0 ==> var_u64_read(s).1.len() < s.len(),
        s.len() == 0 ==> var_u64_read(s).0 == Err::<u64, ReadError>(ReadError::EndOfBuffer(1)),
{
    if s.len() > 0 {
        lemma_var_read_from_tail(s, 64, 0, 0);
    } else {
        assert(Seq::<u8>::empty() =~= s.skip(0));
    }
}

/// Reading a 32-bit integer takes bytes off the front, and at least one where there
/// is one; of nothing, nothing is read.
pub proof fn lemma_var_u32_read_tail(s: Seq<u8>)
    ensures
        is_tail_of(var_u32_read(s).1, s),
        s.len() > 0 ==> var_u32_read(s).1.len() < s.len(),
        s.len() == 0 ==> var_u32_read(s).0 == Err::<u32, ReadError>(ReadError::EndOfBuffer(1)),
{
    if s.len() > 0 {
        lemma_var_read_from_tail(s, 32, 0, 0);
    } else {
        assert(Seq::<u8>::empty() =~= s.skip(0));
    }
}

/// Reading a tag takes bytes off the front, and at least one where there is one;
/// of nothing, nothing is read.
pub proof fn lemma_var_u8_read_tail(s: Seq<u8>)
    ensures
        is_tail_of(var_u8_read(s).1, s),
        s.len() > 0 ==> var_u8_read(s).1.len() < s.len(),
        s.len() == 0 ==> var_u8_read(s).0 == Err::<u8, ReadError>(ReadError::EndOfBuffer(1)),
{
    lemma_var_u32_read_tail(s);
}

/// Reading a buffer takes bytes off the front.
pub proof fn lemma_buf_read_tail(s: Seq<u8>)
    ensures
        is_tail_of(buf_read(s).1, s),
{
    let (len, rest) = var_u32_read(s);
    lemma_var_u32_read_tail(s);
    if len is Ok && len->Ok_0 <= rest.len() {
        lemma_tail_of_tail(rest.skip(len->Ok_0 as int), rest, s);
    }
}

/// The bytes ended before the value did.
pub open spec fn ends_early<T>(r: Result<T, ReadError>) -> bool {
    r matches Err(ReadError::EndOfBuffer(_))
}

/// The beginning of two byte strings in a row lies in the first, or it is the first
/// and the beginning of the second.
pub proof fn lemma_take_of_two(a: Seq<u8>, b: Seq<u8>, k: int)
    requires
        0 <= k <= a.len() + b.len(),
    ensures
        k <= a.len() ==> (a + b).take(k) == a.take(k),
        k >= a.len() ==> (a + b).take(k) == a + b.take(k - a.len()),
{
    if k <= a.len() {
        assert((a + b).take(k) =~= a.take(k));
    }
    if k >= a.len() {
        assert((a + b).take(k) =~= a + b.take(k - a.len()));
    }
}

/// Reading on in the first `k` bytes of the encoding of `n`, behind `done`.
proof fn lemma_var_read_from_prefix(done: Seq<u8>, n: nat, k: int, width: u64, acc: u64)
    requires
        0 <= k < var_bytes(n).len(),
        done.len() + var_bytes(n).len() <= 11,
    ensures
        var_read_from(done + var_bytes(n).take(k), width, done.len(), acc).0 == Err::<
            u64,
            ReadError,
        >(ReadError::EndOfBuffer(1)),
    decreases n,
{
    let s = done + var_bytes(n).take(k);
    if k > 0 {
        let i = done.len();
        let byte = var_bytes(n)[0];
        let value = acc | var_digit(byte, ((7 * i) % (width as nat)) as u64, width);
        assert(s[i as int] == byte);
        lemma_var_read_from_prefix(done.push(byte), n / 0x80, k - 1, width, value);
        assert(s =~= done.push(byte) + var_bytes(n / 0x80).take(k - 1));
    }
}

/// An integer that was cut off ends early.
pub proof fn lemma_var_u32_read_prefix(n: u32, k: int)
    requires
        0 <= k < var_bytes(n as nat).len(),
    ensures
        ends_early(var_u32_read(var_bytes(n as nat).take(k)).0),
{
    assert(var_bytes(n as nat).len() <= 5) by {
        reveal_with_fuel(var_bytes, 6);
    }
    lemma_var_read_from_prefix(Seq::empty(), n as nat, k, 32, 0);
    assert(Seq::<u8>::empty() + var_bytes(n as nat).take(k) =~= var_bytes(n as nat).take(k));
}

/// A tag that was cut off ends early.
pub proof fn lemma_var_u8_read_prefix(n: u8, k: int)
    requires
        0 <= k < var_bytes(n as nat).len(),
    ensures
        ends_early(var_u8_read(var_bytes(n as nat).take(k)).0),
{
    lemma_var_u32_read_prefix(n as u32, k);
}

/// A buffer that was cut off ends early.
pub proof fn lemma_buf_read_prefix(data: Seq<u8>, k: int)
    requires
        data.len() <= u32::MAX,
        0 <= k < buf_bytes(data).len(),
    ensures
        ends_early(buf_read(buf_bytes(data).take(k)).0),
{
    let len = var_bytes(data.len());
    lemma_take_of_two(len, data, k);
    if k < len.len() {
        lemma_var_u32_read_prefix(data.len() as u32, k);
    } else {
        lemma_var_u32_read(data.len() as u32, data.take(k - len.len()));
    }
}

/// A string that was cut off ends early.
pub proof fn lemma_string_read_prefix(chars: Seq<char>, k: int)
    requires
        encode_utf8(chars).len() <= u32::MAX,
        0 <= k < string_bytes(chars).len(),
    ensures
        ends_early(string_read(string_bytes(chars).take(k)).0),
{
    lemma_buf_read_prefix(encode_utf8(chars), k);
}

} // verus!
