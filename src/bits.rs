//! Bit-granular reading over `bitstream_reader`'s little-endian stream.
//!
//! A stream is modelled by the sequence of bits between its cursor and its
//! end (`stream_bits`); bit `i` of the buffer is bit `i % 8` of byte `i / 8`.
use vstd::prelude::*;

verus! {

/// `bitstream_reader::ReadError`, the reader's failure, carried opaquely.
#[verifier::external_type_specification]
#[verifier::external_body]
pub struct ExReadError(bitstream_reader::ReadError);

/// The bit stream every decoder reads from: a little-endian
/// `bitstream_reader::BitStream`, whose declaration Verus cannot take. Its
/// contents are known only through `stream_bits` and the wrappers below.
#[verifier::external_body]
pub struct Stream {
    inner: bitstream_reader::BitStream<bitstream_reader::LittleEndian>,
}

/// The bits of a stream from its cursor to its end: what the wrapped
/// `BitStream` holds between its position and its bit length.
pub uninterp spec fn stream_bits(s: Stream) -> Seq<bool>;

/// Unsigned value of a little-endian bit sequence (first bit least significant).
pub open spec fn bits_value(b: Seq<bool>) -> nat
    decreases b.len(),
{
    if b.len() == 0 {
        0
    } else {
        (if b[0] { 1nat } else { 0nat }) + 2 * bits_value(b.skip(1))
    }
}

/// The bits of a byte buffer, in stream order.
pub open spec fn bytes_bits(bytes: Seq<u8>) -> Seq<bool>
    decreases bytes.len(),
{
    if bytes.len() == 0 {
        Seq::empty()
    } else {
        uint_bits(bytes[0] as nat, 8) + bytes_bits(bytes.skip(1))
    }
}

/// Reading `n` bits as an unsigned integer: the value and the bits after it.
pub open spec fn take_uint(b: Seq<bool>, n: nat) -> Option<(nat, Seq<bool>)> {
    if n <= b.len() {
        Some((bits_value(b.take(n as int)), b.skip(n as int)))
    } else {
        None
    }
}

/// A NUL-terminated string of ASCII bytes at the start of `b`: its text
/// and the bits after the terminating zero byte; `None` when the bits do not
/// hold one (a byte of 128 or more, or no zero byte before the end).
pub open spec fn ascii_cstring(b: Seq<bool>) -> Option<(Seq<char>, Seq<bool>)>
    decreases b.len(),
{
    if b.len() < 8 {
        None
    } else {
        let c = bits_value(b.take(8));
        if c == 0 {
            Some((Seq::empty(), b.skip(8)))
        } else if c < 128 {
            match ascii_cstring(b.skip(8)) {
                Some((t, r)) => Some((seq![(c as u8) as char] + t, r)),
                None => None,
            }
        } else {
            None
        }
    }
}

/// Width in bits selected by the 2-bit selector of a ubitvar.
pub open spec fn ubitvar_width(selector: nat) -> nat {
    if selector == 0 {
        4
    } else if selector == 1 {
        8
    } else if selector == 2 {
        12
    } else {
        32
    }
}

/// A ubitvar: a 2-bit selector, then as many value bits as it selects.
pub open spec fn take_ubitvar(b: Seq<bool>) -> Option<(nat, Seq<bool>)> {
    match take_uint(b, 2) {
        Some((selector, rest)) => take_uint(rest, ubitvar_width(selector)),
        None => None,
    }
}

/// A value read from `n` bits is below `2^n`.
pub proof fn lemma_bits_value_bound(b: Seq<bool>)
    ensures
        bits_value(b) < vstd::arithmetic::power2::pow2(b.len()),
    decreases b.len(),
{
    if b.len() == 0 {
        vstd::arithmetic::power2::lemma2_to64();
    } else {
        lemma_bits_value_bound(b.skip(1));
        vstd::arithmetic::power2::lemma_pow2_unfold(b.len());
    }
}

/// Little-endian bits of the low `n` bits of `x`.
pub open spec fn uint_bits(x: nat, n: nat) -> Seq<bool>
    decreases n,
{
    if n == 0 {
        Seq::empty()
    } else {
        seq![x % 2 == 1] + uint_bits(x / 2, (n - 1) as nat)
    }
}

pub proof fn lemma_uint_bits_len(x: nat, n: nat)
    ensures
        uint_bits(x, n).len() == n,
    decreases n,
{
    if n > 0 {
        lemma_uint_bits_len(x / 2, (n - 1) as nat);
    }
}

/// Writing `x` in `n` bits and reading them back gives `x` when it fits.
pub proof fn lemma_uint_bits_value(x: nat, n: nat)
    requires
        x < vstd::arithmetic::power2::pow2(n),
    ensures
        bits_value(uint_bits(x, n)) == x,
    decreases n,
{
    if n == 0 {
        vstd::arithmetic::power2::lemma2_to64();
    } else {
        vstd::arithmetic::power2::lemma_pow2_unfold(n);
        let b = uint_bits(x, n);
        lemma_uint_bits_len(x / 2, (n - 1) as nat);
        assert(b.skip(1) =~= uint_bits(x / 2, (n - 1) as nat));
        assert(x / 2 < vstd::arithmetic::power2::pow2((n - 1) as nat));
        lemma_uint_bits_value(x / 2, (n - 1) as nat);
        assert(bits_value(b) == (if b[0] { 1nat } else { 0nat }) + 2 * bits_value(b.skip(1)));
    }
}

/// A byte buffer has eight bits per byte.
pub proof fn lemma_bytes_bits_len(bytes: Seq<u8>)
    ensures
        bytes_bits(bytes).len() == 8 * bytes.len(),
    decreases bytes.len(),
{
    if bytes.len() > 0 {
        lemma_uint_bits_len(bytes[0] as nat, 8);
        lemma_bytes_bits_len(bytes.skip(1));
    }
}

/// Reading `n` bits after writing `x < 2^n` in them gives `x` and what followed.
pub proof fn lemma_take_uint_round_trip(x: nat, n: nat, rest: Seq<bool>)
    requires
        x < vstd::arithmetic::power2::pow2(n),
    ensures
        take_uint(uint_bits(x, n) + rest, n) == Some((x, rest)),
{
    lemma_uint_bits_len(x, n);
    let b = uint_bits(x, n) + rest;
    assert(b.take(n as int) =~= uint_bits(x, n));
    assert(b.skip(n as int) =~= rest);
    lemma_uint_bits_value(x, n);
}

/// Every value below `2^width` written after its selector reads back, for
/// each of the four selectors and the width it stands for.
pub proof fn lemma_ubitvar_round_trip(selector: nat, v: nat, rest: Seq<bool>)
    requires
        selector < 4,
        v < vstd::arithmetic::power2::pow2(ubitvar_width(selector)),
    ensures
        take_ubitvar(uint_bits(selector, 2) + uint_bits(v, ubitvar_width(selector)) + rest)
            == Some((v, rest)),
{
    vstd::arithmetic::power2::lemma2_to64();
    let tail = uint_bits(v, ubitvar_width(selector)) + rest;
    assert(uint_bits(selector, 2) + uint_bits(v, ubitvar_width(selector)) + rest =~= uint_bits(
        selector,
        2,
    ) + tail);
    lemma_take_uint_round_trip(selector, 2, tail);
    lemma_take_uint_round_trip(v, ubitvar_width(selector), rest);
}

/// Reads a ubitvar: the 2-bit selector picks 4, 8, 12 or 32 value bits.
pub fn read_bit_var(s: &mut Stream) -> (r: Result<u32, ParseError>)
    ensures
        stream_bits(*final(s)).len() <= stream_bits(*old(s)).len(),
        match r {
            Ok(v) => take_ubitvar(stream_bits(*old(s))) == Some((v as nat, stream_bits(*final(s)))),
            Err(e) => take_ubitvar(stream_bits(*old(s))) is None && e == ParseError::NotEnoughData,
        },
{
    let ty = match read_uint(s, 2) {
        Ok(v) => v,
        Err(e) => return Err(read_failure(e)),
    };
    let bits: usize = if ty == 0 {
        4
    } else if ty == 1 {
        8
    } else if ty == 2 {
        12
    } else {
        32
    };
    match read_uint(s, bits) {
        Ok(v) => Ok(v),
        Err(e) => Err(read_failure(e)),
    }
}

/// Errors of the decoders.
#[derive(Debug, PartialEq, Eq)]
pub enum ParseError {
    /// The stream ended before a read could complete.
    NotEnoughData,
    /// A game event could not be decoded.
    MalformedGameEvent(GameEventError),
    /// An update names an entity that is not live.
    UnknownEntity(u32),
    /// An entering entity names a class index outside the class list.
    UnknownServerClass(usize),
    /// A class names a send table that is not known.
    UnknownSendTable(String),
    /// A prop update names a slot outside the flattened props.
    PropIndexOutOfBounds { index: u64, prop_count: usize },
    /// Value bits break the rules of their encoding.
    InvalidEncoding,
}

/// Why a game event could not be decoded.
#[derive(Debug, Clone, Copy, PartialEq, Eq)]
pub enum GameEventError {
    UnknownType,
    NoneValue,
    MissingEntry,
}

/// The error that a failed read of the underlying reader is reported as. The
/// integer, bit and sub-stream reads fail only at the end of the stream;
/// a string read may also fail on text that is not UTF-8, which is reported
/// the same way.
pub fn read_failure(_e: bitstream_reader::ReadError) -> (r: ParseError)
    ensures
        r == ParseError::NotEnoughData,
{
    ParseError::NotEnoughData
}

/// Relies on `BitStream::new` over `BitBuffer::new(bytes, LittleEndian)`: a
/// stream at position 0 over all bits of the bytes.
#[verifier::external_body]
pub(crate) fn stream_from_bytes(bytes: Vec<u8>) -> (r: Stream)
    ensures
        stream_bits(r) == bytes_bits(bytes@),
{
    Stream {
        inner: bitstream_reader::BitStream::new(
            bitstream_reader::BitBuffer::new(bytes, bitstream_reader::LittleEndian),
        ),
    }
}

/// Relies on `BitStream::read_bool`: the bit at the cursor, which advances by
/// one only on success.
#[verifier::external_body]
pub(crate) fn read_bool(s: &mut Stream) -> (r: Result<bool, bitstream_reader::ReadError>)
    ensures
        match r {
            Ok(b) => stream_bits(*old(s)).len() > 0 && b == stream_bits(*old(s))[0]
                && stream_bits(*final(s)) == stream_bits(*old(s)).skip(1),
            Err(_) => stream_bits(*old(s)).len() == 0 && stream_bits(*final(s)) == stream_bits(
                *old(s),
            ),
        },
{
    s.inner.read_bool()
}

/// Relies on `BitStream::read_int::<u32>`: `count` bits little-endian, the
/// cursor advancing by `count` only on success.
#[verifier::external_body]
pub(crate) fn read_uint(s: &mut Stream, count: usize) -> (r: Result<u32, bitstream_reader::ReadError>)
    requires
        count <= 32,
    ensures
        match r {
            Ok(v) => take_uint(stream_bits(*old(s)), count as nat) == Some(
                (v as nat, stream_bits(*final(s))),
            ),
            Err(_) => take_uint(stream_bits(*old(s)), count as nat) is None && stream_bits(
                *final(s),
            ) == stream_bits(*old(s)),
        },
{
    s.inner.read_int::<u32>(count)
}

/// Relies on `BitStream::read_bits`: a stream over exactly the next `count`
/// bits, the parent's cursor moving past them only on success.
#[verifier::external_body]
pub(crate) fn read_sub_stream(s: &mut Stream, count: usize) -> (r: Result<Stream, bitstream_reader::ReadError>)
    requires
        count <= 0xffff_ffff,
    ensures
        match r {
            Ok(sub) => count <= stream_bits(*old(s)).len() && stream_bits(sub) == stream_bits(
                *old(s),
            ).take(count as int) && stream_bits(*final(s)) == stream_bits(*old(s)).skip(
                count as int,
            ),
            Err(_) => count > stream_bits(*old(s)).len() && stream_bits(*final(s)) == stream_bits(
                *old(s),
            ),
        },
{
    match s.inner.read_bits(count) {
        Ok(inner) => Ok(Stream { inner }),
        Err(e) => Err(e),
    }
}

/// Relies on `BitStream::skip_bits`: the cursor moves by `count` when that many
/// bits are left, and stays otherwise.
#[verifier::external_body]
pub(crate) fn skip_bits(s: &mut Stream, count: usize) -> (r: Result<(), bitstream_reader::ReadError>)
    ensures
        r is Ok <==> count <= stream_bits(*old(s)).len(),
        r is Ok ==> stream_bits(*final(s)) == stream_bits(*old(s)).skip(count as int),
        r is Err ==> stream_bits(*final(s)) == stream_bits(*old(s)),
{
    s.inner.skip_bits(count)
}

/// Relies on `BitStream::read_string(None)`: a NUL-terminated string. When
/// the stream holds ASCII bytes and a zero byte, the string is those bytes
/// and the cursor moves past the zero byte. Otherwise the cursor never moves
/// backwards and the text is left unstated: the reader may decode bytes past
/// the end of a carved stream, and it decodes UTF-8.
#[verifier::external_body]
pub(crate) fn read_cstring(s: &mut Stream) -> (r: Result<String, bitstream_reader::ReadError>)
    ensures
        match ascii_cstring(stream_bits(*old(s))) {
            Some((text, rest)) => r is Ok && r->Ok_0@ == text && stream_bits(*final(s)) == rest,
            None => true,
        },
        stream_bits(*final(s)).len() <= stream_bits(*old(s)).len(),
        stream_bits(*final(s)) == stream_bits(*old(s)).skip(
            stream_bits(*old(s)).len() - stream_bits(*final(s)).len(),
        ),
{
    s.inner.read_string(None)
}

/// Relies on `BitStream::read_string(Some(n))`: a string of `n` bytes.
/// When that many bits are left the cursor moves past them, whether the
/// bytes are UTF-8 or not; otherwise the read fails and the cursor stays.
/// The text (UTF-8, trailing zero bytes trimmed) is left unstated.
#[verifier::external_body]
pub(crate) fn read_fixed_string(s: &mut Stream, n: usize) -> (r: Result<String, bitstream_reader::ReadError>)
    requires
        n <= 32,
    ensures
        8 * n <= stream_bits(*old(s)).len() ==> stream_bits(*final(s)) == stream_bits(*old(s)).skip(
            8 * n as int,
        ),
        8 * n > stream_bits(*old(s)).len() ==> r is Err && stream_bits(*final(s)) == stream_bits(
            *old(s),
        ),
{
    s.inner.read_string(Some(n))
}

impl Stream {
    /// A stream over all bits of the bytes, least significant bit of each
    /// byte first.
    pub fn from_bytes(bytes: Vec<u8>) -> (r: Stream)
        ensures
            stream_bits(r) == bytes_bits(bytes@),
    {
        stream_from_bytes(bytes)
    }

    /// Reads `count <= 32` bits as a little-endian unsigned integer.
    pub fn read_sized(&mut self, count: usize) -> (r: Result<u32, ParseError>)
        requires
            count <= 32,
        ensures
            match take_uint(stream_bits(*old(self)), count as nat) {
                Some((v, rest)) => r == Ok::<u32, ParseError>(v as u32) && stream_bits(*final(self))
                    == rest,
                None => r == Err::<u32, ParseError>(ParseError::NotEnoughData)
                    && stream_bits(*final(self)) == stream_bits(*old(self)),
            },
    {
        match read_uint(self, count) {
            Ok(v) => Ok(v),
            Err(e) => Err(read_failure(e)),
        }
    }
}

} // verus!
