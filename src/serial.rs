//! Byte-level encoding and decoding of the protocol's primitive values.
//!
//! Every encodable type describes its wire form with the spec function
//! `wire`, and every decodable type describes how it reads a byte sequence
//! with the spec function `parse`. The executable codecs are proved against
//! those descriptions.
use vstd::prelude::*;

verus! {

/// Why a value could not be read from a byte sequence.
#[derive(Debug, Clone, Copy, PartialEq, Eq, Structural)]
pub enum DecodeError {
    /// The input ended before the value was complete.
    NotEnoughBytes,
    /// The bytes do not form a valid value (an over-long varint, invalid
    /// UTF-8, a string over its bound).
    InvalidData,
}

/// Why bytes could not be produced. Encoding a single value never fails;
/// a whole frame is refused when it would exceed the protocol's limit.
#[derive(Debug, Clone, Copy, PartialEq, Eq, Structural)]
pub enum EncodeError {
    /// The serialized frame would be longer than 2 097 151 bytes.
    FrameTooLarge,
}

/// A growing output buffer.
pub struct Encoder {
    buffer: Vec<u8>,
}

impl View for Encoder {
    type V = Seq<u8>;

    closed spec fn view(&self) -> Seq<u8> {
        self.buffer@
    }
}

impl Encoder {
    /// An encoder with nothing written yet.
    pub fn new() -> (r: Encoder)
        ensures
            r@ == Seq::<u8>::empty(),
    {
        Encoder { buffer: Vec::new() }
    }

    /// Appends one byte.
    pub fn push(&mut self, b: u8)
        ensures
            final(self)@ == old(self)@.push(b),
    {
        self.buffer.push(b);
    }

    /// Appends a byte sequence.
    pub fn extend(&mut self, bytes: &[u8])
        ensures
            final(self)@ == old(self)@ + bytes@,
    {
        let mut i: usize = 0;
        while i < bytes.len()
            invariant
                i <= bytes@.len(),
                self@ == old(self)@ + bytes@.subrange(0, i as int),
            decreases bytes@.len() - i,
        {
            self.push(bytes[i]);
            proof {
                assert(bytes@.subrange(0, i + 1) == bytes@.subrange(0, i as int).push(bytes@[i as int]));
            }
            i = i + 1;
        }
        assert(bytes@.subrange(0, bytes@.len() as int) == bytes@);
    }

    /// The bytes written so far.
    pub fn into_bytes(self) -> (r: Vec<u8>)
        ensures
            r@ == self@,
    {
        self.buffer
    }
}

/// A read cursor over a byte slice.
pub struct Decoder<'a> {
    buffer: &'a [u8],
    offset: usize,
}

impl<'a> Decoder<'a> {
    /// All the bytes the decoder reads from.
    pub closed spec fn data(&self) -> Seq<u8> {
        self.buffer@
    }

    /// How many bytes have been consumed.
    pub closed spec fn pos(&self) -> nat {
        self.offset as nat
    }

    /// The bytes not yet consumed.
    pub open spec fn rest(&self) -> Seq<u8> {
        self.data().skip(self.pos() as int)
    }

    pub open spec fn wf(&self) -> bool {
        self.pos() <= self.data().len()
    }

    /// A decoder at the start of `buffer`.
    pub fn new(buffer: &'a [u8]) -> (r: Decoder<'a>)
        ensures
            r.wf(),
            r.data() == buffer@,
            r.pos() == 0,
    {
        Decoder { buffer, offset: 0 }
    }

    /// The number of bytes not yet consumed.
    pub fn remaining(&self) -> (r: usize)
        requires
            self.wf(),
        ensures
            r == self.rest().len(),
    {
        self.buffer.len() - self.offset
    }

    /// How many bytes have been consumed.
    pub fn offset(&self) -> (r: usize)
        ensures
            r == self.pos(),
    {
        self.offset
    }

    /// Moves the cursor back (or forth) to `pos`.
    pub fn set_offset(&mut self, pos: usize)
        requires
            pos <= old(self).data().len(),
        ensures
            final(self).wf(),
            final(self).data() == old(self).data(),
            final(self).pos() == pos,
    {
        self.offset = pos;
    }

    /// Reads one byte.
    pub fn next_byte(&mut self) -> (r: Result<u8, DecodeError>)
        requires
            old(self).wf(),
        ensures
            final(self).wf(),
            final(self).data() == old(self).data(),
            old(self).rest().len() >= 1 ==> r == Ok::<u8, DecodeError>(old(self).rest()[0])
                && final(self).pos() == old(self).pos() + 1,
            old(self).rest().len() == 0 ==> r == Err::<u8, DecodeError>(
                DecodeError::NotEnoughBytes,
            ) && final(self).pos() == old(self).pos(),
    {
        if self.offset >= self.buffer.len() {
            return Err(DecodeError::NotEnoughBytes);
        }
        let b = self.buffer[self.offset];
        self.offset = self.offset + 1;
        Ok(b)
    }
}

impl<'a> Decoder<'a> {
    /// Reads the next `n` bytes.
    pub fn read_bytes(&mut self, n: usize) -> (r: Result<Vec<u8>, DecodeError>)
        requires
            old(self).wf(),
        ensures
            final(self).wf(),
            final(self).data() == old(self).data(),
            old(self).rest().len() >= n ==> (r matches Ok(v) && v@ == old(self).rest().take(
                n as int,
            ) && final(self).pos() == old(self).pos() + n),
            old(self).rest().len() < n ==> r == Err::<Vec<u8>, DecodeError>(
                DecodeError::NotEnoughBytes,
            ) && final(self).pos() == old(self).pos(),
    {
        if self.remaining() < n {
            return Err(DecodeError::NotEnoughBytes);
        }
        let ghost rest = self.rest();
        let start = self.offset;
        let mut out: Vec<u8> = Vec::new();
        let mut i: usize = 0;
        while i < n
            invariant
                self.wf(),
                self.data() == old(self).data(),
                rest == old(self).rest(),
                rest.len() >= n,
                i <= n,
                start == old(self).pos(),
                self.pos() == old(self).pos() + i,
                self.rest() == rest.skip(i as int),
                out@ == rest.take(i as int),
            decreases n - i,
        {
            let b = match self.next_byte() {
                Ok(b) => b,
                Err(e) => {
                    self.offset = start;
                    return Err(e);
                },
            };
            out.push(b);
            proof {
                assert(rest.take(i + 1) == rest.take(i as int).push(rest[i as int]));
                assert(self.rest() == rest.skip(i + 1));
            }
            i = i + 1;
        }
        Ok(out)
    }
}

/// After a decoder advanced over the same data, what is left is what was
/// left before, less the bytes consumed.
pub proof fn lemma_rest_advance(before: Decoder, after: Decoder)
    requires
        before.wf(),
        after.wf(),
        before.data() == after.data(),
        before.pos() <= after.pos(),
    ensures
        after.rest() == before.rest().skip(after.pos() - before.pos()),
{
    assert(after.rest() == before.rest().skip(after.pos() - before.pos()));
}

/// Dropping the front `a.len()` bytes of `a + b` leaves `b`.
pub proof fn lemma_skip_concat(a: Seq<u8>, b: Seq<u8>)
    ensures
        (a + b).skip(a.len() as int) == b,
{
    assert((a + b).skip(a.len() as int) == b);
}

/// A value with a wire form.
pub trait Encode {
    /// The bytes that encode this value.
    spec fn wire(&self) -> Seq<u8>;

    /// Appends the wire form of `self`.
    fn encode(&self, encoder: &mut Encoder) -> (r: Result<(), EncodeError>)
        ensures
            r is Ok,
            final(encoder)@ == old(encoder)@ + self.wire(),
    ;
}

/// A value that can be read from its wire form.
pub trait Decode: Sized + View {
    /// The view of the value at the front of `bytes` and how many bytes it
    /// takes, or why there is none.
    spec fn parse(bytes: Seq<u8>) -> Result<(Self::V, nat), DecodeError>;

    /// Reads a value at the decoder's position, advancing past it.
    fn decode(decoder: &mut Decoder) -> (r: Result<Self, DecodeError>)
        requires
            old(decoder).wf(),
        ensures
            final(decoder).wf(),
            final(decoder).data() == old(decoder).data(),
            decoded(Self::parse(old(decoder).rest()), r, old(decoder).pos(), final(decoder).pos()),
    ;
}

/// `r` is what `parsed` describes: on success the cursor moved from
/// `before` past the value to `after`; on failure it stayed.
pub open spec fn decoded<T: View>(
    parsed: Result<(T::V, nat), DecodeError>,
    r: Result<T, DecodeError>,
    before: nat,
    after: nat,
) -> bool {
    match parsed {
        Ok((v, n)) => r matches Ok(x) && x@ == v && after == before + n,
        Err(e) => r == Err::<T, DecodeError>(e) && after == before,
    }
}

/// The wire form of `value`.
pub fn encode_to_vec<E: Encode>(value: &E) -> (r: Result<Vec<u8>, EncodeError>)
    ensures
        r matches Ok(bytes) && bytes@ == value.wire(),
{
    let mut encoder = Encoder::new();
    let res = value.encode(&mut encoder);
    match res {
        Ok(()) => {},
        Err(e) => {
            return Err(e);
        },
    }
    assert(encoder@ == value.wire());
    Ok(encoder.into_bytes())
}

/// Reads a value from the front of `buffer`, with the number of bytes read.
pub fn decode_from_slice<R: Decode>(buffer: &[u8]) -> (r: Result<(R, usize), DecodeError>)
    ensures
        match R::parse(buffer@) {
            Ok((v, n)) => r matches Ok((w, m)) && w@ == v && m == n,
            Err(e) => r == Err::<(R, usize), DecodeError>(e),
        },
{
    let mut decoder = Decoder::new(buffer);
    assert(decoder.rest() == buffer@);
    let value = R::decode(&mut decoder);
    match value {
        Ok(v) => Ok((v, decoder.offset())),
        Err(e) => Err(e),
    }
}

// ---------------------------------------------------------------------------
// Fixed-width integers, big-endian.
// ---------------------------------------------------------------------------

pub open spec fn be16(x: u16) -> Seq<u8> {
    seq![(x >> 8u16) as u8, x as u8]
}

pub open spec fn from_be16(b: Seq<u8>) -> u16 {
    ((b[0] as u16) << 8u16) | (b[1] as u16)
}

pub open spec fn be32(x: u32) -> Seq<u8> {
    seq![(x >> 24u32) as u8, (x >> 16u32) as u8, (x >> 8u32) as u8, x as u8]
}

pub open spec fn from_be32(b: Seq<u8>) -> u32 {
    ((b[0] as u32) << 24u32) | ((b[1] as u32) << 16u32) | ((b[2] as u32) << 8u32) | (
    b[3] as u32)
}

pub open spec fn be64(x: u64) -> Seq<u8> {
    seq![
        (x >> 56u64) as u8,
        (x >> 48u64) as u8,
        (x >> 40u64) as u8,
        (x >> 32u64) as u8,
        (x >> 24u64) as u8,
        (x >> 16u64) as u8,
        (x >> 8u64) as u8,
        x as u8,
    ]
}

pub open spec fn from_be64(b: Seq<u8>) -> u64 {
    ((b[0] as u64) << 56u64) | ((b[1] as u64) << 48u64) | ((b[2] as u64) << 40u64) | ((
    b[3] as u64) << 32u64) | ((b[4] as u64) << 24u64) | ((b[5] as u64) << 16u64) | ((
    b[6] as u64) << 8u64) | (b[7] as u64)
}

impl Encode for u8 {
    open spec fn wire(&self) -> Seq<u8> {
        seq![*self]
    }

    fn encode(&self, encoder: &mut Encoder) -> (r: Result<(), EncodeError>) {
        encoder.push(*self);
        Ok(())
    }
}

impl Decode for u8 {
    open spec fn parse(bytes: Seq<u8>) -> Result<(u8, nat), DecodeError> {
        if bytes.len() >= 1 {
            Ok((bytes[0], 1))
        } else {
            Err(DecodeError::NotEnoughBytes)
        }
    }

    fn decode(decoder: &mut Decoder) -> (r: Result<u8, DecodeError>) {
        decoder.next_byte()
    }
}

impl Encode for u16 {
    open spec fn wire(&self) -> Seq<u8> {
        be16(*self)
    }

    fn encode(&self, encoder: &mut Encoder) -> (r: Result<(), EncodeError>) {
        encoder.push((*self >> 8u16) as u8);
        encoder.push(*self as u8);
        assert(encoder@ == old(encoder)@ + be16(*self));
        Ok(())
    }
}

impl Decode for u16 {
    open spec fn parse(bytes: Seq<u8>) -> Result<(u16, nat), DecodeError> {
        if bytes.len() >= 2 {
            Ok((from_be16(bytes), 2))
        } else {
            Err(DecodeError::NotEnoughBytes)
        }
    }

    fn decode(decoder: &mut Decoder) -> (r: Result<u16, DecodeError>) {
        if decoder.remaining() < 2 {
            return Err(DecodeError::NotEnoughBytes);
        }
        let b0 = decoder.next_byte();
        let b1 = decoder.next_byte();
        match (b0, b1) {
            (Ok(b0), Ok(b1)) => Ok(((b0 as u16) << 8u16) | (b1 as u16)),
            _ => Err(DecodeError::NotEnoughBytes),
        }
    }
}

impl Encode for u32 {
    open spec fn wire(&self) -> Seq<u8> {
        be32(*self)
    }

    fn encode(&self, encoder: &mut Encoder) -> (r: Result<(), EncodeError>) {
        let x = *self;
        encoder.push((x >> 24u32) as u8);
        encoder.push((x >> 16u32) as u8);
        encoder.push((x >> 8u32) as u8);
        encoder.push(x as u8);
        assert(encoder@ == old(encoder)@ + be32(x));
        Ok(())
    }
}

impl Decode for u32 {
    open spec fn parse(bytes: Seq<u8>) -> Result<(u32, nat), DecodeError> {
        if bytes.len() >= 4 {
            Ok((from_be32(bytes), 4))
        } else {
            Err(DecodeError::NotEnoughBytes)
        }
    }

    fn decode(decoder: &mut Decoder) -> (r: Result<u32, DecodeError>) {
        if decoder.remaining() < 4 {
            return Err(DecodeError::NotEnoughBytes);
        }
        let b0 = decoder.next_byte();
        let b1 = decoder.next_byte();
        let b2 = decoder.next_byte();
        let b3 = decoder.next_byte();
        match (b0, b1, b2, b3) {
            (Ok(b0), Ok(b1), Ok(b2), Ok(b3)) => Ok(((b0 as u32) << 24u32) | ((b1 as u32) << 16u32)
                | ((b2 as u32) << 8u32) | (b3 as u32)),
            _ => Err(DecodeError::NotEnoughBytes),
        }
    }
}

impl Encode for u64 {
    open spec fn wire(&self) -> Seq<u8> {
        be64(*self)
    }

    fn encode(&self, encoder: &mut Encoder) -> (r: Result<(), EncodeError>) {
        let x = *self;
        encoder.push((x >> 56u64) as u8);
        encoder.push((x >> 48u64) as u8);
        encoder.push((x >> 40u64) as u8);
        encoder.push((x >> 32u64) as u8);
        encoder.push((x >> 24u64) as u8);
        encoder.push((x >> 16u64) as u8);
        encoder.push((x >> 8u64) as u8);
        encoder.push(x as u8);
        assert(encoder@ == old(encoder)@ + be64(x));
        Ok(())
    }
}

impl Decode for u64 {
    open spec fn parse(bytes: Seq<u8>) -> Result<(u64, nat), DecodeError> {
        if bytes.len() >= 8 {
            Ok((from_be64(bytes), 8))
        } else {
            Err(DecodeError::NotEnoughBytes)
        }
    }

    fn decode(decoder: &mut Decoder) -> (r: Result<u64, DecodeError>) {
        if decoder.remaining() < 8 {
            return Err(DecodeError::NotEnoughBytes);
        }
        let b0 = decoder.next_byte();
        let b1 = decoder.next_byte();
        let b2 = decoder.next_byte();
        let b3 = decoder.next_byte();
        let b4 = decoder.next_byte();
        let b5 = decoder.next_byte();
        let b6 = decoder.next_byte();
        let b7 = decoder.next_byte();
        match (b0, b1, b2, b3, b4, b5, b6, b7) {
            (Ok(b0), Ok(b1), Ok(b2), Ok(b3), Ok(b4), Ok(b5), Ok(b6), Ok(b7)) => Ok(((b0 as u64)
                << 56u64) | ((b1 as u64) << 48u64) | ((b2 as u64) << 40u64) | ((b3 as u64)
                << 32u64) | ((b4 as u64) << 24u64) | ((b5 as u64) << 16u64) | ((b6 as u64)
                << 8u64) | (b7 as u64)),
            _ => Err(DecodeError::NotEnoughBytes),
        }
    }
}

impl Encode for i8 {
    open spec fn wire(&self) -> Seq<u8> {
        seq![*self as u8]
    }

    fn encode(&self, encoder: &mut Encoder) -> (r: Result<(), EncodeError>) {
        (*self as u8).encode(encoder)
    }
}

impl Decode for i8 {
    open spec fn parse(bytes: Seq<u8>) -> Result<(i8, nat), DecodeError> {
        match <u8 as Decode>::parse(bytes) {
            Ok((v, n)) => Ok((v as i8, n)),
            Err(e) => Err(e),
        }
    }

    fn decode(decoder: &mut Decoder) -> (r: Result<i8, DecodeError>) {
        match <u8 as Decode>::decode(decoder) {
            Ok(v) => Ok(v as i8),
            Err(e) => Err(e),
        }
    }
}

impl Encode for i16 {
    open spec fn wire(&self) -> Seq<u8> {
        be16(*self as u16)
    }

    fn encode(&self, encoder: &mut Encoder) -> (r: Result<(), EncodeError>) {
        (*self as u16).encode(encoder)
    }
}

impl Decode for i16 {
    open spec fn parse(bytes: Seq<u8>) -> Result<(i16, nat), DecodeError> {
        match <u16 as Decode>::parse(bytes) {
            Ok((v, n)) => Ok((v as i16, n)),
            Err(e) => Err(e),
        }
    }

    fn decode(decoder: &mut Decoder) -> (r: Result<i16, DecodeError>) {
        match <u16 as Decode>::decode(decoder) {
            Ok(v) => Ok(v as i16),
            Err(e) => Err(e),
        }
    }
}

impl Encode for i32 {
    open spec fn wire(&self) -> Seq<u8> {
        be32(*self as u32)
    }

    fn encode(&self, encoder: &mut Encoder) -> (r: Result<(), EncodeError>) {
        (*self as u32).encode(encoder)
    }
}

impl Decode for i32 {
    open spec fn parse(bytes: Seq<u8>) -> Result<(i32, nat), DecodeError> {
        match <u32 as Decode>::parse(bytes) {
            Ok((v, n)) => Ok((v as i32, n)),
            Err(e) => Err(e),
        }
    }

    fn decode(decoder: &mut Decoder) -> (r: Result<i32, DecodeError>) {
        match <u32 as Decode>::decode(decoder) {
            Ok(v) => Ok(v as i32),
            Err(e) => Err(e),
        }
    }
}

impl Encode for i64 {
    open spec fn wire(&self) -> Seq<u8> {
        be64(*self as u64)
    }

    fn encode(&self, encoder: &mut Encoder) -> (r: Result<(), EncodeError>) {
        (*self as u64).encode(encoder)
    }
}

impl Decode for i64 {
    open spec fn parse(bytes: Seq<u8>) -> Result<(i64, nat), DecodeError> {
        match <u64 as Decode>::parse(bytes) {
            Ok((v, n)) => Ok((v as i64, n)),
            Err(e) => Err(e),
        }
    }

    fn decode(decoder: &mut Decoder) -> (r: Result<i64, DecodeError>) {
        match <u64 as Decode>::decode(decoder) {
            Ok(v) => Ok(v as i64),
            Err(e) => Err(e),
        }
    }
}

impl Encode for bool {
    open spec fn wire(&self) -> Seq<u8> {
        seq![if *self { 1u8 } else { 0u8 }]
    }

    fn encode(&self, encoder: &mut Encoder) -> (r: Result<(), EncodeError>) {
        encoder.push(if *self { 1u8 } else { 0u8 });
        Ok(())
    }
}

impl Decode for bool {
    open spec fn parse(bytes: Seq<u8>) -> Result<(bool, nat), DecodeError> {
        match <u8 as Decode>::parse(bytes) {
            Ok((v, n)) => Ok((v != 0, n)),
            Err(e) => Err(e),
        }
    }

    fn decode(decoder: &mut Decoder) -> (r: Result<bool, DecodeError>) {
        match <u8 as Decode>::decode(decoder) {
            Ok(v) => Ok(v != 0),
            Err(e) => Err(e),
        }
    }
}

// ---------------------------------------------------------------------------
// Round trips of the fixed-width integers.
// ---------------------------------------------------------------------------

/// A `u8` reads back from its wire form, whatever follows it.
pub proof fn lemma_u8_round_trip(x: u8, rest: Seq<u8>)
    ensures
        <u8 as Decode>::parse(x.wire() + rest) == Ok::<(u8, nat), DecodeError>((x, x.wire().len())),
{
    assert((x.wire() + rest)[0] == x);
}

/// A `u16` reads back from its wire form, whatever follows it.
pub proof fn lemma_u16_round_trip(x: u16, rest: Seq<u8>)
    ensures
        <u16 as Decode>::parse(x.wire() + rest) == Ok::<(u16, nat), DecodeError>((x, x.wire().len())),
{
    let b = x.wire() + rest;
    assert(b[0] == (x >> 8u16) as u8 && b[1] == x as u8);
    assert((((x >> 8u16) as u8 as u16) << 8u16) | (x as u8 as u16) == x) by (bit_vector);
}

/// A `u64` reads back from its wire form, whatever follows it.
pub proof fn lemma_u64_round_trip(x: u64, rest: Seq<u8>)
    ensures
        <u64 as Decode>::parse(x.wire() + rest) == Ok::<(u64, nat), DecodeError>((x, x.wire().len())),
{
    let b = x.wire() + rest;
    assert(b[0] == (x >> 56u64) as u8 && b[1] == (x >> 48u64) as u8 && b[2] == (x >> 40u64) as u8
        && b[3] == (x >> 32u64) as u8 && b[4] == (x >> 24u64) as u8 && b[5] == (x >> 16u64) as u8
        && b[6] == (x >> 8u64) as u8 && b[7] == x as u8);
    assert(((((x >> 56u64) as u8) as u64) << 56u64) | ((((x >> 48u64) as u8) as u64) << 48u64) | ((
    ((x >> 40u64) as u8) as u64) << 40u64) | ((((x >> 32u64) as u8) as u64) << 32u64) | ((((x
        >> 24u64) as u8) as u64) << 24u64) | ((((x >> 16u64) as u8) as u64) << 16u64) | ((((x
        >> 8u64) as u8) as u64) << 8u64) | ((x as u8) as u64) == x) by (bit_vector);
}

/// An `i64` reads back from its wire form, whatever follows it.
pub proof fn lemma_i64_round_trip(x: i64, rest: Seq<u8>)
    ensures
        <i64 as Decode>::parse(x.wire() + rest) == Ok::<(i64, nat), DecodeError>((x, x.wire().len())),
{
    lemma_u64_round_trip(x as u64, rest);
    assert((x as u64) as i64 == x) by (bit_vector);
}

} // verus!
