//! Frames: the length-prefixed regions that carry one packet each, with the
//! optional zlib envelope, and the assembly of frames from a byte stream.
use vstd::prelude::*;
use vstd::slice::{slice_subrange, slice_to_vec};
use std::io::{Read, Write};
use crate::serial::{Decode, DecodeError, Decoder, Encode, EncodeError, Encoder, lemma_rest_advance};
use crate::varint::{lemma_varint_round_trip, lemma_varint_wire_len, v32, varint_parse, varint_parse_from, varint_size, varint_wire};

verus! {

/// The largest serialized frame the protocol carries: 2^21 - 1 bytes.
pub const MAX_FRAME_SIZE: usize = 2097151;

/// The zlib stream that flate2 produces for `data` at compression `level`.
pub uninterp spec fn zlib_compressed(data: Seq<u8>, level: u32) -> Seq<u8>;

/// What flate2 inflates the zlib stream `data` to, or `None` where it is
/// not a valid stream.
pub uninterp spec fn zlib_decompressed(data: Seq<u8>) -> Option<Seq<u8>>;

/// Relies on flate2's `ZlibEncoder` over a `Vec`: writing `data` and
/// finishing yields the zlib stream of `data` at `level`, which depends on
/// them alone. Writing to a `Vec` does not fail. Only zlib's levels 0 to 9
/// are admitted: the backend debug-asserts on levels above 10 and maps an
/// unknown level to 1.
#[verifier::external_body]
fn zlib_compress(data: &[u8], level: u32) -> (r: Vec<u8>)
    requires
        level <= 9,
    ensures
        r@ == zlib_compressed(data@, level),
{
    let mut encoder = flate2::write::ZlibEncoder::new(Vec::new(), flate2::Compression::new(level));
    encoder.write_all(data).unwrap();
    encoder.finish().unwrap()
}

/// Relies on flate2's `ZlibDecoder` over a slice: reading it to the end
/// yields the inflated bytes, or an error where `data` is not a valid zlib
/// stream.
#[verifier::external_body]
fn zlib_decompress(data: &[u8]) -> (r: Option<Vec<u8>>)
    ensures
        r matches Some(v) ==> zlib_decompressed(data@) == Some(v@),
        r is None ==> zlib_decompressed(data@) is None,
{
    let mut out = Vec::new();
    match flate2::read::ZlibDecoder::new(data).read_to_end(&mut out) {
        Ok(_) => Some(out),
        Err(_) => None,
    }
}

/// A packet as it travels inside a frame: its id and its body bytes.
#[derive(Debug, Clone, PartialEq, Eq)]
pub struct RawPacket {
    pub id: u8,
    pub data: Vec<u8>,
}

impl View for RawPacket {
    type V = (u8, Seq<u8>);

    open spec fn view(&self) -> (u8, Seq<u8>) {
        (self.id, self.data@)
    }
}

/// The id followed by the body: what the frame length counts.
pub open spec fn payload_of(id: u8, data: Seq<u8>) -> Seq<u8> {
    seq![id] + data
}

/// An uncompressed frame: the payload's length as a varint, then the payload.
pub open spec fn plain_frame(payload: Seq<u8>) -> Seq<u8> {
    varint_wire(payload.len() as u32) + payload
}

/// Splits a payload into its id and its body.
pub open spec fn split_payload_spec(p: Seq<u8>) -> Result<(u8, Seq<u8>), DecodeError> {
    if p.len() == 0 {
        Err(DecodeError::InvalidData)
    } else {
        Ok((p[0], p.skip(1)))
    }
}

impl Encode for RawPacket {
    open spec fn wire(&self) -> Seq<u8> {
        plain_frame(payload_of(self.id, self.data@))
    }

    fn encode(&self, encoder: &mut Encoder) -> (r: Result<(), EncodeError>) {
        #[verifier::truncate]
        let len = (self.data.len() as u128 + 1) as u32;
        let _ = v32::new(len).encode(encoder);
        encoder.push(self.id);
        encoder.extend(self.data.as_slice());
        assert(encoder@ == old(encoder)@ + self.wire());
        Ok(())
    }
}

impl Decode for RawPacket {
    open spec fn parse(b: Seq<u8>) -> Result<((u8, Seq<u8>), nat), DecodeError> {
        match varint_parse(b) {
            Err(e) => Err(e),
            Ok((n, k)) => if n == 0 {
                Err(DecodeError::InvalidData)
            } else if b.len() < k + n {
                Err(DecodeError::NotEnoughBytes)
            } else {
                Ok(((b[k as int], b.subrange(k + 1int, k + n)), (k + n) as nat))
            },
        }
    }

    fn decode(decoder: &mut Decoder) -> (r: Result<RawPacket, DecodeError>) {
        let start = decoder.offset();
        let ghost d0 = *decoder;
        let len = match v32::decode(decoder) {
            Ok(v) => v.value(),
            Err(e) => {
                decoder.set_offset(start);
                return Err(e);
            },
        };
        if len == 0 {
            decoder.set_offset(start);
            return Err(DecodeError::InvalidData);
        }
        proof {
            lemma_rest_advance(d0, *decoder);
        }
        if decoder.remaining() < len as usize {
            decoder.set_offset(start);
            return Err(DecodeError::NotEnoughBytes);
        }
        let ghost d1 = *decoder;
        let id = match decoder.next_byte() {
            Ok(b) => b,
            Err(e) => {
                decoder.set_offset(start);
                return Err(e);
            },
        };
        proof {
            lemma_rest_advance(d1, *decoder);
        }
        let data = match decoder.read_bytes((len - 1) as usize) {
            Ok(v) => v,
            Err(e) => {
                decoder.set_offset(start);
                return Err(e);
            },
        };
        proof {
            let k = d1.pos() - d0.pos();
            assert(data@ == d0.rest().subrange(k + 1, k + len));
        }
        Ok(RawPacket { id, data })
    }
}

/// A raw packet within a frame reads back from its wire form.
pub proof fn lemma_raw_packet_round_trip(p: RawPacket, rest: Seq<u8>)
    requires
        p.data@.len() < u32::MAX,
    ensures
        RawPacket::parse(p.wire() + rest) == Ok::<((u8, Seq<u8>), nat), DecodeError>(
            (p@, p.wire().len()),
        ),
{
    let payload = payload_of(p.id, p.data@);
    let n = payload.len() as u32;
    let b = p.wire() + rest;
    assert(b == varint_wire(n) + (payload + rest));
    lemma_varint_round_trip(n, payload + rest);
    let k = varint_wire(n).len();
    assert(b[k as int] == p.id);
    assert(b.subrange(k + 1int, k + n) == p.data@);
}

// ---------------------------------------------------------------------------
// The send path.
// ---------------------------------------------------------------------------

/// Compression as the peer was told of it.
#[derive(Debug, Clone, Copy, PartialEq, Eq, Structural)]
pub struct CompressionSettings {
    /// Payloads longer than this many bytes are offered to zlib.
    pub threshold: u32,
    /// The zlib level, 0 to 9.
    pub level: u32,
}

/// The frame that carries `payload`. Without compression it is the plain
/// frame. With it, the payload is preceded by its own length and replaced by
/// `deflated` where that is given and shorter, and by a zero length where
/// it is kept raw; a varint of the envelope's length comes first.
pub open spec fn sealed(payload: Seq<u8>, compression: bool, deflated: Option<Seq<u8>>) -> Seq<u8> {
    if !compression {
        plain_frame(payload)
    } else {
        let inner = match deflated {
            Some(c) => if c.len() < payload.len() {
                varint_wire(payload.len() as u32) + c
            } else {
                varint_wire(0) + payload
            },
            None => varint_wire(0) + payload,
        };
        varint_wire(inner.len() as u32) + inner
    }
}

/// The zlib stream offered for `payload`: only with compression on and a
/// payload over the threshold.
pub open spec fn offered(payload: Seq<u8>, compression: Option<CompressionSettings>) -> Option<Seq<u8>> {
    match compression {
        Some(c) => if payload.len() > c.threshold {
            Some(zlib_compressed(payload, c.level))
        } else {
            None
        },
        None => None,
    }
}

/// The bytes that carry packet `id` with body `data`.
pub open spec fn frame_of(id: u8, data: Seq<u8>, compression: Option<CompressionSettings>) -> Seq<u8> {
    let payload = payload_of(id, data);
    sealed(payload, compression is Some, offered(payload, compression))
}

/// `bytes` as the result of framing, refused where over the protocol's limit.
pub open spec fn within_limit(bytes: Seq<u8>) -> Result<Seq<u8>, EncodeError> {
    if bytes.len() > MAX_FRAME_SIZE {
        Err(EncodeError::FrameTooLarge)
    } else {
        Ok(bytes)
    }
}

/// Seals `payload` into a frame, with `deflated` as its zlib stream where
/// one was made; refuses a frame over 2 097 151 bytes.
pub fn seal_frame(payload: &[u8], compression: bool, deflated: Option<Vec<u8>>) -> (r: Result<Vec<u8>, EncodeError>)
    ensures
        match within_limit(sealed(payload@, compression, option_seq(deflated))) {
            Ok(b) => r matches Ok(v) && v@ == b,
            Err(e) => r == Err::<Vec<u8>, EncodeError>(e),
        },
{
    let mut out = Encoder::new();
    #[verifier::truncate]
    let len = payload.len() as u32;
    if !compression {
        let _ = v32::new(len).encode(&mut out);
        out.extend(payload);
    } else {
        let mut inner = Encoder::new();
        let use_deflated = match &deflated {
            Some(c) => c.len() < payload.len(),
            None => false,
        };
        match deflated {
            Some(c) if use_deflated => {
                let _ = v32::new(len).encode(&mut inner);
                inner.extend(c.as_slice());
            },
            _ => {
                let _ = v32::new(0).encode(&mut inner);
                inner.extend(payload);
            },
        }
        let inner = inner.into_bytes();
        #[verifier::truncate]
        let inner_len = inner.len() as u32;
        let _ = v32::new(inner_len).encode(&mut out);
        out.extend(inner.as_slice());
    }
    let out = out.into_bytes();
    if out.len() > MAX_FRAME_SIZE {
        Err(EncodeError::FrameTooLarge)
    } else {
        Ok(out)
    }
}

/// The contents of an optional byte vector.
pub open spec fn option_seq(v: Option<Vec<u8>>) -> Option<Seq<u8>> {
    match v {
        Some(v) => Some(v@),
        None => None,
    }
}

/// Frames packet `id` with body `data`, compressed as `compression` says;
/// refuses a frame over 2 097 151 bytes.
pub fn frame_packet(id: u8, data: &[u8], compression: Option<CompressionSettings>) -> (r: Result<Vec<u8>, EncodeError>)
    requires
        compression matches Some(c) ==> c.level <= 9,
    ensures
        match within_limit(frame_of(id, data@, compression)) {
            Ok(b) => r matches Ok(v) && v@ == b,
            Err(e) => r == Err::<Vec<u8>, EncodeError>(e),
        },
{
    let mut payload: Vec<u8> = Vec::new();
    payload.push(id);
    let mut i: usize = 0;
    while i < data.len()
        invariant
            i <= data@.len(),
            payload@ == payload_of(id, data@.subrange(0, i as int)),
        decreases data@.len() - i,
    {
        payload.push(data[i]);
        proof {
            assert(data@.subrange(0, i + 1) == data@.subrange(0, i as int).push(data@[i as int]));
        }
        i = i + 1;
    }
    assert(data@.subrange(0, data@.len() as int) == data@);
    let deflated = match compression {
        Some(c) => if payload.len() > c.threshold as usize {
            Some(zlib_compress(payload.as_slice(), c.level))
        } else {
            None
        },
        None => None,
    };
    assert(option_seq(deflated) == offered(payload@, compression));
    seal_frame(payload.as_slice(), compression.is_some(), deflated)
}

/// With compression on, a payload no longer than the threshold travels raw:
/// a zero uncompressed length, then the payload, behind the envelope's
/// length.
pub proof fn lemma_small_payload_raw(id: u8, data: Seq<u8>, c: CompressionSettings)
    requires
        payload_of(id, data).len() <= c.threshold,
    ensures
        frame_of(id, data, Some(c)) == varint_wire((1 + payload_of(id, data).len()) as u32) + (seq![0u8]
            + payload_of(id, data)),
{
    reveal_with_fuel(varint_wire, 2);
    assert(varint_wire(0) == seq![0u8]);
}

/// With compression on, a payload no longer than the threshold, whose frame
/// fits the limit, is sent as exactly that raw envelope.
pub proof fn lemma_small_payload_sent(id: u8, data: Seq<u8>, c: CompressionSettings)
    requires
        payload_of(id, data).len() <= c.threshold,
        payload_of(id, data).len() + 4 <= MAX_FRAME_SIZE,
    ensures
        within_limit(frame_of(id, data, Some(c))) == Ok::<Seq<u8>, EncodeError>(
            varint_wire((1 + payload_of(id, data).len()) as u32) + (seq![0u8] + payload_of(id, data)),
        ),
{
    lemma_small_payload_raw(id, data, c);
    let n = (1 + payload_of(id, data).len()) as u32;
    lemma_varint_wire_len(n);
}

// ---------------------------------------------------------------------------
// The receive path.
// ---------------------------------------------------------------------------

/// Where the first frame of `buffer` lies: `Ok(Some((start, end)))` for
/// its body `buffer[start..end]`, `Ok(None)` while it is incomplete, and an
/// error where its length prefix is not a varint.
pub open spec fn frame_bounds(buffer: Seq<u8>) -> Result<Option<(nat, nat)>, DecodeError> {
    match varint_parse(buffer) {
        Err(DecodeError::NotEnoughBytes) => Ok(None),
        Err(e) => Err(e),
        Ok((n, k)) => if buffer.len() < k + n {
            Ok(None)
        } else {
            Ok(Some((k, (k + n) as nat)))
        },
    }
}

/// Finds the first frame of `buffer`.
pub fn split_frame(buffer: &[u8]) -> (r: Result<Option<(usize, usize)>, DecodeError>)
    ensures
        match frame_bounds(buffer@) {
            Ok(Some((s, e))) => r matches Ok(Some((a, b))) && a == s && b == e,
            Ok(None) => r matches Ok(None),
            Err(e) => r == Err::<Option<(usize, usize)>, DecodeError>(e),
        },
{
    let mut decoder = Decoder::new(buffer);
    assert(decoder.rest() == buffer@);
    match v32::decode(&mut decoder) {
        Err(DecodeError::NotEnoughBytes) => Ok(None),
        Err(e) => Err(e),
        Ok(n) => {
            let start = decoder.offset();
            let n = n.value() as usize;
            if buffer.len() - start < n {
                Ok(None)
            } else {
                Ok(Some((start, start + n)))
            }
        },
    }
}

/// Bytes received and not yet taken out as frames.
pub struct FrameReader {
    buffer: Vec<u8>,
}

impl View for FrameReader {
    type V = Seq<u8>;

    closed spec fn view(&self) -> Seq<u8> {
        self.buffer@
    }
}

impl FrameReader {
    /// A reader holding nothing.
    pub fn new() -> (r: FrameReader)
        ensures
            r@ == Seq::<u8>::empty(),
    {
        FrameReader { buffer: Vec::new() }
    }

    /// Appends received bytes.
    pub fn feed(&mut self, bytes: &[u8])
        ensures
            final(self)@ == old(self)@ + bytes@,
    {
        let mut i: usize = 0;
        while i < bytes.len()
            invariant
                i <= bytes@.len(),
                self@ == old(self)@ + bytes@.subrange(0, i as int),
            decreases bytes@.len() - i,
        {
            self.buffer.push(bytes[i]);
            proof {
                assert(bytes@.subrange(0, i + 1) == bytes@.subrange(0, i as int).push(bytes@[i as int]));
            }
            i = i + 1;
        }
        assert(bytes@.subrange(0, bytes@.len() as int) == bytes@);
    }

    /// Takes out the body of the first complete frame, if there is one.
    pub fn next_frame(&mut self) -> (r: Result<Option<Vec<u8>>, DecodeError>)
        ensures
            match frame_bounds(old(self)@) {
                Ok(Some((s, e))) => (r matches Ok(Some(f)) && f@ == old(self)@.subrange(s as int, e as int))
                    && final(self)@ == old(self)@.skip(e as int),
                Ok(None) => r matches Ok(None) && final(self)@ == old(self)@,
                Err(e) => r == Err::<Option<Vec<u8>>, DecodeError>(e) && final(self)@ == old(self)@,
            },
    {
        match split_frame(self.buffer.as_slice()) {
            Ok(Some((start, end))) => {
                let body = slice_to_vec(slice_subrange(self.buffer.as_slice(), start, end));
                let rest = slice_to_vec(slice_subrange(self.buffer.as_slice(), end, self.buffer.len()));
                self.buffer = rest;
                Ok(Some(body))
            },
            Ok(None) => Ok(None),
            Err(e) => Err(e),
        }
    }
}

/// Splits the payload at the front of a frame into id and body.
pub fn split_payload(payload: &[u8]) -> (r: Result<RawPacket, DecodeError>)
    ensures
        match split_payload_spec(payload@) {
            Ok((id, data)) => r matches Ok(p) && p.id == id && p.data@ == data,
            Err(e) => r == Err::<RawPacket, DecodeError>(e),
        },
{
    if payload.len() == 0 {
        return Err(DecodeError::InvalidData);
    }
    let data = slice_to_vec(slice_subrange(payload, 1, payload.len()));
    Ok(RawPacket { id: payload[0], data })
}

/// What an inflated payload holds: it must have exactly `expected` bytes.
pub open spec fn inflated_spec(inflated: Option<Seq<u8>>, expected: u32) -> Result<(u8, Seq<u8>), DecodeError> {
    match inflated {
        None => Err(DecodeError::InvalidData),
        Some(d) => if d.len() != expected {
            Err(DecodeError::InvalidData)
        } else {
            split_payload_spec(d)
        },
    }
}

/// Checks an inflated payload against the length the frame announced, and
/// splits it.
pub fn unpack_inflated(inflated: Option<Vec<u8>>, expected: u32) -> (r: Result<RawPacket, DecodeError>)
    ensures
        match inflated_spec(option_seq(inflated), expected) {
            Ok((id, data)) => r matches Ok(p) && p.id == id && p.data@ == data,
            Err(e) => r == Err::<RawPacket, DecodeError>(e),
        },
{
    match inflated {
        None => Err(DecodeError::InvalidData),
        Some(d) => if d.len() != expected as usize {
            Err(DecodeError::InvalidData)
        } else {
            split_payload(d.as_slice())
        },
    }
}

/// The id and body that a frame body carries.
pub open spec fn frame_contents(frame: Seq<u8>, compressed: bool) -> Result<(u8, Seq<u8>), DecodeError> {
    if !compressed {
        split_payload_spec(frame)
    } else {
        match varint_parse(frame) {
            Err(e) => Err(e),
            Ok((u, k)) => if u == 0 {
                split_payload_spec(frame.skip(k as int))
            } else {
                inflated_spec(zlib_decompressed(frame.skip(k as int)), u)
            },
        }
    }
}

/// Opens a frame body: splits off the id, after undoing the compression
/// envelope where compression is on.
pub fn open_frame(frame: &[u8], compressed: bool) -> (r: Result<RawPacket, DecodeError>)
    ensures
        match frame_contents(frame@, compressed) {
            Ok((id, data)) => r matches Ok(p) && p.id == id && p.data@ == data,
            Err(e) => r == Err::<RawPacket, DecodeError>(e),
        },
{
    if !compressed {
        return split_payload(frame);
    }
    let mut decoder = Decoder::new(frame);
    assert(decoder.rest() == frame@);
    let u = match v32::decode(&mut decoder) {
        Ok(u) => u.value(),
        Err(e) => {
            return Err(e);
        },
    };
    let start = decoder.offset();
    let rest = slice_subrange(frame, start, frame.len());
    if u == 0 {
        split_payload(rest)
    } else {
        unpack_inflated(zlib_decompress(rest), u)
    }
}

// ---------------------------------------------------------------------------
// Frame assembly.
// ---------------------------------------------------------------------------

/// Reading a varint from bytes that all carry the continuation flag, and
/// that are fewer than five, runs out of input.
proof fn lemma_parse_runs_out(bytes: Seq<u8>, k: nat, acc: u32)
    requires
        bytes.len() < 5,
        k <= bytes.len(),
        forall|i: int| k <= i < bytes.len() ==> #[trigger] bytes[i] & 0x80 != 0,
    ensures
        varint_parse_from(bytes, k, acc) == Err::<(u32, nat), DecodeError>(DecodeError::NotEnoughBytes),
    decreases bytes.len() - k,
{
    if k < bytes.len() {
        let b = bytes[k as int];
        lemma_parse_runs_out(bytes, k + 1, acc | (((b & 0x7f) as u32) << ((7 * k) as u32)));
    }
}

/// Every byte of a varint's wire form but the last carries the continuation
/// flag.
proof fn lemma_varint_continuation(v: u32, i: int)
    requires
        0 <= i < varint_size(v) - 1,
    ensures
        varint_wire(v)[i] & 0x80 != 0,
    decreases v,
{
    lemma_varint_wire_len(v);
    lemma_varint_wire_len(v / 128);
    if i == 0 {
        let b = (v % 128 + 128) as u8;
        assert(b & 0x80 != 0) by (bit_vector)
            requires
                b == (v % 128 + 128) as u8,
        ;
    } else {
        lemma_varint_continuation(v / 128, i - 1);
    }
}

/// A proper prefix of a frame is not yet a frame: the reader waits.
pub proof fn lemma_frame_prefix_incomplete(payload: Seq<u8>, n: nat)
    requires
        payload.len() <= MAX_FRAME_SIZE,
        n < plain_frame(payload).len(),
    ensures
        frame_bounds(plain_frame(payload).take(n as int)) == Ok::<Option<(nat, nat)>, DecodeError>(None),
{
    let f = plain_frame(payload);
    let len = payload.len() as u32;
    let p = f.take(n as int);
    lemma_varint_round_trip(len, payload);
    let k = varint_size(len);
    if n < k {
        assert forall|i: int| 0 <= i < p.len() implies #[trigger] p[i] & 0x80 != 0 by {
            lemma_varint_continuation(len, i);
        }
        lemma_parse_runs_out(p, 0, 0);
    } else {
        assert(p == varint_wire(len) + payload.take(n - k));
        lemma_varint_round_trip(len, payload.take(n - k));
    }
}

/// A complete frame, whatever follows it, is found with its body.
pub proof fn lemma_frame_complete(payload: Seq<u8>, rest: Seq<u8>)
    requires
        payload.len() <= MAX_FRAME_SIZE,
    ensures
        frame_bounds(plain_frame(payload) + rest) == Ok::<Option<(nat, nat)>, DecodeError>(
            Some(((plain_frame(payload).len() - payload.len()) as nat, plain_frame(payload).len())),
        ),
        (plain_frame(payload) + rest).subrange(
            plain_frame(payload).len() - payload.len(),
            plain_frame(payload).len() as int,
        ) == payload,
{
    let len = payload.len() as u32;
    assert(plain_frame(payload) + rest == varint_wire(len) + (payload + rest));
    lemma_varint_round_trip(len, payload + rest);
}

/// The frames of a byte stream, in order, as far as they are complete.
pub open spec fn assemble(buffer: Seq<u8>) -> Seq<Seq<u8>>
    decreases buffer.len(),
{
    match frame_bounds(buffer) {
        Ok(Some((s, e))) => if 0 < e <= buffer.len() {
            seq![buffer.subrange(s as int, e as int)] + assemble(buffer.skip(e as int))
        } else {
            Seq::empty()
        },
        _ => Seq::empty(),
    }
}

/// The byte stream that carries `payloads` one plain frame after another.
pub open spec fn frame_stream(payloads: Seq<Seq<u8>>) -> Seq<u8>
    decreases payloads.len(),
{
    if payloads.len() == 0 {
        Seq::empty()
    } else {
        plain_frame(payloads[0]) + frame_stream(payloads.drop_first())
    }
}

/// A stream of frames yields exactly the payloads it was made of, in order.
pub proof fn lemma_stream_assembles(payloads: Seq<Seq<u8>>)
    requires
        forall|i: int| 0 <= i < payloads.len() ==> #[trigger] payloads[i].len() <= MAX_FRAME_SIZE,
    ensures
        assemble(frame_stream(payloads)) == payloads,
    decreases payloads.len(),
{
    if payloads.len() == 0 {
        reveal_with_fuel(varint_parse_from, 2);
        assert(frame_bounds(Seq::<u8>::empty()) == Ok::<Option<(nat, nat)>, DecodeError>(None));
        assert(assemble(frame_stream(payloads)) == Seq::<Seq<u8>>::empty());
        assert(payloads == Seq::<Seq<u8>>::empty());
    } else {
        let first = payloads[0];
        let rest = payloads.drop_first();
        assert forall|i: int| 0 <= i < rest.len() implies #[trigger] rest[i].len() <= MAX_FRAME_SIZE by {
            assert(rest[i] == payloads[i + 1]);
        }
        lemma_stream_assembles(rest);
        let f = plain_frame(first);
        let stream = frame_stream(payloads);
        assert(stream == f + frame_stream(rest));
        lemma_frame_complete(first, frame_stream(rest));
        assert(stream.skip(f.len() as int) == frame_stream(rest));
        assert(f.len() > 0);
        assert(assemble(stream) == seq![first] + rest);
        assert(seq![first] + rest == payloads);
    }
}

/// The stream of the first `j + 1` payloads is the first frame followed by
/// the stream of the next `j`.
proof fn lemma_stream_take_step(payloads: Seq<Seq<u8>>, j: int)
    requires
        0 <= j < payloads.len(),
    ensures
        frame_stream(payloads.take(j + 1)) == plain_frame(payloads[0]) + frame_stream(
            payloads.drop_first().take(j),
        ),
{
    let t = payloads.take(j + 1);
    assert(t.drop_first() == payloads.drop_first().take(j));
    assert(t[0] == payloads[0]);
}

/// Any prefix of a stream of frames yields exactly the payloads whose
/// frames it holds whole, in order: the frame cut by the prefix, and all
/// after it, yield nothing.
pub proof fn lemma_stream_prefix_assembles(payloads: Seq<Seq<u8>>, n: nat)
    requires
        forall|i: int| 0 <= i < payloads.len() ==> #[trigger] payloads[i].len() <= MAX_FRAME_SIZE,
        n <= frame_stream(payloads).len(),
    ensures
        ({
            let got = assemble(frame_stream(payloads).take(n as int));
            &&& got.len() <= payloads.len()
            &&& got == payloads.take(got.len() as int)
            &&& frame_stream(payloads.take(got.len() as int)).len() <= n
            &&& got.len() < payloads.len() ==> n < frame_stream(payloads.take(got.len() + 1int)).len()
        }),
    decreases payloads.len(),
{
    let prefix = frame_stream(payloads).take(n as int);
    if payloads.len() == 0 {
        reveal_with_fuel(varint_parse_from, 2);
        assert(prefix == Seq::<u8>::empty());
        assert(frame_bounds(prefix) == Ok::<Option<(nat, nat)>, DecodeError>(None));
        assert(payloads.take(0) == Seq::<Seq<u8>>::empty());
    } else {
        let first = payloads[0];
        let rest = payloads.drop_first();
        let f = plain_frame(first);
        assert(frame_stream(payloads) == f + frame_stream(rest));
        if n < f.len() {
            assert(prefix == f.take(n as int));
            lemma_frame_prefix_incomplete(first, n);
            assert(assemble(prefix) == Seq::<Seq<u8>>::empty());
            assert(payloads.take(0) == Seq::<Seq<u8>>::empty());
            lemma_stream_take_step(payloads, 0);
            assert(rest.take(0) == Seq::<Seq<u8>>::empty());
        } else {
            assert forall|i: int| 0 <= i < rest.len() implies #[trigger] rest[i].len() <= MAX_FRAME_SIZE by {
                assert(rest[i] == payloads[i + 1]);
            }
            let m = (n - f.len()) as nat;
            let tail = frame_stream(rest).take(m as int);
            assert(prefix == f + tail);
            lemma_frame_complete(first, tail);
            assert(prefix.skip(f.len() as int) == tail);
            lemma_stream_prefix_assembles(rest, m);
            let got = assemble(tail);
            assert(assemble(prefix) == seq![first] + got);
            assert(seq![first] + rest.take(got.len() as int) == payloads.take(got.len() + 1int));
            lemma_stream_take_step(payloads, got.len() as int);
            if got.len() + 1 < payloads.len() {
                lemma_stream_take_step(payloads, got.len() + 1int);
            }
        }
    }
}

} // verus!
