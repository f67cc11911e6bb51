//! The packet catalog: one record type per (direction, state, id) entry,
//! their codecs, the sum type `Packets` that every layer passes around, and
//! the id-to-decoder tables.
use vstd::prelude::*;
use crate::bstring::{BoundedString, lemma_string_round_trip, string_parse, string_wire};
use crate::chat::Chat;
use crate::serial::{
    Decode,
    DecodeError,
    Decoder,
    Encode,
    EncodeError,
    Encoder,
    decode_from_slice,
    encode_to_vec,
    lemma_i64_round_trip,
    lemma_rest_advance,
    lemma_skip_concat,
    lemma_u16_round_trip,
    lemma_u8_round_trip,
};
use crate::varint::{lemma_varint_round_trip, v32, varint_parse, varint_wire};

verus! {

// ---------------------------------------------------------------------------
// Byte sequences with a varint count in front.
// ---------------------------------------------------------------------------

/// The wire form of a byte sequence whose count is written before it.
pub open spec fn bytes_wire(v: Seq<u8>) -> Seq<u8> {
    varint_wire(v.len() as u32) + v
}

/// Reads a count, then that many bytes.
pub open spec fn bytes_parse(b: Seq<u8>) -> Result<(Seq<u8>, nat), DecodeError> {
    match varint_parse(b) {
        Err(e) => Err(e),
        Ok((n, k)) => if b.len() < k + n {
            Err(DecodeError::NotEnoughBytes)
        } else {
            Ok((b.subrange(k as int, k + n), (k + n) as nat))
        },
    }
}

/// Writes the count of `v` as a varint, then its bytes.
pub fn encode_prefixed_bytes(v: &Vec<u8>, encoder: &mut Encoder)
    ensures
        final(encoder)@ == old(encoder)@ + bytes_wire(v@),
{
    #[verifier::truncate]
    let len = v.len() as u32;
    let _ = v32::new(len).encode(encoder);
    encoder.extend(v.as_slice());
}

/// Reads a varint count, then that many bytes.
pub fn decode_prefixed_bytes(decoder: &mut Decoder) -> (r: Result<Vec<u8>, DecodeError>)
    requires
        old(decoder).wf(),
    ensures
        final(decoder).wf(),
        final(decoder).data() == old(decoder).data(),
        crate::serial::decoded(bytes_parse(old(decoder).rest()), r, old(decoder).pos(), final(decoder).pos()),
{
    let start = decoder.offset();
    let ghost d0 = *decoder;
    let len = match v32::decode(decoder) {
        Ok(v) => v.value(),
        Err(e) => {
            decoder.set_offset(start);
            return Err(e);
        },
    };
    proof {
        lemma_rest_advance(d0, *decoder);
    }
    let ghost d1 = *decoder;
    let bytes = decoder.read_bytes(len as usize);
    proof {
        if bytes is Ok {
            let k = d1.pos() - d0.pos();
            assert(d1.rest().take(len as int) == d0.rest().subrange(k, k + len));
        }
    }
    if bytes.is_err() {
        decoder.set_offset(start);
    }
    bytes
}

/// A byte sequence whose count fits a varint reads back from its wire form.
pub proof fn lemma_bytes_round_trip(v: Seq<u8>, rest: Seq<u8>)
    requires
        v.len() <= u32::MAX,
    ensures
        bytes_parse(bytes_wire(v) + rest) == Ok::<(Seq<u8>, nat), DecodeError>(
            (v, bytes_wire(v).len()),
        ),
{
    let n = v.len() as u32;
    let b = bytes_wire(v) + rest;
    assert(b == varint_wire(n) + (v + rest));
    lemma_varint_round_trip(n, v + rest);
    let k = varint_wire(n).len();
    assert(b.subrange(k as int, k + n) == v);
}

// ---------------------------------------------------------------------------
// Records.
// ---------------------------------------------------------------------------

/// Serverbound, Handshaking, 0x00.
#[derive(Debug, Clone, PartialEq, Eq)]
pub struct Handshake {
    pub protocol_version: v32,
    pub server_address: BoundedString<255>,
    pub server_port: u16,
    pub next_state: u8,
}

/// Serverbound, Status, 0x00.
#[derive(Debug, Clone, PartialEq, Eq)]
pub struct Request {}

/// Serverbound, Status, 0x01; also Clientbound, Status, 0x01 as `Pong`.
#[derive(Debug, Clone, PartialEq, Eq)]
pub struct Ping {
    pub payload: i64,
}

/// Serverbound, Login, 0x00.
#[derive(Debug, Clone, PartialEq, Eq)]
pub struct LoginStart {
    pub name: BoundedString<16>,
}

/// Serverbound, Login, 0x01. The two counts travel on the wire only.
#[derive(Debug, Clone, PartialEq, Eq)]
pub struct EncryptionResponse {
    pub shared_secret: Vec<u8>,
    pub verify_token: Vec<u8>,
}

/// Clientbound, Status, 0x00.
#[derive(Debug, Clone, PartialEq, Eq)]
pub struct Response {
    pub json_response: BoundedString<32767>,
}

/// Clientbound, Status, 0x01.
#[derive(Debug, Clone, PartialEq, Eq)]
pub struct Pong {
    pub payload: i64,
}

/// Clientbound, Login, 0x00 and Clientbound, Play, 0x19.
#[derive(Debug, Clone, PartialEq, Eq)]
pub struct Disconnect {
    pub reason: Chat,
}

/// Clientbound, Login, 0x01. The two counts travel on the wire only.
#[derive(Debug, Clone, PartialEq, Eq)]
pub struct EncryptionRequest {
    pub server_id: BoundedString<20>,
    pub public_key: Vec<u8>,
    pub verify_token: Vec<u8>,
}

/// Clientbound, Login, 0x02.
#[derive(Debug, Clone, PartialEq, Eq)]
pub struct LoginSuccess {
    pub uuid: BoundedString<36>,
    pub username: BoundedString<16>,
}

/// Clientbound, Login, 0x03.
#[derive(Debug, Clone, PartialEq, Eq)]
pub struct SetCompression {
    pub threshold: v32,
}

/// Internal, Server, 0x00: hands a logged-in connection to the game layer.
/// It is never put on the wire.
#[derive(Debug, Clone, PartialEq, Eq)]
pub struct Initialize {
    pub uuid: String,
    pub username: String,
}

/// Internal, Network, 0x00: asks the writer to end the connection.
#[derive(Debug, Clone, PartialEq, Eq)]
pub struct NetworkDisconnect {
    pub reason: BoundedString<32767>,
}

// ---------------------------------------------------------------------------
// Views, wire forms and codecs of the records.
// ---------------------------------------------------------------------------

impl View for Handshake {
    type V = (u32, Seq<char>, u16, u8);

    open spec fn view(&self) -> (u32, Seq<char>, u16, u8) {
        (self.protocol_version@, self.server_address@, self.server_port, self.next_state)
    }
}

impl Handshake {
    pub open spec fn wf(&self) -> bool {
        self.server_address.wf()
    }
}

impl Encode for Handshake {
    open spec fn wire(&self) -> Seq<u8> {
        varint_wire(self.protocol_version@) + string_wire(self.server_address@) + self.server_port.wire()
            + self.next_state.wire()
    }

    fn encode(&self, encoder: &mut Encoder) -> (r: Result<(), EncodeError>) {
        let _ = self.protocol_version.encode(encoder);
        let _ = self.server_address.encode(encoder);
        let _ = self.server_port.encode(encoder);
        let _ = self.next_state.encode(encoder);
        assert(encoder@ == old(encoder)@ + self.wire());
        Ok(())
    }
}

impl Decode for Handshake {
    open spec fn parse(b: Seq<u8>) -> Result<((u32, Seq<char>, u16, u8), nat), DecodeError> {
        match varint_parse(b) {
            Err(e) => Err(e),
            Ok((version, n1)) => match string_parse(b.skip(n1 as int), 255) {
                Err(e) => Err(e),
                Ok((address, n2)) => match <u16 as Decode>::parse(b.skip((n1 + n2) as int)) {
                    Err(e) => Err(e),
                    Ok((port, n3)) => match <u8 as Decode>::parse(b.skip((n1 + n2 + n3) as int)) {
                        Err(e) => Err(e),
                        Ok((next, n4)) => Ok(((version, address, port, next), n1 + n2 + n3 + n4)),
                    },
                },
            },
        }
    }

    fn decode(decoder: &mut Decoder) -> (r: Result<Handshake, DecodeError>) {
        let start = decoder.offset();
        let ghost d0 = *decoder;
        let protocol_version = match v32::decode(decoder) {
            Ok(v) => v,
            Err(e) => {
                decoder.set_offset(start);
                return Err(e);
            },
        };
        proof {
            lemma_rest_advance(d0, *decoder);
        }
        let server_address = match BoundedString::<255>::decode(decoder) {
            Ok(v) => v,
            Err(e) => {
                decoder.set_offset(start);
                return Err(e);
            },
        };
        proof {
            lemma_rest_advance(d0, *decoder);
        }
        let server_port = match u16::decode(decoder) {
            Ok(v) => v,
            Err(e) => {
                decoder.set_offset(start);
                return Err(e);
            },
        };
        proof {
            lemma_rest_advance(d0, *decoder);
        }
        let next_state = match u8::decode(decoder) {
            Ok(v) => v,
            Err(e) => {
                decoder.set_offset(start);
                return Err(e);
            },
        };
        Ok(Handshake { protocol_version, server_address, server_port, next_state })
    }
}

impl View for Request {
    type V = ();

    open spec fn view(&self) -> () {
        ()
    }
}

impl Encode for Request {
    open spec fn wire(&self) -> Seq<u8> {
        Seq::empty()
    }

    fn encode(&self, encoder: &mut Encoder) -> (r: Result<(), EncodeError>) {
        assert(encoder@ == old(encoder)@ + self.wire());
        Ok(())
    }
}

impl Decode for Request {
    open spec fn parse(b: Seq<u8>) -> Result<((), nat), DecodeError> {
        Ok(((), 0))
    }

    fn decode(decoder: &mut Decoder) -> (r: Result<Request, DecodeError>) {
        Ok(Request {})
    }
}

impl View for Ping {
    type V = i64;

    open spec fn view(&self) -> i64 {
        self.payload
    }
}

impl Encode for Ping {
    open spec fn wire(&self) -> Seq<u8> {
        self.payload.wire()
    }

    fn encode(&self, encoder: &mut Encoder) -> (r: Result<(), EncodeError>) {
        self.payload.encode(encoder)
    }
}

impl Decode for Ping {
    open spec fn parse(b: Seq<u8>) -> Result<(i64, nat), DecodeError> {
        <i64 as Decode>::parse(b)
    }

    fn decode(decoder: &mut Decoder) -> (r: Result<Ping, DecodeError>) {
        match i64::decode(decoder) {
            Ok(payload) => Ok(Ping { payload }),
            Err(e) => Err(e),
        }
    }
}

impl View for Pong {
    type V = i64;

    open spec fn view(&self) -> i64 {
        self.payload
    }
}

impl Encode for Pong {
    open spec fn wire(&self) -> Seq<u8> {
        self.payload.wire()
    }

    fn encode(&self, encoder: &mut Encoder) -> (r: Result<(), EncodeError>) {
        self.payload.encode(encoder)
    }
}

impl Decode for Pong {
    open spec fn parse(b: Seq<u8>) -> Result<(i64, nat), DecodeError> {
        <i64 as Decode>::parse(b)
    }

    fn decode(decoder: &mut Decoder) -> (r: Result<Pong, DecodeError>) {
        match i64::decode(decoder) {
            Ok(payload) => Ok(Pong { payload }),
            Err(e) => Err(e),
        }
    }
}

impl View for LoginStart {
    type V = Seq<char>;

    open spec fn view(&self) -> Seq<char> {
        self.name@
    }
}

impl LoginStart {
    pub open spec fn wf(&self) -> bool {
        self.name.wf()
    }
}

impl Encode for LoginStart {
    open spec fn wire(&self) -> Seq<u8> {
        string_wire(self.name@)
    }

    fn encode(&self, encoder: &mut Encoder) -> (r: Result<(), EncodeError>) {
        self.name.encode(encoder)
    }
}

impl Decode for LoginStart {
    open spec fn parse(b: Seq<u8>) -> Result<(Seq<char>, nat), DecodeError> {
        string_parse(b, 16)
    }

    fn decode(decoder: &mut Decoder) -> (r: Result<LoginStart, DecodeError>) {
        match BoundedString::<16>::decode(decoder) {
            Ok(name) => Ok(LoginStart { name }),
            Err(e) => Err(e),
        }
    }
}

impl View for EncryptionResponse {
    type V = (Seq<u8>, Seq<u8>);

    open spec fn view(&self) -> (Seq<u8>, Seq<u8>) {
        (self.shared_secret@, self.verify_token@)
    }
}

impl EncryptionResponse {
    pub open spec fn wf(&self) -> bool {
        self.shared_secret@.len() <= u32::MAX && self.verify_token@.len() <= u32::MAX
    }
}

impl Encode for EncryptionResponse {
    open spec fn wire(&self) -> Seq<u8> {
        bytes_wire(self.shared_secret@) + bytes_wire(self.verify_token@)
    }

    fn encode(&self, encoder: &mut Encoder) -> (r: Result<(), EncodeError>) {
        encode_prefixed_bytes(&self.shared_secret, encoder);
        encode_prefixed_bytes(&self.verify_token, encoder);
        assert(encoder@ == old(encoder)@ + self.wire());
        Ok(())
    }
}

impl Decode for EncryptionResponse {
    open spec fn parse(b: Seq<u8>) -> Result<((Seq<u8>, Seq<u8>), nat), DecodeError> {
        match bytes_parse(b) {
            Err(e) => Err(e),
            Ok((secret, n1)) => match bytes_parse(b.skip(n1 as int)) {
                Err(e) => Err(e),
                Ok((token, n2)) => Ok(((secret, token), n1 + n2)),
            },
        }
    }

    fn decode(decoder: &mut Decoder) -> (r: Result<EncryptionResponse, DecodeError>) {
        let start = decoder.offset();
        let ghost d0 = *decoder;
        let shared_secret = match decode_prefixed_bytes(decoder) {
            Ok(v) => v,
            Err(e) => {
                decoder.set_offset(start);
                return Err(e);
            },
        };
        proof {
            lemma_rest_advance(d0, *decoder);
        }
        let verify_token = match decode_prefixed_bytes(decoder) {
            Ok(v) => v,
            Err(e) => {
                decoder.set_offset(start);
                return Err(e);
            },
        };
        Ok(EncryptionResponse { shared_secret, verify_token })
    }
}

impl View for Response {
    type V = Seq<char>;

    open spec fn view(&self) -> Seq<char> {
        self.json_response@
    }
}

impl Response {
    pub open spec fn wf(&self) -> bool {
        self.json_response.wf()
    }
}

impl Encode for Response {
    open spec fn wire(&self) -> Seq<u8> {
        string_wire(self.json_response@)
    }

    fn encode(&self, encoder: &mut Encoder) -> (r: Result<(), EncodeError>) {
        self.json_response.encode(encoder)
    }
}

impl Decode for Response {
    open spec fn parse(b: Seq<u8>) -> Result<(Seq<char>, nat), DecodeError> {
        string_parse(b, 32767)
    }

    fn decode(decoder: &mut Decoder) -> (r: Result<Response, DecodeError>) {
        match BoundedString::<32767>::decode(decoder) {
            Ok(json_response) => Ok(Response { json_response }),
            Err(e) => Err(e),
        }
    }
}

impl View for Disconnect {
    type V = Seq<char>;

    open spec fn view(&self) -> Seq<char> {
        self.reason@
    }
}

impl Disconnect {
    pub open spec fn wf(&self) -> bool {
        self.reason.wf()
    }
}

impl Encode for Disconnect {
    open spec fn wire(&self) -> Seq<u8> {
        string_wire(self.reason@)
    }

    fn encode(&self, encoder: &mut Encoder) -> (r: Result<(), EncodeError>) {
        self.reason.encode(encoder)
    }
}

impl Decode for Disconnect {
    open spec fn parse(b: Seq<u8>) -> Result<(Seq<char>, nat), DecodeError> {
        string_parse(b, 262144)
    }

    fn decode(decoder: &mut Decoder) -> (r: Result<Disconnect, DecodeError>) {
        match Chat::decode(decoder) {
            Ok(reason) => Ok(Disconnect { reason }),
            Err(e) => Err(e),
        }
    }
}

impl View for EncryptionRequest {
    type V = (Seq<char>, Seq<u8>, Seq<u8>);

    open spec fn view(&self) -> (Seq<char>, Seq<u8>, Seq<u8>) {
        (self.server_id@, self.public_key@, self.verify_token@)
    }
}

impl EncryptionRequest {
    pub open spec fn wf(&self) -> bool {
        self.server_id.wf() && self.public_key@.len() <= u32::MAX && self.verify_token@.len()
            <= u32::MAX
    }
}

impl Encode for EncryptionRequest {
    open spec fn wire(&self) -> Seq<u8> {
        string_wire(self.server_id@) + bytes_wire(self.public_key@) + bytes_wire(self.verify_token@)
    }

    fn encode(&self, encoder: &mut Encoder) -> (r: Result<(), EncodeError>) {
        let _ = self.server_id.encode(encoder);
        encode_prefixed_bytes(&self.public_key, encoder);
        encode_prefixed_bytes(&self.verify_token, encoder);
        assert(encoder@ == old(encoder)@ + self.wire());
        Ok(())
    }
}

impl Decode for EncryptionRequest {
    open spec fn parse(b: Seq<u8>) -> Result<((Seq<char>, Seq<u8>, Seq<u8>), nat), DecodeError> {
        match string_parse(b, 20) {
            Err(e) => Err(e),
            Ok((id, n1)) => match bytes_parse(b.skip(n1 as int)) {
                Err(e) => Err(e),
                Ok((key, n2)) => match bytes_parse(b.skip((n1 + n2) as int)) {
                    Err(e) => Err(e),
                    Ok((token, n3)) => Ok(((id, key, token), n1 + n2 + n3)),
                },
            },
        }
    }

    fn decode(decoder: &mut Decoder) -> (r: Result<EncryptionRequest, DecodeError>) {
        let start = decoder.offset();
        let ghost d0 = *decoder;
        let server_id = match BoundedString::<20>::decode(decoder) {
            Ok(v) => v,
            Err(e) => {
                decoder.set_offset(start);
                return Err(e);
            },
        };
        proof {
            lemma_rest_advance(d0, *decoder);
        }
        let public_key = match decode_prefixed_bytes(decoder) {
            Ok(v) => v,
            Err(e) => {
                decoder.set_offset(start);
                return Err(e);
            },
        };
        proof {
            lemma_rest_advance(d0, *decoder);
        }
        let verify_token = match decode_prefixed_bytes(decoder) {
            Ok(v) => v,
            Err(e) => {
                decoder.set_offset(start);
                return Err(e);
            },
        };
        Ok(EncryptionRequest { server_id, public_key, verify_token })
    }
}

impl View for LoginSuccess {
    type V = (Seq<char>, Seq<char>);

    open spec fn view(&self) -> (Seq<char>, Seq<char>) {
        (self.uuid@, self.username@)
    }
}

impl LoginSuccess {
    pub open spec fn wf(&self) -> bool {
        self.uuid.wf() && self.username.wf()
    }
}

impl Encode for LoginSuccess {
    open spec fn wire(&self) -> Seq<u8> {
        string_wire(self.uuid@) + string_wire(self.username@)
    }

    fn encode(&self, encoder: &mut Encoder) -> (r: Result<(), EncodeError>) {
        let _ = self.uuid.encode(encoder);
        let _ = self.username.encode(encoder);
        assert(encoder@ == old(encoder)@ + self.wire());
        Ok(())
    }
}

impl Decode for LoginSuccess {
    open spec fn parse(b: Seq<u8>) -> Result<((Seq<char>, Seq<char>), nat), DecodeError> {
        match string_parse(b, 36) {
            Err(e) => Err(e),
            Ok((uuid, n1)) => match string_parse(b.skip(n1 as int), 16) {
                Err(e) => Err(e),
                Ok((name, n2)) => Ok(((uuid, name), n1 + n2)),
            },
        }
    }

    fn decode(decoder: &mut Decoder) -> (r: Result<LoginSuccess, DecodeError>) {
        let start = decoder.offset();
        let ghost d0 = *decoder;
        let uuid = match BoundedString::<36>::decode(decoder) {
            Ok(v) => v,
            Err(e) => {
                decoder.set_offset(start);
                return Err(e);
            },
        };
        proof {
            lemma_rest_advance(d0, *decoder);
        }
        let username = match BoundedString::<16>::decode(decoder) {
            Ok(v) => v,
            Err(e) => {
                decoder.set_offset(start);
                return Err(e);
            },
        };
        Ok(LoginSuccess { uuid, username })
    }
}

impl View for SetCompression {
    type V = u32;

    open spec fn view(&self) -> u32 {
        self.threshold@
    }
}

impl Encode for SetCompression {
    open spec fn wire(&self) -> Seq<u8> {
        varint_wire(self.threshold@)
    }

    fn encode(&self, encoder: &mut Encoder) -> (r: Result<(), EncodeError>) {
        self.threshold.encode(encoder)
    }
}

impl Decode for SetCompression {
    open spec fn parse(b: Seq<u8>) -> Result<(u32, nat), DecodeError> {
        varint_parse(b)
    }

    fn decode(decoder: &mut Decoder) -> (r: Result<SetCompression, DecodeError>) {
        match v32::decode(decoder) {
            Ok(threshold) => Ok(SetCompression { threshold }),
            Err(e) => Err(e),
        }
    }
}

impl View for Initialize {
    type V = (Seq<char>, Seq<char>);

    open spec fn view(&self) -> (Seq<char>, Seq<char>) {
        (self.uuid@, self.username@)
    }
}

impl View for NetworkDisconnect {
    type V = Seq<char>;

    open spec fn view(&self) -> Seq<char> {
        self.reason@
    }
}

impl NetworkDisconnect {
    pub open spec fn wf(&self) -> bool {
        self.reason.wf()
    }
}

impl Encode for NetworkDisconnect {
    open spec fn wire(&self) -> Seq<u8> {
        string_wire(self.reason@)
    }

    fn encode(&self, encoder: &mut Encoder) -> (r: Result<(), EncodeError>) {
        self.reason.encode(encoder)
    }
}

impl Decode for NetworkDisconnect {
    open spec fn parse(b: Seq<u8>) -> Result<(Seq<char>, nat), DecodeError> {
        string_parse(b, 32767)
    }

    fn decode(decoder: &mut Decoder) -> (r: Result<NetworkDisconnect, DecodeError>) {
        match BoundedString::<32767>::decode(decoder) {
            Ok(reason) => Ok(NetworkDisconnect { reason }),
            Err(e) => Err(e),
        }
    }
}

// ---------------------------------------------------------------------------
// Round trips of the records.
// ---------------------------------------------------------------------------

/// A handshake reads back from its wire form.
pub proof fn lemma_handshake_round_trip(x: Handshake, rest: Seq<u8>)
    requires
        x.wf(),
    ensures
        Handshake::parse(x.wire() + rest) == Ok::<((u32, Seq<char>, u16, u8), nat), DecodeError>(
            (x@, x.wire().len()),
        ),
{
    let w1 = varint_wire(x.protocol_version@);
    let w2 = string_wire(x.server_address@);
    let w3 = x.server_port.wire();
    let w4 = x.next_state.wire();
    let b = x.wire() + rest;
    assert(b == w1 + (w2 + (w3 + (w4 + rest))));
    lemma_varint_round_trip(x.protocol_version@, w2 + (w3 + (w4 + rest)));
    lemma_skip_concat(w1, w2 + (w3 + (w4 + rest)));
    lemma_string_round_trip(x.server_address@, 255, w3 + (w4 + rest));
    assert(b.skip((w1.len() + w2.len()) as int) == w3 + (w4 + rest));
    lemma_u16_round_trip(x.server_port, w4 + rest);
    assert(b.skip((w1.len() + w2.len() + w3.len()) as int) == w4 + rest);
    lemma_u8_round_trip(x.next_state, rest);
}

/// A login start reads back from its wire form.
pub proof fn lemma_login_start_round_trip(x: LoginStart, rest: Seq<u8>)
    requires
        x.wf(),
    ensures
        LoginStart::parse(x.wire() + rest) == Ok::<(Seq<char>, nat), DecodeError>(
            (x@, x.wire().len()),
        ),
{
    lemma_string_round_trip(x.name@, 16, rest);
}

/// An encryption response reads back from its wire form, the two counts
/// included.
pub proof fn lemma_encryption_response_round_trip(x: EncryptionResponse, rest: Seq<u8>)
    requires
        x.wf(),
    ensures
        EncryptionResponse::parse(x.wire() + rest) == Ok::<((Seq<u8>, Seq<u8>), nat), DecodeError>(
            (x@, x.wire().len()),
        ),
{
    let w1 = bytes_wire(x.shared_secret@);
    let w2 = bytes_wire(x.verify_token@);
    let b = x.wire() + rest;
    assert(b == w1 + (w2 + rest));
    lemma_bytes_round_trip(x.shared_secret@, w2 + rest);
    lemma_skip_concat(w1, w2 + rest);
    lemma_bytes_round_trip(x.verify_token@, rest);
}

/// An encryption request reads back from its wire form, the two counts
/// included.
pub proof fn lemma_encryption_request_round_trip(x: EncryptionRequest, rest: Seq<u8>)
    requires
        x.wf(),
    ensures
        EncryptionRequest::parse(x.wire() + rest) == Ok::<
            ((Seq<char>, Seq<u8>, Seq<u8>), nat),
            DecodeError,
        >((x@, x.wire().len())),
{
    let w1 = string_wire(x.server_id@);
    let w2 = bytes_wire(x.public_key@);
    let w3 = bytes_wire(x.verify_token@);
    let b = x.wire() + rest;
    assert(b == w1 + (w2 + (w3 + rest)));
    lemma_string_round_trip(x.server_id@, 20, w2 + (w3 + rest));
    lemma_skip_concat(w1, w2 + (w3 + rest));
    lemma_bytes_round_trip(x.public_key@, w3 + rest);
    assert(b.skip((w1.len() + w2.len()) as int) == w3 + rest);
    lemma_bytes_round_trip(x.verify_token@, rest);
}

/// A login success reads back from its wire form.
pub proof fn lemma_login_success_round_trip(x: LoginSuccess, rest: Seq<u8>)
    requires
        x.wf(),
    ensures
        LoginSuccess::parse(x.wire() + rest) == Ok::<((Seq<char>, Seq<char>), nat), DecodeError>(
            (x@, x.wire().len()),
        ),
{
    let w1 = string_wire(x.uuid@);
    let w2 = string_wire(x.username@);
    let b = x.wire() + rest;
    assert(b == w1 + (w2 + rest));
    lemma_string_round_trip(x.uuid@, 36, w2 + rest);
    lemma_skip_concat(w1, w2 + rest);
    lemma_string_round_trip(x.username@, 16, rest);
}

// ---------------------------------------------------------------------------
// The sum of all packets.
// ---------------------------------------------------------------------------

/// Who sends a packet.
#[derive(Debug, Clone, Copy, PartialEq, Eq, Structural)]
pub enum Direction {
    Serverbound,
    Clientbound,
    Internal,
}

/// The protocol phase a packet belongs to, with the two in-process
/// pseudo-states of internal packets.
#[derive(Debug, Clone, Copy, PartialEq, Eq, Structural)]
pub enum PacketState {
    Handshaking,
    Status,
    Login,
    Play,
    Server,
    Network,
}

/// Every packet of the catalog, named `<Direction><State><Name>`.
#[derive(Debug, Clone, PartialEq, Eq)]
pub enum Packets {
    ServerboundHandshakingHandshake(Box<Handshake>),
    ServerboundStatusRequest(Box<Request>),
    ServerboundStatusPing(Box<Ping>),
    ServerboundLoginLoginStart(Box<LoginStart>),
    ServerboundLoginEncryptionResponse(Box<EncryptionResponse>),
    ClientboundStatusResponse(Box<Response>),
    ClientboundStatusPong(Box<Pong>),
    ClientboundLoginDisconnect(Box<Disconnect>),
    ClientboundLoginEncryptionRequest(Box<EncryptionRequest>),
    ClientboundLoginLoginSuccess(Box<LoginSuccess>),
    ClientboundLoginSetCompression(Box<SetCompression>),
    ClientboundPlayDisconnect(Box<Disconnect>),
    InternalServerInitialize(Box<Initialize>),
    InternalNetworkDisconnect(Box<NetworkDisconnect>),
}

/// The contents of a packet, as the views of its record.
pub enum PacketView {
    ServerboundHandshakingHandshake((u32, Seq<char>, u16, u8)),
    ServerboundStatusRequest,
    ServerboundStatusPing(i64),
    ServerboundLoginLoginStart(Seq<char>),
    ServerboundLoginEncryptionResponse((Seq<u8>, Seq<u8>)),
    ClientboundStatusResponse(Seq<char>),
    ClientboundStatusPong(i64),
    ClientboundLoginDisconnect(Seq<char>),
    ClientboundLoginEncryptionRequest((Seq<char>, Seq<u8>, Seq<u8>)),
    ClientboundLoginLoginSuccess((Seq<char>, Seq<char>)),
    ClientboundLoginSetCompression(u32),
    ClientboundPlayDisconnect(Seq<char>),
    InternalServerInitialize((Seq<char>, Seq<char>)),
    InternalNetworkDisconnect(Seq<char>),
}

impl View for Packets {
    type V = PacketView;

    open spec fn view(&self) -> PacketView {
        match self {
            Packets::ServerboundHandshakingHandshake(p) => PacketView::ServerboundHandshakingHandshake(p@),
            Packets::ServerboundStatusRequest(_) => PacketView::ServerboundStatusRequest,
            Packets::ServerboundStatusPing(p) => PacketView::ServerboundStatusPing(p@),
            Packets::ServerboundLoginLoginStart(p) => PacketView::ServerboundLoginLoginStart(p@),
            Packets::ServerboundLoginEncryptionResponse(p) => PacketView::ServerboundLoginEncryptionResponse(p@),
            Packets::ClientboundStatusResponse(p) => PacketView::ClientboundStatusResponse(p@),
            Packets::ClientboundStatusPong(p) => PacketView::ClientboundStatusPong(p@),
            Packets::ClientboundLoginDisconnect(p) => PacketView::ClientboundLoginDisconnect(p@),
            Packets::ClientboundLoginEncryptionRequest(p) => PacketView::ClientboundLoginEncryptionRequest(p@),
            Packets::ClientboundLoginLoginSuccess(p) => PacketView::ClientboundLoginLoginSuccess(p@),
            Packets::ClientboundLoginSetCompression(p) => PacketView::ClientboundLoginSetCompression(p@),
            Packets::ClientboundPlayDisconnect(p) => PacketView::ClientboundPlayDisconnect(p@),
            Packets::InternalServerInitialize(p) => PacketView::InternalServerInitialize(p@),
            Packets::InternalNetworkDisconnect(p) => PacketView::InternalNetworkDisconnect(p@),
        }
    }
}

/// The views of an optional packet.
pub open spec fn option_view(p: Option<Packets>) -> Option<PacketView> {
    match p {
        Some(p) => Some(p@),
        None => None,
    }
}

/// The catalog id of a packet.
pub open spec fn id_of(p: PacketView) -> u8 {
    match p {
        PacketView::ClientboundLoginEncryptionRequest(_) => 0x01,
        PacketView::ClientboundLoginLoginSuccess(_) => 0x02,
        PacketView::ClientboundLoginSetCompression(_) => 0x03,
        PacketView::ClientboundPlayDisconnect(_) => 0x19,
        PacketView::ServerboundStatusPing(_) => 0x01,
        PacketView::ServerboundLoginEncryptionResponse(_) => 0x01,
        PacketView::ClientboundStatusPong(_) => 0x01,
        _ => 0x00,
    }
}

/// The direction and state a packet is listed under.
pub open spec fn table_of(p: PacketView) -> (Direction, PacketState) {
    match p {
        PacketView::ServerboundHandshakingHandshake(_) => (Direction::Serverbound, PacketState::Handshaking),
        PacketView::ServerboundStatusRequest => (Direction::Serverbound, PacketState::Status),
        PacketView::ServerboundStatusPing(_) => (Direction::Serverbound, PacketState::Status),
        PacketView::ServerboundLoginLoginStart(_) => (Direction::Serverbound, PacketState::Login),
        PacketView::ServerboundLoginEncryptionResponse(_) => (Direction::Serverbound, PacketState::Login),
        PacketView::ClientboundStatusResponse(_) => (Direction::Clientbound, PacketState::Status),
        PacketView::ClientboundStatusPong(_) => (Direction::Clientbound, PacketState::Status),
        PacketView::ClientboundLoginDisconnect(_) => (Direction::Clientbound, PacketState::Login),
        PacketView::ClientboundLoginEncryptionRequest(_) => (Direction::Clientbound, PacketState::Login),
        PacketView::ClientboundLoginLoginSuccess(_) => (Direction::Clientbound, PacketState::Login),
        PacketView::ClientboundLoginSetCompression(_) => (Direction::Clientbound, PacketState::Login),
        PacketView::ClientboundPlayDisconnect(_) => (Direction::Clientbound, PacketState::Play),
        PacketView::InternalServerInitialize(_) => (Direction::Internal, PacketState::Server),
        PacketView::InternalNetworkDisconnect(_) => (Direction::Internal, PacketState::Network),
    }
}

/// The view of the record that `parsed` describes, wrapped by `wrap`.
pub open spec fn parsed_packet<V>(
    parsed: Result<(V, nat), DecodeError>,
    wrap: spec_fn(V) -> PacketView,
) -> Option<PacketView> {
    match parsed {
        Ok((v, _)) => Some(wrap(v)),
        Err(_) => None,
    }
}

/// What the decoder table of `direction` and `state` makes of a packet
/// with id `id` and body `data`: `None` for an unknown id, for the ignored
/// entry, and for a body that does not decode.
pub open spec fn decode_table(direction: Direction, state: PacketState, id: u8, data: Seq<u8>) -> Option<PacketView> {
    match (direction, state, id) {
        (Direction::Serverbound, PacketState::Handshaking, 0x00) => parsed_packet(
            Handshake::parse(data),
            |v| PacketView::ServerboundHandshakingHandshake(v),
        ),
        (Direction::Serverbound, PacketState::Status, 0x00) => Some(PacketView::ServerboundStatusRequest),
        (Direction::Serverbound, PacketState::Status, 0x01) => parsed_packet(
            Ping::parse(data),
            |v| PacketView::ServerboundStatusPing(v),
        ),
        (Direction::Serverbound, PacketState::Login, 0x00) => parsed_packet(
            LoginStart::parse(data),
            |v| PacketView::ServerboundLoginLoginStart(v),
        ),
        (Direction::Serverbound, PacketState::Login, 0x01) => parsed_packet(
            EncryptionResponse::parse(data),
            |v| PacketView::ServerboundLoginEncryptionResponse(v),
        ),
        (Direction::Clientbound, PacketState::Status, 0x00) => parsed_packet(
            Response::parse(data),
            |v| PacketView::ClientboundStatusResponse(v),
        ),
        (Direction::Clientbound, PacketState::Status, 0x01) => parsed_packet(
            Pong::parse(data),
            |v| PacketView::ClientboundStatusPong(v),
        ),
        (Direction::Clientbound, PacketState::Login, 0x00) => parsed_packet(
            Disconnect::parse(data),
            |v| PacketView::ClientboundLoginDisconnect(v),
        ),
        (Direction::Clientbound, PacketState::Login, 0x01) => parsed_packet(
            EncryptionRequest::parse(data),
            |v| PacketView::ClientboundLoginEncryptionRequest(v),
        ),
        (Direction::Clientbound, PacketState::Login, 0x02) => parsed_packet(
            LoginSuccess::parse(data),
            |v| PacketView::ClientboundLoginLoginSuccess(v),
        ),
        (Direction::Clientbound, PacketState::Login, 0x03) => parsed_packet(
            SetCompression::parse(data),
            |v| PacketView::ClientboundLoginSetCompression(v),
        ),
        (Direction::Clientbound, PacketState::Play, 0x19) => parsed_packet(
            Disconnect::parse(data),
            |v| PacketView::ClientboundPlayDisconnect(v),
        ),
        (Direction::Internal, PacketState::Network, 0x00) => parsed_packet(
            NetworkDisconnect::parse(data),
            |v| PacketView::InternalNetworkDisconnect(v),
        ),
        _ => None,
    }
}

/// Whether `(direction, state, id)` names an entry of the catalog, the
/// ignored one included.
pub open spec fn known_id(direction: Direction, state: PacketState, id: u8) -> bool {
    match (direction, state) {
        (Direction::Serverbound, PacketState::Handshaking) => id == 0x00,
        (Direction::Serverbound, PacketState::Status) => id <= 0x01,
        (Direction::Serverbound, PacketState::Login) => id <= 0x01,
        (Direction::Clientbound, PacketState::Status) => id <= 0x01,
        (Direction::Clientbound, PacketState::Login) => id <= 0x03,
        (Direction::Clientbound, PacketState::Play) => id == 0x19,
        (Direction::Internal, PacketState::Server) => id == 0x00,
        (Direction::Internal, PacketState::Network) => id == 0x00,
        _ => false,
    }
}

/// Reads a whole record from `data`.
fn decode_record<R: Decode>(data: &[u8]) -> (r: Option<R>)
    ensures
        match R::parse(data@) {
            Ok((v, _)) => r matches Some(x) && x@ == v,
            Err(_) => r is None,
        },
{
    match decode_from_slice::<R>(data) {
        Ok((v, _)) => Some(v),
        Err(_) => None,
    }
}

impl Packets {
    /// Every bounded field is within its bound and every counted sequence's
    /// count fits a varint.
    pub open spec fn wf(&self) -> bool {
        match self {
            Packets::ServerboundHandshakingHandshake(p) => p.wf(),
            Packets::ServerboundLoginLoginStart(p) => p.wf(),
            Packets::ServerboundLoginEncryptionResponse(p) => p.wf(),
            Packets::ClientboundStatusResponse(p) => p.wf(),
            Packets::ClientboundLoginDisconnect(p) => p.wf(),
            Packets::ClientboundLoginEncryptionRequest(p) => p.wf(),
            Packets::ClientboundLoginLoginSuccess(p) => p.wf(),
            Packets::ClientboundPlayDisconnect(p) => p.wf(),
            Packets::InternalNetworkDisconnect(p) => p.wf(),
            _ => true,
        }
    }

    /// The body bytes of a packet: the wire form of its record, or nothing
    /// for the ignored entry.
    pub open spec fn body(&self) -> Seq<u8> {
        match self {
            Packets::ServerboundHandshakingHandshake(p) => p.wire(),
            Packets::ServerboundStatusRequest(p) => p.wire(),
            Packets::ServerboundStatusPing(p) => p.wire(),
            Packets::ServerboundLoginLoginStart(p) => p.wire(),
            Packets::ServerboundLoginEncryptionResponse(p) => p.wire(),
            Packets::ClientboundStatusResponse(p) => p.wire(),
            Packets::ClientboundStatusPong(p) => p.wire(),
            Packets::ClientboundLoginDisconnect(p) => p.wire(),
            Packets::ClientboundLoginEncryptionRequest(p) => p.wire(),
            Packets::ClientboundLoginLoginSuccess(p) => p.wire(),
            Packets::ClientboundLoginSetCompression(p) => p.wire(),
            Packets::ClientboundPlayDisconnect(p) => p.wire(),
            Packets::InternalServerInitialize(_) => Seq::empty(),
            Packets::InternalNetworkDisconnect(p) => p.wire(),
        }
    }

    /// The packet's id in its table.
    pub fn get_id(&self) -> (r: u8)
        ensures
            r == id_of(self@),
    {
        match self {
            Packets::ClientboundLoginEncryptionRequest(_) => 0x01,
            Packets::ClientboundLoginLoginSuccess(_) => 0x02,
            Packets::ClientboundLoginSetCompression(_) => 0x03,
            Packets::ClientboundPlayDisconnect(_) => 0x19,
            Packets::ServerboundStatusPing(_) => 0x01,
            Packets::ServerboundLoginEncryptionResponse(_) => 0x01,
            Packets::ClientboundStatusPong(_) => 0x01,
            _ => 0x00,
        }
    }

    /// The direction and state the packet is listed under.
    pub fn table(&self) -> (r: (Direction, PacketState))
        ensures
            r == table_of(self@),
    {
        match self {
            Packets::ServerboundHandshakingHandshake(_) => (Direction::Serverbound, PacketState::Handshaking),
            Packets::ServerboundStatusRequest(_) => (Direction::Serverbound, PacketState::Status),
            Packets::ServerboundStatusPing(_) => (Direction::Serverbound, PacketState::Status),
            Packets::ServerboundLoginLoginStart(_) => (Direction::Serverbound, PacketState::Login),
            Packets::ServerboundLoginEncryptionResponse(_) => (Direction::Serverbound, PacketState::Login),
            Packets::ClientboundStatusResponse(_) => (Direction::Clientbound, PacketState::Status),
            Packets::ClientboundStatusPong(_) => (Direction::Clientbound, PacketState::Status),
            Packets::ClientboundLoginDisconnect(_) => (Direction::Clientbound, PacketState::Login),
            Packets::ClientboundLoginEncryptionRequest(_) => (Direction::Clientbound, PacketState::Login),
            Packets::ClientboundLoginLoginSuccess(_) => (Direction::Clientbound, PacketState::Login),
            Packets::ClientboundLoginSetCompression(_) => (Direction::Clientbound, PacketState::Login),
            Packets::ClientboundPlayDisconnect(_) => (Direction::Clientbound, PacketState::Play),
            Packets::InternalServerInitialize(_) => (Direction::Internal, PacketState::Server),
            Packets::InternalNetworkDisconnect(_) => (Direction::Internal, PacketState::Network),
        }
    }

    /// Whether the packet is the one entry whose body is never encoded.
    pub fn is_ignored(&self) -> (r: bool)
        ensures
            r == (self is InternalServerInitialize),
    {
        match self {
            Packets::InternalServerInitialize(_) => true,
            _ => false,
        }
    }

    /// The body bytes of the packet: the encoded record, or nothing for the
    /// ignored entry.
    pub fn get_data(&self) -> (r: Vec<u8>)
        ensures
            r@ == self.body(),
    {
        let res = match self {
            Packets::ServerboundHandshakingHandshake(p) => encode_to_vec(&**p),
            Packets::ServerboundStatusRequest(p) => encode_to_vec(&**p),
            Packets::ServerboundStatusPing(p) => encode_to_vec(&**p),
            Packets::ServerboundLoginLoginStart(p) => encode_to_vec(&**p),
            Packets::ServerboundLoginEncryptionResponse(p) => encode_to_vec(&**p),
            Packets::ClientboundStatusResponse(p) => encode_to_vec(&**p),
            Packets::ClientboundStatusPong(p) => encode_to_vec(&**p),
            Packets::ClientboundLoginDisconnect(p) => encode_to_vec(&**p),
            Packets::ClientboundLoginEncryptionRequest(p) => encode_to_vec(&**p),
            Packets::ClientboundLoginLoginSuccess(p) => encode_to_vec(&**p),
            Packets::ClientboundLoginSetCompression(p) => encode_to_vec(&**p),
            Packets::ClientboundPlayDisconnect(p) => encode_to_vec(&**p),
            Packets::InternalServerInitialize(_) => Ok(Vec::new()),
            Packets::InternalNetworkDisconnect(p) => encode_to_vec(&**p),
        };
        match res {
            Ok(v) => v,
            Err(_) => Vec::new(),
        }
    }
}

/// Decodes a packet body with the table of `direction` and `state`: `None`
/// for an id the table does not know, for the ignored entry, and for a body
/// that does not decode.
pub fn decode_packet(direction: Direction, state: PacketState, id: u8, data: &[u8]) -> (r: Option<Packets>)
    ensures
        option_view(r) == decode_table(direction, state, id, data@),
{
    match (direction, state, id) {
        (Direction::Serverbound, PacketState::Handshaking, 0x00) => match decode_record::<Handshake>(data) {
            Some(p) => Some(Packets::ServerboundHandshakingHandshake(Box::new(p))),
            None => None,
        },
        (Direction::Serverbound, PacketState::Status, 0x00) => Some(Packets::ServerboundStatusRequest(Box::new(Request {}))),
        (Direction::Serverbound, PacketState::Status, 0x01) => match decode_record::<Ping>(data) {
            Some(p) => Some(Packets::ServerboundStatusPing(Box::new(p))),
            None => None,
        },
        (Direction::Serverbound, PacketState::Login, 0x00) => match decode_record::<LoginStart>(data) {
            Some(p) => Some(Packets::ServerboundLoginLoginStart(Box::new(p))),
            None => None,
        },
        (Direction::Serverbound, PacketState::Login, 0x01) => match decode_record::<EncryptionResponse>(data) {
            Some(p) => Some(Packets::ServerboundLoginEncryptionResponse(Box::new(p))),
            None => None,
        },
        (Direction::Clientbound, PacketState::Status, 0x00) => match decode_record::<Response>(data) {
            Some(p) => Some(Packets::ClientboundStatusResponse(Box::new(p))),
            None => None,
        },
        (Direction::Clientbound, PacketState::Status, 0x01) => match decode_record::<Pong>(data) {
            Some(p) => Some(Packets::ClientboundStatusPong(Box::new(p))),
            None => None,
        },
        (Direction::Clientbound, PacketState::Login, 0x00) => match decode_record::<Disconnect>(data) {
            Some(p) => Some(Packets::ClientboundLoginDisconnect(Box::new(p))),
            None => None,
        },
        (Direction::Clientbound, PacketState::Login, 0x01) => match decode_record::<EncryptionRequest>(data) {
            Some(p) => Some(Packets::ClientboundLoginEncryptionRequest(Box::new(p))),
            None => None,
        },
        (Direction::Clientbound, PacketState::Login, 0x02) => match decode_record::<LoginSuccess>(data) {
            Some(p) => Some(Packets::ClientboundLoginLoginSuccess(Box::new(p))),
            None => None,
        },
        (Direction::Clientbound, PacketState::Login, 0x03) => match decode_record::<SetCompression>(data) {
            Some(p) => Some(Packets::ClientboundLoginSetCompression(Box::new(p))),
            None => None,
        },
        (Direction::Clientbound, PacketState::Play, 0x19) => match decode_record::<Disconnect>(data) {
            Some(p) => Some(Packets::ClientboundPlayDisconnect(Box::new(p))),
            None => None,
        },
        (Direction::Internal, PacketState::Network, 0x00) => match decode_record::<NetworkDisconnect>(data) {
            Some(p) => Some(Packets::InternalNetworkDisconnect(Box::new(p))),
            None => None,
        },
        _ => None,
    }
}

/// Every packet of the catalog but the ignored one decodes, with the table
/// it is listed under, from its id and body back to the same packet.
pub proof fn lemma_packet_round_trip(p: Packets)
    requires
        p.wf(),
        !(p is InternalServerInitialize),
    ensures
        decode_table(table_of(p@).0, table_of(p@).1, id_of(p@), p.body()) == Some(p@),
{
    let e = Seq::<u8>::empty();
    match p {
        Packets::ServerboundHandshakingHandshake(x) => {
            lemma_handshake_round_trip(*x, e);
            assert(x.wire() + e == x.wire());
        },
        Packets::ServerboundStatusRequest(_) => {},
        Packets::ServerboundStatusPing(x) => {
            lemma_i64_round_trip(x.payload, e);
            assert(x.wire() + e == x.wire());
        },
        Packets::ServerboundLoginLoginStart(x) => {
            lemma_login_start_round_trip(*x, e);
            assert(x.wire() + e == x.wire());
        },
        Packets::ServerboundLoginEncryptionResponse(x) => {
            lemma_encryption_response_round_trip(*x, e);
            assert(x.wire() + e == x.wire());
        },
        Packets::ClientboundStatusResponse(x) => {
            lemma_string_round_trip(x.json_response@, 32767, e);
            assert(x.wire() + e == x.wire());
        },
        Packets::ClientboundStatusPong(x) => {
            lemma_i64_round_trip(x.payload, e);
            assert(x.wire() + e == x.wire());
        },
        Packets::ClientboundLoginDisconnect(x) => {
            lemma_string_round_trip(x.reason@, 262144, e);
            assert(x.wire() + e == x.wire());
        },
        Packets::ClientboundLoginEncryptionRequest(x) => {
            lemma_encryption_request_round_trip(*x, e);
            assert(x.wire() + e == x.wire());
        },
        Packets::ClientboundLoginLoginSuccess(x) => {
            lemma_login_success_round_trip(*x, e);
            assert(x.wire() + e == x.wire());
        },
        Packets::ClientboundLoginSetCompression(x) => {
            lemma_varint_round_trip(x.threshold@, e);
            assert(x.wire() + e == x.wire());
        },
        Packets::ClientboundPlayDisconnect(x) => {
            lemma_string_round_trip(x.reason@, 262144, e);
            assert(x.wire() + e == x.wire());
        },
        Packets::InternalServerInitialize(_) => {},
        Packets::InternalNetworkDisconnect(x) => {
            lemma_string_round_trip(x.reason@, 32767, e);
            assert(x.wire() + e == x.wire());
        },
    }
}

} // verus!
