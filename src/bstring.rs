//! Text with a bound on its number of characters, carried on the wire as a
//! varint byte length followed by UTF-8.
use vstd::prelude::*;
use vstd::utf8::{decode_utf8, encode_scalar, encode_utf8, valid_utf8};
use vstd::string::StrSliceExecFns;
use crate::serial::{Decode, DecodeError, Decoder, Encode, EncodeError, Encoder};
use crate::varint::{lemma_varint_round_trip, v32, varint_parse, varint_wire};

verus! {

/// The largest bound any bounded string of the protocol carries.
pub const MAX_STRING_BOUND: usize = 262144;

/// Relies on `String::from_utf8`: it accepts exactly the valid UTF-8 byte
/// sequences, and the string it returns holds the characters they encode.
#[verifier::external_body]
fn string_from_utf8(bytes: Vec<u8>) -> (r: Option<String>)
    ensures
        r matches Some(s) ==> valid_utf8(bytes@) && s@ == decode_utf8(bytes@),
        r is None ==> !valid_utf8(bytes@),
{
    String::from_utf8(bytes).ok()
}

/// UTF-8 text of at most `L` characters.
#[derive(Debug, Clone, PartialEq, Eq)]
pub struct BoundedString<const L: usize> {
    pub(crate) value: String,
}

impl<const L: usize> View for BoundedString<L> {
    type V = Seq<char>;

    closed spec fn view(&self) -> Seq<char> {
        self.value@
    }
}

/// The wire form of a string: its UTF-8 byte length as a varint, then the
/// bytes.
pub open spec fn string_wire(s: Seq<char>) -> Seq<u8> {
    varint_wire(encode_utf8(s).len() as u32) + encode_utf8(s)
}

/// Reads a string of at most `bound` characters from the front of `bytes`.
pub open spec fn string_parse(bytes: Seq<u8>, bound: nat) -> Result<(Seq<char>, nat), DecodeError> {
    match varint_parse(bytes) {
        Err(e) => Err(e),
        Ok((n, k)) => if bytes.len() < k + n {
            Err(DecodeError::NotEnoughBytes)
        } else {
            let body = bytes.subrange(k as int, k + n);
            if valid_utf8(body) && decode_utf8(body).len() <= bound {
                Ok((decode_utf8(body), (k + n) as nat))
            } else {
                Err(DecodeError::InvalidData)
            }
        },
    }
}

/// `s` fits a bounded string of bound `bound`.
pub open spec fn fits_bound(s: Seq<char>, bound: nat) -> bool {
    0 < bound <= MAX_STRING_BOUND && s.len() <= bound
}

impl<const L: usize> BoundedString<L> {
    /// The string is within its bound, and the bound within the protocol's.
    pub open spec fn wf(&self) -> bool {
        fits_bound(self@, L as nat)
    }

    /// `value` as a bounded string, or `None` where it has more than `L`
    /// characters (or `L` itself is out of range).
    pub fn new(value: String) -> (r: Option<Self>)
        ensures
            r is Some <==> fits_bound(value@, L as nat),
            r matches Some(b) ==> b@ == value@ && b.wf(),
    {
        if L == 0 || L > MAX_STRING_BOUND {
            return None;
        }
        let count = value.as_str().unicode_len();
        if count > L {
            None
        } else {
            Some(BoundedString { value })
        }
    }

    /// `value`, known to be within the bound.
    pub(crate) fn from_within_bound(value: String) -> (r: Self)
        requires
            value@.len() <= L,
        ensures
            r@ == value@,
    {
        BoundedString { value }
    }

    /// The text.
    pub fn as_str(&self) -> (r: &str)
        ensures
            r@ == self@,
    {
        self.value.as_str()
    }

    /// The text, giving up the bound.
    pub fn into_string(self) -> (r: String)
        ensures
            r@ == self@,
    {
        self.value
    }
}

impl<const L: usize> Encode for BoundedString<L> {
    open spec fn wire(&self) -> Seq<u8> {
        string_wire(self@)
    }

    fn encode(&self, encoder: &mut Encoder) -> (r: Result<(), EncodeError>) {
        let bytes = self.value.as_str().as_bytes();
        #[verifier::truncate]
        let len = bytes.len() as u32;
        let _ = v32::new(len).encode(encoder);
        encoder.extend(bytes);
        Ok(())
    }
}

impl<const L: usize> Decode for BoundedString<L> {
    open spec fn parse(bytes: Seq<u8>) -> Result<(Seq<char>, nat), DecodeError> {
        string_parse(bytes, L as nat)
    }

    fn decode(decoder: &mut Decoder) -> (r: Result<Self, DecodeError>) {
        let start = decoder.offset();
        let ghost rest = decoder.rest();
        let len = match v32::decode(decoder) {
            Ok(v) => v.value(),
            Err(e) => {
                decoder.set_offset(start);
                return Err(e);
            },
        };
        let ghost k = (decoder.pos() - old(decoder).pos()) as nat;
        assert(decoder.rest() == rest.skip(k as int));
        let bytes = match decoder.read_bytes(len as usize) {
            Ok(b) => b,
            Err(e) => {
                decoder.set_offset(start);
                return Err(e);
            },
        };
        assert(bytes@ == rest.subrange(k as int, k + len));
        let value = match string_from_utf8(bytes) {
            Some(s) => s,
            None => {
                decoder.set_offset(start);
                return Err(DecodeError::InvalidData);
            },
        };
        if value.as_str().unicode_len() > L {
            decoder.set_offset(start);
            return Err(DecodeError::InvalidData);
        }
        Ok(BoundedString { value })
    }
}

/// A UTF-8 encoding has at most four bytes per character.
pub proof fn lemma_utf8_len(s: Seq<char>)
    ensures
        encode_utf8(s).len() <= 4 * s.len(),
    decreases s.len(),
{
    if s.len() > 0 {
        assert(encode_scalar(s[0] as u32).len() <= 4);
        lemma_utf8_len(s.drop_first());
    }
}

/// A string within its bound reads back from its wire form, whatever
/// follows it.
pub proof fn lemma_string_round_trip(s: Seq<char>, bound: nat, rest: Seq<u8>)
    requires
        fits_bound(s, bound),
    ensures
        string_parse(string_wire(s) + rest, bound) == Ok::<(Seq<char>, nat), DecodeError>(
            (s, string_wire(s).len()),
        ),
{
    broadcast use vstd::utf8::encode_utf8_valid_utf8, vstd::utf8::encode_utf8_decode_utf8;

    lemma_utf8_len(s);
    let body = encode_utf8(s);
    let n = body.len() as u32;
    assert(n as nat == body.len());
    let bytes = string_wire(s) + rest;
    assert(bytes == varint_wire(n) + (body + rest));
    lemma_varint_round_trip(n, body + rest);
    let k = varint_wire(n).len();
    assert(bytes.subrange(k as int, k + n) == body);
}

} // verus!
