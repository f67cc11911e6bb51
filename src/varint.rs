//! The protocol's variable-length 32-bit integer: one to five little-endian
//! groups of seven bits, the high bit of each byte flagging a continuation.
use vstd::prelude::*;
use crate::serial::{Decode, DecodeError, Decoder, Encode, EncodeError, Encoder};

verus! {

/// The minimal wire form of `v`.
pub open spec fn varint_wire(v: u32) -> Seq<u8>
    decreases v,
{
    if v < 128 {
        seq![v as u8]
    } else {
        seq![(v % 128 + 128) as u8] + varint_wire(v / 128)
    }
}

/// The number of bytes in the wire form of `v`.
pub open spec fn varint_size(v: u32) -> nat {
    if v < 0x80 {
        1
    } else if v < 0x4000 {
        2
    } else if v < 0x20_0000 {
        3
    } else if v < 0x1000_0000 {
        4
    } else {
        5
    }
}

/// Reads the groups from byte `k` on, with `acc` holding the value of the
/// groups before it. At most five bytes are read.
pub open spec fn varint_parse_from(bytes: Seq<u8>, k: nat, acc: u32) -> Result<(u32, nat), DecodeError>
    decreases 5 - k,
{
    if k >= 5 {
        Err(DecodeError::InvalidData)
    } else if k >= bytes.len() {
        Err(DecodeError::NotEnoughBytes)
    } else {
        let b = bytes[k as int];
        let next = acc | (((b & 0x7f) as u32) << ((7 * k) as u32));
        if b & 0x80 == 0 {
            Ok((next, k + 1))
        } else {
            varint_parse_from(bytes, k + 1, next)
        }
    }
}

/// The varint at the front of `bytes` and its length in bytes.
pub open spec fn varint_parse(bytes: Seq<u8>) -> Result<(u32, nat), DecodeError> {
    varint_parse_from(bytes, 0, 0)
}

/// A 32-bit value carried as a varint.
#[allow(non_camel_case_types)]
#[derive(Debug, Clone, Copy, PartialEq, Eq, Structural)]
pub struct v32 {
    pub value: u32,
}

impl View for v32 {
    type V = u32;

    open spec fn view(&self) -> u32 {
        self.value
    }
}

impl v32 {
    /// The varint holding `value`.
    pub fn new(value: u32) -> (r: v32)
        ensures
            r@ == value,
    {
        v32 { value }
    }

    /// The value carried.
    pub fn value(&self) -> (r: u32)
        ensures
            r == self@,
    {
        self.value
    }

    /// Reads the varint at the front of `slice`, with the number of bytes it
    /// takes. The slice must hold a complete varint of at most five bytes.
    pub fn read_from_slice(slice: &[u8]) -> (r: (v32, usize))
        requires
            varint_parse(slice@) is Ok,
        ensures
            varint_parse(slice@) == Ok::<(u32, nat), DecodeError>((r.0@, r.1 as nat)),
    {
        let mut value: u32 = 0;
        let mut k: usize = 0;
        while k < 5
            invariant
                k <= 5,
                varint_parse(slice@) == varint_parse_from(slice@, k as nat, value),
                varint_parse(slice@) is Ok,
            decreases 5 - k,
        {
            let b = slice[k];
            value = value | (((b & 0x7f) as u32) << ((7 * k) as u32));
            if b & 0x80 == 0 {
                return (v32 { value }, k + 1);
            }
            k = k + 1;
        }
        (v32 { value }, k)
    }

    /// The number of bytes in the wire form of `val`.
    pub fn byte_size(val: u32) -> (r: usize)
        ensures
            r == varint_size(val),
            r == varint_wire(val).len(),
    {
        proof {
            lemma_varint_wire_len(val);
        }
        if val <= 0x7f {
            1
        } else if val <= 0x3fff {
            2
        } else if val <= 0x1f_ffff {
            3
        } else if val <= 0xfff_ffff {
            4
        } else {
            5
        }
    }
}

impl Encode for v32 {
    open spec fn wire(&self) -> Seq<u8> {
        varint_wire(self@)
    }

    fn encode(&self, encoder: &mut Encoder) -> (r: Result<(), EncodeError>) {
        let mut num: u32 = self.value;
        let ghost start = encoder@;
        loop
            invariant_except_break
                encoder@ + varint_wire(num) == start + varint_wire(self@),
            invariant
                start == old(encoder)@,
            ensures
                encoder@ == start + varint_wire(self@),
            decreases num,
        {
            if num & !0x7fu32 == 0 {
                assert(num & !0x7fu32 == 0 <==> num < 128) by (bit_vector);
                assert(varint_wire(num) == seq![num as u8]);
                encoder.push(num as u8);
                assert(encoder@ == start + varint_wire(self@));
                break;
            }
            assert(num & !0x7fu32 != 0 <==> num >= 128) by (bit_vector);
            let low: u32 = num & 0x7f;
            assert(low < 128) by (bit_vector)
                requires
                    low == num & 0x7f,
            ;
            let b: u8 = (low as u8) | 0x80u8;
            assert(b == (num % 128 + 128) as u8) by (bit_vector)
                requires
                    low == num & 0x7f,
                    b == (low as u8) | 0x80u8,
            ;
            assert(num >> 7u32 == num / 128) by (bit_vector);
            let ghost before = encoder@;
            encoder.push(b);
            proof {
                assert(varint_wire(num) == seq![b] + varint_wire(num / 128));
                assert(encoder@ + varint_wire(num / 128) == before + varint_wire(num));
            }
            num = num >> 7u32;
        }
        Ok(())
    }
}

impl Decode for v32 {
    open spec fn parse(bytes: Seq<u8>) -> Result<(u32, nat), DecodeError> {
        varint_parse(bytes)
    }

    fn decode(decoder: &mut Decoder) -> (r: Result<v32, DecodeError>) {
        let origin = decoder.offset();
        let ghost rest = decoder.rest();
        let ghost start = decoder.pos();
        let mut value: u32 = 0;
        let mut k: usize = 0;
        while k < 5
            invariant
                decoder.wf(),
                decoder.data() == old(decoder).data(),
                rest == old(decoder).rest(),
                start == old(decoder).pos(),
                origin == start,
                k <= 5,
                decoder.pos() == start + k,
                decoder.rest() == rest.skip(k as int),
                varint_parse(rest) == varint_parse_from(rest, k as nat, value),
            decreases 5 - k,
        {
            let b = match decoder.next_byte() {
                Ok(b) => b,
                Err(e) => {
                    decoder.set_offset(origin);
                    return Err(e);
                },
            };
            assert(b == rest[k as int]);
            assert(decoder.rest() == rest.skip(k + 1));
            value = value | (((b & 0x7f) as u32) << ((7 * k) as u32));
            if b & 0x80 == 0 {
                return Ok(v32 { value });
            }
            k = k + 1;
        }
        decoder.set_offset(origin);
        Err(DecodeError::InvalidData)
    }
}

/// The wire form of `v` has `varint_size(v)` bytes.
pub proof fn lemma_varint_wire_len(v: u32)
    ensures
        varint_wire(v).len() == varint_size(v),
{
    reveal_with_fuel(varint_wire, 6);
}

/// A varint reads back from its wire form, whatever follows it, and the
/// wire form has `varint_size(v)` bytes.
pub proof fn lemma_varint_round_trip(v: u32, rest: Seq<u8>)
    ensures
        varint_parse(varint_wire(v) + rest) == Ok::<(u32, nat), DecodeError>((v, varint_size(v))),
        varint_wire(v).len() == varint_size(v),
{
    lemma_varint_wire_len(v);
    reveal_with_fuel(varint_wire, 6);
    reveal_with_fuel(varint_parse_from, 6);
    let b = varint_wire(v) + rest;
    if v < 0x80 {
        assert(b[0] == v as u8);
        assert(v < 0x80 ==> (v as u8) & 0x80 == 0) by (bit_vector);
        assert(v < 0x80 ==> 0u32 | ((((v as u8) & 0x7f) as u32) << 0u32) == v) by (bit_vector);
    } else if v < 0x4000 {
        assert(b[0] == (v % 128 + 128) as u8);
        assert(b[1] == (v / 128) as u8);
        assert(0x80 <= v < 0x4000 ==> {
            let b0 = (v % 128 + 128) as u8;
            let b1 = (v / 128) as u8;
            &&& b0 & 0x80 != 0
            &&& b1 & 0x80 == 0
            &&& (0u32 | (((b0 & 0x7f) as u32) << 0u32)) | (((b1 & 0x7f) as u32) << 7u32) == v
        }) by (bit_vector);
    } else if v < 0x20_0000 {
        assert(b[0] == (v % 128 + 128) as u8);
        assert(b[1] == (v / 128 % 128 + 128) as u8);
        assert(b[2] == (v / 128 / 128) as u8);
        assert(0x4000 <= v < 0x20_0000 ==> {
            let b0 = (v % 128 + 128) as u8;
            let b1 = (v / 128 % 128 + 128) as u8;
            let b2 = (v / 128 / 128) as u8;
            &&& b0 & 0x80 != 0
            &&& b1 & 0x80 != 0
            &&& b2 & 0x80 == 0
            &&& ((0u32 | (((b0 & 0x7f) as u32) << 0u32)) | (((b1 & 0x7f) as u32) << 7u32)) | (((
            b2 & 0x7f) as u32) << 14u32) == v
        }) by (bit_vector);
    } else if v < 0x1000_0000 {
        assert(b[0] == (v % 128 + 128) as u8);
        assert(b[1] == (v / 128 % 128 + 128) as u8);
        assert(b[2] == (v / 128 / 128 % 128 + 128) as u8);
        assert(b[3] == (v / 128 / 128 / 128) as u8);
        assert(0x20_0000 <= v < 0x1000_0000 ==> {
            let b0 = (v % 128 + 128) as u8;
            let b1 = (v / 128 % 128 + 128) as u8;
            let b2 = (v / 128 / 128 % 128 + 128) as u8;
            let b3 = (v / 128 / 128 / 128) as u8;
            &&& b0 & 0x80 != 0
            &&& b1 & 0x80 != 0
            &&& b2 & 0x80 != 0
            &&& b3 & 0x80 == 0
            &&& (((0u32 | (((b0 & 0x7f) as u32) << 0u32)) | (((b1 & 0x7f) as u32) << 7u32)) | (((
            b2 & 0x7f) as u32) << 14u32)) | (((b3 & 0x7f) as u32) << 21u32) == v
        }) by (bit_vector);
    } else {
        assert(b[0] == (v % 128 + 128) as u8);
        assert(b[1] == (v / 128 % 128 + 128) as u8);
        assert(b[2] == (v / 128 / 128 % 128 + 128) as u8);
        assert(b[3] == (v / 128 / 128 / 128 % 128 + 128) as u8);
        assert(b[4] == (v / 128 / 128 / 128 / 128) as u8);
        assert(0x1000_0000 <= v ==> {
            let b0 = (v % 128 + 128) as u8;
            let b1 = (v / 128 % 128 + 128) as u8;
            let b2 = (v / 128 / 128 % 128 + 128) as u8;
            let b3 = (v / 128 / 128 / 128 % 128 + 128) as u8;
            let b4 = (v / 128 / 128 / 128 / 128) as u8;
            &&& b0 & 0x80 != 0
            &&& b1 & 0x80 != 0
            &&& b2 & 0x80 != 0
            &&& b3 & 0x80 != 0
            &&& b4 & 0x80 == 0
            &&& ((((0u32 | (((b0 & 0x7f) as u32) << 0u32)) | (((b1 & 0x7f) as u32) << 7u32)) | (((
            b2 & 0x7f) as u32) << 14u32)) | (((b3 & 0x7f) as u32) << 21u32)) | (((b4 & 0x7f) as u32)
                << 28u32) == v
        }) by (bit_vector);
    }
}

/// Six bytes that all carry the continuation flag are not a varint.
pub proof fn lemma_varint_too_long(bytes: Seq<u8>)
    requires
        bytes.len() >= 5,
        forall|i: int| 0 <= i < 5 ==> #[trigger] bytes[i] & 0x80 != 0,
    ensures
        varint_parse(bytes) == Err::<(u32, nat), DecodeError>(DecodeError::InvalidData),
{
    reveal_with_fuel(varint_parse_from, 6);
    assert(bytes[0] & 0x80 != 0);
    assert(bytes[1] & 0x80 != 0);
    assert(bytes[2] & 0x80 != 0);
    assert(bytes[3] & 0x80 != 0);
    assert(bytes[4] & 0x80 != 0);
}

impl From<u32> for v32 {
    fn from(value: u32) -> (r: v32) {
        v32 { value }
    }
}

impl vstd::std_specs::convert::FromSpecImpl<u32> for v32 {
    open spec fn obeys_from_spec() -> bool {
        true
    }

    open spec fn from_spec(v: u32) -> v32 {
        v32 { value: v }
    }
}

impl From<i32> for v32 {
    fn from(value: i32) -> (r: v32) {
        v32 { value: value as u32 }
    }
}

impl vstd::std_specs::convert::FromSpecImpl<i32> for v32 {
    open spec fn obeys_from_spec() -> bool {
        true
    }

    open spec fn from_spec(v: i32) -> v32 {
        v32 { value: v as u32 }
    }
}

impl From<v32> for u32 {
    fn from(value: v32) -> (r: u32) {
        value.value
    }
}

impl vstd::std_specs::convert::FromSpecImpl<v32> for u32 {
    open spec fn obeys_from_spec() -> bool {
        true
    }

    open spec fn from_spec(v: v32) -> u32 {
        v.value
    }
}

impl From<v32> for i32 {
    fn from(value: v32) -> (r: i32) {
        value.value as i32
    }
}

impl vstd::std_specs::convert::FromSpecImpl<v32> for i32 {
    open spec fn obeys_from_spec() -> bool {
        true
    }

    open spec fn from_spec(v: v32) -> i32 {
        v.value as i32
    }
}

} // verus!
