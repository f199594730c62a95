//! Fixed-layout wire codec: per-field big/little-endian integers and the
//! body layout of every message kind. Bodies are not self-describing; a
//! body shorter than its kind's minimum is a decode error.

use vstd::prelude::*;

verus! {

/// Why a body failed to decode.
#[derive(Debug, Clone, Copy, PartialEq, Eq, Structural)]
pub enum DecodeError {
    /// The body is shorter than the layout requires.
    Truncated,
    /// The body of a fixed-length kind carries trailing bytes.
    Oversize,
    /// A length-prefixed string field holds invalid UTF-8.
    InvalidUtf8,
}

/// The big-endian 32-bit value stored in four bytes.
pub open spec fn u32_from_be_bytes(b: Seq<u8>) -> u32
    recommends
        b.len() == 4,
{
    (((b[0] as u32) << 24) | ((b[1] as u32) << 16) | ((b[2] as u32) << 8) | (b[3] as u32)) as u32
}

/// The little-endian 32-bit value stored in four bytes.
pub open spec fn u32_from_le_bytes(b: Seq<u8>) -> u32
    recommends
        b.len() == 4,
{
    (((b[3] as u32) << 24) | ((b[2] as u32) << 16) | ((b[1] as u32) << 8) | (b[0] as u32)) as u32
}

/// The little-endian 16-bit value stored in two bytes.
pub open spec fn u16_from_le_bytes(b: Seq<u8>) -> u16
    recommends
        b.len() == 2,
{
    (((b[1] as u16) << 8) | (b[0] as u16)) as u16
}

/// The four-byte big-endian encoding of a 32-bit value.
pub open spec fn u32_to_be_bytes(v: u32) -> Seq<u8> {
    seq![
        ((v >> 24) & 0xff) as u8,
        ((v >> 16) & 0xff) as u8,
        ((v >> 8) & 0xff) as u8,
        (v & 0xff) as u8,
    ]
}

/// The four-byte little-endian encoding of a 32-bit value.
pub open spec fn u32_to_le_bytes(v: u32) -> Seq<u8> {
    seq![
        (v & 0xff) as u8,
        ((v >> 8) & 0xff) as u8,
        ((v >> 16) & 0xff) as u8,
        ((v >> 24) & 0xff) as u8,
    ]
}

/// The two-byte little-endian encoding of a 16-bit value.
pub open spec fn u16_to_le_bytes(v: u16) -> Seq<u8> {
    seq![(v & 0xff) as u8, ((v >> 8) & 0xff) as u8]
}

/// The big-endian i32 stored in four bytes (two's complement).
pub open spec fn i32_from_be_bytes(b: Seq<u8>) -> i32
    recommends
        b.len() == 4,
{
    u32_from_be_bytes(b) as i32
}

/// The little-endian i32 stored in four bytes (two's complement).
pub open spec fn i32_from_le_bytes(b: Seq<u8>) -> i32
    recommends
        b.len() == 4,
{
    u32_from_le_bytes(b) as i32
}

/// The little-endian i16 stored in two bytes (two's complement).
pub open spec fn i16_from_le_bytes(b: Seq<u8>) -> i16
    recommends
        b.len() == 2,
{
    u16_from_le_bytes(b) as i16
}

/// The four-byte big-endian encoding of an i32.
pub open spec fn i32_to_be_bytes(v: i32) -> Seq<u8> {
    u32_to_be_bytes(v as u32)
}

/// The four-byte little-endian encoding of an i32.
pub open spec fn i32_to_le_bytes(v: i32) -> Seq<u8> {
    u32_to_le_bytes(v as u32)
}

/// The two-byte little-endian encoding of an i16.
pub open spec fn i16_to_le_bytes(v: i16) -> Seq<u8> {
    u16_to_le_bytes(v as u16)
}

/// Recomposing a u32 from its four big-endian bytes gives the value back.
pub proof fn lemma_u32_be_round_trip(v: u32)
    ensures
        u32_from_be_bytes(u32_to_be_bytes(v)) == v,
{
    let b0 = ((v >> 24) & 0xff) as u8;
    let b1 = ((v >> 16) & 0xff) as u8;
    let b2 = ((v >> 8) & 0xff) as u8;
    let b3 = (v & 0xff) as u8;
    assert((((b0 as u32) << 24) | ((b1 as u32) << 16) | ((b2 as u32) << 8) | (b3 as u32)) as u32
        == v) by (bit_vector)
        requires
            b0 == ((v >> 24) & 0xff) as u8,
            b1 == ((v >> 16) & 0xff) as u8,
            b2 == ((v >> 8) & 0xff) as u8,
            b3 == (v & 0xff) as u8,
    ;
}

/// Recomposing a u32 from its four little-endian bytes gives the value back.
pub proof fn lemma_u32_le_round_trip(v: u32)
    ensures
        u32_from_le_bytes(u32_to_le_bytes(v)) == v,
{
    let b0 = (v & 0xff) as u8;
    let b1 = ((v >> 8) & 0xff) as u8;
    let b2 = ((v >> 16) & 0xff) as u8;
    let b3 = ((v >> 24) & 0xff) as u8;
    assert((((b3 as u32) << 24) | ((b2 as u32) << 16) | ((b1 as u32) << 8) | (b0 as u32)) as u32
        == v) by (bit_vector)
        requires
            b0 == (v & 0xff) as u8,
            b1 == ((v >> 8) & 0xff) as u8,
            b2 == ((v >> 16) & 0xff) as u8,
            b3 == ((v >> 24) & 0xff) as u8,
    ;
}

/// Recomposing a u16 from its two little-endian bytes gives the value back.
pub proof fn lemma_u16_le_round_trip(v: u16)
    ensures
        u16_from_le_bytes(u16_to_le_bytes(v)) == v,
{
    let b0 = (v & 0xff) as u8;
    let b1 = ((v >> 8) & 0xff) as u8;
    assert((((b1 as u16) << 8) | (b0 as u16)) as u16 == v) by (bit_vector)
        requires
            b0 == (v & 0xff) as u8,
            b1 == ((v >> 8) & 0xff) as u8,
    ;
}

/// Recomposing an i32 from its four big-endian bytes gives the value back.
pub proof fn lemma_i32_be_round_trip(v: i32)
    ensures
        i32_from_be_bytes(i32_to_be_bytes(v)) == v,
{
    lemma_u32_be_round_trip(v as u32);
    assert((v as u32) as i32 == v) by (bit_vector);
}

/// Recomposing an i32 from its four little-endian bytes gives the value back.
pub proof fn lemma_i32_le_round_trip(v: i32)
    ensures
        i32_from_le_bytes(i32_to_le_bytes(v)) == v,
{
    lemma_u32_le_round_trip(v as u32);
    assert((v as u32) as i32 == v) by (bit_vector);
}

/// Recomposing an i16 from its two little-endian bytes gives the value back.
pub proof fn lemma_i16_le_round_trip(v: i16)
    ensures
        i16_from_le_bytes(i16_to_le_bytes(v)) == v,
{
    lemma_u16_le_round_trip(v as u16);
    assert((v as u16) as i16 == v) by (bit_vector);
}

/// Reads a big-endian u32 at `offset`; errs when fewer than four bytes remain.
pub fn read_u32_be(data: &[u8], offset: usize) -> (r: Result<u32, DecodeError>)
    ensures
        match r {
            Ok(v) => offset + 4 <= data@.len() && v == u32_from_be_bytes(
                data@.subrange(offset as int, offset + 4),
            ),
            Err(e) => offset + 4 > data@.len() && e == DecodeError::Truncated,
        },
{
    if offset >= data.len() || data.len() - offset < 4 {
        return Err(DecodeError::Truncated);
    }
    let b0 = data[offset];
    let b1 = data[offset + 1];
    let b2 = data[offset + 2];
    let b3 = data[offset + 3];
    let v = (((b0 as u32) << 24) | ((b1 as u32) << 16) | ((b2 as u32) << 8) | (b3 as u32)) as u32;
    proof {
        let s = data@.subrange(offset as int, offset + 4);
        assert(s[0] == b0 && s[1] == b1 && s[2] == b2 && s[3] == b3);
    }
    Ok(v)
}

/// Reads a little-endian u32 at `offset`; errs when fewer than four bytes remain.
pub fn read_u32_le(data: &[u8], offset: usize) -> (r: Result<u32, DecodeError>)
    ensures
        match r {
            Ok(v) => offset + 4 <= data@.len() && v == u32_from_le_bytes(
                data@.subrange(offset as int, offset + 4),
            ),
            Err(e) => offset + 4 > data@.len() && e == DecodeError::Truncated,
        },
{
    if offset >= data.len() || data.len() - offset < 4 {
        return Err(DecodeError::Truncated);
    }
    let b0 = data[offset];
    let b1 = data[offset + 1];
    let b2 = data[offset + 2];
    let b3 = data[offset + 3];
    let v = (((b3 as u32) << 24) | ((b2 as u32) << 16) | ((b1 as u32) << 8) | (b0 as u32)) as u32;
    proof {
        let s = data@.subrange(offset as int, offset + 4);
        assert(s[0] == b0 && s[1] == b1 && s[2] == b2 && s[3] == b3);
    }
    Ok(v)
}

/// Reads a big-endian i32 at `offset`; errs when fewer than four bytes remain.
pub fn read_i32_be(data: &[u8], offset: usize) -> (r: Result<i32, DecodeError>)
    ensures
        match r {
            Ok(v) => offset + 4 <= data@.len() && v == i32_from_be_bytes(
                data@.subrange(offset as int, offset + 4),
            ),
            Err(e) => offset + 4 > data@.len() && e == DecodeError::Truncated,
        },
{
    match read_u32_be(data, offset) {
        Ok(v) => Ok(v as i32),
        Err(e) => Err(e),
    }
}

/// Reads a little-endian i32 at `offset`; errs when fewer than four bytes remain.
pub fn read_i32_le(data: &[u8], offset: usize) -> (r: Result<i32, DecodeError>)
    ensures
        match r {
            Ok(v) => offset + 4 <= data@.len() && v == i32_from_le_bytes(
                data@.subrange(offset as int, offset + 4),
            ),
            Err(e) => offset + 4 > data@.len() && e == DecodeError::Truncated,
        },
{
    match read_u32_le(data, offset) {
        Ok(v) => Ok(v as i32),
        Err(e) => Err(e),
    }
}

/// Reads a little-endian i16 at `offset`; errs when fewer than two bytes remain.
pub fn read_i16_le(data: &[u8], offset: usize) -> (r: Result<i16, DecodeError>)
    ensures
        match r {
            Ok(v) => offset + 2 <= data@.len() && v == i16_from_le_bytes(
                data@.subrange(offset as int, offset + 2),
            ),
            Err(e) => offset + 2 > data@.len() && e == DecodeError::Truncated,
        },
{
    if offset >= data.len() || data.len() - offset < 2 {
        return Err(DecodeError::Truncated);
    }
    let b0 = data[offset];
    let b1 = data[offset + 1];
    let v = (((b1 as u16) << 8) | (b0 as u16)) as u16;
    proof {
        let s = data@.subrange(offset as int, offset + 2);
        assert(s[0] == b0 && s[1] == b1);
    }
    Ok(v as i16)
}

/// Appends the four big-endian bytes of `value`.
pub fn write_u32_be(buf: &mut Vec<u8>, value: u32)
    ensures
        final(buf)@ == old(buf)@ + u32_to_be_bytes(value),
{
    buf.push(((value >> 24) & 0xff) as u8);
    buf.push(((value >> 16) & 0xff) as u8);
    buf.push(((value >> 8) & 0xff) as u8);
    buf.push((value & 0xff) as u8);
    proof {
        assert(final(buf)@ =~= old(buf)@ + u32_to_be_bytes(value));
    }
}

/// Appends the four little-endian bytes of `value`.
pub fn write_u32_le(buf: &mut Vec<u8>, value: u32)
    ensures
        final(buf)@ == old(buf)@ + u32_to_le_bytes(value),
{
    buf.push((value & 0xff) as u8);
    buf.push(((value >> 8) & 0xff) as u8);
    buf.push(((value >> 16) & 0xff) as u8);
    buf.push(((value >> 24) & 0xff) as u8);
    proof {
        assert(final(buf)@ =~= old(buf)@ + u32_to_le_bytes(value));
    }
}

/// Appends the four big-endian bytes of an i32.
pub fn write_i32_be(buf: &mut Vec<u8>, value: i32)
    ensures
        final(buf)@ == old(buf)@ + i32_to_be_bytes(value),
{
    write_u32_be(buf, value as u32);
}

/// Relies on `String::from_utf8`: returns `Ok` exactly when the bytes are
/// valid UTF-8, and the returned string's UTF-8 encoding is the input.
#[verifier::external_body]
pub(crate) fn string_from_utf8(bytes: Vec<u8>) -> (r: Option<String>)
    ensures
        match r {
            Some(s) => vstd::utf8::valid_utf8(bytes@) && vstd::utf8::encode_utf8(s@) == bytes@,
            None => !vstd::utf8::valid_utf8(bytes@),
        },
{
    String::from_utf8(bytes).ok()
}

/// A length-prefixed string field: four big-endian length bytes, then that
/// many UTF-8 bytes. Yields the decoded characters and the offset just
/// past the field, or the reason the field does not parse.
pub open spec fn spec_take_string(b: Seq<u8>, off: int) -> Result<(Seq<char>, int), DecodeError> {
    if off + 4 > b.len() {
        Err(DecodeError::Truncated)
    } else {
        let n = u32_from_be_bytes(b.subrange(off, off + 4)) as int;
        if off + 4 + n > b.len() {
            Err(DecodeError::Truncated)
        } else if !vstd::utf8::valid_utf8(b.subrange(off + 4, off + 4 + n)) {
            Err(DecodeError::InvalidUtf8)
        } else {
            Ok((vstd::utf8::decode_utf8(b.subrange(off + 4, off + 4 + n)), off + 4 + n))
        }
    }
}

/// Reads one length-prefixed UTF-8 string field at `offset`.
fn read_prefixed_string(data: &[u8], offset: usize) -> (r: Result<(String, usize), DecodeError>)
    ensures
        match r {
            Ok(p) => spec_take_string(data@, offset as int) == Ok::<(Seq<char>, int), DecodeError>(
                (p.0@, p.1 as int),
            ),
            Err(e) => spec_take_string(data@, offset as int) == Err::<
                (Seq<char>, int),
                DecodeError,
            >(e),
        },
{
    let n_u32 = match read_u32_be(data, offset) {
        Ok(v) => v,
        Err(e) => {
            return Err(e);
        },
    };
    let n = n_u32 as usize;
    let dlen = data.len();
    proof {
        assert(offset + 4 <= dlen);
    }
    let start = offset + 4;
    if dlen - start < n {
        return Err(DecodeError::Truncated);
    }
    let bytes = vstd::slice::slice_to_vec(vstd::slice::slice_subrange(data, start, start + n));
    match string_from_utf8(bytes) {
        Some(s) => {
            proof {
                vstd::utf8::encode_utf8_decode_utf8(s@);
            }
            Ok((s, start + n))
        },
        None => Err(DecodeError::InvalidUtf8),
    }
}

/// The handshake body: lobby name, password and username, each a
/// length-prefixed UTF-8 string.
#[derive(Debug, Clone)]
pub struct LoginPacket {
    pub lobby_name: String,
    pub password: String,
    pub username: String,
}

/// Mathematical image of a [`LoginPacket`].
#[verifier::ext_equal]
pub ghost struct LoginV {
    pub lobby_name: Seq<char>,
    pub password: Seq<char>,
    pub username: Seq<char>,
}

impl View for LoginPacket {
    type V = LoginV;

    open spec fn view(&self) -> LoginV {
        LoginV {
            lobby_name: self.lobby_name@,
            password: self.password@,
            username: self.username@,
        }
    }
}

/// How a handshake body decodes: three length-prefixed UTF-8 strings in
/// order, with nothing required after the third.
pub open spec fn spec_login_decode(b: Seq<u8>) -> Result<LoginV, DecodeError> {
    match spec_take_string(b, 0) {
        Err(e) => Err(e),
        Ok(first) => match spec_take_string(b, first.1) {
            Err(e) => Err(e),
            Ok(second) => match spec_take_string(b, second.1) {
                Err(e) => Err(e),
                Ok(third) => Ok(
                    LoginV { lobby_name: first.0, password: second.0, username: third.0 },
                ),
            },
        },
    }
}

impl LoginPacket {
    /// Decodes a handshake body, exactly as [`spec_login_decode`] reads it.
    pub fn deserialize(data: &[u8]) -> (r: Result<LoginPacket, DecodeError>)
        ensures
            match r {
                Ok(p) => spec_login_decode(data@) == Ok::<LoginV, DecodeError>(p@),
                Err(e) => spec_login_decode(data@) == Err::<LoginV, DecodeError>(e),
            },
    {
        let (lobby_name, off1) = match read_prefixed_string(data, 0) {
            Ok(p) => p,
            Err(e) => {
                return Err(e);
            },
        };
        let (password, off2) = match read_prefixed_string(data, off1) {
            Ok(p) => p,
            Err(e) => {
                return Err(e);
            },
        };
        let (username, _off3) = match read_prefixed_string(data, off2) {
            Ok(p) => p,
            Err(e) => {
                return Err(e);
            },
        };
        Ok(LoginPacket { lobby_name, password, username })
    }
}

/// The client-to-server jiggy body: two little-endian i32 fields.
#[derive(Debug, Clone, PartialEq, Eq, Structural)]
pub struct JiggyPacket {
    pub jiggy_enum_id: i32,
    pub collected_value: i32,
}

impl JiggyPacket {
    /// Decodes the two little-endian i32 fields. The body is fixed at 8
    /// bytes: shorter errs `Truncated`, longer errs `Oversize`.
    pub fn deserialize(data: &[u8]) -> (r: Result<JiggyPacket, DecodeError>)
        ensures
            match r {
                Ok(p) => data@.len() == 8 && p.jiggy_enum_id == i32_from_le_bytes(
                    data@.subrange(0, 4),
                ) && p.collected_value == i32_from_le_bytes(data@.subrange(4, 8)),
                Err(e) => (data@.len() < 8 && e == DecodeError::Truncated) || (data@.len() > 8
                    && e == DecodeError::Oversize),
            },
    {
        if data.len() < 8 {
            return Err(DecodeError::Truncated);
        }
        if data.len() > 8 {
            return Err(DecodeError::Oversize);
        }
        let jiggy_enum_id = match read_i32_le(data, 0) {
            Ok(v) => v,
            Err(e) => {
                return Err(e);
            },
        };
        let collected_value = match read_i32_le(data, 4) {
            Ok(v) => v,
            Err(e) => {
                return Err(e);
            },
        };
        Ok(JiggyPacket { jiggy_enum_id, collected_value })
    }
}

/// The legacy note body: map and level ids, a dynamic flag byte, and the
/// note index (13 bytes).
#[derive(Debug, Clone, PartialEq, Eq, Structural)]
pub struct NotePacket {
    pub map_id: i32,
    pub level_id: i32,
    pub is_dynamic: bool,
    pub note_index: i32,
}

impl NotePacket {
    /// Decodes the legacy note body. The body is fixed at 13 bytes:
    /// shorter errs `Truncated`, longer errs `Oversize`.
    pub fn deserialize(data: &[u8]) -> (r: Result<NotePacket, DecodeError>)
        ensures
            match r {
                Ok(p) => data@.len() == 13 && p.map_id == i32_from_le_bytes(data@.subrange(0, 4))
                    && p.level_id == i32_from_le_bytes(data@.subrange(4, 8)) && p.is_dynamic == (
                data@[8] != 0) && p.note_index == i32_from_le_bytes(data@.subrange(9, 13)),
                Err(e) => (data@.len() < 13 && e == DecodeError::Truncated) || (data@.len() > 13
                    && e == DecodeError::Oversize),
            },
    {
        if data.len() < 13 {
            return Err(DecodeError::Truncated);
        }
        if data.len() > 13 {
            return Err(DecodeError::Oversize);
        }
        let map_id = match read_i32_le(data, 0) {
            Ok(v) => v,
            Err(e) => {
                return Err(e);
            },
        };
        let level_id = match read_i32_le(data, 4) {
            Ok(v) => v,
            Err(e) => {
                return Err(e);
            },
        };
        let is_dynamic = data[8] != 0;
        let note_index = match read_i32_le(data, 9) {
            Ok(v) => v,
            Err(e) => {
                return Err(e);
            },
        };
        Ok(NotePacket { map_id, level_id, is_dynamic, note_index })
    }
}

/// The positional note body: a little-endian i32 map id and three
/// little-endian i16 axes, widened to i32 (10 bytes).
#[derive(Debug, Clone, PartialEq, Eq, Structural)]
pub struct NotePacketPos {
    pub map_id: i32,
    pub x: i32,
    pub y: i32,
    pub z: i32,
}

impl NotePacketPos {
    /// Decodes the positional note body. The body is fixed at 10 bytes:
    /// shorter errs `Truncated`, longer errs `Oversize`.
    pub fn deserialize(data: &[u8]) -> (r: Result<NotePacketPos, DecodeError>)
        ensures
            match r {
                Ok(p) => data@.len() == 10 && p.map_id == i32_from_le_bytes(data@.subrange(0, 4))
                    && p.x == i16_from_le_bytes(data@.subrange(4, 6)) as i32 && p.y
                    == i16_from_le_bytes(data@.subrange(6, 8)) as i32 && p.z == i16_from_le_bytes(
                    data@.subrange(8, 10),
                ) as i32,
                Err(e) => (data@.len() < 10 && e == DecodeError::Truncated) || (data@.len() > 10
                    && e == DecodeError::Oversize),
            },
    {
        if data.len() < 10 {
            return Err(DecodeError::Truncated);
        }
        if data.len() > 10 {
            return Err(DecodeError::Oversize);
        }
        let map_id = match read_i32_le(data, 0) {
            Ok(v) => v,
            Err(e) => {
                return Err(e);
            },
        };
        let x = match read_i16_le(data, 4) {
            Ok(v) => v as i32,
            Err(e) => {
                return Err(e);
            },
        };
        let y = match read_i16_le(data, 6) {
            Ok(v) => v as i32,
            Err(e) => {
                return Err(e);
            },
        };
        let z = match read_i16_le(data, 8) {
            Ok(v) => v as i32,
            Err(e) => {
                return Err(e);
            },
        };
        Ok(NotePacketPos { map_id, x, y, z })
    }
}

/// The level-opened body: world id and jiggy cost (8 bytes, little-endian
/// inbound, big-endian outbound).
#[derive(Debug, Clone, PartialEq, Eq, Structural)]
pub struct LevelOpenedPacket {
    pub world_id: i32,
    pub jiggy_cost: i32,
}

impl LevelOpenedPacket {
    /// Decodes the two little-endian i32 fields. The body is fixed at 8
    /// bytes: shorter errs `Truncated`, longer errs `Oversize`.
    pub fn deserialize(data: &[u8]) -> (r: Result<LevelOpenedPacket, DecodeError>)
        ensures
            match r {
                Ok(p) => data@.len() == 8 && p.world_id == i32_from_le_bytes(data@.subrange(0, 4))
                    && p.jiggy_cost == i32_from_le_bytes(data@.subrange(4, 8)),
                Err(e) => (data@.len() < 8 && e == DecodeError::Truncated) || (data@.len() > 8
                    && e == DecodeError::Oversize),
            },
    {
        if data.len() < 8 {
            return Err(DecodeError::Truncated);
        }
        if data.len() > 8 {
            return Err(DecodeError::Oversize);
        }
        let world_id = match read_i32_le(data, 0) {
            Ok(v) => v,
            Err(e) => {
                return Err(e);
            },
        };
        let jiggy_cost = match read_i32_le(data, 4) {
            Ok(v) => v,
            Err(e) => {
                return Err(e);
            },
        };
        Ok(LevelOpenedPacket { world_id, jiggy_cost })
    }

    /// Encodes both fields big-endian, in order.
    pub fn serialize(&self) -> (r: Vec<u8>)
        ensures
            r@ == i32_to_be_bytes(self.world_id) + i32_to_be_bytes(self.jiggy_cost),
    {
        let mut payload: Vec<u8> = Vec::new();
        write_i32_be(&mut payload, self.world_id);
        write_i32_be(&mut payload, self.jiggy_cost);
        proof {
            assert(payload@ =~= i32_to_be_bytes(self.world_id) + i32_to_be_bytes(self.jiggy_cost));
        }
        payload
    }
}

/// The file-progress blob body: raw bytes, passed through whole.
#[derive(Debug, Clone)]
pub struct FileProgressFlagsPacket {
    pub flags: Vec<u8>,
}

impl FileProgressFlagsPacket {
    /// Takes the whole body as the blob; any length is accepted.
    pub fn deserialize(data: &[u8]) -> (r: Result<FileProgressFlagsPacket, DecodeError>)
        ensures
            r matches Ok(p) && p.flags@ == data@,
    {
        Ok(FileProgressFlagsPacket { flags: vstd::slice::slice_to_vec(data) })
    }

    /// The blob, byte for byte.
    pub fn serialize(&self) -> (r: Vec<u8>)
        ensures
            r@ == self.flags@,
    {
        self.flags.clone()
    }
}

/// The ability-progress blob body: raw bytes, passed through whole.
#[derive(Debug, Clone)]
pub struct AbilityProgressPacket {
    pub bytes: Vec<u8>,
}

impl AbilityProgressPacket {
    /// Takes the whole body as the blob; any length is accepted.
    pub fn deserialize(data: &[u8]) -> (r: Result<AbilityProgressPacket, DecodeError>)
        ensures
            r matches Ok(p) && p.bytes@ == data@,
    {
        Ok(AbilityProgressPacket { bytes: vstd::slice::slice_to_vec(data) })
    }

    /// The blob, byte for byte.
    pub fn serialize(&self) -> (r: Vec<u8>)
        ensures
            r@ == self.bytes@,
    {
        self.bytes.clone()
    }
}

/// The honeycomb-score blob body: raw bytes, passed through whole.
#[derive(Debug, Clone)]
pub struct HoneycombScorePacket {
    pub bytes: Vec<u8>,
}

impl HoneycombScorePacket {
    /// Takes the whole body as the blob; any length is accepted.
    pub fn deserialize(data: &[u8]) -> (r: Result<HoneycombScorePacket, DecodeError>)
        ensures
            r matches Ok(p) && p.bytes@ == data@,
    {
        Ok(HoneycombScorePacket { bytes: vstd::slice::slice_to_vec(data) })
    }

    /// The blob, byte for byte.
    pub fn serialize(&self) -> (r: Vec<u8>)
        ensures
            r@ == self.bytes@,
    {
        self.bytes.clone()
    }
}

/// The Mumbo-score blob body: raw bytes, passed through whole.
#[derive(Debug, Clone)]
pub struct MumboScorePacket {
    pub bytes: Vec<u8>,
}

impl MumboScorePacket {
    /// Takes the whole body as the blob; any length is accepted.
    pub fn deserialize(data: &[u8]) -> (r: Result<MumboScorePacket, DecodeError>)
        ensures
            r matches Ok(p) && p.bytes@ == data@,
    {
        Ok(MumboScorePacket { bytes: vstd::slice::slice_to_vec(data) })
    }

    /// The blob, byte for byte.
    pub fn serialize(&self) -> (r: Vec<u8>)
        ensures
            r@ == self.bytes@,
    {
        self.bytes.clone()
    }
}

/// The honeycomb-collected body: five little-endian i32 fields (20 bytes).
#[derive(Debug, Clone, PartialEq, Eq, Structural)]
pub struct HoneycombCollectedPacket {
    pub map_id: i32,
    pub honeycomb_id: i32,
    pub x: i32,
    pub y: i32,
    pub z: i32,
}

impl HoneycombCollectedPacket {
    /// Decodes the five little-endian i32 fields. The body is fixed at
    /// 20 bytes: shorter errs `Truncated`, longer errs `Oversize`.
    pub fn deserialize(data: &[u8]) -> (r: Result<HoneycombCollectedPacket, DecodeError>)
        ensures
            match r {
                Ok(p) => data@.len() == 20 && p.map_id == i32_from_le_bytes(data@.subrange(0, 4))
                    && p.honeycomb_id == i32_from_le_bytes(data@.subrange(4, 8)) && p.x
                    == i32_from_le_bytes(data@.subrange(8, 12)) && p.y == i32_from_le_bytes(
                    data@.subrange(12, 16),
                ) && p.z == i32_from_le_bytes(data@.subrange(16, 20)),
                Err(e) => (data@.len() < 20 && e == DecodeError::Truncated) || (data@.len() > 20
                    && e == DecodeError::Oversize),
            },
    {
        if data.len() < 20 {
            return Err(DecodeError::Truncated);
        }
        if data.len() > 20 {
            return Err(DecodeError::Oversize);
        }
        let map_id = match read_i32_le(data, 0) {
            Ok(v) => v,
            Err(e) => {
                return Err(e);
            },
        };
        let honeycomb_id = match read_i32_le(data, 4) {
            Ok(v) => v,
            Err(e) => {
                return Err(e);
            },
        };
        let x = match read_i32_le(data, 8) {
            Ok(v) => v,
            Err(e) => {
                return Err(e);
            },
        };
        let y = match read_i32_le(data, 12) {
            Ok(v) => v,
            Err(e) => {
                return Err(e);
            },
        };
        let z = match read_i32_le(data, 16) {
            Ok(v) => v,
            Err(e) => {
                return Err(e);
            },
        };
        Ok(HoneycombCollectedPacket { map_id, honeycomb_id, x, y, z })
    }
}

/// The Mumbo-token-collected body: five little-endian i32 fields (20 bytes).
#[derive(Debug, Clone, PartialEq, Eq, Structural)]
pub struct MumboTokenCollectedPacket {
    pub map_id: i32,
    pub token_id: i32,
    pub x: i32,
    pub y: i32,
    pub z: i32,
}

impl MumboTokenCollectedPacket {
    /// Decodes the five little-endian i32 fields. The body is fixed at
    /// 20 bytes: shorter errs `Truncated`, longer errs `Oversize`.
    pub fn deserialize(data: &[u8]) -> (r: Result<MumboTokenCollectedPacket, DecodeError>)
        ensures
            match r {
                Ok(p) => data@.len() == 20 && p.map_id == i32_from_le_bytes(data@.subrange(0, 4))
                    && p.token_id == i32_from_le_bytes(data@.subrange(4, 8)) && p.x
                    == i32_from_le_bytes(data@.subrange(8, 12)) && p.y == i32_from_le_bytes(
                    data@.subrange(12, 16),
                ) && p.z == i32_from_le_bytes(data@.subrange(16, 20)),
                Err(e) => (data@.len() < 20 && e == DecodeError::Truncated) || (data@.len() > 20
                    && e == DecodeError::Oversize),
            },
    {
        if data.len() < 20 {
            return Err(DecodeError::Truncated);
        }
        if data.len() > 20 {
            return Err(DecodeError::Oversize);
        }
        let map_id = match read_i32_le(data, 0) {
            Ok(v) => v,
            Err(e) => {
                return Err(e);
            },
        };
        let token_id = match read_i32_le(data, 4) {
            Ok(v) => v,
            Err(e) => {
                return Err(e);
            },
        };
        let x = match read_i32_le(data, 8) {
            Ok(v) => v,
            Err(e) => {
                return Err(e);
            },
        };
        let y = match read_i32_le(data, 12) {
            Ok(v) => v,
            Err(e) => {
                return Err(e);
            },
        };
        let z = match read_i32_le(data, 16) {
            Ok(v) => v,
            Err(e) => {
                return Err(e);
            },
        };
        Ok(MumboTokenCollectedPacket { map_id, token_id, x, y, z })
    }
}

/// The note-save-data body: a little-endian i32 level index, then the
/// slot bytes (32 when well-formed; the length is checked at the merge).
#[derive(Debug, Clone)]
pub struct NoteSaveDataPacket {
    pub level_index: i32,
    pub save_data: Vec<u8>,
}

impl NoteSaveDataPacket {
    /// Decodes the level index and takes the rest of the body as the slot.
    pub fn deserialize(data: &[u8]) -> (r: Result<NoteSaveDataPacket, DecodeError>)
        ensures
            match r {
                Ok(p) => data@.len() >= 4 && p.level_index == i32_from_le_bytes(
                    data@.subrange(0, 4),
                ) && p.save_data@ == data@.subrange(4, data@.len() as int),
                Err(e) => data@.len() < 4 && e == DecodeError::Truncated,
            },
    {
        if data.len() < 4 {
            return Err(DecodeError::Truncated);
        }
        let level_index = match read_i32_le(data, 0) {
            Ok(v) => v,
            Err(e) => {
                return Err(e);
            },
        };
        let save_data = vstd::slice::slice_to_vec(
            vstd::slice::slice_subrange(data, 4, data.len()),
        );
        Ok(NoteSaveDataPacket { level_index, save_data })
    }

    /// Encodes the level index big-endian, then the slot bytes.
    pub fn serialize(&self) -> (r: Vec<u8>)
        ensures
            r@ == i32_to_be_bytes(self.level_index) + self.save_data@,
    {
        let mut payload: Vec<u8> = Vec::new();
        write_i32_be(&mut payload, self.level_index);
        payload.extend_from_slice(self.save_data.as_slice());
        proof {
            assert(payload@ =~= i32_to_be_bytes(self.level_index) + self.save_data@);
        }
        payload
    }
}

/// The jiggy broadcast: sender id (0 for history replays), then the two
/// jiggy fields, all big-endian.
#[derive(Debug, Clone)]
pub struct BroadcastJiggy {
    pub jiggy_enum_id: i32,
    pub collected_value: i32,
    pub collector: String,
}

impl BroadcastJiggy {
    /// Encodes `player_id` big-endian, then both fields big-endian.
    pub fn serialize(&self, player_id: u32) -> (r: Vec<u8>)
        ensures
            r@ == u32_to_be_bytes(player_id) + i32_to_be_bytes(self.jiggy_enum_id)
                + i32_to_be_bytes(self.collected_value),
    {
        let mut buf: Vec<u8> = Vec::new();
        write_u32_be(&mut buf, player_id);
        write_i32_be(&mut buf, self.jiggy_enum_id);
        write_i32_be(&mut buf, self.collected_value);
        proof {
            assert(buf@ =~= u32_to_be_bytes(player_id) + i32_to_be_bytes(self.jiggy_enum_id)
                + i32_to_be_bytes(self.collected_value));
        }
        buf
    }
}

/// The legacy note broadcast: sender id, map and level ids, the dynamic
/// flag widened to an i32, and the note index, all big-endian.
#[derive(Debug, Clone)]
pub struct BroadcastNote {
    pub map_id: i32,
    pub level_id: i32,
    pub is_dynamic: bool,
    pub note_index: i32,
    pub collector: String,
}

impl BroadcastNote {
    /// Encodes `player_id`, the ids, the flag as 0 or 1, and the index,
    /// all big-endian.
    pub fn serialize(&self, player_id: u32) -> (r: Vec<u8>)
        ensures
            r@ == u32_to_be_bytes(player_id) + i32_to_be_bytes(self.map_id) + i32_to_be_bytes(
                self.level_id,
            ) + i32_to_be_bytes(
                if self.is_dynamic {
                    1i32
                } else {
                    0i32
                },
            ) + i32_to_be_bytes(self.note_index),
    {
        let mut buf: Vec<u8> = Vec::new();
        write_u32_be(&mut buf, player_id);
        write_i32_be(&mut buf, self.map_id);
        write_i32_be(&mut buf, self.level_id);
        write_i32_be(
            &mut buf,
            if self.is_dynamic {
                1
            } else {
                0
            },
        );
        write_i32_be(&mut buf, self.note_index);
        proof {
            assert(buf@ =~= u32_to_be_bytes(player_id) + i32_to_be_bytes(self.map_id)
                + i32_to_be_bytes(self.level_id) + i32_to_be_bytes(
                if self.is_dynamic {
                    1i32
                } else {
                    0i32
                },
            ) + i32_to_be_bytes(self.note_index));
        }
        buf
    }
}

/// The positional note broadcast: sender id, map id and the three axes
/// widened to i32, all big-endian.
#[derive(Debug, Clone)]
pub struct BroadcastNotePos {
    pub map_id: i32,
    pub x: i32,
    pub y: i32,
    pub z: i32,
    pub collector: String,
}

impl BroadcastNotePos {
    /// Encodes `player_id`, the map id and the three axes, all big-endian.
    pub fn serialize(&self, player_id: u32) -> (r: Vec<u8>)
        ensures
            r@ == u32_to_be_bytes(player_id) + i32_to_be_bytes(self.map_id) + i32_to_be_bytes(
                self.x,
            ) + i32_to_be_bytes(self.y) + i32_to_be_bytes(self.z),
    {
        let mut buf: Vec<u8> = Vec::new();
        write_u32_be(&mut buf, player_id);
        write_i32_be(&mut buf, self.map_id);
        write_i32_be(&mut buf, self.x);
        write_i32_be(&mut buf, self.y);
        write_i32_be(&mut buf, self.z);
        proof {
            assert(buf@ =~= u32_to_be_bytes(player_id) + i32_to_be_bytes(self.map_id)
                + i32_to_be_bytes(self.x) + i32_to_be_bytes(self.y) + i32_to_be_bytes(self.z));
        }
        buf
    }
}

/// The level-opened broadcast: sender id, world id and jiggy cost, all
/// big-endian.
#[derive(Debug, Clone, PartialEq, Eq, Structural)]
pub struct BroadcastLevelOpened {
    pub world_id: i32,
    pub jiggy_cost: i32,
}

impl BroadcastLevelOpened {
    /// Encodes `player_id`, the world id and the cost, all big-endian.
    pub fn serialize(&self, player_id: u32) -> (r: Vec<u8>)
        ensures
            r@ == u32_to_be_bytes(player_id) + i32_to_be_bytes(self.world_id) + i32_to_be_bytes(
                self.jiggy_cost,
            ),
    {
        let mut buf: Vec<u8> = Vec::new();
        write_u32_be(&mut buf, player_id);
        write_i32_be(&mut buf, self.world_id);
        write_i32_be(&mut buf, self.jiggy_cost);
        proof {
            assert(buf@ =~= u32_to_be_bytes(player_id) + i32_to_be_bytes(self.world_id)
                + i32_to_be_bytes(self.jiggy_cost));
        }
        buf
    }
}

/// The player-connected broadcast: the new member's id, then the username
/// as a length-prefixed UTF-8 string, lengths big-endian.
#[derive(Debug, Clone)]
pub struct PlayerConnectedBroadcast {
    pub username: String,
    pub player_id: u32,
}

impl PlayerConnectedBroadcast {
    /// Encodes the id, the username's byte length, and its UTF-8 bytes.
    pub fn serialize(&self) -> (r: Vec<u8>)
        requires
            vstd::utf8::encode_utf8(self.username@).len() <= u32::MAX,
        ensures
            r@ == u32_to_be_bytes(self.player_id) + u32_to_be_bytes(
                vstd::utf8::encode_utf8(self.username@).len() as u32,
            ) + vstd::utf8::encode_utf8(self.username@),
    {
        let mut buf: Vec<u8> = Vec::new();
        write_u32_be(&mut buf, self.player_id);
        let name_bytes = self.username.as_str().as_bytes();
        write_u32_be(&mut buf, name_bytes.len() as u32);
        buf.extend_from_slice(name_bytes);
        proof {
            assert(buf@ =~= u32_to_be_bytes(self.player_id) + u32_to_be_bytes(
                vstd::utf8::encode_utf8(self.username@).len() as u32,
            ) + vstd::utf8::encode_utf8(self.username@));
        }
        buf
    }
}

/// The player-disconnected broadcast: same layout as player-connected.
#[derive(Debug, Clone)]
pub struct PlayerDisconnectedBroadcast {
    pub username: String,
    pub player_id: u32,
}

impl PlayerDisconnectedBroadcast {
    /// Encodes the id, the username's byte length, and its UTF-8 bytes.
    pub fn serialize(&self) -> (r: Vec<u8>)
        requires
            vstd::utf8::encode_utf8(self.username@).len() <= u32::MAX,
        ensures
            r@ == u32_to_be_bytes(self.player_id) + u32_to_be_bytes(
                vstd::utf8::encode_utf8(self.username@).len() as u32,
            ) + vstd::utf8::encode_utf8(self.username@),
    {
        let mut buf: Vec<u8> = Vec::new();
        write_u32_be(&mut buf, self.player_id);
        let name_bytes = self.username.as_str().as_bytes();
        write_u32_be(&mut buf, name_bytes.len() as u32);
        buf.extend_from_slice(name_bytes);
        proof {
            assert(buf@ =~= u32_to_be_bytes(self.player_id) + u32_to_be_bytes(
                vstd::utf8::encode_utf8(self.username@).len() as u32,
            ) + vstd::utf8::encode_utf8(self.username@));
        }
        buf
    }
}

/// A request for another player's position: target and requester ids,
/// both big-endian.
#[derive(Debug, Clone, PartialEq, Eq, Structural)]
pub struct PlayerInfoRequest {
    pub target_player_id: u32,
    pub requester_player_id: u32,
}

impl PlayerInfoRequest {
    /// Decodes the two big-endian u32 fields. The body is fixed at 8
    /// bytes: shorter errs `Truncated`, longer errs `Oversize`.
    pub fn deserialize(data: &[u8]) -> (r: Result<PlayerInfoRequest, DecodeError>)
        ensures
            match r {
                Ok(p) => data@.len() == 8 && p.target_player_id == u32_from_be_bytes(
                    data@.subrange(0, 4),
                ) && p.requester_player_id == u32_from_be_bytes(data@.subrange(4, 8)),
                Err(e) => (data@.len() < 8 && e == DecodeError::Truncated) || (data@.len() > 8
                    && e == DecodeError::Oversize),
            },
    {
        if data.len() < 8 {
            return Err(DecodeError::Truncated);
        }
        if data.len() > 8 {
            return Err(DecodeError::Oversize);
        }
        let target_player_id = match read_u32_be(data, 0) {
            Ok(v) => v,
            Err(e) => {
                return Err(e);
            },
        };
        let requester_player_id = match read_u32_be(data, 4) {
            Ok(v) => v,
            Err(e) => {
                return Err(e);
            },
        };
        Ok(PlayerInfoRequest { target_player_id, requester_player_id })
    }

    /// Encodes both ids big-endian, in order.
    pub fn serialize(&self) -> (r: Vec<u8>)
        ensures
            r@ == u32_to_be_bytes(self.target_player_id) + u32_to_be_bytes(
                self.requester_player_id,
            ),
    {
        let mut buf: Vec<u8> = Vec::new();
        write_u32_be(&mut buf, self.target_player_id);
        write_u32_be(&mut buf, self.requester_player_id);
        proof {
            assert(buf@ =~= u32_to_be_bytes(self.target_player_id) + u32_to_be_bytes(
                self.requester_player_id,
            ));
        }
        buf
    }
}

/// One roster entry of a player-list update: id, then the username as a
/// length-prefixed UTF-8 string, lengths big-endian.
#[derive(Debug, Clone)]
pub struct PlayerListEntry {
    pub player_id: u32,
    pub username: String,
}

impl PlayerListEntry {
    /// Encodes the id, the username's byte length, and its UTF-8 bytes.
    pub fn serialize(&self) -> (r: Vec<u8>)
        requires
            vstd::utf8::encode_utf8(self.username@).len() <= u32::MAX,
        ensures
            r@ == u32_to_be_bytes(self.player_id) + u32_to_be_bytes(
                vstd::utf8::encode_utf8(self.username@).len() as u32,
            ) + vstd::utf8::encode_utf8(self.username@),
    {
        let mut buf: Vec<u8> = Vec::new();
        write_u32_be(&mut buf, self.player_id);
        let name_bytes = self.username.as_str().as_bytes();
        write_u32_be(&mut buf, name_bytes.len() as u32);
        buf.extend_from_slice(name_bytes);
        proof {
            assert(buf@ =~= u32_to_be_bytes(self.player_id) + u32_to_be_bytes(
                vstd::utf8::encode_utf8(self.username@).len() as u32,
            ) + vstd::utf8::encode_utf8(self.username@));
        }
        buf
    }
}

/// The big-endian 64-bit value stored in eight bytes.
pub open spec fn u64_from_be_bytes(b: Seq<u8>) -> u64
    recommends
        b.len() == 8,
{
    (((b[0] as u64) << 56) | ((b[1] as u64) << 48) | ((b[2] as u64) << 40) | ((b[3] as u64) << 32)
        | ((b[4] as u64) << 24) | ((b[5] as u64) << 16) | ((b[6] as u64) << 8) | (b[7] as u64)) as u64
}

/// The eight-byte big-endian encoding of a 64-bit value.
pub open spec fn u64_to_be_bytes(v: u64) -> Seq<u8> {
    seq![
        ((v >> 56) & 0xff) as u8,
        ((v >> 48) & 0xff) as u8,
        ((v >> 40) & 0xff) as u8,
        ((v >> 32) & 0xff) as u8,
        ((v >> 24) & 0xff) as u8,
        ((v >> 16) & 0xff) as u8,
        ((v >> 8) & 0xff) as u8,
        (v & 0xff) as u8,
    ]
}

/// The big-endian i64 stored in eight bytes (two's complement).
pub open spec fn i64_from_be_bytes(b: Seq<u8>) -> i64
    recommends
        b.len() == 8,
{
    u64_from_be_bytes(b) as i64
}

/// The eight-byte big-endian encoding of an i64.
pub open spec fn i64_to_be_bytes(v: i64) -> Seq<u8> {
    u64_to_be_bytes(v as u64)
}

/// Recomposing a u64 from its eight big-endian bytes gives the value back.
pub proof fn lemma_u64_be_round_trip(v: u64)
    ensures
        u64_from_be_bytes(u64_to_be_bytes(v)) == v,
{
    let b0 = ((v >> 56) & 0xff) as u8;
    let b1 = ((v >> 48) & 0xff) as u8;
    let b2 = ((v >> 40) & 0xff) as u8;
    let b3 = ((v >> 32) & 0xff) as u8;
    let b4 = ((v >> 24) & 0xff) as u8;
    let b5 = ((v >> 16) & 0xff) as u8;
    let b6 = ((v >> 8) & 0xff) as u8;
    let b7 = (v & 0xff) as u8;
    assert((((b0 as u64) << 56) | ((b1 as u64) << 48) | ((b2 as u64) << 40) | ((b3 as u64) << 32)
        | ((b4 as u64) << 24) | ((b5 as u64) << 16) | ((b6 as u64) << 8) | (b7 as u64)) as u64
        == v) by (bit_vector)
        requires
            b0 == ((v >> 56) & 0xff) as u8,
            b1 == ((v >> 48) & 0xff) as u8,
            b2 == ((v >> 40) & 0xff) as u8,
            b3 == ((v >> 32) & 0xff) as u8,
            b4 == ((v >> 24) & 0xff) as u8,
            b5 == ((v >> 16) & 0xff) as u8,
            b6 == ((v >> 8) & 0xff) as u8,
            b7 == (v & 0xff) as u8,
    ;
}

/// Recomposing an i64 from its eight big-endian bytes gives the value back.
pub proof fn lemma_i64_be_round_trip(v: i64)
    ensures
        i64_from_be_bytes(i64_to_be_bytes(v)) == v,
{
    lemma_u64_be_round_trip(v as u64);
    assert((v as u64) as i64 == v) by (bit_vector);
}

/// Appends the eight big-endian bytes of `value`.
pub fn write_u64_be(buf: &mut Vec<u8>, value: u64)
    ensures
        final(buf)@ == old(buf)@ + u64_to_be_bytes(value),
{
    buf.push(((value >> 56) & 0xff) as u8);
    buf.push(((value >> 48) & 0xff) as u8);
    buf.push(((value >> 40) & 0xff) as u8);
    buf.push(((value >> 32) & 0xff) as u8);
    buf.push(((value >> 24) & 0xff) as u8);
    buf.push(((value >> 16) & 0xff) as u8);
    buf.push(((value >> 8) & 0xff) as u8);
    buf.push((value & 0xff) as u8);
    proof {
        assert(final(buf)@ =~= old(buf)@ + u64_to_be_bytes(value));
    }
}

/// Appends the eight big-endian bytes of an i64.
pub fn write_i64_be(buf: &mut Vec<u8>, value: i64)
    ensures
        final(buf)@ == old(buf)@ + i64_to_be_bytes(value),
{
    write_u64_be(buf, value as u64);
}

/// Reads a big-endian u64 at `offset`; errs when fewer than eight bytes
/// remain.
pub fn read_u64_be(data: &[u8], offset: usize) -> (r: Result<u64, DecodeError>)
    ensures
        match r {
            Ok(v) => offset + 8 <= data@.len() && v == u64_from_be_bytes(
                data@.subrange(offset as int, offset + 8),
            ),
            Err(e) => offset + 8 > data@.len() && e == DecodeError::Truncated,
        },
{
    if offset >= data.len() || data.len() - offset < 8 {
        return Err(DecodeError::Truncated);
    }
    let b0 = data[offset];
    let b1 = data[offset + 1];
    let b2 = data[offset + 2];
    let b3 = data[offset + 3];
    let b4 = data[offset + 4];
    let b5 = data[offset + 5];
    let b6 = data[offset + 6];
    let b7 = data[offset + 7];
    let v = (((b0 as u64) << 56) | ((b1 as u64) << 48) | ((b2 as u64) << 40) | ((b3 as u64) << 32)
        | ((b4 as u64) << 24) | ((b5 as u64) << 16) | ((b6 as u64) << 8) | (b7 as u64)) as u64;
    proof {
        let s = data@.subrange(offset as int, offset + 8);
        assert(s[0] == b0 && s[1] == b1 && s[2] == b2 && s[3] == b3 && s[4] == b4 && s[5] == b5
            && s[6] == b6 && s[7] == b7);
    }
    Ok(v)
}

} // verus!
