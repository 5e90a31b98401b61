//! The packet model: a byte buffer with a read cursor and a packet id, the
//! field readers and writers built on it, and the typed packets of the
//! handshake, status and login phases.
use vstd::prelude::*;
use vstd::bytes::{spec_u64_from_le_bytes, spec_u64_to_le_bytes, u64_from_le_bytes, u64_to_le_bytes};
use vstd::utf8::{decode_utf8, encode_utf8, valid_utf8};
use crate::frame::{append_slice, copy_range, frame_bytes, write_frame, MAX_FRAME_PAYLOAD};
use crate::varint::{read_var_int_at, read_var_int_spec, var_int_bytes, write_var_int, VarIntRead};

verus! {

broadcast use vstd::utf8::group_utf8_lib;

/// Why a packet could not be read.
#[derive(Debug, Clone, Copy, PartialEq, Eq, Structural)]
pub enum ProtocolError {
    /// A VarInt runs past five bytes.
    MalformedVarInt,
    /// The data ends inside a field.
    UnexpectedEnd,
    /// A length field is negative.
    NegativeLength,
    /// A string field is not valid UTF-8.
    InvalidUtf8,
    /// A frame's length prefix disagrees with the bytes that follow it.
    FrameLengthMismatch,
}

/// The VarInt field at the front of `b`, and the bytes it takes.
pub open spec fn var_int_field(b: Seq<u8>) -> Result<(i32, nat), ProtocolError> {
    match read_var_int_spec(b) {
        VarIntRead::Value { value, len } => Ok((value, len as nat)),
        VarIntRead::Truncated => Err(ProtocolError::UnexpectedEnd),
        VarIntRead::Overlong => Err(ProtocolError::MalformedVarInt),
    }
}

/// The first `n` bytes of `b`.
pub open spec fn bytes_field(b: Seq<u8>, n: nat) -> Result<(Seq<u8>, nat), ProtocolError> {
    if n <= b.len() {
        Ok((b.subrange(0, n as int), n))
    } else {
        Err(ProtocolError::UnexpectedEnd)
    }
}

/// A big-endian `u16` at the front of `b`.
pub open spec fn u16_field(b: Seq<u8>) -> Result<(u16, nat), ProtocolError> {
    if b.len() >= 2 {
        Ok(((b[0] as nat * 256 + b[1] as nat) as u16, 2))
    } else {
        Err(ProtocolError::UnexpectedEnd)
    }
}

/// A little-endian `i64` at the front of `b`.
pub open spec fn i64_field(b: Seq<u8>) -> Result<(i64, nat), ProtocolError> {
    if b.len() >= 8 {
        Ok((spec_u64_from_le_bytes(b.subrange(0, 8)) as i64, 8))
    } else {
        Err(ProtocolError::UnexpectedEnd)
    }
}

/// A byte array behind a VarInt length at the front of `b`.
pub open spec fn prefixed_bytes_field(b: Seq<u8>) -> Result<(Seq<u8>, nat), ProtocolError> {
    match var_int_field(b) {
        Err(e) => Err(e),
        Ok((l, n)) => if l < 0 {
            Err(ProtocolError::NegativeLength)
        } else if n + l > b.len() {
            Err(ProtocolError::UnexpectedEnd)
        } else {
            Ok((b.subrange(n as int, n + l), (n + l) as nat))
        },
    }
}

/// A UTF-8 string behind a VarInt byte length at the front of `b`.
pub open spec fn string_field(b: Seq<u8>) -> Result<(Seq<char>, nat), ProtocolError> {
    match prefixed_bytes_field(b) {
        Err(e) => Err(e),
        Ok((raw, n)) => if valid_utf8(raw) {
            Ok((decode_utf8(raw), n))
        } else {
            Err(ProtocolError::InvalidUtf8)
        },
    }
}

/// The bytes of a string field: VarInt byte length, then UTF-8.
pub open spec fn string_bytes(s: Seq<char>) -> Seq<u8> {
    var_int_bytes(encode_utf8(s).len() as i32) + encode_utf8(s)
}

/// The bytes of a byte-array field: VarInt length, then the bytes.
pub open spec fn prefixed_bytes(b: Seq<u8>) -> Seq<u8> {
    var_int_bytes(b.len() as i32) + b
}

/// Relies on `String::from_utf8`: it accepts exactly the valid UTF-8 byte
/// sequences and decodes them.
#[verifier::external_body]
fn utf8_to_string(b: Vec<u8>) -> (r: Option<String>)
    ensures
        r matches Some(s) ==> valid_utf8(b@) && s@ == decode_utf8(b@),
        r is None ==> !valid_utf8(b@),
{
    String::from_utf8(b).ok()
}

/// A packet body under construction or being read: the bytes, a read
/// cursor into them, and the packet id.
pub struct PacketBuf {
    pub content: Vec<u8>,
    pub position: usize,
    pub id: i32,
}

impl PacketBuf {
    /// The cursor stands inside the buffer.
    pub open spec fn wf(&self) -> bool {
        self.position <= self.content@.len()
    }

    /// The bytes not read yet.
    pub open spec fn rest(&self) -> Seq<u8> {
        self.content@.subrange(self.position as int, self.content@.len() as int)
    }

    /// `self` is `before` with the cursor moved on by `n` bytes.
    pub open spec fn advanced(&self, before: PacketBuf, n: nat) -> bool {
        &&& self.content@ == before.content@
        &&& self.id == before.id
        &&& self.position == before.position + n
    }

    /// `self` is `before`, cursor included.
    pub open spec fn unchanged(&self, before: PacketBuf) -> bool {
        self.advanced(before, 0)
    }

    /// An empty body for a packet with id `id`.
    pub fn new(id: i32) -> (r: Self)
        ensures
            r.content@ == Seq::<u8>::empty(),
            r.position == 0,
            r.id == id,
            r.wf(),
    {
        Self { content: Vec::new(), position: 0, id }
    }

    /// Reads a whole frame: its length prefix must count exactly the bytes
    /// after it, which begin with the packet id. The cursor is left after
    /// the id.
    pub fn decode(data: Vec<u8>) -> (r: Result<PacketBuf, ProtocolError>)
        ensures
            match packet_frame_spec(data@) {
                Ok((id, n)) => r matches Ok(p) && p.content@ == data@ && p.id == id && p.position
                    == n && p.wf(),
                Err(e) => r == Err::<PacketBuf, ProtocolError>(e),
            },
    {
        assert(data@.subrange(0, data@.len() as int) == data@);
        match read_var_int_at(data.as_slice(), 0) {
            VarIntRead::Overlong => Err(ProtocolError::MalformedVarInt),
            VarIntRead::Truncated => Err(ProtocolError::UnexpectedEnd),
            VarIntRead::Value { value, len } => {
                if value < 0 {
                    Err(ProtocolError::NegativeLength)
                } else if value as usize != data.len() - len {
                    Err(ProtocolError::FrameLengthMismatch)
                } else {
                    match read_var_int_at(data.as_slice(), len) {
                        VarIntRead::Overlong => Err(ProtocolError::MalformedVarInt),
                        VarIntRead::Truncated => Err(ProtocolError::UnexpectedEnd),
                        VarIntRead::Value { value: id, len: m } => {
                            let position = len + m;
                            Ok(PacketBuf { content: data, position, id })
                        },
                    }
                }
            },
        }
    }

    /// Reads a frame's payload: the packet id, then the body. The cursor is
    /// left after the id.
    pub fn from_payload(payload: Vec<u8>) -> (r: Result<PacketBuf, ProtocolError>)
        ensures
            match var_int_field(payload@) {
                Ok((id, n)) => r matches Ok(p) && p.content@ == payload@ && p.id == id
                    && p.position == n && p.wf(),
                Err(e) => r == Err::<PacketBuf, ProtocolError>(e),
            },
    {
        assert(payload@.subrange(0, payload@.len() as int) == payload@);
        match read_var_int_at(payload.as_slice(), 0) {
            VarIntRead::Overlong => Err(ProtocolError::MalformedVarInt),
            VarIntRead::Truncated => Err(ProtocolError::UnexpectedEnd),
            VarIntRead::Value { value, len } => Ok(
                PacketBuf { content: payload, position: len, id: value },
            ),
        }
    }

    /// The frame of this packet: its id, then its content.
    pub fn encode(&self) -> (r: Vec<u8>)
        requires
            self.content@.len() + 5 <= MAX_FRAME_PAYLOAD,
        ensures
            r@ == frame_bytes(var_int_bytes(self.id) + self.content@),
    {
        let mut body: Vec<u8> = Vec::new();
        write_var_int(&mut body, self.id);
        append_slice(&mut body, self.content.as_slice());
        proof {
            crate::varint::lemma_var_int_round_trip(self.id, seq![]);
            assert(var_int_bytes(self.id) + seq![] == var_int_bytes(self.id));
        }
        write_frame(body.as_slice())
    }

    /// Appends a VarInt to the content.
    pub fn write_var_int(&mut self, value: i32)
        ensures
            final(self).content@ == old(self).content@ + var_int_bytes(value),
            final(self).position == old(self).position,
            final(self).id == old(self).id,
    {
        write_var_int(&mut self.content, value);
    }

    /// Reads a VarInt at the cursor.
    pub fn read_var_int(&mut self) -> (r: Result<i32, ProtocolError>)
        requires
            old(self).wf(),
        ensures
            final(self).wf(),
            match var_int_field(old(self).rest()) {
                Ok((v, n)) => r == Ok::<i32, ProtocolError>(v) && final(self).advanced(*old(self), n),
                Err(e) => r == Err::<i32, ProtocolError>(e) && final(self).unchanged(*old(self)),
            },
    {
        let pos = self.position;
        let r = read_var_int_at(self.content.as_slice(), pos);
        match r {
            VarIntRead::Overlong => Err(ProtocolError::MalformedVarInt),
            VarIntRead::Truncated => Err(ProtocolError::UnexpectedEnd),
            VarIntRead::Value { value, len } => {
                let total = self.content.len();
                assert(pos + len <= total);
                self.position = pos + len;
                Ok(value)
            },
        }
    }

    /// Appends a string field to the content.
    pub fn write_string(&mut self, value: String)
        requires
            encode_utf8(value@).len() <= MAX_FRAME_PAYLOAD,
        ensures
            final(self).content@ == old(self).content@ + string_bytes(value@),
            final(self).position == old(self).position,
            final(self).id == old(self).id,
    {
        let bytes = write_string(value);
        append_slice(&mut self.content, bytes.as_slice());
    }

    /// Reads a string field at the cursor.
    pub fn read_string(&mut self) -> (r: Result<String, ProtocolError>)
        requires
            old(self).wf(),
        ensures
            final(self).wf(),
            match string_field(old(self).rest()) {
                Ok((s, n)) => r matches Ok(v) && v@ == s && final(self).advanced(*old(self), n),
                Err(e) => r == Err::<String, ProtocolError>(e) && final(self).unchanged(*old(self)),
            },
    {
        read_string(self)
    }
}

/// The packet id and the bytes up to the body of a whole frame `d`.
pub open spec fn packet_frame_spec(d: Seq<u8>) -> Result<(i32, nat), ProtocolError> {
    match var_int_field(d) {
        Err(e) => Err(e),
        Ok((size, n)) => if size < 0 {
            Err(ProtocolError::NegativeLength)
        } else if n + size != d.len() {
            Err(ProtocolError::FrameLengthMismatch)
        } else {
            match var_int_field(d.subrange(n as int, d.len() as int)) {
                Err(e) => Err(e),
                Ok((id, m)) => Ok((id, n + m)),
            }
        },
    }
}

/// Moving the cursor on by `n` bytes drops `n` bytes from what is left.
proof fn lemma_rest_skip(before: PacketBuf, after: PacketBuf, n: nat)
    requires
        before.wf(),
        n <= before.rest().len(),
        after.advanced(before, n),
    ensures
        after.wf(),
        after.rest() == before.rest().subrange(n as int, before.rest().len() as int),
{
    assert(after.rest() =~= before.rest().subrange(n as int, before.rest().len() as int));
}

/// Reads the bytes of a byte-array field, behind its VarInt length.
fn read_prefixed(cursor: &mut PacketBuf) -> (r: Result<Vec<u8>, ProtocolError>)
    requires
        old(cursor).wf(),
    ensures
        final(cursor).wf(),
        match prefixed_bytes_field(old(cursor).rest()) {
            Ok((b, n)) => r matches Ok(v) && v@ == b && final(cursor).advanced(*old(cursor), n),
            Err(e) => r == Err::<Vec<u8>, ProtocolError>(e) && final(cursor).unchanged(*old(cursor)),
        },
{
    let pos = cursor.position;
    match read_var_int_at(cursor.content.as_slice(), pos) {
        VarIntRead::Overlong => Err(ProtocolError::MalformedVarInt),
        VarIntRead::Truncated => Err(ProtocolError::UnexpectedEnd),
        VarIntRead::Value { value, len } => {
            if value < 0 {
                Err(ProtocolError::NegativeLength)
            } else if value as usize > cursor.content.len() - pos - len {
                Err(ProtocolError::UnexpectedEnd)
            } else {
                let start = pos + len;
                let end = start + value as usize;
                let b = copy_range(cursor.content.as_slice(), start, end);
                assert(b@ == cursor.rest().subrange(len as int, len + value));
                cursor.position = end;
                Ok(b)
            }
        },
    }
}

/// Reads a string field: a VarInt byte length, then that many bytes of UTF-8.
pub fn read_string(cursor: &mut PacketBuf) -> (r: Result<String, ProtocolError>)
    requires
        old(cursor).wf(),
    ensures
        final(cursor).wf(),
        match string_field(old(cursor).rest()) {
            Ok((s, n)) => r matches Ok(v) && v@ == s && final(cursor).advanced(*old(cursor), n),
            Err(e) => r == Err::<String, ProtocolError>(e) && final(cursor).unchanged(*old(cursor)),
        },
{
    let ghost before = *cursor;
    let pos = cursor.position;
    match read_prefixed(cursor) {
        Err(e) => Err(e),
        Ok(raw) => match utf8_to_string(raw) {
            Some(s) => Ok(s),
            None => {
                cursor.position = pos;
                Err(ProtocolError::InvalidUtf8)
            },
        },
    }
}

/// Reads a big-endian `u16`.
pub fn read_u16(cursor: &mut PacketBuf) -> (r: Result<u16, ProtocolError>)
    requires
        old(cursor).wf(),
    ensures
        final(cursor).wf(),
        match u16_field(old(cursor).rest()) {
            Ok((v, n)) => r == Ok::<u16, ProtocolError>(v) && final(cursor).advanced(*old(cursor), n),
            Err(e) => r == Err::<u16, ProtocolError>(e) && final(cursor).unchanged(*old(cursor)),
        },
{
    let pos = cursor.position;
    if cursor.content.len() - pos < 2 {
        return Err(ProtocolError::UnexpectedEnd);
    }
    let hi = cursor.content[pos];
    let lo = cursor.content[pos + 1];
    assert(cursor.rest()[0] == hi && cursor.rest()[1] == lo);
    cursor.position = pos + 2;
    Ok(hi as u16 * 256 + lo as u16)
}

/// Reads a little-endian `i64`: the eight bytes as they came.
pub fn read_i64(cursor: &mut PacketBuf) -> (r: Result<i64, ProtocolError>)
    requires
        old(cursor).wf(),
    ensures
        final(cursor).wf(),
        match i64_field(old(cursor).rest()) {
            Ok((v, n)) => r == Ok::<i64, ProtocolError>(v) && final(cursor).advanced(*old(cursor), n),
            Err(e) => r == Err::<i64, ProtocolError>(e) && final(cursor).unchanged(*old(cursor)),
        },
{
    let pos = cursor.position;
    if cursor.content.len() - pos < 8 {
        return Err(ProtocolError::UnexpectedEnd);
    }
    let raw = copy_range(cursor.content.as_slice(), pos, pos + 8);
    assert(raw@ == cursor.rest().subrange(0, 8));
    let v = u64_from_le_bytes(raw.as_slice());
    cursor.position = pos + 8;
    Ok(#[verifier::truncate] (v as i64))
}

/// Reads exactly `len` bytes.
pub fn read_bytes(cursor: &mut PacketBuf, len: usize) -> (r: Result<Vec<u8>, ProtocolError>)
    requires
        old(cursor).wf(),
    ensures
        final(cursor).wf(),
        match bytes_field(old(cursor).rest(), len as nat) {
            Ok((b, n)) => r matches Ok(v) && v@ == b && final(cursor).advanced(*old(cursor), n),
            Err(e) => r == Err::<Vec<u8>, ProtocolError>(e) && final(cursor).unchanged(*old(cursor)),
        },
{
    let pos = cursor.position;
    if cursor.content.len() - pos < len {
        return Err(ProtocolError::UnexpectedEnd);
    }
    let b = copy_range(cursor.content.as_slice(), pos, pos + len);
    assert(b@ == cursor.rest().subrange(0, len as int));
    cursor.position = pos + len;
    Ok(b)
}

/// The bytes of a string field holding `data`.
pub fn write_string(data: String) -> (r: Vec<u8>)
    requires
        encode_utf8(data@).len() <= MAX_FRAME_PAYLOAD,
    ensures
        r@ == string_bytes(data@),
{
    let bytes = data.as_str().as_bytes();
    let mut out: Vec<u8> = Vec::new();
    write_var_int(&mut out, bytes.len() as i32);
    append_slice(&mut out, bytes);
    out
}

/// Appends a byte-array field holding `data` to `out`.
pub fn write_prefixed(out: &mut Vec<u8>, data: &[u8])
    requires
        data@.len() <= MAX_FRAME_PAYLOAD,
    ensures
        final(out)@ == old(out)@ + prefixed_bytes(data@),
{
    write_var_int(out, data.len() as i32);
    append_slice(out, data);
    assert(final(out)@ == old(out)@ + prefixed_bytes(data@));
}

/// A string field comes back from its bytes whole, whatever follows it.
pub proof fn lemma_string_round_trip(s: Seq<char>, rest: Seq<u8>)
    requires
        encode_utf8(s).len() <= MAX_FRAME_PAYLOAD,
    ensures
        string_field(string_bytes(s) + rest) == Ok::<(Seq<char>, nat), ProtocolError>(
            (s, string_bytes(s).len()),
        ),
{
    let u = encode_utf8(s);
    let l = u.len() as i32;
    crate::varint::lemma_var_int_round_trip(l, u + rest);
    assert(string_bytes(s) + rest == var_int_bytes(l) + (u + rest));
    let b = string_bytes(s) + rest;
    let n = var_int_bytes(l).len();
    assert(b.subrange(n as int, n + l) == u);
}

/// The echo of a ping payload is the eight bytes that carried it.
pub proof fn lemma_ping_echo(b: Seq<u8>)
    requires
        b.len() == 8,
    ensures
        i64_field(b) matches Ok((v, n)) && n == 8 && spec_u64_to_le_bytes(v as u64) == b,
{
    vstd::bytes::lemma_auto_spec_u64_to_from_le_bytes();
    assert(b.subrange(0, 8) == b);
    let x = spec_u64_from_le_bytes(b);
    assert((x as i64) as u64 == x) by (bit_vector);
}

/// The first packet of a connection.
pub struct Handshake {
    pub protocol: i32,
    pub address: String,
    pub port: u16,
    pub next_state: i32,
}

/// The fields of a handshake body at the front of `b`: protocol, address,
/// port, next state, and the bytes they take.
pub open spec fn handshake_field(b: Seq<u8>) -> Result<(i32, Seq<char>, u16, i32, nat), ProtocolError> {
    match var_int_field(b) {
        Err(e) => Err(e),
        Ok((protocol, n1)) => {
            let b1 = b.subrange(n1 as int, b.len() as int);
            match string_field(b1) {
                Err(e) => Err(e),
                Ok((address, n2)) => {
                    let b2 = b1.subrange(n2 as int, b1.len() as int);
                    match u16_field(b2) {
                        Err(e) => Err(e),
                        Ok((port, n3)) => {
                            let b3 = b2.subrange(n3 as int, b2.len() as int);
                            match var_int_field(b3) {
                                Err(e) => Err(e),
                                Ok((next_state, n4)) => Ok(
                                    (protocol, address, port, next_state, n1 + n2 + n3 + n4),
                                ),
                            }
                        },
                    }
                },
            }
        },
    }
}

/// The bytes that a handshake body is made of.
pub open spec fn handshake_bytes(protocol: i32, address: Seq<char>, port: u16, next_state: i32) -> Seq<u8> {
    var_int_bytes(protocol) + string_bytes(address) + seq![(port / 256) as u8, (port % 256) as u8]
        + var_int_bytes(next_state)
}

/// A prefix of `a + b` that is longer than `a` is `a` followed by a prefix
/// of `b`.
proof fn lemma_cut_after(a: Seq<u8>, b: Seq<u8>, k: int)
    requires
        a.len() <= k <= a.len() + b.len(),
    ensures
        (a + b).subrange(0, k) == a + b.subrange(0, k - a.len()),
        (a + b).subrange(0, k).subrange(a.len() as int, k) == b.subrange(0, k - a.len()),
{
    assert((a + b).subrange(0, k) =~= a + b.subrange(0, k - a.len()));
    assert((a + b).subrange(0, k).subrange(a.len() as int, k) =~= b.subrange(0, k - a.len()));
}

/// A prefix of `a + b` no longer than `a` is a prefix of `a`.
proof fn lemma_cut_before(a: Seq<u8>, b: Seq<u8>, k: int)
    requires
        0 <= k <= a.len(),
    ensures
        (a + b).subrange(0, k) == a.subrange(0, k),
{
    assert((a + b).subrange(0, k) =~= a.subrange(0, k));
}

/// A handshake body cut short at any point fails to decode.
pub proof fn lemma_handshake_truncated(
    protocol: i32,
    address: Seq<char>,
    port: u16,
    next_state: i32,
    k: nat,
)
    requires
        encode_utf8(address).len() <= MAX_FRAME_PAYLOAD,
        k < handshake_bytes(protocol, address, port, next_state).len(),
    ensures
        handshake_field(handshake_bytes(protocol, address, port, next_state).subrange(0, k as int)) is Err,
{
    let f1 = var_int_bytes(protocol);
    let f2 = string_bytes(address);
    let f3: Seq<u8> = seq![(port / 256) as u8, (port % 256) as u8];
    let f4 = var_int_bytes(next_state);
    let h = handshake_bytes(protocol, address, port, next_state);
    let t = h.subrange(0, k as int);
    let rest1 = f2 + f3 + f4;
    assert(h == f1 + rest1);
    crate::varint::lemma_var_int_round_trip(protocol, seq![]);
    if k < f1.len() {
        lemma_cut_before(f1, rest1, k as int);
        crate::varint::lemma_var_int_cut(protocol, t);
        return;
    }
    lemma_cut_after(f1, rest1, k as int);
    let t1 = t.subrange(f1.len() as int, k as int);
    assert(t == f1 + t1);
    crate::varint::lemma_var_int_round_trip(protocol, t1);
    assert(t.subrange(f1.len() as int, t.len() as int) == t1);
    let k1 = k - f1.len();
    let u = encode_utf8(address);
    let l = u.len() as i32;
    let g = var_int_bytes(l);
    let rest2 = f3 + f4;
    assert(rest1 == f2 + rest2);
    assert(t1 == rest1.subrange(0, k1));
    crate::varint::lemma_var_int_round_trip(l, seq![]);
    if k1 < g.len() {
        assert(rest1 == g + (u + rest2));
        lemma_cut_before(g, u + rest2, k1);
        crate::varint::lemma_var_int_cut(l, t1);
        return;
    }
    if k1 < f2.len() {
        assert(rest1 == g + (u + rest2));
        lemma_cut_after(g, u + rest2, k1);
        let t2 = t1.subrange(g.len() as int, k1);
        assert(t1 == g + t2);
        crate::varint::lemma_var_int_round_trip(l, t2);
        return;
    }
    lemma_cut_after(f2, rest2, k1);
    let b2 = t1.subrange(f2.len() as int, k1);
    assert(t1 == f2 + b2);
    lemma_string_round_trip(address, b2);
    assert(t1.subrange(f2.len() as int, t1.len() as int) == b2);
    let k2 = k1 - f2.len();
    assert(b2 == rest2.subrange(0, k2));
    if k2 < 2 {
        return;
    }
    lemma_cut_after(f3, f4, k2);
    let b3 = b2.subrange(2, k2);
    assert(b2.subrange(2, b2.len() as int) == b3);
    assert(b3 == f4.subrange(0, k2 - 2));
    crate::varint::lemma_var_int_cut(next_state, b3);
}

/// A handshake body decodes to the fields it was made of.
pub proof fn lemma_handshake_round_trip(protocol: i32, address: Seq<char>, port: u16, next_state: i32)
    requires
        encode_utf8(address).len() <= MAX_FRAME_PAYLOAD,
    ensures
        handshake_field(handshake_bytes(protocol, address, port, next_state)) == Ok::<
            (i32, Seq<char>, u16, i32, nat),
            ProtocolError,
        >((protocol, address, port, next_state, handshake_bytes(protocol, address, port, next_state).len())),
{
    let f1 = var_int_bytes(protocol);
    let f2 = string_bytes(address);
    let f3: Seq<u8> = seq![(port / 256) as u8, (port % 256) as u8];
    let f4 = var_int_bytes(next_state);
    let h = handshake_bytes(protocol, address, port, next_state);
    let rest1 = f2 + f3 + f4;
    let rest2 = f3 + f4;
    assert(h == f1 + rest1);
    assert(rest1 == f2 + rest2);
    crate::varint::lemma_var_int_round_trip(protocol, rest1);
    assert(h.subrange(f1.len() as int, h.len() as int) == rest1);
    lemma_string_round_trip(address, rest2);
    assert(rest1.subrange(f2.len() as int, rest1.len() as int) == rest2);
    assert(rest2.subrange(2, rest2.len() as int) == f4);
    assert(f4 + seq![] == f4);
    crate::varint::lemma_var_int_round_trip(next_state, seq![]);
    assert(((port / 256) as u8) as nat * 256 + ((port % 256) as u8) as nat == port);
}

impl Handshake {
    /// Reads a handshake body at the cursor.
    pub fn from_data(cursor: &mut PacketBuf) -> (r: Result<Handshake, ProtocolError>)
        requires
            old(cursor).wf(),
        ensures
            final(cursor).wf(),
            match handshake_field(old(cursor).rest()) {
                Ok((protocol, address, port, next_state, n)) => r matches Ok(h) && h.protocol
                    == protocol && h.address@ == address && h.port == port && h.next_state
                    == next_state && final(cursor).advanced(*old(cursor), n),
                Err(e) => r == Err::<Handshake, ProtocolError>(e),
            },
    {
        let ghost c0 = *cursor;
        let protocol = match cursor.read_var_int() {
            Ok(v) => v,
            Err(e) => return Err(e),
        };
        let ghost c1 = *cursor;
        proof {
            lemma_rest_skip(c0, c1, (c1.position - c0.position) as nat);
        }
        let address = match read_string(cursor) {
            Ok(v) => v,
            Err(e) => return Err(e),
        };
        let ghost c2 = *cursor;
        proof {
            lemma_rest_skip(c1, c2, (c2.position - c1.position) as nat);
        }
        let port = match read_u16(cursor) {
            Ok(v) => v,
            Err(e) => return Err(e),
        };
        let ghost c3 = *cursor;
        proof {
            lemma_rest_skip(c2, c3, (c3.position - c2.position) as nat);
        }
        let next_state = match cursor.read_var_int() {
            Ok(v) => v,
            Err(e) => return Err(e),
        };
        Ok(Handshake { protocol, address, port, next_state })
    }
}

/// The server's request for an encrypted shared secret.
pub struct EncryptionRequest {
    /// The server id, as raw bytes; empty on current servers.
    pub id: Vec<u8>,
    pub key_length: i32,
    /// The server's public key, DER-encoded.
    pub key: Vec<u8>,
    pub token_length: i32,
    /// The verify token that the client must send back encrypted.
    pub token: Vec<u8>,
}

/// The length of a verify token.
pub const VERIFY_TOKEN_LEN: usize = 4;

/// The body of an encryption request: server id, key and token, each behind
/// its length.
pub open spec fn encryption_request_body(id: Seq<u8>, key: Seq<u8>, token: Seq<u8>) -> Seq<u8> {
    var_int_bytes(1) + prefixed_bytes(id) + prefixed_bytes(key) + prefixed_bytes(token)
}

impl EncryptionRequest {
    /// The length fields count the bytes they stand for, and the packet fits
    /// in a frame.
    pub open spec fn wf(&self) -> bool {
        &&& self.key_length == self.key@.len()
        &&& self.token_length == self.token@.len()
        &&& self.id@.len() + self.key@.len() + self.token@.len() + 16 <= MAX_FRAME_PAYLOAD
    }

    /// A request with an empty server id that carries `key` and `token`.
    pub fn with_token(key: Vec<u8>, token: Vec<u8>) -> (r: Self)
        requires
            key@.len() + token@.len() + 16 <= MAX_FRAME_PAYLOAD,
        ensures
            r.id@ == Seq::<u8>::empty(),
            r.key@ == key@,
            r.token@ == token@,
            r.wf(),
    {
        let key_length = key.len() as i32;
        let token_length = token.len() as i32;
        EncryptionRequest { id: Vec::new(), key_length, key, token_length, token }
    }

    /// A request that carries `key` and a fresh random verify token, which
    /// is returned beside it.
    pub fn new(key: Vec<u8>) -> (r: (Self, Vec<u8>))
        requires
            key@.len() + 20 <= MAX_FRAME_PAYLOAD,
        ensures
            r.0.id@ == Seq::<u8>::empty(),
            r.0.key@ == key@,
            r.0.token@ == r.1@,
            r.1@.len() == VERIFY_TOKEN_LEN,
            r.0.wf(),
    {
        let token = crate::crypto::random_token();
        let copy = token.clone();
        (Self::with_token(key, token), copy)
    }

    /// The frame of this request (packet id `0x01`).
    pub fn encode(self) -> (r: Vec<u8>)
        requires
            self.wf(),
        ensures
            r@ == frame_bytes(encryption_request_body(self.id@, self.key@, self.token@)),
    {
        let mut body: Vec<u8> = Vec::new();
        write_var_int(&mut body, 1);
        write_prefixed(&mut body, self.id.as_slice());
        write_prefixed(&mut body, self.key.as_slice());
        write_prefixed(&mut body, self.token.as_slice());
        proof {
            crate::varint::lemma_var_int_round_trip(1, seq![]);
            crate::varint::lemma_var_int_round_trip(self.id@.len() as i32, seq![]);
            crate::varint::lemma_var_int_round_trip(self.key@.len() as i32, seq![]);
            crate::varint::lemma_var_int_round_trip(self.token@.len() as i32, seq![]);
            assert(var_int_bytes(1) + seq![] == var_int_bytes(1));
            assert(var_int_bytes(self.id@.len() as i32) + seq![] == var_int_bytes(self.id@.len() as i32));
            assert(var_int_bytes(self.key@.len() as i32) + seq![] == var_int_bytes(self.key@.len() as i32));
            assert(var_int_bytes(self.token@.len() as i32) + seq![] == var_int_bytes(self.token@.len() as i32));
            assert(body@ == encryption_request_body(self.id@, self.key@, self.token@));
        }
        write_frame(body.as_slice())
    }
}

/// The client's answer to an encryption request: the shared secret and the
/// verify token, both encrypted under the server's public key.
pub struct EncryptionResponse {
    pub secret_length: i32,
    pub secret: Vec<u8>,
    pub token_length: i32,
    pub token: Vec<u8>,
}

/// The fields of an encryption response body at the front of `b`: secret,
/// token, and the bytes they take.
pub open spec fn encryption_response_field(b: Seq<u8>) -> Result<(Seq<u8>, Seq<u8>, nat), ProtocolError> {
    match prefixed_bytes_field(b) {
        Err(e) => Err(e),
        Ok((secret, n1)) => match prefixed_bytes_field(b.subrange(n1 as int, b.len() as int)) {
            Err(e) => Err(e),
            Ok((token, n2)) => Ok((secret, token, n1 + n2)),
        },
    }
}

impl EncryptionResponse {
    /// Reads an encryption response body at the cursor.
    pub fn new(cursor: &mut PacketBuf) -> (r: Result<EncryptionResponse, ProtocolError>)
        requires
            old(cursor).wf(),
        ensures
            final(cursor).wf(),
            match encryption_response_field(old(cursor).rest()) {
                Ok((secret, token, n)) => r matches Ok(e) && e.secret@ == secret && e.token@ == token
                    && e.secret_length == secret.len() && e.token_length == token.len()
                    && final(cursor).advanced(*old(cursor), n),
                Err(e) => r == Err::<EncryptionResponse, ProtocolError>(e),
            },
    {
        let ghost c0 = *cursor;
        let secret = match read_prefixed(cursor) {
            Ok(v) => v,
            Err(e) => return Err(e),
        };
        let ghost c1 = *cursor;
        proof {
            lemma_rest_skip(c0, c1, (c1.position - c0.position) as nat);
        }
        let token = match read_prefixed(cursor) {
            Ok(v) => v,
            Err(e) => return Err(e),
        };
        let secret_length = secret.len() as i32;
        let token_length = token.len() as i32;
        Ok(EncryptionResponse { secret_length, secret, token_length, token })
    }
}

/// The 16 bytes of `uuid`, most significant first.
pub open spec fn uuid_bytes(uuid: u128) -> Seq<u8> {
    Seq::new(16, |i: int| (uuid >> ((120 - 8 * i) as u128)) as u8)
}

/// The server's last login packet: the player's UUID and name.
pub struct LoginSuccess {
    pub uuid: Vec<u8>,
    pub user: String,
}

impl LoginSuccess {
    /// The packet for `uuid` and `user`; the UUID is written big-endian.
    pub fn new(uuid: u128, user: String) -> (r: Self)
        ensures
            r.uuid@ == uuid_bytes(uuid),
            r.user@ == user@,
    {
        let mut id: Vec<u8> = Vec::new();
        let mut i: usize = 0;
        while i < 16
            invariant
                i <= 16,
                id@ == uuid_bytes(uuid).subrange(0, i as int),
            decreases 16 - i,
        {
            let shift = (120 - 8 * i) as u128;
            id.push(#[verifier::truncate] ((uuid >> shift) as u8));
            i = i + 1;
            assert(id@ =~= uuid_bytes(uuid).subrange(0, i as int));
        }
        assert(id@ =~= uuid_bytes(uuid));
        LoginSuccess { uuid: id, user }
    }

    /// The frame of this packet (packet id `0x02`).
    pub fn encode(self) -> (r: Vec<u8>)
        requires
            self.uuid@.len() + encode_utf8(self.user@).len() + 16 <= MAX_FRAME_PAYLOAD,
        ensures
            r@ == frame_bytes(var_int_bytes(2) + self.uuid@ + string_bytes(self.user@)),
    {
        let mut body: Vec<u8> = Vec::new();
        write_var_int(&mut body, 2);
        append_slice(&mut body, self.uuid.as_slice());
        let name = write_string(self.user);
        append_slice(&mut body, name.as_slice());
        proof {
            crate::varint::lemma_var_int_round_trip(2, seq![]);
            assert(var_int_bytes(2) + seq![] == var_int_bytes(2));
            crate::varint::lemma_var_int_round_trip(encode_utf8(self.user@).len() as i32, seq![]);
            let l = encode_utf8(self.user@).len() as i32;
            assert(var_int_bytes(l) + seq![] == var_int_bytes(l));
        }
        write_frame(body.as_slice())
    }
}

/// The status response frame (packet id `0x00`) that carries `json`.
pub fn status_response(json: String) -> (r: Vec<u8>)
    requires
        encode_utf8(json@).len() + 16 <= MAX_FRAME_PAYLOAD,
    ensures
        r@ == frame_bytes(var_int_bytes(0) + string_bytes(json@)),
{
    let mut packet = PacketBuf::new(0);
    packet.write_string(json);
    proof {
        crate::varint::lemma_var_int_round_trip(encode_utf8(json@).len() as i32, seq![]);
        let l = encode_utf8(json@).len() as i32;
        assert(var_int_bytes(l) + seq![] == var_int_bytes(l));
        assert(packet.content@ == string_bytes(json@));
    }
    packet.encode()
}

/// The pong frame (packet id `0x01`) that echoes a ping's payload.
pub fn pong(payload: i64) -> (r: Vec<u8>)
    ensures
        r@ == frame_bytes(var_int_bytes(1) + spec_u64_to_le_bytes(payload as u64)),
{
    let bytes = u64_to_le_bytes(#[verifier::truncate] (payload as u64));
    let packet = PacketBuf { content: bytes, position: 0, id: 1 };
    packet.encode()
}

} // verus!
