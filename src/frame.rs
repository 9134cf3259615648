//! The RFC 6455 frame codec: the two header bytes, the extended payload
//! length, the masking key and the (un)masked payload.
use vstd::prelude::*;

use crate::enums::{is_opcode, opcode_of, Opcode};
use crate::errors::ParseError;
use crate::primitives::random_u32;
use vstd::slice::{slice_subrange, slice_to_vec};

verus! {

/// The 7-bit length value that announces a 16-bit extended length.
pub const MIN_VAL_FOR_16_BIT_UPGRADE: u8 = 0x7E;

/// The 7-bit length value that announces a 64-bit extended length.
pub const MIN_VAL_FOR_64_BIT_UPGRADE: u8 = 0x7F;

/// The largest payload length that a frame may announce: 2^63 - 1.
pub const MAX_PAYLOAD_LEN: u64 = 0x7FFF_FFFF_FFFF_FFFF;

/// 256 to the power `n`.
pub open spec fn pow256(n: nat) -> nat
    decreases n,
{
    if n == 0 {
        1
    } else {
        256 * pow256((n - 1) as nat)
    }
}

/// The last `n` bytes of `v`, most significant first.
pub open spec fn be_bytes(v: nat, n: nat) -> Seq<u8>
    decreases n,
{
    if n == 0 {
        Seq::empty()
    } else {
        be_bytes(v / 256, (n - 1) as nat).push((v % 256) as u8)
    }
}

/// The number that `bytes` spell, most significant first.
pub open spec fn be_value(bytes: Seq<u8>) -> nat
    decreases bytes.len(),
{
    if bytes.len() == 0 {
        0
    } else {
        (be_value(bytes.drop_last()) * 256 + bytes.last()) as nat
    }
}

/// `payload` XORed with the four key bytes in turn.
pub open spec fn masked(payload: Seq<u8>, key: Seq<u8>) -> Seq<u8> {
    Seq::new(payload.len(), |i: int| payload[i] ^ key[i % 4])
}

/// The 7-bit length and the extended length that announce a payload of
/// `len` bytes.
pub open spec fn payload_len_class(len: nat) -> (u8, u64) {
    if len < 126 {
        (len as u8, 0u64)
    } else if len <= 0xFFFF {
        (126u8, len as u64)
    } else {
        (127u8, len as u64)
    }
}

/// How many bytes of extended length follow a 7-bit length of `payload_len`.
pub open spec fn extension_size(payload_len: u8) -> nat {
    if payload_len == 126 {
        2
    } else if payload_len == 127 {
        8
    } else {
        0
    }
}

/// How many bits of extended length a decoder reads after a 7-bit length of
/// `payload_len`.
pub open spec fn extend_bits(payload_len: u8) -> u8 {
    if payload_len == 126 {
        16
    } else if payload_len == 127 {
        64
    } else {
        0
    }
}

pub open spec fn flag(b: bool, weight: int) -> int {
    if b {
        weight
    } else {
        0
    }
}

#[derive(Debug, Clone, Copy, PartialEq, Eq, Structural)]
pub struct Headers {
    pub fin: bool,
    pub rsv1: bool,
    pub rsv2: bool,
    pub rsv3: bool,
    pub opcode: Opcode,
    pub mask: bool,
    /// The 7-bit length field as it stands on the wire.
    pub payload_len: u8,
    /// The extended length, when `payload_len` is 126 or 127.
    pub payload_len_ext: u64,
    /// 16 when `payload_len` is 126 and 64 when it is 127: the width of the
    /// extended length that a decoder still has to read. Set by decoding only.
    pub extend_by: u8,
}

impl Headers {
    pub open spec fn first_byte(self) -> int {
        flag(self.fin, 128) + flag(self.rsv1, 64) + flag(self.rsv2, 32) + flag(self.rsv3, 16)
            + self.opcode.code()
    }

    pub open spec fn second_byte(self) -> int {
        flag(self.mask, 128) + self.payload_len
    }

    /// The header as it goes on the wire: two bytes, then the extended length
    /// in as many bytes as the 7-bit length announces.
    pub open spec fn wire_bytes(self) -> Seq<u8> {
        seq![self.first_byte() as u8, self.second_byte() as u8] + be_bytes(
            self.payload_len_ext as nat,
            extension_size(self.payload_len),
        )
    }

    /// The header that two received bytes spell, if their opcode is valid.
    /// The extended length is still to be read.
    pub open spec fn parse(b0: u8, b1: u8) -> Option<Headers> {
        match opcode_of(b0 % 16) {
            Some(opcode) => Some(
                Headers {
                    fin: b0 >= 128,
                    rsv1: (b0 / 64) % 2 == 1,
                    rsv2: (b0 / 32) % 2 == 1,
                    rsv3: (b0 / 16) % 2 == 1,
                    opcode,
                    mask: b1 >= 128,
                    payload_len: b1 % 128,
                    payload_len_ext: 0,
                    extend_by: extend_bits(b1 % 128),
                },
            ),
            None => None,
        }
    }

    /// The length of the payload that the header announces.
    pub open spec fn spec_payload_length(self) -> nat {
        if self.extend_by > 0 {
            self.payload_len_ext as nat
        } else {
            self.payload_len as nat
        }
    }

    pub open spec fn with_extended_length(self, v: u64) -> Headers {
        Headers { payload_len_ext: v, ..self }
    }

    pub open spec fn with_extend_by(self, bits: u8) -> Headers {
        Headers { extend_by: bits, ..self }
    }

    /// The same header with the mask bit set, as a client sends it.
    pub open spec fn with_mask(self) -> Headers {
        Headers { mask: true, ..self }
    }

    pub open spec fn key_size(self) -> nat {
        if self.mask {
            4
        } else {
            0
        }
    }

    /// The header of a final, masked client frame.
    pub open spec fn defaults(opcode: Opcode, payload_len: u8, payload_len_ext: u64) -> Headers {
        Headers {
            fin: true,
            rsv1: false,
            rsv2: false,
            rsv3: false,
            opcode,
            mask: true,
            payload_len,
            payload_len_ext,
            extend_by: 0,
        }
    }

    /// Reads the two header bytes at the start of `data`.
    pub fn decode(data: &[u8]) -> (r: Result<Headers, ParseError>)
        ensures
            r is Ok <==> data@.len() >= 2 && is_opcode(data@[0] % 16),
            r matches Ok(h) ==> Some(h) == Headers::parse(data@[0], data@[1]),
            r matches Err(e) ==> e is FrameError,
    {
        if data.len() < 2 {
            return Err(ParseError::FrameError(String::from_str("Truncated frame header")));
        }
        let byte0 = data[0];
        let byte1 = data[1];
        let opcode = match Opcode::from_u8(byte0 % 16) {
            Ok(o) => o,
            Err(e) => {
                return Err(e);
            },
        };
        let payload_len = byte1 % 128;
        let extend_by: u8 = if payload_len == MIN_VAL_FOR_16_BIT_UPGRADE {
            16
        } else if payload_len == MIN_VAL_FOR_64_BIT_UPGRADE {
            64
        } else {
            0
        };
        Ok(
            Headers {
                fin: byte0 >= 128,
                rsv1: (byte0 / 64) % 2 == 1,
                rsv2: (byte0 / 32) % 2 == 1,
                rsv3: (byte0 / 16) % 2 == 1,
                opcode,
                mask: byte1 >= 128,
                payload_len,
                payload_len_ext: 0,
                extend_by,
            },
        )
    }

    /// The header's wire form. The 7-bit length must fit its seven bits.
    pub fn encode(&self) -> (r: Vec<u8>)
        requires
            self.payload_len < 128,
        ensures
            r@ == self.wire_bytes(),
    {
        let byte0: u8 = bit_of(self.fin, 128) + bit_of(self.rsv1, 64) + bit_of(self.rsv2, 32)
            + bit_of(self.rsv3, 16) + self.opcode.as_u8();
        let byte1: u8 = bit_of(self.mask, 128) + self.payload_len;
        let mut out: Vec<u8> = Vec::new();
        out.push(byte0);
        out.push(byte1);
        if self.payload_len == MIN_VAL_FOR_16_BIT_UPGRADE {
            push_be(&mut out, self.payload_len_ext, 2);
        } else if self.payload_len == MIN_VAL_FOR_64_BIT_UPGRADE {
            push_be(&mut out, self.payload_len_ext, 8);
        } else {
            assert(be_bytes(self.payload_len_ext as nat, 0) =~= Seq::<u8>::empty());
        }
        assert(out@ =~= self.wire_bytes());
        out
    }

    pub fn set_defaults(opcode: Opcode, payload_len: u8, payload_len_ext: u64) -> (r: Headers)
        ensures
            r == Headers::defaults(opcode, payload_len, payload_len_ext),
    {
        Headers {
            fin: true,
            rsv1: false,
            rsv2: false,
            rsv3: false,
            opcode,
            mask: true,
            payload_len,
            payload_len_ext,
            extend_by: 0,
        }
    }

    /// How many bytes of extended length a decoder reads after these two
    /// header bytes.
    pub fn extended_length_size(&self) -> (r: usize)
        ensures
            r == (if self.extend_by == 16 {
                2nat
            } else if self.extend_by == 64 {
                8nat
            } else {
                0nat
            }),
    {
        if self.extend_by == 16 {
            2
        } else if self.extend_by == 64 {
            8
        } else {
            0
        }
    }

    /// Fills `payload_len_ext` from the extended length bytes at the start of
    /// `data`. Fails when `data` is too short, or when a 64-bit length is
    /// above 2^63 - 1.
    pub fn read_extended_length(&mut self, data: &[u8]) -> (r: Result<(), ParseError>)
        ensures
            ({
                let n = if old(self).extend_by == 16 {
                    2nat
                } else if old(self).extend_by == 64 {
                    8nat
                } else {
                    0nat
                };
                let v = be_value(data@.subrange(0, n as int));
                &&& r is Ok <==> n <= data@.len() && (old(self).extend_by == 64 ==> v
                    <= MAX_PAYLOAD_LEN)
                &&& r is Ok ==> *final(self) == old(self).with_extended_length(v as u64)
                &&& r is Err ==> *final(self) == *old(self)
                &&& r matches Err(e) ==> e is FrameError
            }),
    {
        let n = self.extended_length_size();
        if data.len() < n {
            return Err(ParseError::FrameError(String::from_str("Truncated extended length")));
        }
        let v = read_be(data, n);
        if self.extend_by == 64 && v > MAX_PAYLOAD_LEN {
            return Err(ParseError::FrameError(String::from_str("Payload length too large")));
        }
        self.payload_len_ext = v;
        Ok(())
    }

    /// The length of the payload that the header announces.
    pub fn payload_length(&self) -> (r: u64)
        ensures
            r == self.spec_payload_length(),
    {
        if self.extend_by > 0 {
            self.payload_len_ext
        } else {
            self.payload_len as u64
        }
    }

    /// How many bytes follow the header: the masking key, if any, and the
    /// payload. `None` when that does not fit in memory.
    pub fn body_length(&self) -> (r: Option<usize>)
        ensures
            r is Some <==> self.key_size() + self.spec_payload_length() <= usize::MAX,
            r matches Some(n) ==> n == self.key_size() + self.spec_payload_length(),
    {
        let len = self.payload_length();
        let key: u64 = if self.mask {
            4
        } else {
            0
        };
        if len > usize::MAX as u64 - key {
            None
        } else {
            Some((len + key) as usize)
        }
    }
}

#[derive(Debug, Clone)]
pub struct Frame {
    pub headers: Headers,
    /// The payload, unmasked after decoding and masked in place by encoding.
    pub payload_data: Vec<u8>,
}

/// The bytes of a client frame: `headers` with the mask bit set, the four
/// bytes of `key`, most significant first, and `payload` masked with them.
pub open spec fn client_frame_bytes(headers: Headers, payload: Seq<u8>, key: u32) -> Seq<u8> {
    headers.with_mask().wire_bytes() + be_bytes(key as nat, 4) + masked(
        payload,
        be_bytes(key as nat, 4),
    )
}

/// The payload carried by `body`, the bytes that follow a header: after the
/// masking key if the header announces one, unmasked with it.
pub open spec fn body_payload(headers: Headers, body: Seq<u8>) -> Seq<u8> {
    let n = headers.spec_payload_length() as int;
    if headers.mask {
        masked(body.subrange(4, 4 + n), body.subrange(0, 4))
    } else {
        body.subrange(0, n)
    }
}

impl Frame {
    /// Reads the frame body that follows `headers` at the start of `data`:
    /// the masking key, if the header announces one, then the payload, which
    /// is unmasked.
    pub fn decode(data: &[u8], headers: Headers) -> (r: Result<Frame, ParseError>)
        ensures
            r is Ok <==> headers.key_size() + headers.spec_payload_length() <= data@.len(),
            r matches Ok(f) ==> f.headers == headers && f.payload_data@ == body_payload(
                headers,
                data@,
            ),
            r matches Err(e) ==> e is FrameError,
    {
        let len = headers.payload_length();
        let key_len: usize = if headers.mask {
            4
        } else {
            0
        };
        if data.len() < key_len || ((data.len() - key_len) as u64) < len {
            return Err(ParseError::FrameError(String::from_str("Truncated frame payload")));
        }
        let end = key_len + len as usize;
        let mut payload_data = slice_to_vec(slice_subrange(data, key_len, end));
        if headers.mask {
            let key = slice_to_vec(slice_subrange(data, 0, 4));
            mask_in_place(&mut payload_data, &key);
        }
        Ok(Frame { headers, payload_data })
    }

    /// Encodes the frame as a client sends it, with `key` as the masking key:
    /// the mask bit is set in the bytes, the payload is masked in place and
    /// the header is left as it is.
    pub fn encode_with_key(&mut self, key: u32) -> (r: Vec<u8>)
        requires
            old(self).headers.payload_len < 128,
        ensures
            final(self).headers == old(self).headers,
            final(self).payload_data@ == masked(old(self).payload_data@, be_bytes(key as nat, 4)),
            r@ == client_frame_bytes(old(self).headers, old(self).payload_data@, key),
    {
        let mut wire_headers = self.headers;
        wire_headers.mask = true;
        let mut key_bytes: Vec<u8> = Vec::new();
        push_be(&mut key_bytes, key as u64, 4);
        proof {
            lemma_be_bytes_len(key as nat, 4);
        }
        mask_in_place(&mut self.payload_data, &key_bytes);
        let mut out = wire_headers.encode();
        out.append(&mut key_bytes);
        let mut payload = self.payload_data.clone();
        out.append(&mut payload);
        out
    }

    /// Encodes the frame as a client sends it, with a fresh random masking
    /// key; the payload is masked in place and the header is left as it is.
    pub fn encode(&mut self) -> (r: Vec<u8>)
        requires
            old(self).headers.payload_len < 128,
        ensures
            final(self).headers == old(self).headers,
            exists|key: u32|
                (final(self).payload_data@ == masked(old(self).payload_data@, be_bytes(key as nat, 4))
                    && r@ == client_frame_bytes(old(self).headers, old(self).payload_data@, key)),
    {
        let key = random_u32();
        self.encode_with_key(key)
    }

    /// A final, masked frame of type `opcode` that carries `data`.
    pub fn set_defaults(opcode: Opcode, data: &[u8]) -> (r: Frame)
        ensures
            r.headers == Headers::defaults(
                opcode,
                payload_len_class(data@.len()).0,
                payload_len_class(data@.len()).1,
            ),
            r.payload_data@ == data@,
    {
        let (payload_len, payload_len_ext) = Self::get_payload_len(data.len());
        let headers = Headers::set_defaults(opcode, payload_len, payload_len_ext);
        Frame { headers, payload_data: slice_to_vec(data) }
    }

    /// The 7-bit length and the extended length that announce `len` bytes.
    pub fn get_payload_len(len: usize) -> (r: (u8, u64))
        ensures
            r == payload_len_class(len as nat),
            r.0 < 126 <==> len < 126,
            r.0 == 126 <==> 126 <= len <= 0xFFFF,
            r.0 == 127 <==> len > 0xFFFF,
            len < 126 ==> r.0 == len && r.1 == 0,
            len >= 126 ==> r.1 == len,
    {
        if len < MIN_VAL_FOR_16_BIT_UPGRADE as usize {
            (len as u8, 0u64)
        } else if len <= 0xFFFF {
            (MIN_VAL_FOR_16_BIT_UPGRADE, len as u64)
        } else {
            (MIN_VAL_FOR_64_BIT_UPGRADE, len as u64)
        }
    }
}

/// XORs each byte of `payload` with the key byte at its position modulo four.
fn mask_in_place(payload: &mut Vec<u8>, key: &Vec<u8>)
    requires
        key@.len() == 4,
    ensures
        final(payload)@ == masked(old(payload)@, key@),
{
    let n = payload.len();
    let mut i: usize = 0;
    while i < n
        invariant
            key@.len() == 4,
            n == old(payload)@.len() == payload@.len(),
            i <= n,
            forall|j: int| 0 <= j < i ==> payload@[j] == old(payload)@[j] ^ key@[j % 4],
            forall|j: int| i <= j < n ==> payload@[j] == old(payload)@[j],
        decreases n - i,
    {
        let b = payload[i] ^ key[i % 4];
        payload.set(i, b);
        i = i + 1;
    }
    assert(payload@ =~= masked(old(payload)@, key@));
}

/// What the read path makes of `bytes`: the two header bytes, the extended
/// length they announce, then the body; the header as filled in and the
/// unmasked payload, or `None` where a stage fails.
pub open spec fn parse_frame(bytes: Seq<u8>) -> Option<(Headers, Seq<u8>)> {
    if bytes.len() < 2 {
        None
    } else {
        match Headers::parse(bytes[0], bytes[1]) {
            None => None,
            Some(h) => {
                let n = extension_size(h.payload_len);
                if bytes.len() < 2 + n {
                    None
                } else {
                    let v = be_value(bytes.subrange(2, 2 + n as int));
                    if h.extend_by == 64 && v > MAX_PAYLOAD_LEN {
                        None
                    } else {
                        let h1 = h.with_extended_length(v as u64);
                        let body = bytes.subrange(2 + n as int, bytes.len() as int);
                        if h1.key_size() + h1.spec_payload_length() <= body.len() {
                            Some((h1, body_payload(h1, body)))
                        } else {
                            None
                        }
                    }
                }
            },
        }
    }
}

/// Masking twice with the same key gives the payload back.
pub proof fn lemma_mask_involution(payload: Seq<u8>, key: Seq<u8>)
    requires
        key.len() == 4,
    ensures
        masked(masked(payload, key), key) == payload,
{
    assert forall|i: int| 0 <= i < payload.len() implies #[trigger] masked(
        masked(payload, key),
        key,
    )[i] == payload[i] by {
        let a = payload[i];
        let b = key[i % 4];
        assert((a ^ b) ^ b == a) by (bit_vector);
    }
    assert(masked(masked(payload, key), key) =~= payload);
}

/// Decoding the two bytes that a header encodes to gives the header back,
/// with the extended length still to be read.
pub proof fn lemma_header_encode_decode(h: Headers)
    requires
        h.payload_len < 128,
    ensures
        Headers::parse(h.first_byte() as u8, h.second_byte() as u8) == Some(
            h.with_extended_length(0).with_extend_by(extend_bits(h.payload_len)),
        ),
{
    let c = h.opcode.code();
    assert(opcode_of(c) == Some(h.opcode));
    let b0 = h.first_byte() as u8;
    assert(b0 == h.first_byte());
    assert(b0 % 16 == c);
    assert(b0 / 64 % 2 == 1 <==> h.rsv1);
    assert(b0 / 32 % 2 == 1 <==> h.rsv2);
    assert(b0 / 16 % 2 == 1 <==> h.rsv3);
}

/// Encoding a decoded header gives the two bytes back.
pub proof fn lemma_header_decode_encode(b0: u8, b1: u8)
    requires
        Headers::parse(b0, b1) is Some,
    ensures
        Headers::parse(b0, b1)->0.first_byte() == b0,
        Headers::parse(b0, b1)->0.second_byte() == b1,
{
    let h = Headers::parse(b0, b1)->0;
    assert(h.opcode.code() == b0 % 16);
}

/// Big-endian encoding and decoding are inverse to each other, on values
/// that fit the width.
pub proof fn lemma_be_round_trip(v: nat, n: nat)
    requires
        v < pow256(n),
    ensures
        be_value(be_bytes(v, n)) == v,
    decreases n,
{
    if n > 0 {
        let p = pow256((n - 1) as nat);
        assert(v / 256 < p) by (nonlinear_arith)
            requires
                v < 256 * p,
        ;
        lemma_be_round_trip(v / 256, (n - 1) as nat);
        let bytes = be_bytes(v, n);
        assert(bytes.drop_last() =~= be_bytes(v / 256, (n - 1) as nat));
    }
}

/// Every byte string is the big-endian encoding of the value it spells.
pub proof fn lemma_be_bytes_of_value(bytes: Seq<u8>)
    ensures
        be_bytes(be_value(bytes), bytes.len()) == bytes,
    decreases bytes.len(),
{
    if bytes.len() > 0 {
        let rest = bytes.drop_last();
        lemma_be_bytes_of_value(rest);
        let v = be_value(bytes);
        assert(v / 256 == be_value(rest));
        assert(v % 256 == bytes.last());
        assert(be_bytes(v, bytes.len()) =~= bytes);
    }
}

/// Every client frame has the mask bit of its second byte set, and carries
/// the four key bytes right after its header and before the payload, which
/// they mask.
pub proof fn lemma_client_frame_layout(headers: Headers, payload: Seq<u8>, key: u32)
    requires
        headers.payload_len < 128,
    ensures
        ({
            let w = client_frame_bytes(headers, payload, key);
            let k = 2 + extension_size(headers.payload_len) as int;
            &&& w[1] >= 128
            &&& w.len() == k + 4 + payload.len()
            &&& w.subrange(k, k + 4) == be_bytes(key as nat, 4)
            &&& w.subrange(k + 4, w.len() as int) == masked(payload, w.subrange(k, k + 4))
        }),
{
    let h = headers.with_mask();
    let w = client_frame_bytes(headers, payload, key);
    let k = 2 + extension_size(headers.payload_len) as int;
    lemma_be_bytes_len(headers.payload_len_ext as nat, extension_size(headers.payload_len));
    lemma_be_bytes_len(key as nat, 4);
    assert(h.wire_bytes().len() == k);
    assert(w.subrange(k, k + 4) =~= be_bytes(key as nat, 4));
    assert(w.subrange(k + 4, w.len() as int) =~= masked(payload, be_bytes(key as nat, 4)));
}

/// A client frame decodes to the frame it was made from: the header, with
/// the mask bit set, and the payload, unmasked.
pub proof fn lemma_frame_round_trip(headers: Headers, payload: Seq<u8>, key: u32)
    requires
        (headers.payload_len, headers.payload_len_ext) == payload_len_class(payload.len()),
        payload.len() <= MAX_PAYLOAD_LEN,
    ensures
        parse_frame(client_frame_bytes(headers, payload, key)) == Some(
            (headers.with_mask().with_extend_by(extend_bits(headers.payload_len)), payload),
        ),
{
    let h = headers.with_mask();
    let w = client_frame_bytes(headers, payload, key);
    let n = extension_size(headers.payload_len);
    let kb = be_bytes(key as nat, 4);
    lemma_client_frame_layout(headers, payload, key);
    lemma_header_encode_decode(h);
    lemma_be_bytes_len(headers.payload_len_ext as nat, n);
    let ext = be_bytes(headers.payload_len_ext as nat, n);
    assert(w.subrange(2, 2 + n as int) =~= ext);
    assert(w[0] == h.first_byte() as u8 && w[1] == h.second_byte() as u8);
    lemma_pow256_values();
    if n == 2 {
        lemma_be_round_trip(headers.payload_len_ext as nat, 2);
    } else if n == 8 {
        lemma_be_round_trip(headers.payload_len_ext as nat, 8);
    }
    let v = be_value(ext);
    assert(v == (if n == 0 { 0 } else { headers.payload_len_ext as nat }));
    let h1 = h.with_extended_length(0).with_extend_by(extend_bits(headers.payload_len))
        .with_extended_length(v as u64);
    assert(h1 == headers.with_mask().with_extend_by(extend_bits(headers.payload_len)));
    assert(h1.spec_payload_length() == payload.len());
    let body = w.subrange(2 + n as int, w.len() as int);
    assert(body.subrange(0, 4) =~= kb);
    assert(body.subrange(4, 4 + payload.len() as int) =~= masked(payload, kb));
    lemma_mask_involution(payload, kb);
}

fn bit_of(b: bool, weight: u8) -> (r: u8)
    ensures
        r == flag(b, weight as int),
{
    if b {
        weight
    } else {
        0
    }
}

/// Appends the last `n` bytes of `v`, most significant first.
fn push_be(out: &mut Vec<u8>, v: u64, n: usize)
    ensures
        final(out)@ == old(out)@ + be_bytes(v as nat, n as nat),
    decreases n,
{
    if n == 0 {
        assert(old(out)@ + be_bytes(v as nat, 0) =~= old(out)@);
    } else {
        push_be(out, v / 256, n - 1);
        out.push((v % 256) as u8);
        assert(out@ =~= old(out)@ + be_bytes(v as nat, n as nat));
    }
}

proof fn lemma_be_bytes_len(v: nat, n: nat)
    ensures
        be_bytes(v, n).len() == n,
    decreases n,
{
    if n > 0 {
        lemma_be_bytes_len(v / 256, (n - 1) as nat);
    }
}

proof fn lemma_be_value_bound(bytes: Seq<u8>)
    ensures
        be_value(bytes) < pow256(bytes.len()),
    decreases bytes.len(),
{
    if bytes.len() > 0 {
        let rest = bytes.drop_last();
        lemma_be_value_bound(rest);
        let p = pow256(rest.len());
        let x = be_value(rest);
        let b = bytes.last();
        assert(x * 256 + b < 256 * p) by (nonlinear_arith)
            requires
                x < p,
                b < 256,
        ;
    }
}

proof fn lemma_pow256_values()
    ensures
        pow256(2) == 0x1_0000,
        256 * pow256(7) == 0x1_0000_0000_0000_0000,
        pow256(8) == 0x1_0000_0000_0000_0000,
{
    reveal_with_fuel(pow256, 9);
}

/// The number that the first `n` bytes of `data` spell, most significant first.
fn read_be(data: &[u8], n: usize) -> (r: u64)
    requires
        n <= data@.len(),
        n <= 8,
    ensures
        r == be_value(data@.subrange(0, n as int)),
{
    let mut acc: u64 = 0;
    let mut i: usize = 0;
    while i < n
        invariant
            i <= n <= data@.len(),
            n <= 8,
            acc == be_value(data@.subrange(0, i as int)),
        decreases n - i,
    {
        let ghost prefix = data@.subrange(0, i as int);
        let ghost next = data@.subrange(0, i as int + 1);
        proof {
            lemma_be_value_bound(prefix);
            lemma_pow256_monotonic(i as nat, 7);
            lemma_pow256_values();
            assert(next.drop_last() =~= prefix);
            assert(acc * 256 + data@[i as int] < 0x1_0000_0000_0000_0000) by (nonlinear_arith)
                requires
                    acc < pow256(i as nat),
                    pow256(i as nat) <= pow256(7),
                    256 * pow256(7) == 0x1_0000_0000_0000_0000,
                    data@[i as int] < 256,
            ;
        }
        acc = acc * 256 + data[i] as u64;
        i = i + 1;
    }
    acc
}

proof fn lemma_pow256_monotonic(i: nat, j: nat)
    requires
        i <= j,
    ensures
        pow256(i) <= pow256(j),
    decreases j,
{
    if i < j {
        lemma_pow256_monotonic(i, (j - 1) as nat);
    }
}

} // verus!
