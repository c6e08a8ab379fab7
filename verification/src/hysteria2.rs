//! The hysteria2 protocol's registration surface: the stream handshake
//! framing and the salamander packet obfuscator. The QUIC transport around
//! these lives outside the library.

use vstd::prelude::*;

use crate::strutil::string_from_utf8;
use crate::Error;
use vstd::string::StringSliceAdditionalSpecFns;

verus! {

/// The tag byte that opens a stream request.
pub const STREAM_REQUEST_TYPE: u8 = 0x41;

/// A stream open request: the target address text and padding.
#[derive(Debug, Clone, PartialEq)]
pub struct StreamRequest {
    pub addr: String,
    pub padding: Vec<u8>,
}

/// A stream open response: a status byte, a message, and padding.
#[derive(Debug, Clone, PartialEq)]
pub struct StreamResponse {
    pub status: u8,
    pub message: String,
    pub padding: Vec<u8>,
}

/// The big-endian bytes of a length field.
pub open spec fn u64_bytes(x: u64) -> Seq<u8> {
    seq![
        (x >> 56) as u8,
        (x >> 48) as u8,
        (x >> 40) as u8,
        (x >> 32) as u8,
        (x >> 24) as u8,
        (x >> 16) as u8,
        (x >> 8) as u8,
        x as u8,
    ]
}

/// The value eight big-endian bytes hold.
pub open spec fn u64_val(b: Seq<u8>) -> u64 {
    (((b[0] as u64) << 56) | ((b[1] as u64) << 48) | ((b[2] as u64) << 40) | ((b[3] as u64) << 32)
        | ((b[4] as u64) << 24) | ((b[5] as u64) << 16) | ((b[6] as u64) << 8) | (
    b[7] as u64)) as u64
}

/// Appends a big-endian length field.
fn push_u64_be(v: &mut Vec<u8>, x: u64)
    ensures
        final (v)@ =~= old(v)@ + u64_bytes(x),
{
    v.push((x >> 56) as u8);
    v.push((x >> 48) as u8);
    v.push((x >> 40) as u8);
    v.push((x >> 32) as u8);
    v.push((x >> 24) as u8);
    v.push((x >> 16) as u8);
    v.push((x >> 8) as u8);
    v.push(x as u8);
}

/// The wire form of a stream request: the tag byte, the address length and
/// bytes, then the padding length and bytes.
pub open spec fn stream_request_bytes(addr: Seq<u8>, padding: Seq<u8>) -> Seq<u8> {
    seq![STREAM_REQUEST_TYPE] + u64_bytes(addr.len() as u64) + addr + u64_bytes(
        padding.len() as u64,
    ) + padding
}

/// The wire form of a stream response: the status byte, the message length
/// and bytes, then the padding length and bytes.
pub open spec fn stream_response_bytes(status: u8, message: Seq<u8>, padding: Seq<u8>) -> Seq<u8> {
    seq![status] + u64_bytes(message.len() as u64) + message + u64_bytes(padding.len() as u64)
        + padding
}

/// Appends a byte string.
fn push_bytes(v: &mut Vec<u8>, b: &[u8])
    ensures
        final (v)@ =~= old(v)@ + b@,
{
    let mut i: usize = 0;
    while i < b.len()
        invariant
            0 <= i <= b@.len(),
            v@ =~= old(v)@ + b@.take(i as int),
        decreases b@.len() - i,
    {
        proof {
            assert(b@.take(i as int + 1) =~= b@.take(i as int).push(b@[i as int]));
        }
        v.push(b[i]);
        i += 1;
    }
    proof {
        assert(b@.take(b@.len() as int) =~= b@);
    }
}

/// A buffer opening with one complete stream request: the tag byte, length
/// fields within the buffer and the machine's range, and a textual address.
pub open spec fn spec_request_frame_ok(buf: Seq<u8>) -> bool {
    &&& buf.len() >= 17
    &&& buf[0] == STREAM_REQUEST_TYPE
    &&& {
        let alen = u64_val(buf.subrange(1, 9)) as int;
        &&& alen <= usize::MAX as int
        &&& alen <= buf.len() - 17
        &&& vstd::utf8::valid_utf8(buf.subrange(9, 9 + alen))
        &&& {
            let plen = u64_val(buf.subrange(9 + alen, 17 + alen)) as int;
            &&& plen <= usize::MAX as int
            &&& plen <= buf.len() - 17 - alen
        }
    }
}

/// A buffer opening with one complete stream response.
pub open spec fn spec_response_frame_ok(buf: Seq<u8>) -> bool {
    &&& buf.len() >= 17
    &&& {
        let mlen = u64_val(buf.subrange(1, 9)) as int;
        &&& mlen <= usize::MAX as int
        &&& mlen <= buf.len() - 17
        &&& vstd::utf8::valid_utf8(buf.subrange(9, 9 + mlen))
        &&& {
            let plen = u64_val(buf.subrange(9 + mlen, 17 + mlen)) as int;
            &&& plen <= usize::MAX as int
            &&& plen <= buf.len() - 17 - mlen
        }
    }
}

impl StreamRequest {
    /// A request for the given target, without padding.
    pub fn new(addr: String) -> (r: Self)
        ensures
            r.addr == addr,
            r.padding@ == Seq::<u8>::empty(),
    {
        let r = StreamRequest { addr, padding: Vec::new() };
        proof {
            assert(r.padding@ =~= Seq::<u8>::empty());
        }
        r
    }

    /// Encodes the request in its wire form.
    pub fn encode(&self) -> (r: Vec<u8>)
        ensures
            r@ == stream_request_bytes(vstd::utf8::encode_utf8(self.addr@), self.padding@),
    {
        let mut out: Vec<u8> = Vec::new();
        out.push(STREAM_REQUEST_TYPE);
        let ab = self.addr.as_str().as_bytes();
        push_u64_be(&mut out, ab.len() as u64);
        push_bytes(&mut out, ab);
        push_u64_be(&mut out, self.padding.len() as u64);
        let pb = self.padding.as_slice();
        push_bytes(&mut out, pb);
        proof {
            assert(out@ =~= stream_request_bytes(
                vstd::utf8::encode_utf8(self.addr@),
                self.padding@,
            ));
        }
        out
    }

    /// Reads a request back from its wire form: succeeds exactly on a buffer
    /// opening with one complete request, and a decoded request re-encodes to
    /// exactly the bytes consumed.
    pub fn decode(buf: &[u8]) -> (r: Result<StreamRequest, Error>)
        ensures
            r is Ok <==> spec_request_frame_ok(buf@),
            match r {
                Ok(req) => buf@.len() >= 17 && stream_request_bytes(
                    vstd::utf8::encode_utf8(req.addr@),
                    req.padding@,
                ) == buf@.take(
                    (17 + vstd::utf8::encode_utf8(req.addr@).len()
                        + req.padding@.len()) as int,
                ),
                Err(e) => e == Error::BadRequest,
            },
    {
        if buf.len() < 17 {
            return Err(Error::BadRequest);
        }
        if buf[0] != STREAM_REQUEST_TYPE {
            return Err(Error::BadRequest);
        }
        let alen = read_u64_be(buf, 1);
        if alen > (usize::MAX as u64) {
            return Err(Error::BadRequest);
        }
        let alen = alen as usize;
        if alen > buf.len() - 17 {
            return Err(Error::BadRequest);
        }
        let addr_bytes = copy_range(buf, 9, alen);
        let plen = read_u64_be(buf, 9 + alen);
        if plen > (usize::MAX as u64) {
            return Err(Error::BadRequest);
        }
        let plen = plen as usize;
        if plen > buf.len() - 17 - alen {
            return Err(Error::BadRequest);
        }
        let padding = copy_range(buf, 17 + alen, plen);
        let ghost ab = addr_bytes@;
        let addr = match string_from_utf8(addr_bytes) {
            Some(s) => s,
            None => {
                return Err(Error::BadRequest);
            }
        };
        let req = StreamRequest { addr, padding };
        proof {
            vstd::utf8::decode_utf8_encode_utf8(ab);
            lemma_request_take(buf@, ab, req.padding@);
        }
        Ok(req)
    }
}

/// The decoded frame's pieces sit exactly where the wire form puts them.
proof fn lemma_request_take(buf: Seq<u8>, ab: Seq<u8>, pb: Seq<u8>)
    requires
        buf.len() >= 17 + ab.len() + pb.len(),
        buf[0] == STREAM_REQUEST_TYPE,
        buf.subrange(1, 9) =~= u64_bytes(ab.len() as u64),
        buf.subrange(9, 9 + ab.len() as int) =~= ab,
        buf.subrange(9 + ab.len() as int, 17 + ab.len() as int) =~= u64_bytes(pb.len() as u64),
        buf.subrange(17 + ab.len() as int, (17 + ab.len() + pb.len()) as int) =~= pb,
        ab.len() <= u64::MAX,
        pb.len() <= u64::MAX,
    ensures
        stream_request_bytes(ab, pb) == buf.take((17 + ab.len() + pb.len()) as int),
{
    assert(stream_request_bytes(ab, pb) =~= buf.take((17 + ab.len() + pb.len()) as int));
}

/// Reads a big-endian length field.
fn read_u64_be(buf: &[u8], pos: usize) -> (r: u64)
    requires
        pos + 8 <= buf@.len(),
    ensures
        buf@.subrange(pos as int, pos as int + 8) =~= u64_bytes(r),
        u64_val(buf@.subrange(pos as int, pos as int + 8)) == r,
        r <= u64::MAX,
{
    let b0 = buf[pos] as u64;
    let b1 = buf[pos + 1] as u64;
    let b2 = buf[pos + 2] as u64;
    let b3 = buf[pos + 3] as u64;
    let b4 = buf[pos + 4] as u64;
    let b5 = buf[pos + 5] as u64;
    let b6 = buf[pos + 6] as u64;
    let b7 = buf[pos + 7] as u64;
    let r = (b0 << 56) | (b1 << 48) | (b2 << 40) | (b3 << 32) | (b4 << 24) | (b5 << 16) | (b6
        << 8) | b7;
    proof {
        assert((r >> 56) as u8 == b0 as u8 && (r >> 48) as u8 == b1 as u8 && (r >> 40) as u8
            == b2 as u8 && (r >> 32) as u8 == b3 as u8 && (r >> 24) as u8 == b4 as u8 && (r
            >> 16) as u8 == b5 as u8 && (r >> 8) as u8 == b6 as u8 && r as u8 == b7 as u8)
            by (bit_vector)
            requires
                b0 <= 0xFF && b1 <= 0xFF && b2 <= 0xFF && b3 <= 0xFF && b4 <= 0xFF && b5 <= 0xFF
                    && b6 <= 0xFF && b7 <= 0xFF,
                r == (b0 << 56) | (b1 << 48) | (b2 << 40) | (b3 << 32) | (b4 << 24) | (b5 << 16)
                    | (b6 << 8) | b7,
        ;
        assert(buf@.subrange(pos as int, pos as int + 8) =~= u64_bytes(r));
    }
    r
}

/// Copies `len` bytes starting at `pos`.
fn copy_range(buf: &[u8], pos: usize, len: usize) -> (r: Vec<u8>)
    requires
        pos + len <= buf@.len(),
    ensures
        r@ =~= buf@.subrange(pos as int, pos as int + len as int),
{
    let total = buf.len();
    proof {
        assert(buf@.len() == total);
    }
    let mut out: Vec<u8> = Vec::new();
    let mut i: usize = 0;
    while i < len
        invariant
            0 <= i <= len,
            pos + len <= buf@.len(),
            buf@.len() == total,
            out@ =~= buf@.subrange(pos as int, pos as int + i as int),
        decreases len - i,
    {
        proof {
            assert(buf@.subrange(pos as int, pos as int + i as int + 1) =~= buf@.subrange(
                pos as int,
                pos as int + i as int,
            ).push(buf@[pos + i]));
        }
        out.push(buf[pos + i]);
        i += 1;
    }
    out
}

impl StreamResponse {
    /// The success response.
    pub fn ok() -> (r: Self)
        ensures
            r.status == 0u8,
            r.message@ == Seq::<char>::empty(),
            r.padding@ == Seq::<u8>::empty(),
    {
        let r = StreamResponse { status: 0, message: String::new(), padding: Vec::new() };
        proof {
            assert(r.padding@ =~= Seq::<u8>::empty());
        }
        r
    }

    /// A failure response carrying a message.
    pub fn error(msg: String) -> (r: Self)
        ensures
            r.status == 1u8,
            r.message == msg,
            r.padding@ == Seq::<u8>::empty(),
    {
        let r = StreamResponse { status: 1, message: msg, padding: Vec::new() };
        proof {
            assert(r.padding@ =~= Seq::<u8>::empty());
        }
        r
    }

    /// Encodes the response in its wire form.
    pub fn encode(&self) -> (r: Vec<u8>)
        ensures
            r@ == stream_response_bytes(
                self.status,
                vstd::utf8::encode_utf8(self.message@),
                self.padding@,
            ),
    {
        let mut out: Vec<u8> = Vec::new();
        out.push(self.status);
        let mb = self.message.as_str().as_bytes();
        push_u64_be(&mut out, mb.len() as u64);
        push_bytes(&mut out, mb);
        push_u64_be(&mut out, self.padding.len() as u64);
        push_bytes(&mut out, self.padding.as_slice());
        proof {
            assert(out@ =~= stream_response_bytes(
                self.status,
                vstd::utf8::encode_utf8(self.message@),
                self.padding@,
            ));
        }
        out
    }

    /// Reads a response back from its wire form: succeeds exactly on a buffer
    /// opening with one complete response, and a decoded response re-encodes
    /// to exactly the bytes consumed.
    pub fn decode(buf: &[u8]) -> (r: Result<StreamResponse, Error>)
        ensures
            r is Ok <==> spec_response_frame_ok(buf@),
            match r {
                Ok(resp) => buf@.len() >= 17 && stream_response_bytes(
                    resp.status,
                    vstd::utf8::encode_utf8(resp.message@),
                    resp.padding@,
                ) == buf@.take(
                    (17 + vstd::utf8::encode_utf8(resp.message@).len()
                        + resp.padding@.len()) as int,
                ),
                Err(e) => e == Error::BadRequest,
            },
    {
        if buf.len() < 17 {
            return Err(Error::BadRequest);
        }
        let status = buf[0];
        let mlen = read_u64_be(buf, 1);
        if mlen > (usize::MAX as u64) {
            return Err(Error::BadRequest);
        }
        let mlen = mlen as usize;
        if mlen > buf.len() - 17 {
            return Err(Error::BadRequest);
        }
        let msg_bytes = copy_range(buf, 9, mlen);
        let plen = read_u64_be(buf, 9 + mlen);
        if plen > (usize::MAX as u64) {
            return Err(Error::BadRequest);
        }
        let plen = plen as usize;
        if plen > buf.len() - 17 - mlen {
            return Err(Error::BadRequest);
        }
        let padding = copy_range(buf, 17 + mlen, plen);
        let ghost mb = msg_bytes@;
        let message = match string_from_utf8(msg_bytes) {
            Some(s) => s,
            None => {
                return Err(Error::BadRequest);
            }
        };
        let resp = StreamResponse { status, message, padding };
        proof {
            vstd::utf8::decode_utf8_encode_utf8(mb);
            lemma_response_take(buf@, resp.status, mb, resp.padding@);
        }
        Ok(resp)
    }
}

/// The decoded frame's pieces sit exactly where the wire form puts them.
proof fn lemma_response_take(buf: Seq<u8>, status: u8, mb: Seq<u8>, pb: Seq<u8>)
    requires
        buf.len() >= 17 + mb.len() + pb.len(),
        buf[0] == status,
        buf.subrange(1, 9) =~= u64_bytes(mb.len() as u64),
        buf.subrange(9, 9 + mb.len() as int) =~= mb,
        buf.subrange(9 + mb.len() as int, 17 + mb.len() as int) =~= u64_bytes(pb.len() as u64),
        buf.subrange(17 + mb.len() as int, (17 + mb.len() + pb.len()) as int) =~= pb,
        mb.len() <= u64::MAX,
        pb.len() <= u64::MAX,
    ensures
        stream_response_bytes(status, mb, pb) == buf.take((17 + mb.len() + pb.len()) as int),
{
    assert(stream_response_bytes(status, mb, pb) =~= buf.take((17 + mb.len() + pb.len()) as int));
}

/// A datagram of the protocol's UDP session layer.
#[derive(Debug, Clone, PartialEq)]
pub struct UdpMessage {
    pub session_id: u32,
    pub packet_id: u16,
    pub fragment_id: u8,
    pub fragment_count: u8,
    pub addr: String,
    pub payload: Vec<u8>,
}

/// The big-endian bytes of a session id.
pub open spec fn u32_bytes(x: u32) -> Seq<u8> {
    seq![(x >> 24) as u8, (x >> 16) as u8, (x >> 8) as u8, x as u8]
}

/// The big-endian bytes of a packet id.
pub open spec fn u16_bytes(x: u16) -> Seq<u8> {
    seq![(x >> 8) as u8, x as u8]
}

/// The wire form of a datagram: the fixed header, the address length and
/// bytes, then the payload to the end.
pub open spec fn udp_message_bytes(
    session_id: u32,
    packet_id: u16,
    fragment_id: u8,
    fragment_count: u8,
    addr: Seq<u8>,
    payload: Seq<u8>,
) -> Seq<u8> {
    u32_bytes(session_id) + u16_bytes(packet_id) + seq![fragment_id, fragment_count] + u64_bytes(
        addr.len() as u64,
    ) + addr + payload
}

/// A buffer holding one complete datagram: a full fixed header, the address
/// within the buffer and the machine's range, and a textual address.
pub open spec fn spec_udp_frame_ok(buf: Seq<u8>) -> bool {
    &&& buf.len() >= 16
    &&& {
        let alen = u64_val(buf.subrange(8, 16)) as int;
        &&& alen <= usize::MAX as int
        &&& alen <= buf.len() - 16
        &&& vstd::utf8::valid_utf8(buf.subrange(16, 16 + alen))
    }
}

impl UdpMessage {
    /// A single-fragment datagram.
    pub fn new(session_id: u32, addr: String, payload: Vec<u8>) -> (r: Self)
        ensures
            r == (UdpMessage {
                session_id,
                packet_id: 0u16,
                fragment_id: 0u8,
                fragment_count: 1u8,
                addr,
                payload,
            }),
    {
        UdpMessage { session_id, packet_id: 0, fragment_id: 0, fragment_count: 1, addr, payload }
    }

    /// Encodes the datagram in its wire form.
    pub fn encode(&self) -> (r: Vec<u8>)
        ensures
            r@ == udp_message_bytes(
                self.session_id,
                self.packet_id,
                self.fragment_id,
                self.fragment_count,
                vstd::utf8::encode_utf8(self.addr@),
                self.payload@,
            ),
    {
        let mut out: Vec<u8> = Vec::new();
        out.push((self.session_id >> 24) as u8);
        out.push((self.session_id >> 16) as u8);
        out.push((self.session_id >> 8) as u8);
        out.push(self.session_id as u8);
        out.push((self.packet_id >> 8) as u8);
        out.push(self.packet_id as u8);
        out.push(self.fragment_id);
        out.push(self.fragment_count);
        let ab = self.addr.as_str().as_bytes();
        push_u64_be(&mut out, ab.len() as u64);
        push_bytes(&mut out, ab);
        push_bytes(&mut out, self.payload.as_slice());
        proof {
            assert(out@ =~= udp_message_bytes(
                self.session_id,
                self.packet_id,
                self.fragment_id,
                self.fragment_count,
                vstd::utf8::encode_utf8(self.addr@),
                self.payload@,
            ));
        }
        out
    }

    /// Reads a datagram back from its wire form: succeeds exactly on a buffer
    /// holding one complete datagram, and a decoded datagram re-encodes to
    /// exactly the buffer — the payload runs to the end.
    pub fn decode(buf: &[u8]) -> (r: Result<UdpMessage, Error>)
        ensures
            r is Ok <==> spec_udp_frame_ok(buf@),
            match r {
                Ok(msg) => buf@ == udp_message_bytes(
                    msg.session_id,
                    msg.packet_id,
                    msg.fragment_id,
                    msg.fragment_count,
                    vstd::utf8::encode_utf8(msg.addr@),
                    msg.payload@,
                ),
                Err(e) => e == Error::BadRequest,
            },
    {
        if buf.len() < 16 {
            return Err(Error::BadRequest);
        }
        let session_id = ((buf[0] as u32) << 24) | ((buf[1] as u32) << 16) | ((buf[2] as u32) << 8)
            | (buf[3] as u32);
        let packet_id = ((buf[4] as u16) << 8) | (buf[5] as u16);
        let fragment_id = buf[6];
        let fragment_count = buf[7];
        let alen = read_u64_be(buf, 8);
        if alen > (usize::MAX as u64) {
            return Err(Error::BadRequest);
        }
        let alen = alen as usize;
        if alen > buf.len() - 16 {
            return Err(Error::BadRequest);
        }
        let addr_bytes = copy_range(buf, 16, alen);
        let payload = copy_range(buf, 16 + alen, buf.len() - 16 - alen);
        let ghost ab = addr_bytes@;
        let addr = match string_from_utf8(addr_bytes) {
            Some(s) => s,
            None => {
                return Err(Error::BadRequest);
            }
        };
        let msg = UdpMessage { session_id, packet_id, fragment_id, fragment_count, addr, payload };
        proof {
            vstd::utf8::decode_utf8_encode_utf8(ab);
            let c0 = buf@[0];
            let c1 = buf@[1];
            let c2 = buf@[2];
            let c3 = buf@[3];
            let c4 = buf@[4];
            let c5 = buf@[5];
            assert((session_id >> 24) as u8 == c0 && (session_id >> 16) as u8 == c1 && (session_id
                >> 8) as u8 == c2 && session_id as u8 == c3) by (bit_vector)
                requires
                    session_id == ((c0 as u32) << 24) | ((c1 as u32) << 16) | ((c2 as u32) << 8)
                        | (c3 as u32),
            ;
            assert((packet_id >> 8) as u8 == c4 && packet_id as u8 == c5) by (bit_vector)
                requires
                    packet_id == ((c4 as u16) << 8) | (c5 as u16),
            ;
            assert(buf@ =~= udp_message_bytes(
                msg.session_id,
                msg.packet_id,
                msg.fragment_id,
                msg.fragment_count,
                ab,
                msg.payload@,
            ));
        }
        Ok(msg)
    }
}

// ---------------------------------------------------------------------------
// Salamander obfuscation
// ---------------------------------------------------------------------------
/// The first half of the digest that the salamander derives from its key and
/// a salt; the digest depends on the two inputs alone.
pub uninterp spec fn salamander_hash_of(key: Seq<u8>, salt: Seq<u8>) -> Seq<u8>;

/// The packet obfuscator: a password-derived XOR mask, salted per packet.
pub struct Salamander {
    pub key: Vec<u8>,
}

/// Relies on the `blake2` crate's fixed-output hasher: the digest is a
/// function of the hashed bytes alone, and its first half holds 32 bytes.
#[verifier::external_body]
fn hash_with_salt(key: &Vec<u8>, salt: &[u8]) -> (r: Vec<u8>)
    ensures
        r@ == salamander_hash_of(key@, salt@),
        r@.len() == 32,
{
    let mut hasher = <blake2::Blake2b512 as blake2::Digest>::new();
    blake2::Digest::update(&mut hasher, key.as_slice());
    blake2::Digest::update(&mut hasher, salt);
    let digest = blake2::Digest::finalize(hasher);
    digest[..32].to_vec()
}

/// Relies on the `rand` crate's thread-local generator for eight salt bytes;
/// nothing is promised of their values.
#[verifier::external_body]
fn random_salt() -> (r: Vec<u8>)
    ensures
        r@.len() == 8,
{
    rand::random::<[u8; 8]>().to_vec()
}

/// XORs the payload against the 32-byte mask, repeating the mask.
pub open spec fn spec_xor_mask(payload: Seq<u8>, mask: Seq<u8>) -> Seq<u8> {
    Seq::new(payload.len(), |i: int| payload[i] ^ mask[i % 32])
}

/// Applying the mask twice gives the payload back.
pub proof fn lemma_xor_mask_involutive(payload: Seq<u8>, mask: Seq<u8>)
    requires
        mask.len() == 32,
    ensures
        spec_xor_mask(spec_xor_mask(payload, mask), mask) =~= payload,
{
    assert forall|i: int| 0 <= i < payload.len() implies spec_xor_mask(
        spec_xor_mask(payload, mask),
        mask,
    )[i] == payload[i] by {
        let p = payload[i];
        let m = mask[i % 32];
        assert((p ^ m) ^ m == p) by (bit_vector);
    }
}

/// XORs a payload against the mask.
fn xor_mask(payload: &Vec<u8>, mask: &Vec<u8>) -> (r: Vec<u8>)
    requires
        mask@.len() == 32,
    ensures
        r@ =~= spec_xor_mask(payload@, mask@),
{
    let mut out: Vec<u8> = Vec::new();
    let mut i: usize = 0;
    while i < payload.len()
        invariant
            0 <= i <= payload@.len(),
            mask@.len() == 32,
            out@.len() == i,
            forall|j: int| 0 <= j < i ==> out@[j] == payload@[j] ^ mask@[j % 32],
        decreases payload@.len() - i,
    {
        out.push(payload[i] ^ mask[i % 32]);
        i += 1;
    }
    out
}

impl Salamander {
    /// An obfuscator keyed by a password.
    pub fn new(password: &str) -> (r: Self)
        ensures
            r.key@ == vstd::utf8::encode_utf8(password@),
    {
        let mut key: Vec<u8> = Vec::new();
        push_bytes(&mut key, password.as_bytes());
        proof {
            assert(key@ =~= vstd::utf8::encode_utf8(password@));
        }
        Salamander { key }
    }

    /// Obfuscates a packet: a fresh salt, then the payload XORed against the
    /// salt's mask, with the salt in front.
    pub fn encrypt(&self, payload: &Vec<u8>) -> (r: Vec<u8>)
        ensures
            r@.len() == payload@.len() + 8,
            r@.skip(8) == spec_xor_mask(payload@, salamander_hash_of(self.key@, r@.take(8))),
    {
        let salt = random_salt();
        let mask = hash_with_salt(&self.key, salt.as_slice());
        let body = xor_mask(payload, &mask);
        let mut out = salt;
        let ghost salt_view = out@;
        push_bytes(&mut out, body.as_slice());
        proof {
            assert(out@.take(8) =~= salt_view);
            assert(out@.skip(8) =~= body@);
        }
        out
    }

    /// Deobfuscates a packet: too short an input is nothing; otherwise the
    /// salt in front keys the mask and the rest is XORed back.
    pub fn decrypt(&self, input: &Vec<u8>) -> (r: Option<Vec<u8>>)
        ensures
            input@.len() < 8 ==> r is None,
            input@.len() >= 8 ==> (r matches Some(p) && p@ == spec_xor_mask(
                input@.skip(8),
                salamander_hash_of(self.key@, input@.take(8)),
            )),
    {
        if input.len() < 8 {
            return None;
        }
        let salt = copy_range(input, 0, 8);
        let body = copy_range(input, 8, input.len() - 8);
        proof {
            assert(salt@ =~= input@.take(8));
            assert(body@ =~= input@.skip(8));
        }
        let mask = hash_with_salt(&self.key, salt.as_slice());
        Some(xor_mask(&body, &mask))
    }
}

/// Deobfuscating an obfuscated packet gives the payload back: the round trip
/// over the XOR mask is the identity whenever the mask is the digest of the
/// same key and salt.
pub proof fn lemma_salamander_round_trip(key: Seq<u8>, salt: Seq<u8>, payload: Seq<u8>)
    requires
        salamander_hash_of(key, salt).len() == 32,
    ensures
        spec_xor_mask(
            spec_xor_mask(payload, salamander_hash_of(key, salt)),
            salamander_hash_of(key, salt),
        ) =~= payload,
{
    lemma_xor_mask_involutive(payload, salamander_hash_of(key, salt));
}

} // verus!
