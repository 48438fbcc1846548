//! Wire layout of the protocol: a canonical variable-width integer, the
//! length-prefixed request and response envelopes, and the outer frame that
//! carries one envelope over the byte stream.
//!
//! Integers below 251 occupy one byte; larger ones carry a width tag
//! (251 for two, 252 for four, 253 for eight little-endian bytes). The
//! decoders accept exactly the canonical encodings and reject trailing
//! bytes, so decoding is the inverse of encoding.

use vstd::prelude::*;

verus! {

/// A request envelope: protocol version, service domain, procedure name,
/// and the caller's independently encoded payload. The two identifiers are
/// carried as their UTF-8 bytes.
#[derive(Clone, Debug, PartialEq, Eq)]
pub struct RawRequest {
    pub proto_ver: u8,
    pub netname: Vec<u8>,
    pub verb: Vec<u8>,
    pub payload: Vec<u8>,
}

/// A response envelope: a kind tag (as its UTF-8 bytes) and a body whose
/// meaning depends on the kind.
#[derive(Clone, Debug, PartialEq, Eq)]
pub struct RawResponse {
    pub kind: Vec<u8>,
    pub body: Vec<u8>,
}

/// Little-endian bytes of a value below 2^16.
pub open spec fn le2(n: u64) -> Seq<u8>
    recommends
        n < 0x10000,
{
    seq![(n % 256) as u8, ((n / 256) % 256) as u8]
}

/// Little-endian bytes of a value below 2^32.
pub open spec fn le4(n: u64) -> Seq<u8>
    recommends
        n < 0x100000000,
{
    seq![
        (n % 256) as u8,
        ((n / 256) % 256) as u8,
        ((n / 0x10000) % 256) as u8,
        ((n / 0x1000000) % 256) as u8,
    ]
}

/// Little-endian bytes of any 64-bit value.
pub open spec fn le8(n: u64) -> Seq<u8> {
    seq![
        (n % 256) as u8,
        ((n / 256) % 256) as u8,
        ((n / 0x10000) % 256) as u8,
        ((n / 0x1000000) % 256) as u8,
        ((n / 0x100000000) % 256) as u8,
        ((n / 0x10000000000) % 256) as u8,
        ((n / 0x1000000000000) % 256) as u8,
        ((n / 0x100000000000000) % 256) as u8,
    ]
}

/// Canonical variable-width encoding of an unsigned integer.
pub open spec fn spec_varint(n: u64) -> Seq<u8> {
    if n <= 250 {
        seq![n as u8]
    } else if n < 0x10000 {
        seq![251u8] + le2(n)
    } else if n < 0x100000000 {
        seq![252u8] + le4(n)
    } else {
        seq![253u8] + le8(n)
    }
}

/// Reads one canonical variable-width integer from the front of `b`,
/// yielding the value and the remaining bytes. Rejects a width tag whose
/// value would have fit a shorter form, so every accepted prefix is
/// exactly `spec_varint` of the value.
pub open spec fn spec_read_varint(b: Seq<u8>) -> Option<(u64, Seq<u8>)> {
    if b.len() == 0 {
        None
    } else if b[0] <= 250 {
        Some(((b[0] as u64), b.skip(1)))
    } else if b[0] == 251 {
        if b.len() >= 3 {
            let v = (b[1] + b[2] * 256) as u64;
            if v > 250 {
                Some((v, b.skip(3)))
            } else {
                None
            }
        } else {
            None
        }
    } else if b[0] == 252 {
        if b.len() >= 5 {
            let v = (b[1] + b[2] * 256 + b[3] * 0x10000 + b[4] * 0x1000000) as u64;
            if v >= 0x10000 {
                Some((v, b.skip(5)))
            } else {
                None
            }
        } else {
            None
        }
    } else if b[0] == 253 {
        if b.len() >= 9 {
            let v = (b[1] + b[2] * 256 + b[3] * 0x10000 + b[4] * 0x1000000 + b[5] * 0x100000000
                + b[6] * 0x10000000000 + b[7] * 0x1000000000000 + b[8]
                * 0x100000000000000) as u64;
            if v >= 0x100000000 {
                Some((v, b.skip(9)))
            } else {
                None
            }
        } else {
            None
        }
    } else {
        None
    }
}

/// Reading a canonical encoding followed by anything recovers the value
/// and the trailing bytes exactly.
pub proof fn lemma_varint_roundtrip(n: u64, rest: Seq<u8>)
    ensures
        spec_read_varint(spec_varint(n) + rest) == Some((n, rest)),
{
    let b = spec_varint(n) + rest;
    if n <= 250 {
        assert(b[0] == n as u8);
        assert(b.skip(1) =~= rest);
    } else if n < 0x10000 {
        assert(b[0] == 251u8);
        assert(b[1] == (n % 256) as u8);
        assert(b[2] == ((n / 256) % 256) as u8);
        assert(n % 256 + ((n / 256) % 256) * 256 == n) by {
            assert(n / 256 < 256);
            assert((n / 256) % 256 == n / 256);
            assert(256 * (n / 256) + n % 256 == n);
        }
        assert(b.skip(3) =~= rest);
    } else if n < 0x100000000 {
        assert(b[0] == 252u8);
        lemma_le4_value(n);
        assert(b.skip(5) =~= rest);
    } else {
        assert(b[0] == 253u8);
        lemma_le8_value(n);
        assert(b.skip(9) =~= rest);
    }
}

/// The four little-endian bytes of a value below 2^32 reassemble to it.
proof fn lemma_le4_value(n: u64)
    requires
        n < 0x100000000,
    ensures
        n % 256 + ((n / 256) % 256) * 256 + ((n / 0x10000) % 256) * 0x10000 + ((n / 0x1000000)
            % 256) * 0x1000000 == n,
{
    assert(n % 256 + ((n / 256) % 256) * 256 + ((n / 0x10000) % 256) * 0x10000 + ((n / 0x1000000)
        % 256) * 0x1000000 == n) by (bit_vector)
        requires
            n < 0x100000000,
    ;
}

/// The eight little-endian bytes of a 64-bit value reassemble to it.
proof fn lemma_le8_value(n: u64)
    ensures
        n % 256 + ((n / 256) % 256) * 256 + ((n / 0x10000) % 256) * 0x10000 + ((n / 0x1000000)
            % 256) * 0x1000000 + ((n / 0x100000000) % 256) * 0x100000000 + ((n / 0x10000000000)
            % 256) * 0x10000000000 + ((n / 0x1000000000000) % 256) * 0x1000000000000 + ((n
            / 0x100000000000000) % 256) * 0x100000000000000 == n,
{
    assert(n % 256 + ((n / 256) % 256) * 256 + ((n / 0x10000) % 256) * 0x10000 + ((n / 0x1000000)
        % 256) * 0x1000000 + ((n / 0x100000000) % 256) * 0x100000000 + ((n / 0x10000000000) % 256)
        * 0x10000000000 + ((n / 0x1000000000000) % 256) * 0x1000000000000 + ((n / 0x100000000000000)
        % 256) * 0x100000000000000 == n) by (bit_vector);
}

/// Whatever `spec_read_varint` accepts is the canonical encoding of the
/// value it returns, followed by the bytes it leaves over.
pub proof fn lemma_read_varint_sound(b: Seq<u8>)
    ensures
        spec_read_varint(b) matches Some((v, rest)) ==> b =~= spec_varint(v) + rest && rest.len()
            < b.len(),
{
    if let Some((v, rest)) = spec_read_varint(b) {
        if b[0] <= 250 {
        } else if b[0] == 251 {
            let b1 = b[1];
            let b2 = b[2];
            let x = (b1 + b2 * 256) as u64;
            assert(x % 256 == b1 && (x / 256) % 256 == b2) by (bit_vector)
                requires
                    x == b1 + b2 * 256,
            ;
            assert(x < 0x10000) by (bit_vector)
                requires
                    x == b1 + b2 * 256,
            ;
        } else if b[0] == 252 {
            let b1 = b[1];
            let b2 = b[2];
            let b3 = b[3];
            let b4 = b[4];
            let x = (b1 + b2 * 256 + b3 * 0x10000 + b4 * 0x1000000) as u64;
            assert(x % 256 == b1 && (x / 256) % 256 == b2 && (x / 0x10000) % 256 == b3 && (x
                / 0x1000000) % 256 == b4 && x < 0x100000000) by (bit_vector)
                requires
                    x == b1 + b2 * 256 + b3 * 0x10000 + b4 * 0x1000000,
            ;
        } else if b[0] == 253 {
            let b1 = b[1];
            let b2 = b[2];
            let b3 = b[3];
            let b4 = b[4];
            let b5 = b[5];
            let b6 = b[6];
            let b7 = b[7];
            let b8 = b[8];
            let x = (b1 + b2 * 256 + b3 * 0x10000 + b4 * 0x1000000 + b5 * 0x100000000 + b6
                * 0x10000000000 + b7 * 0x1000000000000 + b8 * 0x100000000000000) as u64;
            assert(x % 256 == b1 && (x / 256) % 256 == b2 && (x / 0x10000) % 256 == b3 && (x
                / 0x1000000) % 256 == b4 && (x / 0x100000000) % 256 == b5 && (x / 0x10000000000)
                % 256 == b6 && (x / 0x1000000000000) % 256 == b7 && (x / 0x100000000000000) % 256
                == b8) by (bit_vector)
                requires
                    x == b1 + b2 * 256 + b3 * 0x10000 + b4 * 0x1000000 + b5 * 0x100000000 + b6
                        * 0x10000000000 + b7 * 0x1000000000000 + b8 * 0x100000000000000,
            ;
        }
    }
}

/// Appends the canonical variable-width encoding of `n`.
pub fn push_varint(out: &mut Vec<u8>, n: u64)
    ensures
        final(out)@ =~= old(out)@ + spec_varint(n),
{
    if n <= 250 {
        out.push(n as u8);
    } else if n < 0x10000 {
        out.push(251u8);
        out.push((n % 256) as u8);
        out.push(((n / 256) % 256) as u8);
    } else if n < 0x100000000 {
        out.push(252u8);
        out.push((n % 256) as u8);
        out.push(((n / 256) % 256) as u8);
        out.push(((n / 0x10000) % 256) as u8);
        out.push(((n / 0x1000000) % 256) as u8);
    } else {
        out.push(253u8);
        out.push((n % 256) as u8);
        out.push(((n / 256) % 256) as u8);
        out.push(((n / 0x10000) % 256) as u8);
        out.push(((n / 0x1000000) % 256) as u8);
        out.push(((n / 0x100000000) % 256) as u8);
        out.push(((n / 0x10000000000) % 256) as u8);
        out.push(((n / 0x1000000000000) % 256) as u8);
        out.push(((n / 0x100000000000000) % 256) as u8);
    }
}

/// Appends all of `b`.
pub fn push_bytes(out: &mut Vec<u8>, b: &Vec<u8>)
    ensures
        final(out)@ =~= old(out)@ + b@,
{
    let ghost base = out@;
    let mut i: usize = 0;
    while i < b.len()
        invariant
            i <= b@.len(),
            out@ =~= base + b@.subrange(0, i as int),
        decreases b@.len() - i,
    {
        out.push(b[i]);
        i = i + 1;
    }
    assert(b@.subrange(0, b@.len() as int) =~= b@);
}

/// Reads one canonical variable-width integer starting at `pos`, returning
/// the value and the position just past it; agrees exactly with
/// `spec_read_varint` on the bytes from `pos` on.
pub fn read_varint(b: &Vec<u8>, pos: usize) -> (r: Option<(u64, usize)>)
    requires
        pos <= b@.len(),
    ensures
        match r {
            Some(p) => pos < p.1 <= b@.len() && spec_read_varint(b@.skip(pos as int)) == Some(
                (p.0, b@.skip(p.1 as int)),
            ),
            None => spec_read_varint(b@.skip(pos as int)) is None,
        },
{
    let ghost s = b@.skip(pos as int);
    if pos == b.len() {
        return None;
    }
    let t = b[pos];
    assert(s[0] == t);
    if t <= 250 {
        assert(s.skip(1) =~= b@.skip(pos + 1));
        Some((t as u64, pos + 1))
    } else if t == 251 {
        if b.len() - pos >= 3 {
            let v: u64 = b[pos + 1] as u64 + (b[pos + 2] as u64) * 256;
            assert(s[1] == b@[pos + 1] && s[2] == b@[pos + 2]);
            if v > 250 {
                assert(s.skip(3) =~= b@.skip(pos + 3));
                Some((v, pos + 3))
            } else {
                None
            }
        } else {
            None
        }
    } else if t == 252 {
        if b.len() - pos >= 5 {
            let v: u64 = b[pos + 1] as u64 + (b[pos + 2] as u64) * 256 + (b[pos + 3] as u64)
                * 0x10000 + (b[pos + 4] as u64) * 0x1000000;
            assert(s[1] == b@[pos + 1]);
            assert(s[2] == b@[pos + 2]);
            assert(s[3] == b@[pos + 3]);
            assert(s[4] == b@[pos + 4]);
            if v >= 0x10000 {
                assert(s.skip(5) =~= b@.skip(pos + 5));
                Some((v, pos + 5))
            } else {
                None
            }
        } else {
            None
        }
    } else if t == 253 {
        if b.len() - pos >= 9 {
            let v: u64 = b[pos + 1] as u64 + (b[pos + 2] as u64) * 256 + (b[pos + 3] as u64)
                * 0x10000 + (b[pos + 4] as u64) * 0x1000000 + (b[pos + 5] as u64) * 0x100000000 + (
            b[pos + 6] as u64) * 0x10000000000 + (b[pos + 7] as u64) * 0x1000000000000 + (b[pos
                + 8] as u64) * 0x100000000000000;
            assert(s[1] == b@[pos + 1]);
            assert(s[2] == b@[pos + 2]);
            assert(s[3] == b@[pos + 3]);
            assert(s[4] == b@[pos + 4]);
            assert(s[5] == b@[pos + 5]);
            assert(s[6] == b@[pos + 6]);
            assert(s[7] == b@[pos + 7]);
            assert(s[8] == b@[pos + 8]);
            if v >= 0x100000000 {
                assert(s.skip(9) =~= b@.skip(pos + 9));
                Some((v, pos + 9))
            } else {
                None
            }
        } else {
            None
        }
    } else {
        None
    }
}


/// A length-prefixed field: the canonical width of the field, then the
/// field's bytes.
pub open spec fn spec_lp(field: Seq<u8>) -> Seq<u8>
    recommends
        field.len() <= u64::MAX,
{
    spec_varint(field.len() as u64) + field
}

/// Byte layout of a request envelope: version byte, then the netname,
/// verb and payload, each length-prefixed.
pub open spec fn spec_encode_request(
    proto_ver: u8,
    netname: Seq<u8>,
    verb: Seq<u8>,
    payload: Seq<u8>,
) -> Seq<u8> {
    seq![proto_ver] + spec_lp(netname) + spec_lp(verb) + spec_lp(payload)
}

/// Byte layout of a response envelope: the kind tag and the body, each
/// length-prefixed.
pub open spec fn spec_encode_response(kind: Seq<u8>, body: Seq<u8>) -> Seq<u8> {
    spec_lp(kind) + spec_lp(body)
}

/// Reads one length-prefixed field from the front of `b`.
pub open spec fn spec_read_lp(b: Seq<u8>) -> Option<(Seq<u8>, Seq<u8>)> {
    match spec_read_varint(b) {
        None => None,
        Some((n, r)) => if n <= r.len() {
            Some((r.take(n as int), r.skip(n as int)))
        } else {
            None
        },
    }
}

/// Decodes a whole buffer as a response envelope; trailing bytes are
/// rejected.
pub open spec fn spec_decode_response(b: Seq<u8>) -> Option<(Seq<u8>, Seq<u8>)> {
    match spec_read_lp(b) {
        None => None,
        Some((kind, r)) => match spec_read_lp(r) {
            None => None,
            Some((body, r2)) => if r2.len() == 0 {
                Some((kind, body))
            } else {
                None
            },
        },
    }
}

/// Decodes a whole buffer as a request envelope; trailing bytes are
/// rejected.
pub open spec fn spec_decode_request(b: Seq<u8>) -> Option<(u8, Seq<u8>, Seq<u8>, Seq<u8>)> {
    if b.len() == 0 {
        None
    } else {
        match spec_read_lp(b.skip(1)) {
            None => None,
            Some((netname, r1)) => match spec_read_lp(r1) {
                None => None,
                Some((verb, r2)) => match spec_read_lp(r2) {
                    None => None,
                    Some((payload, r3)) => if r3.len() == 0 {
                        Some((b[0], netname, verb, payload))
                    } else {
                        None
                    },
                },
            },
        }
    }
}

/// Reading a length-prefixed field followed by anything recovers the
/// field and the trailing bytes exactly.
pub proof fn lemma_lp_roundtrip(f: Seq<u8>, rest: Seq<u8>)
    requires
        f.len() <= u64::MAX,
    ensures
        spec_read_lp(spec_lp(f) + rest) == Some((f, rest)),
{
    let n = f.len() as u64;
    lemma_varint_roundtrip(n, f + rest);
    assert(spec_lp(f) + rest =~= spec_varint(n) + (f + rest));
    assert((f + rest).take(n as int) =~= f);
    assert((f + rest).skip(n as int) =~= rest);
}

/// Round trip of the response envelope: decoding an encoded envelope
/// yields exactly the kind and body that were encoded.
pub proof fn lemma_response_roundtrip(kind: Seq<u8>, body: Seq<u8>)
    requires
        kind.len() <= u64::MAX,
        body.len() <= u64::MAX,
    ensures
        spec_decode_response(spec_encode_response(kind, body)) == Some((kind, body)),
{
    lemma_lp_roundtrip(kind, spec_lp(body));
    lemma_lp_roundtrip(body, Seq::<u8>::empty());
    assert(spec_lp(body) + Seq::<u8>::empty() =~= spec_lp(body));
}

/// Round trip of the request envelope.
pub proof fn lemma_request_roundtrip(ver: u8, netname: Seq<u8>, verb: Seq<u8>, payload: Seq<u8>)
    requires
        netname.len() <= u64::MAX,
        verb.len() <= u64::MAX,
        payload.len() <= u64::MAX,
    ensures
        spec_decode_request(spec_encode_request(ver, netname, verb, payload)) == Some(
            (ver, netname, verb, payload),
        ),
{
    let b = spec_encode_request(ver, netname, verb, payload);
    assert(b[0] == ver);
    assert(b.skip(1) =~= spec_lp(netname) + (spec_lp(verb) + spec_lp(payload)));
    lemma_lp_roundtrip(netname, spec_lp(verb) + spec_lp(payload));
    lemma_lp_roundtrip(verb, spec_lp(payload));
    assert(spec_lp(verb) + (spec_lp(payload)) =~= spec_lp(verb) + spec_lp(payload));
    lemma_lp_roundtrip(payload, Seq::<u8>::empty());
    assert(spec_lp(payload) + Seq::<u8>::empty() =~= spec_lp(payload));
}

/// Whatever `spec_read_lp` accepts is a length-prefixed field followed by
/// the bytes it leaves over.
pub proof fn lemma_read_lp_sound(b: Seq<u8>)
    ensures
        spec_read_lp(b) matches Some((f, rest)) ==> f.len() <= u64::MAX && b =~= spec_lp(f) + rest
            && rest.len() < b.len(),
{
    lemma_read_varint_sound(b);
    if let Some((n, r)) = spec_read_varint(b) {
        if n <= r.len() {
            let f = r.take(n as int);
            let rest = r.skip(n as int);
            assert(f.len() == n);
            assert(r =~= f + rest);
            assert(b =~= spec_varint(n) + r);
            assert(b =~= (spec_varint(n) + f) + rest);
        }
    }
}

/// Whatever `spec_decode_response` accepts is exactly an encoded response
/// envelope: decoding is injective on the wire.
pub proof fn lemma_decode_response_sound(b: Seq<u8>)
    ensures
        spec_decode_response(b) matches Some((kind, body)) ==> b =~= spec_encode_response(
            kind,
            body,
        ),
{
    lemma_read_lp_sound(b);
    if let Some((kind, r)) = spec_read_lp(b) {
        lemma_read_lp_sound(r);
        if let Some((body, r2)) = spec_read_lp(r) {
            if r2.len() == 0 {
                assert(spec_lp(body) + r2 =~= spec_lp(body));
                assert(b =~= spec_lp(kind) + spec_lp(body));
            }
        }
    }
}

/// Copies the bytes of `b` between `from` and `to`.
pub fn sub_vec(b: &Vec<u8>, from: usize, to: usize) -> (r: Vec<u8>)
    requires
        from <= to <= b@.len(),
    ensures
        r@ =~= b@.subrange(from as int, to as int),
{
    let mut r: Vec<u8> = Vec::new();
    let mut i: usize = from;
    while i < to
        invariant
            from <= i <= to <= b@.len(),
            r@ =~= b@.subrange(from as int, i as int),
        decreases to - i,
    {
        r.push(b[i]);
        i = i + 1;
    }
    r
}

/// Reads one length-prefixed field starting at `pos`, returning the field
/// and the position just past it; agrees exactly with `spec_read_lp` on
/// the bytes from `pos` on.
pub fn read_lp(b: &Vec<u8>, pos: usize) -> (r: Option<(Vec<u8>, usize)>)
    requires
        pos <= b@.len(),
    ensures
        match r {
            Some(p) => pos < p.1 <= b@.len() && spec_read_lp(b@.skip(pos as int)) == Some(
                (p.0@, b@.skip(p.1 as int)),
            ),
            None => spec_read_lp(b@.skip(pos as int)) is None,
        },
{
    match read_varint(b, pos) {
        None => None,
        Some((n, q)) => {
            if n <= (b.len() - q) as u64 {
                let len = n as usize;
                let end = q + len;
                let f = sub_vec(b, q, end);
                assert(b@.skip(pos as int).skip((q - pos) as int) =~= b@.skip(q as int));
                assert(b@.skip(q as int).take(n as int) =~= b@.subrange(q as int, end as int));
                assert(b@.skip(q as int).skip(n as int) =~= b@.skip(end as int));
                Some((f, end))
            } else {
                None
            }
        },
    }
}


/// Encodes a request envelope to its byte layout.
pub fn encode_request(req: &RawRequest) -> (r: Vec<u8>)
    ensures
        r@ =~= spec_encode_request(req.proto_ver, req.netname@, req.verb@, req.payload@),
{
    let mut out: Vec<u8> = Vec::new();
    out.push(req.proto_ver);
    push_varint(&mut out, req.netname.len() as u64);
    push_bytes(&mut out, &req.netname);
    push_varint(&mut out, req.verb.len() as u64);
    push_bytes(&mut out, &req.verb);
    push_varint(&mut out, req.payload.len() as u64);
    push_bytes(&mut out, &req.payload);
    out
}

/// Encodes a response envelope to its byte layout.
pub fn encode_response(resp: &RawResponse) -> (r: Vec<u8>)
    ensures
        r@ =~= spec_encode_response(resp.kind@, resp.body@),
{
    let mut out: Vec<u8> = Vec::new();
    push_varint(&mut out, resp.kind.len() as u64);
    push_bytes(&mut out, &resp.kind);
    push_varint(&mut out, resp.body.len() as u64);
    push_bytes(&mut out, &resp.body);
    out
}

/// Decodes a whole buffer as a response envelope; returns the envelope
/// exactly when the buffer is one well-formed encoding with nothing
/// trailing.
pub fn decode_response(b: &Vec<u8>) -> (r: Option<RawResponse>)
    ensures
        match r {
            Some(resp) => spec_decode_response(b@) == Some((resp.kind@, resp.body@)),
            None => spec_decode_response(b@) is None,
        },
{
    proof {
        assert(b@.skip(0) =~= b@);
    }
    match read_lp(b, 0) {
        None => None,
        Some((kind, p1)) => match read_lp(b, p1) {
            None => None,
            Some((body, p2)) => {
                if p2 == b.len() {
                    assert(b@.skip(p2 as int).len() == 0);
                    Some(RawResponse { kind, body })
                } else {
                    assert(b@.skip(p2 as int).len() != 0);
                    None
                }
            },
        },
    }
}

/// Decodes a whole buffer as a request envelope.
pub fn decode_request(b: &Vec<u8>) -> (r: Option<RawRequest>)
    ensures
        match r {
            Some(req) => spec_decode_request(b@) == Some(
                (req.proto_ver, req.netname@, req.verb@, req.payload@),
            ),
            None => spec_decode_request(b@) is None,
        },
{
    if b.len() == 0 {
        return None;
    }
    let ver = b[0];
    match read_lp(b, 1) {
        None => None,
        Some((netname, p1)) => match read_lp(b, p1) {
            None => None,
            Some((verb, p2)) => match read_lp(b, p2) {
                None => None,
                Some((payload, p3)) => {
                    if p3 == b.len() {
                        assert(b@.skip(p3 as int).len() == 0);
                        Some(RawRequest { proto_ver: ver, netname, verb, payload })
                    } else {
                        assert(b@.skip(p3 as int).len() != 0);
                        None
                    }
                },
            },
        },
    }
}

/// Big-endian bytes of a value below 2^32: the frame-level length prefix.
pub open spec fn be4(n: u64) -> Seq<u8>
    recommends
        n < 0x100000000,
{
    seq![
        ((n / 0x1000000) % 256) as u8,
        ((n / 0x10000) % 256) as u8,
        ((n / 256) % 256) as u8,
        (n % 256) as u8,
    ]
}

/// The value of the first four bytes read big-endian.
pub open spec fn be4_val(b: Seq<u8>) -> u64
    recommends
        b.len() >= 4,
{
    (b[0] * 0x1000000 + b[1] * 0x10000 + b[2] * 256 + b[3]) as u64
}

/// A frame: a four-byte big-endian length prefix, then exactly that many
/// payload bytes.
pub open spec fn spec_frame(payload: Seq<u8>) -> Seq<u8>
    recommends
        payload.len() < 0x100000000,
{
    be4(payload.len() as u64) + payload
}

/// Strips the frame layer from a whole buffer: accepts exactly a length
/// prefix matching the rest of the buffer.
pub open spec fn spec_unframe(b: Seq<u8>) -> Option<Seq<u8>> {
    if b.len() >= 4 && b.len() - 4 == be4_val(b) {
        Some(b.skip(4))
    } else {
        None
    }
}

/// Unframing a framed payload yields it back.
pub proof fn lemma_frame_roundtrip(payload: Seq<u8>)
    requires
        payload.len() < 0x100000000,
    ensures
        spec_unframe(spec_frame(payload)) == Some(payload),
{
    let n = payload.len() as u64;
    lemma_le4_value(n);
    let b = spec_frame(payload);
    assert(b[0] == ((n / 0x1000000) % 256) as u8);
    assert(b[1] == ((n / 0x10000) % 256) as u8);
    assert(b[2] == ((n / 256) % 256) as u8);
    assert(b[3] == (n % 256) as u8);
    assert(b.skip(4) =~= payload);
}

/// Whatever `spec_unframe` accepts is exactly a framed payload.
pub proof fn lemma_unframe_sound(b: Seq<u8>)
    ensures
        spec_unframe(b) matches Some(p) ==> p.len() < 0x100000000 && b =~= spec_frame(p),
{
    if b.len() >= 4 && b.len() - 4 == be4_val(b) {
        let b0 = b[0];
        let b1 = b[1];
        let b2 = b[2];
        let b3 = b[3];
        let x = (b0 * 0x1000000 + b1 * 0x10000 + b2 * 256 + b3) as u64;
        assert((x / 0x1000000) % 256 == b0 && (x / 0x10000) % 256 == b1 && (x / 256) % 256 == b2
            && x % 256 == b3 && x < 0x100000000) by (bit_vector)
            requires
                x == b0 * 0x1000000 + b1 * 0x10000 + b2 * 256 + b3,
        ;
        assert(b.skip(4).len() == x);
        assert(b =~= be4(x) + b.skip(4));
    }
}

/// Adds the frame-level length prefix to a payload.
pub fn frame(payload: &Vec<u8>) -> (r: Vec<u8>)
    requires
        payload@.len() < 0x100000000,
    ensures
        r@ =~= spec_frame(payload@),
{
    let n = payload.len() as u64;
    let mut out: Vec<u8> = Vec::new();
    out.push(((n / 0x1000000) % 256) as u8);
    out.push(((n / 0x10000) % 256) as u8);
    out.push(((n / 256) % 256) as u8);
    out.push((n % 256) as u8);
    push_bytes(&mut out, payload);
    out
}

/// Reads the payload length announced by a frame's four-byte prefix;
/// `None` when fewer than four bytes are at hand.
pub fn frame_len(prefix: &Vec<u8>) -> (r: Option<u32>)
    ensures
        prefix@.len() >= 4 ==> r == Some(be4_val(prefix@) as u32),
        prefix@.len() < 4 ==> r is None,
{
    if prefix.len() >= 4 {
        let v: u64 = (prefix[0] as u64) * 0x1000000 + (prefix[1] as u64) * 0x10000 + (
        prefix[2] as u64) * 256 + (prefix[3] as u64);
        Some(v as u32)
    } else {
        None
    }
}

/// Strips the frame layer from a whole buffer; agrees exactly with
/// `spec_unframe`.
pub fn unframe(b: &Vec<u8>) -> (r: Option<Vec<u8>>)
    ensures
        match r {
            Some(p) => spec_unframe(b@) == Some(p@),
            None => spec_unframe(b@) is None,
        },
{
    if b.len() < 4 {
        return None;
    }
    let n: u64 = (b[0] as u64) * 0x1000000 + (b[1] as u64) * 0x10000 + (b[2] as u64) * 256 + (
    b[3] as u64);
    if (b.len() - 4) as u64 == n {
        let p = sub_vec(b, 4, b.len());
        assert(b@.subrange(4, b@.len() as int) =~= b@.skip(4));
        Some(p)
    } else {
        None
    }
}


/// Builds the full wire frame of a request: the envelope bytes behind
/// the frame-level length prefix. Refuses an envelope too large for the
/// four-byte prefix.
pub fn build_request_frame(req: &RawRequest) -> (r: Option<Vec<u8>>)
    ensures
        match r {
            Some(f) => spec_encode_request(
                req.proto_ver,
                req.netname@,
                req.verb@,
                req.payload@,
            ).len() < 0x100000000 && f@ =~= spec_frame(
                spec_encode_request(req.proto_ver, req.netname@, req.verb@, req.payload@),
            ),
            None => spec_encode_request(
                req.proto_ver,
                req.netname@,
                req.verb@,
                req.payload@,
            ).len() >= 0x100000000,
        },
{
    let enc = encode_request(req);
    if (enc.len() as u64) < 0x100000000 {
        Some(frame(&enc))
    } else {
        None
    }
}

} // verus!
