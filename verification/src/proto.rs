use vstd::prelude::*;

use crate::context::Context;

verus! {

/// A logical request decoded from the wire: a liveness probe, or a unit of
/// work carrying the sequence number the peer will use to correlate the
/// answer, the deadline bounding execution, the ambient context scope, and an
/// opaque payload in the handler's own format.
pub enum Request {
    Ping(u64),
    Invoke(u64, u64, Context, Vec<u8>),
}

/// The mathematical value of a `Request`.
pub enum ReqV {
    Ping { seq: u64 },
    Invoke { seq: u64, deadline: u64, ctx: Context, payload: Seq<u8> },
}

impl View for Request {
    type V = ReqV;

    open spec fn view(&self) -> ReqV {
        match self {
            Request::Ping(seq) => ReqV::Ping { seq: *seq },
            Request::Invoke(seq, deadline, ctx, payload) => ReqV::Invoke {
                seq: *seq,
                deadline: *deadline,
                ctx: *ctx,
                payload: payload@,
            },
        }
    }
}

/// A logical response handed to the encode half: the echoed liveness reply, or
/// the correlated outcome of one invocation — the handler's success payload or
/// its declared error value.
pub enum Response {
    Ping(u64),
    Invoke(u64, Result<Vec<u8>, Vec<u8>>),
}

/// The mathematical value of a `Response`.
pub enum RespV {
    Ping { seq: u64 },
    Invoke { seq: u64, outcome: Result<Seq<u8>, Seq<u8>> },
}

impl View for Response {
    type V = RespV;

    open spec fn view(&self) -> RespV {
        match self {
            Response::Ping(seq) => RespV::Ping { seq: *seq },
            Response::Invoke(seq, outcome) => RespV::Invoke {
                seq: *seq,
                outcome: match outcome {
                    Ok(p) => Ok(p@),
                    Err(e) => Err(e@),
                },
            },
        }
    }
}

/// A codec failure. `User` means the framing is intact and one specific
/// request is malformed: it carries that request's sequence number, is
/// answered with a failure response, and the session continues. `Frame` means
/// the transport or framing itself is corrupted: it carries no correlation key
/// and terminates the session.
pub enum DecodeError {
    User(u64, Vec<u8>),
    Frame(Vec<u8>),
}

/// The mathematical value of a `DecodeError`.
pub enum DecodeErrorV {
    User { seq: u64, error: Seq<u8> },
    Frame { error: Seq<u8> },
}

impl View for DecodeError {
    type V = DecodeErrorV;

    open spec fn view(&self) -> DecodeErrorV {
        match self {
            DecodeError::User(seq, error) => DecodeErrorV::User { seq: *seq, error: error@ },
            DecodeError::Frame(error) => DecodeErrorV::Frame { error: error@ },
        }
    }
}

/// The sequence number a response carries back to the peer.
pub open spec fn resp_seq(r: RespV) -> u64 {
    match r {
        RespV::Ping { seq } => seq,
        RespV::Invoke { seq, .. } => seq,
    }
}

/// The sequence number the peer assigned to a request.
pub open spec fn req_seq(r: ReqV) -> u64 {
    match r {
        ReqV::Ping { seq } => seq,
        ReqV::Invoke { seq, .. } => seq,
    }
}

pub const TAG_PING: u8 = 0;
pub const TAG_OK: u8 = 1;
pub const TAG_ERR: u8 = 2;

/// The eight big-endian bytes of a sequence number.
pub open spec fn be_bytes(n: u64) -> Seq<u8> {
    seq![
        (n >> 56) as u8,
        (n >> 48) as u8,
        (n >> 40) as u8,
        (n >> 32) as u8,
        (n >> 24) as u8,
        (n >> 16) as u8,
        (n >> 8) as u8,
        n as u8,
    ]
}

/// The value read back from eight big-endian bytes.
pub open spec fn be_val(s: Seq<u8>) -> u64
    recommends
        s.len() == 8,
{
    ((s[0] as u64) << 56) | ((s[1] as u64) << 48) | ((s[2] as u64) << 40)
        | ((s[3] as u64) << 32) | ((s[4] as u64) << 24) | ((s[5] as u64) << 16)
        | ((s[6] as u64) << 8) | (s[7] as u64)
}

pub proof fn lemma_be_round_trip(n: u64)
    ensures
        be_val(be_bytes(n)) == n,
{
    assert((((n >> 56) as u8 as u64) << 56) | (((n >> 48) as u8 as u64) << 48)
        | (((n >> 40) as u8 as u64) << 40) | (((n >> 32) as u8 as u64) << 32)
        | (((n >> 24) as u8 as u64) << 24) | (((n >> 16) as u8 as u64) << 16)
        | (((n >> 8) as u8 as u64) << 8) | (n as u8 as u64) == n) by (bit_vector);
}

/// The bytes a compliant encode half produces for one logical response: a tag,
/// the big-endian sequence number, then the outcome's payload or error bytes.
pub open spec fn encode_response_spec(r: RespV) -> Seq<u8> {
    match r {
        RespV::Ping { seq } => seq![TAG_PING] + be_bytes(seq),
        RespV::Invoke { seq, outcome: Ok(p) } => seq![TAG_OK] + be_bytes(seq) + p,
        RespV::Invoke { seq, outcome: Err(e) } => seq![TAG_ERR] + be_bytes(seq) + e,
    }
}

/// The logical response read back from one frame's bytes, or `None` where the
/// bytes are not a well-formed response frame.
pub open spec fn decode_response_spec(s: Seq<u8>) -> Option<RespV> {
    if s.len() < 9 {
        None
    } else {
        let seq = be_val(s.subrange(1, 9));
        if s[0] == TAG_PING && s.len() == 9 {
            Some(RespV::Ping { seq })
        } else if s[0] == TAG_OK {
            Some(RespV::Invoke { seq, outcome: Ok(s.subrange(9, s.len() as int)) })
        } else if s[0] == TAG_ERR {
            Some(RespV::Invoke { seq, outcome: Err(s.subrange(9, s.len() as int)) })
        } else {
            None
        }
    }
}

/// Round trip: encoding a logical response and decoding the bytes again
/// reproduces the original value, for every response.
pub proof fn lemma_response_round_trip(r: RespV)
    ensures
        decode_response_spec(encode_response_spec(r)) == Some(r),
{
    let enc = encode_response_spec(r);
    match r {
        RespV::Ping { seq } => {
            assert(enc.subrange(1, 9) =~= be_bytes(seq));
            lemma_be_round_trip(seq);
        },
        RespV::Invoke { seq, outcome } => {
            match outcome {
                Ok(p) => {
                    assert(enc.subrange(1, 9) =~= be_bytes(seq));
                    assert(enc.subrange(9, enc.len() as int) =~= p);
                    lemma_be_round_trip(seq);
                },
                Err(e) => {
                    assert(enc.subrange(1, 9) =~= be_bytes(seq));
                    assert(enc.subrange(9, enc.len() as int) =~= e);
                    lemma_be_round_trip(seq);
                },
            }
        },
    }
}

/// Append the eight big-endian bytes of `n`.
fn push_be(out: &mut Vec<u8>, n: u64)
    ensures
        final(out)@ == old(out)@ + be_bytes(n),
{
    out.push((n >> 56) as u8);
    out.push((n >> 48) as u8);
    out.push((n >> 40) as u8);
    out.push((n >> 32) as u8);
    out.push((n >> 24) as u8);
    out.push((n >> 16) as u8);
    out.push((n >> 8) as u8);
    out.push(n as u8);
    assert(out@ =~= old(out)@ + be_bytes(n));
}

/// Append every byte of `p`.
fn push_all(out: &mut Vec<u8>, p: &Vec<u8>)
    ensures
        final(out)@ == old(out)@ + p@,
{
    let mut i: usize = 0;
    while i < p.len()
        invariant
            i <= p@.len(),
            out@ == old(out)@ + p@.subrange(0, i as int),
        decreases p@.len() - i,
    {
        out.push(p[i]);
        assert(out@ =~= old(out)@ + p@.subrange(0, i as int + 1));
        i = i + 1;
    }
    assert(out@ =~= old(out)@ + p@);
}

/// Encode one logical response into the bytes of one frame.
pub fn encode_response(r: &Response) -> (out: Vec<u8>)
    ensures
        out@ == encode_response_spec(r@),
{
    let mut out: Vec<u8> = Vec::new();
    match r {
        Response::Ping(seq) => {
            out.push(TAG_PING);
            push_be(&mut out, *seq);
        },
        Response::Invoke(seq, Ok(p)) => {
            out.push(TAG_OK);
            push_be(&mut out, *seq);
            push_all(&mut out, p);
        },
        Response::Invoke(seq, Err(e)) => {
            out.push(TAG_ERR);
            push_be(&mut out, *seq);
            push_all(&mut out, e);
        },
    }
    assert(out@ =~= encode_response_spec(r@));
    out
}

/// Read the big-endian sequence number starting at `off`.
fn read_be(bytes: &Vec<u8>, off: usize) -> (n: u64)
    requires
        off + 8 <= bytes@.len(),
    ensures
        n == be_val(bytes@.subrange(off as int, off as int + 8)),
{
    let len = bytes.len();
    assert(off + 8 <= len);
    let n = ((bytes[off] as u64) << 56) | ((bytes[off + 1] as u64) << 48)
        | ((bytes[off + 2] as u64) << 40) | ((bytes[off + 3] as u64) << 32)
        | ((bytes[off + 4] as u64) << 24) | ((bytes[off + 5] as u64) << 16)
        | ((bytes[off + 6] as u64) << 8) | (bytes[off + 7] as u64);
    n
}

/// Copy the bytes from `off` to the end.
fn tail_from(bytes: &Vec<u8>, off: usize) -> (out: Vec<u8>)
    requires
        off <= bytes@.len(),
    ensures
        out@ == bytes@.subrange(off as int, bytes@.len() as int),
{
    let mut out: Vec<u8> = Vec::new();
    let mut i: usize = off;
    while i < bytes.len()
        invariant
            off <= i <= bytes@.len(),
            out@ == bytes@.subrange(off as int, i as int),
        decreases bytes@.len() - i,
    {
        out.push(bytes[i]);
        assert(out@ =~= bytes@.subrange(off as int, i as int + 1));
        i = i + 1;
    }
    out
}

/// Decode the bytes of one frame back into a logical response, or `None`
/// where the frame is not a well-formed response.
pub fn decode_response(bytes: &Vec<u8>) -> (r: Option<Response>)
    ensures
        r is Some <==> decode_response_spec(bytes@) is Some,
        r matches Some(resp) ==> decode_response_spec(bytes@) == Some(resp@),
{
    if bytes.len() < 9 {
        return None;
    }
    let tag = bytes[0];
    let seq = read_be(bytes, 1);
    if tag == TAG_PING && bytes.len() == 9 {
        Some(Response::Ping(seq))
    } else if tag == TAG_OK {
        Some(Response::Invoke(seq, Ok(tail_from(bytes, 9))))
    } else if tag == TAG_ERR {
        Some(Response::Invoke(seq, Err(tail_from(bytes, 9))))
    } else {
        None
    }
}

} // verus!
