//! The wire compression codec: run-length coding under a size policy.
//!
//! A compressed body is the length of the payload in four bytes, most
//! significant first, followed by pairs of a run length (1 to 255) and the
//! byte that the run repeats. The codec keeps no state between frames.

use super::wire::{be, from_be, get_be, put_be, WireError};
use super::wire::{lemma_be_len, lemma_be_round_trip, lemma_pow256_widths};
use vstd::prelude::*;

verus! {

/// The largest payload that may be framed, in bytes.
pub const MAX_PAYLOAD: usize = 16777216;

/// The largest factor by which a compressed stream may claim to expand. No
/// run-length stream expands by more: a pair of two bytes stands for at
/// most 255.
pub const EXPANSION_LIMIT: usize = 128;

/// The longest run that one pair can stand for.
pub const MAX_RUN: usize = 255;

/// How many bytes at the start of `s` equal `b`, counting at most `cap`.
pub open spec fn lead(s: Seq<u8>, b: u8, cap: nat) -> nat
    decreases s.len(),
{
    if s.len() == 0 || cap == 0 || s[0] != b {
        0
    } else {
        1 + lead(s.drop_first(), b, (cap - 1) as nat)
    }
}

/// The run-length stream of `s`: each maximal run, cut into pieces of at
/// most 255, as its length and its byte.
pub open spec fn rle(s: Seq<u8>) -> Seq<u8>
    decreases s.len(),
    via rle_decreases
{
    if s.len() == 0 {
        Seq::empty()
    } else {
        let n = lead(s, s[0], MAX_RUN as nat);
        seq![n as u8, s[0]] + rle(s.skip(n as int))
    }
}

#[via_fn]
proof fn rle_decreases(s: Seq<u8>) {
    if s.len() > 0 {
        lemma_lead_bounds(s, s[0], MAX_RUN as nat);
    }
}

/// What a run-length stream stands for, if it is well formed: an even
/// number of bytes, and no run of length zero.
pub open spec fn expand(stream: Seq<u8>) -> Option<Seq<u8>>
    decreases stream.len(),
{
    if stream.len() == 0 {
        Some(Seq::empty())
    } else if stream.len() == 1 || stream[0] == 0 {
        None
    } else {
        match expand(stream.skip(2)) {
            Some(rest) => Some(run(stream[0] as nat, stream[1]) + rest),
            None => None,
        }
    }
}

/// `n` times the byte `b`.
pub open spec fn run(n: nat, b: u8) -> Seq<u8> {
    Seq::new(n, |i: int| b)
}

/// The compressed body of a payload.
pub open spec fn compressed(payload: Seq<u8>) -> Seq<u8> {
    be(payload.len(), 4) + rle(payload)
}

/// What a compressed body decodes to. A body that claims more than the
/// size cap, or more than `EXPANSION_LIMIT` times the size of its stream, is
/// a bomb; one whose stream is ill formed or does not give exactly the
/// claimed number of bytes is malformed.
pub open spec fn decompressed(body: Seq<u8>) -> Result<Seq<u8>, WireError> {
    if body.len() < 4 {
        Err(WireError::MalformedEnvelope)
    } else {
        let declared = from_be(body.take(4));
        let stream = body.skip(4);
        if declared > MAX_PAYLOAD || declared > EXPANSION_LIMIT * stream.len() {
            Err(WireError::CompressionBombRejected)
        } else {
            match expand(stream) {
                Some(payload) => if payload.len() == declared {
                    Ok(payload)
                } else {
                    Err(WireError::MalformedEnvelope)
                },
                None => Err(WireError::MalformedEnvelope),
            }
        }
    }
}

/// A leading run is no longer than the sequence or the cap, is made of the
/// byte counted, and is not empty where the sequence starts with that byte.
pub proof fn lemma_lead_bounds(s: Seq<u8>, b: u8, cap: nat)
    ensures
        lead(s, b, cap) <= s.len(),
        lead(s, b, cap) <= cap,
        forall|i: int| 0 <= i < lead(s, b, cap) ==> s[i] == b,
        s.len() > 0 && cap > 0 && s[0] == b ==> lead(s, b, cap) >= 1,
    decreases s.len(),
{
    if !(s.len() == 0 || cap == 0 || s[0] != b) {
        lemma_lead_bounds(s.drop_first(), b, (cap - 1) as nat);
        assert forall|i: int| 0 <= i < lead(s, b, cap) implies s[i] == b by {
            if i > 0 {
                assert(s.drop_first()[i - 1] == s[i]);
            }
        }
    }
}

/// A run of `m` bytes `b` that ends with the sequence, at the cap, or at a
/// different byte is the leading run.
pub proof fn lemma_lead_is(s: Seq<u8>, b: u8, cap: nat, m: nat)
    requires
        m <= s.len(),
        m <= cap,
        forall|i: int| 0 <= i < m ==> s[i] == b,
        m == s.len() || m == cap || s[m as int] != b,
    ensures
        lead(s, b, cap) == m,
    decreases m,
{
    if m > 0 {
        let rest = s.drop_first();
        lemma_lead_is(rest, b, (cap - 1) as nat, (m - 1) as nat);
    }
}

/// The stream of a payload is well formed and stands for the payload.
pub proof fn lemma_expand_rle(s: Seq<u8>)
    ensures
        expand(rle(s)) == Some(s),
    decreases s.len(),
{
    if s.len() > 0 {
        let n = lead(s, s[0], MAX_RUN as nat);
        lemma_lead_bounds(s, s[0], MAX_RUN as nat);
        let stream = rle(s);
        let tail = rle(s.skip(n as int));
        lemma_expand_rle(s.skip(n as int));
        assert(stream.skip(2) =~= tail);
    }
}

/// A stream has at most two bytes for each byte of the payload, and the
/// payload at most 255 bytes for each pair of the stream.
pub proof fn lemma_rle_len(s: Seq<u8>)
    ensures
        rle(s).len() <= 2 * s.len(),
        rle(s).len() % 2 == 0,
        2 * s.len() <= MAX_RUN * rle(s).len(),
        s.len() <= EXPANSION_LIMIT * rle(s).len(),
    decreases s.len(),
{
    if s.len() > 0 {
        let n = lead(s, s[0], MAX_RUN as nat);
        lemma_lead_bounds(s, s[0], MAX_RUN as nat);
        lemma_rle_len(s.skip(n as int));
    }
}

/// Compression round trip: every payload within the size cap comes back
/// from its compressed body exactly.
pub proof fn lemma_round_trip(payload: Seq<u8>)
    requires
        payload.len() <= MAX_PAYLOAD,
    ensures
        decompressed(compressed(payload)) == Ok::<Seq<u8>, WireError>(payload),
{
    let body = compressed(payload);
    lemma_be_len(payload.len(), 4);
    lemma_pow256_widths();
    lemma_be_round_trip(payload.len(), 4);
    assert(body.take(4) =~= be(payload.len(), 4));
    assert(body.skip(4) =~= rle(payload));
    lemma_rle_len(payload);
    lemma_expand_rle(payload);
}

/// A body that claims more than its stream could ever expand to is
/// rejected whatever the stream holds.
pub proof fn lemma_bomb_rejected(body: Seq<u8>)
    requires
        body.len() >= 4,
        from_be(body.take(4)) > EXPANSION_LIMIT * (body.len() - 4) || from_be(body.take(4))
            > MAX_PAYLOAD,
    ensures
        decompressed(body) == Err::<Seq<u8>, WireError>(WireError::CompressionBombRejected),
{
}

/// Compresses a payload. A payload over the size cap is refused.
pub fn compress(payload: &Vec<u8>) -> (result: Result<Vec<u8>, WireError>)
    ensures
        payload@.len() > MAX_PAYLOAD ==> result == Err::<Vec<u8>, WireError>(
            WireError::FrameTooLarge,
        ),
        payload@.len() <= MAX_PAYLOAD ==> result is Ok && result->Ok_0@ == compressed(payload@),
{
    let n = payload.len();
    if n > MAX_PAYLOAD {
        return Err(WireError::FrameTooLarge);
    }
    let mut out: Vec<u8> = Vec::new();
    put_be(&mut out, n as u128, 4);
    let ghost header = out@;
    let ghost mut done: Seq<u8> = Seq::empty();
    let mut i: usize = 0;
    assert(payload@.skip(0) =~= payload@);
    while i < n
        invariant
            n == payload@.len(),
            i <= n,
            header == be(n as nat, 4),
            out@ == header + done,
            done + rle(payload@.skip(i as int)) == rle(payload@),
        decreases n - i,
    {
        let b = payload[i];
        let mut j: usize = i + 1;
        while j < n && j - i < MAX_RUN && payload[j] == b
            invariant
                n == payload@.len(),
                i < j <= n,
                j - i <= MAX_RUN,
                forall|k: int| i <= k < j ==> payload@[k] == b,
            decreases n - j,
        {
            j += 1;
        }
        proof {
            let rest = payload@.skip(i as int);
            lemma_lead_is(rest, b, MAX_RUN as nat, (j - i) as nat);
            assert(rest.skip(j - i) =~= payload@.skip(j as int));
            done = done + seq![(j - i) as u8, b];
        }
        out.push((j - i) as u8);
        out.push(b);
        i = j;
    }
    Ok(out)
}

/// Decompresses a body, refusing bombs before anything is expanded and
/// never holding more than the claimed number of bytes.
pub fn decompress(body: &Vec<u8>) -> (result: Result<Vec<u8>, WireError>)
    ensures
        match result {
            Ok(payload) => decompressed(body@) == Ok::<Seq<u8>, WireError>(payload@),
            Err(error) => decompressed(body@) == Err::<Seq<u8>, WireError>(error),
        },
{
    let n = body.len();
    if n < 4 {
        return Err(WireError::MalformedEnvelope);
    }
    let claimed = get_be(body, 0, 4);
    let ghost stream = body@.skip(4);
    if claimed > MAX_PAYLOAD as u128 {
        return Err(WireError::CompressionBombRejected);
    }
    let declared = claimed as usize;
    if n - 4 < declared && declared > EXPANSION_LIMIT * (n - 4) {
        return Err(WireError::CompressionBombRejected);
    }
    let mut out: Vec<u8> = Vec::new();
    let mut i: usize = 4;
    assert(stream.skip(0) =~= stream);
    while i < n
        invariant
            n == body@.len(),
            stream == body@.skip(4),
            4 <= i <= n,
            declared <= MAX_PAYLOAD,
            declared == from_be(body@.take(4)),
            declared <= EXPANSION_LIMIT * stream.len(),
            out@.len() <= declared,
            expand(stream) == match expand(stream.skip(i - 4)) {
                Some(rest) => Some(out@ + rest),
                None => None,
            },
        decreases n - i,
    {
        let ghost here = stream.skip(i - 4);
        if i + 1 >= n {
            return Err(WireError::MalformedEnvelope);
        }
        let count = body[i];
        let b = body[i + 1];
        if count == 0 {
            return Err(WireError::MalformedEnvelope);
        }
        if count as usize > declared - out.len() {
            return Err(WireError::MalformedEnvelope);
        }
        let ghost before = out@;
        let mut k: u8 = 0;
        while k < count
            invariant
                k <= count,
                out@ == before + run(k as nat, b),
                before.len() + count <= declared,
                declared <= MAX_PAYLOAD,
            decreases count - k,
        {
            out.push(b);
            k += 1;
        }
        proof {
            assert(here.skip(2) =~= stream.skip(i + 2 - 4));
        }
        i += 2;
    }
    if out.len() != declared {
        return Err(WireError::MalformedEnvelope);
    }
    Ok(out)
}

} // verus!
