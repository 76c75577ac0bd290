//! Framing of envelopes on the wire, admission of peers at the handshake,
//! and the retry policy of dialing.
//!
//! A frame is a header of six bytes (the message kind, a flag that tells
//! whether the body is compressed, and the length of the body in four
//! bytes) followed by the body: the serialized envelope, compressed when it
//! is at least as long as the compression threshold.

use super::compression::{compress, compressed, decompress, decompressed, MAX_PAYLOAD};
use super::compression::{lemma_rle_len, lemma_round_trip};
use super::ident::{
    answered, validate, validated, within_validity, CertError, Certificate, KeyAuthority, ID,
};
use super::ident::issuer_key;
use super::runtime::flood::{Envelope, EnvelopeModel, MessageKind};
use super::table::IdMap;
use super::wire::{be, from_be, get_be, put_be, put_bytes, same_bytes, slice_bytes, WireError};
use super::wire::{lemma_be_len, lemma_be_round_trip, lemma_from_be_bound, lemma_pow256_widths};
use crate::uuid::Uuid;
use vstd::prelude::*;

verus! {

/// The length of a frame header.
pub const HEADER_LEN: usize = 6;

/// The length of a serialized envelope without signature and payload.
pub const ENVELOPE_FIXED: usize = 36;

/// The longest signature that an envelope can carry.
pub const MAX_SIGNATURE: usize = 65535;

/// The longest body that a frame can carry: a compressed body is at most
/// four bytes and twice the size cap.
pub const MAX_BODY: usize = 33554436;

/// The byte that stands for a message kind.
pub open spec fn kind_byte(kind: MessageKind) -> u8 {
    match kind {
        MessageKind::Ping => 0,
        MessageKind::Ack => 1,
        MessageKind::IndirectProbeRequest => 2,
        MessageKind::SyncDigest => 3,
        MessageKind::SyncResponse => 4,
        MessageKind::Publish => 5,
    }
}

/// The message kind that a byte stands for, if any.
pub open spec fn kind_of(byte: u8) -> Option<MessageKind> {
    if byte == 0 {
        Some(MessageKind::Ping)
    } else if byte == 1 {
        Some(MessageKind::Ack)
    } else if byte == 2 {
        Some(MessageKind::IndirectProbeRequest)
    } else if byte == 3 {
        Some(MessageKind::SyncDigest)
    } else if byte == 4 {
        Some(MessageKind::SyncResponse)
    } else if byte == 5 {
        Some(MessageKind::Publish)
    } else {
        None
    }
}

/// The bytes of an envelope: origin and message identifier in sixteen
/// bytes each, kind, hop count, the length of the signature in two bytes,
/// the signature, and the payload to the end.
pub open spec fn serialized(envelope: EnvelopeModel) -> Seq<u8> {
    be(envelope.origin.value as nat, 16) + be(envelope.message_id.value as nat, 16) + seq![
        kind_byte(envelope.kind),
        envelope.hop_count,
    ] + be(envelope.signature.len(), 2) + envelope.signature + envelope.payload
}

/// The envelope that bytes spell, read as `serialized` writes it;
/// `compressed` records how the bytes travelled.
pub open spec fn parsed(bytes: Seq<u8>, compressed: bool) -> Result<EnvelopeModel, WireError> {
    if bytes.len() < ENVELOPE_FIXED {
        Err(WireError::MalformedEnvelope)
    } else {
        match kind_of(bytes[32]) {
            None => Err(WireError::MalformedEnvelope),
            Some(kind) => {
                let signed = from_be(bytes.subrange(34, 36));
                if ENVELOPE_FIXED + signed > bytes.len() {
                    Err(WireError::MalformedEnvelope)
                } else {
                    Ok(
                        EnvelopeModel {
                            origin: ID { value: from_be(bytes.subrange(0, 16)) as u128 },
                            message_id: Uuid { value: from_be(bytes.subrange(16, 32)) as u128 },
                            kind,
                            hop_count: bytes[33],
                            compressed,
                            payload: bytes.subrange(ENVELOPE_FIXED + signed, bytes.len() as int),
                            signature: bytes.subrange(
                                ENVELOPE_FIXED as int,
                                ENVELOPE_FIXED + signed,
                            ),
                        },
                    )
                }
            },
        }
    }
}

/// Whether an envelope of this serialized length travels compressed.
pub open spec fn squeezes(length: nat, threshold: nat) -> bool {
    length >= threshold
}

/// The frame of an envelope under a compression threshold. An envelope
/// whose signature or serialized form is over the limits has no frame.
pub open spec fn framed(envelope: EnvelopeModel, threshold: nat) -> Result<Seq<u8>, WireError> {
    let plain = serialized(envelope);
    if envelope.signature.len() > MAX_SIGNATURE || plain.len() > MAX_PAYLOAD {
        Err(WireError::FrameTooLarge)
    } else {
        let squeeze = squeezes(plain.len(), threshold);
        let body = if squeeze {
            compressed(plain)
        } else {
            plain
        };
        Ok(
            seq![kind_byte(envelope.kind), if squeeze {
                1u8
            } else {
                0u8
            }] + be(body.len(), 4) + body,
        )
    }
}

/// The length of the body that a header announces.
pub open spec fn announced(header: Seq<u8>) -> Result<nat, WireError> {
    if header.len() < HEADER_LEN {
        Err(WireError::MalformedEnvelope)
    } else if from_be(header.subrange(2, 6)) > MAX_BODY {
        Err(WireError::FrameTooLarge)
    } else {
        Ok(from_be(header.subrange(2, 6)))
    }
}

/// The bytes of the envelope inside a frame's body.
pub open spec fn opened(flag: u8, body: Seq<u8>) -> Result<Seq<u8>, WireError> {
    if flag == 1 {
        decompressed(body)
    } else if flag != 0 {
        Err(WireError::MalformedEnvelope)
    } else if body.len() > MAX_PAYLOAD {
        Err(WireError::FrameTooLarge)
    } else {
        Ok(body)
    }
}

/// The envelope that a whole frame carries.
pub open spec fn unframed(frame: Seq<u8>) -> Result<EnvelopeModel, WireError> {
    match announced(frame) {
        Err(error) => Err(error),
        Ok(length) => if frame.len() != HEADER_LEN + length {
            Err(WireError::MalformedEnvelope)
        } else {
            match opened(frame[1], frame.skip(HEADER_LEN as int)) {
                Err(error) => Err(error),
                Ok(bytes) => match parsed(bytes, frame[1] == 1) {
                    Err(error) => Err(error),
                    Ok(envelope) => if kind_byte(envelope.kind) != frame[0] {
                        Err(WireError::MalformedEnvelope)
                    } else {
                        Ok(envelope)
                    },
                },
            }
        },
    }
}

/// Reading what `serialized` wrote gives the envelope back.
pub proof fn lemma_parse_serialized(envelope: EnvelopeModel, compressed: bool)
    requires
        envelope.signature.len() <= MAX_SIGNATURE,
    ensures
        parsed(serialized(envelope), compressed) == Ok::<EnvelopeModel, WireError>(
            EnvelopeModel { compressed, ..envelope },
        ),
        serialized(envelope).len() == ENVELOPE_FIXED + envelope.signature.len()
            + envelope.payload.len(),
{
    let bytes = serialized(envelope);
    let origin = be(envelope.origin.value as nat, 16);
    let message = be(envelope.message_id.value as nat, 16);
    let signed = be(envelope.signature.len(), 2);
    lemma_be_len(envelope.origin.value as nat, 16);
    lemma_be_len(envelope.message_id.value as nat, 16);
    lemma_be_len(envelope.signature.len(), 2);
    lemma_pow256_widths();
    lemma_be_round_trip(envelope.origin.value as nat, 16);
    lemma_be_round_trip(envelope.message_id.value as nat, 16);
    lemma_be_round_trip(envelope.signature.len(), 2);
    assert(bytes.subrange(0, 16) =~= origin);
    assert(bytes.subrange(16, 32) =~= message);
    assert(bytes.subrange(34, 36) =~= signed);
    assert(bytes.subrange(ENVELOPE_FIXED as int, ENVELOPE_FIXED + envelope.signature.len())
        =~= envelope.signature);
    assert(bytes.subrange(ENVELOPE_FIXED + envelope.signature.len(), bytes.len() as int)
        =~= envelope.payload);
}

/// Framing round trip: the frame of an envelope carries that envelope,
/// marked with how it travelled.
pub proof fn lemma_frame_round_trip(envelope: EnvelopeModel, threshold: nat)
    requires
        framed(envelope, threshold) is Ok,
    ensures
        unframed(framed(envelope, threshold)->Ok_0) == Ok::<EnvelopeModel, WireError>(
            EnvelopeModel {
                compressed: squeezes(serialized(envelope).len(), threshold),
                ..envelope
            },
        ),
{
    let plain = serialized(envelope);
    let squeeze = squeezes(plain.len(), threshold);
    let body = if squeeze {
        compressed(plain)
    } else {
        plain
    };
    let frame = framed(envelope, threshold)->Ok_0;
    lemma_parse_serialized(envelope, squeeze);
    lemma_rle_len(plain);
    lemma_be_len(plain.len(), 4);
    lemma_be_len(body.len(), 4);
    lemma_pow256_widths();
    lemma_be_round_trip(body.len(), 4);
    assert(frame.subrange(2, 6) =~= be(body.len(), 4));
    assert(frame.skip(HEADER_LEN as int) =~= body);
    if squeeze {
        lemma_round_trip(plain);
    }
}

fn kind_to_byte(kind: MessageKind) -> (byte: u8)
    ensures
        byte == kind_byte(kind),
{
    match kind {
        MessageKind::Ping => 0,
        MessageKind::Ack => 1,
        MessageKind::IndirectProbeRequest => 2,
        MessageKind::SyncDigest => 3,
        MessageKind::SyncResponse => 4,
        MessageKind::Publish => 5,
    }
}

fn kind_from_byte(byte: u8) -> (kind: Option<MessageKind>)
    ensures
        kind == kind_of(byte),
{
    if byte == 0 {
        Some(MessageKind::Ping)
    } else if byte == 1 {
        Some(MessageKind::Ack)
    } else if byte == 2 {
        Some(MessageKind::IndirectProbeRequest)
    } else if byte == 3 {
        Some(MessageKind::SyncDigest)
    } else if byte == 4 {
        Some(MessageKind::SyncResponse)
    } else if byte == 5 {
        Some(MessageKind::Publish)
    } else {
        None
    }
}

/// The bytes of an envelope that is within the limits.
fn serialize(envelope: &Envelope) -> (bytes: Vec<u8>)
    ensures
        bytes@ == serialized(envelope@),
{
    let mut bytes: Vec<u8> = Vec::new();
    put_be(&mut bytes, envelope.origin.value, 16);
    put_be(&mut bytes, envelope.message_id.value, 16);
    bytes.push(kind_to_byte(envelope.kind));
    bytes.push(envelope.hop_count);
    put_be(&mut bytes, envelope.signature.len() as u128, 2);
    put_bytes(&mut bytes, &envelope.signature);
    put_bytes(&mut bytes, &envelope.payload);
    bytes
}

/// Reads an envelope from its bytes.
pub fn parse(bytes: &Vec<u8>, compressed: bool) -> (result: Result<Envelope, WireError>)
    ensures
        match result {
            Ok(envelope) => parsed(bytes@, compressed) == Ok::<EnvelopeModel, WireError>(
                envelope@,
            ),
            Err(error) => parsed(bytes@, compressed) == Err::<EnvelopeModel, WireError>(error),
        },
{
    let n = bytes.len();
    if n < ENVELOPE_FIXED {
        return Err(WireError::MalformedEnvelope);
    }
    let kind = match kind_from_byte(bytes[32]) {
        Some(kind) => kind,
        None => {
            return Err(WireError::MalformedEnvelope);
        },
    };
    let signed = get_be(bytes, 34, 2);
    proof {
        lemma_from_be_bound(bytes@.subrange(34, 36));
        lemma_pow256_widths();
    }
    let signed = signed as usize;
    if signed > n - ENVELOPE_FIXED {
        return Err(WireError::MalformedEnvelope);
    }
    let origin = get_be(bytes, 0, 16);
    let message_id = get_be(bytes, 16, 16);
    let signature = slice_bytes(bytes, ENVELOPE_FIXED, ENVELOPE_FIXED + signed);
    let payload = slice_bytes(bytes, ENVELOPE_FIXED + signed, n);
    Ok(
        Envelope {
            origin: ID { value: origin },
            message_id: Uuid { value: message_id },
            kind,
            hop_count: bytes[33],
            compressed,
            payload,
            signature,
        },
    )
}

/// Frames an envelope, compressing its bytes when they are at least
/// `threshold` long.
pub fn encode_frame(envelope: &Envelope, threshold: usize) -> (result: Result<Vec<u8>, WireError>)
    ensures
        match result {
            Ok(frame) => framed(envelope@, threshold as nat) == Ok::<Seq<u8>, WireError>(frame@),
            Err(error) => framed(envelope@, threshold as nat) == Err::<Seq<u8>, WireError>(error),
        },
{
    if envelope.signature.len() > MAX_SIGNATURE || envelope.payload.len() > MAX_PAYLOAD {
        return Err(WireError::FrameTooLarge);
    }
    let plain = serialize(envelope);
    if plain.len() > MAX_PAYLOAD {
        return Err(WireError::FrameTooLarge);
    }
    let squeeze = plain.len() >= threshold;
    let body = if squeeze {
        match compress(&plain) {
            Ok(body) => body,
            Err(error) => {
                return Err(error);
            },
        }
    } else {
        plain
    };
    let mut frame: Vec<u8> = Vec::new();
    frame.push(kind_to_byte(envelope.kind));
    frame.push(if squeeze { 1u8 } else { 0u8 });
    put_be(&mut frame, body.len() as u128, 4);
    put_bytes(&mut frame, &body);
    assert(frame@ =~= framed(envelope@, threshold as nat)->Ok_0);
    Ok(frame)
}

/// The length of the body that follows a header, so that a reader knows
/// how many bytes to wait for. A header that announces more than a frame
/// may carry is refused before anything is read.
pub fn body_length(header: &Vec<u8>) -> (result: Result<usize, WireError>)
    ensures
        match result {
            Ok(length) => announced(header@) == Ok::<nat, WireError>(length as nat),
            Err(error) => announced(header@) == Err::<nat, WireError>(error),
        },
{
    if header.len() < HEADER_LEN {
        return Err(WireError::MalformedEnvelope);
    }
    let length = get_be(header, 2, 4);
    if length > MAX_BODY as u128 {
        return Err(WireError::FrameTooLarge);
    }
    Ok(length as usize)
}

/// Reads the envelope that a whole frame carries.
pub fn decode_frame(frame: &Vec<u8>) -> (result: Result<Envelope, WireError>)
    ensures
        match result {
            Ok(envelope) => unframed(frame@) == Ok::<EnvelopeModel, WireError>(envelope@),
            Err(error) => unframed(frame@) == Err::<EnvelopeModel, WireError>(error),
        },
{
    let length = match body_length(frame) {
        Ok(length) => length,
        Err(error) => {
            return Err(error);
        },
    };
    if frame.len() - HEADER_LEN != length {
        return Err(WireError::MalformedEnvelope);
    }
    let flag = frame[1];
    let body = slice_bytes(frame, HEADER_LEN, frame.len());
    let plain = if flag == 1 {
        match decompress(&body) {
            Ok(plain) => plain,
            Err(error) => {
                return Err(error);
            },
        }
    } else if flag != 0 {
        return Err(WireError::MalformedEnvelope);
    } else if body.len() > MAX_PAYLOAD {
        return Err(WireError::FrameTooLarge);
    } else {
        body
    };
    let envelope = match parse(&plain, flag == 1) {
        Ok(envelope) => envelope,
        Err(error) => {
            return Err(error);
        },
    };
    if kind_to_byte(envelope.kind) != frame[0] {
        return Err(WireError::MalformedEnvelope);
    }
    Ok(envelope)
}

/// The certificate of the local node and the issuer keys that it trusts.
pub struct Certificates {
    own: Certificate,
    anchors: IdMap<Vec<u8>>,
}

/// The verdict of the handshake on a peer: that of `validated` on its
/// certificate, and then the key that the channel was made with must be the
/// key that the certificate holds.
pub open spec fn admitted(
    verdict: Result<ID, CertError>,
    key_matches: bool,
) -> Result<ID, CertError> {
    match verdict {
        Ok(id) => if key_matches {
            Ok(id)
        } else {
            Err(CertError::IdentityMismatch)
        },
        Err(error) => Err(error),
    }
}

impl Certificates {
    /// The issuer keys trusted, by issuer.
    pub closed spec fn anchors(&self) -> Map<ID, Seq<u8>> {
        self.anchors.model()
    }

    /// The certificate of the local node.
    pub closed spec fn own(&self) -> super::ident::CertificateModel {
        self.own@
    }

    /// No issuer has two keys.
    pub closed spec fn wf(&self) -> bool {
        self.anchors.wf()
    }

    /// The store that holds the local certificate and trusts no issuer.
    pub fn new(own: Certificate) -> (store: Self)
        ensures
            store.wf(),
            store.own() == own@,
            store.anchors() == Map::<ID, Seq<u8>>::empty(),
    {
        Certificates { own, anchors: IdMap::new() }
    }

    /// The certificate of the local node.
    pub fn certificate(&self) -> (cert: &Certificate)
        ensures
            cert@ == self.own(),
    {
        &self.own
    }

    /// Trusts `key` as the key of `issuer`, in place of any key trusted for
    /// it before.
    pub fn trust(&mut self, issuer: ID, key: Vec<u8>)
        requires
            old(self).wf(),
        ensures
            final(self).wf(),
            final(self).own() == old(self).own(),
            final(self).anchors() == old(self).anchors().insert(issuer, key@),
    {
        self.anchors.put(issuer, key);
    }

    /// Replaces the local certificate.
    pub fn install(&mut self, own: Certificate)
        requires
            old(self).wf(),
        ensures
            final(self).wf(),
            final(self).own() == own@,
            final(self).anchors() == old(self).anchors(),
    {
        self.own = own;
    }

    /// Decides at the handshake whether the peer that presents `presented`
    /// over a channel made with `channel_key` is admitted, and as whom: where
    /// the issuer's key is known, by the verdict of `validated` on what the
    /// authority answered, and then by whether the channel was made with the
    /// certified key.
    pub fn accept<A: KeyAuthority>(
        &self,
        presented: &Certificate,
        channel_key: &Vec<u8>,
        now: u64,
        authority: &A,
    ) -> (result: Result<ID, CertError>)
        requires
            self.wf(),
        ensures
            issuer_key(presented@, self.anchors()) is None ==> result == Err::<ID, CertError>(
                CertError::CertInvalid,
            ),
            issuer_key(presented@, self.anchors()) is Some ==> exists|
                signature_ok: bool,
                fingerprint: ID,
            |
                #[trigger] answered(authority, presented, self.anchors(), signature_ok, fingerprint)
                    && result == admitted(
                    validated(presented@, now, signature_ok, fingerprint),
                    presented.public_key@ == channel_key@,
                ),
            result is Ok ==> result == Ok::<ID, CertError>(presented.id) && within_validity(
                presented@,
                now,
            ) && presented.public_key@ == channel_key@,
    {
        match validate(presented, now, &self.anchors, authority) {
            Ok(id) => {
                if same_bytes(&presented.public_key, channel_key) {
                    Ok(id)
                } else {
                    Err(CertError::IdentityMismatch)
                }
            },
            Err(error) => Err(error),
        }
    }
}

/// How a failed dial is retried.
#[derive(Clone, Copy, Debug, PartialEq, Eq, Structural)]
pub struct DialPolicy {
    /// The delay before the first retry.
    pub base_delay: u64,
    /// The longest delay between two attempts.
    pub max_delay: u64,
    /// How many attempts are made in all before the peer is given up.
    pub max_attempts: u32,
}

/// What follows a failed dial.
#[derive(Clone, Copy, Debug, PartialEq, Eq, Structural)]
pub enum DialStep {
    /// Wait for `delay`, then dial again.
    Retry { delay: u64 },
    /// The attempts are used up: the peer is reported as suspect.
    GiveUp,
}

/// The delay before retry number `retry` (the first is number 0): the base
/// delay doubled `retry` times, but never more than the longest delay.
pub open spec fn backoff(policy: DialPolicy, retry: nat) -> nat
    decreases retry,
{
    if retry == 0 {
        if policy.base_delay <= policy.max_delay {
            policy.base_delay as nat
        } else {
            policy.max_delay as nat
        }
    } else {
        let previous = backoff(policy, (retry - 1) as nat);
        if 2 * previous <= policy.max_delay {
            2 * previous
        } else {
            policy.max_delay as nat
        }
    }
}

/// What follows the failure of attempt number `failures` (the first attempt
/// is number 1).
pub open spec fn after_failure(policy: DialPolicy, failures: u32) -> DialStep {
    if failures >= policy.max_attempts {
        DialStep::GiveUp
    } else if failures == 0 {
        DialStep::Retry { delay: 0 }
    } else {
        DialStep::Retry { delay: backoff(policy, (failures - 1) as nat) as u64 }
    }
}

/// The delays never exceed the longest delay and never shrink.
pub proof fn lemma_backoff(policy: DialPolicy, retry: nat)
    ensures
        backoff(policy, retry) <= policy.max_delay,
        backoff(policy, retry) <= backoff(policy, retry + 1),
    decreases retry,
{
}

impl DialPolicy {
    /// The delay before retry number `retry`.
    pub fn delay(&self, retry: u32) -> (delay: u64)
        ensures
            delay == backoff(*self, retry as nat),
    {
        let mut delay = if self.base_delay <= self.max_delay {
            self.base_delay
        } else {
            self.max_delay
        };
        let mut k: u32 = 0;
        while k < retry
            invariant
                k <= retry,
                delay == backoff(*self, k as nat),
                delay <= self.max_delay,
            decreases retry - k,
        {
            delay = if delay <= self.max_delay / 2 {
                2 * delay
            } else {
                self.max_delay
            };
            k += 1;
        }
        delay
    }

    /// What follows the failure of attempt number `failures`.
    pub fn next_step(&self, failures: u32) -> (step: DialStep)
        ensures
            step == after_failure(*self, failures),
    {
        if failures >= self.max_attempts {
            DialStep::GiveUp
        } else if failures == 0 {
            DialStep::Retry { delay: 0 }
        } else {
            DialStep::Retry { delay: self.delay(failures - 1) }
        }
    }
}

} // verus!
