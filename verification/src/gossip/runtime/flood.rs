//! Message envelopes and the hop count that bounds their flood.

use crate::gossip::ident::ID;
use crate::gossip::wire::copy_bytes;
use crate::uuid::Uuid;
use vstd::prelude::*;

verus! {

/// What a frame on the wire carries.
#[derive(Clone, Copy, Debug, PartialEq, Eq, Structural)]
pub enum MessageKind {
    Ping,
    Ack,
    IndirectProbeRequest,
    SyncDigest,
    SyncResponse,
    Publish,
}

/// A message as it travels between nodes.
#[derive(Clone, Debug, PartialEq, Eq)]
pub struct Envelope {
    pub origin: ID,
    pub message_id: Uuid,
    pub kind: MessageKind,
    pub hop_count: u8,
    pub compressed: bool,
    pub payload: Vec<u8>,
    pub signature: Vec<u8>,
}

/// An envelope as a mathematical value.
pub struct EnvelopeModel {
    pub origin: ID,
    pub message_id: Uuid,
    pub kind: MessageKind,
    pub hop_count: u8,
    pub compressed: bool,
    pub payload: Seq<u8>,
    pub signature: Seq<u8>,
}

impl View for Envelope {
    type V = EnvelopeModel;

    open spec fn view(&self) -> EnvelopeModel {
        EnvelopeModel {
            origin: self.origin,
            message_id: self.message_id,
            kind: self.kind,
            hop_count: self.hop_count,
            compressed: self.compressed,
            payload: self.payload@,
            signature: self.signature@,
        }
    }
}

/// The envelope of a message at its origin: no hop made yet.
pub open spec fn originated(
    origin: ID,
    message_id: Uuid,
    kind: MessageKind,
    payload: Seq<u8>,
    signature: Seq<u8>,
) -> EnvelopeModel {
    EnvelopeModel { origin, message_id, kind, hop_count: 0, compressed: false, payload, signature }
}

/// The envelope that a node forwards on receipt of `envelope`, if any: the
/// same message one hop further, as long as the hop count received is below
/// the limit.
pub open spec fn relay(envelope: EnvelopeModel, hop_limit: u8) -> Option<EnvelopeModel> {
    if envelope.hop_count < hop_limit {
        Some(EnvelopeModel { hop_count: (envelope.hop_count + 1) as u8, ..envelope })
    } else {
        None
    }
}

/// The envelope after `n` successive relays, if the chain gets that far.
pub open spec fn relay_times(envelope: EnvelopeModel, hop_limit: u8, n: nat) -> Option<
    EnvelopeModel,
>
    decreases n,
{
    if n == 0 {
        Some(envelope)
    } else {
        match relay_times(envelope, hop_limit, (n - 1) as nat) {
            Some(previous) => relay(previous, hop_limit),
            None => None,
        }
    }
}

/// A relayed envelope counts one hop more, never more than the limit, and
/// is otherwise unchanged; at or over the limit nothing is relayed, so with
/// a limit of 0 nothing ever is.
pub proof fn lemma_relay(envelope: EnvelopeModel, hop_limit: u8)
    ensures
        relay(envelope, hop_limit) is Some <==> envelope.hop_count < hop_limit,
        relay(envelope, hop_limit) matches Some(next) ==> next.hop_count == envelope.hop_count + 1
            && next.hop_count <= hop_limit && next == (EnvelopeModel {
            hop_count: next.hop_count,
            ..envelope
        }),
        hop_limit == 0 ==> relay(envelope, hop_limit) is None,
{
}

/// Hop-count bound: a message that starts with hop count 0 can be relayed
/// `n` times in a row exactly when `n` is at most the limit, and then counts
/// `n` hops. No chain of relays is longer than the limit.
pub proof fn lemma_hop_bound(envelope: EnvelopeModel, hop_limit: u8, n: nat)
    requires
        envelope.hop_count == 0,
    ensures
        relay_times(envelope, hop_limit, n) is Some <==> n <= hop_limit,
        relay_times(envelope, hop_limit, n) matches Some(last) ==> last.hop_count == n && last
            == (EnvelopeModel { hop_count: last.hop_count, ..envelope }),
    decreases n,
{
    if n > 0 {
        lemma_hop_bound(envelope, hop_limit, (n - 1) as nat);
    }
}

impl Envelope {
    /// The envelope of a new message at its origin.
    pub fn originate(
        origin: ID,
        message_id: Uuid,
        kind: MessageKind,
        payload: Vec<u8>,
        signature: Vec<u8>,
    ) -> (envelope: Envelope)
        ensures
            envelope@ == originated(origin, message_id, kind, payload@, signature@),
    {
        Envelope { origin, message_id, kind, hop_count: 0, compressed: false, payload, signature }
    }

    /// A copy of the envelope.
    pub fn duplicate(&self) -> (copy: Envelope)
        ensures
            copy@ == self@,
    {
        Envelope {
            origin: self.origin,
            message_id: self.message_id,
            kind: self.kind,
            hop_count: self.hop_count,
            compressed: self.compressed,
            payload: copy_bytes(&self.payload),
            signature: copy_bytes(&self.signature),
        }
    }

    /// The envelope to forward on receipt of this one, if the hop limit
    /// allows another hop.
    pub fn relayed(&self, hop_limit: u8) -> (next: Option<Envelope>)
        ensures
            match next {
                Some(envelope) => relay(self@, hop_limit) == Some(envelope@),
                None => relay(self@, hop_limit) is None,
            },
    {
        if self.hop_count < hop_limit {
            let mut next = self.duplicate();
            next.hop_count = self.hop_count + 1;
            Some(next)
        } else {
            None
        }
    }
}

} // verus!
