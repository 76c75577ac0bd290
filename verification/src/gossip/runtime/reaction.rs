//! What a node answers to the frames of the failure detector: a ping, an
//! acknowledgement, and a request to probe on another node's behalf.
//!
//! A node that is asked to probe a target pings it and remembers who asked.
//! Only when the target acknowledges does the node vouch for it to those
//! who asked.

use super::detector::Probe;
use super::engine::{after_contact, after_indirect_ack, Runtime, RuntimeModel};
use super::flood::MessageKind;
use crate::gossip::codec::{decode_target, encode_target};
use crate::gossip::ident::ID;
use crate::gossip::resolver::Address;
use crate::gossip::wire::{be, from_be, WireError};
use vstd::prelude::*;

verus! {

/// A probe that the node makes on behalf of another: whom it probes, and
/// who asked.
#[derive(Clone, Copy, Debug, PartialEq, Eq, Structural)]
pub struct Relay {
    pub target: ID,
    pub requester: ID,
}

/// A frame for the driver to send.
#[derive(Clone, Debug, PartialEq, Eq)]
pub struct Outgoing {
    pub to: ID,
    pub kind: MessageKind,
    pub payload: Vec<u8>,
}

/// A frame to send, as a mathematical value.
pub struct OutgoingModel {
    pub to: ID,
    pub kind: MessageKind,
    pub payload: Seq<u8>,
}

impl View for Outgoing {
    type V = OutgoingModel;

    open spec fn view(&self) -> OutgoingModel {
        OutgoingModel { to: self.to, kind: self.kind, payload: self.payload@ }
    }
}

/// The frames of a list, each as a mathematical value.
pub open spec fn frames(list: Seq<Outgoing>) -> Seq<OutgoingModel> {
    list.map_values(|frame: Outgoing| frame@)
}

/// The direct acknowledgement that answers a ping of `to`.
pub open spec fn direct_ack(to: ID) -> OutgoingModel {
    OutgoingModel { to, kind: MessageKind::Ack, payload: Seq::empty() }
}

/// The acknowledgement that tells `to` that `target` answered a probe.
pub open spec fn vouching_ack(to: ID, target: ID) -> OutgoingModel {
    OutgoingModel { to, kind: MessageKind::Ack, payload: be(target.value as nat, 16) }
}

/// The ping of `to`.
pub open spec fn ping(to: ID) -> OutgoingModel {
    OutgoingModel { to, kind: MessageKind::Ping, payload: Seq::empty() }
}

/// The relays after one more was asked for: a relay that is pending already
/// is not noted twice, and when the book is full the oldest relay makes
/// room.
pub open spec fn noted(pending: Seq<Relay>, relay: Relay, limit: nat) -> Seq<Relay> {
    if pending.contains(relay) || limit == 0 {
        pending
    } else if pending.len() >= limit {
        pending.drop_first().push(relay)
    } else {
        pending.push(relay)
    }
}

/// The relays that stay pending once `target` has answered.
pub open spec fn settled(pending: Seq<Relay>, target: ID) -> Seq<Relay>
    decreases pending.len(),
{
    if pending.len() == 0 {
        Seq::empty()
    } else if pending.last().target == target {
        settled(pending.drop_last(), target)
    } else {
        settled(pending.drop_last(), target).push(pending.last())
    }
}

/// The acknowledgements owed once `target` has answered: one to each node
/// that asked for a probe of it, in the order in which they asked.
pub open spec fn acks_owed(pending: Seq<Relay>, target: ID) -> Seq<OutgoingModel>
    decreases pending.len(),
{
    if pending.len() == 0 {
        Seq::empty()
    } else if pending.last().target == target {
        acks_owed(pending.drop_last(), target).push(
            vouching_ack(pending.last().requester, target),
        )
    } else {
        acks_owed(pending.drop_last(), target)
    }
}

/// No relay of a target stays pending once the target has answered, every
/// other relay does, and none is added.
pub proof fn lemma_settled(pending: Seq<Relay>, target: ID)
    ensures
        settled(pending, target).len() <= pending.len(),
        forall|relay: Relay|
            settled(pending, target).contains(relay) <==> (pending.contains(relay) && relay.target
                != target),
    decreases pending.len(),
{
    if pending.len() > 0 {
        let head = pending.drop_last();
        let last = pending.last();
        lemma_settled(head, target);
        let kept = settled(pending, target);
        assert forall|relay: Relay| pending.contains(relay) <==> (head.contains(relay) || relay
            == last) by {
            if pending.contains(relay) {
                let j = pending.index_of(relay);
                if j < head.len() {
                    assert(head[j] == relay);
                }
            }
            if head.contains(relay) {
                let j = head.index_of(relay);
                assert(pending[j] == relay);
            }
            if relay == last {
                assert(pending[pending.len() - 1] == relay);
            }
        }
        if last.target != target {
            let rest = settled(head, target);
            assert forall|relay: Relay| kept.contains(relay) <==> (rest.contains(relay) || relay
                == last) by {
                if kept.contains(relay) {
                    let i = kept.index_of(relay);
                    if i < rest.len() {
                        assert(rest[i] == relay);
                    }
                }
                if rest.contains(relay) {
                    let i = rest.index_of(relay);
                    assert(kept[i] == relay);
                }
                if relay == last {
                    assert(kept[kept.len() - 1] == relay);
                }
            }
        }
    }
}

/// The relays that a node makes on behalf of others, as a mathematical
/// value.
pub struct RelaysModel {
    pub pending: Seq<Relay>,
    pub limit: nat,
}

/// The book of the relays that a node makes on behalf of others, oldest
/// first, bounded.
pub struct Relays {
    pending: Vec<Relay>,
    limit: usize,
}

impl View for Relays {
    type V = RelaysModel;

    closed spec fn view(&self) -> RelaysModel {
        RelaysModel { pending: self.pending@, limit: self.limit as nat }
    }
}

/// What a node does on an acknowledgement.
#[derive(Debug)]
pub struct AckReaction {
    /// The probe that is still under way, if any.
    pub probe: Option<Probe>,
    /// The acknowledgements to pass on to those who asked for a probe.
    pub send: Vec<Outgoing>,
}

impl Relays {
    /// The book never holds more than its limit.
    pub open spec fn wf(&self) -> bool {
        self@.pending.len() <= self@.limit
    }

    /// The empty book that holds at most `limit` relays.
    pub fn new(limit: usize) -> (relays: Self)
        ensures
            relays.wf(),
            relays@ == (RelaysModel { pending: Seq::empty(), limit: limit as nat }),
    {
        Relays { pending: Vec::new(), limit }
    }

    /// The number of relays pending.
    pub fn len(&self) -> (n: usize)
        ensures
            n == self@.pending.len(),
    {
        self.pending.len()
    }

    /// Notes that `requester` asked for a probe of `target`.
    pub fn note(&mut self, target: ID, requester: ID)
        requires
            old(self).wf(),
        ensures
            final(self).wf(),
            final(self)@ == (RelaysModel {
                pending: noted(old(self)@.pending, Relay { target, requester }, old(self)@.limit),
                ..old(self)@
            }),
    {
        let relay = Relay { target, requester };
        let mut found = false;
        let mut i: usize = 0;
        while i < self.pending.len()
            invariant
                i <= self.pending@.len(),
                found == exists|j: int| 0 <= j < i && self.pending@[j] == relay,
            decreases self.pending@.len() - i,
        {
            if self.pending[i] == relay {
                found = true;
            }
            i += 1;
        }
        if !found && self.limit > 0 {
            if self.pending.len() >= self.limit {
                let _ = self.pending.remove(0);
                assert(self.pending@ =~= old(self).pending@.drop_first());
            }
            self.pending.push(relay);
        }
    }

    /// Settles the relays of `target`, which has answered: they leave the
    /// book, and the acknowledgements owed for them are returned.
    pub fn settle(&mut self, target: ID) -> (send: Vec<Outgoing>)
        requires
            old(self).wf(),
        ensures
            final(self).wf(),
            final(self)@ == (RelaysModel {
                pending: settled(old(self)@.pending, target),
                ..old(self)@
            }),
            frames(send@) == acks_owed(old(self)@.pending, target),
    {
        let mut send: Vec<Outgoing> = Vec::new();
        let mut kept: Vec<Relay> = Vec::new();
        let mut i: usize = 0;
        assert(frames(send@) =~= acks_owed(self.pending@.take(0), target));
        while i < self.pending.len()
            invariant
                i <= self.pending@.len(),
                self.pending@ == old(self).pending@,
                self.limit == old(self).limit,
                kept@ == settled(self.pending@.take(i as int), target),
                kept@.len() <= i,
                frames(send@) == acks_owed(self.pending@.take(i as int), target),
            decreases self.pending@.len() - i,
        {
            let relay = self.pending[i];
            proof {
                let upto = self.pending@.take(i + 1);
                assert(upto.drop_last() =~= self.pending@.take(i as int));
                assert(upto.last() == relay);
            }
            if relay.target == target {
                let frame = Outgoing {
                    to: relay.requester,
                    kind: MessageKind::Ack,
                    payload: encode_target(target),
                };
                let ghost before = send@;
                send.push(frame);
                assert(frames(send@) =~= frames(before).push(vouching_ack(relay.requester, target)));
            } else {
                kept.push(relay);
            }
            i += 1;
        }
        assert(self.pending@.take(i as int) =~= self.pending@);
        self.pending = kept;
        send
    }
}

/// The runtime after a request of `from` to probe on its behalf arrived.
pub open spec fn after_probe_request(
    model: RuntimeModel,
    from: ID,
    address: Address,
    payload: Seq<u8>,
    now: u64,
) -> RuntimeModel {
    if payload.len() == 16 {
        after_contact(model, from, address, now)
    } else {
        model
    }
}

/// The target that the payload of a probe request or of a vouching
/// acknowledgement names.
pub open spec fn named_target(payload: Seq<u8>) -> ID {
    ID { value: from_be(payload) as u128 }
}

/// The runtime after an acknowledgement of `from` arrived: a direct one
/// counts as an answer of `from`; one that vouches for a target counts as an
/// answer of `from` and as an answer of the target to a helper.
pub open spec fn after_ack(
    model: RuntimeModel,
    from: ID,
    address: Address,
    payload: Seq<u8>,
    now: u64,
) -> RuntimeModel {
    if payload.len() == 0 {
        after_contact(model, from, address, now)
    } else if payload.len() == 16 {
        after_indirect_ack(after_contact(model, from, address, now), named_target(payload), now)
    } else {
        model
    }
}

/// The probe that is still under way once `answered` has answered.
pub open spec fn probe_left(probe: Option<Probe>, answered: ID) -> Option<Probe> {
    match probe {
        Some(p) => if p.target == answered {
            None
        } else {
            Some(p)
        },
        None => None,
    }
}

impl Runtime {
    /// Handles a ping of `from`: the ping counts as a direct answer of
    /// `from`, and a direct acknowledgement goes back.
    pub fn on_ping(&mut self, from: ID, address: Address, now: u64) -> (reply: Outgoing)
        requires
            old(self).wf(),
        ensures
            final(self).wf(),
            final(self)@ == after_contact(old(self)@, from, address, now),
            reply@ == direct_ack(from),
    {
        self.on_contact(from, address, now);
        Outgoing { to: from, kind: MessageKind::Ack, payload: Vec::new() }
    }

    /// Handles a request of `from` to probe the target that `payload` names.
    /// The node pings the target and notes who asked; it vouches only once
    /// the target has answered. Asked about itself, it vouches at once. A
    /// payload that names no target is a protocol violation and changes
    /// nothing.
    pub fn on_probe_request(
        &mut self,
        relays: &mut Relays,
        from: ID,
        address: Address,
        payload: &Vec<u8>,
        now: u64,
    ) -> (result: Result<Outgoing, WireError>)
        requires
            old(self).wf(),
            old(relays).wf(),
        ensures
            final(self).wf(),
            final(relays).wf(),
            final(self)@ == after_probe_request(old(self)@, from, address, payload@, now),
            payload@.len() != 16 ==> result == Err::<Outgoing, WireError>(
                WireError::MalformedEnvelope,
            ) && final(relays)@ == old(relays)@,
            payload@.len() == 16 ==> result is Ok && ({
                let target = named_target(payload@);
                if target == old(self)@.me {
                    &&& result->Ok_0@ == vouching_ack(from, target)
                    &&& final(relays)@ == old(relays)@
                } else {
                    &&& result->Ok_0@ == ping(target)
                    &&& final(relays)@ == (RelaysModel {
                        pending: noted(
                            old(relays)@.pending,
                            Relay { target, requester: from },
                            old(relays)@.limit,
                        ),
                        ..old(relays)@
                    })
                }
            }),
    {
        let target = match decode_target(payload) {
            Ok(target) => target,
            Err(error) => {
                return Err(error);
            },
        };
        self.on_contact(from, address, now);
        if target == self.id() {
            Ok(Outgoing { to: from, kind: MessageKind::Ack, payload: encode_target(target) })
        } else {
            relays.note(target, from);
            Ok(Outgoing { to: target, kind: MessageKind::Ping, payload: Vec::new() })
        }
    }

    /// Handles an acknowledgement of `from`. A direct one (no payload) ends
    /// a probe of `from` and settles the relays of `from`: those who asked
    /// for a probe of it are vouched to. One that vouches for a target ends
    /// a probe of that target. Any other payload is a protocol violation and
    /// changes nothing.
    pub fn on_ack_frame(
        &mut self,
        relays: &mut Relays,
        probe: Option<Probe>,
        from: ID,
        address: Address,
        payload: &Vec<u8>,
        now: u64,
    ) -> (result: Result<AckReaction, WireError>)
        requires
            old(self).wf(),
            old(relays).wf(),
        ensures
            final(self).wf(),
            final(relays).wf(),
            final(self)@ == after_ack(old(self)@, from, address, payload@, now),
            payload@.len() == 0 ==> result is Ok && result->Ok_0.probe == probe_left(probe, from)
                && frames(result->Ok_0.send@) == acks_owed(old(relays)@.pending, from)
                && final(relays)@ == (RelaysModel {
                pending: settled(old(relays)@.pending, from),
                ..old(relays)@
            }),
            payload@.len() == 16 ==> result is Ok && result->Ok_0.probe == probe_left(
                probe,
                named_target(payload@),
            ) && result->Ok_0.send@.len() == 0 && final(relays)@ == old(relays)@,
            payload@.len() != 0 && payload@.len() != 16 ==> result is Err && result->Err_0
                == WireError::MalformedEnvelope && final(relays)@ == old(relays)@,
    {
        if payload.len() == 0 {
            let left = self.on_ack(probe, from, address, now);
            let send = relays.settle(from);
            return Ok(AckReaction { probe: left, send });
        }
        let target = match decode_target(payload) {
            Ok(target) => target,
            Err(error) => {
                return Err(error);
            },
        };
        self.on_contact(from, address, now);
        let _ = self.on_indirect_ack(target, now);
        let left = match probe {
            Some(p) => if p.target == target {
                None
            } else {
                Some(p)
            },
            None => None,
        };
        Ok(AckReaction { probe: left, send: Vec::new() })
    }
}

} // verus!
