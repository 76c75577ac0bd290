//! The failure detector: a direct probe, then a round of indirect probes,
//! then suspicion.
//!
//! The detector waits for nothing itself. Its caller sends the pings, keeps
//! the timers, and reports back what came of them.

use super::engine::{advanced, after_contact, after_probe_failed, others_in, Runtime, RuntimeModel};
use super::membership::PeerState;
use super::select::{excluding, pick};
use crate::gossip::ident::ID;
use crate::gossip::resolver::Address;
use vstd::prelude::*;

verus! {

/// How far a probe has got.
#[derive(Clone, Copy, Debug, PartialEq, Eq, Structural)]
pub enum ProbePhase {
    /// The peer itself was pinged.
    Direct,
    /// Other peers were asked to ping it.
    Indirect,
}

/// A probe that is under way.
#[derive(Clone, Copy, Debug, PartialEq, Eq, Structural)]
pub struct Probe {
    pub target: ID,
    pub phase: ProbePhase,
    /// The time from which the phase counts as unanswered.
    pub deadline: u64,
}

/// What a probe's timer leads to.
#[derive(Debug)]
pub enum ProbeOutcome {
    /// The deadline has not come yet: keep waiting.
    Pending,
    /// The direct probe went unanswered: `helpers` are to probe the target
    /// on the node's behalf, and `probe` is the probe from now on.
    Escalated { probe: Probe, helpers: Vec<ID> },
    /// Nothing more can be tried. `changed` tells whether the target became
    /// suspect (it does not if it has left the alive set meanwhile).
    Suspected { changed: bool },
}

/// The time `span` after `now`, or the end of time if that is sooner.
pub open spec fn deadline_after(now: u64, span: u64) -> u64 {
    if now + span > u64::MAX {
        u64::MAX
    } else {
        (now + span) as u64
    }
}

/// The peers that can be asked to probe `target` on the node's behalf.
pub open spec fn helpers_for(
    ids: Seq<ID>,
    records: Seq<super::membership::PeerModel>,
    model: RuntimeModel,
    target: ID,
    draws: Seq<u64>,
) -> Seq<ID> {
    pick(
        excluding(others_in(ids, records, PeerState::Alive, model.me), target),
        model.config.indirect_probes as nat,
        draws,
    )
}

/// Whether the timer of `probe`, firing at `now`, ends the probe in
/// suspicion: the indirect round went unanswered, or the direct probe did
/// and there is nobody to ask.
pub open spec fn gives_up(probe: Probe, helpers: Seq<ID>, now: u64) -> bool {
    now >= probe.deadline && (probe.phase == ProbePhase::Indirect || helpers.len() == 0)
}

impl Runtime {
    /// Starts a failure-detection round at time `now`: picks the next alive
    /// peer in turn; the caller is to ping it.
    pub fn begin_probe(&mut self, now: u64) -> (probe: Option<Probe>)
        requires
            old(self).wf(),
        ensures
            final(self).wf(),
            final(self)@ == (RuntimeModel { cursor: advanced(old(self)@.cursor), ..old(self)@ }),
            final(self).ids() == old(self).ids(),
            final(self).records() == old(self).records(),
            probe == ({
                let pool = others_in(
                    old(self).ids(),
                    old(self).records(),
                    PeerState::Alive,
                    old(self)@.me,
                );
                if pool.len() == 0 {
                    None
                } else {
                    Some(
                        Probe {
                            target: pool[(old(self)@.cursor as int) % (pool.len() as int)],
                            phase: ProbePhase::Direct,
                            deadline: deadline_after(now, old(self)@.config.probe_timeout),
                        },
                    )
                }
            }),
    {
        match self.probe_target() {
            Some(target) => Some(
                Probe {
                    target,
                    phase: ProbePhase::Direct,
                    deadline: now.saturating_add(self.config().probe_timeout),
                },
            ),
            None => None,
        }
    }

    /// Handles the timer of `probe` firing at time `now`. An unanswered
    /// direct probe escalates to indirect probes by helpers chosen by
    /// `draws`; an unanswered indirect round, or a direct probe with nobody
    /// to ask, makes the target suspect.
    pub fn on_probe_timeout(&mut self, probe: Probe, draws: &Vec<u64>, now: u64) -> (outcome:
        ProbeOutcome)
        requires
            old(self).wf(),
        ensures
            final(self).wf(),
            ({
                let helpers = helpers_for(
                    old(self).ids(),
                    old(self).records(),
                    old(self)@,
                    probe.target,
                    draws@,
                );
                &&& final(self)@ == if gives_up(probe, helpers, now) {
                    after_probe_failed(old(self)@, probe.target, now)
                } else {
                    old(self)@
                }
                &&& match outcome {
                    ProbeOutcome::Pending => now < probe.deadline,
                    ProbeOutcome::Escalated { probe: next, helpers: chosen } => {
                        &&& now >= probe.deadline
                        &&& probe.phase == ProbePhase::Direct
                        &&& chosen@ == helpers
                        &&& chosen@.len() > 0
                        &&& next == (Probe {
                            target: probe.target,
                            phase: ProbePhase::Indirect,
                            deadline: deadline_after(now, old(self)@.config.indirect_timeout),
                        })
                    },
                    ProbeOutcome::Suspected { changed } => {
                        &&& gives_up(probe, helpers, now)
                        &&& changed == (probe.target != old(self)@.me
                            && old(self)@.view.peers.contains_key(probe.target) && old(
                            self,
                        )@.view.peers[probe.target].state == PeerState::Alive)
                    },
                }
            }),
    {
        if now < probe.deadline {
            return ProbeOutcome::Pending;
        }
        match probe.phase {
            ProbePhase::Direct => {
                let helpers = self.select(
                    PeerState::Alive,
                    probe.target,
                    self.config().indirect_probes,
                    draws,
                );
                if helpers.len() > 0 {
                    return ProbeOutcome::Escalated {
                        probe: Probe {
                            target: probe.target,
                            phase: ProbePhase::Indirect,
                            deadline: now.saturating_add(self.config().indirect_timeout),
                        },
                        helpers,
                    };
                }
            },
            ProbePhase::Indirect => {},
        }
        let changed = self.on_probe_failed(probe.target, now);
        ProbeOutcome::Suspected { changed }
    }

    /// Handles an acknowledgement that `from` sent from `address`. Returns
    /// the probe that is still under way, if any: a probe of `from` is over.
    pub fn on_ack(&mut self, probe: Option<Probe>, from: ID, address: Address, now: u64) -> (left:
        Option<Probe>)
        requires
            old(self).wf(),
        ensures
            final(self).wf(),
            final(self)@ == after_contact(old(self)@, from, address, now),
            left == match probe {
                Some(p) => if p.target == from {
                    None
                } else {
                    Some(p)
                },
                None => None,
            },
    {
        self.on_contact(from, address, now);
        match probe {
            Some(p) => if p.target == from {
                None
            } else {
                Some(p)
            },
            None => None,
        }
    }
}

} // verus!
