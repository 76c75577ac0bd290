//! The gossip engine: membership, failure detection, anti-entropy and
//! message dissemination.

pub mod clock;
pub mod detector;
pub mod engine;
pub mod flood;
pub mod membership;
pub mod reaction;
pub mod seen;
pub mod select;
pub mod sync;

pub use detector::{Probe, ProbeOutcome, ProbePhase};
pub use engine::{Config, Dispatch, Runtime, SyncReply};
pub use flood::{Envelope, MessageKind};
pub use membership::{MembershipView, MergeOutcome, PeerRecord, PeerState};
pub use reaction::{AckReaction, Outgoing, Relays};
pub use seen::SeenSet;
pub use sync::Digest;
