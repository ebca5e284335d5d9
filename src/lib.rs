//! Lifecycle management for parachains and parathreads.
//!
//! A para moves between onboarding, parathread, parachain, upgrading,
//! downgrading and outgoing phases. Requested changes are recorded at once and
//! take effect at the next session boundary, where every registered handler
//! is told about each change, in registration order.
use vstd::prelude::*;

pub mod lifecycle;
pub mod paras;
pub mod cleanup;
pub mod initializer;

pub use cleanup::{AllParachainCleanup, ParachainCleanup, MAX_HANDLERS};
pub use initializer::on_new_session;
pub use lifecycle::{transition, LifecycleError, LifecycleEvent, ParaLifecycle};
pub use paras::{
    schedule_para_cleanup, schedule_para_downgrade, schedule_para_initialize,
    schedule_para_upgrade, ParaGenesisArgs, ParaRecord, Paras,
};

verus! {

/// Identifier of a para.
pub type ParaId = u32;

/// Index of a session.
pub type SessionIndex = u32;

} // verus!
