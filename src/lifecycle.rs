//! The lifecycle states of a para and the table of allowed transitions.
use vstd::prelude::*;

verus! {

/// The possible states of a para, to take into account delayed lifecycle changes.
#[derive(Clone, Copy, Debug, PartialEq, Eq, Structural)]
pub enum ParaLifecycle {
    /// Para ID is new and is onboarding as a Parathread.
    OnboardingAsParathread,
    /// Para ID is new and is onboarding as a Parachain.
    OnboardingAsParachain,
    /// Para ID is a Parathread.
    Parathread,
    /// Para ID is a Parachain.
    Parachain,
    /// Para ID is a Parathread which is upgrading to a Parachain.
    UpgradingToParachain,
    /// Para ID is a Parachain which is downgrading to a Parathread.
    DowngradingToParathread,
    /// Para ID is being offboarded.
    Outgoing,
}

/// A lifecycle change: what an operator requests for a para, and what the
/// handlers are told once the change has taken effect.
#[derive(Clone, Copy, Debug, PartialEq, Eq, Structural)]
pub enum LifecycleEvent {
    Initialize,
    Cleanup,
    Upgrade,
    Downgrade,
}

/// Why a lifecycle request was rejected.
#[derive(Clone, Copy, Debug, PartialEq, Eq, Structural)]
pub enum LifecycleError {
    /// The request is not an edge of the transition table from the current state.
    InvalidTransition,
    /// An upgrade or a downgrade is already in flight.
    TransitionAlreadyPending,
    /// The para is not registered.
    UnknownEntity,
}

/// The transition table: the state that a request leads to from `current`
/// (`None` for an unregistered para), or why it is rejected. `parachain`
/// chooses the tier that an initialization onboards into.
pub open spec fn transition_of(
    current: Option<ParaLifecycle>,
    event: LifecycleEvent,
    parachain: bool,
) -> Result<ParaLifecycle, LifecycleError> {
    match current {
        None => match event {
            LifecycleEvent::Initialize => Ok(
                if parachain {
                    ParaLifecycle::OnboardingAsParachain
                } else {
                    ParaLifecycle::OnboardingAsParathread
                },
            ),
            _ => Err(LifecycleError::UnknownEntity),
        },
        Some(state) => match event {
            LifecycleEvent::Initialize => Err(LifecycleError::InvalidTransition),
            LifecycleEvent::Cleanup => Ok(ParaLifecycle::Outgoing),
            LifecycleEvent::Upgrade => match state {
                ParaLifecycle::Parathread => Ok(ParaLifecycle::UpgradingToParachain),
                ParaLifecycle::UpgradingToParachain
                | ParaLifecycle::DowngradingToParathread => Err(
                    LifecycleError::TransitionAlreadyPending,
                ),
                _ => Err(LifecycleError::InvalidTransition),
            },
            LifecycleEvent::Downgrade => match state {
                ParaLifecycle::Parachain => Ok(ParaLifecycle::DowngradingToParathread),
                ParaLifecycle::UpgradingToParachain
                | ParaLifecycle::DowngradingToParathread => Err(
                    LifecycleError::TransitionAlreadyPending,
                ),
                _ => Err(LifecycleError::InvalidTransition),
            },
        },
    }
}

/// The state that `state` settles into at the next session boundary; `None`
/// when the para leaves.
pub open spec fn settled_state(state: ParaLifecycle) -> Option<ParaLifecycle> {
    match state {
        ParaLifecycle::OnboardingAsParathread
        | ParaLifecycle::Parathread
        | ParaLifecycle::DowngradingToParathread => Some(ParaLifecycle::Parathread),
        ParaLifecycle::OnboardingAsParachain
        | ParaLifecycle::Parachain
        | ParaLifecycle::UpgradingToParachain => Some(ParaLifecycle::Parachain),
        ParaLifecycle::Outgoing => None,
    }
}

/// The change that takes effect for a para in `state` at the next session
/// boundary; `None` for a para with nothing pending.
pub open spec fn pending_event_of(state: ParaLifecycle) -> Option<LifecycleEvent> {
    match state {
        ParaLifecycle::OnboardingAsParathread
        | ParaLifecycle::OnboardingAsParachain => Some(LifecycleEvent::Initialize),
        ParaLifecycle::UpgradingToParachain => Some(LifecycleEvent::Upgrade),
        ParaLifecycle::DowngradingToParathread => Some(LifecycleEvent::Downgrade),
        ParaLifecycle::Outgoing => Some(LifecycleEvent::Cleanup),
        ParaLifecycle::Parathread | ParaLifecycle::Parachain => None,
    }
}

/// Applies the transition table to a request.
pub fn transition(current: Option<ParaLifecycle>, event: LifecycleEvent, parachain: bool) -> (r:
    Result<ParaLifecycle, LifecycleError>)
    ensures
        r == transition_of(current, event, parachain),
{
    match current {
        None => match event {
            LifecycleEvent::Initialize => {
                if parachain {
                    Ok(ParaLifecycle::OnboardingAsParachain)
                } else {
                    Ok(ParaLifecycle::OnboardingAsParathread)
                }
            },
            _ => Err(LifecycleError::UnknownEntity),
        },
        Some(state) => match event {
            LifecycleEvent::Initialize => Err(LifecycleError::InvalidTransition),
            LifecycleEvent::Cleanup => Ok(ParaLifecycle::Outgoing),
            LifecycleEvent::Upgrade => match state {
                ParaLifecycle::Parathread => Ok(ParaLifecycle::UpgradingToParachain),
                ParaLifecycle::UpgradingToParachain
                | ParaLifecycle::DowngradingToParathread => Err(
                    LifecycleError::TransitionAlreadyPending,
                ),
                _ => Err(LifecycleError::InvalidTransition),
            },
            LifecycleEvent::Downgrade => match state {
                ParaLifecycle::Parachain => Ok(ParaLifecycle::DowngradingToParathread),
                ParaLifecycle::UpgradingToParachain
                | ParaLifecycle::DowngradingToParathread => Err(
                    LifecycleError::TransitionAlreadyPending,
                ),
                _ => Err(LifecycleError::InvalidTransition),
            },
        },
    }
}

impl ParaLifecycle {
    /// The state this one settles into at the next session boundary; `None`
    /// when the para leaves.
    pub fn settled(&self) -> (r: Option<ParaLifecycle>)
        ensures
            r == settled_state(*self),
    {
        match self {
            ParaLifecycle::OnboardingAsParathread
            | ParaLifecycle::Parathread
            | ParaLifecycle::DowngradingToParathread => Some(ParaLifecycle::Parathread),
            ParaLifecycle::OnboardingAsParachain
            | ParaLifecycle::Parachain
            | ParaLifecycle::UpgradingToParachain => Some(ParaLifecycle::Parachain),
            ParaLifecycle::Outgoing => None,
        }
    }

    /// The change that takes effect at the next session boundary, if any.
    pub fn pending_event(&self) -> (r: Option<LifecycleEvent>)
        ensures
            r == pending_event_of(*self),
    {
        match self {
            ParaLifecycle::OnboardingAsParathread
            | ParaLifecycle::OnboardingAsParachain => Some(LifecycleEvent::Initialize),
            ParaLifecycle::UpgradingToParachain => Some(LifecycleEvent::Upgrade),
            ParaLifecycle::DowngradingToParathread => Some(LifecycleEvent::Downgrade),
            ParaLifecycle::Outgoing => Some(LifecycleEvent::Cleanup),
            ParaLifecycle::Parathread | ParaLifecycle::Parachain => None,
        }
    }
}

} // verus!
