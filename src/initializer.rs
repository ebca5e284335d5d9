//! The session boundary: the registry applies the pending changes and the
//! handlers are told of them.
use vstd::prelude::*;

use crate::cleanup::{AllParachainCleanup, ParachainCleanup};
use crate::lifecycle::LifecycleEvent;
use crate::paras::{boundary_events, settle_all, Paras};
use crate::{ParaId, SessionIndex};

verus! {

/// Handles the boundary of session `session`: applies every pending change
/// in `paras`, then tells every handler of each change that took effect,
/// in the order of the changes, going through the handlers in registration
/// order for each change.
/// Returns those changes. A boundary whose index is not past the last
/// applied one changes nothing and tells no handler anything.
pub fn on_new_session<H: ParachainCleanup>(
    paras: &mut Paras,
    handlers: &mut AllParachainCleanup<H>,
    session: SessionIndex,
) -> (events: Vec<(ParaId, LifecycleEvent)>)
    requires
        old(paras).wf(),
    ensures
        final(paras).wf(),
        final(handlers).spec_handlers().len() == old(handlers).spec_handlers().len(),
        session <= old(paras).spec_session() ==> final(paras)@ == old(paras)@
            && final(paras).spec_session() == old(paras).spec_session() && events@.len() == 0
            && final(handlers).spec_handlers() == old(handlers).spec_handlers()
            && final(handlers).received() == old(handlers).received(),
        session > old(paras).spec_session() ==> final(paras)@ == settle_all(old(paras)@)
            && final(paras).spec_session() == session && events@ == boundary_events(old(paras)@)
            && final(handlers).received() == old(handlers).received(),
        session > old(paras).spec_session() ==> forall|k: int|
            0 <= k < old(handlers).spec_handlers().len() ==> #[trigger] final(handlers).spec_handlers()[k].received()
                == old(handlers).spec_handlers()[k].received() + boundary_events(old(paras)@),
{
    if session <= paras.session_index() {
        return Vec::new();
    }
    let events = paras.apply_session_change(session);
    handlers.dispatch_all(&events);
    events
}

} // verus!
