//! The handlers that react to lifecycle changes, and their dispatch.
use vstd::prelude::*;

use crate::lifecycle::LifecycleEvent;
use crate::ParaId;

verus! {

/// The largest number of handlers a registry holds.
pub const MAX_HANDLERS: usize = 30;

/// A subsystem that reacts to the lifecycle changes of paras.
///
/// Handlers have no way to fail: one that does not know `id` treats the
/// event as a no-op.
pub trait ParachainCleanup {
    /// Every event this handler has been told of, oldest first. A handler
    /// that is verified against `on_lifecycle_event` overrides this with its
    /// own record.
    closed spec fn received(&self) -> Seq<(ParaId, LifecycleEvent)> {
        Seq::empty()
    }

    /// Reacts to `event` for para `id`.
    fn on_lifecycle_event(&mut self, id: ParaId, event: LifecycleEvent)
        ensures
            final(self).received() == old(self).received().push((id, event)),
    ;
}

/// The handlers of all subsystems, in the order in which they must be told
/// of a change.
#[verifier::reject_recursive_types(H)]
pub struct AllParachainCleanup<H> {
    handlers: Vec<H>,
    /// The events this registry was itself told of as a handler.
    told: Ghost<Seq<(ParaId, LifecycleEvent)>>,
}

impl<H: ParachainCleanup> AllParachainCleanup<H> {
    /// The handlers, in registration order.
    pub closed spec fn spec_handlers(&self) -> Seq<H> {
        self.handlers@
    }

    pub open spec fn wf(&self) -> bool {
        self.spec_handlers().len() <= MAX_HANDLERS
    }

    /// A registry without handlers.
    pub fn new() -> (r: Self)
        ensures
            r.wf(),
            r.spec_handlers() == Seq::<H>::empty(),
            r.received() == Seq::<(ParaId, LifecycleEvent)>::empty(),
    {
        AllParachainCleanup { handlers: Vec::new(), told: Ghost(Seq::empty()) }
    }

    /// The number of handlers.
    pub fn len(&self) -> (r: usize)
        ensures
            r == self.spec_handlers().len(),
    {
        self.handlers.len()
    }

    /// The handlers, in registration order.
    pub fn handlers(&self) -> (r: &Vec<H>)
        ensures
            r@ == self.spec_handlers(),
    {
        &self.handlers
    }

    /// Adds `handler` after those already registered; hands it back when the
    /// registry already holds `MAX_HANDLERS` handlers.
    pub fn register(&mut self, handler: H) -> (r: Result<(), H>)
        requires
            old(self).wf(),
        ensures
            final(self).wf(),
            final(self).received() == old(self).received(),
            old(self).spec_handlers().len() < MAX_HANDLERS ==> r is Ok
                && final(self).spec_handlers() == old(self).spec_handlers().push(handler),
            old(self).spec_handlers().len() >= MAX_HANDLERS ==> r == Err::<(), H>(handler)
                && final(self).spec_handlers() == old(self).spec_handlers(),
    {
        if self.handlers.len() >= MAX_HANDLERS {
            return Err(handler);
        }
        self.handlers.push(handler);
        Ok(())
    }

    /// Tells every handler, one after another in registration order, of
    /// `event` for `id`: each handler is told exactly once.
    pub fn dispatch(&mut self, id: ParaId, event: LifecycleEvent)
        ensures
            final(self).spec_handlers().len() == old(self).spec_handlers().len(),
            forall|k: int|
                0 <= k < old(self).spec_handlers().len() ==> #[trigger] final(self).spec_handlers()[k].received() == old(self).spec_handlers()[k].received().push(
                    (id, event),
                ),
            final(self).received() == old(self).received(),
    {
        let n = self.handlers.len();
        let ghost start = self.handlers@;
        let mut i: usize = 0;
        while i < n
            invariant
                i <= n,
                start.len() == n,
                self.handlers@.len() == n,
                self.told == old(self).told,
                start == old(self).handlers@,
                forall|k: int|
                    0 <= k < i ==> #[trigger] self.handlers@[k].received() == start[k].received().push(
                        (id, event),
                    ),
                forall|k: int| i <= k < n ==> #[trigger] self.handlers@[k] == start[k],
            decreases n - i,
        {
            self.handlers[i].on_lifecycle_event(id, event);
            i = i + 1;
        }
    }

    /// Tells every handler of each of `events` in turn: each handler is told
    /// of all of them, in their order.
    pub fn dispatch_all(&mut self, events: &Vec<(ParaId, LifecycleEvent)>)
        ensures
            final(self).spec_handlers().len() == old(self).spec_handlers().len(),
            forall|k: int|
                0 <= k < old(self).spec_handlers().len() ==> #[trigger] final(self).spec_handlers()[k].received() == old(self).spec_handlers()[k].received()
                    + events@,
            final(self).received() == old(self).received(),
    {
        let ghost n = self.handlers@.len();
        let ghost start = self.handlers@;
        let mut j: usize = 0;
        while j < events.len()
            invariant
                j <= events@.len(),
                start.len() == n,
                start == old(self).handlers@,
                self.handlers@.len() == n,
                self.told == old(self).told,
                forall|k: int|
                    0 <= k < n ==> #[trigger] self.handlers@[k].received() == start[k].received()
                        + events@.take(j as int),
            decreases events@.len() - j,
        {
            let (id, event) = events[j];
            let ghost before = self.handlers@;
            self.dispatch(id, event);
            proof {
                assert forall|k: int| 0 <= k < n implies #[trigger] self.handlers@[k].received()
                    == start[k].received() + events@.take(j as int + 1) by {
                    assert(self.handlers@[k].received() == before[k].received().push((id, event)));
                    assert(events@.take(j as int + 1) =~= events@.take(j as int).push((id, event)));
                    assert(start[k].received() + events@.take(j as int + 1) =~= (start[k].received()
                        + events@.take(j as int)).push((id, event)));
                }
            }
            j = j + 1;
        }
        proof {
            assert(events@.take(events@.len() as int) =~= events@);
        }
    }
}

impl<H: ParachainCleanup> ParachainCleanup for AllParachainCleanup<H> {
    closed spec fn received(&self) -> Seq<(ParaId, LifecycleEvent)> {
        self.told@
    }

    /// Passes the event on to every handler, in registration order.
    fn on_lifecycle_event(&mut self, id: ParaId, event: LifecycleEvent) {
        self.dispatch(id, event);
        self.told = Ghost(self.told@.push((id, event)));
    }
}

} // verus!
