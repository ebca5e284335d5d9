//! The registry of paras: the lifecycle state of each registered para, the
//! changes requested for the next session boundary, and their application
//! there.
use vstd::prelude::*;

use crate::lifecycle::{
    pending_event_of, settled_state, transition, transition_of, LifecycleError, LifecycleEvent,
    ParaLifecycle,
};
use crate::{ParaId, SessionIndex};

verus! {

/// Arguments for initializing a para.
#[derive(Clone, Debug, PartialEq, Eq)]
pub struct ParaGenesisArgs {
    /// The initial head data.
    pub genesis_head: Vec<u8>,
    /// The initial validation code.
    pub validation_code: Vec<u8>,
    /// Whether the para onboards as a parachain (else as a parathread).
    pub parachain: bool,
}

/// What the registry holds for one para.
#[derive(Debug)]
pub struct ParaRecord {
    pub id: ParaId,
    /// The data the para was initialized with; never changed afterwards.
    pub genesis: ParaGenesisArgs,
    /// The lifecycle state, including a change requested for the next
    /// session boundary.
    pub lifecycle: ParaLifecycle,
    /// The state as of the last session boundary, which is what observers
    /// see during the session: `None` while the para is still onboarding.
    pub applied: Option<ParaLifecycle>,
}

/// A record whose applied state agrees with its lifecycle state.
pub open spec fn record_wf(r: ParaRecord) -> bool {
    match r.lifecycle {
        ParaLifecycle::OnboardingAsParathread | ParaLifecycle::OnboardingAsParachain => r.applied
            is None,
        ParaLifecycle::Parathread | ParaLifecycle::UpgradingToParachain => r.applied == Some(
            ParaLifecycle::Parathread,
        ),
        ParaLifecycle::Parachain | ParaLifecycle::DowngradingToParathread => r.applied == Some(
            ParaLifecycle::Parachain,
        ),
        ParaLifecycle::Outgoing => r.applied is None || r.applied == Some(ParaLifecycle::Parathread)
            || r.applied == Some(ParaLifecycle::Parachain),
    }
}

/// No two records share an id.
pub open spec fn unique_ids(s: Seq<ParaRecord>) -> bool {
    forall|i: int, j: int|
        0 <= i < s.len() && 0 <= j < s.len() && i != j ==> #[trigger] s[i].id != #[trigger] s[j].id
}

pub open spec fn records_wf(s: Seq<ParaRecord>) -> bool {
    &&& unique_ids(s)
    &&& forall|i: int| 0 <= i < s.len() ==> record_wf(#[trigger] s[i])
}

/// Some record of `s` has id `id`.
pub open spec fn has_id(s: Seq<ParaRecord>, id: ParaId) -> bool {
    exists|i: int| 0 <= i < s.len() && #[trigger] s[i].id == id
}

/// The record of `id` in `s`, if it is registered.
pub open spec fn record_of(s: Seq<ParaRecord>, id: ParaId) -> Option<ParaRecord>
    decreases s.len(),
{
    if s.len() == 0 {
        None
    } else if s.last().id == id {
        Some(s.last())
    } else {
        record_of(s.drop_last(), id)
    }
}

/// The lifecycle state of `id` in `s`; `None` when it is not registered.
pub open spec fn lifecycle_in(s: Seq<ParaRecord>, id: ParaId) -> Option<ParaLifecycle> {
    match record_of(s, id) {
        Some(r) => Some(r.lifecycle),
        None => None,
    }
}

/// The state of `id` as of the last session boundary; `None` when it is not
/// registered or still onboarding.
pub open spec fn applied_in(s: Seq<ParaRecord>, id: ParaId) -> Option<ParaLifecycle> {
    match record_of(s, id) {
        Some(r) => r.applied,
        None => None,
    }
}

/// `s` with the lifecycle state of `id` set to `state`.
pub open spec fn with_lifecycle(s: Seq<ParaRecord>, id: ParaId, state: ParaLifecycle) -> Seq<
    ParaRecord,
> {
    s.map_values(
        |r: ParaRecord|
            if r.id == id {
                ParaRecord { id: r.id, genesis: r.genesis, lifecycle: state, applied: r.applied }
            } else {
                r
            },
    )
}

/// A record that has just been registered with the given genesis data.
pub open spec fn new_record(id: ParaId, genesis: ParaGenesisArgs, state: ParaLifecycle) -> ParaRecord {
    ParaRecord { id, genesis, lifecycle: state, applied: None }
}

/// What becomes of a record at a session boundary; `None` when it leaves.
pub open spec fn settle_record(r: ParaRecord) -> Option<ParaRecord> {
    match settled_state(r.lifecycle) {
        Some(l) => Some(ParaRecord { id: r.id, genesis: r.genesis, lifecycle: l, applied: Some(l) }),
        None => None,
    }
}

/// The records after a session boundary, in the same order.
pub open spec fn settle_all(s: Seq<ParaRecord>) -> Seq<ParaRecord>
    decreases s.len(),
{
    if s.len() == 0 {
        Seq::empty()
    } else {
        let rest = settle_all(s.drop_last());
        match settle_record(s.last()) {
            Some(r) => rest.push(r),
            None => rest,
        }
    }
}

/// The changes that take effect at a session boundary, one per para with a
/// pending change, in the order of the records.
pub open spec fn boundary_events(s: Seq<ParaRecord>) -> Seq<(ParaId, LifecycleEvent)>
    decreases s.len(),
{
    if s.len() == 0 {
        Seq::empty()
    } else {
        let rest = boundary_events(s.drop_last());
        match pending_event_of(s.last().lifecycle) {
            Some(e) => rest.push((s.last().id, e)),
            None => rest,
        }
    }
}

/// The registry: one record per registered para, in order of registration,
/// and the index of the last session whose boundary was applied.
pub struct Paras {
    records: Vec<ParaRecord>,
    session: SessionIndex,
}

impl View for Paras {
    type V = Seq<ParaRecord>;

    closed spec fn view(&self) -> Seq<ParaRecord> {
        self.records@
    }
}

impl Paras {
    pub open spec fn wf(&self) -> bool {
        records_wf(self@)
    }

    /// The index of the last session whose boundary was applied.
    pub closed spec fn spec_session(&self) -> SessionIndex {
        self.session
    }

    /// An empty registry at session zero.
    pub fn new() -> (r: Self)
        ensures
            r.wf(),
            r@ == Seq::<ParaRecord>::empty(),
            r.spec_session() == 0,
    {
        Paras { records: Vec::new(), session: 0 }
    }

    /// The index of the last session whose boundary was applied.
    pub fn session_index(&self) -> (r: SessionIndex)
        ensures
            r == self.spec_session(),
    {
        self.session
    }

    /// The position of the record of `id`.
    fn find(&self, id: ParaId) -> (r: Option<usize>)
        requires
            self.wf(),
        ensures
            match r {
                Some(i) => i < self@.len() && self@[i as int].id == id && record_of(self@, id)
                    == Some(self@[i as int]),
                None => !has_id(self@, id) && record_of(self@, id) is None,
            },
    {
        let mut i: usize = 0;
        while i < self.records.len()
            invariant
                self.wf(),
                i <= self@.len(),
                forall|j: int| 0 <= j < i ==> #[trigger] self@[j].id != id,
            decreases self@.len() - i,
        {
            if self.records[i].id == id {
                proof {
                    lemma_record_of_index(self@, i as int);
                }
                return Some(i);
            }
            i = i + 1;
        }
        proof {
            lemma_record_of_absent(self@, id);
        }
        None
    }

    /// The lifecycle state of `id`, including a change requested for the
    /// next session boundary; `None` when it is not registered.
    pub fn lifecycle(&self, id: ParaId) -> (r: Option<ParaLifecycle>)
        requires
            self.wf(),
        ensures
            r == lifecycle_in(self@, id),
    {
        match self.find(id) {
            Some(i) => Some(self.records[i].lifecycle),
            None => None,
        }
    }

    /// The state of `id` as of the last session boundary; `None` when it is
    /// not registered or still onboarding.
    pub fn current_state(&self, id: ParaId) -> (r: Option<ParaLifecycle>)
        requires
            self.wf(),
        ensures
            r == applied_in(self@, id),
    {
        match self.find(id) {
            Some(i) => self.records[i].applied,
            None => None,
        }
    }

    /// The change requested for `id` that takes effect at the next session
    /// boundary, if any.
    pub fn pending_transition(&self, id: ParaId) -> (r: Option<LifecycleEvent>)
        requires
            self.wf(),
        ensures
            r == match lifecycle_in(self@, id) {
                Some(l) => pending_event_of(l),
                None => None,
            },
    {
        match self.find(id) {
            Some(i) => self.records[i].lifecycle.pending_event(),
            None => None,
        }
    }

    /// The genesis data that `id` was initialized with.
    pub fn genesis(&self, id: ParaId) -> (r: Option<&ParaGenesisArgs>)
        requires
            self.wf(),
        ensures
            r is Some <==> record_of(self@, id) is Some,
            r is Some ==> *r->0 == record_of(self@, id)->0.genesis,
    {
        match self.find(id) {
            Some(i) => Some(&self.records[i].genesis),
            None => None,
        }
    }

    /// Records a cleanup, upgrade or downgrade of a registered para, as the
    /// transition table allows.
    fn request(&mut self, id: ParaId, event: LifecycleEvent) -> (r: Result<(), LifecycleError>)
        requires
            old(self).wf(),
            event != LifecycleEvent::Initialize,
        ensures
            final(self).wf(),
            final(self).spec_session() == old(self).spec_session(),
            transition_of(lifecycle_in(old(self)@, id), event, false) is Ok ==> r is Ok
                && final(self)@ == with_lifecycle(
                old(self)@,
                id,
                transition_of(lifecycle_in(old(self)@, id), event, false)->Ok_0,
            ),
            transition_of(lifecycle_in(old(self)@, id), event, false) is Err ==> r == Err::<
                (),
                LifecycleError,
            >(transition_of(lifecycle_in(old(self)@, id), event, false)->Err_0) && final(self)@
                == old(self)@,
    {
        match self.find(id) {
            None => Err(LifecycleError::UnknownEntity),
            Some(i) => {
                let current = self.records[i].lifecycle;
                match transition(Some(current), event, false) {
                    Ok(next) => {
                        let ghost before = self@;
                        self.records[i].lifecycle = next;
                        proof {
                            assert forall|j: int| 0 <= j < before.len() implies #[trigger] self@[j]
                                == with_lifecycle(before, id, next)[j] by {
                                if j != i {
                                    assert(before[j].id != before[i as int].id);
                                }
                            }
                            assert(self@ =~= with_lifecycle(before, id, next));
                            assert forall|j: int| 0 <= j < self@.len() implies record_wf(
                                #[trigger] self@[j],
                            ) by {
                                assert(record_wf(before[j]));
                            }
                            assert forall|a: int, b: int|
                                0 <= a < self@.len() && 0 <= b < self@.len() && a != b implies #[trigger] self@[a].id
                                != #[trigger] self@[b].id by {
                                assert(before[a].id != before[b].id);
                            }
                        }
                        Ok(())
                    },
                    Err(e) => Err(e),
                }
            },
        }
    }

    /// Applies every pending change at the boundary of session `session` and
    /// returns the changes that took effect, in the order of the records.
    /// A boundary whose index is not past the last applied one changes
    /// nothing and returns no change.
    pub fn apply_session_change(&mut self, session: SessionIndex) -> (events: Vec<
        (ParaId, LifecycleEvent),
    >)
        requires
            old(self).wf(),
        ensures
            final(self).wf(),
            session <= old(self).spec_session() ==> final(self)@ == old(self)@
                && final(self).spec_session() == old(self).spec_session() && events@.len() == 0,
            session > old(self).spec_session() ==> final(self)@ == settle_all(old(self)@)
                && final(self).spec_session() == session && events@ == boundary_events(
                old(self)@,
            ),
    {
        if session <= self.session {
            return Vec::new();
        }
        let mut pending: Vec<ParaRecord> = Vec::new();
        core::mem::swap(&mut pending, &mut self.records);
        let ghost orig = pending@;
        let mut events: Vec<(ParaId, LifecycleEvent)> = Vec::new();
        let ghost mut k: int = 0;
        while pending.len() > 0
            invariant
                0 <= k <= orig.len(),
                pending@ == orig.skip(k),
                self.records@ == settle_all(orig.take(k)),
                events@ == boundary_events(orig.take(k)),
            decreases pending@.len(),
        {
            let rec = pending.remove(0);
            proof {
                assert(orig.take(k + 1).drop_last() =~= orig.take(k));
                assert(orig.take(k + 1).last() == rec);
            }
            let id = rec.id;
            match rec.lifecycle.pending_event() {
                Some(e) => events.push((id, e)),
                None => {},
            }
            match rec.lifecycle.settled() {
                Some(l) => {
                    self.records.push(
                        ParaRecord { id, genesis: rec.genesis, lifecycle: l, applied: Some(l) },
                    );
                },
                None => {},
            }
            proof {
                k = k + 1;
                assert(pending@ =~= orig.skip(k));
            }
        }
        proof {
            assert(orig.take(k) =~= orig);
            lemma_settle_all_wf(orig);
        }
        self.session = session;
        events
    }
}

/// Schedules `id` to be initialized with `genesis` at the next session
/// boundary, onboarding as a parachain or as a parathread as
/// `genesis.parachain` says. Fails when `id` is already registered.
pub fn schedule_para_initialize(paras: &mut Paras, id: ParaId, genesis: ParaGenesisArgs) -> (r:
    Result<(), LifecycleError>)
    requires
        old(paras).wf(),
    ensures
        final(paras).wf(),
        final(paras).spec_session() == old(paras).spec_session(),
        transition_of(lifecycle_in(old(paras)@, id), LifecycleEvent::Initialize, genesis.parachain)
            is Ok ==> r is Ok && final(paras)@ == old(paras)@.push(
            new_record(
                id,
                genesis,
                transition_of(
                    lifecycle_in(old(paras)@, id),
                    LifecycleEvent::Initialize,
                    genesis.parachain,
                )->Ok_0,
            ),
        ),
        transition_of(lifecycle_in(old(paras)@, id), LifecycleEvent::Initialize, genesis.parachain)
            is Err ==> r == Err::<(), LifecycleError>(
            transition_of(
                lifecycle_in(old(paras)@, id),
                LifecycleEvent::Initialize,
                genesis.parachain,
            )->Err_0,
        ) && final(paras)@ == old(paras)@,
{
    let current = paras.lifecycle(id);
    match transition(current, LifecycleEvent::Initialize, genesis.parachain) {
        Ok(state) => {
            proof {
                lemma_record_of_absent_exact(paras@, id);
            }
            paras.records.push(ParaRecord { id, genesis, lifecycle: state, applied: None });
            Ok(())
        },
        Err(e) => Err(e),
    }
}

/// Schedules `id` to be offboarded at the next session boundary. Succeeds
/// for every registered para, whatever change was pending for it: the
/// cleanup replaces it. Requesting it again is a no-op.
pub fn schedule_para_cleanup(paras: &mut Paras, id: ParaId) -> (r: Result<(), LifecycleError>)
    requires
        old(paras).wf(),
    ensures
        final(paras).wf(),
        final(paras).spec_session() == old(paras).spec_session(),
        r is Ok <==> lifecycle_in(old(paras)@, id) is Some,
        r is Ok ==> final(paras)@ == with_lifecycle(old(paras)@, id, ParaLifecycle::Outgoing),
        r is Err ==> r == Err::<(), LifecycleError>(LifecycleError::UnknownEntity) && final(paras)@
            == old(paras)@,
{
    paras.request(id, LifecycleEvent::Cleanup)
}

/// Schedules parathread `id` to become a parachain at the next session
/// boundary.
pub fn schedule_para_upgrade(paras: &mut Paras, id: ParaId) -> (r: Result<(), LifecycleError>)
    requires
        old(paras).wf(),
    ensures
        final(paras).wf(),
        final(paras).spec_session() == old(paras).spec_session(),
        transition_of(lifecycle_in(old(paras)@, id), LifecycleEvent::Upgrade, false) is Ok ==> r is Ok
            && final(paras)@ == with_lifecycle(
            old(paras)@,
            id,
            ParaLifecycle::UpgradingToParachain,
        ),
        transition_of(lifecycle_in(old(paras)@, id), LifecycleEvent::Upgrade, false) is Err ==> r
            == Err::<(), LifecycleError>(
            transition_of(lifecycle_in(old(paras)@, id), LifecycleEvent::Upgrade, false)->Err_0,
        ) && final(paras)@ == old(paras)@,
{
    paras.request(id, LifecycleEvent::Upgrade)
}

/// Schedules parachain `id` to become a parathread at the next session
/// boundary.
pub fn schedule_para_downgrade(paras: &mut Paras, id: ParaId) -> (r: Result<(), LifecycleError>)
    requires
        old(paras).wf(),
    ensures
        final(paras).wf(),
        final(paras).spec_session() == old(paras).spec_session(),
        transition_of(lifecycle_in(old(paras)@, id), LifecycleEvent::Downgrade, false) is Ok ==> r
            is Ok && final(paras)@ == with_lifecycle(
            old(paras)@,
            id,
            ParaLifecycle::DowngradingToParathread,
        ),
        transition_of(lifecycle_in(old(paras)@, id), LifecycleEvent::Downgrade, false) is Err ==> r
            == Err::<(), LifecycleError>(
            transition_of(lifecycle_in(old(paras)@, id), LifecycleEvent::Downgrade, false)->Err_0,
        ) && final(paras)@ == old(paras)@,
{
    paras.request(id, LifecycleEvent::Downgrade)
}

proof fn lemma_record_of_index(s: Seq<ParaRecord>, i: int)
    requires
        unique_ids(s),
        0 <= i < s.len(),
    ensures
        record_of(s, s[i].id) == Some(s[i]),
    decreases s.len(),
{
    if i != s.len() - 1 {
        assert(s.last().id != s[i].id);
        let t = s.drop_last();
        assert(t[i] == s[i]);
        lemma_unique_prefix(s);
        lemma_record_of_index(t, i);
    }
}

proof fn lemma_record_of_absent(s: Seq<ParaRecord>, id: ParaId)
    requires
        forall|j: int| 0 <= j < s.len() ==> #[trigger] s[j].id != id,
    ensures
        record_of(s, id) is None,
        !has_id(s, id),
    decreases s.len(),
{
    if s.len() > 0 {
        let t = s.drop_last();
        assert forall|j: int| 0 <= j < t.len() implies #[trigger] t[j].id != id by {
            assert(t[j] == s[j]);
        }
        lemma_record_of_absent(t, id);
    }
}

/// An id without a record appears in no record.
proof fn lemma_record_of_absent_exact(s: Seq<ParaRecord>, id: ParaId)
    requires
        record_of(s, id) is None,
    ensures
        forall|j: int| 0 <= j < s.len() ==> #[trigger] s[j].id != id,
    decreases s.len(),
{
    if s.len() > 0 {
        let t = s.drop_last();
        lemma_record_of_absent_exact(t, id);
        assert forall|j: int| 0 <= j < s.len() implies #[trigger] s[j].id != id by {
            if j < t.len() {
                assert(t[j] == s[j]);
            }
        }
    }
}

proof fn lemma_unique_prefix(s: Seq<ParaRecord>)
    requires
        unique_ids(s),
        s.len() > 0,
    ensures
        unique_ids(s.drop_last()),
{
    let t = s.drop_last();
    assert forall|a: int, b: int|
        0 <= a < t.len() && 0 <= b < t.len() && a != b implies #[trigger] t[a].id
        != #[trigger] t[b].id by {
        assert(t[a] == s[a] && t[b] == s[b]);
    }
}

/// The records left after a session boundary are well formed, all settled,
/// and each has the id of a record from before.
proof fn lemma_settle_all_wf(s: Seq<ParaRecord>)
    requires
        records_wf(s),
    ensures
        records_wf(settle_all(s)),
        forall|j: int|
            0 <= j < settle_all(s).len() ==> has_id(s, #[trigger] settle_all(s)[j].id),
        forall|j: int|
            0 <= j < settle_all(s).len() ==> #[trigger] settle_record(settle_all(s)[j]) == Some(
                settle_all(s)[j],
            ),
    decreases s.len(),
{
    if s.len() > 0 {
        let t = s.drop_last();
        lemma_unique_prefix(s);
        assert forall|i: int| 0 <= i < t.len() implies record_wf(#[trigger] t[i]) by {
            assert(t[i] == s[i]);
        }
        lemma_settle_all_wf(t);
        let rest = settle_all(t);
        assert forall|j: int| 0 <= j < rest.len() implies has_id(s, #[trigger] rest[j].id) by {
            let m = choose|m: int| 0 <= m < t.len() && #[trigger] t[m].id == rest[j].id;
            assert(s[m] == t[m]);
        }
        assert(s[s.len() - 1] == s.last());
        match settle_record(s.last()) {
            Some(r) => {
                let u = rest.push(r);
                assert(u == settle_all(s));
                assert forall|j: int| 0 <= j < u.len() implies has_id(s, #[trigger] u[j].id) by {
                    if j < rest.len() {
                        assert(u[j] == rest[j]);
                    }
                }
                assert forall|a: int, b: int|
                    0 <= a < u.len() && 0 <= b < u.len() && a != b implies #[trigger] u[a].id
                    != #[trigger] u[b].id by {
                    if a == rest.len() {
                        let m = choose|m: int| 0 <= m < t.len() && #[trigger] t[m].id == rest[b].id;
                        assert(s[m] == t[m]);
                    } else if b == rest.len() {
                        let m = choose|m: int| 0 <= m < t.len() && #[trigger] t[m].id == rest[a].id;
                        assert(s[m] == t[m]);
                    } else {
                        assert(u[a] == rest[a] && u[b] == rest[b]);
                    }
                }
                assert forall|j: int| 0 <= j < u.len() implies record_wf(#[trigger] u[j]) by {
                    if j < rest.len() {
                        assert(u[j] == rest[j]);
                    }
                }
                assert forall|j: int|
                    0 <= j < u.len() implies #[trigger] settle_record(u[j]) == Some(u[j]) by {
                    if j < rest.len() {
                        assert(u[j] == rest[j]);
                    }
                }
            },
            None => {
                assert forall|j: int| 0 <= j < rest.len() implies has_id(s, #[trigger] rest[j].id) by {
                    let m = choose|m: int| 0 <= m < t.len() && #[trigger] t[m].id == rest[j].id;
                    assert(s[m] == t[m]);
                }
            },
        }
    }
}

/// A registry holds at most one record per para: a para is either absent
/// or in exactly one lifecycle state, the one its record holds.
pub proof fn lemma_one_state_per_para(s: Seq<ParaRecord>, id: ParaId)
    requires
        records_wf(s),
    ensures
        forall|i: int, j: int|
            0 <= i < s.len() && 0 <= j < s.len() && #[trigger] s[i].id == id && #[trigger] s[j].id
                == id ==> i == j,
        lifecycle_in(s, id) is None <==> !has_id(s, id),
        forall|i: int|
            0 <= i < s.len() && #[trigger] s[i].id == id ==> lifecycle_in(s, id) == Some(
                s[i].lifecycle,
            ),
{
    assert forall|i: int| 0 <= i < s.len() && #[trigger] s[i].id == id implies lifecycle_in(
        s,
        id,
    ) == Some(s[i].lifecycle) by {
        lemma_record_of_index(s, i);
    }
    if has_id(s, id) {
        let i = choose|i: int| 0 <= i < s.len() && #[trigger] s[i].id == id;
        lemma_record_of_index(s, i);
    } else {
        assert forall|j: int| 0 <= j < s.len() implies #[trigger] s[j].id != id by {
            if s[j].id == id {
                assert(has_id(s, id));
            }
        }
        lemma_record_of_absent(s, id);
    }
}

/// A cleanup request succeeds for every registered para, whatever change was
/// pending for it, and the next session boundary removes the para.
pub proof fn lemma_cleanup_removes_at_boundary(s: Seq<ParaRecord>, id: ParaId)
    requires
        records_wf(s),
        lifecycle_in(s, id) is Some,
    ensures
        transition_of(lifecycle_in(s, id), LifecycleEvent::Cleanup, false) == Ok::<
            ParaLifecycle,
            LifecycleError,
        >(ParaLifecycle::Outgoing),
        lifecycle_in(settle_all(with_lifecycle(s, id, ParaLifecycle::Outgoing)), id) is None,
{
    let w = with_lifecycle(s, id, ParaLifecycle::Outgoing);
    lemma_with_lifecycle_lookup(s, id, ParaLifecycle::Outgoing);
    assert(unique_ids(w)) by {
        assert forall|a: int, b: int|
            0 <= a < w.len() && 0 <= b < w.len() && a != b implies #[trigger] w[a].id
            != #[trigger] w[b].id by {
            assert(s[a].id != s[b].id);
        }
    }
    lemma_settle_lookup(w, id);
}

/// An upgrade that was accepted cannot be requested again before the
/// boundary: the second request fails with `TransitionAlreadyPending` and
/// the pending upgrade stays as it was.
pub proof fn lemma_upgrade_not_repeated(s: Seq<ParaRecord>, id: ParaId)
    requires
        transition_of(lifecycle_in(s, id), LifecycleEvent::Upgrade, false) is Ok,
    ensures
        lifecycle_in(with_lifecycle(s, id, ParaLifecycle::UpgradingToParachain), id) == Some(
            ParaLifecycle::UpgradingToParachain,
        ),
        transition_of(
            lifecycle_in(with_lifecycle(s, id, ParaLifecycle::UpgradingToParachain), id),
            LifecycleEvent::Upgrade,
            false,
        ) == Err::<ParaLifecycle, LifecycleError>(LifecycleError::TransitionAlreadyPending),
        pending_event_of(ParaLifecycle::UpgradingToParachain) == Some(LifecycleEvent::Upgrade),
{
    lemma_with_lifecycle_lookup(s, id, ParaLifecycle::UpgradingToParachain);
}

/// Applying a session boundary a second time changes nothing and yields no
/// change to tell the handlers of.
pub proof fn lemma_session_change_idempotent(s: Seq<ParaRecord>)
    requires
        records_wf(s),
    ensures
        settle_all(settle_all(s)) == settle_all(s),
        boundary_events(settle_all(s)) == Seq::<(ParaId, LifecycleEvent)>::empty(),
{
    lemma_settle_all_wf(s);
    lemma_settled_fixed(settle_all(s));
}

proof fn lemma_settled_fixed(t: Seq<ParaRecord>)
    requires
        forall|j: int| 0 <= j < t.len() ==> #[trigger] settle_record(t[j]) == Some(t[j]),
    ensures
        settle_all(t) == t,
        boundary_events(t) == Seq::<(ParaId, LifecycleEvent)>::empty(),
    decreases t.len(),
{
    if t.len() > 0 {
        let u = t.drop_last();
        assert forall|j: int| 0 <= j < u.len() implies #[trigger] settle_record(u[j]) == Some(
            u[j],
        ) by {
            assert(u[j] == t[j]);
        }
        lemma_settled_fixed(u);
        assert(settle_record(t[t.len() - 1]) == Some(t[t.len() - 1]));
        assert(t.last() == t[t.len() - 1]);
        assert(u.push(t.last()) =~= t);
    }
}

/// The lifecycle state of `id` after setting it to `state`.
proof fn lemma_with_lifecycle_lookup(s: Seq<ParaRecord>, id: ParaId, state: ParaLifecycle)
    ensures
        lifecycle_in(with_lifecycle(s, id, state), id) == (if lifecycle_in(s, id) is Some {
            Some(state)
        } else {
            None
        }),
        with_lifecycle(s, id, state).len() == s.len(),
        forall|i: int|
            0 <= i < s.len() ==> #[trigger] with_lifecycle(s, id, state)[i].id == s[i].id,
    decreases s.len(),
{
    if s.len() > 0 {
        let t = s.drop_last();
        lemma_with_lifecycle_lookup(t, id, state);
        assert(with_lifecycle(s, id, state).drop_last() =~= with_lifecycle(t, id, state));
    }
}

/// Where `id` stands after a session boundary.
proof fn lemma_settle_lookup(s: Seq<ParaRecord>, id: ParaId)
    requires
        unique_ids(s),
    ensures
        record_of(settle_all(s), id) == (match record_of(s, id) {
            Some(r) => settle_record(r),
            None => None,
        }),
    decreases s.len(),
{
    if s.len() > 0 {
        let t = s.drop_last();
        lemma_unique_prefix(s);
        lemma_settle_lookup(t, id);
        let rest = settle_all(t);
        if s.last().id == id {
            assert forall|j: int| 0 <= j < t.len() implies #[trigger] t[j].id != id by {
                assert(t[j] == s[j]);
                assert(s[s.len() - 1] == s.last());
            }
            lemma_record_of_absent(t, id);
        }
        match settle_record(s.last()) {
            Some(r) => {
                assert(rest.push(r).drop_last() =~= rest);
            },
            None => {},
        }
    }
}

} // verus!
