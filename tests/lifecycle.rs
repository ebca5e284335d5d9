use std::cell::RefCell;
use std::rc::Rc;

use parachains::{
    on_new_session, schedule_para_cleanup, schedule_para_downgrade, schedule_para_initialize,
    schedule_para_upgrade, transition, AllParachainCleanup, LifecycleError, LifecycleEvent,
    ParaGenesisArgs, ParaLifecycle, ParachainCleanup, Paras, MAX_HANDLERS,
};

type Log = Rc<RefCell<Vec<(u8, u32, LifecycleEvent)>>>;

struct Recorder {
    name: u8,
    log: Log,
}

impl ParachainCleanup for Recorder {
    fn on_lifecycle_event(&mut self, id: u32, event: LifecycleEvent) {
        self.log.borrow_mut().push((self.name, id, event));
    }
}

fn genesis(parachain: bool) -> ParaGenesisArgs {
    ParaGenesisArgs { genesis_head: vec![1, 2, 3], validation_code: vec![9, 9], parachain }
}

fn handlers(names: &[u8], log: &Log) -> AllParachainCleanup<Recorder> {
    let mut all = AllParachainCleanup::new();
    for &name in names {
        assert!(all.register(Recorder { name, log: log.clone() }).is_ok());
    }
    all
}

fn onboarded(id: u32, parachain: bool) -> Paras {
    let mut paras = Paras::new();
    assert_eq!(schedule_para_initialize(&mut paras, id, genesis(parachain)), Ok(()));
    paras.apply_session_change(1);
    paras
}

#[test]
fn initialize_upgrade_cleanup_scenario() {
    let log: Log = Rc::new(RefCell::new(Vec::new()));
    let mut all = handlers(&[0, 1, 2], &log);
    let mut paras = Paras::new();

    assert_eq!(schedule_para_initialize(&mut paras, 7, genesis(false)), Ok(()));
    assert_eq!(paras.current_state(7), None);
    assert_eq!(paras.lifecycle(7), Some(ParaLifecycle::OnboardingAsParathread));
    on_new_session(&mut paras, &mut all, 1);
    assert_eq!(paras.current_state(7), Some(ParaLifecycle::Parathread));

    assert_eq!(schedule_para_upgrade(&mut paras, 7), Ok(()));
    assert_eq!(paras.current_state(7), Some(ParaLifecycle::Parathread));
    assert_eq!(paras.lifecycle(7), Some(ParaLifecycle::UpgradingToParachain));
    on_new_session(&mut paras, &mut all, 2);
    assert_eq!(paras.current_state(7), Some(ParaLifecycle::Parachain));

    assert_eq!(schedule_para_cleanup(&mut paras, 7), Ok(()));
    assert_eq!(paras.current_state(7), Some(ParaLifecycle::Parachain));
    on_new_session(&mut paras, &mut all, 3);
    assert_eq!(paras.current_state(7), None);
    assert_eq!(paras.lifecycle(7), None);

    let log = log.borrow();
    for name in 0..3u8 {
        let cleanups = log.iter().filter(|&&(n, id, e)| n == name && id == 7 && e == LifecycleEvent::Cleanup).count();
        assert_eq!(cleanups, 1);
    }
    assert_eq!(log.len(), 9);
}

#[test]
fn cleanup_supersedes_pending_upgrade() {
    let mut paras = onboarded(3, false);
    assert_eq!(schedule_para_upgrade(&mut paras, 3), Ok(()));
    assert_eq!(schedule_para_cleanup(&mut paras, 3), Ok(()));
    assert_eq!(paras.lifecycle(3), Some(ParaLifecycle::Outgoing));
    assert_eq!(paras.pending_transition(3), Some(LifecycleEvent::Cleanup));
    let events = paras.apply_session_change(2);
    assert_eq!(events, vec![(3, LifecycleEvent::Cleanup)]);
    assert_eq!(paras.lifecycle(3), None);
}

#[test]
fn cleanup_supersedes_pending_downgrade_and_onboarding() {
    let mut paras = onboarded(4, true);
    assert_eq!(schedule_para_initialize(&mut paras, 5, genesis(true)), Ok(()));
    assert_eq!(schedule_para_downgrade(&mut paras, 4), Ok(()));
    assert_eq!(schedule_para_cleanup(&mut paras, 4), Ok(()));
    assert_eq!(schedule_para_cleanup(&mut paras, 5), Ok(()));
    let events = paras.apply_session_change(2);
    assert_eq!(events, vec![(4, LifecycleEvent::Cleanup), (5, LifecycleEvent::Cleanup)]);
    assert_eq!(paras.lifecycle(4), None);
    assert_eq!(paras.lifecycle(5), None);
}

#[test]
fn cleanup_is_idempotent() {
    let mut paras = onboarded(1, false);
    assert_eq!(schedule_para_cleanup(&mut paras, 1), Ok(()));
    assert_eq!(schedule_para_cleanup(&mut paras, 1), Ok(()));
    assert_eq!(paras.lifecycle(1), Some(ParaLifecycle::Outgoing));
    assert_eq!(paras.apply_session_change(2), vec![(1, LifecycleEvent::Cleanup)]);
}

#[test]
fn cleanup_of_unknown_para_fails() {
    let mut paras = onboarded(1, false);
    assert_eq!(schedule_para_cleanup(&mut paras, 2), Err(LifecycleError::UnknownEntity));
    assert_eq!(paras.lifecycle(1), Some(ParaLifecycle::Parathread));
}

#[test]
fn repeated_upgrade_is_already_pending() {
    let mut paras = onboarded(7, false);
    assert_eq!(schedule_para_upgrade(&mut paras, 7), Ok(()));
    assert_eq!(schedule_para_upgrade(&mut paras, 7), Err(LifecycleError::TransitionAlreadyPending));
    assert_eq!(paras.lifecycle(7), Some(ParaLifecycle::UpgradingToParachain));
    assert_eq!(paras.pending_transition(7), Some(LifecycleEvent::Upgrade));
    assert_eq!(paras.apply_session_change(2), vec![(7, LifecycleEvent::Upgrade)]);
    assert_eq!(paras.current_state(7), Some(ParaLifecycle::Parachain));
}

#[test]
fn downgrade_while_upgrading_is_already_pending() {
    let mut paras = onboarded(7, false);
    assert_eq!(schedule_para_upgrade(&mut paras, 7), Ok(()));
    assert_eq!(schedule_para_downgrade(&mut paras, 7), Err(LifecycleError::TransitionAlreadyPending));
    let mut paras = onboarded(8, true);
    assert_eq!(schedule_para_downgrade(&mut paras, 8), Ok(()));
    assert_eq!(schedule_para_upgrade(&mut paras, 8), Err(LifecycleError::TransitionAlreadyPending));
    assert_eq!(schedule_para_downgrade(&mut paras, 8), Err(LifecycleError::TransitionAlreadyPending));
    assert_eq!(paras.current_state(8), Some(ParaLifecycle::Parachain));
    paras.apply_session_change(2);
    assert_eq!(paras.current_state(8), Some(ParaLifecycle::Parathread));
}

#[test]
fn invalid_transitions_are_rejected() {
    let mut paras = onboarded(1, true);
    assert_eq!(schedule_para_upgrade(&mut paras, 1), Err(LifecycleError::InvalidTransition));
    assert_eq!(schedule_para_initialize(&mut paras, 1, genesis(false)), Err(LifecycleError::InvalidTransition));
    let mut paras = onboarded(2, false);
    assert_eq!(schedule_para_downgrade(&mut paras, 2), Err(LifecycleError::InvalidTransition));
    assert_eq!(schedule_para_initialize(&mut paras, 3, genesis(false)), Ok(()));
    assert_eq!(schedule_para_upgrade(&mut paras, 3), Err(LifecycleError::InvalidTransition));
    assert_eq!(schedule_para_cleanup(&mut paras, 2), Ok(()));
    assert_eq!(schedule_para_upgrade(&mut paras, 2), Err(LifecycleError::InvalidTransition));
    assert_eq!(schedule_para_initialize(&mut paras, 2, genesis(false)), Err(LifecycleError::InvalidTransition));
    assert_eq!(paras.lifecycle(2), Some(ParaLifecycle::Outgoing));
}

#[test]
fn unknown_para_requests_fail() {
    let mut paras = Paras::new();
    assert_eq!(schedule_para_upgrade(&mut paras, 9), Err(LifecycleError::UnknownEntity));
    assert_eq!(schedule_para_downgrade(&mut paras, 9), Err(LifecycleError::UnknownEntity));
    assert_eq!(schedule_para_cleanup(&mut paras, 9), Err(LifecycleError::UnknownEntity));
    assert_eq!(paras.lifecycle(9), None);
}

#[test]
fn onboarding_as_parachain() {
    let mut paras = Paras::new();
    assert_eq!(schedule_para_initialize(&mut paras, 2000, genesis(true)), Ok(()));
    assert_eq!(paras.lifecycle(2000), Some(ParaLifecycle::OnboardingAsParachain));
    assert_eq!(paras.pending_transition(2000), Some(LifecycleEvent::Initialize));
    assert_eq!(paras.apply_session_change(1), vec![(2000, LifecycleEvent::Initialize)]);
    assert_eq!(paras.current_state(2000), Some(ParaLifecycle::Parachain));
    assert_eq!(paras.pending_transition(2000), None);
    assert_eq!(paras.genesis(2000), Some(&genesis(true)));
    assert_eq!(paras.genesis(2001), None);
}

#[test]
fn a_para_has_one_state() {
    let mut paras = Paras::new();
    assert_eq!(schedule_para_initialize(&mut paras, 5, genesis(false)), Ok(()));
    assert_eq!(schedule_para_initialize(&mut paras, 5, genesis(true)), Err(LifecycleError::InvalidTransition));
    assert_eq!(paras.lifecycle(5), Some(ParaLifecycle::OnboardingAsParathread));
    assert_eq!(paras.apply_session_change(1), vec![(5, LifecycleEvent::Initialize)]);
    assert_eq!(paras.lifecycle(5), Some(ParaLifecycle::Parathread));
}

#[test]
fn dispatch_follows_registration_order() {
    for id in [0u32, 42, u32::MAX] {
        let log: Log = Rc::new(RefCell::new(Vec::new()));
        let mut all = handlers(&[10, 11, 12], &log);
        all.dispatch(id, LifecycleEvent::Cleanup);
        assert_eq!(
            *log.borrow(),
            vec![(10, id, LifecycleEvent::Cleanup), (11, id, LifecycleEvent::Cleanup), (12, id, LifecycleEvent::Cleanup)]
        );
    }
}

#[test]
fn session_boundary_dispatches_each_change_to_all_handlers() {
    let log: Log = Rc::new(RefCell::new(Vec::new()));
    let mut all = handlers(&[0, 1], &log);
    let mut paras = Paras::new();
    assert_eq!(schedule_para_initialize(&mut paras, 20, genesis(false)), Ok(()));
    assert_eq!(schedule_para_initialize(&mut paras, 10, genesis(true)), Ok(()));
    let events = on_new_session(&mut paras, &mut all, 1);
    assert_eq!(events, vec![(20, LifecycleEvent::Initialize), (10, LifecycleEvent::Initialize)]);
    assert_eq!(
        *log.borrow(),
        vec![
            (0, 20, LifecycleEvent::Initialize),
            (1, 20, LifecycleEvent::Initialize),
            (0, 10, LifecycleEvent::Initialize),
            (1, 10, LifecycleEvent::Initialize),
        ]
    );
}

#[test]
fn repeated_session_boundary_has_no_effect() {
    let log: Log = Rc::new(RefCell::new(Vec::new()));
    let mut all = handlers(&[0, 1, 2], &log);
    let mut paras = Paras::new();
    assert_eq!(schedule_para_initialize(&mut paras, 7, genesis(false)), Ok(()));
    assert_eq!(on_new_session(&mut paras, &mut all, 1).len(), 1);
    assert_eq!(log.borrow().len(), 3);
    assert_eq!(schedule_para_cleanup(&mut paras, 7), Ok(()));
    assert_eq!(on_new_session(&mut paras, &mut all, 1), vec![]);
    assert_eq!(on_new_session(&mut paras, &mut all, 0), vec![]);
    assert_eq!(log.borrow().len(), 3);
    assert_eq!(paras.lifecycle(7), Some(ParaLifecycle::Outgoing));
    assert_eq!(paras.session_index(), 1);
    assert_eq!(on_new_session(&mut paras, &mut all, 2), vec![(7, LifecycleEvent::Cleanup)]);
    assert_eq!(log.borrow().len(), 6);
    assert_eq!(on_new_session(&mut paras, &mut all, 3), vec![]);
    assert_eq!(log.borrow().len(), 6);
    assert_eq!(paras.session_index(), 3);
}

#[test]
fn registry_is_bounded() {
    let log: Log = Rc::new(RefCell::new(Vec::new()));
    let mut all = AllParachainCleanup::new();
    for i in 0..MAX_HANDLERS {
        assert!(all.register(Recorder { name: i as u8, log: log.clone() }).is_ok());
    }
    assert_eq!(all.len(), 30);
    let rejected = all.register(Recorder { name: 99, log: log.clone() });
    assert!(matches!(rejected, Err(Recorder { name: 99, .. })));
    assert_eq!(all.len(), 30);
    assert_eq!(all.handlers()[29].name, 29);
}

#[test]
fn nested_registries_keep_order() {
    let log: Log = Rc::new(RefCell::new(Vec::new()));
    let inner_a = handlers(&[1, 2], &log);
    let inner_b = handlers(&[3], &log);
    let mut outer = AllParachainCleanup::new();
    assert!(outer.register(inner_a).is_ok());
    assert!(outer.register(inner_b).is_ok());
    outer.on_lifecycle_event(5, LifecycleEvent::Downgrade);
    assert_eq!(
        *log.borrow(),
        vec![(1, 5, LifecycleEvent::Downgrade), (2, 5, LifecycleEvent::Downgrade), (3, 5, LifecycleEvent::Downgrade)]
    );
}

#[test]
fn transition_table() {
    assert_eq!(transition(None, LifecycleEvent::Initialize, false), Ok(ParaLifecycle::OnboardingAsParathread));
    assert_eq!(transition(None, LifecycleEvent::Initialize, true), Ok(ParaLifecycle::OnboardingAsParachain));
    assert_eq!(transition(None, LifecycleEvent::Cleanup, false), Err(LifecycleError::UnknownEntity));
    assert_eq!(transition(Some(ParaLifecycle::Parathread), LifecycleEvent::Initialize, false), Err(LifecycleError::InvalidTransition));
    assert_eq!(transition(Some(ParaLifecycle::Parathread), LifecycleEvent::Upgrade, false), Ok(ParaLifecycle::UpgradingToParachain));
    assert_eq!(transition(Some(ParaLifecycle::Parachain), LifecycleEvent::Downgrade, false), Ok(ParaLifecycle::DowngradingToParathread));
    assert_eq!(transition(Some(ParaLifecycle::Parachain), LifecycleEvent::Upgrade, false), Err(LifecycleError::InvalidTransition));
    assert_eq!(transition(Some(ParaLifecycle::OnboardingAsParachain), LifecycleEvent::Downgrade, false), Err(LifecycleError::InvalidTransition));
    assert_eq!(transition(Some(ParaLifecycle::UpgradingToParachain), LifecycleEvent::Upgrade, false), Err(LifecycleError::TransitionAlreadyPending));
    assert_eq!(transition(Some(ParaLifecycle::DowngradingToParathread), LifecycleEvent::Downgrade, false), Err(LifecycleError::TransitionAlreadyPending));
    assert_eq!(transition(Some(ParaLifecycle::Outgoing), LifecycleEvent::Cleanup, false), Ok(ParaLifecycle::Outgoing));
    assert_eq!(transition(Some(ParaLifecycle::UpgradingToParachain), LifecycleEvent::Cleanup, false), Ok(ParaLifecycle::Outgoing));
}

#[test]
fn settling_at_the_boundary() {
    assert_eq!(ParaLifecycle::OnboardingAsParathread.settled(), Some(ParaLifecycle::Parathread));
    assert_eq!(ParaLifecycle::OnboardingAsParachain.settled(), Some(ParaLifecycle::Parachain));
    assert_eq!(ParaLifecycle::UpgradingToParachain.settled(), Some(ParaLifecycle::Parachain));
    assert_eq!(ParaLifecycle::DowngradingToParathread.settled(), Some(ParaLifecycle::Parathread));
    assert_eq!(ParaLifecycle::Parathread.settled(), Some(ParaLifecycle::Parathread));
    assert_eq!(ParaLifecycle::Outgoing.settled(), None);
    assert_eq!(ParaLifecycle::Parachain.pending_event(), None);
    assert_eq!(ParaLifecycle::Outgoing.pending_event(), Some(LifecycleEvent::Cleanup));
    assert_eq!(ParaLifecycle::DowngradingToParathread.pending_event(), Some(LifecycleEvent::Downgrade));
}
