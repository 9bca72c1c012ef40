use std::collections::HashSet;
use std::collections::VecDeque;

use stateright::two_phase::{RmState, Step, TmState, TwoPhaseState, TwoPhaseSys};

fn sys_of(ids: &[u32]) -> TwoPhaseSys {
    TwoPhaseSys { rms: ids.to_vec() }
}

fn initial(sys: &TwoPhaseSys) -> TwoPhaseState {
    let mut init = sys.init();
    assert_eq!(init.len(), 1);
    init.remove(0).1
}

fn apply(sys: &TwoPhaseSys, state: &TwoPhaseState, step: Step) -> TwoPhaseState {
    sys.next(state)
        .into_iter()
        .find(|(s, _)| *s == step)
        .map(|(_, st)| st)
        .expect("step enabled")
}

/// Every state reachable from the initial one, visiting each once.
fn explore(sys: &TwoPhaseSys) -> Vec<TwoPhaseState> {
    let mut seen: HashSet<TwoPhaseState> = HashSet::new();
    let mut order = Vec::new();
    let mut queue = VecDeque::new();
    for (_, s) in sys.init() {
        if seen.insert(s.clone()) {
            queue.push_back(s);
        }
    }
    while let Some(s) = queue.pop_front() {
        for (_, t) in sys.next(&s) {
            if seen.insert(t.clone()) {
                queue.push_back(t);
            }
        }
        order.push(s);
    }
    order
}

fn rm_rank(s: RmState) -> u8 {
    match s {
        RmState::Working => 0,
        RmState::Prepared => 1,
        RmState::Committed | RmState::Aborted => 2,
    }
}

#[test]
fn can_model_2pc() {
    let sys = sys_of(&[1, 2, 3, 4, 5]);
    let states = explore(&sys);
    for s in &states {
        assert!(sys.is_consistent(s));
    }
    assert_eq!(states.len(), 8832);
}

#[test]
fn init_is_single_fresh_state() {
    let sys = sys_of(&[7, 9, 11]);
    let init = sys.init();
    assert_eq!(init.len(), 1);
    assert_eq!(init[0].0, "init");
    let s = &init[0].1;
    assert_eq!(s.rm_state, vec![RmState::Working; 3]);
    assert_eq!(s.tm_state, TmState::Init);
    assert_eq!(s.tm_prepared, vec![false; 3]);
    assert_eq!(s.prepared_msgs, vec![false; 3]);
    assert!(!s.commit_msg);
    assert!(!s.abort_msg);
}

#[test]
fn next_of_initial_state_lists_every_enabled_rule() {
    let sys = sys_of(&[1, 2]);
    let s = initial(&sys);
    let steps: Vec<Step> = sys.next(&s).into_iter().map(|(st, _)| st).collect();
    assert_eq!(
        steps,
        vec![
            Step::TmAbort,
            Step::RmPrepare { rm: 0 },
            Step::RmChooseToAbort { rm: 0 },
            Step::RmPrepare { rm: 1 },
            Step::RmChooseToAbort { rm: 1 },
        ]
    );
}

#[test]
fn rm_prepare_broadcasts_prepared() {
    let sys = sys_of(&[1, 2]);
    let s = apply(&sys, &initial(&sys), Step::RmPrepare { rm: 1 });
    assert_eq!(s.rm_state, vec![RmState::Working, RmState::Prepared]);
    assert_eq!(s.prepared_msgs, vec![false, true]);
    let t = apply(&sys, &s, Step::TmRcvPrepared { rm: 1 });
    assert_eq!(t.tm_prepared, vec![false, true]);
    assert!(!sys.next(&s).iter().any(|(st, _)| *st == Step::TmRcvPrepared { rm: 0 }));
}

#[test]
fn empty_configuration_may_commit_or_abort_at_once() {
    let sys = sys_of(&[]);
    let s = initial(&sys);
    let steps: Vec<Step> = sys.next(&s).into_iter().map(|(st, _)| st).collect();
    assert_eq!(steps, vec![Step::TmCommit, Step::TmAbort]);
    assert_eq!(explore(&sys).len(), 3);
}

#[test]
fn commit_needs_every_rm_prepared() {
    let sys = sys_of(&[1, 2]);
    let mut s = initial(&sys);
    s = apply(&sys, &s, Step::RmPrepare { rm: 0 });
    s = apply(&sys, &s, Step::TmRcvPrepared { rm: 0 });
    assert!(!sys.next(&s).iter().any(|(st, _)| *st == Step::TmCommit));
    s = apply(&sys, &s, Step::RmPrepare { rm: 1 });
    s = apply(&sys, &s, Step::TmRcvPrepared { rm: 1 });
    let c = apply(&sys, &s, Step::TmCommit);
    assert_eq!(c.tm_state, TmState::Committed);
    assert!(c.commit_msg);
    let done = apply(&sys, &c, Step::RmRcvCommit { rm: 0 });
    assert_eq!(done.rm_state, vec![RmState::Committed, RmState::Prepared]);
}

#[test]
fn commit_happens_only_by_commit_rule_from_init() {
    let sys = sys_of(&[1, 2, 3]);
    for s in explore(&sys) {
        for (step, t) in sys.next(&s) {
            if s.tm_state != TmState::Committed && t.tm_state == TmState::Committed {
                assert_eq!(step, Step::TmCommit);
                assert_eq!(s.tm_state, TmState::Init);
                assert!(s.tm_prepared.iter().all(|p| *p));
            }
        }
    }
}

#[test]
fn resolved_tm_fires_no_more_decisions() {
    let sys = sys_of(&[1, 2, 3]);
    for s in explore(&sys) {
        if s.tm_state != TmState::Init {
            assert!(!sys
                .next(&s)
                .iter()
                .any(|(st, _)| *st == Step::TmCommit || *st == Step::TmAbort));
        }
    }
}

#[test]
fn every_firing_moves_forward() {
    let sys = sys_of(&[1, 2, 3]);
    for s in explore(&sys) {
        for (_, t) in sys.next(&s) {
            assert!(!s.commit_msg || t.commit_msg);
            assert!(!s.abort_msg || t.abort_msg);
            for i in 0..3 {
                assert!(!s.prepared_msgs[i] || t.prepared_msgs[i]);
                let (a, b) = (s.rm_state[i], t.rm_state[i]);
                assert!(a == b || rm_rank(a) < rm_rank(b));
            }
            assert!(s.tm_state == t.tm_state || s.tm_state == TmState::Init);
        }
    }
}

#[test]
fn reachable_states_are_consistent_for_four() {
    let sys = sys_of(&[10, 20, 30, 40]);
    assert!(explore(&sys).iter().all(|s| sys.is_consistent(s)));
}

#[test]
fn is_consistent_rejects_split_outcome() {
    let sys = sys_of(&[1, 2]);
    let mut s = initial(&sys);
    s.rm_state = vec![RmState::Aborted, RmState::Committed];
    assert!(!sys.is_consistent(&s));
    s.rm_state = vec![RmState::Aborted, RmState::Aborted];
    assert!(sys.is_consistent(&s));
    s.rm_state = vec![RmState::Committed, RmState::Prepared];
    assert!(sys.is_consistent(&s));
}

#[test]
fn step_labels() {
    assert_eq!(Step::TmCommit.label(), "TM was able to commit and has informed RMs");
    assert_eq!(Step::TmAbort.label(), "TM chose to abort");
    assert_eq!(Step::TmRcvPrepared { rm: 0 }.label(), "TM got prepared msg");
    assert_eq!(Step::RmPrepare { rm: 2 }.label(), "RM is preparing");
    assert_eq!(Step::RmChooseToAbort { rm: 1 }.label(), "RM is choosing to abort");
    assert_eq!(Step::RmRcvCommit { rm: 1 }.label(), "RM is being told to commit");
    assert_eq!(Step::RmRcvAbort { rm: 1 }.label(), "RM is being told to abort");
}

#[test]
fn snapshot_is_an_equal_copy() {
    let sys = sys_of(&[1, 2]);
    let s = apply(&sys, &initial(&sys), Step::RmPrepare { rm: 0 });
    assert_eq!(s.snapshot(), s);
}
