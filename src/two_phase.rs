//! Two-phase commit as a transition system: a transaction manager and a set of resource
//! managers that exchange messages through a durable broadcast set.

use vstd::prelude::*;

verus! {

/// Status of one resource manager.
#[derive(Clone, Copy, Debug, PartialEq, Eq, Structural, Hash, PartialOrd, Ord)]
pub enum RmState {
    Working,
    Prepared,
    Committed,
    Aborted,
}

/// Status of the transaction manager.
#[derive(Clone, Copy, Debug, PartialEq, Eq, Structural, Hash, PartialOrd, Ord)]
pub enum TmState {
    Init,
    Committed,
    Aborted,
}

/// A broadcast message.
#[derive(Clone, Copy, Debug, PartialEq, Eq, Structural, Hash, PartialOrd, Ord)]
pub enum Message {
    Prepared { rm: u32 },
    Commit,
    Abort,
}

/// One firing of a transition rule. `rm` is the position of a resource manager in the
/// configuration.
#[derive(Clone, Copy, Debug, PartialEq, Eq, Structural, Hash, PartialOrd, Ord)]
pub enum Step {
    TmRcvPrepared { rm: usize },
    TmCommit,
    TmAbort,
    RmPrepare { rm: usize },
    RmChooseToAbort { rm: usize },
    RmRcvCommit { rm: usize },
    RmRcvAbort { rm: usize },
}

/// The configuration: the identifiers of the resource managers.
pub struct TwoPhaseSys {
    pub rms: Vec<u32>,
}

/// A protocol state. Each sequence is aligned with the configuration: entry `i` belongs to
/// the resource manager `rms[i]`. The broadcast set is held as one flag per message.
#[derive(Clone, Debug, PartialEq, Eq, Hash, PartialOrd, Ord)]
pub struct TwoPhaseState {
    pub rm_state: Vec<RmState>,
    pub tm_state: TmState,
    pub tm_prepared: Vec<bool>,
    pub prepared_msgs: Vec<bool>,
    pub commit_msg: bool,
    pub abort_msg: bool,
}

/// The mathematical model of a protocol state.
pub struct TwoPhaseView {
    pub rm_state: Seq<RmState>,
    pub tm_state: TmState,
    pub tm_prepared: Seq<bool>,
    pub prepared_msgs: Seq<bool>,
    pub commit_msg: bool,
    pub abort_msg: bool,
}

impl View for TwoPhaseState {
    type V = TwoPhaseView;

    open spec fn view(&self) -> TwoPhaseView {
        TwoPhaseView {
            rm_state: self.rm_state@,
            tm_state: self.tm_state,
            tm_prepared: self.tm_prepared@,
            prepared_msgs: self.prepared_msgs@,
            commit_msg: self.commit_msg,
            abort_msg: self.abort_msg,
        }
    }
}

/// The lifecycle order of a resource manager: `a` may be followed by `b`.
pub open spec fn rm_advances(a: RmState, b: RmState) -> bool {
    ||| a == b
    ||| a == RmState::Working && b != RmState::Working
    ||| a == RmState::Prepared && (b == RmState::Committed || b == RmState::Aborted)
}

/// The lifecycle order of the transaction manager: `a` may be followed by `b`.
pub open spec fn tm_advances(a: TmState, b: TmState) -> bool {
    a == b || a == TmState::Init
}

impl TwoPhaseView {
    /// Every per-participant sequence covers the `n` configured resource managers.
    pub open spec fn wf(self, n: nat) -> bool {
        &&& self.rm_state.len() == n
        &&& self.tm_prepared.len() == n
        &&& self.prepared_msgs.len() == n
    }

    /// The single initial state for `n` resource managers.
    pub open spec fn initial(n: nat) -> TwoPhaseView {
        TwoPhaseView {
            rm_state: Seq::new(n, |i: int| RmState::Working),
            tm_state: TmState::Init,
            tm_prepared: Seq::new(n, |i: int| false),
            prepared_msgs: Seq::new(n, |i: int| false),
            commit_msg: false,
            abort_msg: false,
        }
    }

    /// The transaction manager has seen every configured resource manager prepared.
    pub open spec fn all_prepared(self, n: nat) -> bool {
        forall|i: int| 0 <= i < n ==> #[trigger] self.tm_prepared[i]
    }

    /// The state that firing `step` produces, or `None` where its guard does not hold.
    pub open spec fn transition(self, step: Step, n: nat) -> Option<TwoPhaseView> {
        match step {
            Step::TmRcvPrepared { rm } => if rm < n && self.tm_state == TmState::Init
                && self.prepared_msgs[rm as int] {
                Some(TwoPhaseView { tm_prepared: self.tm_prepared.update(rm as int, true), ..self })
            } else {
                None
            },
            Step::TmCommit => if self.tm_state == TmState::Init && self.all_prepared(n) {
                Some(TwoPhaseView { tm_state: TmState::Committed, commit_msg: true, ..self })
            } else {
                None
            },
            Step::TmAbort => if self.tm_state == TmState::Init {
                Some(TwoPhaseView { tm_state: TmState::Aborted, abort_msg: true, ..self })
            } else {
                None
            },
            Step::RmPrepare { rm } => if rm < n && self.rm_state[rm as int] == RmState::Working {
                Some(
                    TwoPhaseView {
                        rm_state: self.rm_state.update(rm as int, RmState::Prepared),
                        prepared_msgs: self.prepared_msgs.update(rm as int, true),
                        ..self
                    },
                )
            } else {
                None
            },
            Step::RmChooseToAbort { rm } => if rm < n && self.rm_state[rm as int]
                == RmState::Working {
                Some(
                    TwoPhaseView {
                        rm_state: self.rm_state.update(rm as int, RmState::Aborted),
                        ..self
                    },
                )
            } else {
                None
            },
            Step::RmRcvCommit { rm } => if rm < n && self.commit_msg {
                Some(
                    TwoPhaseView {
                        rm_state: self.rm_state.update(rm as int, RmState::Committed),
                        ..self
                    },
                )
            } else {
                None
            },
            Step::RmRcvAbort { rm } => if rm < n && self.abort_msg {
                Some(
                    TwoPhaseView {
                        rm_state: self.rm_state.update(rm as int, RmState::Aborted),
                        ..self
                    },
                )
            } else {
                None
            },
        }
    }

    /// No resource manager has aborted while another has committed.
    pub open spec fn consistent(self, n: nat) -> bool {
        !exists|i: int, j: int|
            0 <= i < n && 0 <= j < n && #[trigger] self.rm_state[i] == RmState::Aborted
                && #[trigger] self.rm_state[j] == RmState::Committed
    }

    /// The broadcast set, with the resource managers named by `ids`.
    pub open spec fn messages(self, ids: Seq<u32>) -> Set<Message> {
        Set::new(
            |m: Message|
                match m {
                    Message::Prepared { rm } => exists|i: int|
                        0 <= i < ids.len() && ids[i] == rm && #[trigger] self.prepared_msgs[i],
                    Message::Commit => self.commit_msg,
                    Message::Abort => self.abort_msg,
                },
        )
    }
}

/// Where `step` is enabled in `v`, `after` is `before` with that firing appended; elsewhere
/// it is `before`.
pub open spec fn pushed_if_enabled(
    before: Seq<(Step, TwoPhaseState)>,
    after: Seq<(Step, TwoPhaseState)>,
    v: TwoPhaseView,
    step: Step,
    n: nat,
) -> bool {
    match v.transition(step, n) {
        Some(w) => {
            &&& after.len() == before.len() + 1
            &&& after.subrange(0, before.len() as int) == before
            &&& after.last().0 == step
            &&& after.last().1@ == w
        },
        None => after == before,
    }
}

/// Every entry of `res` is an enabled firing in `v` together with the state it produces.
pub open spec fn successors_sound(res: Seq<(Step, TwoPhaseState)>, v: TwoPhaseView, n: nat) -> bool {
    forall|k: int| 0 <= k < res.len() ==> v.transition(#[trigger] res[k].0, n) == Some(res[k].1@)
}

/// The firings of the transaction manager's own rules, and those of the resource managers
/// at positions below `i`.
pub open spec fn covered(step: Step, i: nat) -> bool {
    match step {
        Step::TmCommit | Step::TmAbort => true,
        Step::TmRcvPrepared { rm } => rm < i,
        Step::RmPrepare { rm } => rm < i,
        Step::RmChooseToAbort { rm } => rm < i,
        Step::RmRcvCommit { rm } => rm < i,
        Step::RmRcvAbort { rm } => rm < i,
    }
}

/// Every enabled firing covered by `i` appears in `res`.
pub open spec fn successors_complete(
    res: Seq<(Step, TwoPhaseState)>,
    v: TwoPhaseView,
    n: nat,
    i: nat,
) -> bool {
    forall|step: Step|
        covered(step, i) && #[trigger] v.transition(step, n) is Some ==> exists|k: int|
            0 <= k < res.len() && #[trigger] res[k].0 == step
}

fn copy_flags(v: &Vec<bool>) -> (r: Vec<bool>)
    ensures
        r@ == v@,
{
    let mut r: Vec<bool> = Vec::new();
    let mut i: usize = 0;
    while i < v.len()
        invariant
            i <= v.len(),
            r@ == v@.subrange(0, i as int),
        decreases v.len() - i,
    {
        r.push(v[i]);
        i += 1;
    }
    assert(r@ =~= v@);
    r
}

fn copy_statuses(v: &Vec<RmState>) -> (r: Vec<RmState>)
    ensures
        r@ == v@,
{
    let mut r: Vec<RmState> = Vec::new();
    let mut i: usize = 0;
    while i < v.len()
        invariant
            i <= v.len(),
            r@ == v@.subrange(0, i as int),
        decreases v.len() - i,
    {
        r.push(v[i]);
        i += 1;
    }
    assert(r@ =~= v@);
    r
}

impl TwoPhaseState {
    /// A fresh snapshot equal to this one.
    pub fn snapshot(&self) -> (r: TwoPhaseState)
        ensures
            r@ == self@,
    {
        TwoPhaseState {
            rm_state: copy_statuses(&self.rm_state),
            tm_state: self.tm_state,
            tm_prepared: copy_flags(&self.tm_prepared),
            prepared_msgs: copy_flags(&self.prepared_msgs),
            commit_msg: self.commit_msg,
            abort_msg: self.abort_msg,
        }
    }
}

impl TwoPhaseSys {
    /// The number of configured resource managers.
    pub open spec fn n(&self) -> nat {
        self.rms@.len()
    }

    fn tm_rcv_prepared(
        &self,
        rm: usize,
        state: &TwoPhaseState,
        results: &mut Vec<(Step, TwoPhaseState)>,
    )
        requires
            rm < self.n(),
            state@.wf(self.n()),
        ensures
            pushed_if_enabled(old(results)@, final(results)@, state@, Step::TmRcvPrepared { rm }, self.n()),
    {
        if state.tm_state == TmState::Init && state.prepared_msgs[rm] {
            let mut result = state.snapshot();
            result.tm_prepared.set(rm, true);
            assert(result@ =~= state@.transition(Step::TmRcvPrepared { rm }, self.n())->Some_0);
            results.push((Step::TmRcvPrepared { rm }, result));
            assert(final(results)@.subrange(0, old(results)@.len() as int) =~= old(results)@);
        }
    }

    fn tm_commit(&self, state: &TwoPhaseState, results: &mut Vec<(Step, TwoPhaseState)>)
        requires
            state@.wf(self.n()),
        ensures
            pushed_if_enabled(old(results)@, final(results)@, state@, Step::TmCommit, self.n()),
    {
        if state.tm_state == TmState::Init && all_set(&state.tm_prepared) {
            let mut result = state.snapshot();
            result.tm_state = TmState::Committed;
            result.commit_msg = true;
            assert(result@ =~= state@.transition(Step::TmCommit, self.n())->Some_0);
            results.push((Step::TmCommit, result));
            assert(final(results)@.subrange(0, old(results)@.len() as int) =~= old(results)@);
        }
    }

    fn tm_abort(&self, state: &TwoPhaseState, results: &mut Vec<(Step, TwoPhaseState)>)
        requires
            state@.wf(self.n()),
        ensures
            pushed_if_enabled(old(results)@, final(results)@, state@, Step::TmAbort, self.n()),
    {
        if state.tm_state == TmState::Init {
            let mut result = state.snapshot();
            result.tm_state = TmState::Aborted;
            result.abort_msg = true;
            assert(result@ =~= state@.transition(Step::TmAbort, self.n())->Some_0);
            results.push((Step::TmAbort, result));
            assert(final(results)@.subrange(0, old(results)@.len() as int) =~= old(results)@);
        }
    }

    fn rm_prepare(&self, rm: usize, state: &TwoPhaseState, results: &mut Vec<(Step, TwoPhaseState)>)
        requires
            rm < self.n(),
            state@.wf(self.n()),
        ensures
            pushed_if_enabled(old(results)@, final(results)@, state@, Step::RmPrepare { rm }, self.n()),
    {
        if state.rm_state[rm] == RmState::Working {
            let mut result = state.snapshot();
            result.rm_state.set(rm, RmState::Prepared);
            result.prepared_msgs.set(rm, true);
            assert(result@ =~= state@.transition(Step::RmPrepare { rm }, self.n())->Some_0);
            results.push((Step::RmPrepare { rm }, result));
            assert(final(results)@.subrange(0, old(results)@.len() as int) =~= old(results)@);
        }
    }

    fn rm_choose_to_abort(
        &self,
        rm: usize,
        state: &TwoPhaseState,
        results: &mut Vec<(Step, TwoPhaseState)>,
    )
        requires
            rm < self.n(),
            state@.wf(self.n()),
        ensures
            pushed_if_enabled(old(results)@, final(results)@, state@, Step::RmChooseToAbort { rm }, self.n()),
    {
        if state.rm_state[rm] == RmState::Working {
            let mut result = state.snapshot();
            result.rm_state.set(rm, RmState::Aborted);
            assert(result@ =~= state@.transition(Step::RmChooseToAbort { rm }, self.n())->Some_0);
            results.push((Step::RmChooseToAbort { rm }, result));
            assert(final(results)@.subrange(0, old(results)@.len() as int) =~= old(results)@);
        }
    }

    fn rm_rcv_commit_msg(
        &self,
        rm: usize,
        state: &TwoPhaseState,
        results: &mut Vec<(Step, TwoPhaseState)>,
    )
        requires
            rm < self.n(),
            state@.wf(self.n()),
        ensures
            pushed_if_enabled(old(results)@, final(results)@, state@, Step::RmRcvCommit { rm }, self.n()),
    {
        if state.commit_msg {
            let mut result = state.snapshot();
            result.rm_state.set(rm, RmState::Committed);
            assert(result@ =~= state@.transition(Step::RmRcvCommit { rm }, self.n())->Some_0);
            results.push((Step::RmRcvCommit { rm }, result));
            assert(final(results)@.subrange(0, old(results)@.len() as int) =~= old(results)@);
        }
    }

    fn rm_rcv_abort_msg(
        &self,
        rm: usize,
        state: &TwoPhaseState,
        results: &mut Vec<(Step, TwoPhaseState)>,
    )
        requires
            rm < self.n(),
            state@.wf(self.n()),
        ensures
            pushed_if_enabled(old(results)@, final(results)@, state@, Step::RmRcvAbort { rm }, self.n()),
    {
        if state.abort_msg {
            let mut result = state.snapshot();
            result.rm_state.set(rm, RmState::Aborted);
            assert(result@ =~= state@.transition(Step::RmRcvAbort { rm }, self.n())->Some_0);
            results.push((Step::RmRcvAbort { rm }, result));
            assert(final(results)@.subrange(0, old(results)@.len() as int) =~= old(results)@);
        }
    }
}

fn all_set(v: &Vec<bool>) -> (r: bool)
    ensures
        r == forall|i: int| 0 <= i < v@.len() ==> #[trigger] v@[i],
{
    let mut i: usize = 0;
    while i < v.len()
        invariant
            i <= v.len(),
            forall|j: int| 0 <= j < i ==> #[trigger] v@[j],
        decreases v.len() - i,
    {
        if !v[i] {
            return false;
        }
        i += 1;
    }
    true
}

impl TwoPhaseSys {
    /// The initial states, each with a label: the one state in which every resource
    /// manager works, the transaction manager has seen nothing and no message is out.
    pub fn init(&self) -> (r: Vec<(&'static str, TwoPhaseState)>)
        ensures
            r@.len() == 1,
            r@[0].0@ == "init"@,
            r@[0].1@ == TwoPhaseView::initial(self.n()),
    {
        let n = self.rms.len();
        let mut rm_state: Vec<RmState> = Vec::new();
        let mut flags: Vec<bool> = Vec::new();
        let mut i: usize = 0;
        while i < n
            invariant
                i <= n,
                n == self.rms@.len(),
                rm_state@ == Seq::new(i as nat, |j: int| RmState::Working),
                flags@ == Seq::new(i as nat, |j: int| false),
            decreases n - i,
        {
            rm_state.push(RmState::Working);
            flags.push(false);
            i += 1;
            assert(rm_state@ =~= Seq::new(i as nat, |j: int| RmState::Working));
            assert(flags@ =~= Seq::new(i as nat, |j: int| false));
        }
        let state = TwoPhaseState {
            rm_state,
            tm_state: TmState::Init,
            tm_prepared: copy_flags(&flags),
            prepared_msgs: flags,
            commit_msg: false,
            abort_msg: false,
        };
        proof {
            reveal_strlit("init");
        }
        assert(state@ =~= TwoPhaseView::initial(self.n()));
        let mut r: Vec<(&'static str, TwoPhaseState)> = Vec::new();
        r.push(("init", state));
        r
    }

    /// Every state that one firing of an enabled rule produces, each with the firing that
    /// produced it: exactly the enabled firings, each state being what `transition` gives.
    pub fn next(&self, state: &TwoPhaseState) -> (r: Vec<(Step, TwoPhaseState)>)
        requires
            state@.wf(self.n()),
        ensures
            successors_sound(r@, state@, self.n()),
            successors_complete(r@, state@, self.n(), self.n()),
    {
        let ghost v = state@;
        let ghost n = self.n();
        let mut results: Vec<(Step, TwoPhaseState)> = Vec::new();
        self.tm_commit(state, &mut results);
        let ghost r1 = results@;
        self.tm_abort(state, &mut results);
        assert(successors_sound(results@, v, n)) by {
            assert forall|k: int| 0 <= k < results@.len() implies v.transition(
                #[trigger] results@[k].0,
                n,
            ) == Some(results@[k].1@) by {
                if k < r1.len() {
                    assert(results@[k] == results@.subrange(0, r1.len() as int)[k]);
                }
            }
        }
        assert(successors_complete(results@, v, n, 0)) by {
            assert forall|step: Step|
                covered(step, 0) && #[trigger] v.transition(step, n) is Some implies exists|k: int|
                0 <= k < results@.len() && #[trigger] results@[k].0 == step by {
                if step == Step::TmCommit {
                    let k = r1.len() - 1;
                    assert(results@[k] == results@.subrange(0, r1.len() as int)[k]);
                } else {
                    let k = results@.len() - 1;
                    assert(results@[k].0 == step);
                }
            }
        }
        let mut i: usize = 0;
        while i < self.rms.len()
            invariant
                i <= n,
                n == self.n(),
                v == state@,
                v.wf(n),
                successors_sound(results@, v, n),
                successors_complete(results@, v, n, i as nat),
            decreases self.rms.len() - i,
        {
            let ghost r0 = results@;
            self.tm_rcv_prepared(i, state, &mut results);
            let ghost r1 = results@;
            self.rm_prepare(i, state, &mut results);
            let ghost r2 = results@;
            self.rm_choose_to_abort(i, state, &mut results);
            let ghost r3 = results@;
            self.rm_rcv_commit_msg(i, state, &mut results);
            let ghost r4 = results@;
            self.rm_rcv_abort_msg(i, state, &mut results);
            proof {
                lemma_extend_sound_complete(r0, r1, r2, r3, r4, results@, v, n, i as nat);
            }
            i += 1;
        }
        results
    }

    /// Whether no configured resource manager has aborted while another has committed.
    pub fn is_consistent(&self, state: &TwoPhaseState) -> (r: bool)
        requires
            state@.wf(self.n()),
        ensures
            r == state@.consistent(self.n()),
    {
        let n = self.rms.len();
        let mut any_aborted = false;
        let mut any_committed = false;
        let mut i: usize = 0;
        while i < n
            invariant
                i <= n,
                n == self.n(),
                state@.wf(self.n()),
                any_aborted == exists|j: int| 0 <= j < i && state@.rm_state[j] == RmState::Aborted,
                any_committed == exists|j: int|
                    0 <= j < i && state@.rm_state[j] == RmState::Committed,
            decreases n - i,
        {
            if state.rm_state[i] == RmState::Aborted {
                any_aborted = true;
            }
            if state.rm_state[i] == RmState::Committed {
                any_committed = true;
            }
            i += 1;
        }
        !(any_aborted && any_committed)
    }
}

/// Appending the five resource-manager firings for position `i` to a sound list that is
/// complete below `i` gives a sound list that is complete below `i + 1`.
proof fn lemma_extend_sound_complete(
    r0: Seq<(Step, TwoPhaseState)>,
    r1: Seq<(Step, TwoPhaseState)>,
    r2: Seq<(Step, TwoPhaseState)>,
    r3: Seq<(Step, TwoPhaseState)>,
    r4: Seq<(Step, TwoPhaseState)>,
    r: Seq<(Step, TwoPhaseState)>,
    v: TwoPhaseView,
    n: nat,
    i: nat,
)
    requires
        i < n,
        successors_sound(r0, v, n),
        successors_complete(r0, v, n, i),
        pushed_if_enabled(r0, r1, v, Step::TmRcvPrepared { rm: i as usize }, n),
        pushed_if_enabled(r1, r2, v, Step::RmPrepare { rm: i as usize }, n),
        pushed_if_enabled(r2, r3, v, Step::RmChooseToAbort { rm: i as usize }, n),
        pushed_if_enabled(r3, r4, v, Step::RmRcvCommit { rm: i as usize }, n),
        pushed_if_enabled(r4, r, v, Step::RmRcvAbort { rm: i as usize }, n),
    ensures
        successors_sound(r, v, n),
        successors_complete(r, v, n, i + 1),
{
    lemma_push_keeps(r0, r1, v, Step::TmRcvPrepared { rm: i as usize }, n);
    lemma_push_keeps(r1, r2, v, Step::RmPrepare { rm: i as usize }, n);
    lemma_push_keeps(r2, r3, v, Step::RmChooseToAbort { rm: i as usize }, n);
    lemma_push_keeps(r3, r4, v, Step::RmRcvCommit { rm: i as usize }, n);
    lemma_push_keeps(r4, r, v, Step::RmRcvAbort { rm: i as usize }, n);
    assert forall|step: Step|
        covered(step, i + 1) && #[trigger] v.transition(step, n) is Some implies exists|k: int|
        0 <= k < r.len() && #[trigger] r[k].0 == step by {
        if covered(step, i) {
            let k = choose|k: int| 0 <= k < r0.len() && #[trigger] r0[k].0 == step;
            assert(r1[k] == r0[k] && r2[k] == r1[k] && r3[k] == r2[k] && r4[k] == r3[k] && r[k] == r4[k]);
        } else {
            assert(step == Step::TmRcvPrepared { rm: i as usize } || step == Step::RmPrepare {
                rm: i as usize,
            } || step == Step::RmChooseToAbort { rm: i as usize } || step == Step::RmRcvCommit {
                rm: i as usize,
            } || step == Step::RmRcvAbort { rm: i as usize });
            if step == (Step::TmRcvPrepared { rm: i as usize }) {
                let k = r1.len() - 1;
                assert(r2[k] == r1[k] && r3[k] == r2[k] && r4[k] == r3[k] && r[k] == r4[k]);
            } else if step == (Step::RmPrepare { rm: i as usize }) {
                let k = r2.len() - 1;
                assert(r3[k] == r2[k] && r4[k] == r3[k] && r[k] == r4[k]);
            } else if step == (Step::RmChooseToAbort { rm: i as usize }) {
                let k = r3.len() - 1;
                assert(r4[k] == r3[k] && r[k] == r4[k]);
            } else if step == (Step::RmRcvCommit { rm: i as usize }) {
                let k = r4.len() - 1;
                assert(r[k] == r4[k]);
            } else {
                let k = r.len() - 1;
                assert(r[k].0 == step);
            }
        }
    }
}

/// One conditional push keeps a list sound and keeps what it holds, and holds the pushed
/// firing where that firing is enabled.
proof fn lemma_push_keeps(
    before: Seq<(Step, TwoPhaseState)>,
    after: Seq<(Step, TwoPhaseState)>,
    v: TwoPhaseView,
    step: Step,
    n: nat,
)
    requires
        successors_sound(before, v, n),
        pushed_if_enabled(before, after, v, step, n),
    ensures
        successors_sound(after, v, n),
        after.len() >= before.len(),
        forall|k: int| 0 <= k < before.len() ==> #[trigger] after[k] == before[k],
        v.transition(step, n) is Some ==> after[after.len() - 1].0 == step,
{
    if v.transition(step, n) is Some {
        assert forall|k: int| 0 <= k < before.len() implies after[k] == before[k] by {
            assert(after[k] == after.subrange(0, before.len() as int)[k]);
        }
        assert(after[after.len() - 1].0 == step);
    }
}

impl TwoPhaseView {
    /// The state that firing `steps` in order produces, or `None` where one of them is not
    /// enabled when its turn comes.
    pub open spec fn run(self, steps: Seq<Step>, n: nat) -> Option<TwoPhaseView>
        decreases steps.len(),
    {
        if steps.len() == 0 {
            Some(self)
        } else {
            match self.transition(steps[0], n) {
                Some(w) => w.run(steps.drop_first(), n),
                None => None,
            }
        }
    }

    /// Reachable from the initial state for `n` resource managers.
    pub open spec fn reachable(self, n: nat) -> bool {
        exists|steps: Seq<Step>| #[trigger] TwoPhaseView::initial(n).run(steps, n) == Some(self)
    }

    /// An inductive strengthening of consistency.
    spec fn inv(self, n: nat) -> bool {
        &&& self.wf(n)
        &&& self.commit_msg ==> self.tm_state == TmState::Committed
        &&& self.abort_msg ==> self.tm_state == TmState::Aborted
        &&& self.tm_state == TmState::Committed ==> self.all_prepared(n)
        &&& forall|i: int| 0 <= i < n ==> {
            &&& #[trigger] self.rm_state[i] == RmState::Committed ==> self.commit_msg
            &&& self.rm_state[i] == RmState::Aborted ==> self.abort_msg || !self.prepared_msgs[i]
            &&& self.tm_prepared[i] ==> self.prepared_msgs[i]
            &&& self.prepared_msgs[i] ==> self.rm_state[i] != RmState::Working
        }
    }

    /// `w` is no earlier than `self`: no message is gone and no participant went back.
    pub open spec fn advances_to(self, w: TwoPhaseView, ids: Seq<u32>) -> bool {
        &&& self.messages(ids).subset_of(w.messages(ids))
        &&& tm_advances(self.tm_state, w.tm_state)
        &&& forall|i: int| 0 <= i < ids.len() ==> rm_advances(self.rm_state[i], #[trigger] w.rm_state[i])
    }
}

proof fn lemma_initial_inv(n: nat)
    ensures
        TwoPhaseView::initial(n).inv(n),
{
}

proof fn lemma_inv_consistent(v: TwoPhaseView, n: nat)
    requires
        v.inv(n),
    ensures
        v.consistent(n),
{
    if !v.consistent(n) {
        let (i, j) = choose|i: int, j: int|
            0 <= i < n && 0 <= j < n && #[trigger] v.rm_state[i] == RmState::Aborted
                && #[trigger] v.rm_state[j] == RmState::Committed;
        assert(v.tm_prepared[i]);
    }
}

proof fn lemma_step_inv(v: TwoPhaseView, step: Step, n: nat, ids: Seq<u32>)
    requires
        v.inv(n),
        v.transition(step, n) is Some,
        ids.len() == n,
    ensures
        v.transition(step, n)->Some_0.inv(n),
        v.advances_to(v.transition(step, n)->Some_0, ids),
{
    let w = v.transition(step, n)->Some_0;
    match step {
        Step::TmCommit => {
            assert forall|i: int| 0 <= i < n implies w.rm_state[i] != RmState::Aborted
                || !w.prepared_msgs[i] by {
                assert(v.tm_prepared[i]);
            }
        },
        Step::RmRcvCommit { rm } => {
            assert(v.tm_prepared[rm as int]);
        },
        _ => {},
    }
    assert forall|m: Message| v.messages(ids).contains(m) implies w.messages(ids).contains(m) by {
        if let Message::Prepared { rm } = m {
            let i = choose|i: int| 0 <= i < ids.len() && ids[i] == rm && #[trigger] v.prepared_msgs[i];
            assert(w.prepared_msgs[i]);
        }
    }
}

proof fn lemma_run_inv(v: TwoPhaseView, steps: Seq<Step>, n: nat, ids: Seq<u32>)
    requires
        v.inv(n),
        v.run(steps, n) is Some,
        ids.len() == n,
    ensures
        v.run(steps, n)->Some_0.inv(n),
        v.advances_to(v.run(steps, n)->Some_0, ids),
    decreases steps.len(),
{
    if steps.len() > 0 {
        let w = v.transition(steps[0], n)->Some_0;
        lemma_step_inv(v, steps[0], n, ids);
        lemma_run_inv(w, steps.drop_first(), n, ids);
        let z = v.run(steps, n)->Some_0;
        assert forall|i: int| 0 <= i < ids.len() implies rm_advances(v.rm_state[i], #[trigger] z.rm_state[i]) by {
            assert(rm_advances(v.rm_state[i], w.rm_state[i]));
            assert(rm_advances(w.rm_state[i], z.rm_state[i]));
        }
    } else {
        assert(v.messages(ids).subset_of(v.messages(ids)));
    }
}

/// Safety: in every reachable state no resource manager has aborted while another has
/// committed.
pub proof fn lemma_reachable_consistent(v: TwoPhaseView, n: nat)
    requires
        v.reachable(n),
    ensures
        v.consistent(n),
{
    let steps = choose|steps: Seq<Step>| #[trigger] TwoPhaseView::initial(n).run(steps, n) == Some(v);
    lemma_initial_inv(n);
    lemma_run_inv(TwoPhaseView::initial(n), steps, n, Seq::new(n, |i: int| 0u32));
    lemma_inv_consistent(v, n);
}

/// Monotonicity: from a reachable state, along any sequence of firings, the broadcast set
/// never loses a message and every participant's status only moves forward in its lifecycle.
pub proof fn lemma_run_advances(v: TwoPhaseView, steps: Seq<Step>, ids: Seq<u32>)
    requires
        v.reachable(ids.len()),
        v.run(steps, ids.len()) is Some,
    ensures
        v.advances_to(v.run(steps, ids.len())->Some_0, ids),
{
    let n = ids.len();
    let prefix = choose|steps: Seq<Step>| #[trigger] TwoPhaseView::initial(n).run(steps, n) == Some(v);
    lemma_initial_inv(n);
    lemma_run_inv(TwoPhaseView::initial(n), prefix, n, ids);
    lemma_run_inv(v, steps, n, ids);
}

/// The transaction manager commits only by its commit rule, from `Init`, once it has seen
/// every configured resource manager prepared.
pub proof fn lemma_commit_precondition(v: TwoPhaseView, step: Step, n: nat)
    requires
        v.transition(step, n) is Some,
        v.tm_state != TmState::Committed,
        v.transition(step, n)->Some_0.tm_state == TmState::Committed,
    ensures
        step == Step::TmCommit,
        v.tm_state == TmState::Init,
        v.all_prepared(n),
{
}

/// Once the transaction manager has left `Init`, neither its commit rule nor its abort rule
/// is enabled.
pub proof fn lemma_single_resolution(v: TwoPhaseView, n: nat)
    requires
        v.tm_state != TmState::Init,
    ensures
        v.transition(Step::TmCommit, n) is None,
        v.transition(Step::TmAbort, n) is None,
{
}

/// The diagnostic text of a firing.
pub open spec fn label_of(step: Step) -> Seq<char> {
    match step {
        Step::TmRcvPrepared { .. } => "TM got prepared msg"@,
        Step::TmCommit => "TM was able to commit and has informed RMs"@,
        Step::TmAbort => "TM chose to abort"@,
        Step::RmPrepare { .. } => "RM is preparing"@,
        Step::RmChooseToAbort { .. } => "RM is choosing to abort"@,
        Step::RmRcvCommit { .. } => "RM is being told to commit"@,
        Step::RmRcvAbort { .. } => "RM is being told to abort"@,
    }
}

impl Step {
    /// A human-readable description of the firing, for traces.
    pub fn label(&self) -> (r: &'static str)
        ensures
            r@ == label_of(*self),
    {
        match self {
            Step::TmRcvPrepared { .. } => "TM got prepared msg",
            Step::TmCommit => "TM was able to commit and has informed RMs",
            Step::TmAbort => "TM chose to abort",
            Step::RmPrepare { .. } => "RM is preparing",
            Step::RmChooseToAbort { .. } => "RM is choosing to abort",
            Step::RmRcvCommit { .. } => "RM is being told to commit",
            Step::RmRcvAbort { .. } => "RM is being told to abort",
        }
    }
}

} // verus!
