//! An interface for register-like actors (`RegisterMsg`), and a wrapper (`RegisterCfg`) that
//! puts a fixed probing client beside a register implementation so that both can be explored
//! as one actor system.

use vstd::prelude::*;
use crate::actor::{Actor, ActorInput, ActorResult, ActorSystemSnapshot, Envelope};

verus! {

/// A wrapper configuration: either the probing client or a wrapped server.
pub enum RegisterCfg<Id, Value, ServerCfg> {
    Client { server_ids: Vec<Id>, desired_value: Value },
    Server(ServerCfg),
}

/// The messages of a register-like actor.
#[derive(Clone, Debug, PartialEq, Eq, Hash, PartialOrd, Ord)]
pub enum RegisterMsg<Value, ServerMsg> {
    Put { value: Value },
    Get,
    Respond { value: Value },
    Internal(ServerMsg),
}

/// A wrapper state: the client's inert marker, or a wrapped server's state.
#[derive(Clone, Debug, PartialEq, Eq, Hash, PartialOrd, Ord)]
pub enum RegisterState<ServerState> {
    Client,
    Server(ServerState),
}

/// The messages that the client sends on start: for each server in order, a `Put` of a
/// clone of `value`, then a `Get`.
pub open spec fn client_outputs<Id, Value: Clone, ServerMsg>(
    ids: Seq<Id>,
    value: Value,
    outputs: Seq<(Id, RegisterMsg<Value, ServerMsg>)>,
) -> bool {
    &&& outputs.len() == 2 * ids.len()
    &&& forall|k: int|
        0 <= k < outputs.len() ==> {
            &&& (#[trigger] outputs[k]).0 == ids[k / 2]
            &&& k % 2 == 0 ==> (outputs[k].1 matches RegisterMsg::Put { value: v } && cloned(value, v))
            &&& k % 2 == 1 ==> outputs[k].1 == RegisterMsg::<Value, ServerMsg>::Get
        }
}

impl<Id, Value, ServerCfg, ServerMsg> Actor<Id> for RegisterCfg<Id, Value, ServerCfg> where
    Id: Copy + Ord,
    Value: Clone,
    ServerCfg: Actor<Id, Msg = RegisterMsg<Value, ServerMsg>>,
 {
    type Msg = ServerCfg::Msg;

    type State = RegisterState<ServerCfg::State>;

    open spec fn start_spec(&self, state: Self::State, outputs: Seq<(Id, Self::Msg)>) -> bool {
        match self {
            RegisterCfg::Client { server_ids, desired_value } => {
                &&& state == RegisterState::<ServerCfg::State>::Client
                &&& client_outputs(server_ids@, *desired_value, outputs)
            },
            RegisterCfg::Server(server_cfg) => {
                &&& state is Server
                &&& server_cfg.start_spec(state->Server_0, outputs)
            },
        }
    }

    open spec fn advance_spec(
        &self,
        state: Self::State,
        input: ActorInput<Id, Self::Msg>,
        result: Option<(Self::State, Seq<(Id, Self::Msg)>)>,
    ) -> bool {
        match (self, state) {
            (RegisterCfg::Server(server_cfg), RegisterState::Server(server_state)) => match result {
                None => server_cfg.advance_spec(server_state, input, None),
                Some((s, outputs)) => {
                    &&& s is Server
                    &&& server_cfg.advance_spec(server_state, input, Some((s->Server_0, outputs)))
                },
            },
            _ => result is None,
        }
    }

    fn start(&self) -> (r: ActorResult<Id, Self::Msg, Self::State>) {
        match self {
            RegisterCfg::Client { server_ids, desired_value } => {
                let mut outputs: Vec<(Id, RegisterMsg<Value, ServerMsg>)> = Vec::new();
                let mut i: usize = 0;
                while i < server_ids.len()
                    invariant
                        i <= server_ids@.len(),
                        outputs@.len() == 2 * i,
                        client_outputs(server_ids@.subrange(0, i as int), *desired_value, outputs@),
                    decreases server_ids.len() - i,
                {
                    let server_id = server_ids[i];
                    outputs.push((server_id, RegisterMsg::Put { value: desired_value.clone() }));
                    outputs.push((server_id, RegisterMsg::Get));
                    proof {
                        let prefix = server_ids@.subrange(0, i + 1);
                        assert forall|k: int| 0 <= k < outputs@.len() implies (#[trigger] outputs@[k]).0 == prefix[k / 2] by {
                            if k < 2 * i {
                                assert(outputs@[k].0 == server_ids@.subrange(0, i as int)[k / 2]);
                            }
                        }
                    }
                    i += 1;
                }
                assert(server_ids@.subrange(0, i as int) =~= server_ids@);
                ActorResult { state: RegisterState::Client, outputs }
            },
            RegisterCfg::Server(server_cfg) => {
                let server_result = server_cfg.start();
                ActorResult {
                    state: RegisterState::Server(server_result.state),
                    outputs: server_result.outputs,
                }
            },
        }
    }

    fn advance(&self, state: &Self::State, input: ActorInput<Id, Self::Msg>) -> (r: Option<
        ActorResult<Id, Self::Msg, Self::State>,
    >) {
        match (self, state) {
            (RegisterCfg::Server(server_cfg), RegisterState::Server(server_state)) => {
                match server_cfg.advance(server_state, input) {
                    Some(server_result) => Some(
                        ActorResult {
                            state: RegisterState::Server(server_result.state),
                            outputs: server_result.outputs,
                        },
                    ),
                    None => None,
                }
            },
            _ => None,
        }
    }
}

/// Strictly increasing: sorted, with no value twice.
pub open spec fn strictly_increasing(s: Seq<u64>) -> bool {
    forall|i: int, j: int| 0 <= i < j < s.len() ==> s[i] < s[j]
}

/// Some envelope of `network` carries `Respond { value }`.
pub open spec fn responded<ServerMsg>(
    network: Seq<Envelope<RegisterMsg<u64, ServerMsg>>>,
    value: u64,
) -> bool {
    exists|k: int|
        0 <= k < network.len() && (#[trigger] network[k]).msg == RegisterMsg::<u64, ServerMsg>::Respond {
            value,
        }
}

/// The first position of `values` whose value is not below `x`.
fn lower_bound(values: &Vec<u64>, x: u64) -> (p: usize)
    ensures
        p <= values@.len(),
        forall|j: int| 0 <= j < p ==> values@[j] < x,
        p < values@.len() ==> values@[p as int] >= x,
{
    let mut p: usize = 0;
    while p < values.len() && values[p] < x
        invariant
            p <= values@.len(),
            forall|j: int| 0 <= j < p ==> values@[j] < x,
        decreases values.len() - p,
    {
        p += 1;
    }
    p
}

/// `s` with `x` put at position `p`.
proof fn lemma_insert_contains(s: Seq<u64>, p: int, x: u64)
    requires
        0 <= p <= s.len(),
    ensures
        forall|y: u64| s.insert(p, x).contains(y) <==> (s.contains(y) || y == x),
{
    let t = s.insert(p, x);
    assert forall|y: u64| t.contains(y) <==> (s.contains(y) || y == x) by {
        assert(t[p] == x);
        if s.contains(y) {
            let j = choose|j: int| 0 <= j < s.len() && s[j] == y;
            if j < p {
                assert(t[j] == y);
            } else {
                assert(t[j + 1] == y);
            }
        }
        if t.contains(y) {
            let j = choose|j: int| 0 <= j < t.len() && t[j] == y;
            if j < p {
                assert(s[j] == y);
            } else if j > p {
                assert(s[j - 1] == y);
            }
        }
    }
}

/// Adds `x` to a strictly increasing sequence of values, where it is not there yet.
fn insert_value(values: &mut Vec<u64>, x: u64)
    requires
        strictly_increasing(old(values)@),
    ensures
        strictly_increasing(final(values)@),
        forall|y: u64| final(values)@.contains(y) <==> (old(values)@.contains(y) || y == x),
{
    let p = lower_bound(values, x);
    if p < values.len() && values[p] == x {
        assert forall|y: u64| values@.contains(y) <==> (old(values)@.contains(y) || y == x) by {
            assert(values@[p as int] == x);
        }
    } else {
        proof {
            lemma_insert_contains(values@, p as int, x);
        }
        let ghost before = values@;
        values.insert(p, x);
        assert(values@ == before.insert(p as int, x));
        assert(forall|y: u64| values@.contains(y) <==> (before.contains(y) || y == x));
    }
    assert(forall|y: u64| values@.contains(y) <==> (old(values)@.contains(y) || y == x));
}

/// The distinct values with which servers have responded, as found in the network of
/// `state`, in increasing order.
pub fn response_values<ServerMsg, ServerState>(
    state: &ActorSystemSnapshot<RegisterMsg<u64, ServerMsg>, RegisterState<ServerState>>,
) -> (r: Vec<u64>)
    ensures
        strictly_increasing(r@),
        forall|v: u64| r@.contains(v) <==> responded(state.network@, v),
{
    let mut values: Vec<u64> = Vec::new();
    let mut i: usize = 0;
    while i < state.network.len()
        invariant
            i <= state.network@.len(),
            strictly_increasing(values@),
            forall|v: u64| values@.contains(v) <==> responded(state.network@.subrange(0, i as int), v),
        decreases state.network.len() - i,
    {
        let ghost prev = values@;
        let ghost seen = state.network@.subrange(0, i as int);
        let ghost now = state.network@.subrange(0, i + 1);
        assert(now[i as int] == state.network@[i as int]);
        match &state.network[i].msg {
            RegisterMsg::Respond { value } => {
                insert_value(&mut values, *value);
                assert(now[i as int].msg == RegisterMsg::<u64, ServerMsg>::Respond { value: *value });
            },
            _ => {
                assert(forall|v: u64| now[i as int].msg != RegisterMsg::<u64, ServerMsg>::Respond { value: v });
            },
        }
        assert forall|v: u64| values@.contains(v) <==> responded(now, v) by {
            if responded(seen, v) {
                let k = choose|k: int| 0 <= k < seen.len() && (#[trigger] seen[k]).msg == RegisterMsg::<u64, ServerMsg>::Respond { value: v };
                assert(now[k] == seen[k]);
            }
            if responded(now, v) {
                let k = choose|k: int| 0 <= k < now.len() && (#[trigger] now[k]).msg == RegisterMsg::<u64, ServerMsg>::Respond { value: v };
                if k < i {
                    assert(seen[k] == now[k]);
                } else {
                    assert(now[k] == state.network@[i as int]);
                }
            }
        }
        i += 1;
    }
    assert(state.network@.subrange(0, i as int) =~= state.network@);
    values
}

} // verus!
