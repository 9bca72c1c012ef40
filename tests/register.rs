use stateright::actor::{Actor, ActorInput, ActorResult, ActorSystemSnapshot, Envelope};
use stateright::register::{response_values, RegisterCfg, RegisterMsg, RegisterState};

/// A one-value register: `Put` stores and answers, `Get` answers with what is stored.
struct Cell;

impl Actor<u64> for Cell {
    type Msg = RegisterMsg<u64, ()>;
    type State = u64;

    fn start(&self) -> ActorResult<u64, Self::Msg, Self::State> {
        ActorResult { state: 0, outputs: vec![] }
    }

    fn advance(
        &self,
        state: &u64,
        input: ActorInput<u64, Self::Msg>,
    ) -> Option<ActorResult<u64, Self::Msg, Self::State>> {
        let ActorInput::Deliver { src, msg } = input;
        match msg {
            RegisterMsg::Put { value } => Some(ActorResult {
                state: value,
                outputs: vec![(src, RegisterMsg::Respond { value })],
            }),
            RegisterMsg::Get => Some(ActorResult {
                state: *state,
                outputs: vec![(src, RegisterMsg::Respond { value: *state })],
            }),
            _ => None,
        }
    }
}

type Cfg = RegisterCfg<u64, u64, Cell>;

fn envelope(msg: RegisterMsg<u64, ()>) -> Envelope<RegisterMsg<u64, ()>> {
    Envelope { src: 0, dst: 1, msg }
}

#[test]
fn client_start_sends_put_then_get_to_each_server() {
    let cfg: Cfg = RegisterCfg::Client { server_ids: vec![4, 9], desired_value: 42 };
    let r = cfg.start();
    assert_eq!(r.state, RegisterState::Client);
    assert_eq!(
        r.outputs,
        vec![
            (4, RegisterMsg::Put { value: 42 }),
            (4, RegisterMsg::Get),
            (9, RegisterMsg::Put { value: 42 }),
            (9, RegisterMsg::Get),
        ]
    );
}

#[test]
fn client_with_no_servers_sends_nothing() {
    let cfg: Cfg = RegisterCfg::Client { server_ids: vec![], desired_value: 1 };
    let r = cfg.start();
    assert_eq!(r.state, RegisterState::Client);
    assert!(r.outputs.is_empty());
}

#[test]
fn client_never_advances() {
    let cfg: Cfg = RegisterCfg::Client { server_ids: vec![4, 9], desired_value: 42 };
    let state = cfg.start().state;
    let inputs = vec![
        RegisterMsg::Put { value: 1 },
        RegisterMsg::Get,
        RegisterMsg::Respond { value: 42 },
        RegisterMsg::Internal(()),
    ];
    for msg in inputs {
        assert!(cfg.advance(&state, ActorInput::Deliver { src: 4, msg }).is_none());
    }
}

#[test]
fn server_start_is_forwarded_and_tagged() {
    let cfg: Cfg = RegisterCfg::Server(Cell);
    let r = cfg.start();
    assert_eq!(r.state, RegisterState::Server(0));
    assert!(r.outputs.is_empty());
}

#[test]
fn server_advance_is_forwarded_and_tagged() {
    let cfg: Cfg = RegisterCfg::Server(Cell);
    let state = RegisterState::Server(5);
    let put = cfg
        .advance(&state, ActorInput::Deliver { src: 3, msg: RegisterMsg::Put { value: 8 } })
        .expect("put is handled");
    assert_eq!(put.state, RegisterState::Server(8));
    assert_eq!(put.outputs, vec![(3, RegisterMsg::Respond { value: 8 })]);
    let get = cfg
        .advance(&state, ActorInput::Deliver { src: 2, msg: RegisterMsg::Get })
        .expect("get is handled");
    assert_eq!(get.state, RegisterState::Server(5));
    assert_eq!(get.outputs, vec![(2, RegisterMsg::Respond { value: 5 })]);
    let ignored = cfg.advance(
        &state,
        ActorInput::Deliver { src: 2, msg: RegisterMsg::Respond { value: 1 } },
    );
    assert!(ignored.is_none());
}

#[test]
fn server_config_ignores_client_state() {
    let cfg: Cfg = RegisterCfg::Server(Cell);
    let r = cfg.advance(
        &RegisterState::Client,
        ActorInput::Deliver { src: 2, msg: RegisterMsg::Get },
    );
    assert!(r.is_none());
}

#[test]
fn response_values_are_distinct_and_sorted() {
    let snapshot: ActorSystemSnapshot<RegisterMsg<u64, ()>, RegisterState<u64>> = ActorSystemSnapshot {
        actor_states: vec![RegisterState::Client, RegisterState::Server(3)],
        network: vec![
            envelope(RegisterMsg::Respond { value: 3 }),
            envelope(RegisterMsg::Put { value: 7 }),
            envelope(RegisterMsg::Respond { value: 1 }),
            envelope(RegisterMsg::Get),
            envelope(RegisterMsg::Respond { value: 3 }),
            envelope(RegisterMsg::Internal(())),
        ],
    };
    assert_eq!(response_values(&snapshot), vec![1, 3]);
}

#[test]
fn response_values_of_quiet_network_is_empty() {
    let snapshot: ActorSystemSnapshot<RegisterMsg<u64, ()>, RegisterState<u64>> = ActorSystemSnapshot {
        actor_states: vec![],
        network: vec![envelope(RegisterMsg::Put { value: 7 }), envelope(RegisterMsg::Get)],
    };
    assert!(response_values(&snapshot).is_empty());
}

#[test]
fn response_values_keeps_extremes() {
    let snapshot: ActorSystemSnapshot<RegisterMsg<u64, ()>, RegisterState<u64>> = ActorSystemSnapshot {
        actor_states: vec![],
        network: vec![
            envelope(RegisterMsg::Respond { value: u64::MAX }),
            envelope(RegisterMsg::Respond { value: 0 }),
            envelope(RegisterMsg::Respond { value: 5 }),
            envelope(RegisterMsg::Respond { value: u64::MAX }),
        ],
    };
    assert_eq!(response_values(&snapshot), vec![0, 5, u64::MAX]);
}
