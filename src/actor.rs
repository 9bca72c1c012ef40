//! The capability that every participant of an actor system offers, and the snapshot of a
//! running system that observations read.

use vstd::prelude::*;

verus! {

/// What a participant hands back when it starts or takes a transition: its new state and
/// the messages it sends, each with its destination.
pub struct ActorResult<Id, Msg, State> {
    pub state: State,
    pub outputs: Vec<(Id, Msg)>,
}

impl<Id, Msg, State> ActorResult<Id, Msg, State> {
    /// The state and the messages sent, as a pair of plain values.
    pub open spec fn model(self) -> (State, Seq<(Id, Msg)>) {
        (self.state, self.outputs@)
    }
}

/// The model of what `advance` returned.
pub open spec fn result_model<Id, Msg, State>(r: Option<ActorResult<Id, Msg, State>>) -> Option<
    (State, Seq<(Id, Msg)>),
> {
    match r {
        Some(a) => Some(a.model()),
        None => None,
    }
}

/// An input to a participant: a message delivered from `src`.
pub enum ActorInput<Id, Msg> {
    Deliver { src: Id, msg: Msg },
}

/// A participant of an actor system. `start_spec` and `advance_spec` say which results the
/// participant may produce; `None` from `advance` means the input triggers no transition.
pub trait Actor<Id>: Sized {
    type Msg;

    type State;

    /// Whether `state` and `outputs` are a possible start. A participant that states
    /// nothing admits every start.
    open spec fn start_spec(&self, state: Self::State, outputs: Seq<(Id, Self::Msg)>) -> bool {
        true
    }

    /// Whether `result` is a possible answer to `input` in `state`. A participant that
    /// states nothing admits every answer.
    open spec fn advance_spec(
        &self,
        state: Self::State,
        input: ActorInput<Id, Self::Msg>,
        result: Option<(Self::State, Seq<(Id, Self::Msg)>)>,
    ) -> bool {
        true
    }

    fn start(&self) -> (r: ActorResult<Id, Self::Msg, Self::State>)
        ensures
            self.start_spec(r.state, r.outputs@),
    ;

    fn advance(&self, state: &Self::State, input: ActorInput<Id, Self::Msg>) -> (r: Option<
        ActorResult<Id, Self::Msg, Self::State>,
    >)
        ensures
            self.advance_spec(*state, input, result_model(r)),
    ;
}

/// A message in flight, with its source and destination.
#[derive(Clone, Debug, PartialEq, Eq, Hash, PartialOrd, Ord)]
pub struct Envelope<Msg> {
    pub src: usize,
    pub dst: usize,
    pub msg: Msg,
}

/// A snapshot of an actor system: the state of each participant and the messages in the
/// network.
#[derive(Clone, Debug, PartialEq, Eq, Hash, PartialOrd, Ord)]
pub struct ActorSystemSnapshot<Msg, State> {
    pub actor_states: Vec<State>,
    pub network: Vec<Envelope<Msg>>,
}

} // verus!
