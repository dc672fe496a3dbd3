//! One connection: what to do after each read from the client or the server.
use vstd::prelude::*;

use crate::handler::{
    entries_after, may_end_in, request_of, resume_server_to_client, server_step,
    transform_client_to_server, transform_server_to_client, DecisionView, OutcomeView,
    ReplayRecord, ServerStep, StepView, TransformDecision,
};
use crate::state::AppState;
use crate::utils::parser::{operation_views, AerospikeKey, AerospikeOperation, Fatal};

verus! {

/// The two ends of a connection.
#[derive(Debug, Clone, Copy, PartialEq, Eq, Structural)]
pub enum Side {
    Client,
    Server,
}

impl Side {
    /// The other end.
    pub open spec fn peer(self) -> Side {
        match self {
            Side::Client => Side::Server,
            Side::Server => Side::Client,
        }
    }
}

/// What is to be done on a connection.
#[derive(Debug)]
pub enum Action {
    /// Send these bytes to one end.
    Send { to: Side, bytes: Vec<u8> },
    /// Send nothing.
    Skip,
    /// Tell one end that nothing more will come, and stop reading.
    Shutdown { end: Side },
}

/// An action over byte sequences.
pub enum ActionView {
    Send { to: Side, bytes: Seq<u8> },
    Skip,
    Shutdown { end: Side },
}

impl View for Action {
    type V = ActionView;

    open spec fn view(&self) -> ActionView {
        match *self {
            Action::Send { to, bytes } => ActionView::Send { to, bytes: bytes@ },
            Action::Skip => ActionView::Skip,
            Action::Shutdown { end } => ActionView::Shutdown { end },
        }
    }
}

/// What a decision on bytes from `origin` comes to: forwarded bytes go to the
/// other end, a response goes back.
pub open spec fn routed(origin: Side, decision: DecisionView) -> ActionView {
    match decision {
        DecisionView::Forward(bytes) => ActionView::Send { to: origin.peer(), bytes },
        DecisionView::Drop => ActionView::Skip,
        DecisionView::Respond(bytes) => ActionView::Send { to: origin, bytes },
    }
}

/// What a decision on bytes from `origin` comes to.
pub fn route(origin: Side, decision: TransformDecision) -> (r: Action)
    ensures
        r@ == routed(origin, decision@),
{
    let peer = match origin {
        Side::Client => Side::Server,
        Side::Server => Side::Client,
    };
    match decision {
        TransformDecision::Forward(bytes) => Action::Send { to: peer, bytes },
        TransformDecision::Drop => Action::Skip,
        TransformDecision::Respond(bytes) => Action::Send { to: origin, bytes },
    }
}

/// What follows a read from the client: an action, and the key to queue for
/// the answer of the server, if there is one.
#[derive(Debug)]
pub struct ClientStep {
    pub action: Action,
    pub announce: Option<AerospikeKey>,
}

/// Whether `r` is what `outcome` comes to on the connection.
pub open spec fn client_step_matches(
    outcome: Result<OutcomeView, Fatal>,
    r: Result<ClientStep, Fatal>,
) -> bool {
    match outcome {
        Ok(o) => r matches Ok(step) && step.action@ == routed(Side::Client, o.decision)
            && AerospikeKey::opt_view(step.announce) == o.announce,
        Err(f) => r == Err::<ClientStep, Fatal>(f),
    }
}

/// Goes on after a read from the client. An empty read is the end of what the
/// client sends: the server is told so.
pub fn after_client_read(chunk: Vec<u8>, state: &mut AppState) -> (r: Result<ClientStep, Fatal>)
    requires
        old(state).wf(),
    ensures
        final(state).wf(),
        final(state).config == old(state).config,
        final(state).diff_map.capacity() == old(state).diff_map.capacity(),
        final(state).diff_map@ == entries_after(
            old(state).config,
            old(state).diff_map@,
            old(state).diff_map.capacity(),
            request_of(old(state).config, chunk@),
        ),
        chunk@.len() == 0 ==> {
            &&& r matches Ok(step)
            &&& step.action@ == ActionView::Shutdown { end: Side::Server }
            &&& step.announce is None
        },
        chunk@.len() > 0 ==> exists|outcome: Result<OutcomeView, Fatal>|
            {
                &&& #[trigger] may_end_in(
                    old(state).diff_map@,
                    chunk@,
                    request_of(old(state).config, chunk@),
                    outcome,
                )
                &&& client_step_matches(outcome, r)
            },
{
    if chunk.len() == 0 {
        return Ok(ClientStep { action: Action::Shutdown { end: Side::Server }, announce: None });
    }
    match transform_client_to_server(chunk, state) {
        Ok(o) => {
            let ghost outcome = o@;
            let r = Ok(
                ClientStep { action: route(Side::Client, o.decision), announce: o.announce },
            );
            assert(client_step_matches(Ok(outcome), r));
            r
        },
        Err(f) => {
            assert(client_step_matches(Err(f), Err(f)));
            Err(f)
        },
    }
}

/// What follows a read from the server.
#[derive(Debug)]
pub enum ServerNext {
    /// This is to be done.
    Act(Action),
    /// The key that was queued for the request is to be fetched first.
    AwaitKey { bytes: Vec<u8>, operations: Vec<AerospikeOperation> },
}

/// Goes on after a read from the server. An empty read is the end of what the
/// server sends: the client is told so.
pub fn after_server_read(chunk: Vec<u8>, state: &AppState) -> (r: Result<ServerNext, Fatal>)
    ensures
        chunk@.len() == 0 ==> {
            &&& r matches Ok(ServerNext::Act(action))
            &&& action@ == ActionView::Shutdown { end: Side::Client }
        },
        chunk@.len() > 0 ==> match server_step(state.config, chunk@) {
            Err(f) => r == Err::<ServerNext, Fatal>(f),
            Ok(StepView::Done(d)) => r matches Ok(ServerNext::Act(action)) && action@ == routed(
                Side::Server,
                d,
            ),
            Ok(StepView::AwaitKey { bytes, operations }) => r matches Ok(
                ServerNext::AwaitKey { bytes: b, operations: o },
            ) && b@ == bytes && operation_views(o@) == operations,
        },
{
    if chunk.len() == 0 {
        return Ok(ServerNext::Act(Action::Shutdown { end: Side::Client }));
    }
    match transform_server_to_client(chunk, state) {
        Err(f) => Err(f),
        Ok(ServerStep::Done(decision)) => Ok(ServerNext::Act(route(Side::Server, decision))),
        Ok(ServerStep::AwaitKey { bytes, operations }) => Ok(
            ServerNext::AwaitKey { bytes, operations },
        ),
    }
}

/// Goes on once the queued key was fetched, or there is none: the bytes go to
/// the client, and with a key there is a record to publish.
pub fn after_key(
    bytes: Vec<u8>,
    operations: Vec<AerospikeOperation>,
    key: Option<AerospikeKey>,
) -> (r: (Action, Option<ReplayRecord>))
    ensures
        r.0@ == (ActionView::Send { to: Side::Client, bytes: bytes@ }),
        match key {
            Some(k) => r.1 == Some(ReplayRecord { key: k, operations }),
            None => r.1 is None,
        },
{
    let (decision, record) = resume_server_to_client(bytes, operations, key);
    (route(Side::Server, decision), record)
}

} // verus!
