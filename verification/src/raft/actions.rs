//! What a node asks its runtime to do after it handled an event.

use crate::raft::messages::{
    AppMsg, BroadcastMsg, Crash, LogRequest, LogRequestView, NodeId, Payload,
    ReplicateLog, VoteRequest,
};
use vstd::prelude::*;

verus! {

/// One request to the runtime: send a message to a node, queue a message for
/// this node itself, or hand a committed command to the application.
#[derive(Debug, Clone)]
pub enum Action {
    /// Send a vote request to a node.
    SendVoteRequest { to: NodeId, vote: VoteRequest },
    /// Send a log request to a follower.
    SendLogRequest { to: NodeId, request: LogRequest },
    /// Pass a client command on to the node believed to lead.
    ForwardBroadcast { to: NodeId, msg: BroadcastMsg },
    /// Queue a `ReplicateLog` for this node.
    ReplicateLog(ReplicateLog),
    /// Queue a `Crash` for this node.
    Crash(Crash),
    /// Hand a committed command to the application.
    Deliver(AppMsg),
}

/// The content of an action, with the entries of a log request as a sequence.
pub enum ActionView {
    SendVoteRequest { to: NodeId, vote: VoteRequest },
    SendLogRequest { to: NodeId, request: LogRequestView },
    ForwardBroadcast { to: NodeId, msg: BroadcastMsg },
    ReplicateLog(ReplicateLog),
    Crash,
    Deliver(Payload),
}

impl View for Action {
    type V = ActionView;

    open spec fn view(&self) -> ActionView {
        match self {
            Action::SendVoteRequest { to, vote } => ActionView::SendVoteRequest { to: *to, vote: *vote },
            Action::SendLogRequest { to, request } => ActionView::SendLogRequest { to: *to, request: request@ },
            Action::ForwardBroadcast { to, msg } => ActionView::ForwardBroadcast { to: *to, msg: *msg },
            Action::ReplicateLog(r) => ActionView::ReplicateLog(*r),
            Action::Crash(_) => ActionView::Crash,
            Action::Deliver(m) => ActionView::Deliver(m.data),
        }
    }
}

/// The contents of a list of actions, in order.
pub open spec fn actions_view(actions: Seq<Action>) -> Seq<ActionView> {
    actions.map_values(|a: Action| a@)
}

/// Appending an action appends its content.
pub proof fn lemma_actions_view_push(actions: Seq<Action>, a: Action)
    ensures
        actions_view(actions.push(a)) == actions_view(actions).push(a@),
{
    assert(actions_view(actions.push(a)) =~= actions_view(actions).push(a@));
}

} // verus!
