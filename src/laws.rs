use vstd::prelude::*;

use crate::bridge::{
    command_call, consistent, drain_step, label_index, pending_index, receive_step, step,
    unknown_command_message, ActionModel, BridgeModel, DispatchModel, EventModel, LoopState,
};
use crate::correlation::is_pending;
use crate::ipc::{data_detail, dispatch_script, error_detail, outcome_detail, EnvelopeKind, EnvelopeView, OutcomeModel};
use crate::registry::{has_id, has_label};
use crate::value::ValueModel;

verus! {

proof fn lemma_reply_after_request(m: BridgeModel, window: u64, id: Seq<char>, outcome: OutcomeModel)
    requires
        consistent(m),
        m.state == LoopState::Running,
        has_id(m.windows, window),
        !is_pending(m.pending, id),
    ensures
        ({
            let m1 = BridgeModel { pending: m.pending.push((id, window)), ..m };
            let (m2, a) = step(m1, EventModel::ResponseReady(id, outcome));
            &&& a == seq![ActionModel::Evaluate(window, dispatch_script(id, outcome_detail(outcome)))]
            &&& m2 == m
        }),
{
    let m1 = BridgeModel { pending: m.pending.push((id, window)), ..m };
    let last = m.pending.len() as int;
    assert(m1.pending[last].0 == id);
    assert(is_pending(m1.pending, id));
    let i = pending_index(m1.pending, id);
    if i != last {
        assert(m.pending[i].0 == id);
    }
    assert(m1.pending.remove(last) =~= m.pending);
}

/// A request for a registered command, sent by an open window, resolves its
/// correlation exactly once: the handler is called, the first reply for that
/// identifier reaches the window that asked and only it, and any later reply
/// for the same identifier reaches no window.
pub proof fn lemma_request_resolves_once(
    m: BridgeModel,
    window: u64,
    env: EnvelopeView,
    first: OutcomeModel,
    second: OutcomeModel,
)
    requires
        consistent(m),
        m.state == LoopState::Running,
        has_id(m.windows, window),
        env.kind == EnvelopeKind::Request,
        env.correlation_id is Some,
        !is_pending(m.pending, env.correlation_id->0),
        m.commands.contains_key(env.command),
    ensures
        ({
            let id = env.correlation_id->0;
            let (m1, d) = receive_step(m, window, env);
            let (m2, a1) = step(m1, EventModel::ResponseReady(id, first));
            let (m3, a2) = step(m2, EventModel::ResponseReady(id, second));
            &&& d == DispatchModel::InvokeCommand(
                m.commands[env.command],
                id,
                command_call(env.command, env.args),
            )
            &&& a1 == seq![ActionModel::Evaluate(window, dispatch_script(id, outcome_detail(first)))]
            &&& !is_pending(m2.pending, id)
            &&& a2.len() == 0
        }),
{
    lemma_reply_after_request(m, window, env.correlation_id->0, first);
}

/// A request for a command that nobody registered is not left hanging: it is
/// resolved with an `UnknownCommand` error, which reaches the window that
/// asked, once.
pub proof fn lemma_unknown_command_resolves(m: BridgeModel, window: u64, env: EnvelopeView, later: OutcomeModel)
    requires
        consistent(m),
        m.state == LoopState::Running,
        has_id(m.windows, window),
        env.kind == EnvelopeKind::Request,
        env.correlation_id is Some,
        !is_pending(m.pending, env.correlation_id->0),
        !m.commands.contains_key(env.command),
    ensures
        ({
            let id = env.correlation_id->0;
            let message = unknown_command_message(env.command);
            let (m1, d) = receive_step(m, window, env);
            let (m2, a1) = step(m1, EventModel::ResponseReady(id, OutcomeModel::Failure(message)));
            let (m3, a2) = step(m2, EventModel::ResponseReady(id, later));
            &&& d == DispatchModel::Resolve(id, OutcomeModel::Failure(message))
            &&& a1 == seq![ActionModel::Evaluate(window, dispatch_script(id, error_detail(message)))]
            &&& a2.len() == 0
        }),
{
    let id = env.correlation_id->0;
    lemma_reply_after_request(m, window, id, OutcomeModel::Failure(unknown_command_message(env.command)));
}

/// A broadcast delivers the same script to every open window, in registry
/// order, once each, and changes nothing else.
pub proof fn lemma_broadcast_reaches_every_open_window(m: BridgeModel, name: Seq<char>, payload: ValueModel)
    requires
        consistent(m),
        m.state == LoopState::Running,
    ensures
        ({
            let (m1, a) = step(m, EventModel::EmitEvent(name, payload));
            &&& m1 == m
            &&& a.len() == m.windows.len()
            &&& forall|i: int|
                0 <= i < a.len() ==> #[trigger] a[i] == ActionModel::Evaluate(
                    m.windows[i].0,
                    dispatch_script(name, data_detail(payload)),
                )
        }),
{
}

/// Once a window has closed, no later broadcast reaches it.
pub proof fn lemma_closed_window_gets_no_broadcast(
    m: BridgeModel,
    label: Seq<char>,
    name: Seq<char>,
    payload: ValueModel,
)
    requires
        consistent(m),
        m.state == LoopState::Running,
        has_label(m.windows, label),
    ensures
        ({
            let w = m.windows[label_index(m.windows, label)].0;
            let (m1, _) = step(m, EventModel::CloseWindow(label));
            let (_, a) = step(m1, EventModel::EmitEvent(name, payload));
            forall|i: int| 0 <= i < a.len() ==> #[trigger] a[i] != ActionModel::Evaluate(
                w,
                dispatch_script(name, data_detail(payload)),
            )
        }),
{
    let k = label_index(m.windows, label);
    let w = m.windows[k].0;
    let (m1, _) = step(m, EventModel::CloseWindow(label));
    if m1.state == LoopState::Running {
        let (_, a) = step(m1, EventModel::EmitEvent(name, payload));
        assert forall|i: int| 0 <= i < a.len() implies #[trigger] a[i] != ActionModel::Evaluate(
            w,
            dispatch_script(name, data_detail(payload)),
        ) by {
            if i < k {
                assert(m1.windows[i] == m.windows[i]);
            } else {
                assert(m1.windows[i] == m.windows[i + 1]);
            }
        }
    }
}

/// Closing the last open window drains the loop, and draining stops it;
/// closing any other window leaves the loop running.
pub proof fn lemma_last_close_stops(m: BridgeModel, label: Seq<char>)
    requires
        consistent(m),
        m.state == LoopState::Running,
        has_label(m.windows, label),
    ensures
        ({
            let (m1, _) = step(m, EventModel::CloseWindow(label));
            &&& m.windows.len() == 1 ==> m1.state == LoopState::Draining && drain_step(m1).0.state
                == LoopState::Stopped
            &&& m.windows.len() > 1 ==> m1.state == LoopState::Running
            &&& m1.windows.len() == m.windows.len() - 1
        }),
{
}

} // verus!
