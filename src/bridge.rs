use vstd::prelude::*;

use crate::correlation::{distinct_requests, is_pending, not_from, PendingTable};
use crate::dispatch::{lookup, DispatchTable};
use crate::config::opt_view;
use crate::ipc::{
    decode_message, decoded_text, get_member, member_of,
    data_detail, decode_envelope, decoded, dispatch_script, event_script, outcome_detail,
    response_script, EnvelopeKind, EnvelopeView, IpcEnvelope, Outcome, OutcomeModel,
    ProtocolError,
};
use crate::registry::{distinct_windows, has_id, has_label, Registry};
use crate::text::{nat_text, push_nat};
use crate::value::{lemma_member_views_of, StructuredValue, ValueModel};
use vstd::string::StringExecFns;

verus! {

/// Where the event loop stands.
#[derive(Clone, Copy, PartialEq, Eq, Structural, Debug)]
pub enum LoopState {
    /// Windows are being created.
    Starting,
    /// Events are being served.
    Running,
    /// The loop is ending; the host is about to be told.
    Draining,
    /// The loop has ended.
    Stopped,
}

/// A partial update of a window's attributes; each field left `None` stays
/// as it is.
pub struct WindowPatch {
    /// New inner size, width then height, in logical pixels.
    pub size: Option<(u32, u32)>,
    pub visible: Option<bool>,
    /// Navigate the surface to this URL.
    pub url: Option<String>,
    /// Load this markup into the surface.
    pub html: Option<String>,
    /// Evaluate this script in the surface.
    pub script: Option<String>,
    /// Open (`true`) or close (`false`) the developer tools.
    pub devtools: Option<bool>,
    /// Clear all stored browsing data when `true`.
    pub clear: Option<bool>,
    /// Give the surface focus when `true`.
    pub focus: Option<bool>,
}

/// What is posted to the event loop; only the loop consumes it.
pub enum InternalEvent {
    /// A command finished: deliver its outcome to the window that asked.
    ResponseReady { correlation_id: String, outcome: Outcome },
    /// Deliver an event to every open window.
    EmitEvent { name: String, payload: StructuredValue },
    /// Close the window with this label.
    CloseWindow { label: String },
    /// Apply a patch to the window with this label.
    UpdateWindow { label: String, patch: WindowPatch },
    /// End the loop, whatever windows remain.
    ExitAll,
}

pub enum EventModel {
    ResponseReady(Seq<char>, OutcomeModel),
    EmitEvent(Seq<char>, ValueModel),
    CloseWindow(Seq<char>),
    UpdateWindow(Seq<char>, WindowPatch),
    ExitAll,
}

impl View for InternalEvent {
    type V = EventModel;

    open spec fn view(&self) -> EventModel {
        match self {
            InternalEvent::ResponseReady { correlation_id, outcome } => EventModel::ResponseReady(
                correlation_id@,
                outcome@,
            ),
            InternalEvent::EmitEvent { name, payload } => EventModel::EmitEvent(name@, payload@),
            InternalEvent::CloseWindow { label } => EventModel::CloseWindow(label@),
            InternalEvent::UpdateWindow { label, patch } => EventModel::UpdateWindow(
                label@,
                *patch,
            ),
            InternalEvent::ExitAll => EventModel::ExitAll,
        }
    }
}

/// What the loop asks its host side to do, in order.
pub enum Action {
    /// Run `script` in the surface of `window`.
    Evaluate { window: u64, script: String },
    /// Apply `patch` to `window`.
    Apply { window: u64, patch: WindowPatch },
    /// Release `window` and its surface, then tell the host that `label` closed.
    Close { window: u64, label: String },
    /// Tell the host that the loop has ended.
    Exit,
}

pub enum ActionModel {
    Evaluate(u64, Seq<char>),
    Apply(u64, WindowPatch),
    Close(u64, Seq<char>),
    Exit,
}

impl View for Action {
    type V = ActionModel;

    open spec fn view(&self) -> ActionModel {
        match self {
            Action::Evaluate { window, script } => ActionModel::Evaluate(*window, script@),
            Action::Apply { window, patch } => ActionModel::Apply(*window, *patch),
            Action::Close { window, label } => ActionModel::Close(*window, label@),
            Action::Exit => ActionModel::Exit,
        }
    }
}

pub open spec fn actions_view(actions: Seq<Action>) -> Seq<ActionModel> {
    actions.map_values(|a: Action| a@)
}

/// What to do with an inbound message, decided under the bridge's lock and
/// carried out after it is released.
pub enum Dispatch {
    /// Call command handler `handler` with `call`, then post its outcome as
    /// `ResponseReady` for `correlation_id`.
    InvokeCommand { handler: u64, correlation_id: String, call: StructuredValue },
    /// Call event listener `handler` with `call`; nothing is sent back.
    InvokeListener { handler: u64, call: StructuredValue },
    /// Post `ResponseReady` for `correlation_id` with `outcome` right away.
    Resolve { correlation_id: String, outcome: Outcome },
    /// Nothing to do.
    Ignore,
}

pub enum DispatchModel {
    InvokeCommand(u64, Seq<char>, ValueModel),
    InvokeListener(u64, ValueModel),
    Resolve(Seq<char>, OutcomeModel),
    Ignore,
}

impl View for Dispatch {
    type V = DispatchModel;

    open spec fn view(&self) -> DispatchModel {
        match self {
            Dispatch::InvokeCommand { handler, correlation_id, call } => DispatchModel::InvokeCommand(
                *handler,
                correlation_id@,
                call@,
            ),
            Dispatch::InvokeListener { handler, call } => DispatchModel::InvokeListener(
                *handler,
                call@,
            ),
            Dispatch::Resolve { correlation_id, outcome } => DispatchModel::Resolve(
                correlation_id@,
                outcome@,
            ),
            Dispatch::Ignore => DispatchModel::Ignore,
        }
    }
}

/// Why a window could not be opened.
#[derive(Clone, Copy, PartialEq, Eq, Structural, Debug)]
pub enum OpenError {
    /// Another open window already has this label.
    DuplicateLabel,
    /// The loop is draining or has stopped.
    LoopEnded,
    /// Every window identity has been used.
    TooManyWindows,
}

pub struct BridgeModel {
    pub state: LoopState,
    /// The open windows, identity and label, in creation order.
    pub windows: Seq<(u64, Seq<char>)>,
    pub commands: Map<Seq<char>, u64>,
    pub listeners: Map<Seq<char>, u64>,
    /// Outstanding requests, correlation identifier and sending window.
    pub pending: Seq<(Seq<char>, u64)>,
    /// How many windows have been opened so far.
    pub opened: nat,
}

/// The state that every operation of the bridge keeps.
pub open spec fn consistent(m: BridgeModel) -> bool {
    &&& distinct_windows(m.windows)
    &&& distinct_requests(m.pending)
    &&& forall|i: int| 0 <= i < m.windows.len() ==> (#[trigger] m.windows[i]).0 < m.opened
    &&& forall|i: int| 0 <= i < m.pending.len() ==> has_id(m.windows, (#[trigger] m.pending[i]).1)
    &&& m.opened <= u64::MAX
}

pub open spec fn label_index(windows: Seq<(u64, Seq<char>)>, label: Seq<char>) -> int {
    choose|i: int| 0 <= i < windows.len() && windows[i].1 == label
}

pub open spec fn id_index(windows: Seq<(u64, Seq<char>)>, id: u64) -> int {
    choose|i: int| 0 <= i < windows.len() && windows[i].0 == id
}

pub open spec fn pending_index(pending: Seq<(Seq<char>, u64)>, id: Seq<char>) -> int {
    choose|i: int| 0 <= i < pending.len() && pending[i].0 == id
}

/// The label given to a window opened without one, `n` being its 1-based
/// creation count.
pub open spec fn default_label(n: nat) -> Seq<char> {
    "Window "@ + nat_text(n)
}

/// The error message of a request for a command nobody registered.
pub open spec fn unknown_command_message(command: Seq<char>) -> Seq<char> {
    "UnknownCommand: "@ + command
}

/// The argument of a listener: `{"event": <name>, "args": <args>}`.
pub open spec fn event_call(name: Seq<char>, args: ValueModel) -> ValueModel {
    ValueModel::Object(seq![("event"@, ValueModel::Str(name)), ("args"@, args)])
}

/// The argument of a command handler: `{"command": <name>, "args": <args>}`.
pub open spec fn command_call(name: Seq<char>, args: ValueModel) -> ValueModel {
    ValueModel::Object(seq![("command"@, ValueModel::Str(name)), ("args"@, args)])
}

/// The broadcast of event `name` to each window in `windows`.
pub open spec fn broadcast(windows: Seq<(u64, Seq<char>)>, script: Seq<char>) -> Seq<ActionModel> {
    windows.map_values(|w: (u64, Seq<char>)| ActionModel::Evaluate(w.0, script))
}

/// The closing of each window in `windows`.
pub open spec fn close_all(windows: Seq<(u64, Seq<char>)>) -> Seq<ActionModel> {
    windows.map_values(|w: (u64, Seq<char>)| ActionModel::Close(w.0, w.1))
}

/// How the loop serves one event: the next state, and what the host side must do.
pub open spec fn step(m: BridgeModel, e: EventModel) -> (BridgeModel, Seq<ActionModel>) {
    if m.state != LoopState::Running {
        (m, Seq::empty())
    } else {
        match e {
            EventModel::ResponseReady(id, outcome) => {
                if is_pending(m.pending, id) {
                    let i = pending_index(m.pending, id);
                    let w = m.pending[i].1;
                    let next = BridgeModel { pending: m.pending.remove(i), ..m };
                    if has_id(m.windows, w) {
                        (next, seq![ActionModel::Evaluate(w, dispatch_script(id, outcome_detail(outcome)))])
                    } else {
                        (next, Seq::empty())
                    }
                } else {
                    (m, Seq::empty())
                }
            },
            EventModel::EmitEvent(name, payload) => (
                m,
                broadcast(m.windows, dispatch_script(name, data_detail(payload))),
            ),
            EventModel::CloseWindow(label) => close_step(m, label),
            EventModel::UpdateWindow(label, patch) => {
                if has_label(m.windows, label) {
                    (m, seq![ActionModel::Apply(m.windows[label_index(m.windows, label)].0, patch)])
                } else {
                    (m, Seq::empty())
                }
            },
            EventModel::ExitAll => (BridgeModel { state: LoopState::Draining, ..m }, Seq::empty()),
        }
    }
}

/// Closing the window labelled `label`: it leaves the registry, its requests
/// are dropped undelivered, and the loop drains once no window is left.
pub open spec fn close_step(m: BridgeModel, label: Seq<char>) -> (BridgeModel, Seq<ActionModel>) {
    if has_label(m.windows, label) {
        let i = label_index(m.windows, label);
        let w = m.windows[i].0;
        let rest = m.windows.remove(i);
        (
            BridgeModel {
                state: if rest.len() == 0 {
                    LoopState::Draining
                } else {
                    LoopState::Running
                },
                windows: rest,
                pending: m.pending.filter(not_from(w)),
                ..m
            },
            seq![ActionModel::Close(w, label)],
        )
    } else {
        (m, Seq::empty())
    }
}

/// Ending the loop: every remaining window closes, in order, then the host
/// hears that the loop ended.
pub open spec fn drain_step(m: BridgeModel) -> (BridgeModel, Seq<ActionModel>) {
    if m.state == LoopState::Draining {
        (
            BridgeModel {
                state: LoopState::Stopped,
                windows: Seq::empty(),
                pending: Seq::empty(),
                ..m
            },
            close_all(m.windows).push(ActionModel::Exit),
        )
    } else {
        (m, Seq::empty())
    }
}

/// How the bridge answers a decoded message from `window`: nothing unless the
/// loop runs and the window is open; an event goes to its listener, if any; a
/// request is recorded as outstanding and goes to its command handler, or is
/// resolved at once with an `UnknownCommand` error. A request whose
/// identifier is already outstanding is ignored, so that each identifier is
/// resolved once.
pub open spec fn receive_step(m: BridgeModel, window: u64, env: EnvelopeView) -> (
    BridgeModel,
    DispatchModel,
) {
    if m.state != LoopState::Running || !has_id(m.windows, window) {
        (m, DispatchModel::Ignore)
    } else {
        match env.kind {
            EnvelopeKind::Event => match lookup(m.listeners, env.command) {
                Some(h) => (m, DispatchModel::InvokeListener(h, event_call(env.command, env.args))),
                None => (m, DispatchModel::Ignore),
            },
            EnvelopeKind::Request => match env.correlation_id {
                None => (m, DispatchModel::Ignore),
                Some(id) => {
                    if is_pending(m.pending, id) {
                        (m, DispatchModel::Ignore)
                    } else {
                        let next = BridgeModel { pending: m.pending.push((id, window)), ..m };
                        match lookup(m.commands, env.command) {
                            Some(h) => (
                                next,
                                DispatchModel::InvokeCommand(h, id, command_call(env.command, env.args)),
                            ),
                            None => (
                                next,
                                DispatchModel::Resolve(
                                    id,
                                    OutcomeModel::Failure(unknown_command_message(env.command)),
                                ),
                            ),
                        }
                    }
                },
            },
        }
    }
}

/// The bridge: window registry, dispatch table, outstanding requests and the
/// state of the event loop.
pub struct Bridge {
    state: LoopState,
    windows: Registry,
    table: DispatchTable,
    pending: PendingTable,
    opened: u64,
}

impl View for Bridge {
    type V = BridgeModel;

    closed spec fn view(&self) -> BridgeModel {
        BridgeModel {
            state: self.state,
            windows: self.windows@,
            commands: self.table.commands(),
            listeners: self.table.listeners(),
            pending: self.pending@,
            opened: self.opened as nat,
        }
    }
}

impl Bridge {
    pub closed spec fn wf(&self) -> bool {
        self.windows.wf() && self.pending.wf() && consistent(self@)
    }

    /// A bridge with no window and no handler, about to start.
    pub fn new() -> (r: Bridge)
        ensures
            r.wf(),
            r@.state == LoopState::Starting,
            r@.windows.len() == 0,
            r@.pending.len() == 0,
            r@.commands == Map::<Seq<char>, u64>::empty(),
            r@.listeners == Map::<Seq<char>, u64>::empty(),
            r@.opened == 0,
    {
        Bridge {
            state: LoopState::Starting,
            windows: Registry::new(),
            table: DispatchTable::new(),
            pending: PendingTable::new(),
            opened: 0,
        }
    }

    /// Where the loop stands.
    pub fn state(&self) -> (r: LoopState)
        ensures
            r == self@.state,
    {
        self.state
    }

    /// How many windows are open.
    pub fn window_count(&self) -> (r: usize)
        ensures
            r == self@.windows.len(),
    {
        self.windows.count()
    }

    /// The identity of the window labelled `label`.
    pub fn window_id(&self, label: &str) -> (r: Option<u64>)
        requires
            self.wf(),
        ensures
            match r {
                Some(id) => has_label(self@.windows, label@) && id == self@.windows[label_index(
                    self@.windows,
                    label@,
                )].0,
                None => !has_label(self@.windows, label@),
            },
    {
        match self.windows.position(label) {
            Some(i) => Some(self.windows.entry(i).id),
            None => None,
        }
    }

    /// The label of the window with identity `id`.
    pub fn window_label(&self, id: u64) -> (r: Option<String>)
        requires
            self.wf(),
        ensures
            match r {
                Some(l) => has_id(self@.windows, id) && l@ == self@.windows[id_index(
                    self@.windows,
                    id,
                )].1,
                None => !has_id(self@.windows, id),
            },
    {
        match self.windows.position_of_id(id) {
            Some(i) => Some(self.windows.entry(i).label.clone()),
            None => None,
        }
    }

    /// Registers `handler` for the command `name`; a later registration of the
    /// same name replaces it.
    pub fn register_command(&mut self, name: String, handler: u64)
        requires
            old(self).wf(),
        ensures
            final(self).wf(),
            final(self)@ == (BridgeModel {
                commands: old(self)@.commands.insert(name@, handler),
                ..old(self)@
            }),
    {
        self.table.register_command(name, handler);
    }

    /// Registers `handler` for the event `name`; a later registration of the
    /// same name replaces it.
    pub fn register_listener(&mut self, name: String, handler: u64)
        requires
            old(self).wf(),
        ensures
            final(self).wf(),
            final(self)@ == (BridgeModel {
                listeners: old(self)@.listeners.insert(name@, handler),
                ..old(self)@
            }),
    {
        self.table.register_listener(name, handler);
    }
}

impl Bridge {
    /// Opens a window labelled `label`, or `"Window <n>"` when no label is
    /// given, `n` being its 1-based creation count; returns its identity.
    /// A label already in use is refused and nothing changes.
    pub fn open_window(&mut self, label: Option<String>) -> (r: Result<u64, OpenError>)
        requires
            old(self).wf(),
        ensures
            final(self).wf(),
            ({
                let m = old(self)@;
                let l = match label {
                    Some(l) => l@,
                    None => default_label(m.opened + 1),
                };
                match r {
                    Ok(id) => {
                        &&& m.state == LoopState::Starting || m.state == LoopState::Running
                        &&& m.opened < u64::MAX
                        &&& !has_label(m.windows, l)
                        &&& id == m.opened
                        &&& final(self)@ == BridgeModel {
                            windows: m.windows.push((id, l)),
                            opened: m.opened + 1,
                            ..m
                        }
                    },
                    Err(e) => {
                        &&& final(self)@ == m
                        &&& e == if m.state != LoopState::Starting && m.state != LoopState::Running {
                            OpenError::LoopEnded
                        } else if m.opened == u64::MAX {
                            OpenError::TooManyWindows
                        } else {
                            OpenError::DuplicateLabel
                        }
                        &&& e == OpenError::DuplicateLabel ==> has_label(m.windows, l)
                    },
                }
            }),
    {
        if self.state != LoopState::Starting && self.state != LoopState::Running {
            return Err(OpenError::LoopEnded);
        }
        if self.opened == u64::MAX {
            return Err(OpenError::TooManyWindows);
        }
        let label = match label {
            Some(l) => l,
            None => {
                let mut l = String::from_str("Window ");
                push_nat(&mut l, self.opened + 1);
                l
            },
        };
        let id = self.opened;
        let ghost before = self@;
        match self.windows.register(id, label) {
            Ok(()) => {},
            Err(_) => {
                return Err(OpenError::DuplicateLabel);
            },
        }
        self.opened = self.opened + 1;
        proof {
            let m = self@;
            assert forall|i: int| 0 <= i < m.windows.len() implies (#[trigger] m.windows[i]).0
                < m.opened by {
                if i < before.windows.len() {
                    assert(m.windows[i] == before.windows[i]);
                }
            }
            assert forall|i: int| 0 <= i < m.pending.len() implies has_id(
                m.windows,
                (#[trigger] m.pending[i]).1,
            ) by {
                let j = choose|j: int|
                    0 <= j < before.windows.len() && before.windows[j].0 == m.pending[i].1;
                assert(m.windows[j] == before.windows[j]);
            }
        }
        Ok(id)
    }

    /// Enters `Running` once the configured windows exist.
    pub fn start(&mut self)
        requires
            old(self).wf(),
        ensures
            final(self).wf(),
            final(self)@ == if old(self)@.state == LoopState::Starting {
                BridgeModel { state: LoopState::Running, ..old(self)@ }
            } else {
                old(self)@
            },
    {
        if self.state == LoopState::Starting {
            self.state = LoopState::Running;
        }
    }

    /// The event that `close_window` posts: close the window labelled
    /// `label`, or end the loop when no label is given.
    pub fn close_event(label: Option<String>) -> (r: InternalEvent)
        ensures
            match label {
                Some(l) => r@ == EventModel::CloseWindow(l@),
                None => r@ == EventModel::ExitAll,
            },
    {
        match label {
            Some(l) => InternalEvent::CloseWindow { label: l },
            None => InternalEvent::ExitAll,
        }
    }
}

/// `{"<key>": <name>, "args": <args>}`.
fn make_call(key: &str, name: String, args: StructuredValue) -> (r: StructuredValue)
    ensures
        r@ == ValueModel::Object(seq![(key@, ValueModel::Str(name@)), ("args"@, args@)]),
{
    let members = vec![(String::from_str(key), StructuredValue::Str(name)), (String::from_str("args"), args)];
    proof {
        lemma_member_views_of(members@);
    }
    let r = StructuredValue::Object(members);
    proof {
        lemma_member_views_of(members@);
        assert(crate::value::member_views_of(members@) =~= seq![(key@, ValueModel::Str(name@)), ("args"@, args@)]);
    }
    r
}

impl Bridge {
    /// Serves one event of the loop; see [`step`].
    pub fn handle(&mut self, event: InternalEvent) -> (r: Vec<Action>)
        requires
            old(self).wf(),
        ensures
            final(self).wf(),
            (final(self)@, actions_view(r@)) == step(old(self)@, event@),
    {
        if self.state != LoopState::Running {
            let r: Vec<Action> = Vec::new();
            proof {
                assert(actions_view(r@) =~= Seq::<ActionModel>::empty());
            }
            return r;
        }
        match event {
            InternalEvent::ResponseReady { correlation_id, outcome } => self.respond(
                correlation_id,
                outcome,
            ),
            InternalEvent::EmitEvent { name, payload } => self.emit(name.as_str(), &payload),
            InternalEvent::CloseWindow { label } => self.close(label),
            InternalEvent::UpdateWindow { label, patch } => self.update(label.as_str(), patch),
            InternalEvent::ExitAll => {
                self.state = LoopState::Draining;
                let r: Vec<Action> = Vec::new();
                proof {
                    assert(actions_view(r@) =~= Seq::<ActionModel>::empty());
                }
                r
            },
        }
    }

    fn respond(&mut self, id: String, outcome: Outcome) -> (r: Vec<Action>)
        requires
            old(self).wf(),
            old(self)@.state == LoopState::Running,
        ensures
            final(self).wf(),
            (final(self)@, actions_view(r@)) == step(
                old(self)@,
                EventModel::ResponseReady(id@, outcome@),
            ),
    {
        let ghost m = self@;
        match self.pending.take(id.as_str()) {
            Some(w) => {
                proof {
                    let i = choose|i: int|
                        0 <= i < m.pending.len() && m.pending[i] == (id@, w) && self@.pending
                            == m.pending.remove(i);
                    let j = pending_index(m.pending, id@);
                    assert(0 <= j < m.pending.len() && m.pending[j].0 == id@);
                    assert(m.pending[i].0 == id@);
                    assert(distinct_requests(m.pending));
                    assert(i == j);
                    assert forall|k: int| 0 <= k < self@.pending.len() implies has_id(
                        self@.windows,
                        (#[trigger] self@.pending[k]).1,
                    ) by {
                        if k < i {
                            assert(self@.pending[k] == m.pending[k]);
                        } else {
                            assert(self@.pending[k] == m.pending[k + 1]);
                        }
                    }
                }
                let script = response_script(id.as_str(), &outcome);
                if self.windows.position_of_id(w).is_some() {
                    let r = vec![Action::Evaluate { window: w, script }];
                    proof {
                        assert(actions_view(r@) =~= seq![
                            ActionModel::Evaluate(w, dispatch_script(id@, outcome_detail(outcome@))),
                        ]);
                    }
                    r
                } else {
                    let r: Vec<Action> = Vec::new();
                    proof {
                        assert(actions_view(r@) =~= Seq::<ActionModel>::empty());
                    }
                    r
                }
            },
            None => {
                let r: Vec<Action> = Vec::new();
                proof {
                    assert(actions_view(r@) =~= Seq::<ActionModel>::empty());
                }
                r
            },
        }
    }

    fn emit(&self, name: &str, payload: &StructuredValue) -> (r: Vec<Action>)
        requires
            self.wf(),
        ensures
            actions_view(r@) == broadcast(self@.windows, dispatch_script(name@, data_detail(payload@))),
    {
        let script = event_script(name, payload);
        let ghost ws = self@.windows;
        let mut r: Vec<Action> = Vec::new();
        let mut i: usize = 0;
        while i < self.windows.count()
            invariant
                ws == self@.windows,
                i <= ws.len(),
                actions_view(r@) =~= broadcast(ws.subrange(0, i as int), script@),
            decreases ws.len() - i,
        {
            let w = self.windows.entry(i).id;
            r.push(Action::Evaluate { window: w, script: script.clone() });
            proof {
                assert(broadcast(ws.subrange(0, i + 1), script@) =~= broadcast(
                    ws.subrange(0, i as int),
                    script@,
                ).push(ActionModel::Evaluate(w, script@)));
            }
            i = i + 1;
        }
        proof {
            assert(ws.subrange(0, ws.len() as int) =~= ws);
        }
        r
    }

    fn close(&mut self, label: String) -> (r: Vec<Action>)
        requires
            old(self).wf(),
            old(self)@.state == LoopState::Running,
        ensures
            final(self).wf(),
            (final(self)@, actions_view(r@)) == close_step(old(self)@, label@),
    {
        let ghost m = self@;
        match self.windows.position(label.as_str()) {
            Some(i) => {
                proof {
                    let j = label_index(m.windows, label@);
                    assert(0 <= j < m.windows.len() && m.windows[j].1 == label@);
                    assert(i == j);
                }
                let e = self.windows.remove_at(i);
                let w = e.id;
                self.pending.discard_window(w);
                if self.windows.count() == 0 {
                    self.state = LoopState::Draining;
                }
                proof {
                    let n = self@;
                    let keep = not_from(w);
                    assert forall|k: int| 0 <= k < n.pending.len() implies has_id(
                        n.windows,
                        (#[trigger] n.pending[k]).1,
                    ) by {
                        m.pending.lemma_filter_pred(keep, k);
                        m.pending.lemma_filter_contains_rev(keep, n.pending[k]);
                        let p = choose|p: int| 0 <= p < m.pending.len() && m.pending[p] == n.pending[k];
                        assert(has_id(m.windows, m.pending[p].1));
                        let q = choose|q: int| 0 <= q < m.windows.len() && m.windows[q].0 == m.pending[p].1;
                        assert(q != i);
                        if q < i {
                            assert(n.windows[q] == m.windows[q]);
                        } else {
                            assert(n.windows[q - 1] == m.windows[q]);
                        }
                    }
                    assert forall|k: int| 0 <= k < n.windows.len() implies (#[trigger] n.windows[k]).0
                        < n.opened by {
                        if k < i {
                            assert(n.windows[k] == m.windows[k]);
                        } else {
                            assert(n.windows[k] == m.windows[k + 1]);
                        }
                    }
                }
                let r = vec![Action::Close { window: w, label }];
                proof {
                    assert(actions_view(r@) =~= seq![ActionModel::Close(w, label@)]);
                }
                r
            },
            None => {
                let r: Vec<Action> = Vec::new();
                proof {
                    assert(actions_view(r@) =~= Seq::<ActionModel>::empty());
                }
                r
            },
        }
    }

    fn update(&self, label: &str, patch: WindowPatch) -> (r: Vec<Action>)
        requires
            self.wf(),
        ensures
            actions_view(r@) == if has_label(self@.windows, label@) {
                seq![ActionModel::Apply(self@.windows[label_index(self@.windows, label@)].0, patch)]
            } else {
                Seq::<ActionModel>::empty()
            },
    {
        match self.windows.position(label) {
            Some(i) => {
                proof {
                    let j = label_index(self@.windows, label@);
                    assert(0 <= j < self@.windows.len() && self@.windows[j].1 == label@);
                    assert(i == j);
                }
                let w = self.windows.entry(i).id;
                let r = vec![Action::Apply { window: w, patch }];
                proof {
                    assert(actions_view(r@) =~= seq![ActionModel::Apply(w, patch)]);
                }
                r
            },
            None => {
                let r: Vec<Action> = Vec::new();
                proof {
                    assert(actions_view(r@) =~= Seq::<ActionModel>::empty());
                }
                r
            },
        }
    }
}

impl Bridge {
    /// Ends a draining loop: closes what windows remain, in order, reports the
    /// end, and stops. Does nothing in any other state.
    pub fn drain(&mut self) -> (r: Vec<Action>)
        requires
            old(self).wf(),
        ensures
            final(self).wf(),
            (final(self)@, actions_view(r@)) == drain_step(old(self)@),
    {
        let ghost m = self@;
        let mut r: Vec<Action> = Vec::new();
        if self.state != LoopState::Draining {
            proof {
                assert(actions_view(r@) =~= Seq::<ActionModel>::empty());
            }
            return r;
        }
        let mut i: usize = 0;
        while i < self.windows.count()
            invariant
                self@ == m,
                i <= m.windows.len(),
                actions_view(r@) =~= close_all(m.windows.subrange(0, i as int)),
            decreases m.windows.len() - i,
        {
            let e = self.windows.entry(i);
            r.push(Action::Close { window: e.id, label: e.label.clone() });
            proof {
                assert(close_all(m.windows.subrange(0, i + 1)) =~= close_all(
                    m.windows.subrange(0, i as int),
                ).push(ActionModel::Close(m.windows[i as int].0, m.windows[i as int].1)));
            }
            i = i + 1;
        }
        r.push(Action::Exit);
        self.windows = Registry::new();
        self.pending = PendingTable::new();
        self.state = LoopState::Stopped;
        proof {
            assert(m.windows.subrange(0, m.windows.len() as int) =~= m.windows);
            assert(actions_view(r@) =~= close_all(m.windows).push(ActionModel::Exit));
        }
        r
    }

    /// The platform asked to close window `id`: served as closing its label.
    pub fn close_requested(&mut self, id: u64) -> (r: Vec<Action>)
        requires
            old(self).wf(),
        ensures
            final(self).wf(),
            (final(self)@, actions_view(r@)) == if has_id(old(self)@.windows, id) {
                step(
                    old(self)@,
                    EventModel::CloseWindow(old(self)@.windows[id_index(old(self)@.windows, id)].1),
                )
            } else {
                (old(self)@, Seq::<ActionModel>::empty())
            },
    {
        match self.window_label(id) {
            Some(label) => self.handle(InternalEvent::CloseWindow { label }),
            None => {
                let r: Vec<Action> = Vec::new();
                proof {
                    assert(actions_view(r@) =~= Seq::<ActionModel>::empty());
                }
                r
            },
        }
    }

    /// Decodes a message that window `window` sent and decides what to do
    /// with it; a request is recorded as outstanding before its handler runs.
    pub fn receive(&mut self, window: u64, message: &StructuredValue) -> (r: Result<
        Dispatch,
        ProtocolError,
    >)
        requires
            old(self).wf(),
        ensures
            final(self).wf(),
            match r {
                Ok(d) => decoded(message@) is Ok && (final(self)@, d@) == receive_step(
                    old(self)@,
                    window,
                    decoded(message@)->Ok_0,
                ),
                Err(e) => decoded(message@) == Err::<EnvelopeView, ProtocolError>(e)
                    && final(self)@ == old(self)@,
            },
    {
        match decode_envelope(message) {
            Ok(env) => Ok(self.dispatch(window, env)),
            Err(e) => Err(e),
        }
    }

    /// Decodes a message body that window `window` sent and decides what to
    /// do with it; see [`Bridge::receive`].
    pub fn receive_text(&mut self, window: u64, body: &str) -> (r: Result<Dispatch, ProtocolError>)
        requires
            old(self).wf(),
        ensures
            final(self).wf(),
            match r {
                Ok(d) => decoded_text(body@) is Ok && (final(self)@, d@) == receive_step(
                    old(self)@,
                    window,
                    decoded_text(body@)->Ok_0,
                ),
                Err(e) => decoded_text(body@) == Err::<EnvelopeView, ProtocolError>(e)
                    && final(self)@ == old(self)@,
            },
    {
        match decode_message(body) {
            Ok(env) => Ok(self.dispatch(window, env)),
            Err(e) => Err(e),
        }
    }

    /// Decides what to do with a decoded message from `window`.
    pub fn dispatch(&mut self, window: u64, env: IpcEnvelope) -> (r: Dispatch)
        requires
            old(self).wf(),
        ensures
            final(self).wf(),
            (final(self)@, r@) == receive_step(old(self)@, window, env@),
    {
        if self.state != LoopState::Running || self.windows.position_of_id(window).is_none() {
            return Dispatch::Ignore;
        }
        let IpcEnvelope { kind, command, args, correlation_id } = env;
        match kind {
            EnvelopeKind::Event => match self.table.listener(command.as_str()) {
                Some(h) => Dispatch::InvokeListener { handler: h, call: make_call("event", command, args) },
                None => Dispatch::Ignore,
            },
            EnvelopeKind::Request => match correlation_id {
                None => Dispatch::Ignore,
                Some(id) => {
                    if self.pending.position(id.as_str()).is_some() {
                        return Dispatch::Ignore;
                    }
                    let ghost m = self@;
                    self.pending.insert(id.clone(), window);
                    proof {
                        let n = self@;
                        assert forall|k: int| 0 <= k < n.pending.len() implies has_id(
                            n.windows,
                            (#[trigger] n.pending[k]).1,
                        ) by {
                            if k < m.pending.len() {
                                assert(n.pending[k] == m.pending[k]);
                            }
                        }
                    }
                    match self.table.command(command.as_str()) {
                        Some(h) => Dispatch::InvokeCommand {
                            handler: h,
                            correlation_id: id,
                            call: make_call("command", command, args),
                        },
                        None => {
                            let mut message = String::from_str("UnknownCommand: ");
                            message.append(command.as_str());
                            Dispatch::Resolve { correlation_id: id, outcome: Outcome::Failure(message) }
                        },
                    }
                },
            },
        }
    }
}

pub open spec fn str_member(v: ValueModel, key: Seq<char>) -> Option<Seq<char>> {
    match member_of(v, key) {
        Some(ValueModel::Str(s)) => Some(s),
        _ => None,
    }
}

pub open spec fn bool_member(v: ValueModel, key: Seq<char>) -> Option<bool> {
    match member_of(v, key) {
        Some(ValueModel::Bool(b)) => Some(b),
        _ => None,
    }
}

/// `width` and `height`, when both are integers that fit in 32 unsigned bits.
pub open spec fn size_member(v: ValueModel) -> Option<(u32, u32)> {
    match (member_of(v, "width"@), member_of(v, "height"@)) {
        (Some(ValueModel::Integer(w)), Some(ValueModel::Integer(h))) => if 0 <= w <= u32::MAX && 0
            <= h <= u32::MAX {
            Some((w as u32, h as u32))
        } else {
            None
        },
        _ => None,
    }
}

fn string_at(v: &StructuredValue, key: &str) -> (r: Option<String>)
    ensures
        opt_view(r) == str_member(v@, key@),
{
    match get_member(v, key) {
        Some(StructuredValue::Str(s)) => Some(s.clone()),
        _ => None,
    }
}

fn bool_at(v: &StructuredValue, key: &str) -> (r: Option<bool>)
    ensures
        r == bool_member(v@, key@),
{
    match get_member(v, key) {
        Some(StructuredValue::Bool(b)) => Some(*b),
        _ => None,
    }
}

impl WindowPatch {
    /// Reads a patch from an object with any of the members `width` and
    /// `height` (both needed), `visible`, `url`, `html`, `script`,
    /// `devtools`, `clear` and `focus`; a member of another type is ignored.
    pub fn from_value(v: &StructuredValue) -> (r: WindowPatch)
        ensures
            r.size == size_member(v@),
            r.visible == bool_member(v@, "visible"@),
            opt_view(r.url) == str_member(v@, "url"@),
            opt_view(r.html) == str_member(v@, "html"@),
            opt_view(r.script) == str_member(v@, "script"@),
            r.devtools == bool_member(v@, "devtools"@),
            r.clear == bool_member(v@, "clear"@),
            r.focus == bool_member(v@, "focus"@),
    {
        let size = match (get_member(v, "width"), get_member(v, "height")) {
            (Some(StructuredValue::Integer(w)), Some(StructuredValue::Integer(h))) => {
                if 0 <= *w && *w <= 0xffff_ffff && 0 <= *h && *h <= 0xffff_ffff {
                    Some((*w as u32, *h as u32))
                } else {
                    None
                }
            },
            _ => None,
        };
        WindowPatch {
            size,
            visible: bool_at(v, "visible"),
            url: string_at(v, "url"),
            html: string_at(v, "html"),
            script: string_at(v, "script"),
            devtools: bool_at(v, "devtools"),
            clear: bool_at(v, "clear"),
            focus: bool_at(v, "focus"),
        }
    }
}

} // verus!
