use vstd::prelude::*;

use crate::json::{json_text, push_json, push_quoted, quoted};
use crate::text::same_text;
use vstd::string::StringExecFns;
use crate::value::{StructuredValue, ValueModel, lemma_member_views_of};

verus! {

/// Whether an inbound message is fire-and-forget or awaits a reply.
#[derive(Clone, Copy, PartialEq, Eq, Structural, Debug)]
pub enum EnvelopeKind {
    Event,
    Request,
}

/// Why an inbound message was refused.
#[derive(Clone, Copy, PartialEq, Eq, Structural, Debug)]
pub enum ProtocolError {
    /// The message is not an object.
    NotAnObject,
    /// `event_type` is missing, not a string, or neither `"event"` nor `"request"`.
    BadEventType,
    /// `command` is missing or not a string.
    BadCommand,
    /// `args` is missing.
    MissingArgs,
    /// A request without a string `request_id`.
    MissingRequestId,
    /// The body is not a JSON text.
    NotJson,
}

/// A decoded inbound message.
pub struct IpcEnvelope {
    pub kind: EnvelopeKind,
    pub command: String,
    pub args: StructuredValue,
    /// Present exactly for requests.
    pub correlation_id: Option<String>,
}

pub struct EnvelopeView {
    pub kind: EnvelopeKind,
    pub command: Seq<char>,
    pub args: ValueModel,
    pub correlation_id: Option<Seq<char>>,
}

impl View for IpcEnvelope {
    type V = EnvelopeView;

    open spec fn view(&self) -> EnvelopeView {
        EnvelopeView {
            kind: self.kind,
            command: self.command@,
            args: self.args@,
            correlation_id: match self.correlation_id {
                Some(c) => Some(c@),
                None => None,
            },
        }
    }
}

/// The value of the first member named `key`.
pub open spec fn field(members: Seq<(Seq<char>, ValueModel)>, key: Seq<char>) -> Option<ValueModel>
    decreases members.len(),
{
    if members.len() == 0 {
        None
    } else if members[0].0 == key {
        Some(members[0].1)
    } else {
        field(members.drop_first(), key)
    }
}

proof fn lemma_field_at(members: Seq<(Seq<char>, ValueModel)>, key: Seq<char>, i: int)
    requires
        0 <= i <= members.len(),
        forall|j: int| 0 <= j < i ==> members[j].0 != key,
    ensures
        field(members, key) == field(members.subrange(i, members.len() as int), key),
    decreases i,
{
    if i > 0 {
        lemma_field_at(members.drop_first(), key, i - 1);
        assert(members.drop_first().subrange(i - 1, members.len() - 1) =~= members.subrange(
            i,
            members.len() as int,
        ));
    } else {
        assert(members.subrange(0, members.len() as int) =~= members);
    }
}

/// The string held by a member, if the member is there and is a string.
pub open spec fn str_field(members: Seq<(Seq<char>, ValueModel)>, key: Seq<char>) -> Option<
    Seq<char>,
> {
    match field(members, key) {
        Some(ValueModel::Str(s)) => Some(s),
        _ => None,
    }
}

/// What an inbound message decodes to.
pub open spec fn decoded(m: ValueModel) -> Result<EnvelopeView, ProtocolError> {
    match m {
        ValueModel::Object(ms) => {
            let kind = str_field(ms, "event_type"@);
            if kind != Some("event"@) && kind != Some("request"@) {
                Err(ProtocolError::BadEventType)
            } else if str_field(ms, "command"@) is None {
                Err(ProtocolError::BadCommand)
            } else if field(ms, "args"@) is None {
                Err(ProtocolError::MissingArgs)
            } else if kind == Some("request"@) && str_field(ms, "request_id"@) is None {
                Err(ProtocolError::MissingRequestId)
            } else {
                let is_request = kind == Some("request"@);
                Ok(
                    EnvelopeView {
                        kind: if is_request {
                            EnvelopeKind::Request
                        } else {
                            EnvelopeKind::Event
                        },
                        command: str_field(ms, "command"@)->0,
                        args: field(ms, "args"@)->0,
                        correlation_id: if is_request {
                            str_field(ms, "request_id"@)
                        } else {
                            None
                        },
                    },
                )
            }
        },
        _ => Err(ProtocolError::NotAnObject),
    }
}

/// The index of the first member named `key`.
fn find_member(members: &Vec<(String, StructuredValue)>, key: &str) -> (r: Option<usize>)
    ensures
        ({
            let ms = crate::value::member_views_of(members@);
            match r {
                Some(i) => i < members@.len() && field(ms, key@) == Some(ms[i as int].1),
                None => field(ms, key@) is None,
            }
        }),
{
    let ghost ms = crate::value::member_views_of(members@);
    proof {
        lemma_member_views_of(members@);
    }
    let mut i: usize = 0;
    while i < members.len()
        invariant
            i <= members@.len(),
            ms == crate::value::member_views_of(members@),
            ms.len() == members@.len(),
            forall|j: int| 0 <= j < ms.len() ==> #[trigger] ms[j] == (members@[j].0@, members@[j].1@),
            forall|j: int| 0 <= j < i ==> ms[j].0 != key@,
        decreases members@.len() - i,
    {
        if same_text(members[i].0.as_str(), key) {
            proof {
                lemma_field_at(ms, key@, i as int);
                let rest = ms.subrange(i as int, ms.len() as int);
                assert(rest[0] == ms[i as int]);
                assert(ms[i as int].0 == key@);
                assert(field(rest, key@) == Some(rest[0].1));
            }
            return Some(i);
        }
        i = i + 1;
    }
    proof {
        lemma_field_at(ms, key@, i as int);
        assert(ms.subrange(i as int, ms.len() as int).len() == 0);
    }
    None
}

/// The string held by the member named `key`, if it is a string.
fn string_member(members: &Vec<(String, StructuredValue)>, key: &str) -> (r: Option<String>)
    ensures
        match r {
            Some(s) => str_field(crate::value::member_views_of(members@), key@) == Some(s@),
            None => str_field(crate::value::member_views_of(members@), key@) is None,
        },
{
    proof {
        lemma_member_views_of(members@);
    }
    match find_member(members, key) {
        Some(i) => match &members[i].1 {
            StructuredValue::Str(s) => Some(s.clone()),
            _ => None,
        },
        None => None,
    }
}

/// Decodes an inbound message from the rendered content.
pub fn decode_envelope(message: &StructuredValue) -> (r: Result<IpcEnvelope, ProtocolError>)
    ensures
        match r {
            Ok(e) => decoded(message@) == Ok::<EnvelopeView, ProtocolError>(e@),
            Err(err) => decoded(message@) == Err::<EnvelopeView, ProtocolError>(err),
        },
{
    proof {
        reveal_strlit("event");
        reveal_strlit("request");
    }
    match message {
        StructuredValue::Object(members) => {
            proof {
                lemma_member_views_of(members@);
            }
            let kind = string_member(members, "event_type");
            let is_request = match &kind {
                Some(k) => same_text(k.as_str(), "request"),
                None => false,
            };
            let is_event = match &kind {
                Some(k) => same_text(k.as_str(), "event"),
                None => false,
            };
            if !is_request && !is_event {
                return Err(ProtocolError::BadEventType);
            }
            let command = match string_member(members, "command") {
                Some(c) => c,
                None => {
                    return Err(ProtocolError::BadCommand);
                },
            };
            let args = match find_member(members, "args") {
                Some(i) => members[i].1.duplicate(),
                None => {
                    return Err(ProtocolError::MissingArgs);
                },
            };
            let correlation_id = if is_request {
                match string_member(members, "request_id") {
                    Some(id) => Some(id),
                    None => {
                        return Err(ProtocolError::MissingRequestId);
                    },
                }
            } else {
                None
            };
            let kind = if is_request {
                EnvelopeKind::Request
            } else {
                EnvelopeKind::Event
            };
            Ok(IpcEnvelope { kind, command, args, correlation_id })
        },
        _ => Err(ProtocolError::NotAnObject),
    }
}

/// What a command produced: its result, or the message of its failure.
pub enum Outcome {
    Data(StructuredValue),
    Failure(String),
}

pub enum OutcomeModel {
    Data(ValueModel),
    Failure(Seq<char>),
}

impl View for Outcome {
    type V = OutcomeModel;

    open spec fn view(&self) -> OutcomeModel {
        match self {
            Outcome::Data(v) => OutcomeModel::Data(v@),
            Outcome::Failure(m) => OutcomeModel::Failure(m@),
        }
    }
}

/// A script that, run in the rendered content, dispatches a DOM custom event
/// named `name` whose `detail` is the object written in `detail`.
pub open spec fn dispatch_script(name: Seq<char>, detail: Seq<char>) -> Seq<char> {
    "window.dispatchEvent(new CustomEvent("@ + quoted(name) + ", {detail: "@ + detail + "}));"@
}

/// `{"data":<payload>}`.
pub open spec fn data_detail(v: ValueModel) -> Seq<char> {
    "{\"data\":"@ + json_text(v) + "}"@
}

/// `{"error":"<message>"}`.
pub open spec fn error_detail(message: Seq<char>) -> Seq<char> {
    "{\"error\":"@ + quoted(message) + "}"@
}

pub open spec fn outcome_detail(o: OutcomeModel) -> Seq<char> {
    match o {
        OutcomeModel::Data(v) => data_detail(v),
        OutcomeModel::Failure(m) => error_detail(m),
    }
}

/// The script that broadcasts event `name` with `payload` as its data.
pub fn event_script(name: &str, payload: &StructuredValue) -> (r: String)
    ensures
        r@ == dispatch_script(name@, data_detail(payload@)),
{
    let mut r = String::from_str("window.dispatchEvent(new CustomEvent(");
    push_quoted(&mut r, name);
    r.append(", {detail: ");
    r.append("{\"data\":");
    push_json(&mut r, payload);
    r.append("}");
    r.append("}));");
    proof {
        assert(r@ =~= dispatch_script(name@, data_detail(payload@)));
    }
    r
}

/// The script that resolves the request `correlation_id` with `outcome`.
pub fn response_script(correlation_id: &str, outcome: &Outcome) -> (r: String)
    ensures
        r@ == dispatch_script(correlation_id@, outcome_detail(outcome@)),
{
    let mut r = String::from_str("window.dispatchEvent(new CustomEvent(");
    push_quoted(&mut r, correlation_id);
    r.append(", {detail: ");
    match outcome {
        Outcome::Data(v) => {
            r.append("{\"data\":");
            push_json(&mut r, v);
        },
        Outcome::Failure(m) => {
            r.append("{\"error\":");
            push_quoted(&mut r, m.as_str());
        },
    }
    r.append("}");
    r.append("}));");
    proof {
        assert(r@ =~= dispatch_script(correlation_id@, outcome_detail(outcome@)));
    }
    r
}

/// The script installed in every rendered surface before its content runs.
///
/// It defines `window.__pywui__.invoke(command, args, timeout)`, which posts a
/// request with a fresh `request_id` and settles when a custom event of that
/// name arrives (`detail.data` resolves, `detail.error` rejects), or rejects
/// once `timeout` milliseconds (5000 by default) have passed.
pub fn get_init_script() -> (r: &'static str)
    ensures
        r@ == INIT_SCRIPT@,
{
    INIT_SCRIPT
}

pub const INIT_SCRIPT: &'static str = r#"
        window.__pywui__ = {
            invoke(command, args = [], timeout = 5000) {
                return new Promise((resolve, reject) => {
                    const request_id = `req_${ Date.now() }_${ Math.random() }`;
                    const message = { event_type: "request", command, args, request_id };
                    const timer = setTimeout(() => reject(new Error("Timeout")), timeout);
                    window.addEventListener(request_id, (ev) => {
                        clearTimeout(timer);
                        const detail = ev.detail || {};
                        if (detail["error"] !== undefined) reject(new Error(detail["error"]));
                        else resolve(detail["data"]);
                    }, { once: true });
                    window.ipc.postMessage(JSON.stringify(message));
                });
            },
        };
    "#;

} // verus!

verus! {

/// The member `key` of an object, if it is one and has that member.
pub open spec fn member_of(v: ValueModel, key: Seq<char>) -> Option<ValueModel> {
    match v {
        ValueModel::Object(ms) => field(ms, key),
        _ => None,
    }
}

/// The value of member `key` of `v`, if `v` is an object that has one; the
/// first such member when there are several.
pub fn get_member<'a>(v: &'a StructuredValue, key: &str) -> (r: Option<&'a StructuredValue>)
    ensures
        match r {
            Some(x) => member_of(v@, key@) == Some(x@),
            None => member_of(v@, key@) is None,
        },
{
    match v {
        StructuredValue::Object(members) => {
            proof {
                lemma_member_views_of(members@);
            }
            match find_member(members, key) {
                Some(i) => Some(&members[i].1),
                None => None,
            }
        },
        _ => None,
    }
}

} // verus!

verus! {

/// What an inbound message body decodes to.
pub open spec fn decoded_text(body: Seq<char>) -> Result<EnvelopeView, ProtocolError> {
    match crate::parse::parsed(body) {
        Ok(m) => decoded(m),
        Err(_) => Err(ProtocolError::NotJson),
    }
}

/// Decodes an inbound message body: a JSON text holding the envelope.
pub fn decode_message(body: &str) -> (r: Result<IpcEnvelope, ProtocolError>)
    ensures
        match r {
            Ok(e) => decoded_text(body@) == Ok::<EnvelopeView, ProtocolError>(e@),
            Err(err) => decoded_text(body@) == Err::<EnvelopeView, ProtocolError>(err),
        },
{
    match crate::parse::decode_json(body) {
        Ok(v) => decode_envelope(&v),
        Err(_) => Err(ProtocolError::NotJson),
    }
}

} // verus!
