//! The messages of the socket protocol and their JSON forms.

use crate::json::{json_field, Json, JsonObject, JsonView};
use crate::project_json::{read_bool, read_text, read_unsigned, required, with_some};
use crate::text::same_text;
use crate::views::option_view;
use vstd::prelude::*;

verus! {

/// The protocol version spoken on the socket.
pub const PROTOCOL_VERSION: u64 = 1;

/// What a client asks for.
#[derive(Debug, PartialEq, Eq)]
pub enum Method {
    ServerHello,
    ProjectList,
    SnapshotGet,
    SnapshotSubscribe,
    SnapshotUnsubscribe,
    Unknown(String),
}

pub enum MethodView {
    ServerHello,
    ProjectList,
    SnapshotGet,
    SnapshotSubscribe,
    SnapshotUnsubscribe,
    Unknown(Seq<char>),
}

impl View for Method {
    type V = MethodView;

    open spec fn view(&self) -> MethodView {
        match self {
            Method::ServerHello => MethodView::ServerHello,
            Method::ProjectList => MethodView::ProjectList,
            Method::SnapshotGet => MethodView::SnapshotGet,
            Method::SnapshotSubscribe => MethodView::SnapshotSubscribe,
            Method::SnapshotUnsubscribe => MethodView::SnapshotUnsubscribe,
            Method::Unknown(name) => MethodView::Unknown(name@),
        }
    }
}

/// The method that a name on the wire stands for.
pub open spec fn method_named(name: Seq<char>) -> MethodView {
    if name == "server.hello"@ {
        MethodView::ServerHello
    } else if name == "project.list"@ {
        MethodView::ProjectList
    } else if name == "snapshot.get"@ {
        MethodView::SnapshotGet
    } else if name == "snapshot.subscribe"@ {
        MethodView::SnapshotSubscribe
    } else if name == "snapshot.unsubscribe"@ {
        MethodView::SnapshotUnsubscribe
    } else {
        MethodView::Unknown(name)
    }
}

/// The name of a method on the wire.
pub open spec fn method_name(method: MethodView) -> Seq<char> {
    match method {
        MethodView::ServerHello => "server.hello"@,
        MethodView::ProjectList => "project.list"@,
        MethodView::SnapshotGet => "snapshot.get"@,
        MethodView::SnapshotSubscribe => "snapshot.subscribe"@,
        MethodView::SnapshotUnsubscribe => "snapshot.unsubscribe"@,
        MethodView::Unknown(name) => name,
    }
}

impl Method {
    pub fn from_name(name: &str) -> (method: Method)
        ensures
            method@ == method_named(name@),
    {
        if same_text(name, "server.hello") {
            Method::ServerHello
        } else if same_text(name, "project.list") {
            Method::ProjectList
        } else if same_text(name, "snapshot.get") {
            Method::SnapshotGet
        } else if same_text(name, "snapshot.subscribe") {
            Method::SnapshotSubscribe
        } else if same_text(name, "snapshot.unsubscribe") {
            Method::SnapshotUnsubscribe
        } else {
            Method::Unknown(name.to_owned())
        }
    }

    pub fn name(&self) -> (name: String)
        ensures
            name@ == method_name(self@),
    {
        match self {
            Method::ServerHello => "server.hello".to_owned(),
            Method::ProjectList => "project.list".to_owned(),
            Method::SnapshotGet => "snapshot.get".to_owned(),
            Method::SnapshotSubscribe => "snapshot.subscribe".to_owned(),
            Method::SnapshotUnsubscribe => "snapshot.unsubscribe".to_owned(),
            Method::Unknown(name) => name.clone(),
        }
    }
}

/// Every name on the wire is kept, known or not, and the known ones differ.
pub proof fn method_names_read_back(name: Seq<char>)
    ensures
        method_name(method_named(name)) == name,
        method_named("server.hello"@) == MethodView::ServerHello,
        method_named("project.list"@) == MethodView::ProjectList,
        method_named("snapshot.get"@) == MethodView::SnapshotGet,
        method_named("snapshot.subscribe"@) == MethodView::SnapshotSubscribe,
        method_named("snapshot.unsubscribe"@) == MethodView::SnapshotUnsubscribe,
{
    reveal_strlit("server.hello");
    reveal_strlit("project.list");
    reveal_strlit("snapshot.get");
    reveal_strlit("snapshot.subscribe");
    reveal_strlit("snapshot.unsubscribe");
    assert("server.hello"@.len() == 12);
    assert("project.list"@.len() == 12);
    assert("snapshot.get"@.len() == 12);
    assert("snapshot.subscribe"@.len() == 18);
    assert("snapshot.unsubscribe"@.len() == 20);
    assert("server.hello"@[0] != "project.list"@[0]);
    assert("server.hello"@[1] != "snapshot.get"@[1]);
    assert("project.list"@[0] != "snapshot.get"@[0]);
}

/// What the daemon announces.
#[derive(Clone, Copy, Debug, PartialEq, Eq, Structural)]
pub enum EventName {
    ProjectUpdated,
    SnapshotReplaced,
    SnapshotFailed,
    SubscriptionEnded,
}

/// The name of an event on the wire.
pub open spec fn event_name(event: EventName) -> Seq<char> {
    match event {
        EventName::ProjectUpdated => "project.updated"@,
        EventName::SnapshotReplaced => "snapshot.replaced"@,
        EventName::SnapshotFailed => "snapshot.failed"@,
        EventName::SubscriptionEnded => "subscription.ended"@,
    }
}

/// The event that a name on the wire stands for.
pub open spec fn event_named(name: Seq<char>) -> Option<EventName> {
    if name == "project.updated"@ {
        Some(EventName::ProjectUpdated)
    } else if name == "snapshot.replaced"@ {
        Some(EventName::SnapshotReplaced)
    } else if name == "snapshot.failed"@ {
        Some(EventName::SnapshotFailed)
    } else if name == "subscription.ended"@ {
        Some(EventName::SubscriptionEnded)
    } else {
        None
    }
}

impl EventName {
    pub fn from_name(name: &str) -> (event: Option<EventName>)
        ensures
            event == event_named(name@),
    {
        if same_text(name, "project.updated") {
            Some(EventName::ProjectUpdated)
        } else if same_text(name, "snapshot.replaced") {
            Some(EventName::SnapshotReplaced)
        } else if same_text(name, "snapshot.failed") {
            Some(EventName::SnapshotFailed)
        } else if same_text(name, "subscription.ended") {
            Some(EventName::SubscriptionEnded)
        } else {
            None
        }
    }

    pub fn name(&self) -> (name: &'static str)
        ensures
            name@ == event_name(*self),
    {
        match self {
            EventName::ProjectUpdated => "project.updated",
            EventName::SnapshotReplaced => "snapshot.replaced",
            EventName::SnapshotFailed => "snapshot.failed",
            EventName::SubscriptionEnded => "subscription.ended",
        }
    }
}

/// Every event keeps its name over the wire.
pub proof fn event_names_read_back(event: EventName)
    ensures
        event_named(event_name(event)) == Some(event),
{
    reveal_strlit("project.updated");
    reveal_strlit("snapshot.replaced");
    reveal_strlit("snapshot.failed");
    reveal_strlit("subscription.ended");
    assert("project.updated"@.len() == 15);
    assert("snapshot.replaced"@.len() == 17);
    assert("snapshot.failed"@.len() == 15);
    assert("subscription.ended"@.len() == 18);
    assert("project.updated"@[0] != "snapshot.failed"@[0]);
}

/// Why a request was refused.
#[derive(Debug, PartialEq, Eq)]
pub struct ErrorBody {
    pub code: String,
    pub message: String,
}

pub struct ErrorBodyView {
    pub code: Seq<char>,
    pub message: Seq<char>,
}

impl View for ErrorBody {
    type V = ErrorBodyView;

    open spec fn view(&self) -> ErrorBodyView {
        ErrorBodyView { code: self.code@, message: self.message@ }
    }
}

pub open spec fn error_json(error: ErrorBodyView) -> JsonView {
    JsonView::Object(
        Map::empty().insert("code"@, JsonView::Text(error.code)).insert("message"@, JsonView::Text(error.message)),
    )
}

pub open spec fn read_error(json: JsonView) -> Option<ErrorBodyView> {
    match (required(json, "code"@, |v: JsonView| read_text(v)), required(json, "message"@, |v: JsonView| read_text(v))) {
        (Some(code), Some(message)) => Some(ErrorBodyView { code, message }),
        _ => None,
    }
}

impl ErrorBody {
    fn from_json(json: &Json) -> (error: Option<ErrorBody>)
        ensures
            option_view(error) == read_error(json@),
    {
        match (text_field(json, "code"), text_field(json, "message")) {
            (Some(code), Some(message)) => Some(ErrorBody { code, message }),
            _ => None,
        }
    }

    fn to_json(&self) -> (json: Json)
        ensures
            json@ == error_json(self@),
    {
        JsonObject::new().with("code", Json::text(self.code.as_str())).with(
            "message",
            Json::text(self.message.as_str()),
        ).done()
    }
}

fn text_field(json: &Json, key: &str) -> (text: Option<String>)
    ensures
        option_view(text) == required(json@, key@, |v: JsonView| read_text(v)),
{
    match json.field(key) {
        Some(value) => match value.as_text() {
            Some(text) => Some(text.clone()),
            None => None,
        },
        None => None,
    }
}

/// One message on the socket.
#[derive(Debug, PartialEq, Eq)]
pub enum Envelope {
    Request { version: u64, id: String, method: Method, params: Json },
    Response { version: u64, id: String, ok: bool, result: Option<Json>, error: Option<ErrorBody> },
    Event { version: u64, name: EventName, payload: Json },
}

pub enum EnvelopeView {
    Request { version: u64, id: Seq<char>, method: MethodView, params: JsonView },
    Response {
        version: u64,
        id: Seq<char>,
        ok: bool,
        result: Option<JsonView>,
        error: Option<ErrorBodyView>,
    },
    Event { version: u64, name: EventName, payload: JsonView },
}

impl View for Envelope {
    type V = EnvelopeView;

    open spec fn view(&self) -> EnvelopeView {
        match self {
            Envelope::Request { version, id, method, params } => EnvelopeView::Request {
                version: *version,
                id: id@,
                method: method@,
                params: params@,
            },
            Envelope::Response { version, id, ok, result, error } => EnvelopeView::Response {
                version: *version,
                id: id@,
                ok: *ok,
                result: option_view(*result),
                error: option_view(*error),
            },
            Envelope::Event { version, name, payload } => EnvelopeView::Event {
                version: *version,
                name: *name,
                payload: payload@,
            },
        }
    }
}

/// A field that counts as missing when it is null.
pub open spec fn present_field(json: JsonView, key: Seq<char>) -> Option<JsonView> {
    match json_field(json, key) {
        Some(JsonView::Null) => None,
        other => other,
    }
}

pub open spec fn read_request(json: JsonView) -> Option<EnvelopeView> {
    match (
        required(json, "v"@, |v: JsonView| read_unsigned(v)),
        required(json, "id"@, |v: JsonView| read_text(v)),
        required(json, "method"@, |v: JsonView| read_text(v)),
        json_field(json, "params"@),
    ) {
        (Some(version), Some(id), Some(name), Some(params)) => Some(
            EnvelopeView::Request { version, id, method: method_named(name), params },
        ),
        _ => None,
    }
}

/// A response carries a result when it is ok and an error when it is not, and
/// never both.
pub open spec fn read_response(json: JsonView) -> Option<EnvelopeView> {
    match (
        required(json, "v"@, |v: JsonView| read_unsigned(v)),
        required(json, "id"@, |v: JsonView| read_text(v)),
        required(json, "ok"@, |v: JsonView| read_bool(v)),
    ) {
        (Some(version), Some(id), Some(ok)) => match (present_field(json, "result"@), present_field(json, "error"@)) {
            (Some(result), None) => if ok {
                Some(EnvelopeView::Response { version, id, ok, result: Some(result), error: None })
            } else {
                None
            },
            (None, Some(error)) => match read_error(error) {
                Some(body) => if !ok {
                    Some(EnvelopeView::Response { version, id, ok, result: None, error: Some(body) })
                } else {
                    None
                },
                None => None,
            },
            _ => None,
        },
        _ => None,
    }
}

pub open spec fn read_event(json: JsonView) -> Option<EnvelopeView> {
    match (
        required(json, "v"@, |v: JsonView| read_unsigned(v)),
        required(json, "name"@, |v: JsonView| read_text(v)),
        json_field(json, "payload"@),
    ) {
        (Some(version), Some(name), Some(payload)) => match event_named(name) {
            Some(event) => Some(EnvelopeView::Event { version, name: event, payload }),
            None => None,
        },
        _ => None,
    }
}

/// The message that a document is; fields it does not know are ignored.
pub open spec fn read_envelope(json: JsonView) -> Option<EnvelopeView> {
    match required(json, "kind"@, |v: JsonView| read_text(v)) {
        Some(kind) => if kind == "req"@ {
            read_request(json)
        } else if kind == "res"@ {
            read_response(json)
        } else if kind == "event"@ {
            read_event(json)
        } else {
            None
        },
        None => None,
    }
}

/// The document of a successful response.
pub open spec fn result_message(id: Seq<char>, result: JsonView) -> JsonView {
    JsonView::Object(
        Map::empty()
            .insert("v"@, JsonView::Unsigned(PROTOCOL_VERSION))
            .insert("kind"@, JsonView::Text("res"@))
            .insert("id"@, JsonView::Text(id))
            .insert("ok"@, JsonView::Bool(true))
            .insert("result"@, result),
    )
}

/// The document of a refusal.
pub open spec fn error_message(id: Seq<char>, code: Seq<char>, message: Seq<char>) -> JsonView {
    JsonView::Object(
        Map::empty()
            .insert("v"@, JsonView::Unsigned(PROTOCOL_VERSION))
            .insert("kind"@, JsonView::Text("res"@))
            .insert("id"@, JsonView::Text(id))
            .insert("ok"@, JsonView::Bool(false))
            .insert("error"@, error_json(ErrorBodyView { code, message })),
    )
}

/// The document of an event.
pub open spec fn event_message(name: Seq<char>, payload: JsonView) -> JsonView {
    JsonView::Object(
        Map::empty()
            .insert("v"@, JsonView::Unsigned(PROTOCOL_VERSION))
            .insert("kind"@, JsonView::Text("event"@))
            .insert("name"@, JsonView::Text(name))
            .insert("payload"@, payload),
    )
}

pub fn result_frame(id: &str, result: Json) -> (frame: Json)
    ensures
        frame@ == result_message(id@, result@),
{
    JsonObject::new()
        .with("v", Json::unsigned(PROTOCOL_VERSION))
        .with("kind", Json::text("res"))
        .with("id", Json::text(id))
        .with("ok", Json::Bool(true))
        .with("result", result)
        .done()
}

pub fn error_frame(id: &str, code: &str, message: &str) -> (frame: Json)
    ensures
        frame@ == error_message(id@, code@, message@),
{
    let error = ErrorBody { code: code.to_owned(), message: message.to_owned() };
    JsonObject::new()
        .with("v", Json::unsigned(PROTOCOL_VERSION))
        .with("kind", Json::text("res"))
        .with("id", Json::text(id))
        .with("ok", Json::Bool(false))
        .with("error", error.to_json())
        .done()
}

pub fn event_frame(name: &str, payload: Json) -> (frame: Json)
    ensures
        frame@ == event_message(name@, payload@),
{
    JsonObject::new()
        .with("v", Json::unsigned(PROTOCOL_VERSION))
        .with("kind", Json::text("event"))
        .with("name", Json::text(name))
        .with("payload", payload)
        .done()
}

/// The document of any message.
pub open spec fn envelope_json(envelope: EnvelopeView) -> JsonView {
    match envelope {
        EnvelopeView::Request { version, id, method, params } => JsonView::Object(
            Map::empty()
                .insert("v"@, JsonView::Unsigned(version))
                .insert("kind"@, JsonView::Text("req"@))
                .insert("id"@, JsonView::Text(id))
                .insert("method"@, JsonView::Text(method_name(method)))
                .insert("params"@, params),
        ),
        EnvelopeView::Response { version, id, ok, result, error } => JsonView::Object(
            with_some(
                with_some(
                    Map::empty()
                        .insert("v"@, JsonView::Unsigned(version))
                        .insert("kind"@, JsonView::Text("res"@))
                        .insert("id"@, JsonView::Text(id))
                        .insert("ok"@, JsonView::Bool(ok)),
                    "result"@,
                    result,
                ),
                "error"@,
                match error {
                    Some(body) => Some(error_json(body)),
                    None => None,
                },
            ),
        ),
        EnvelopeView::Event { version, name, payload } => JsonView::Object(
            Map::empty()
                .insert("v"@, JsonView::Unsigned(version))
                .insert("kind"@, JsonView::Text("event"@))
                .insert("name"@, JsonView::Text(event_name(name)))
                .insert("payload"@, payload),
        ),
    }
}

impl Envelope {
    pub fn from_json(json: &Json) -> (envelope: Option<Envelope>)
        ensures
            option_view(envelope) == read_envelope(json@),
    {
        let kind = match text_field(json, "kind") {
            Some(kind) => kind,
            None => {
                return None;
            },
        };
        let version = match json.field("v") {
            Some(value) => value.as_unsigned(),
            None => None,
        };
        if same_text(kind.as_str(), "req") {
            let params = match json.field("params") {
                Some(value) => Some(value.copied()),
                None => None,
            };
            match (version, text_field(json, "id"), text_field(json, "method"), params) {
                (Some(version), Some(id), Some(name), Some(params)) => Some(
                    Envelope::Request { version, id, method: Method::from_name(name.as_str()), params },
                ),
                _ => None,
            }
        } else if same_text(kind.as_str(), "res") {
            let ok = match json.field("ok") {
                Some(value) => value.as_bool(),
                None => None,
            };
            match (version, text_field(json, "id"), ok) {
                (Some(version), Some(id), Some(ok)) => {
                    match (present(json, "result"), present(json, "error")) {
                        (Some(result), None) => if ok {
                            Some(
                                Envelope::Response {
                                    version,
                                    id,
                                    ok,
                                    result: Some(result.copied()),
                                    error: None,
                                },
                            )
                        } else {
                            None
                        },
                        (None, Some(error)) => match ErrorBody::from_json(error) {
                            Some(body) => if !ok {
                                Some(
                                    Envelope::Response { version, id, ok, result: None, error: Some(body) },
                                )
                            } else {
                                None
                            },
                            None => None,
                        },
                        _ => None,
                    }
                },
                _ => None,
            }
        } else if same_text(kind.as_str(), "event") {
            let payload = match json.field("payload") {
                Some(value) => Some(value.copied()),
                None => None,
            };
            match (version, text_field(json, "name"), payload) {
                (Some(version), Some(name), Some(payload)) => match EventName::from_name(name.as_str()) {
                    Some(event) => Some(Envelope::Event { version, name: event, payload }),
                    None => None,
                },
                _ => None,
            }
        } else {
            None
        }
    }

    pub fn to_json(&self) -> (json: Json)
        ensures
            json@ == envelope_json(self@),
    {
        match self {
            Envelope::Request { version, id, method, params } => JsonObject::new()
                .with("v", Json::unsigned(*version))
                .with("kind", Json::text("req"))
                .with("id", Json::text(id.as_str()))
                .with("method", Json::text(method.name().as_str()))
                .with("params", params.copied())
                .done(),
            Envelope::Response { version, id, ok, result, error } => {
                let result = match result {
                    Some(value) => Some(value.copied()),
                    None => None,
                };
                let error = match error {
                    Some(body) => Some(body.to_json()),
                    None => None,
                };
                JsonObject::new()
                    .with("v", Json::unsigned(*version))
                    .with("kind", Json::text("res"))
                    .with("id", Json::text(id.as_str()))
                    .with("ok", Json::Bool(*ok))
                    .with_some("result", result)
                    .with_some("error", error)
                    .done()
            },
            Envelope::Event { version, name, payload } => JsonObject::new()
                .with("v", Json::unsigned(*version))
                .with("kind", Json::text("event"))
                .with("name", Json::text(name.name()))
                .with("payload", payload.copied())
                .done(),
        }
    }
}

fn present<'a>(json: &'a Json, key: &str) -> (value: Option<&'a Json>)
    ensures
        value matches Some(inner) ==> present_field(json@, key@) == Some(inner@),
        value is None ==> present_field(json@, key@) is None,
{
    match json.field(key) {
        Some(value) => if value.is_null() {
            None
        } else {
            Some(value)
        },
        None => None,
    }
}

/// A message that can stand on the wire: a known method under its own
/// variant; a response with a result that is not null, or an error, as `ok`
/// says.
pub open spec fn well_formed_envelope(envelope: EnvelopeView) -> bool {
    match envelope {
        EnvelopeView::Request { version, id, method, params } => method_named(method_name(method)) == method,
        EnvelopeView::Response { version, id, ok, result, error } => {
            &&& result is Some == ok
            &&& error is Some == !ok
            &&& result matches Some(value) ==> !(value is Null)
        },
        EnvelopeView::Event { version, name, payload } => true,
    }
}

proof fn envelope_field_names()
    ensures
        "v"@.len() == 1,
        "kind"@.len() == 4,
        "id"@.len() == 2,
        "ok"@.len() == 2,
        "id"@ != "ok"@,
        "method"@.len() == 6,
        "params"@.len() == 6,
        "result"@.len() == 6,
        "method"@ != "params"@,
        "error"@.len() == 5,
        "name"@.len() == 4,
        "name"@ != "kind"@,
        "payload"@.len() == 7,
        "code"@.len() == 4,
        "message"@.len() == 7,
        "req"@.len() == 3,
        "res"@.len() == 3,
        "req"@ != "res"@,
        "event"@.len() == 5,
{
    reveal_strlit("v");
    reveal_strlit("kind");
    reveal_strlit("id");
    reveal_strlit("ok");
    reveal_strlit("method");
    reveal_strlit("params");
    reveal_strlit("result");
    reveal_strlit("error");
    reveal_strlit("name");
    reveal_strlit("payload");
    reveal_strlit("code");
    reveal_strlit("message");
    reveal_strlit("req");
    reveal_strlit("res");
    reveal_strlit("event");
    assert("id"@[0] != "ok"@[0]);
    assert("method"@[0] != "params"@[0]);
    assert("name"@[0] != "kind"@[0]);
    assert("req"@[2] != "res"@[2]);
}

/// A message read from its own document is the same message.
pub proof fn envelope_reads_back(envelope: EnvelopeView)
    requires
        well_formed_envelope(envelope),
    ensures
        read_envelope(envelope_json(envelope)) == Some(envelope),
{
    envelope_field_names();
    match envelope {
        EnvelopeView::Event { version, name, payload } => {
            event_names_read_back(name);
        },
        _ => {},
    }
}

/// Every response that is accepted carries exactly what `ok` announces.
pub proof fn accepted_responses_are_consistent(json: JsonView)
    ensures
        read_envelope(json) matches Some(EnvelopeView::Response { version, id, ok, result, error }) ==> (result is Some
            == ok && error is Some == !ok),
{
}

/// What the daemon sends is read by a client as the response or event meant.
pub proof fn sent_messages_are_understood(id: Seq<char>, result: JsonView, code: Seq<char>, message: Seq<char>, event: EventName, payload: JsonView)
    requires
        !(result is Null),
    ensures
        read_envelope(result_message(id, result)) == Some(
            EnvelopeView::Response { version: PROTOCOL_VERSION, id, ok: true, result: Some(result), error: None },
        ),
        read_envelope(error_message(id, code, message)) == Some(
            EnvelopeView::Response {
                version: PROTOCOL_VERSION,
                id,
                ok: false,
                result: None,
                error: Some(ErrorBodyView { code, message }),
            },
        ),
        read_envelope(event_message(event_name(event), payload)) == Some(
            EnvelopeView::Event { version: PROTOCOL_VERSION, name: event, payload },
        ),
{
    envelope_field_names();
    event_names_read_back(event);
}

} // verus!
