//! Starting, probing and stopping the one daemon of a socket.

use crate::envelope::PROTOCOL_VERSION;
use crate::files::{FileFacts, FileKind};
use crate::json::{encode_json, json_bytes, json_field, json_parsed, parse_json, Json, JsonObject, JsonView};
use crate::parse::{decimals_read_back, is_digit, is_trim_of, is_trim_range, parse_i32, signed_value, trim_is_unique, trim_text,
    trimmed};
use crate::text::{decimal, decimal_text, joined, same_text};
use vstd::prelude::*;

verus! {

/// Why the daemon could not be started, probed or stopped.
#[derive(Debug, PartialEq, Eq)]
pub enum LifecycleError {
    AlreadyRunning,
    UnsafeSocket(String),
    AmbiguousSocket(String),
    LockNotHeld,
    InvalidPid,
    InvalidHello,
    NotRunning(String),
    Io(String),
}

pub enum LifecycleErrorView {
    AlreadyRunning,
    UnsafeSocket(Seq<char>),
    AmbiguousSocket(Seq<char>),
    LockNotHeld,
    InvalidPid,
    InvalidHello,
    NotRunning(Seq<char>),
    Io(Seq<char>),
}

impl View for LifecycleError {
    type V = LifecycleErrorView;

    open spec fn view(&self) -> LifecycleErrorView {
        match self {
            LifecycleError::AlreadyRunning => LifecycleErrorView::AlreadyRunning,
            LifecycleError::UnsafeSocket(path) => LifecycleErrorView::UnsafeSocket(path@),
            LifecycleError::AmbiguousSocket(message) => LifecycleErrorView::AmbiguousSocket(message@),
            LifecycleError::LockNotHeld => LifecycleErrorView::LockNotHeld,
            LifecycleError::InvalidPid => LifecycleErrorView::InvalidPid,
            LifecycleError::InvalidHello => LifecycleErrorView::InvalidHello,
            LifecycleError::NotRunning(message) => LifecycleErrorView::NotRunning(message@),
            LifecycleError::Io(message) => LifecycleErrorView::Io(message@),
        }
    }
}

pub open spec fn lifecycle_error_text(error: LifecycleErrorView) -> Seq<char> {
    match error {
        LifecycleErrorView::AlreadyRunning => "daemon is already running"@,
        LifecycleErrorView::UnsafeSocket(path) => "unsafe existing socket path "@ + path,
        LifecycleErrorView::AmbiguousSocket(message) => "cannot prove existing socket is stale: "@ + message,
        LifecycleErrorView::LockNotHeld => "daemon lock is not held"@,
        LifecycleErrorView::InvalidPid => "invalid daemon PID file"@,
        LifecycleErrorView::InvalidHello => "daemon did not answer the P1a hello"@,
        LifecycleErrorView::NotRunning(message) => "daemon is not running: "@ + message,
        LifecycleErrorView::Io(message) => "lifecycle operation failed: "@ + message,
    }
}

impl LifecycleError {
    pub fn message(&self) -> (text: String)
        ensures
            text@ == lifecycle_error_text(self@),
    {
        match self {
            LifecycleError::AlreadyRunning => "daemon is already running".to_owned(),
            LifecycleError::UnsafeSocket(path) => joined("unsafe existing socket path ", path.as_str()),
            LifecycleError::AmbiguousSocket(message) => joined("cannot prove existing socket is stale: ", message.as_str()),
            LifecycleError::LockNotHeld => "daemon lock is not held".to_owned(),
            LifecycleError::InvalidPid => "invalid daemon PID file".to_owned(),
            LifecycleError::InvalidHello => "daemon did not answer the P1a hello".to_owned(),
            LifecycleError::NotRunning(message) => joined("daemon is not running: ", message.as_str()),
            LifecycleError::Io(message) => joined("lifecycle operation failed: ", message.as_str()),
        }
    }
}

/// The outcome of a check, by its error.
pub open spec fn lifecycle_refusal(result: Result<(), LifecycleError>) -> Option<LifecycleErrorView> {
    match result {
        Ok(()) => None,
        Err(error) => Some(error@),
    }
}

// ---------------------------------------------------------------------------
// Probing

/// The largest reply that a probe reads: 64 KiB.
pub const PROBE_FRAME_LIMIT: usize = 65536;

/// The request of a probe.
pub open spec fn hello_json() -> JsonView {
    JsonView::Object(
        Map::empty()
            .insert("v"@, JsonView::Unsigned(PROTOCOL_VERSION))
            .insert("kind"@, JsonView::Text("req"@))
            .insert("id"@, JsonView::Text("lifecycle"@))
            .insert("method"@, JsonView::Text("server.hello"@))
            .insert("params"@, JsonView::Object(Map::empty())),
    )
}

/// The bytes of a probe's request, with the line break.
pub fn hello_frame() -> (bytes: Vec<u8>)
    ensures
        bytes@ == json_bytes(hello_json()).push(10u8),
{
    let request = JsonObject::new()
        .with("v", Json::unsigned(PROTOCOL_VERSION))
        .with("kind", Json::text("req"))
        .with("id", Json::text("lifecycle"))
        .with("method", Json::text("server.hello"))
        .with("params", JsonObject::new().done())
        .done();
    let mut bytes = encode_json(&request);
    bytes.push(10u8);
    bytes
}

/// What a reply means to a probe.
#[derive(Clone, Copy, Debug, PartialEq, Eq, Structural)]
pub enum HelloReply {
    /// Not the answer: read on.
    Unrelated,
    /// The daemon speaks this protocol.
    Accepted,
    /// Something else is listening.
    Rejected,
}

pub open spec fn field_is_text(json: JsonView, key: Seq<char>, text: Seq<char>) -> bool {
    json_field(json, key) == Some(JsonView::Text(text))
}

/// What a document means to a probe: events and answers to others are passed
/// over, and the answer must name this protocol.
pub open spec fn hello_reply(json: JsonView) -> HelloReply {
    let is_event = field_is_text(json, "kind"@, "event"@) && json_field(json, "v"@) == Some(JsonView::Unsigned(PROTOCOL_VERSION))
        && (json_field(json, "name"@) matches Some(name) && name is Text) && json_field(json, "payload"@) is Some;
    let is_response = field_is_text(json, "kind"@, "res"@);
    let is_answer = field_is_text(json, "id"@, "lifecycle"@);
    if is_event || (is_response && !is_answer) {
        HelloReply::Unrelated
    } else if is_response && json_field(json, "ok"@) == Some(JsonView::Bool(true)) && (json_field(json, "result"@) matches Some(result)
        && json_field(result, "protocolVersion"@) == Some(JsonView::Unsigned(PROTOCOL_VERSION))) {
        HelloReply::Accepted
    } else {
        HelloReply::Rejected
    }
}

fn has_text(json: &Json, key: &str, text: &str) -> (r: bool)
    ensures
        r == field_is_text(json@, key@, text@),
{
    match json.field(key) {
        Some(value) => match value.as_text() {
            Some(found) => same_text(found.as_str(), text),
            None => false,
        },
        None => false,
    }
}

fn has_number(json: &Json, key: &str, number: u64) -> (r: bool)
    ensures
        r == (json_field(json@, key@) == Some(JsonView::Unsigned(number))),
{
    match json.field(key) {
        Some(value) => match value.as_unsigned() {
            Some(found) => found == number,
            None => false,
        },
        None => false,
    }
}

/// Judges a document that came in reply to a probe.
pub fn judge_reply(json: &Json) -> (reply: HelloReply)
    ensures
        reply == hello_reply(json@),
{
    let named = match json.field("name") {
        Some(value) => value.as_text().is_some(),
        None => false,
    };
    if has_text(json, "kind", "event") && has_number(json, "v", PROTOCOL_VERSION) && named && json.field("payload").is_some() {
        return HelloReply::Unrelated;
    }
    let is_response = has_text(json, "kind", "res");
    if is_response && !has_text(json, "id", "lifecycle") {
        return HelloReply::Unrelated;
    }
    let ok = match json.field("ok") {
        Some(value) => match value.as_bool() {
            Some(truth) => truth,
            None => false,
        },
        None => false,
    };
    let speaks = match json.field("result") {
        Some(result) => has_number(result, "protocolVersion", PROTOCOL_VERSION),
        None => false,
    };
    if is_response && ok && speaks {
        HelloReply::Accepted
    } else {
        HelloReply::Rejected
    }
}

/// What a frame means to a probe; one that is no document is no answer.
pub open spec fn hello_frame_reply(parsed: Result<JsonView, Seq<char>>) -> HelloReply {
    match parsed {
        Ok(json) => hello_reply(json),
        Err(_) => HelloReply::Rejected,
    }
}

/// Judges a frame that came in reply to a probe.
pub fn judge_reply_frame(frame: &[u8]) -> (reply: HelloReply)
    ensures
        reply == hello_frame_reply(json_parsed(frame@)),
{
    match parse_json(frame) {
        Ok(json) => judge_reply(&json),
        Err(_) => HelloReply::Rejected,
    }
}

/// What reading one byte of a reply led to.
#[derive(Clone, Copy, Debug, PartialEq, Eq, Structural)]
pub enum Collected {
    More,
    Done,
    TooLarge,
}

/// Collects the bytes of one reply.
#[derive(Debug)]
pub struct FrameCollector {
    pub frame: Vec<u8>,
    pub limit: usize,
}

impl FrameCollector {
    pub fn new(limit: usize) -> (collector: FrameCollector)
        ensures
            collector.frame@ == Seq::<u8>::empty(),
            collector.limit == limit,
    {
        FrameCollector { frame: Vec::new(), limit }
    }

    /// Takes the next byte, or the end of the stream.
    pub fn push(&mut self, byte: Option<u8>) -> (collected: Collected)
        requires
            old(self).frame@.len() <= old(self).limit,
        ensures
            final(self).limit == old(self).limit,
            byte is None || byte == Some(10u8) ==> collected == Collected::Done && final(self).frame@ == old(self).frame@,
            byte matches Some(value) ==> (value != 10 ==> {
                &&& final(self).frame@ == old(self).frame@.push(value)
                &&& collected == if old(self).frame@.len() < old(self).limit { Collected::More } else { Collected::TooLarge }
            }),
            collected == Collected::More ==> final(self).frame@.len() <= final(self).limit,
    {
        match byte {
            None => Collected::Done,
            Some(value) => {
                if value == 10 {
                    return Collected::Done;
                }
                self.frame.push(value);
                if self.frame.len() <= self.limit {
                    Collected::More
                } else {
                    Collected::TooLarge
                }
            },
        }
    }
}

/// The daemon's own greeting is accepted by a probe.
pub proof fn own_greeting_is_accepted(result: Map<Seq<char>, JsonView>)
    requires
        result.dom().contains("protocolVersion"@),
        result["protocolVersion"@] == JsonView::Unsigned(PROTOCOL_VERSION),
    ensures
        hello_reply(crate::envelope::result_message("lifecycle"@, JsonView::Object(result))) == HelloReply::Accepted,
{
    reveal_strlit("kind");
    reveal_strlit("event");
    reveal_strlit("res");
    reveal_strlit("id");
    reveal_strlit("ok");
    reveal_strlit("v");
    reveal_strlit("result");
    assert("kind"@.len() == 4);
    assert("event"@.len() == 5);
    assert("res"@.len() == 3);
    assert("id"@.len() == 2);
    assert("ok"@.len() == 2);
    assert("v"@.len() == 1);
    assert("result"@.len() == 6);
    assert("id"@[0] != "ok"@[0]);
}

// ---------------------------------------------------------------------------
// The lock

/// The path of a socket's lock file.
pub fn lock_path(socket: &str) -> (path: String)
    ensures
        path@ == socket@ + ".lock"@,
{
    joined(socket, ".lock")
}

/// Accepts a lock file that is a regular file of the user's.
pub fn lock_file_is_owned(facts: &FileFacts, user: u32) -> (r: bool)
    ensures
        r == (facts.kind == FileKind::Regular && facts.owner == user),
{
    facts.kind == FileKind::Regular && facts.owner == user
}

/// The process that a lock file names: a number above 1, alone in the file.
pub open spec fn pid_in(text: Seq<char>) -> Option<int> {
    match signed_value(trim_text(text)) {
        Some(number) => if number > 1 {
            Some(number)
        } else {
            None
        },
        None => None,
    }
}

/// Reads the process that a lock file names.
pub fn parse_pid(text: &str) -> (pid: Result<i32, LifecycleError>)
    ensures
        pid matches Ok(number) ==> pid_in(text@) == Some(number as int),
        pid matches Err(error) ==> pid_in(text@) is None && error@ == LifecycleErrorView::InvalidPid,
{
    match parse_i32(trimmed(text).as_str()) {
        Some(number) => if number > 1 {
            Ok(number)
        } else {
            Err(LifecycleError::InvalidPid)
        },
        None => Err(LifecycleError::InvalidPid),
    }
}

/// What a daemon writes into its lock file.
pub fn lock_text(process: u32) -> (text: String)
    ensures
        text@ == decimal_text(process as nat) + "\n"@,
        1 < process <= i32::MAX ==> pid_in(text@) == Some(process as int),
{
    proof {
        if 1 < process <= i32::MAX {
            the_lock_names_its_owner(process);
        }
    }
    joined(decimal(process as u64).as_str(), "\n")
}

/// Whoever reads the lock file of a daemon finds the daemon's own process.
pub proof fn the_lock_names_its_owner(process: u32)
    requires
        1 < process <= i32::MAX,
    ensures
        pid_in(decimal_text(process as nat) + "\n"@) == Some(process as int),
{
    let digits = decimal_text(process as nat);
    let text = digits + "\n"@;
    decimals_read_back(process as nat);
    reveal_strlit("\n");
    assert(is_digit(digits[0]) && is_digit(digits[digits.len() - 1]));
    assert(text[0] == digits[0] && text[digits.len() - 1] == digits[digits.len() - 1]);
    assert(is_trim_range(text, 0, digits.len() as int));
    assert(text.subrange(0, digits.len() as int) =~= digits);
    assert(is_trim_of(digits, text));
    trim_is_unique(digits, trim_text(text), text);
}

// ---------------------------------------------------------------------------
// Sockets that are left over

/// How connecting to an existing socket went.
#[derive(Debug)]
pub enum ConnectOutcome {
    Connected,
    Refused,
    Failed(String),
}

/// A socket that is the user's.
pub open spec fn is_own_socket(facts: FileFacts, user: u32) -> bool {
    facts.kind == FileKind::Socket && facts.owner == user
}

/// Whether what stands at the socket's path can be a socket that was left over.
pub fn check_existing_socket(path: &str, facts: &FileFacts, user: u32) -> (r: Result<(), LifecycleError>)
    ensures
        lifecycle_refusal(r) == if is_own_socket(*facts, user) {
            None::<LifecycleErrorView>
        } else {
            Some(LifecycleErrorView::UnsafeSocket(path@))
        },
{
    if facts.kind == FileKind::Socket && facts.owner == user {
        Ok(())
    } else {
        Err(LifecycleError::UnsafeSocket(path.to_owned()))
    }
}

/// What connecting to it says: only a socket that refuses is left over.
pub open spec fn connect_refusal(outcome: ConnectOutcome) -> Option<LifecycleErrorView> {
    match outcome {
        ConnectOutcome::Connected => Some(LifecycleErrorView::AlreadyRunning),
        ConnectOutcome::Refused => None,
        ConnectOutcome::Failed(message) => Some(LifecycleErrorView::AmbiguousSocket(message@)),
    }
}

/// Whether a socket that was connected to is left over.
pub fn check_connection(outcome: ConnectOutcome) -> (r: Result<(), LifecycleError>)
    ensures
        lifecycle_refusal(r) == connect_refusal(outcome),
{
    match outcome {
        ConnectOutcome::Connected => Err(LifecycleError::AlreadyRunning),
        ConnectOutcome::Refused => Ok(()),
        ConnectOutcome::Failed(message) => Err(LifecycleError::AmbiguousSocket(message)),
    }
}

/// Whether the path still names the socket that was judged.
pub fn check_unchanged_socket(path: &str, before: &FileFacts, after: &FileFacts, user: u32) -> (r: Result<(), LifecycleError>)
    ensures
        lifecycle_refusal(r) == if is_own_socket(*after, user) && before.same_file(*after) {
            None::<LifecycleErrorView>
        } else {
            Some(LifecycleErrorView::UnsafeSocket(path@))
        },
{
    if facts_are_own_socket(after, user) && before.is_same_file(after) {
        Ok(())
    } else {
        Err(LifecycleError::UnsafeSocket(path.to_owned()))
    }
}

fn facts_are_own_socket(facts: &FileFacts, user: u32) -> (r: bool)
    ensures
        r == is_own_socket(*facts, user),
{
    facts.kind == FileKind::Socket && facts.owner == user
}

/// How far the judgement of what stands at the socket's path has come.
#[derive(Clone, Copy, Debug, PartialEq, Eq, Structural)]
pub enum StaleState {
    /// Nothing is known yet.
    Unseen,
    /// An own socket was seen.
    Seen(FileFacts),
    /// An own socket was seen, and refused a connection.
    Refused(FileFacts),
    /// The judgement is over.
    Over,
}

/// What was found out about the socket's path.
#[derive(Debug)]
pub enum StaleEvent {
    /// There is nothing, with the wording of the error.
    Absent(String),
    /// There is something.
    Present(FileFacts),
    /// It could not be looked at.
    Unknown(String),
    /// A connection was tried.
    Tried(ConnectOutcome),
}

pub enum StaleEventView {
    Absent(Seq<char>),
    Present(FileFacts),
    Unknown(Seq<char>),
    Connected,
    Refused,
    Failed(Seq<char>),
}

impl View for StaleEvent {
    type V = StaleEventView;

    open spec fn view(&self) -> StaleEventView {
        match self {
            StaleEvent::Absent(message) => StaleEventView::Absent(message@),
            StaleEvent::Present(facts) => StaleEventView::Present(*facts),
            StaleEvent::Unknown(message) => StaleEventView::Unknown(message@),
            StaleEvent::Tried(ConnectOutcome::Connected) => StaleEventView::Connected,
            StaleEvent::Tried(ConnectOutcome::Refused) => StaleEventView::Refused,
            StaleEvent::Tried(ConnectOutcome::Failed(message)) => StaleEventView::Failed(message@),
        }
    }
}

/// What to do next about the socket's path.
#[derive(Debug, PartialEq, Eq)]
pub enum StaleAction {
    /// The path is free.
    Proceed,
    /// Try to connect to the socket.
    Connect,
    /// Look at the path once more.
    LookAgain,
    /// Remove the socket with that device and inode.
    Remove { device: u64, inode: u64 },
    /// Give up.
    Refuse(LifecycleError),
}

pub enum StaleActionView {
    Proceed,
    Connect,
    LookAgain,
    Remove { device: u64, inode: u64 },
    Refuse(LifecycleErrorView),
}

impl View for StaleAction {
    type V = StaleActionView;

    open spec fn view(&self) -> StaleActionView {
        match self {
            StaleAction::Proceed => StaleActionView::Proceed,
            StaleAction::Connect => StaleActionView::Connect,
            StaleAction::LookAgain => StaleActionView::LookAgain,
            StaleAction::Remove { device, inode } => StaleActionView::Remove { device: *device, inode: *inode },
            StaleAction::Refuse(error) => StaleActionView::Refuse(error@),
        }
    }
}

/// The event answers the last action.
pub open spec fn is_awaited(state: StaleState, event: StaleEventView) -> bool {
    match state {
        StaleState::Unseen | StaleState::Refused(_) => event is Absent || event is Present || event is Unknown,
        StaleState::Seen(_) => event is Connected || event is Refused || event is Failed,
        StaleState::Over => false,
    }
}

/// The next state and action. A socket that is left over is one of the user's
/// own that refuses connections and is still the same afterwards.
pub open spec fn stale_step(path: Seq<char>, user: u32, state: StaleState, event: StaleEventView) -> (StaleState, StaleActionView) {
    match (state, event) {
        (StaleState::Unseen, StaleEventView::Absent(_)) => (StaleState::Over, StaleActionView::Proceed),
        (StaleState::Unseen, StaleEventView::Present(facts)) => if is_own_socket(facts, user) {
            (StaleState::Seen(facts), StaleActionView::Connect)
        } else {
            (StaleState::Over, StaleActionView::Refuse(LifecycleErrorView::UnsafeSocket(path)))
        },
        (StaleState::Seen(facts), StaleEventView::Refused) => (StaleState::Refused(facts), StaleActionView::LookAgain),
        (_, StaleEventView::Connected) => (StaleState::Over, StaleActionView::Refuse(LifecycleErrorView::AlreadyRunning)),
        (_, StaleEventView::Failed(message)) => (
            StaleState::Over,
            StaleActionView::Refuse(LifecycleErrorView::AmbiguousSocket(message)),
        ),
        (StaleState::Refused(before), StaleEventView::Present(after)) => if is_own_socket(after, user) && before.same_file(after) {
            (StaleState::Over, StaleActionView::Remove { device: after.device, inode: after.inode })
        } else {
            (StaleState::Over, StaleActionView::Refuse(LifecycleErrorView::UnsafeSocket(path)))
        },
        (_, StaleEventView::Absent(message)) | (_, StaleEventView::Unknown(message)) => (
            StaleState::Over,
            StaleActionView::Refuse(LifecycleErrorView::Io(message)),
        ),
        _ => (StaleState::Over, StaleActionView::Refuse(LifecycleErrorView::UnsafeSocket(path))),
    }
}

/// Judges what stands at the socket's path, step by step.
#[derive(Debug)]
pub struct StaleCheck {
    pub path: String,
    pub user: u32,
    pub state: StaleState,
}

impl StaleCheck {
    pub fn new(path: &str, user: u32) -> (check: StaleCheck)
        ensures
            check.path@ == path@,
            check.user == user,
            check.state == StaleState::Unseen,
    {
        StaleCheck { path: path.to_owned(), user, state: StaleState::Unseen }
    }

    fn over(&mut self, result: Result<(), LifecycleError>, next: StaleState, action: StaleAction) -> (r: StaleAction)
        ensures
            final(self).path == old(self).path,
            final(self).user == old(self).user,
            result is Ok ==> final(self).state == next && r == action,
            result matches Err(error) ==> final(self).state == StaleState::Over && r == StaleAction::Refuse(error),
    {
        match result {
            Ok(()) => {
                self.state = next;
                action
            },
            Err(error) => {
                self.state = StaleState::Over;
                StaleAction::Refuse(error)
            },
        }
    }

    /// Takes note of what was found out, and says what to do next.
    pub fn step(&mut self, event: StaleEvent) -> (action: StaleAction)
        requires
            is_awaited(old(self).state, event@),
        ensures
            (final(self).state, action@) == stale_step(old(self).path@, old(self).user, old(self).state, event@),
            final(self).path == old(self).path,
            final(self).user == old(self).user,
    {
        let user = self.user;
        match (self.state, event) {
            (StaleState::Unseen, StaleEvent::Absent(_)) => {
                self.state = StaleState::Over;
                StaleAction::Proceed
            },
            (StaleState::Unseen, StaleEvent::Present(facts)) => {
                let result = check_existing_socket(self.path.as_str(), &facts, user);
                self.over(result, StaleState::Seen(facts), StaleAction::Connect)
            },
            (StaleState::Seen(facts), StaleEvent::Tried(outcome)) => {
                let result = check_connection(outcome);
                self.over(result, StaleState::Refused(facts), StaleAction::LookAgain)
            },
            (StaleState::Refused(before), StaleEvent::Present(after)) => {
                let result = check_unchanged_socket(self.path.as_str(), &before, &after, user);
                self.over(
                    result,
                    StaleState::Over,
                    StaleAction::Remove { device: after.device, inode: after.inode },
                )
            },
            (_, StaleEvent::Absent(message)) => {
                self.state = StaleState::Over;
                StaleAction::Refuse(LifecycleError::Io(message))
            },
            (_, StaleEvent::Unknown(message)) => {
                self.state = StaleState::Over;
                StaleAction::Refuse(LifecycleError::Io(message))
            },
            _ => {
                self.state = StaleState::Over;
                StaleAction::Refuse(LifecycleError::UnsafeSocket(self.path.clone()))
            },
        }
    }
}

/// The state and the last action after these events.
pub open spec fn stale_run(path: Seq<char>, user: u32, events: Seq<StaleEventView>) -> (StaleState, Option<StaleActionView>)
    decreases events.len(),
{
    if events.len() == 0 {
        (StaleState::Unseen, None)
    } else {
        let (state, action) = stale_step(path, user, stale_run(path, user, events.drop_last()).0, events.last());
        (state, Some(action))
    }
}

/// Each event answers the action before it.
pub open spec fn are_awaited(path: Seq<char>, user: u32, events: Seq<StaleEventView>) -> bool
    decreases events.len(),
{
    events.len() == 0 || are_awaited(path, user, events.drop_last()) && is_awaited(
        stale_run(path, user, events.drop_last()).0,
        events.last(),
    )
}

proof fn stale_states_tell_their_past(path: Seq<char>, user: u32, events: Seq<StaleEventView>)
    requires
        are_awaited(path, user, events),
    ensures
        ({
            let state = stale_run(path, user, events).0;
            &&& state == StaleState::Unseen ==> events.len() == 0
            &&& state matches StaleState::Seen(facts) ==> is_own_socket(facts, user) && events == seq![
                StaleEventView::Present(facts),
            ]
            &&& state matches StaleState::Refused(facts) ==> is_own_socket(facts, user) && events == seq![
                StaleEventView::Present(facts),
                StaleEventView::Refused,
            ]
        }),
    decreases events.len(),
{
    if events.len() > 0 {
        let before = events.drop_last();
        stale_states_tell_their_past(path, user, before);
        assert(events =~= before.push(events.last()));
        match stale_run(path, user, events).0 {
            StaleState::Seen(facts) => {
                assert(events =~= seq![StaleEventView::Present(facts)]);
            },
            StaleState::Refused(facts) => {
                assert(events =~= seq![StaleEventView::Present(facts), StaleEventView::Refused]);
            },
            _ => {},
        }
    }
}

/// A socket is removed only after all that proves it stale: a socket of the
/// user's own was seen, it refused a connection, and then the same socket, still
/// the user's own, was seen again. And then it is removed.
pub proof fn only_stale_sockets_are_removed(path: Seq<char>, user: u32, events: Seq<StaleEventView>)
    requires
        are_awaited(path, user, events),
    ensures
        (stale_run(path, user, events).1 matches Some(action) && action is Remove) <==> (exists|before: FileFacts, after: FileFacts|
            {
                &&& is_own_socket(before, user)
                &&& is_own_socket(after, user)
                &&& #[trigger] before.same_file(after)
                &&& events == seq![
                    StaleEventView::Present(before),
                    StaleEventView::Refused,
                    StaleEventView::Present(after),
                ]
            }),
        stale_run(path, user, events).1 matches Some(StaleActionView::Remove { device, inode }) ==> events.last()
            matches StaleEventView::Present(facts) && facts.device == device && facts.inode == inode,
{
    if events.len() > 0 {
        let shorter = events.drop_last();
        stale_states_tell_their_past(path, user, shorter);
        match stale_run(path, user, events).1 {
            Some(StaleActionView::Remove { device, inode }) => {
                let before = stale_run(path, user, shorter).0->Refused_0;
                let after = events.last()->Present_0;
                assert(before.same_file(after));
                assert(events =~= seq![
                    StaleEventView::Present(before),
                    StaleEventView::Refused,
                    StaleEventView::Present(after),
                ]);
            },
            _ => {},
        }
        if exists|before: FileFacts, after: FileFacts|
            {
                &&& is_own_socket(before, user)
                &&& is_own_socket(after, user)
                &&& #[trigger] before.same_file(after)
                &&& events == seq![
                    StaleEventView::Present(before),
                    StaleEventView::Refused,
                    StaleEventView::Present(after),
                ]
            } {
            let (before, after) = choose|before: FileFacts, after: FileFacts|
                {
                    &&& is_own_socket(before, user)
                    &&& is_own_socket(after, user)
                    &&& #[trigger] before.same_file(after)
                    &&& events == seq![
                        StaleEventView::Present(before),
                        StaleEventView::Refused,
                        StaleEventView::Present(after),
                    ]
                };
            let first = shorter.drop_last();
            assert(first.last() == StaleEventView::Present(before));
            assert(shorter.last() == StaleEventView::Refused);
            assert(first.drop_last().len() == 0);
            assert(stale_run(path, user, first.drop_last()).0 == StaleState::Unseen);
            assert(stale_run(path, user, first).0 == StaleState::Seen(before));
            assert(stale_run(path, user, shorter).0 == StaleState::Refused(before));
        }
    }
}

/// Whether a file is the socket with that device and inode.
pub fn is_expected_socket(facts: &FileFacts, device: u64, inode: u64) -> (r: bool)
    ensures
        r == (facts.kind == FileKind::Socket && facts.device == device && facts.inode == inode),
{
    facts.kind == FileKind::Socket && facts.device == device && facts.inode == inode
}

/// The name under which a socket is moved aside before it is removed.
pub fn quarantine_name(file_name: &str, process: u32, sequence: u64) -> (name: String)
    ensures
        name@ == file_name@ + ".jeffd-remove-"@ + decimal_text(process as nat) + "-"@ + decimal_text(sequence as nat),
{
    let mut name = joined(file_name, ".jeffd-remove-");
    name.append(decimal(process as u64).as_str());
    name.append("-");
    name.append(decimal(sequence).as_str());
    name
}

} // verus!
