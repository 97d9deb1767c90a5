use jeff_control::config::{ConfigError, DaemonConfig};
use jeff_control::files::{FileFacts, FileKind};
use jeff_control::framing::{Counter, FrameReader, ReadStep};
use jeff_control::lifecycle::{
    check_connection, check_existing_socket, check_unchanged_socket, hello_frame, judge_reply_frame,
    ConnectOutcome, HelloReply, LifecycleError,
};
use jeff_control::limits::Limits;
use jeff_control::project::ProjectRecord;
use jeff_control::protocol::{CounterName, WriterMessage};
use jeff_control::registry::{
    check_opened_registry, check_registry_directory, check_registry_file, registry_from_records,
    reject_oversized, RegistryError,
};
use jeff_control::server::model::{Effect, SnapshotRun};
use jeff_control::server::registry_watch::first_watches;
use jeff_control::server::snapshots::retained_snapshot_fits;
use jeff_control::server::turn::OwnerMessage;
use jeff_control::server::Server;
use jeff_control::snapshot::{
    parse_snapshot_output, ExitFacts, OutputStream, Poll, SnapshotFailure, SnapshotInvocation,
    SnapshotSupervisor,
};
use jeff_control::time::Duration;
use serde_json::Value;
use std::collections::{BTreeMap, BTreeSet, VecDeque};

const MAX_FRAME_BYTES: usize = 16 * 1024 * 1024;
const REGISTRY: &str = "/home/user/.jeff/projects.json";

struct Client {
    queue: VecDeque<WriterMessage>,
    sent: Vec<Vec<u8>>,
    blocked: bool,
    closed: bool,
}

/// The daemon's core, with writers that deliver at once unless they are told
/// to block.
struct Daemon {
    server: Server,
    clients: BTreeMap<u64, Client>,
    launched: VecDeque<SnapshotRun>,
    invocations: Vec<String>,
    cancelled: Vec<SnapshotRun>,
    clock: u64,
}

fn json(text: &str) -> Value {
    serde_json::from_str(text).expect("test document")
}

fn record_a() -> String {
    r#"{"id": "project-a", "path": "/work/a", "name": "Project A", "enabled": true,
        "cook": ["/bin/cook", "--fixture"]}"#
        .to_owned()
}

fn record_b() -> String {
    r#"{"id": "project-b", "path": "/work/b", "name": "Project B", "enabled": true}"#.to_owned()
}

fn named(id: &str) -> String {
    format!(r#"{{"id": "{id}", "path": "/work/{id}", "name": "{id}", "enabled": true}}"#)
}

fn records(list: &[String]) -> Vec<ProjectRecord> {
    load_registry(&format!("[{}]", list.join(","))).expect("valid registry")
}

fn record_of(row: &Value) -> ProjectRecord {
    let text = |name: &str| row[name].as_str().expect("a text").to_owned();
    ProjectRecord {
        id: text("id"),
        path: text("path"),
        name: text("name"),
        enabled: row["enabled"].as_bool().expect("a truth value"),
        cook: row["cook"].as_array().map(|words| {
            words.iter().map(|word| word.as_str().expect("a text").to_owned()).collect()
        }),
    }
}

/// Loads a registry from its text, as a reader of the file does.
fn load_registry(text: &str) -> Result<Vec<ProjectRecord>, RegistryError> {
    reject_oversized(text.len() as u64)?;
    registry_from_records(
        serde_json::from_str::<Vec<Value>>(text)
            .map(|rows| rows.iter().map(record_of).collect())
            .map_err(|error| error.to_string()),
    )
}

fn snapshot(generated_at: &str, title: &str) -> String {
    let escaped = serde_json::to_string(title).expect("title");
    format!(
        r#"{{"generatedAt":"{generated_at}","mode":"lite","schemaVersion":1,"tasks":[{{"blockedReason":null,"deps":[],"id":1,"priority":"p1","slug":"one","stage":"implement","status":"in_progress","title":{escaped}}}]}}"#
    )
}

fn first() -> String {
    snapshot("2026-08-10T10:00:00Z", "first")
}

impl Daemon {
    fn new(list: &[String]) -> Daemon {
        Daemon::limited(list, "")
    }

    fn limited(list: &[String], overrides: &str) -> Daemon {
        let limits = Limits::new(MAX_FRAME_BYTES, Some(overrides));
        Daemon {
            server: Server::new(
                limits,
                "9.9.9",
                REGISTRY,
                records(list),
                Duration::from_millis(150),
            ),
            clients: BTreeMap::new(),
            launched: VecDeque::new(),
            invocations: Vec::new(),
            cancelled: Vec::new(),
            clock: 0,
        }
    }

    fn now(&self) -> Duration {
        Duration::from_millis(self.clock)
    }

    fn client(&mut self) -> u64 {
        let id = self.server.add_connection().expect("room for a client");
        self.clients.insert(
            id,
            Client { queue: VecDeque::new(), sent: Vec::new(), blocked: false, closed: false },
        );
        id
    }

    fn release(&mut self, message: WriterMessage) {
        match message {
            WriterMessage::Frame(frame) => frame.release(&mut self.server.ledger),
            WriterMessage::Terminal(frame) => frame.release(&mut self.server.ledger),
            WriterMessage::Close => {}
        }
    }

    fn write_queue(&mut self, id: u64) {
        loop {
            let client = self.clients.get_mut(&id).expect("client");
            let Some(message) = client.queue.pop_front() else {
                return;
            };
            if client.blocked {
                // A blocked writer has taken one frame out of its queue.
                let message = match message {
                    WriterMessage::Frame(mut frame) => {
                        frame.begin_write(&mut self.server.ledger);
                        WriterMessage::Frame(frame)
                    }
                    other => other,
                };
                self.clients.get_mut(&id).expect("client").queue.push_front(message);
                return;
            }
            let bytes = match &message {
                WriterMessage::Frame(frame) => frame.bytes.clone(),
                WriterMessage::Terminal(frame) => frame.bytes().clone(),
                WriterMessage::Close => Vec::new(),
            };
            client.sent.push(bytes);
            self.release(message);
        }
    }

    fn discard_queue(&mut self, id: u64) {
        let queue = std::mem::take(&mut self.clients.get_mut(&id).expect("client").queue);
        for message in queue {
            self.release(message);
        }
    }

    fn settle(&mut self) {
        loop {
            let effects = self.server.take_effects();
            if effects.is_empty() {
                return;
            }
            for effect in effects {
                match effect {
                    Effect::Deliver { connection, message } => {
                        let client = self.clients.get_mut(&connection).expect("client");
                        client.queue.push_back(message);
                        self.write_queue(connection);
                    }
                    Effect::Shutdown { connection } => {
                        self.clients.get_mut(&connection).expect("client").closed = true;
                        self.server.writer_stopped(connection);
                        self.server.drop_disconnected_connections(&vec![connection]);
                    }
                    Effect::Close { connection, .. } => {
                        self.clients.get_mut(&connection).expect("client").closed = true;
                        self.write_queue(connection);
                        self.discard_queue(connection);
                    }
                    Effect::Drop { connection } => {
                        self.clients.get_mut(&connection).expect("client").closed = true;
                        self.discard_queue(connection);
                    }
                    Effect::Launch { run } => {
                        self.invocations.push(run.record.path.clone());
                        self.launched.push_back(run);
                    }
                    Effect::Cancel { run } => self.cancelled.push(run),
                }
            }
        }
    }

    fn raw(&mut self, client: u64, frame: &[u8]) {
        let now = self.now();
        self.server.handle_message(
            OwnerMessage::Request { connection: client, frame: frame.to_vec() },
            now,
        );
        self.settle();
    }

    fn send(&mut self, client: u64, id: &str, method: &str, params: &str) {
        let id = serde_json::to_string(id).expect("id");
        self.raw(
            client,
            format!(r#"{{"v":1,"kind":"req","id":{id},"method":"{method}","params":{params}}}"#)
                .as_bytes(),
        );
    }

    fn frames(&mut self, client: u64) -> Vec<Value> {
        let sent = std::mem::take(&mut self.clients.get_mut(&client).expect("client").sent);
        sent.iter()
            .map(|bytes| serde_json::from_slice(bytes).expect("a frame is one document"))
            .collect()
    }

    fn one(&mut self, client: u64) -> Value {
        let mut frames = self.frames(client);
        assert_eq!(frames.len(), 1, "exactly one frame: {frames:?}");
        frames.remove(0)
    }

    fn request(&mut self, client: u64, id: &str, method: &str, params: &str) -> Value {
        self.send(client, id, method, params);
        while let Some(run) = self.launched.pop_front() {
            self.finish(run, &first());
        }
        let frame = self.one(client);
        assert_eq!(frame["id"], id);
        frame
    }

    fn done(&mut self, run: SnapshotRun, output: Result<&str, SnapshotFailure>) {
        let result = match output {
            Ok(text) => parse_snapshot_output(text.as_bytes()),
            Err(failure) => Err(failure),
        };
        let now = self.now();
        self.server.handle_message(OwnerMessage::SnapshotDone { run, result }, now);
        self.settle();
    }

    fn finish(&mut self, run: SnapshotRun, text: &str) {
        self.done(run, Ok(text));
    }

    fn run(&mut self) -> SnapshotRun {
        self.launched.pop_front().expect("a run was launched")
    }

    fn touch(&mut self, path: &str) {
        let now = self.now();
        self.server.handle_notify(&vec![path.to_owned()], now);
        self.settle();
    }

    fn pass(&mut self, millis: u64) {
        self.clock += millis;
        let now = self.now();
        self.server.run_due_snapshots(now);
        self.settle();
    }

    fn replace(&mut self, list: &[String]) {
        let projects = records(list);
        let now = self.now();
        self.server.replace_registry(projects, &Vec::new(), now);
        self.settle();
    }

    fn unblock(&mut self, client: u64) {
        self.clients.get_mut(&client).expect("client").blocked = false;
        self.write_queue(client);
    }

    fn block(&mut self, client: u64) {
        self.clients.get_mut(&client).expect("client").blocked = true;
    }

    fn stop(&mut self) {
        self.server.begin_shutdown();
        self.settle();
        let blocked: Vec<u64> = self.clients.keys().copied().collect();
        for client in blocked {
            self.unblock(client);
        }
        while let Some(run) = self.launched.pop_front() {
            self.server.drain_snapshot(&run);
        }
        assert!(self.server.active.is_empty());
        self.server.close_all_connections();
        self.settle();
    }

    fn closed(&self, client: u64) -> bool {
        self.clients[&client].closed
    }
}

fn ok(frame: &Value) -> &Value {
    assert_eq!(frame["kind"], "res");
    assert_eq!(frame["ok"], true, "request failed: {frame}");
    &frame["result"]
}

#[test]
fn protocol_methods_events_and_sixteen_mibibyte_framing_are_enforced() {
    let mut daemon = Daemon::new(&[record_a()]);
    let client = daemon.client();

    let hello = daemon.request(
        client,
        "hello",
        "server.hello",
        r#"{"client": "contract-test", "clientVersion": "1"}"#,
    );
    assert_eq!(
        ok(&hello),
        &json(
            r#"{"protocolVersion": 1, "serverVersion": "9.9.9",
                "snapshotSchemaMin": 1, "snapshotSchemaMax": 1}"#
        )
    );

    let listed = daemon.request(client, "list", "project.list", "{}");
    assert_eq!(
        ok(&listed),
        &json(
            r#"{"projects": [{"id": "project-a", "path": "/work/a", "name": "Project A",
                "enabled": true}]}"#
        )
    );

    let by_path = daemon.request(client, "get-path", "snapshot.get", r#"{"path": "/work/a"}"#);
    assert_eq!(ok(&by_path)["projectId"], "project-a");

    let unknown = daemon.request(client, "unknown", "project.mutate", "{}");
    assert_eq!(unknown["ok"], false);
    assert_eq!(unknown["error"]["code"], "unknown_method");

    let subscribed =
        daemon.request(client, "sub", "snapshot.subscribe", r#"{"projectId": "project-a"}"#);
    assert!(ok(&subscribed)["subscriptionId"].is_string());

    daemon.replace(&[]);
    let observed: BTreeSet<_> = daemon
        .frames(client)
        .iter()
        .map(|frame| frame["name"].as_str().expect("event").to_owned())
        .collect();
    assert!(observed.contains("project.updated"));
    assert!(observed.contains("subscription.ended"));

    let exact_limit = daemon.client();
    let request = br#"{"v":1,"kind":"req","id":"max","method":"server.hello","params":{}}"#;
    let mut frame = vec![b' '; MAX_FRAME_BYTES - request.len()];
    frame.extend_from_slice(request);
    frame.push(b'\n');
    let read = match read_all(&frame, Limits::new(MAX_FRAME_BYTES, None)) {
        ReadStep::Frame { frame, .. } => frame,
        other => panic!("expected a frame, got {other:?}"),
    };
    assert_eq!(read.len(), MAX_FRAME_BYTES);
    daemon.raw(exact_limit, &read);
    assert_eq!(ok(&daemon.one(exact_limit))["protocolVersion"], 1);

    let oversized = daemon.client();
    let mut too_large = vec![b' '; MAX_FRAME_BYTES + 1];
    too_large.push(b'\n');
    match read_all(&too_large, Limits::new(MAX_FRAME_BYTES, None)) {
        ReadStep::Oversized { request_id: None } => {}
        other => panic!("expected an oversized frame, got {other:?}"),
    }
    daemon.server.handle_oversized(oversized, &None);
    daemon.settle();
    assert!(daemon.frames(oversized).is_empty());
    assert!(daemon.closed(oversized));

    let wrong_version = daemon.client();
    daemon.raw(
        wrong_version,
        br#"{"v":2,"kind":"req","id":"wrong-version","method":"server.hello","params":{}}"#,
    );
    let version_error = daemon.one(wrong_version);
    assert_eq!(version_error["id"], "wrong-version");
    assert_eq!(version_error["ok"], false);
    assert_eq!(version_error["error"]["code"], "unsupported_version");
    assert!(daemon.closed(wrong_version));
}

#[test]
fn notify_coalesces_dirty_again_for_only_the_changed_project() {
    let mut daemon = Daemon::new(&[record_a(), record_b()]);
    let client = daemon.client();
    daemon.send(client, "sub", "snapshot.subscribe", r#"{"projectId": "project-a"}"#);
    let run = daemon.run();

    daemon.touch("/work/a/.jeff/burst-a");
    daemon.touch("/work/a/.jeff/burst-b");
    daemon.touch("/work/a/.jeff/burst-c");
    daemon.finish(run, &first());
    let subscribed = daemon.one(client);
    assert_eq!(subscribed["id"], "sub");
    assert!(ok(&subscribed)["subscriptionId"].is_string());

    daemon.pass(149);
    assert!(daemon.launched.is_empty());
    daemon.pass(1);
    assert_eq!(daemon.invocations, ["/work/a", "/work/a"]);
    let run = daemon.run();
    daemon.finish(run, &first());

    let replaced = daemon.one(client);
    assert_eq!(replaced["name"], "snapshot.replaced");
    assert_eq!(replaced["payload"]["projectId"], "project-a");
    daemon.pass(1000);
    assert!(daemon.launched.is_empty());
}

#[test]
fn cycle_one_contract_shutdown_ends_only_established_subscriptions_before_eof() {
    let mut daemon = Daemon::new(&[record_a(), record_b()]);
    let client = daemon.client();
    let established = daemon.request(
        client,
        "established-sub",
        "snapshot.subscribe",
        r#"{"projectId": "project-a"}"#,
    );
    let established_id =
        ok(&established)["subscriptionId"].as_str().expect("subscription id").to_owned();

    daemon.send(client, "cold-get", "snapshot.get", r#"{"projectId": "project-b"}"#);
    daemon.send(client, "pending-sub", "snapshot.subscribe", r#"{"projectId": "project-b"}"#);
    daemon.send(client, "accepted", "server.hello", "{}");
    assert_eq!(ok(&daemon.one(client))["protocolVersion"], 1);

    daemon.stop();
    let frames = daemon.frames(client);
    assert!(daemon.closed(client));

    for request_id in ["cold-get", "pending-sub"] {
        let terminal: Vec<_> = frames
            .iter()
            .filter(|frame| frame["kind"] == "res" && frame["id"] == request_id)
            .collect();
        assert_eq!(terminal.len(), 1, "{request_id}: {frames:?}");
        assert_eq!(terminal[0]["ok"], false);
        assert_eq!(terminal[0]["error"]["code"], "unavailable");
    }
    let ended: Vec<_> =
        frames.iter().filter(|frame| frame["name"] == "subscription.ended").collect();
    assert_eq!(ended.len(), 1, "{frames:?}");
    assert_eq!(
        ended[0]["payload"],
        json(&format!(r#"{{"subscriptionId": "{established_id}", "reason": "shutdown"}}"#))
    );
    assert_eq!(daemon.cancelled.len(), 1);
}

#[test]
fn review_contract_cold_subscribe_emits_only_subsequent_replacements() {
    let mut daemon = Daemon::new(&[record_a()]);
    let client = daemon.client();
    daemon.send(client, "cold-sub", "snapshot.subscribe", r#"{"projectId": "project-a"}"#);
    let run = daemon.run();
    daemon.finish(run, &first());
    let subscribed = daemon.one(client);
    assert_eq!(subscribed["id"], "cold-sub");
    assert_eq!(ok(&subscribed)["snapshot"]["tasks"][0]["title"], "first");

    daemon.touch("/work/a/.jeff/subsequent-trigger");
    daemon.pass(150);
    let run = daemon.run();
    daemon.finish(run, &snapshot("2026-08-10T12:01:00Z", "subsequent"));
    let next = daemon.one(client);
    assert_eq!(next["name"], "snapshot.replaced");
    assert_eq!(next["payload"]["snapshot"]["tasks"][0]["title"], "subsequent");
}

fn read_all(bytes: &[u8], limits: Limits) -> ReadStep {
    let mut reader = FrameReader::new(limits);
    let mut connection = Counter::new();
    let mut global = Counter::new();
    let mut pending = Counter::new();
    let mut step = ReadStep::NeedMore;
    for chunk in bytes.chunks(8192) {
        step = reader.step(chunk, &mut connection, &mut global, &mut pending);
        if !matches!(step, ReadStep::NeedMore) {
            break;
        }
    }
    step
}

#[test]
fn review_contract_oversized_frames_distinguish_known_and_unknown_request_ids() {
    let mut daemon = Daemon::new(&[]);
    let limits = Limits::new(MAX_FRAME_BYTES, None);

    let known = daemon.client();
    let prefix =
        br#"{"v":1,"kind":"req","id":"too-big","method":"server.hello","params":{},"padding":""#;
    let mut frame = Vec::with_capacity(MAX_FRAME_BYTES + 2);
    frame.extend_from_slice(prefix);
    frame.resize(MAX_FRAME_BYTES + 1, b'x');
    frame.push(b'\n');
    let request_id = match read_all(&frame, limits) {
        ReadStep::Oversized { request_id } => request_id,
        other => panic!("expected an oversized frame, got {other:?}"),
    };
    assert_eq!(request_id.as_deref(), Some("too-big"));
    daemon.server.handle_oversized(known, &request_id);
    daemon.settle();
    let error = daemon.one(known);
    assert_eq!(error["id"], "too-big");
    assert_eq!(error["ok"], false);
    assert_eq!(error["error"]["code"], "frame_too_large");
    assert!(daemon.closed(known));

    let unknown = daemon.client();
    let mut frame = vec![b' '; MAX_FRAME_BYTES + 1];
    frame.push(b'\n');
    let request_id = match read_all(&frame, limits) {
        ReadStep::Oversized { request_id } => request_id,
        other => panic!("expected an oversized frame, got {other:?}"),
    };
    assert_eq!(request_id, None);
    daemon.server.handle_oversized(unknown, &request_id);
    daemon.settle();
    assert!(daemon.frames(unknown).is_empty());
    assert!(daemon.closed(unknown));
}

#[test]
fn review_contract_hello_and_list_require_object_params() {
    let mut daemon = Daemon::new(&[]);
    let client = daemon.client();

    let hello = daemon.request(client, "hello-scalar", "server.hello", "7");
    assert_eq!(hello["id"], "hello-scalar");
    assert_eq!(hello["ok"], false);
    assert_eq!(hello["error"]["code"], "invalid_params");

    let list = daemon.request(client, "list-array", "project.list", "[]");
    assert_eq!(list["id"], "list-array");
    assert_eq!(list["ok"], false);
    assert_eq!(list["error"]["code"], "invalid_params");
}

#[test]
fn review_contract_malformed_request_echoes_a_safely_decoded_string_id() {
    let mut daemon = Daemon::new(&[]);
    let client = daemon.client();
    daemon.raw(client, br#"{"v":1,"kind":"req","id":"malformed-safe-id","params":{}}"#);
    let error = daemon.one(client);
    assert_eq!(error["kind"], "res");
    assert_eq!(error["id"], "malformed-safe-id");
    assert_eq!(error["ok"], false);
    assert_eq!(error["error"]["code"], "invalid_request");

    daemon.raw(client, br#"{"v":1,"kind":"res","id":"response-safe-id","ok":true,"result":{}}"#);
    let response_error = daemon.one(client);
    assert_eq!(response_error["id"], "response-safe-id");
    assert_eq!(response_error["ok"], false);
    assert_eq!(response_error["error"]["code"], "invalid_request");

    daemon.raw(client, b"{ no document");
    let garbage = daemon.one(client);
    assert_eq!(garbage["id"], "");
    assert_eq!(garbage["error"]["code"], "invalid_request");
}

#[test]
fn review_contract_concurrent_cold_get_and_subscribe_share_one_invocation() {
    let mut daemon = Daemon::new(&[record_a()]);
    let getter = daemon.client();
    daemon.send(getter, "cold-get", "snapshot.get", r#"{"projectId": "project-a"}"#);
    let run = daemon.run();

    let subscriber = daemon.client();
    daemon.send(
        subscriber,
        "cold-subscribe",
        "snapshot.subscribe",
        r#"{"projectId": "project-a"}"#,
    );
    daemon.send(subscriber, "after-subscribe", "server.hello", "{}");
    assert_eq!(ok(&daemon.one(subscriber))["protocolVersion"], 1);

    daemon.finish(run, &first());
    let get = daemon.one(getter);
    let subscribe = daemon.one(subscriber);
    assert_eq!(ok(&get)["tasks"][0]["title"], "first");
    assert_eq!(ok(&subscribe)["snapshot"]["tasks"][0]["title"], "first");
    assert_eq!(daemon.invocations, ["/work/a"]);
}

#[test]
fn review_contract_unsubscribe_rejects_a_different_connection() {
    let mut daemon = Daemon::new(&[record_a()]);
    let owner = daemon.client();
    ok(&daemon.request(owner, "warm", "snapshot.get", r#"{"projectId": "project-a"}"#));
    let subscribed =
        daemon.request(owner, "owned-sub", "snapshot.subscribe", r#"{"projectId": "project-a"}"#);
    let subscription_id =
        ok(&subscribed)["subscriptionId"].as_str().expect("subscription id").to_owned();
    let params = format!(r#"{{"subscriptionId": "{subscription_id}"}}"#);

    let foreign = daemon.client();
    let rejected = daemon.request(foreign, "foreign-unsubscribe", "snapshot.unsubscribe", &params);
    assert_eq!(rejected["ok"], false);
    assert_eq!(rejected["error"]["code"], "unknown_subscription");
    let removed = daemon.request(owner, "owner-unsubscribe", "snapshot.unsubscribe", &params);
    assert_eq!(ok(&removed), &json(r#"{"ok": true}"#));
}

#[test]
fn second_recovery_contract_disabled_rows_and_typed_selectors_fail_without_hidden_work() {
    let disabled = r#"{"id": "project-disabled", "path": "/work/b", "name": "Disabled Project",
        "enabled": false, "cook": ["/bin/cook", "--disabled"]}"#
        .to_owned();
    let mut daemon = Daemon::new(&[record_a(), disabled]);
    let client = daemon.client();

    let listed = daemon.request(client, "list", "project.list", "{}");
    let rows = ok(&listed)["projects"].as_array().expect("project list rows");
    let disabled_row =
        rows.iter().find(|row| row["id"] == "project-disabled").expect("remains listable");
    assert_eq!(disabled_row["enabled"], false);

    let disabled_get = daemon.request(
        client,
        "disabled-get",
        "snapshot.get",
        r#"{"projectId": "project-disabled"}"#,
    );
    let disabled_subscribe =
        daemon.request(client, "disabled-subscribe", "snapshot.subscribe", r#"{"path": "/work/b"}"#);
    assert_eq!(disabled_get["error"]["code"], "unavailable");
    assert_eq!(disabled_subscribe["error"]["code"], "unavailable");
    assert!(daemon.invocations.is_empty());

    let mixed_get = daemon.request(
        client,
        "mixed-get",
        "snapshot.get",
        r#"{"projectId": "project-a", "path": 7}"#,
    );
    let mixed_subscribe = daemon.request(
        client,
        "mixed-subscribe",
        "snapshot.subscribe",
        r#"{"projectId": 7, "path": "/work/a"}"#,
    );
    assert_eq!(mixed_get["error"]["code"], "invalid_selector");
    assert_eq!(mixed_subscribe["error"]["code"], "invalid_selector");
}

#[test]
fn selectors_name_exactly_one_registered_project() {
    let mut daemon = Daemon::new(&[record_a()]);
    let client = daemon.client();
    let mut code = |params: &str| {
        daemon.request(client, "select", "snapshot.get", params)["error"]["code"].clone()
    };

    assert_eq!(code("[]"), "invalid_params");
    assert_eq!(code("{}"), "invalid_selector");
    assert_eq!(code(r#"{"path": "work/a"}"#), "invalid_selector");
    assert_eq!(code(r#"{"projectId": "project-a", "path": "/work/a"}"#), "invalid_selector");
    assert_eq!(code(r#"{"projectId": "missing"}"#), "unknown_project");
    assert_eq!(code(r#"{"path": "/work/missing"}"#), "unknown_project");
    assert_eq!(code(r#"{"path": "/work/./a/"}"#), Value::Null);
}

#[test]
fn council_recovery_contract_lifecycle_demultiplexes_project_events_before_hello() {
    let mut daemon = Daemon::new(&[]);
    let probe = daemon.client();
    daemon.replace(&[record_a()]);
    daemon.raw(probe, &hello_frame());

    let sent = std::mem::take(&mut daemon.clients.get_mut(&probe).expect("client").sent);
    assert_eq!(sent.len(), 2);
    assert_eq!(judge_reply_frame(&sent[0]), HelloReply::Unrelated);
    assert_eq!(judge_reply_frame(&sent[1]), HelloReply::Accepted);
}

#[test]
fn council_recovery_contract_maximum_legal_request_cannot_expand_outbound() {
    let mut daemon = Daemon::new(&[]);
    let client = daemon.client();
    let prefix = br#"{"v":1,"kind":"req","id":""#;
    let suffix = br#"","method":"server.hello","params":{}}"#;
    let id_bytes = MAX_FRAME_BYTES - (prefix.len() + suffix.len());
    let mut frame = Vec::with_capacity(MAX_FRAME_BYTES);
    frame.extend_from_slice(prefix);
    frame.resize(frame.len() + id_bytes, b'x');
    frame.extend_from_slice(suffix);
    assert_eq!(frame.len(), MAX_FRAME_BYTES);

    daemon.raw(client, &frame);
    assert!(daemon.frames(client).is_empty());
    assert!(daemon.closed(client));
}

#[test]
fn cycle_one_contract_oversized_snapshot_response_closes_only_the_offender() {
    let mut daemon = Daemon::new(&[record_a()]);
    let offender = daemon.client();
    daemon.send(offender, "short-safe-id", "snapshot.get", r#"{"projectId": "project-a"}"#);
    let run = daemon.run();
    daemon.finish(run, &snapshot("2026-08-11T03:00:00Z", &"x".repeat(MAX_FRAME_BYTES)));
    assert!(daemon.frames(offender).is_empty());
    assert!(daemon.closed(offender));

    let healthy = daemon.client();
    let hello = daemon.request(healthy, "healthy", "server.hello", "{}");
    assert_eq!(ok(&hello)["protocolVersion"], 1);
}

#[test]
fn cycle_one_contract_in_flight_full_closes_only_the_offender() {
    let limits = Limits::new(MAX_FRAME_BYTES, Some("ingress=16,in_flight=1"));
    let mut reader = FrameReader::new(limits);
    let mut connection = Counter::new();
    let mut global = Counter::new();
    let mut pending = Counter::new();
    let bytes = b"{\"first\":1}\n{\"second\":2}\n";

    let (frame, consumed, ingress) =
        match reader.step(bytes, &mut connection, &mut global, &mut pending) {
            ReadStep::Frame { frame, ingress, consumed } => (frame, consumed, ingress),
            other => panic!("expected a frame, got {other:?}"),
        };
    assert_eq!(frame, b"{\"first\":1}");
    assert!(matches!(
        reader.step(&bytes[consumed..], &mut connection, &mut global, &mut pending),
        ReadStep::InFlightFull
    ));
    // What the first request held is given back once it was handled.
    ingress.release(&mut connection, &mut global);
    pending.release(1);
    assert_eq!(connection.used, 0);
    assert_eq!(global.used, 0);
}

#[test]
fn cycle_one_contract_egress_frame_full_closes_only_the_offender() {
    let mut daemon = Daemon::limited(
        &[record_a()],
        "ingress=16,in_flight=16,egress_frames=1,egress_bytes=8388608",
    );
    let warm = daemon.client();
    daemon.request(warm, "warm", "snapshot.get", r#"{"projectId": "project-a"}"#);
    let offender = daemon.client();
    daemon.clients.get_mut(&offender).expect("client").blocked = true;
    let params = r#"{"projectId": "project-a"}"#;
    daemon.send(offender, "blocked-frame", "snapshot.get", params);
    daemon.send(offender, "queued-frame", "snapshot.get", params);
    assert!(!daemon.closed(offender));
    daemon.send(offender, "frame-beyond-the-slot", "snapshot.get", params);
    assert!(daemon.closed(offender));
    assert!(daemon.frames(offender).is_empty());

    let healthy = daemon.client();
    let hello = daemon.request(healthy, "healthy", "server.hello", "{}");
    assert_eq!(ok(&hello)["protocolVersion"], 1);
}

#[test]
fn cycle_one_contract_global_egress_bytes_close_only_the_offender() {
    let mut daemon = Daemon::limited(
        &[record_a()],
        "ingress=16,in_flight=16,egress_frames=4,egress_bytes=6144",
    );
    let large = snapshot("2026-08-11T03:05:00Z", &"x".repeat(4096));
    let holder = daemon.client();
    daemon.clients.get_mut(&holder).expect("client").blocked = true;
    daemon.send(holder, "global-holder", "snapshot.get", r#"{"projectId": "project-a"}"#);
    let run = daemon.run();
    daemon.finish(run, &large);
    assert!(!daemon.closed(holder));

    let offender = daemon.client();
    daemon.send(offender, "global-overflow", "snapshot.get", r#"{"projectId": "project-a"}"#);
    assert!(daemon.frames(offender).is_empty());
    assert!(daemon.closed(offender));

    let healthy = daemon.client();
    let hello = daemon.request(healthy, "healthy", "server.hello", "{}");
    assert_eq!(ok(&hello)["protocolVersion"], 1);
    assert!(!daemon.closed(holder));
}

#[test]
fn cycle_one_contract_cold_waiter_full_closes_only_the_offender() {
    let mut daemon =
        Daemon::limited(&[record_a()], "ingress=16,in_flight=16,cold_waiters=2");
    let offender = daemon.client();
    let params = r#"{"projectId": "project-a"}"#;
    daemon.send(offender, "cold-get-1", "snapshot.get", params);
    daemon.send(offender, "cold-sub-2", "snapshot.subscribe", params);
    daemon.send(offender, "accepted-two", "server.hello", "{}");
    assert_eq!(ok(&daemon.one(offender))["protocolVersion"], 1);
    daemon.send(offender, "cold-get-over-limit", "snapshot.get", params);

    let healthy = daemon.client();
    let healthy_hello = daemon.request(healthy, "healthy", "server.hello", "{}");
    assert!(daemon.frames(offender).is_empty());
    assert!(daemon.closed(offender));
    assert_eq!(ok(&healthy_hello)["protocolVersion"], 1);
    assert!(daemon.server.waiters.is_empty());
    assert!(daemon.server.subscriptions.is_empty());
}

#[test]
fn cycle_one_contract_per_connection_egress_bytes_close_only_the_offender() {
    let mut daemon = Daemon::limited(&[record_a()], "egress_frames=4,egress_bytes=256");
    let offender = daemon.client();
    daemon.send(
        offender,
        "projection-exceeds-egress-budget",
        "snapshot.get",
        r#"{"projectId": "project-a"}"#,
    );
    let run = daemon.run();
    daemon.finish(run, &first());
    assert!(daemon.frames(offender).is_empty());
    assert!(daemon.closed(offender));

    let healthy = daemon.client();
    let healthy_hello = daemon.request(healthy, "healthy", "server.hello", "{}");
    assert_eq!(ok(&healthy_hello)["protocolVersion"], 1);
}

#[test]
fn task_236_contract_snapshot_output_bound_retains_last_good_and_healthy_progress() {
    let mut daemon = Daemon::limited(&[record_a()], "snapshot_bytes=1024");
    let subscriber = daemon.client();
    let params = r#"{"projectId": "project-a"}"#;
    let warm = daemon.request(subscriber, "warm-sub", "snapshot.subscribe", params);
    assert_eq!(ok(&warm)["snapshot"]["tasks"][0]["title"], "first");

    daemon.touch("/work/a/.jeff/oversized-snapshot");
    daemon.pass(150);
    let run = daemon.run();
    daemon.finish(run, &snapshot("2026-08-11T10:00:00Z", &"x".repeat(2048)));
    let failure = daemon.one(subscriber);
    assert_eq!(failure["name"], "snapshot.failed");

    let retained = daemon.request(subscriber, "retained", "snapshot.get", params);
    assert_eq!(ok(&retained)["tasks"][0]["title"], "first");
    let hello = daemon.request(subscriber, "healthy", "server.hello", "{}");
    assert_eq!(ok(&hello)["protocolVersion"], 1);
}

#[test]
fn task_236_contract_per_connection_subscription_limit_releases_on_unsubscribe() {
    let mut daemon =
        Daemon::limited(&[record_a()], "connection_subscriptions=1,global_subscriptions=8");
    let client = daemon.client();
    let params = r#"{"projectId": "project-a"}"#;
    ok(&daemon.request(client, "warm", "snapshot.get", params));
    let first_sub = daemon.request(client, "first-sub", "snapshot.subscribe", params);
    let first_id = ok(&first_sub)["subscriptionId"].as_str().expect("id").to_owned();
    ok(&daemon.request(
        client,
        "remove-first",
        "snapshot.unsubscribe",
        &format!(r#"{{"subscriptionId": "{first_id}"}}"#),
    ));
    let replacement = daemon.request(client, "replacement-sub", "snapshot.subscribe", params);
    assert!(ok(&replacement)["subscriptionId"].is_string());
    daemon.send(client, "over-connection-limit", "snapshot.subscribe", params);
    assert!(daemon.frames(client).is_empty());
    assert!(daemon.closed(client));
}

#[test]
fn task_236_contract_global_subscription_limit_releases_on_disconnect() {
    let mut daemon =
        Daemon::limited(&[record_a()], "connection_subscriptions=8,global_subscriptions=1");
    let params = r#"{"projectId": "project-a"}"#;
    let holder = daemon.client();
    let held = daemon.request(holder, "held", "snapshot.subscribe", params);
    assert!(ok(&held)["subscriptionId"].is_string());
    let refused = daemon.client();
    daemon.send(refused, "over-global-limit", "snapshot.subscribe", params);
    assert!(daemon.closed(refused));

    daemon.server.drop_disconnected_connections(&vec![holder]);
    daemon.settle();
    let next = daemon.client();
    let granted = daemon.request(next, "granted", "snapshot.subscribe", params);
    assert!(ok(&granted)["subscriptionId"].is_string());
}

#[test]
fn task_236_replan_contract_wrapped_snapshot_overflow_retains_last_good_projection() {
    const CEILING: usize = 1024;
    let mut daemon = Daemon::limited(&[record_a()], "frame_bytes=1024,snapshot_bytes=1024");
    let subscriber = daemon.client();
    let params = r#"{"projectId": "project-a"}"#;
    let first_sub = daemon.request(subscriber, "first-sub", "snapshot.subscribe", params);
    assert_eq!(ok(&first_sub)["snapshot"]["tasks"][0]["title"], "first");

    let raw = snapshot("2026-08-12T10:00:00Z", &"x".repeat(810));
    assert!(raw.len() <= CEILING, "{}", raw.len());

    daemon.touch("/work/a/.jeff/wrapped-overflow");
    daemon.pass(150);
    let run = daemon.run();
    daemon.finish(run, &raw);
    let failure = daemon.one(subscriber);
    assert_eq!(failure["name"], "snapshot.failed");
    assert_eq!(failure["payload"]["projectId"], "project-a");
    assert_eq!(failure["payload"]["exitCode"], Value::Null);
    let retained = daemon.request(subscriber, "retained", "snapshot.get", params);
    assert_eq!(ok(&retained)["tasks"][0]["title"], "first");
    assert_eq!(ok(&retained)["degraded"], json(r#"["snapshot_stale"]"#));
}

#[test]
fn task_236_replan_contract_pending_unsubscribe_cannot_return_an_unowned_subscription() {
    let mut daemon = Daemon::new(&[record_a(), record_b()]);
    let client = daemon.client();
    ok(&daemon.request(client, "prime", "snapshot.get", r#"{"projectId": "project-a"}"#));
    let returned =
        daemon.request(client, "known-sub", "snapshot.subscribe", r#"{"projectId": "project-a"}"#);
    let returned_id = ok(&returned)["subscriptionId"].as_str().expect("id").to_owned();
    let (prefix, ordinal) = returned_id.rsplit_once('-').expect("an ordinal");
    let pending_id = format!("{prefix}-{}", ordinal.parse::<u64>().expect("numeric") + 1);
    let unsubscribe_params = format!(r#"{{"subscriptionId": "{pending_id}"}}"#);

    daemon.send(client, "pending-sub", "snapshot.subscribe", r#"{"projectId": "project-b"}"#);
    let run = daemon.run();
    daemon.send(client, "pending-unsubscribe", "snapshot.unsubscribe", &unsubscribe_params);
    let unsubscribe = daemon.one(client);
    assert_eq!(unsubscribe["id"], "pending-unsubscribe");
    assert_eq!(unsubscribe["error"]["code"], "unknown_subscription");
    daemon.finish(run, &first());
    let subscribe = daemon.one(client);
    assert_eq!(subscribe["id"], "pending-sub");
    assert_eq!(ok(&subscribe)["subscriptionId"], pending_id);
    ok(&daemon.request(client, "remove-returned", "snapshot.unsubscribe", &unsubscribe_params));
}

#[test]
fn task_236_replan_contract_notify_full_coalesces_registry_replacement() {
    let mut daemon = Daemon::new(&[record_a()]);
    let client = daemon.client();
    let replacement = records(&[record_b()]);
    assert!(!daemon.server.registry_changed(&records(&[record_a()])));
    assert!(daemon.server.registry_changed(&replacement));
    daemon.replace(&[record_b()]);
    let now = daemon.now();
    daemon.server.mark_all_dirty(now);
    daemon.settle();
    daemon.frames(client);

    let listed = daemon.request(client, "replacement-list", "project.list", "{}");
    let projects = ok(&listed)["projects"].as_array().expect("list").clone();
    assert_eq!(projects.len(), 1);
    assert_eq!(projects[0]["id"], "project-b");
    assert_eq!(projects[0]["path"], "/work/b");
    daemon.pass(150);
    assert_eq!(daemon.invocations, ["/work/b"]);
}

#[test]
fn task_236_replan_contract_subscription_permits_reuse_after_cold_failure_and_replacement() {
    let limits = "connection_subscriptions=1,global_subscriptions=1";
    let params = r#"{"projectId": "project-a"}"#;
    {
        let mut daemon = Daemon::limited(&[record_a()], limits);
        let client = daemon.client();
        daemon.send(client, "failed-cold-sub", "snapshot.subscribe", params);
        let run = daemon.run();
        daemon.done(
            run,
            Err(SnapshotFailure::Exit { message: "cold failed".to_owned(), code: Some(7) }),
        );
        let failed = daemon.one(client);
        assert_eq!(failed["ok"], false);
        assert_eq!(failed["error"]["code"], "unavailable");
        assert_eq!(failed["error"]["message"], "cold failed");
        let replacement = daemon.request(client, "after-cold-failure", "snapshot.subscribe", params);
        assert!(ok(&replacement)["subscriptionId"].is_string());
    }
    {
        let mut daemon = Daemon::limited(&[record_a()], limits);
        let client = daemon.client();
        daemon.send(client, "replaced-pending-sub", "snapshot.subscribe", params);
        let old_run = daemon.run();
        daemon.replace(&[
            r#"{"id": "project-a", "path": "/work/b", "name": "Replacement", "enabled": true,
                "cook": ["/bin/cook", "--fixture"]}"#
                .to_owned(),
        ]);
        let frames = daemon.frames(client);
        assert!(frames.iter().any(|frame| frame["name"] == "project.updated"));
        assert!(frames.iter().any(|frame| {
            frame["id"] == "replaced-pending-sub"
                && frame["ok"] == false
                && frame["error"]["code"] == "unavailable"
        }));
        assert_eq!(daemon.cancelled, [old_run.copied()]);
        daemon.send(client, "after-replacement", "snapshot.subscribe", params);
        daemon.done(old_run, Err(SnapshotFailure::Cancelled));
        let run = daemon.run();
        assert_eq!(run.record.path, "/work/b");
        daemon.finish(run, &first());
        let replacement = daemon.one(client);
        assert_eq!(replacement["id"], "after-replacement");
        assert!(ok(&replacement)["subscriptionId"].is_string());
    }
}

fn serialized_len(value: &Value) -> usize {
    serde_json::to_vec(value).expect("serialize").len()
}

#[test]
fn task_236_surviving_contract_long_id_cannot_poison_retained_snapshot_service() {
    const FRAME_BYTES: usize = 32 * 1024;
    const RESPONSE_ID_BYTES: usize = 4 * 1024;
    let mut daemon = Daemon::limited(&[record_a()], "frame_bytes=32768,snapshot_bytes=32768");
    let client = daemon.client();
    let params = r#"{"projectId": "project-a"}"#;
    let subscribed = daemon.request(client, "prime", "snapshot.subscribe", params);
    assert_eq!(ok(&subscribed)["snapshot"]["tasks"][0]["title"], "first");

    let projection = |raw: &str, degraded: &str| {
        let mut projection = json(raw);
        projection["projectId"] = "project-a".into();
        projection["path"] = "/work/a".into();
        projection["degraded"] = json(degraded);
        projection
    };
    let response = |id: &str, result: Value| {
        let mut frame = json(r#"{"v": 1, "kind": "res", "ok": true}"#);
        frame["id"] = id.into();
        frame["result"] = result;
        frame
    };
    let probe_bytes = |raw: &str| {
        let stale = projection(raw, r#"["snapshot_stale"]"#);
        let mut subscription = json("{}");
        subscription["subscriptionId"] = format!("s-{}-{}", usize::MAX, u64::MAX).into();
        subscription["snapshot"] = stale.clone();
        let mut replaced =
            json(r#"{"v": 1, "kind": "event", "name": "snapshot.replaced", "payload": {}}"#);
        replaced["payload"]["projectId"] = "project-a".into();
        replaced["payload"]["snapshot"] = stale.clone();
        [response("", stale), response("", subscription), replaced]
            .iter()
            .map(serialized_len)
            .max()
            .expect("retained admission has probes")
    };
    let empty_probe_bytes = probe_bytes(&snapshot("2026-08-12T12:00:00Z", ""));
    let title = "x".repeat(FRAME_BYTES.checked_sub(empty_probe_bytes).expect("room for a title"));
    let raw = snapshot("2026-08-12T12:00:00Z", &title);
    assert!(raw.len() <= FRAME_BYTES, "{}", raw.len());
    assert_eq!(probe_bytes(&raw), FRAME_BYTES, "on the exact boundary with an empty id");

    let worst_id = "\0".repeat(RESPONSE_ID_BYTES);
    let encoded_id = serde_json::to_string(&worst_id).expect("serialize the id");
    assert_eq!(encoded_id.len(), RESPONSE_ID_BYTES * 6 + 2);
    assert!(encoded_id.as_bytes()[1..encoded_id.len() - 1]
        .chunks_exact(6)
        .all(|escape| escape == br"\u0000"));
    assert!(serialized_len(&response(&worst_id, projection(&raw, "[]"))) > FRAME_BYTES);
    let mut request = json(
        r#"{"v": 1, "kind": "req", "method": "snapshot.get", "params": {"projectId": "project-a"}}"#,
    );
    request["id"] = worst_id.as_str().into();
    assert!(serialized_len(&request) <= FRAME_BYTES);

    daemon.touch("/work/a/.jeff/long-id-boundary");
    daemon.pass(150);
    let run = daemon.run();
    daemon.finish(run, &raw);
    let update = daemon.one(client);
    let retained = daemon.request(client, &worst_id, "snapshot.get", params);
    assert_eq!(ok(&retained)["tasks"][0]["title"], "first");
    assert_eq!(update["name"], "snapshot.failed");
}

#[test]
fn task_236_surviving_contract_active_snapshot_budget_is_fair_and_responsive() {
    let ids = ["bounded-a", "bounded-b", "bounded-c", "bounded-d"];
    let list: Vec<String> = ids.iter().map(|id| named(id)).collect();
    let mut daemon = Daemon::limited(&list, "active_snapshots=2");
    let client = daemon.client();
    for project_id in ids {
        daemon.send(
            client,
            &format!("fair-{project_id}"),
            "snapshot.get",
            &format!(r#"{{"projectId": "{project_id}"}}"#),
        );
    }
    daemon.send(client, "fair-owner-responsive", "server.hello", "{}");
    assert_eq!(ok(&daemon.one(client))["protocolVersion"], 1);
    assert_eq!(daemon.invocations, ["/work/bounded-a", "/work/bounded-b"]);

    let mut completed = BTreeSet::new();
    while let Some(run) = daemon.launched.pop_front() {
        assert!(daemon.server.active.len() <= 2);
        daemon.finish(run, &first());
        for frame in daemon.frames(client) {
            ok(&frame);
            completed.insert(frame["id"].as_str().expect("id").to_owned());
        }
    }
    assert_eq!(completed, ids.iter().map(|id| format!("fair-{id}")).collect());
    assert_eq!(daemon.invocations.len(), 4);
}

#[test]
fn task_236_surviving_contract_snapshot_thread_launch_failure_releases_active_ownership() {
    let mut daemon =
        Daemon::limited(&[named("failure-a"), named("failure-b")], "active_snapshots=1");
    let client = daemon.client();
    daemon.send(
        client,
        "injected-reader-launch-failure",
        "snapshot.get",
        r#"{"projectId": "failure-a"}"#,
    );
    let run = daemon.run();
    daemon.done(run, Err(SnapshotFailure::Launch("stdout reader thread".to_owned())));
    let failure = daemon.one(client);
    assert_eq!(failure["ok"], false);
    assert_eq!(failure["error"]["code"], "unavailable");
    let recovered = daemon.request(
        client,
        "after-reader-launch-failure",
        "snapshot.get",
        r#"{"projectId": "failure-b"}"#,
    );
    ok(&recovered);
}

#[test]
fn task_236_surviving_contract_aggregate_cache_budget_rejects_newest_and_retains_last_good() {
    let list: Vec<String> = ["cache-a", "cache-b", "cache-c"].iter().map(|id| named(id)).collect();
    let initial = json(&first());
    let retained_cost = |project_id: &str| {
        let mut projection = initial.clone();
        projection["projectId"] = Value::from(project_id);
        projection["path"] = Value::from(format!("/work/{project_id}"));
        projection["degraded"] = json(r#"["snapshot_stale"]"#);
        serde_json::to_vec(&projection).expect("serialize").len()
    };
    let cache_budget = retained_cost("cache-a") + retained_cost("cache-b");
    let mut daemon = Daemon::limited(
        &list,
        &format!("frame_bytes=4096,snapshot_bytes=4096,cache_bytes={cache_budget}"),
    );
    let client = daemon.client();

    let warm = daemon.request(client, "cache-a-first", "snapshot.get", r#"{"projectId":"cache-a"}"#);
    assert_eq!(ok(&warm)["tasks"][0]["title"], "first");
    let subscribed = daemon.request(
        client,
        "cache-a-subscribe",
        "snapshot.subscribe",
        r#"{"projectId":"cache-a"}"#,
    );
    assert_eq!(ok(&subscribed)["snapshot"]["tasks"][0]["title"], "first");
    let second =
        daemon.request(client, "cache-b-first", "snapshot.get", r#"{"projectId":"cache-b"}"#);
    assert_eq!(ok(&second)["tasks"][0]["title"], "first");
    assert_eq!(daemon.server.retained_cache_bytes, cache_budget);
    let newest =
        daemon.request(client, "cache-c-over-budget", "snapshot.get", r#"{"projectId":"cache-c"}"#);
    assert_eq!(newest["ok"], false);
    assert_eq!(newest["error"]["code"], "unavailable");

    daemon.touch("/work/cache-a/.jeff/aggregate-budget-replacement");
    daemon.pass(150);
    let run = daemon.run();
    daemon.finish(
        run,
        &snapshot("2026-08-12T13:00:00Z", "replacement grows beyond the retained aggregate budget"),
    );
    let replacement = daemon.one(client);
    assert_eq!(replacement["name"], "snapshot.failed");
    let retained =
        daemon.request(client, "cache-a-retained", "snapshot.get", r#"{"projectId":"cache-a"}"#);
    assert_eq!(ok(&retained)["tasks"][0]["title"], "first");
    assert_eq!(ok(&retained)["degraded"], json(r#"["snapshot_stale"]"#));
    assert_eq!(daemon.server.retained_cache_bytes, cache_budget);
}

fn exit_failure(code: i32, diagnostics: &[u8]) -> SnapshotFailure {
    let mut supervisor = SnapshotSupervisor::new(Duration::from_secs(30), MAX_FRAME_BYTES);
    let facts = ExitFacts { success: false, code: Some(code) };
    supervisor.status_polled(Poll::Ready(facts)).expect("status");
    supervisor.output_polled(OutputStream::Stdout, Poll::Ready(Vec::new())).expect("stdout");
    assert!(supervisor.outcome().is_none());
    supervisor
        .output_polled(OutputStream::Stderr, Poll::Ready(diagnostics.to_vec()))
        .expect("stderr");
    match supervisor.outcome() {
        Some(Err(failure)) => failure,
        other => panic!("expected a failure, got {other:?}"),
    }
}

#[test]
fn registry_invocation_cache_failures_and_ledger_independence_are_observable() {
    let mut daemon = Daemon::new(&[record_a()]);
    let client = daemon.client();
    let by_id = r#"{"projectId": "project-a"}"#;
    let first_projection = daemon.request(client, "get-1", "snapshot.get", by_id);
    let projection = ok(&first_projection);
    assert_eq!(projection["generatedAt"], "2026-08-10T10:00:00Z");
    assert_eq!(projection["tasks"][0]["title"], "first");
    assert_eq!(projection["degraded"], json("[]"));
    assert_eq!(daemon.invocations, ["/work/a"]);
    let invocation = SnapshotInvocation::for_project(&records(&[record_a()])[0]).expect("command");
    assert_eq!(invocation.cwd(), "/work/a");
    assert_eq!(invocation.args(), &["--fixture", "snapshot", "--json"]);

    let subscribed =
        daemon.request(client, "sub-1", "snapshot.subscribe", r#"{"path": "/work/a"}"#);
    let subscription_id =
        ok(&subscribed)["subscriptionId"].as_str().expect("subscription id string").to_owned();

    daemon.touch("/work/a/.jeff/replace-trigger");
    daemon.pass(150);
    let run = daemon.run();
    daemon.finish(run, &snapshot("2026-08-10T10:01:00Z", "replacement"));
    let replaced = daemon.one(client);
    assert_eq!(replaced["name"], "snapshot.replaced");
    assert_eq!(replaced["payload"]["projectId"], "project-a");
    assert_eq!(replaced["payload"]["snapshot"]["generatedAt"], "2026-08-10T10:01:00Z");
    assert_eq!(replaced["payload"]["snapshot"]["tasks"][0]["title"], "replacement");

    let supported = snapshot("2026-08-10T10:02:00Z", "rejected");
    daemon.touch("/work/a/.jeff/old-schema-trigger");
    daemon.pass(150);
    let run = daemon.run();
    daemon.finish(run, &supported.replace("\"schemaVersion\":1", "\"schemaVersion\":0"));
    let old_failure = daemon.one(client);
    assert_eq!(old_failure["name"], "snapshot.failed");
    assert!(old_failure["payload"]["message"]
        .as_str()
        .expect("failure message")
        .contains("older than supported minimum"));

    let retained = daemon.request(client, "get-retained", "snapshot.get", by_id);
    let retained_projection = ok(&retained);
    assert_eq!(retained_projection["generatedAt"], "2026-08-10T10:01:00Z");
    assert_eq!(retained_projection["tasks"][0]["title"], "replacement");
    assert_eq!(retained_projection["degraded"], json(r#"["snapshot_stale"]"#));

    daemon.touch("/work/a/.jeff/two-documents-trigger");
    daemon.pass(150);
    let run = daemon.run();
    daemon.finish(run, &format!("{supported}\n{supported}\n"));
    let parse_failure = daemon.one(client);
    assert_eq!(parse_failure["name"], "snapshot.failed");
    assert!(parse_failure["payload"]["message"]
        .as_str()
        .expect("parse failure message")
        .contains("invalid snapshot"));

    daemon.touch("/work/a/.jeff/older-cook-trigger");
    daemon.pass(150);
    let run = daemon.run();
    daemon.done(run, Err(exit_failure(64, b"cook: unknown command: snapshot\n")));
    let older_cook = daemon.one(client);
    assert_eq!(older_cook["name"], "snapshot.failed");
    assert_eq!(older_cook["payload"]["exitCode"], 64);
    assert!(older_cook["payload"]["message"]
        .as_str()
        .expect("older-cook failure message")
        .contains("older jeff missing snapshot"));

    let unsubscribed = daemon.request(
        client,
        "unsub-1",
        "snapshot.unsubscribe",
        &format!(r#"{{"subscriptionId": "{subscription_id}"}}"#),
    );
    assert_eq!(ok(&unsubscribed), &json(r#"{"ok": true}"#));
    daemon.stop();
}

#[test]
fn cycle_one_contract_shutdown_reserves_terminal_capacity_for_accepted_cold_requests() {
    let mut daemon = Daemon::limited(
        &[record_a(), record_b(), named("project-c")],
        "ingress=16,in_flight=16,egress_frames=1,egress_bytes=8388608",
    );
    let observer = daemon.client();
    let established = daemon.request(
        observer,
        "established-sub",
        "snapshot.subscribe",
        r#"{"projectId": "project-a"}"#,
    );
    let subscription_id =
        ok(&established)["subscriptionId"].as_str().expect("subscription id").to_owned();

    let client = daemon.client();
    daemon.send(client, "accepted-cold-b", "snapshot.get", r#"{"projectId": "project-b"}"#);
    daemon.block(client);
    daemon.send(client, "blocked-ordinary", "server.hello", "{}");
    daemon.send(client, "queued-ordinary", "server.hello", "{}");
    daemon.send(client, "accepted-cold-c", "snapshot.get", r#"{"projectId": "project-c"}"#);

    daemon.stop();
    let ended = daemon.one(observer);
    assert_eq!(ended["name"], "subscription.ended");
    assert_eq!(
        ended["payload"],
        json(&format!(r#"{{"subscriptionId": "{subscription_id}", "reason": "shutdown"}}"#))
    );
    let frames = daemon.frames(client);
    for request_id in ["accepted-cold-b", "accepted-cold-c"] {
        let terminal: Vec<_> = frames
            .iter()
            .filter(|frame| frame["kind"] == "res" && frame["id"] == request_id)
            .collect();
        assert_eq!(terminal.len(), 1, "exactly one terminal response: {frames:?}");
        assert_eq!(terminal[0]["ok"], false);
        assert_eq!(terminal[0]["error"]["code"], "unavailable");
    }
    assert!(daemon.closed(client));
}

#[test]
fn second_recovery_contract_replacement_does_not_expose_an_unreturned_subscription() {
    let old = r#"{"id": "project-a", "path": "/work/a", "name": "Old Project", "enabled": true}"#;
    let new = r#"{"id": "project-a", "path": "/work/b", "name": "New Project", "enabled": true}"#;
    let mut daemon = Daemon::new(&[old.to_owned()]);
    let client = daemon.client();
    daemon.send(client, "old-sub", "snapshot.subscribe", r#"{"projectId": "project-a"}"#);
    let old_run = daemon.run();

    daemon.replace(&[new.to_owned()]);
    let mut frames = daemon.frames(client);
    daemon.finish(old_run, &snapshot("2026-08-10T12:00:00Z", "old path"));
    frames.extend(daemon.frames(client));
    let updated = frames
        .iter()
        .find(|frame| frame["name"] == "project.updated")
        .expect("replacement emits project.updated");
    assert_eq!(updated["payload"]["projectId"], "project-a");

    daemon.send(client, "new-get", "snapshot.get", r#"{"path": "/work/b"}"#);
    let new_run = daemon.run();
    daemon.finish(new_run, &snapshot("2026-08-10T12:01:00Z", "new path"));
    let current = daemon.one(client);
    assert_eq!(current["id"], "new-get");
    let projection = ok(&current);
    assert_eq!(projection["path"], "/work/b");
    assert_eq!(projection["tasks"][0]["title"], "new path");
    assert_eq!(daemon.invocations, ["/work/a", "/work/b"]);

    daemon.stop();
    frames.extend(daemon.frames(client));
    let terminal: Vec<_> = frames
        .iter()
        .filter(|frame| frame["kind"] == "res" && frame["id"] == "old-sub")
        .collect();
    assert_eq!(terminal.len(), 1, "fails exactly once: {frames:?}");
    assert_eq!(terminal[0]["ok"], false);
    assert_eq!(terminal[0]["error"]["code"], "unavailable");
    assert!(frames.iter().all(|frame| frame["name"] != "subscription.ended"), "{frames:?}");
}

#[test]
fn review_contract_failed_runtime_watch_install_is_retried_before_changes_are_lost() {
    let pending = r#"{"id": "project-b", "path": "/work/b", "name": "Pending Project",
        "enabled": true, "cook": ["/bin/cook", "--fixture"]}"#;
    let list = records(&[pending.to_owned()]);
    let mut daemon = Daemon::new(&[]);
    let client = daemon.client();

    let plan = daemon.server.plan_watches(&list);
    assert_eq!(plan.watch, list);
    let now = daemon.now();
    daemon.server.replace_registry(
        records(&[pending.to_owned()]),
        &vec!["project-b".to_owned()],
        now,
    );
    daemon.settle();
    let updated = daemon.one(client);
    assert_eq!(updated["name"], "project.updated");
    assert_eq!(updated["payload"]["projectId"], "project-b");

    // The same registry again: the watch is tried once more, and now succeeds.
    let plan = daemon.server.plan_watches(&list);
    assert!(plan.unwatch.is_empty());
    assert_eq!(plan.watch, list);
    daemon.replace(&[pending.to_owned()]);
    let retried = daemon.one(client);
    assert_eq!(retried["name"], "project.updated");
    assert_eq!(retried["payload"]["projectId"], "project-b");
    assert!(daemon.server.pending_watches.is_empty());

    daemon.send(client, "watch-sub", "snapshot.subscribe", r#"{"projectId": "project-b"}"#);
    let run = daemon.run();
    daemon.finish(run, &snapshot("2026-08-10T12:00:00Z", "initial watched"));
    assert!(ok(&daemon.one(client))["subscriptionId"].is_string());
    daemon.touch("/work/b/.jeff/watch-trigger");
    daemon.pass(150);
    let run = daemon.run();
    daemon.finish(run, &snapshot("2026-08-10T12:01:00Z", "replacement watched"));
    let replaced = daemon.one(client);
    assert_eq!(replaced["name"], "snapshot.replaced");
    assert_eq!(replaced["payload"]["snapshot"]["tasks"][0]["title"], "replacement watched");
}

#[test]
fn watches_that_failed_are_tried_again_after_a_while() {
    let mut daemon = Daemon::new(&[]);
    let client = daemon.client();
    let now = daemon.now();
    daemon.server.replace_registry(records(&[record_b()]), &vec!["project-b".to_owned()], now);
    daemon.settle();
    daemon.frames(client);

    daemon.clock = 24;
    assert!(daemon.server.pending_watch_targets(daemon.now()).is_none());
    daemon.clock = 25;
    let targets = daemon.server.pending_watch_targets(daemon.now()).expect("time to try");
    assert_eq!(targets, records(&[record_b()]));
    daemon.server.watches_installed(&Vec::new(), daemon.now());
    daemon.settle();
    assert!(daemon.frames(client).is_empty());
    assert!(daemon.server.pending_watch_targets(daemon.now()).is_none());

    daemon.clock = 50;
    let targets = daemon.server.pending_watch_targets(daemon.now()).expect("time to try");
    daemon.server.watches_installed(&targets, daemon.now());
    daemon.settle();
    let told = daemon.one(client);
    assert_eq!(told["name"], "project.updated");
    assert_eq!(
        told["payload"],
        json(r#"{"projectId": "project-b", "path": "/work/b", "enabled": true}"#)
    );
    daemon.clock = 1000;
    assert!(daemon.server.pending_watch_targets(daemon.now()).is_none());
}

#[test]
fn review_contract_disconnect_drops_subscription_ownership_before_later_events() {
    let mut daemon = Daemon::new(&[record_a()]);
    let params = r#"{"projectId": "project-a"}"#;
    let observer = daemon.client();
    ok(&daemon.request(observer, "warm", "snapshot.get", params));
    let observed = daemon.request(observer, "observer-sub", "snapshot.subscribe", params);
    assert!(ok(&observed)["subscriptionId"].is_string());

    let disconnected = daemon.client();
    let subscribed = daemon.request(disconnected, "disconnect-sub", "snapshot.subscribe", params);
    let subscription_id =
        ok(&subscribed)["subscriptionId"].as_str().expect("subscription id").to_owned();
    daemon.server.drop_disconnected_connections(&vec![disconnected]);
    daemon.settle();
    assert!(daemon.closed(disconnected));

    daemon.touch("/work/a/.jeff/disconnect-trigger");
    daemon.pass(150);
    let run = daemon.run();
    daemon.finish(run, &snapshot("2026-08-10T12:02:00Z", "after disconnect"));
    let replacement = daemon.one(observer);
    assert_eq!(replacement["name"], "snapshot.replaced");
    assert_eq!(replacement["payload"]["snapshot"]["tasks"][0]["title"], "after disconnect");
    assert!(daemon.frames(disconnected).is_empty());

    let rejected = daemon.request(
        observer,
        "removed-owner",
        "snapshot.unsubscribe",
        &format!(r#"{{"subscriptionId": "{subscription_id}"}}"#),
    );
    assert_eq!(rejected["ok"], false);
    assert_eq!(rejected["error"]["code"], "unknown_subscription");
}

#[test]
fn cycle_one_contract_invalid_reload_preserves_state_while_invalid_is_installed() {
    let generation_a = r#"{"id": "project-a", "path": "/work/a", "name": "Generation A",
        "enabled": true, "cook": ["/bin/generation-cook"]}"#
        .to_owned();
    let generation_b = generation_a.replace("Generation A", "Generation B");
    let mut daemon = Daemon::new(&[generation_a.clone(), record_b()]);
    let retained = daemon.client();
    let subscribed =
        daemon.request(retained, "retained-sub", "snapshot.subscribe", r#"{"projectId": "project-b"}"#);
    assert_eq!(ok(&subscribed)["snapshot"]["tasks"][0]["title"], "first");
    assert_eq!(daemon.invocations, ["/work/b"]);

    // An invalid registry is no registry, so that nothing is replaced.
    assert!(load_registry("{invalid runtime registry").is_err());
    let listed = daemon.request(retained, "list-after-invalid", "project.list", "{}");
    let ids: BTreeSet<_> = ok(&listed)["projects"]
        .as_array()
        .expect("project list rows")
        .iter()
        .map(|row| row["id"].as_str().expect("listed project id").to_owned())
        .collect();
    assert_eq!(ids, BTreeSet::from(["project-a".to_owned(), "project-b".to_owned()]));
    let cached =
        daemon.request(retained, "get-after-invalid", "snapshot.get", r#"{"projectId": "project-b"}"#);
    assert_eq!(ok(&cached)["tasks"][0]["title"], "first");

    daemon.touch("/work/b/.jeff/after-invalid-trigger");
    daemon.pass(150);
    assert_eq!(daemon.invocations, ["/work/b", "/work/b"]);
    let run = daemon.run();
    daemon.finish(run, &snapshot("2026-08-10T13:02:00Z", "after invalid reload"));
    let replacement = daemon.one(retained);
    assert_eq!(replacement["name"], "snapshot.replaced");
    assert_eq!(replacement["payload"]["snapshot"]["tasks"][0]["title"], "after invalid reload");

    daemon.invocations.clear();
    let obsolete = daemon.client();
    daemon.send(obsolete, "obsolete-get", "snapshot.get", r#"{"projectId": "project-a"}"#);
    let obsolete_run = daemon.run();
    let current = daemon.client();
    daemon.replace(&[generation_b, record_b()]);
    let update = daemon.one(current);
    assert_eq!(update["name"], "project.updated");
    assert_eq!(update["payload"]["projectId"], "project-a");
    daemon.replace(&[generation_a, record_b()]);
    let update = daemon.one(current);
    assert_eq!(update["name"], "project.updated");
    assert_eq!(update["payload"]["projectId"], "project-a");
    daemon.send(current, "current-get", "snapshot.get", r#"{"projectId": "project-a"}"#);
    daemon.finish(obsolete_run, &snapshot("2026-08-10T13:00:00Z", "obsolete generation"));
    let fresh_run = daemon.run();
    daemon.finish(fresh_run, &snapshot("2026-08-10T13:01:00Z", "fresh generation"));
    let answer = daemon.one(current);
    assert_eq!(answer["id"], "current-get");
    assert_eq!(ok(&answer)["tasks"][0]["title"], "fresh generation");
    assert_eq!(daemon.invocations, ["/work/a", "/work/a"]);
}

#[test]
fn council_recovery_contract_connection_and_retained_buffer_caps_preserve_progress() {
    let mut daemon = Daemon::limited(&[], "connections=3,frame_bytes=256");
    let limits = Limits::new(MAX_FRAME_BYTES, Some("connections=3,frame_bytes=256"));
    let healthy = daemon.client();
    daemon.client();
    daemon.client();
    assert!(matches!(read_all(&[b' '; 256], limits), ReadStep::NeedMore));
    assert!(matches!(read_all(&[b' '; 257], limits), ReadStep::Oversized { request_id: None }));

    assert_eq!(daemon.server.add_connection(), None);
    let hello = daemon.request(healthy, "healthy", "server.hello", "{}");
    assert_eq!(ok(&hello)["protocolVersion"], 1);
}

fn facts(kind: FileKind, mode: u32, size: u64) -> FileFacts {
    FileFacts { kind, owner: 1000, mode, device: 7, inode: 42, size }
}

#[test]
fn council_recovery_contract_registry_rejects_symlinks_and_non_regular_entries() {
    for kind in [FileKind::Other, FileKind::Directory] {
        let error = check_registry_file(&facts(kind, 0o600, 2)).expect_err("not a file");
        assert!(error.message().contains("regular file"), "{}", error.message());
    }
    assert!(check_registry_file(&facts(FileKind::Regular, 0o600, 2)).is_ok());
    let other = FileFacts { inode: 43, ..facts(FileKind::Regular, 0o600, 2) };
    let error = check_opened_registry(&facts(FileKind::Regular, 0o600, 2), &other)
        .expect_err("another file");
    assert!(error.message().contains("regular file"), "{}", error.message());
}

#[test]
fn council_recovery_contract_registry_fifo_is_rejected_without_blocking() {
    let error = check_registry_file(&facts(FileKind::Other, 0o600, 0)).expect_err("a FIFO");
    assert!(error.message().contains("regular file"), "{}", error.message());
}

#[test]
fn council_recovery_contract_registry_has_a_finite_one_mibibyte_input_bound() {
    const REGISTRY_LIMIT_BYTES: usize = 1024 * 1024;
    let oversized = format!(
        r#"[{{"id": "demo", "path": "/work/demo", "name": "{}", "enabled": false, "cook": null}}]"#,
        "x".repeat(REGISTRY_LIMIT_BYTES)
    );
    let size = oversized.len() as u64;
    for message in [
        check_registry_file(&facts(FileKind::Regular, 0o600, size)).expect_err("size").message(),
        load_registry(&oversized).expect_err("size").message(),
    ] {
        assert!(message.contains("exceeds") && message.contains("1048576"), "{message}");
    }
    let largest = facts(FileKind::Regular, 0o600, REGISTRY_LIMIT_BYTES as u64);
    assert!(check_registry_file(&largest).is_ok());
}

#[test]
fn task_236_replan_contract_external_socket_rejects_unsafe_registry_directory_and_file() {
    assert!(check_registry_directory(&facts(FileKind::Directory, 0o777, 0)).is_err());
    assert!(check_registry_directory(&facts(FileKind::Directory, 0o700, 0)).is_ok());
    for mode in [0o755, 0o775, 0o1777] {
        assert!(check_registry_directory(&facts(FileKind::Directory, mode, 0)).is_ok());
    }
    assert!(check_registry_file(&facts(FileKind::Regular, 0o666, 2)).is_err());
    assert!(check_registry_file(&facts(FileKind::Regular, 0o644, 2)).is_ok());
    assert!(check_registry_file(&facts(FileKind::Regular, 0o664, 2)).is_ok());
}

fn blocked_hello_bytes(id: &str) -> usize {
    let id = serde_json::to_string(id).expect("id");
    serde_json::to_vec(&json(&format!(
        r#"{{"v": 1, "kind": "res", "id": {id}, "ok": true, "result": {{"protocolVersion": 1,
            "serverVersion": "9.9.9", "snapshotSchemaMin": 1, "snapshotSchemaMax": 1}}}}"#
    )))
    .expect("serialize exact blocked response")
    .len()
}

#[test]
fn task_236_contract_terminal_capacity_survives_connection_bytes_and_returned_subscription() {
    let blocked_id = "b".repeat(700);
    let blocked_bytes = blocked_hello_bytes(&blocked_id);
    let mut daemon = Daemon::limited(
        &[record_a(), record_b()],
        &format!(
            "ingress=16,in_flight=16,egress_frames=1,egress_bytes={blocked_bytes},global_egress_bytes=8192"
        ),
    );
    let target = daemon.client();
    let returned = daemon.request(
        target,
        "returned-subscription",
        "snapshot.subscribe",
        r#"{"projectId": "project-a"}"#,
    );
    let returned_id =
        ok(&returned)["subscriptionId"].as_str().expect("returned subscription id").to_owned();
    let project_b = r#"{"projectId": "project-b"}"#;
    daemon.send(target, "accepted-cold-get", "snapshot.get", project_b);
    let barrier = daemon.client();
    daemon.send(barrier, "accepted-after-target", "snapshot.subscribe", project_b);
    daemon.send(barrier, "barrier-accepted", "server.hello", "{}");
    assert_eq!(daemon.one(barrier)["id"], "barrier-accepted");

    daemon.block(target);
    daemon.send(target, &blocked_id, "server.hello", "{}");
    assert!(!daemon.closed(target));
    daemon.stop();

    let barrier_terminal = daemon.one(barrier);
    assert_eq!(barrier_terminal["id"], "accepted-after-target");
    assert_eq!(barrier_terminal["error"]["code"], "unavailable");
    let frames = daemon.frames(target);
    let terminal: Vec<_> =
        frames.iter().filter(|frame| frame["id"] == "accepted-cold-get").collect();
    assert_eq!(terminal.len(), 1, "target frames: {frames:?}");
    assert_eq!(terminal[0]["error"]["code"], "unavailable");
    assert!(frames.iter().any(|frame| {
        frame["name"] == "subscription.ended" && frame["payload"]["subscriptionId"] == returned_id
    }));
}

#[test]
fn task_236_contract_terminal_capacity_survives_global_ordinary_bytes() {
    let blocked_id = "g".repeat(700);
    let blocked_bytes = blocked_hello_bytes(&blocked_id);
    let mut daemon = Daemon::limited(
        &[record_b()],
        &format!(
            "ingress=16,in_flight=16,egress_frames=2,egress_bytes=8192,global_egress_bytes={blocked_bytes}"
        ),
    );
    let target = daemon.client();
    daemon.send(target, "accepted-global-cold", "snapshot.get", r#"{"projectId": "project-b"}"#);
    let holder = daemon.client();
    daemon.block(holder);
    daemon.send(holder, &blocked_id, "server.hello", "{}");
    assert!(!daemon.closed(holder));

    daemon.stop();
    let frames = daemon.frames(target);
    let terminal: Vec<_> =
        frames.iter().filter(|frame| frame["id"] == "accepted-global-cold").collect();
    assert_eq!(terminal.len(), 1, "target frames: {frames:?}");
    assert_eq!(terminal[0]["error"]["code"], "unavailable");
}

#[test]
fn task_236_contract_global_cold_waiter_limit_spans_distinct_projects() {
    let mut daemon = Daemon::limited(
        &[record_a(), record_b(), named("project-c")],
        "ingress=16,in_flight=16,cold_waiters=2",
    );
    let first = daemon.client();
    daemon.send(first, "project-a-waiter", "snapshot.get", r#"{"projectId": "project-a"}"#);
    let second = daemon.client();
    daemon.send(second, "project-b-waiter", "snapshot.get", r#"{"projectId": "project-b"}"#);
    let overflow = daemon.client();
    daemon.send(overflow, "project-c-overflow", "snapshot.get", r#"{"projectId": "project-c"}"#);
    assert!(daemon.frames(overflow).is_empty());
    assert!(daemon.closed(overflow));

    let healthy = daemon.client();
    daemon.send(healthy, "healthy", "server.hello", "{}");
    assert_eq!(ok(&daemon.one(healthy))["protocolVersion"], 1);
    assert!(!daemon.closed(first));
    assert!(!daemon.closed(second));
    while let Some(run) = daemon.launched.pop_front() {
        daemon.finish(run, &snapshot("2026-08-10T10:00:00Z", "first"));
    }
    assert_eq!(daemon.one(first)["id"], "project-a-waiter");
    assert_eq!(daemon.one(second)["id"], "project-b-waiter");
}

#[test]
fn socket_override_replaces_only_a_proven_stale_socket() {
    let socket = facts(FileKind::Socket, 0o600, 0);
    assert!(check_existing_socket("/run/jeffd.sock", &socket, 1000).is_ok());
    assert!(check_connection(ConnectOutcome::Refused).is_ok());
    assert!(check_unchanged_socket("/run/jeffd.sock", &socket, &socket, 1000).is_ok());

    let refused = check_existing_socket("/run/jeffd.sock", &facts(FileKind::Regular, 0o600, 13), 1000)
        .expect_err("start must refuse a non-socket path");
    assert_eq!(refused, LifecycleError::UnsafeSocket("/run/jeffd.sock".to_owned()));
    assert_eq!(check_connection(ConnectOutcome::Connected), Err(LifecycleError::AlreadyRunning));
    assert_eq!(
        check_connection(ConnectOutcome::Failed("denied".to_owned())),
        Err(LifecycleError::AmbiguousSocket("denied".to_owned()))
    );
    let replaced = FileFacts { inode: 43, ..socket };
    assert!(check_unchanged_socket("/run/jeffd.sock", &socket, &replaced, 1000).is_err());

    assert_eq!(
        DaemonConfig::resolve(Some("/home/user"), Some("relative/jeffd.sock")).err(),
        Some(ConfigError::RelativeSocket)
    );
}

#[test]
fn an_idle_daemon_holds_no_capacity() {
    let mut daemon = Daemon::new(&[record_a(), record_b()]);
    let a = daemon.client();
    let b = daemon.client();
    let granted = daemon.request(a, "1", "snapshot.subscribe", r#"{"projectId":"project-a"}"#);
    let granted = ok(&granted)["subscriptionId"].as_str().expect("id").to_owned();
    daemon.request(a, "2", "snapshot.get", r#"{"projectId":"project-b"}"#);
    daemon.send(b, "3", "snapshot.get", r#"{"path":"relative"}"#);
    daemon.raw(b, b"{");
    daemon.request(a, "4", "snapshot.unsubscribe", &format!(r#"{{"subscriptionId":"{granted}"}}"#));
    for connection in [a, b] {
        for name in [
            CounterName::WriterBytes(connection),
            CounterName::WriterFrames(connection),
            CounterName::RequiredDeliveries(connection),
            CounterName::ConnectionSubscriptions(connection),
        ] {
            assert_eq!(daemon.server.ledger.used(name), 0);
        }
    }
    for name in
        [CounterName::GlobalWriterBytes, CounterName::GlobalSubscriptions, CounterName::Waiters]
    {
        assert_eq!(daemon.server.ledger.used(name), 0);
    }
}

#[test]
fn subscriptions_get_ids_of_their_own() {
    let mut daemon = Daemon::new(&[record_a(), record_b()]);
    let a = daemon.client();
    let b = daemon.client();
    let mut ids = BTreeSet::new();
    for (client, project) in
        [(a, "project-a"), (a, "project-a"), (b, "project-a"), (b, "project-b"), (a, "project-b")]
    {
        let frame = daemon.request(
            client,
            "s",
            "snapshot.subscribe",
            &format!(r#"{{"projectId":"{project}"}}"#),
        );
        assert_eq!(ok(&frame)["snapshot"]["projectId"], project);
        assert!(ids.insert(ok(&frame)["subscriptionId"].as_str().expect("id").to_owned()));
    }
    assert_eq!(ids.len(), 5);
}

#[test]
fn projects_that_stay_keep_their_snapshot_and_followers() {
    let mut daemon = Daemon::new(&[record_a(), record_b()]);
    let client = daemon.client();
    daemon.request(client, "a", "snapshot.subscribe", r#"{"projectId":"project-a"}"#);
    daemon.request(client, "b", "snapshot.subscribe", r#"{"projectId":"project-b"}"#);
    daemon.replace(&[named("new"), record_a()]);
    let frames = daemon.frames(client);
    // The one that left ended; the registry changed; the one that stayed is silent.
    assert!(frames.iter().all(|frame| frame["payload"]["projectId"] != "project-a"));
    assert!(frames.iter().any(|frame| frame["payload"]["projectId"] == "project-b"));
    assert!(daemon.launched.is_empty());
    let served = daemon.request(client, "c", "snapshot.get", r#"{"projectId":"project-a"}"#);
    assert_eq!(ok(&served)["generatedAt"], "2026-08-10T10:00:00Z");
    daemon.touch("/work/a/.jeff/tasks.json");
    daemon.pass(1000);
    let run = daemon.run();
    daemon.finish(run, &snapshot("2026-08-11T10:00:00Z", "second"));
    let event = daemon.one(client);
    assert_eq!(event["name"], "snapshot.replaced");
    assert_eq!(event["payload"]["projectId"], "project-a");
}

#[test]
fn runs_of_an_older_registration_change_nothing() {
    let mut daemon = Daemon::new(&[record_a(), record_b()]);
    let client = daemon.client();
    daemon.send(client, "1", "snapshot.get", r#"{"projectId":"project-a"}"#);
    let outdated = daemon.run();
    daemon.replace(&[record_b()]);
    daemon.frames(client);
    daemon.finish(outdated, &first());
    assert!(daemon.frames(client).is_empty());
    assert!(daemon.server.caches.get("project-a").is_none());
    assert!(daemon.server.active.is_empty());
}

#[test]
fn sent_snapshots_read_back_as_they_were_kept() {
    let mut daemon = Daemon::new(&[record_a()]);
    let client = daemon.client();
    daemon.send(client, "1", "snapshot.get", r#"{"projectId":"project-a"}"#);
    let run = daemon.run();
    daemon.finish(run, &snapshot("2026-08-10T10:00:00Z", "tabs\tand \u{1f600} \"quotes\"\n"));
    let bytes = daemon.clients.get_mut(&client).expect("client").sent.remove(0);
    assert!(!bytes.contains(&b'\n'));
    let frame: Value = serde_json::from_slice(&bytes).expect("one document");
    let kept = daemon.server.caches.get("project-a").expect("cache").projection().expect("kept");
    assert_eq!(kept.snapshot.tasks[0].title, "tabs\tand \u{1f600} \"quotes\"\n");
    assert_eq!(ok(&frame)["tasks"][0]["title"], kept.snapshot.tasks[0].title.as_str());
    assert_eq!(ok(&frame)["projectId"], "project-a");
    assert_eq!(ok(&frame)["path"], "/work/a");
    assert_eq!(ok(&frame)["degraded"], json("[]"));
}

#[test]
fn kept_snapshots_are_served_under_the_longest_ids() {
    const FRAME_BYTES: usize = 32 * 1024;
    let params = r#"{"projectId": "project-a"}"#;
    let mut daemon = Daemon::limited(&[record_a()], "frame_bytes=32768,snapshot_bytes=32768");
    let client = daemon.client();
    // The longest title that is kept.
    let mut kept: usize = 0;
    for length in (0..FRAME_BYTES).rev() {
        let result = parse_snapshot_output(
            snapshot("2026-08-12T12:00:00Z", &"x".repeat(length)).as_bytes(),
        )
        .expect("a snapshot");
        if retained_snapshot_fits(&records(&[record_a()])[0], &result, FRAME_BYTES) {
            kept = length;
            break;
        }
    }
    assert!(kept > 0);
    daemon.send(client, "first", "snapshot.get", params);
    let run = daemon.run();
    daemon.finish(run, &snapshot("2026-08-12T12:00:00Z", &"x".repeat(kept)));
    assert_eq!(ok(&daemon.one(client))["tasks"][0]["title"], "x".repeat(kept).as_str());
    let worst_id = "\0".repeat(4096);
    for method in ["snapshot.get", "snapshot.subscribe"] {
        let served = daemon.request(client, &worst_id, method, params);
        assert!(serialized_len(&served) <= FRAME_BYTES);
        assert_eq!(served["ok"], true);
    }
}

#[test]
fn a_queue_has_room_for_everything_that_may_be_in_it() {
    let limits = Limits::new(
        MAX_FRAME_BYTES,
        Some("egress_frames=3,cold_waiters=5,connection_subscriptions=7"),
    );
    assert_eq!(limits.writer_capacity(), 16);
    let most = format!("egress_frames={},cold_waiters=5", usize::MAX);
    assert_eq!(Limits::new(MAX_FRAME_BYTES, Some(&most)).writer_capacity(), usize::MAX);

    // A blocked client with every kind of frame in its queue.
    let mut daemon = Daemon::limited(
        &[record_a(), record_b()],
        "egress_frames=2,cold_waiters=2,connection_subscriptions=2",
    );
    let client = daemon.client();
    let granted = daemon.request(client, "s", "snapshot.subscribe", r#"{"projectId": "project-a"}"#);
    assert_eq!(granted["ok"], true);
    daemon.block(client);
    daemon.send(client, "h1", "server.hello", "{}");
    daemon.send(client, "h2", "server.hello", "{}");
    daemon.send(client, "w1", "snapshot.get", r#"{"projectId": "project-b"}"#);
    daemon.send(client, "w2", "snapshot.get", r#"{"projectId": "project-b"}"#);
    daemon.server.begin_shutdown();
    let owed = daemon.server.ledger.used(CounterName::RequiredDeliveries(client));
    assert_eq!(owed, 3);
    daemon.settle();
    let queue = daemon.clients[&client].queue.len();
    assert!(queue <= daemon.server.limits.writer_capacity(), "{queue}");
    daemon.unblock(client);
    assert_eq!(daemon.server.ledger.used(CounterName::RequiredDeliveries(client)), 0);
    let ids: Vec<_> = daemon
        .frames(client)
        .iter()
        .filter(|frame| frame["kind"] == "res")
        .map(|frame| frame["id"].as_str().expect("id").to_owned())
        .collect();
    assert_eq!(ids, ["h1", "h2", "w1", "w2"]);
}

#[test]
fn no_more_clients_are_let_in_than_allowed() {
    let mut daemon = Daemon::limited(&[record_a()], "connections=2");
    let first = daemon.client();
    daemon.client();
    assert_eq!(daemon.server.add_connection(), None);
    daemon.server.drop_disconnected_connections(&vec![first]);
    daemon.settle();
    assert!(daemon.server.add_connection().is_some());
}

#[test]
fn enabled_projects_are_watched_from_the_start() {
    let disabled = record_b().replace("\"enabled\": true", "\"enabled\": false");
    let list = records(&[named("first"), disabled, record_a()]);
    let ids: Vec<_> = first_watches(&list).iter().map(|record| record.id.clone()).collect();
    assert_eq!(ids, ["first", "project-a"]);
}

#[test]
fn registry_changes_start_no_snapshots() {
    let mut daemon = Daemon::new(&[record_a()]);
    daemon.replace(&[record_a(), record_b(), named("new")]);
    daemon.replace(&[named("new"), record_b()]);
    assert!(daemon.launched.is_empty());
    assert!(daemon.server.deferred.is_empty());
    assert!(daemon.server.active.is_empty());
}
