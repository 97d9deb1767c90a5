use jeff_control::config::{
    validate_owned_directory, validate_private_directory, ConfigError, DaemonConfig, DirectoryPlan,
};
use jeff_control::daemon::{DaemonError, ServerError};
use jeff_control::files::{FileFacts, FileKind};
use jeff_control::framing::{
    find_oversized_request_id, serialize_bounded, Counter, FrameReader, ReadStep,
};
use jeff_control::json::{Json, JsonNumber, JsonObject};
use jeff_control::lifecycle::{
    hello_frame, is_expected_socket, judge_reply_frame, lock_file_is_owned, lock_path, lock_text,
    parse_pid, quarantine_name, Collected, ConnectOutcome, FrameCollector, HelloReply,
    LifecycleError, StaleAction, StaleCheck, StaleEvent,
};
use jeff_control::limits::Limits;
use jeff_control::parse::{
    mentions_words, parse_i32, parse_unsigned, split_at_each, split_at_first, trimmed,
};
use jeff_control::path::{absolute, join_path, lies_within, paths_equal};
use jeff_control::project::{ProjectRecord, Snapshot};
use jeff_control::protocol::{reserve_outbound, CapacityPermit, CounterName, Ledger};
use jeff_control::registry::{
    check_registry, judge_registry, registry_from_records, reject_oversized, RegistryError,
};
use jeff_control::snapshot::{
    exit_message, parse_snapshot_output, BoundedOutput, ExitFacts, OutputStream, Poll,
    SnapshotFailure, SnapshotInvocation, SnapshotSupervisor,
};
use jeff_control::state::{DirtyTracker, ProjectCache};
use jeff_control::text::{decimal, joined, same_text, signed_decimal, text_before};
use jeff_control::time::Duration;
use serde_json::Value;

const DOCUMENT: &str = r#"{"schemaVersion":1,"generatedAt":"2026-08-10T10:00:00Z","mode":"full","maxParallelTasks":3,"tasks":[{"id":"t-1","slug":"one","title":"One","status":"open","stage":"plan","priority":"p0","deps":[7,"t-0"],"blockedReason":"waiting","category":"code","discoveredFrom":7,"claim":{"by":"omp","at":"2026-08-10T09:00:00Z"},"escalation":{"fork":"which","options":["a","b"]}}]}"#;

fn snapshot(text: &str) -> Snapshot {
    parse_snapshot_output(text.as_bytes()).expect("valid snapshot")
}

fn record(id: &str, path: &str) -> ProjectRecord {
    ProjectRecord {
        id: id.to_owned(),
        path: path.to_owned(),
        name: id.to_owned(),
        enabled: true,
        cook: None,
    }
}

fn facts(kind: FileKind, owner: u32, mode: u32) -> FileFacts {
    FileFacts { kind, owner, mode, device: 1, inode: 2, size: 0 }
}

// Settings

#[test]
fn settings_follow_the_environment() {
    let config = DaemonConfig::resolve(Some("/home/user"), None).expect("settings");
    assert_eq!(config.home, "/home/user");
    assert_eq!(config.socket, "/home/user/.jeff/jeffd.sock");
    assert_eq!(config.registry, "/home/user/.jeff/projects.json");
    assert_eq!(config.snapshot_timeout(), Duration::from_secs(30));
    assert_eq!(config.debounce_window(), Duration::from_millis(150));
    assert_eq!(config.frame_limit(), 16 * 1024 * 1024);

    let config = DaemonConfig::resolve(Some("/home/user"), Some("/run/j.sock")).expect("settings");
    assert_eq!(config.socket, "/run/j.sock");
    assert_eq!(config.registry, "/home/user/.jeff/projects.json");

    let config = DaemonConfig::default(Some("/home/user"));
    assert_eq!(config.socket, "/home/user/.jeff/jeffd.sock");
    assert_eq!(config.registry, "/home/user/.jeff/projects.json");
    let config = DaemonConfig::default(None);
    assert_eq!(config.home, "");
    assert_eq!(config.socket, ".jeff/jeffd.sock");

    assert_eq!(DaemonConfig::resolve(None, None).err(), Some(ConfigError::MissingHome));
    assert_eq!(DaemonConfig::resolve(Some("home"), None).err(), Some(ConfigError::MissingHome));
    assert_eq!(
        DaemonConfig::resolve(Some("/home/user"), Some("j.sock")).err(),
        Some(ConfigError::RelativeSocket)
    );
}

#[test]
fn socket_directories_are_created_restricted_or_kept() {
    let config = DaemonConfig::resolve(Some("/home/user"), None).expect("settings");
    assert_eq!(
        config.socket_directory_plan(Some("/home/user/.jeff"), false),
        Ok(DirectoryPlan::Create)
    );
    assert_eq!(
        config.socket_directory_plan(Some("/home/user/.jeff"), true),
        Ok(DirectoryPlan::Restrict)
    );
    assert_eq!(config.socket_directory_plan(Some("/run"), true), Ok(DirectoryPlan::Keep));
    assert_eq!(
        config.socket_directory_plan(None, true),
        Err(ConfigError::MissingSocketParent)
    );

    let directory = facts(FileKind::Directory, 1000, 0o700);
    assert!(validate_private_directory("/run", &directory, 1000).is_ok());
    assert!(validate_owned_directory("/run", &facts(FileKind::Directory, 1000, 0o755), 1000).is_ok());
    for bad in [
        facts(FileKind::Directory, 1000, 0o750),
        facts(FileKind::Directory, 1001, 0o700),
        facts(FileKind::Regular, 1000, 0o700),
    ] {
        assert_eq!(
            validate_private_directory("/run", &bad, 1000),
            Err(ConfigError::UnsafeDirectory("/run".to_owned()))
        );
    }
    assert!(validate_owned_directory("/run", &facts(FileKind::Directory, 1001, 0o700), 1000).is_err());
    assert!(validate_owned_directory("/run", &facts(FileKind::Socket, 1000, 0o700), 1000).is_err());
}

// Messages

#[test]
fn errors_say_what_went_wrong() {
    let text = || "x".to_owned();
    for (message, wanted) in [
        (ConfigError::MissingHome.message(), "HOME is not set"),
        (ConfigError::RelativeSocket.message(), "JEFFD_SOCK must be an absolute path"),
        (ConfigError::MissingSocketParent.message(), "socket path has no parent"),
        (ConfigError::UnsafeDirectory(text()).message(), "unsafe socket directory x"),
        (ConfigError::Io(text()).message(), "cannot prepare socket directory: x"),
        (LifecycleError::AlreadyRunning.message(), "daemon is already running"),
        (LifecycleError::UnsafeSocket(text()).message(), "unsafe existing socket path x"),
        (
            LifecycleError::AmbiguousSocket(text()).message(),
            "cannot prove existing socket is stale: x",
        ),
        (LifecycleError::LockNotHeld.message(), "daemon lock is not held"),
        (LifecycleError::InvalidPid.message(), "invalid daemon PID file"),
        (LifecycleError::InvalidHello.message(), "daemon did not answer the P1a hello"),
        (LifecycleError::NotRunning(text()).message(), "daemon is not running: x"),
        (LifecycleError::Io(text()).message(), "lifecycle operation failed: x"),
        (RegistryError::Read(text()).message(), "cannot read project registry: x"),
        (RegistryError::Parse(text()).message(), "invalid project registry: x"),
        (RegistryError::Validation(text()).message(), "invalid project registry: x"),
        (ServerError::Registry(text()).message(), "project registry failed: x"),
        (ServerError::Watch(text()).message(), "filesystem watcher failed: x"),
        (ServerError::Io(text()).message(), "socket server failed: x"),
        (
            DaemonError::Config(ConfigError::MissingHome).message(),
            "configuration error: HOME is not set",
        ),
        (
            DaemonError::Lifecycle(LifecycleError::LockNotHeld).message(),
            "lifecycle error: daemon lock is not held",
        ),
        (
            DaemonError::Server(ServerError::Io(text())).message(),
            "daemon error: socket server failed: x",
        ),
        (SnapshotFailure::Invalid(text()).message(), "invalid snapshot: x"),
        (
            SnapshotFailure::InvalidInvocation(text()).message(),
            "invalid snapshot invocation: x",
        ),
        (SnapshotFailure::Spawn(text()).message(), "failed to start snapshot command: x"),
        (SnapshotFailure::Timeout.message(), "snapshot command timed out"),
        (SnapshotFailure::Cancelled.message(), "snapshot command cancelled"),
        (SnapshotFailure::Exit { message: text(), code: Some(3) }.message(), "x"),
        (SnapshotFailure::Output(text()).message(), "failed to read snapshot output: x"),
    ] {
        assert_eq!(message, wanted);
    }
    assert_eq!(SnapshotFailure::Exit { message: text(), code: Some(3) }.exit_code(), Some(3));
    assert_eq!(SnapshotFailure::Timeout.exit_code(), None);
}

// The registry

fn record_of(row: &Value) -> ProjectRecord {
    let text = |name: &str| row[name].as_str().expect("a text").to_owned();
    ProjectRecord {
        id: text("id"),
        path: text("path"),
        name: text("name"),
        enabled: row["enabled"].as_bool().expect("a truth value"),
        cook: row["cook"].as_array().map(|words| {
            words.iter().map(|word| word.as_str().expect("a text").to_owned()).collect()
        }),
    }
}

/// Loads a registry from its text, as a reader of the file does.
fn load_registry(text: &str) -> Result<Vec<ProjectRecord>, RegistryError> {
    reject_oversized(text.len() as u64)?;
    registry_from_records(
        serde_json::from_str::<Vec<Value>>(text)
            .map(|rows| rows.iter().map(record_of).collect())
            .map_err(|error| error.to_string()),
    )
}

fn refusal(text: &str) -> String {
    match load_registry(text) {
        Ok(_) => panic!("accepted {text}"),
        Err(error) => error.message(),
    }
}

#[test]
fn each_defect_of_a_registry_is_named() {
    let prefix = "invalid project registry: ";
    assert_eq!(
        refusal(r#"[{"id":"","path":"/a","name":"A","enabled":true}]"#),
        format!("{prefix}project id must not be empty")
    );
    assert_eq!(
        refusal(r#"[{"id":"a","path":"a","name":"A","enabled":true}]"#),
        format!("{prefix}project a path must be absolute")
    );
    assert_eq!(
        refusal(r#"[{"id":"a","path":"/a","name":"A","enabled":true},{"id":"a","path":"/b","name":"B","enabled":true}]"#),
        format!("{prefix}duplicate project id a")
    );
    assert_eq!(
        refusal(r#"[{"id":"a","path":"/a","name":"A","enabled":true},{"id":"b","path":"/a/","name":"B","enabled":true}]"#),
        format!("{prefix}duplicate project path /a/")
    );
    assert_eq!(
        refusal(r#"[{"id":"a","path":"/a","name":"A","enabled":true,"cook":[]}]"#),
        format!("{prefix}project a cook command must not be empty")
    );
    assert_eq!(
        refusal(r#"[{"id":"a","path":"/a","name":"A","enabled":true,"cook":["cook"]}]"#),
        format!("{prefix}project a cook executable must be absolute")
    );
    assert_eq!(
        registry_from_records(Err("expected value".to_owned())),
        Err(RegistryError::Parse("expected value".to_owned()))
    );
    assert!(matches!(load_registry("[}"), Err(RegistryError::Parse(_))));
    assert!(matches!(load_registry("{}"), Err(RegistryError::Parse(_))));
    assert_eq!(load_registry(" [] ").expect("empty registry"), Vec::new());
}

// The command and its output

#[test]
fn commands_that_cannot_be_run_are_refused() {
    let mut relative = record("a", "work");
    let error = SnapshotInvocation::for_project(&relative).expect_err("relative path");
    assert_eq!(error.message(), "invalid snapshot invocation: project path must be absolute");
    relative.path = "/work".to_owned();
    relative.cook = Some(Vec::new());
    let error = SnapshotInvocation::for_project(&relative).expect_err("no command");
    assert_eq!(error.message(), "invalid snapshot invocation: cook command must not be empty");
    relative.cook = Some(vec!["cook".to_owned()]);
    let error = SnapshotInvocation::for_project(&relative).expect_err("relative command");
    assert_eq!(
        error.message(),
        "invalid snapshot invocation: explicit cook executable must be absolute"
    );
    relative.cook = Some(vec!["/bin/node".to_owned(), "/cook.js".to_owned()]);
    let invocation = SnapshotInvocation::for_project(&relative).expect("command");
    assert_eq!(invocation.program(), "/bin/node");
    assert_eq!(invocation.args(), &["/cook.js", "snapshot", "--json"]);
}

fn supervisor() -> SnapshotSupervisor {
    SnapshotSupervisor::new(Duration::from_secs(30), 1024)
}

#[test]
fn a_run_is_watched_until_everything_is_there() {
    let mut run = supervisor();
    assert!(run.interrupted(false, Duration::from_millis(29_999)).is_none());
    assert_eq!(run.interrupted(false, Duration::from_secs(30)), Some(SnapshotFailure::Timeout));
    assert_eq!(run.interrupted(true, Duration::zero()), Some(SnapshotFailure::Cancelled));

    run.status_polled(Poll::Pending).expect("still running");
    run.output_polled(OutputStream::Stdout, Poll::Pending).expect("still running");
    assert!(run.outcome().is_none());
    run.status_polled(Poll::Ready(ExitFacts { success: true, code: Some(0) })).expect("ended");
    run.output_polled(OutputStream::Stdout, Poll::Ready(DOCUMENT.as_bytes().to_vec())).expect("output");
    assert!(run.outcome().is_none());
    // What is known is not asked for again.
    run.output_polled(OutputStream::Stdout, Poll::Stopped).expect("known");
    run.output_polled(OutputStream::Stderr, Poll::Ready(b"note".to_vec())).expect("diagnostics");
    let taken = run.outcome().expect("over").expect("a snapshot");
    assert_eq!(taken, snapshot(DOCUMENT));
}

#[test]
fn runs_fail_in_their_own_ways() {
    let failed = || "pipe".to_owned();
    assert_eq!(
        supervisor().status_polled(Poll::Failed(failed())),
        Err(SnapshotFailure::Output(failed()))
    );
    assert_eq!(
        supervisor().output_polled(OutputStream::Stderr, Poll::Failed(failed())),
        Err(SnapshotFailure::Output(failed()))
    );
    assert_eq!(
        supervisor().output_polled(OutputStream::Stdout, Poll::Stopped),
        Err(SnapshotFailure::Output("stdout reader stopped before returning output".to_owned()))
    );
    assert_eq!(
        supervisor().output_polled(OutputStream::Stdout, Poll::TooLarge),
        Err(SnapshotFailure::OutputTooLarge("stdout exceeds 1024 bytes".to_owned()))
    );

    let mut run = supervisor();
    run.status_polled(Poll::Ready(ExitFacts { success: false, code: Some(3) })).expect("ended");
    run.output_polled(OutputStream::Stdout, Poll::Ready(Vec::new())).expect("output");
    run.output_polled(OutputStream::Stderr, Poll::Ready(b" bad \xff\n".to_vec())).expect("diagnostics");
    assert_eq!(
        run.outcome(),
        Some(Err(SnapshotFailure::Exit { message: "bad \u{fffd}".to_owned(), code: Some(3) }))
    );
}

#[test]
fn diagnostics_become_messages() {
    assert_eq!(exit_message("  broken \n", Some(1)), "broken");
    assert_eq!(exit_message(" \n", Some(7)), "cook exited 7");
    assert_eq!(exit_message("", Some(-9)), "cook exited -9");
    assert_eq!(exit_message("", None), "cook exited without a code");
    assert_eq!(
        exit_message("Usage: cook [verb]", Some(2)),
        "older jeff missing snapshot: Usage: cook [verb]"
    );
    assert_eq!(
        exit_message("cook: UNKNOWN command: snapshot", Some(64)),
        "older jeff missing snapshot: cook: UNKNOWN command: snapshot"
    );
}

#[test]
fn output_is_kept_up_to_its_limit() {
    let mut output = BoundedOutput::new(5);
    output.push(b"abc");
    assert_eq!(output.kept, b"abc");
    assert!(!output.overflowed);
    output.push(b"de");
    assert!(!output.overflowed);
    output.push(b"fgh");
    assert_eq!(output.kept, b"abcde");
    assert!(output.overflowed);
}

#[test]
fn output_must_be_text_and_one_document() {
    let message = |bytes: &[u8]| parse_snapshot_output(bytes).expect_err("refused").message();
    assert_eq!(
        message(b"\xff"),
        "invalid snapshot: invalid utf-8 sequence of 1 bytes from index 0"
    );
    assert!(message(b"").starts_with("invalid snapshot: "));
    assert!(message(b"[]").starts_with("invalid snapshot: "));
    assert!(message(format!("{DOCUMENT} x").as_bytes()).starts_with("invalid snapshot: "));
    assert_eq!(snapshot(DOCUMENT), snapshot(&format!(" {DOCUMENT}\n")));
}

#[test]
fn snapshots_read_back_from_their_own_documents() {
    let taken = snapshot(DOCUMENT);
    assert_eq!(taken.tasks[0].escalation.as_ref().expect("escalation").options, ["a", "b"]);
    assert_eq!(Snapshot::from_json(&taken.to_json()), Some(taken));
}

// Starting, probing and stopping

#[test]
fn the_lock_names_the_daemon_that_holds_it() {
    assert_eq!(lock_path("/run/jeffd.sock"), "/run/jeffd.sock.lock");
    assert_eq!(lock_text(4711), "4711\n");
    assert_eq!(parse_pid(&lock_text(4711)), Ok(4711));
    assert_eq!(parse_pid(" 42 \n"), Ok(42));
    for text in ["", "1\n", "0", "-5", "12 34", "x", "2147483648"] {
        assert_eq!(parse_pid(text), Err(LifecycleError::InvalidPid), "{text:?}");
    }
    assert_eq!(parse_pid("2147483647"), Ok(i32::MAX));
    assert!(lock_file_is_owned(&facts(FileKind::Regular, 1000, 0o600), 1000));
    assert!(!lock_file_is_owned(&facts(FileKind::Regular, 1001, 0o600), 1000));
    assert!(!lock_file_is_owned(&facts(FileKind::Other, 1000, 0o600), 1000));
}

#[test]
fn sockets_are_moved_aside_under_names_of_their_own() {
    assert_eq!(quarantine_name("jeffd.sock", 17, 3), "jeffd.sock.jeffd-remove-17-3");
    assert!(is_expected_socket(&facts(FileKind::Socket, 1000, 0o600), 1, 2));
    assert!(!is_expected_socket(&facts(FileKind::Socket, 1000, 0o600), 1, 3));
    assert!(!is_expected_socket(&facts(FileKind::Socket, 1000, 0o600), 9, 2));
    assert!(!is_expected_socket(&facts(FileKind::Regular, 1000, 0o600), 1, 2));
}

#[test]
fn probes_know_the_reply_that_is_meant_for_them() {
    let frame = hello_frame();
    assert_eq!(frame.last(), Some(&b'\n'));
    assert_eq!(
        frame,
        b"{\"id\":\"lifecycle\",\"kind\":\"req\",\"method\":\"server.hello\",\"params\":{},\"v\":1}\n"
    );
    for (reply, wanted) in [
        (r#"{"v":1,"kind":"event","name":"project.updated","payload":{}}"#, HelloReply::Unrelated),
        (r#"{"v":2,"kind":"event","name":"project.updated","payload":{}}"#, HelloReply::Rejected),
        (r#"{"v":1,"kind":"event","name":"project.updated"}"#, HelloReply::Rejected),
        (r#"{"v":1,"kind":"res","id":"other","ok":false}"#, HelloReply::Unrelated),
        (r#"{"v":1,"kind":"res","id":"lifecycle","ok":true,"result":{"protocolVersion":1}}"#, HelloReply::Accepted),
        (r#"{"v":1,"kind":"res","id":"lifecycle","ok":true,"result":{"protocolVersion":2}}"#, HelloReply::Rejected),
        (r#"{"v":1,"kind":"res","id":"lifecycle","ok":false}"#, HelloReply::Rejected),
        ("not json", HelloReply::Rejected),
        ("", HelloReply::Rejected),
    ] {
        assert_eq!(judge_reply_frame(reply.as_bytes()), wanted, "{reply}");
    }
}

#[test]
fn replies_are_collected_up_to_a_limit() {
    let mut collector = FrameCollector::new(2);
    assert_eq!(collector.push(Some(b'a')), Collected::More);
    assert_eq!(collector.push(Some(b'b')), Collected::More);
    assert_eq!(collector.push(Some(b'\n')), Collected::Done);
    assert_eq!(collector.frame, b"ab");

    let mut ended = FrameCollector::new(2);
    assert_eq!(ended.push(Some(b'a')), Collected::More);
    assert_eq!(ended.push(None), Collected::Done);
    assert_eq!(ended.frame, b"a");

    let mut large = FrameCollector::new(2);
    assert_eq!(large.push(Some(b'a')), Collected::More);
    assert_eq!(large.push(Some(b'b')), Collected::More);
    assert_eq!(large.push(Some(b'c')), Collected::TooLarge);
}

// Limits

#[test]
fn limits_have_defaults_and_overrides() {
    let limits = Limits::new(1000, None);
    assert_eq!(limits.connections, 64);
    assert_eq!(limits.frame_bytes, 1000);
    assert_eq!(limits.snapshot_bytes, 1000);
    assert_eq!(limits.in_flight, 32);
    assert_eq!(limits.cold_waiters, 512);
    assert_eq!(limits.egress_bytes, 32 * 1024 * 1024);
    assert_eq!(limits.cache_bytes, 256 * 1024 * 1024);

    let limits = Limits::new(
        1000,
        Some("connections=3,egress_bytes=77,nonsense,in_flight=x,cold_waiters=0,unknown=5,active_snapshots=+2"),
    );
    assert_eq!(limits.connections, 3);
    assert_eq!(limits.egress_bytes, 77);
    assert_eq!(limits.global_egress_bytes, 77);
    assert_eq!(limits.in_flight, 32);
    assert_eq!(limits.cold_waiters, 512);
    assert_eq!(limits.active_snapshots, 2);

    let limits = Limits::new(1000, Some("egress_bytes=77,global_egress_bytes=99"));
    assert_eq!(limits.egress_bytes, 77);
    assert_eq!(limits.global_egress_bytes, 99);
}

// Framing

struct Stream {
    reader: FrameReader,
    connection: Counter,
    global: Counter,
    pending: Counter,
}

impl Stream {
    fn new(overrides: &str) -> Stream {
        Stream {
            reader: FrameReader::new(Limits::new(64, Some(overrides))),
            connection: Counter::new(),
            global: Counter::new(),
            pending: Counter::new(),
        }
    }

    fn frames(&mut self, chunk: &[u8]) -> Vec<Vec<u8>> {
        let mut frames = Vec::new();
        let mut rest = chunk;
        while !rest.is_empty() {
            match self.reader.step(rest, &mut self.connection, &mut self.global, &mut self.pending) {
                ReadStep::NeedMore => break,
                ReadStep::Frame { frame, ingress, consumed } => {
                    rest = &rest[consumed..];
                    frames.push(frame);
                    self.pending.release(1);
                    ingress.release(&mut self.connection, &mut self.global);
                }
                other => panic!("expected frames, got {other:?}"),
            }
        }
        frames
    }
}

#[test]
fn how_a_stream_is_cut_does_not_matter() {
    let bytes = b"{\"a\":1}\n\n{\"b\":22}\nrest";
    let whole = Stream::new("").frames(bytes);
    assert_eq!(whole, [b"{\"a\":1}".to_vec(), Vec::new(), b"{\"b\":22}".to_vec()]);
    for size in 1..bytes.len() {
        let mut stream = Stream::new("");
        let mut frames = Vec::new();
        for chunk in bytes.chunks(size) {
            frames.extend(stream.frames(chunk));
        }
        assert_eq!(frames, whole, "chunks of {size}");
        assert_eq!(stream.connection.used, 4);
        assert_eq!(stream.global.used, 4);
        stream.reader.close(&mut stream.connection, &mut stream.global);
        assert_eq!(stream.connection.used, 0);
        assert_eq!(stream.global.used, 0);
    }
}

#[test]
fn ingress_is_bounded_per_connection_and_overall() {
    for overrides in ["connection_ingress_bytes=4", "global_ingress_bytes=4"] {
        let mut stream = Stream::new(overrides);
        let step = stream.reader.step(
            b"12345\n",
            &mut stream.connection,
            &mut stream.global,
            &mut stream.pending,
        );
        assert!(matches!(step, ReadStep::IngressFull), "{overrides}: {step:?}");
        assert_eq!(stream.frames(b"").len(), 0);
    }
}

#[test]
fn the_id_of_a_frame_that_is_too_large_is_found_in_its_beginning() {
    let find = |text: &str| find_oversized_request_id(text.as_bytes());
    assert_eq!(find(r#"{"kind":"req","id":"ab\n","padding":"#), Some("ab\n".to_owned()));
    assert_eq!(find(r#"{"id":"later","params":{"kind":"x","id":"y"},"kind":"req""#), Some("later".to_owned()));
    assert_eq!(find(r#"{"kind":"res","id":"a","padding":"#), None);
    assert_eq!(find(r#"{"kind":"req","id":7,"padding":"#), None);
    assert_eq!(find(r#"{"params":{"kind":"req","id":"inner"}"#), None);
    assert_eq!(find(r#"["kind","req","id","a"]"#), None);
    let long = "x".repeat(5000);
    assert_eq!(find(&format!(r#"{{"kind":"req","id":"{long}","#)), None);
}

#[test]
fn documents_are_spelled_within_a_limit_and_on_one_line() {
    let document = JsonObject::new()
        .with("b", Json::text("line\nbreak"))
        .with("a", Json::list(vec![Json::unsigned(1), Json::Bool(false), Json::Null]))
        .with("c", Json::Number(JsonNumber::Negative(-2)))
        .with("a", Json::unsigned(3))
        .done();
    let spelled = br#"{"a":3,"b":"line\nbreak","c":-2}"#;
    assert_eq!(serialize_bounded(&document, spelled.len()).as_deref(), Some(&spelled[..]));
    assert_eq!(serialize_bounded(&document, spelled.len() - 1), None);
}

// The ledger

#[test]
fn capacity_is_lent_up_to_its_limit_and_given_back() {
    let mut ledger = Ledger::new();
    let first = CapacityPermit::try_acquire(&mut ledger, CounterName::Waiters, 1).expect("room");
    assert!(CapacityPermit::try_acquire(&mut ledger, CounterName::Waiters, 1).is_none());
    first.release(&mut ledger);
    assert_eq!(ledger.used(CounterName::Waiters), 0);

    let own = CounterName::ConnectionSubscriptions(1);
    let pair = CapacityPermit::try_acquire_pair(&mut ledger, own, 2, CounterName::GlobalSubscriptions, 1)
        .expect("room");
    assert!(CapacityPermit::try_acquire_pair(
        &mut ledger,
        own,
        2,
        CounterName::GlobalSubscriptions,
        1
    )
    .is_none());
    // A pair that could not be had leaves nothing behind.
    assert_eq!(ledger.used(own), 1);
    pair.release(&mut ledger);
    assert_eq!(ledger.used(own), 0);
    assert_eq!(ledger.used(CounterName::GlobalSubscriptions), 0);
}

#[test]
fn frames_hold_their_bytes_until_they_are_written() {
    let limits = Limits::new(64, Some("egress_bytes=10,egress_frames=1"));
    let mut ledger = Ledger::new();
    let frame = reserve_outbound(vec![0; 6], &mut ledger, 1, limits).expect("room");
    assert!(reserve_outbound(vec![0; 5], &mut ledger, 1, limits).is_none());
    assert_eq!(ledger.used(CounterName::WriterBytes(1)), 6);
    assert_eq!(ledger.used(CounterName::GlobalWriterBytes), 6);
    let mut frame = frame.reserve_writer_slot(&mut ledger, 1).expect("a place");
    assert_eq!(ledger.used(CounterName::WriterFrames(1)), 1);
    let other = reserve_outbound(vec![0; 4], &mut ledger, 1, limits).expect("room");
    assert!(other.reserve_writer_slot(&mut ledger, 1).is_none());
    assert_eq!(ledger.used(CounterName::WriterBytes(1)), 6);
    frame.begin_write(&mut ledger);
    assert_eq!(ledger.used(CounterName::WriterFrames(1)), 0);
    assert_eq!(ledger.used(CounterName::WriterBytes(1)), 6);
    frame.release(&mut ledger);
    assert_eq!(ledger.used(CounterName::WriterBytes(1)), 0);
    assert_eq!(ledger.used(CounterName::GlobalWriterBytes), 0);
}

// Caches and changes

#[test]
fn failures_keep_the_last_good_snapshot_and_success_heals() {
    let mut cache = ProjectCache::new(record("a", "/work"));
    cache.fail("first".to_owned(), None);
    assert!(cache.projection().is_none());
    cache.replace(snapshot(DOCUMENT));
    assert!(cache.last_error().is_none());
    cache.fail("again".to_owned(), Some(4));
    let projection = cache.projection().expect("kept");
    assert_eq!(projection.snapshot, snapshot(DOCUMENT));
    assert_eq!(projection.degraded, ["snapshot_stale"]);
    let failure = cache.last_error().expect("failure");
    assert_eq!((failure.message.as_str(), failure.exit_code), ("again", Some(4)));
    assert_eq!(cache.last_successful_generation(), Some("2026-08-10T10:00:00Z"));
    cache.replace(snapshot(DOCUMENT));
    assert!(cache.projection().expect("healed").degraded.is_empty());
}

#[test]
fn changes_coalesce_and_projects_do_not_mix() {
    let at = Duration::from_millis;
    let mut tracker = DirtyTracker::new(at(150));
    tracker.mark_dirty("b", at(0));
    tracker.mark_dirty("a", at(10));
    tracker.mark_dirty("b", at(20));
    assert_eq!(tracker.due(at(159)), Vec::<String>::new());
    assert_eq!(tracker.due(at(160)), ["a"]);
    assert_eq!(tracker.due(at(170)), ["b"]);
    assert!(tracker.is_running("a"));
    assert!(!tracker.start_now("a"));
    tracker.mark_dirty("a", at(180));
    tracker.mark_dirty("a", at(190));
    tracker.finished("a", at(200));
    tracker.finished("b", at(200));
    assert!(!tracker.is_running("a"));
    assert_eq!(tracker.due(at(349)), Vec::<String>::new());
    assert_eq!(tracker.due(at(350)), ["a"]);
    tracker.remove("a");
    assert!(tracker.start_now("a"));
}

// Texts, numbers and paths

#[test]
fn numbers_are_written_and_read_back() {
    for number in [0, 7, 10, 4711, u64::MAX] {
        assert_eq!(decimal(number), number.to_string());
        assert_eq!(parse_unsigned(&decimal(number), u64::MAX), Some(number));
    }
    for number in [0, -1, 12, i32::MAX, i32::MIN] {
        assert_eq!(signed_decimal(number), number.to_string());
        assert_eq!(parse_i32(&signed_decimal(number)), Some(number));
    }
    assert_eq!(parse_unsigned("+12", 12), Some(12));
    assert_eq!(parse_unsigned("13", 12), None);
    for text in ["", "+", "-", "1x", " 1", "--1", "2147483648", "-2147483649"] {
        assert_eq!(parse_i32(text), None, "{text:?}");
    }
}

#[test]
fn texts_are_trimmed_split_searched_and_ordered() {
    assert_eq!(trimmed("\u{a0}\t a b \u{3000}\n"), "a b");
    assert_eq!(trimmed(" \n"), "");
    assert!(mentions_words("An UNKNOWN Command", "unknown command"));
    assert!(!mentions_words("unknown", "unknown command"));
    assert_eq!(split_at_each("a,,b", ','), ["a", "", "b"]);
    assert_eq!(split_at_each("", ','), [""]);
    assert_eq!(split_at_first("a=b=c", '='), Some(("a".to_owned(), "b=c".to_owned())));
    assert_eq!(split_at_first("abc", '='), None);
    assert_eq!(joined("ab", "cd"), "abcd");
    assert!(same_text("ä", "ä"));
    assert!(!same_text("a", "ab"));
    assert!(text_before("a", "ab"));
    assert!(text_before("b", "ä"));
    assert!(!text_before("a", "a"));
}

#[test]
fn paths_are_compared_by_their_parts() {
    assert!(absolute("/a"));
    assert!(!absolute("a"));
    assert!(!absolute(""));
    assert!(paths_equal("/a/b", "/a//b/./"));
    assert!(!paths_equal("/a/b", "/a/../b"));
    assert!(!paths_equal("/a", "a"));
    assert!(lies_within("/a/.jeff/x", "/a/.jeff"));
    assert!(lies_within("/a/.jeff", "/a/.jeff"));
    assert!(!lies_within("/a/.jeffrey", "/a/.jeff"));
    assert_eq!(join_path("/a", "b"), "/a/b");
    assert_eq!(join_path("/a/", "b"), "/a/b");
    assert_eq!(join_path("/", "b"), "/b");
}

#[test]
fn bursts_while_running_cause_one_rerun() {
    let at = Duration::from_millis;
    let mut tracker = DirtyTracker::new(at(150));
    assert!(tracker.start_now("a"));
    for time in [10, 20, 30, 5] {
        tracker.mark_dirty("a", at(time));
        assert!(tracker.is_running("a"));
        assert_eq!(tracker.due(at(10_000)), Vec::<String>::new());
    }
    tracker.finished("a", at(100));
    assert!(!tracker.is_running("a"));
    // An end without a run changes nothing.
    tracker.finished("a", at(200));
    assert_eq!(tracker.due(at(249)), Vec::<String>::new());
    assert_eq!(tracker.due(at(250)), ["a"]);
    assert!(tracker.is_running("a"));
    assert_eq!(tracker.due(at(10_000)), Vec::<String>::new());
    tracker.remove("a");
    assert!(!tracker.is_running("a"));
}

#[test]
fn output_is_cut_or_too_large_by_its_stream() {
    let full = |limit| {
        let mut output = BoundedOutput::new(limit);
        output.push(b"abcdef");
        output
    };
    assert!(matches!(full(5).polled(OutputStream::Stdout), Poll::TooLarge));
    assert!(full(5).is_too_large(OutputStream::Stdout));
    assert!(!full(5).is_too_large(OutputStream::Stderr));
    assert!(matches!(full(5).polled(OutputStream::Stderr), Poll::Ready(kept) if kept == b"abcde"));
    assert!(matches!(full(6).polled(OutputStream::Stdout), Poll::Ready(kept) if kept == b"abcdef"));
}

#[test]
fn only_sockets_that_are_proven_stale_are_removed() {
    let socket = facts(FileKind::Socket, 1000, 0o600);
    let refused = || StaleEvent::Tried(ConnectOutcome::Refused);
    let unsafe_path = || StaleAction::Refuse(LifecycleError::UnsafeSocket("/s".to_owned()));
    let text = || "x".to_owned();

    let mut check = StaleCheck::new("/s", 1000);
    assert_eq!(check.step(StaleEvent::Present(socket)), StaleAction::Connect);
    assert_eq!(check.step(refused()), StaleAction::LookAgain);
    assert_eq!(
        check.step(StaleEvent::Present(socket)),
        StaleAction::Remove { device: 1, inode: 2 }
    );

    let first = |event| StaleCheck::new("/s", 1000).step(event);
    assert_eq!(first(StaleEvent::Absent(text())), StaleAction::Proceed);
    assert_eq!(
        first(StaleEvent::Unknown(text())),
        StaleAction::Refuse(LifecycleError::Io(text()))
    );
    for other in [facts(FileKind::Regular, 1000, 0o600), facts(FileKind::Socket, 1001, 0o600)] {
        assert_eq!(first(StaleEvent::Present(other)), unsafe_path());
    }

    let second = |outcome| {
        let mut check = StaleCheck::new("/s", 1000);
        check.step(StaleEvent::Present(socket));
        check.step(StaleEvent::Tried(outcome))
    };
    assert_eq!(
        second(ConnectOutcome::Connected),
        StaleAction::Refuse(LifecycleError::AlreadyRunning)
    );
    assert_eq!(
        second(ConnectOutcome::Failed(text())),
        StaleAction::Refuse(LifecycleError::AmbiguousSocket(text()))
    );

    let third = |event| {
        let mut check = StaleCheck::new("/s", 1000);
        check.step(StaleEvent::Present(socket));
        check.step(refused());
        check.step(event)
    };
    let replaced = FileFacts { inode: 3, ..socket };
    assert_eq!(third(StaleEvent::Present(replaced)), unsafe_path());
    assert_eq!(
        third(StaleEvent::Absent(text())),
        StaleAction::Refuse(LifecycleError::Io(text()))
    );
}

#[test]
fn registries_are_refused_for_the_first_thing_that_is_wrong() {
    let sound = facts(FileKind::Directory, 1000, 0o700);
    let open = facts(FileKind::Directory, 1000, 0o777);
    let file = facts(FileKind::Regular, 1000, 0o600);
    let fifo = facts(FileKind::Other, 1000, 0o600);
    let other = FileFacts { inode: 9, ..file };
    let large = 1024 * 1024 + 1;
    let message = |result: Result<(), RegistryError>| result.expect_err("refused").message();

    let directory = message(check_registry(Some(open), None, None, None));
    assert!(directory.contains("directory"), "{directory}");
    assert_eq!(message(check_registry(Some(open), Some(fifo), Some(other), Some(large))), directory);
    let kind = message(check_registry(Some(sound), Some(fifo), None, None));
    assert!(kind.contains("must be a regular file"), "{kind}");
    assert_eq!(message(check_registry(None, Some(fifo), Some(other), Some(large))), kind);
    let opened = message(check_registry(Some(sound), Some(file), Some(other), Some(large)));
    assert!(opened.contains("same regular file"), "{opened}");
    let size = message(check_registry(Some(sound), Some(file), Some(file), Some(large)));
    assert!(size.contains("exceeds"), "{size}");
    assert_eq!(check_registry(Some(sound), Some(file), Some(file), Some(large - 1)), Ok(()));

    let parsed = || Err("text".to_owned());
    let judged = judge_registry(Some(sound), file, file, large, parsed()).expect_err("too large");
    assert_eq!(judged.message(), size);
    assert_eq!(
        judge_registry(Some(sound), file, file, 2, parsed()),
        Err(RegistryError::Parse("text".to_owned()))
    );
    let records = vec![record("a", "/a")];
    assert_eq!(judge_registry(None, file, file, 2, Ok(records)), Ok(vec![record("a", "/a")]));
}

#[test]
fn commands_are_ended_where_they_may_still_run() {
    let text = || "x".to_owned();
    for failure in [
        SnapshotFailure::Cancelled,
        SnapshotFailure::Timeout,
        SnapshotFailure::OutputTooLarge(text()),
        SnapshotFailure::Launch(text()),
    ] {
        assert!(failure.ends_command());
    }
    for failure in [
        SnapshotFailure::Invalid(text()),
        SnapshotFailure::Output(text()),
        SnapshotFailure::Spawn(text()),
        SnapshotFailure::Exit { message: text(), code: Some(1) },
    ] {
        assert!(!failure.ends_command());
    }
}

#[test]
fn escaped_quotes_do_not_end_a_string() {
    let find = |text: &str| find_oversized_request_id(text.as_bytes());
    assert_eq!(find(r#"{"kind":"req","id":"a\"b","p":"#), Some("a\"b".to_owned()));
    assert_eq!(find(r#"{"kind":"req","id":"a\\","p":"#), Some("a\\".to_owned()));
    assert_eq!(find(r#"{"kind":"req","id":"a\\\"b","p":"#), Some("a\\\"b".to_owned()));
}
