use jeff_control::config::DaemonConfig;
use jeff_control::project::{ProjectRecord, Snapshot};
use jeff_control::registry::{registry_from_records, reject_oversized, RegistryError};
use jeff_control::snapshot::{
    parse_snapshot_output, SnapshotFailure, SnapshotInvocation, SnapshotSupervisor,
};
use jeff_control::state::{DirtyTracker, ProjectCache};
use jeff_control::time::Duration;
use serde_json::Value;

const ROOT: &str = "/isolated/root";

fn record(root: &str, cook: Option<Vec<String>>) -> ProjectRecord {
    ProjectRecord {
        id: "demo".to_owned(),
        path: root.to_owned(),
        name: "Demo".to_owned(),
        enabled: true,
        cook,
    }
}

fn snapshot(generated_at: &str, title: &str) -> Snapshot {
    parse_snapshot_output(
        format!(
            r#"{{
                "schemaVersion": 1,
                "generatedAt": "{generated_at}",
                "mode": "lite",
                "tasks": [{{
                    "id": 1,
                    "slug": "one",
                    "title": "{title}",
                    "status": "in_progress",
                    "stage": "implement",
                    "priority": "p1",
                    "deps": [],
                    "blockedReason": null
                }}]
            }}"#
        )
        .as_bytes(),
    )
    .expect("parse valid snapshot")
}

fn record_of(row: &Value) -> ProjectRecord {
    let text = |name: &str| row[name].as_str().expect("a text").to_owned();
    ProjectRecord {
        id: text("id"),
        path: text("path"),
        name: text("name"),
        enabled: row["enabled"].as_bool().expect("a truth value"),
        cook: row["cook"].as_array().map(|words| {
            words.iter().map(|word| word.as_str().expect("a text").to_owned()).collect()
        }),
    }
}

/// Loads a registry from its text, as a reader of the file does.
fn load_registry(text: &str) -> Result<Vec<ProjectRecord>, RegistryError> {
    reject_oversized(text.len() as u64)?;
    registry_from_records(
        serde_json::from_str::<Vec<Value>>(text)
            .map(|rows| rows.iter().map(record_of).collect())
            .map_err(|error| error.to_string()),
    )
}

#[test]
fn registry_loads_the_shared_record_array_and_preserves_disabled_projects() {
    let project = format!("{ROOT}/project");
    let cook = format!("{ROOT}/cook");
    let registry = format!(
        r#"[
            {{
                "id": "demo",
                "path": "{project}",
                "name": "Demo",
                "enabled": false,
                "cook": ["{cook}", "--installed"]
            }}
        ]"#
    );

    let projects = load_registry(&registry).expect("load valid registry");

    assert_eq!(projects.len(), 1);
    assert_eq!(projects[0].id, "demo");
    assert_eq!(projects[0].name, "Demo");
    assert!(!projects[0].enabled);
    assert_eq!(projects[0].path, project);
    assert_eq!(projects[0].cook, Some(vec![cook, "--installed".to_owned()]));
}

#[test]
fn registry_rejects_relative_project_paths_and_cook_executables() {
    for invalid in [
        r#"[{
            "id": "demo",
            "path": "relative/project",
            "name": "Demo",
            "enabled": true,
            "cook": null
        }]"#,
        r#"[{
            "id": "demo",
            "path": "/isolated/root/project",
            "name": "Demo",
            "enabled": true,
            "cook": ["cook-wrapper"]
        }]"#,
        r#"[{
            "id": "demo",
            "path": "/isolated/root/project",
            "name": "Demo",
            "enabled": true,
            "cook": []
        }]"#,
    ] {
        assert!(
            load_registry(invalid).is_err(),
            "invalid registry was accepted: {invalid}"
        );
    }
}

#[test]
fn invocation_uses_registered_cwd_and_appends_the_snapshot_contract() {
    let executable = format!("{ROOT}/cook-wrapper");
    let project = record(ROOT, Some(vec![executable.clone(), "--installed".to_owned()]));

    let explicit = SnapshotInvocation::for_project(&project).expect("build explicit invocation");
    assert_eq!(explicit.program(), executable);
    assert_eq!(explicit.args(), &["--installed", "snapshot", "--json"]);
    assert_eq!(explicit.cwd(), ROOT);

    let fallback =
        SnapshotInvocation::for_project(&record(ROOT, None)).expect("build PATH invocation");
    assert_eq!(fallback.program(), "cook");
    assert_eq!(fallback.args(), &["snapshot", "--json"]);
    assert_eq!(fallback.cwd(), ROOT);
}

#[test]
fn snapshot_output_requires_exactly_one_supported_json_document() {
    let valid =
        r#"{"generatedAt":"2026-08-10T10:00:00Z","mode":"lite","schemaVersion":1,"tasks":[]}"#;

    assert!(parse_snapshot_output(valid.as_bytes()).is_ok());
    assert!(parse_snapshot_output(format!("{valid}\n{valid}").as_bytes()).is_err());
    assert!(parse_snapshot_output(b"[]").is_err());
    assert!(parse_snapshot_output(b"\xff").is_err());

    let old = valid.replace("\"schemaVersion\":1", "\"schemaVersion\":0");
    let new = valid.replace("\"schemaVersion\":1", "\"schemaVersion\":2");
    assert!(parse_snapshot_output(old.as_bytes())
        .expect_err("old schema must fail")
        .message()
        .contains("older than supported minimum"));
    assert!(parse_snapshot_output(new.as_bytes())
        .expect_err("new schema must fail")
        .message()
        .contains("newer than supported maximum"));
}

#[test]
fn daemon_defaults_expose_the_contract_timeout_and_debounce() {
    let config = DaemonConfig::default(Some("/home/user"));

    assert_eq!(config.snapshot_timeout(), Duration::from_secs(30));
    assert_eq!(config.debounce_window(), Duration::from_millis(150));
    assert_eq!(config.frame_limit(), 16 * 1024 * 1024);
}

#[test]
fn zero_deadline_times_out_and_reaps_the_snapshot_child() {
    let supervisor = SnapshotSupervisor::new(Duration::zero(), 1024);

    let error = supervisor
        .interrupted(false, Duration::zero())
        .expect("snapshot must time out");

    assert!(matches!(error, SnapshotFailure::Timeout));
}

#[test]
fn cache_failure_retains_last_good_generation_and_exposes_degraded_health() {
    let project = record(ROOT, None);
    let first = snapshot("2026-08-10T10:00:00Z", "first");
    let second = snapshot("2026-08-10T10:01:00Z", "second");
    let mut cache = ProjectCache::new(project);

    cache.replace(first);
    cache.replace(second);
    cache.fail("cook exited 7".to_owned(), Some(7));

    let projection = cache.projection().expect("last good projection retained");
    assert_eq!(projection.snapshot.generated_at, "2026-08-10T10:01:00Z");
    assert_eq!(projection.snapshot.tasks[0].title, "second");
    assert_eq!(projection.degraded, ["snapshot_stale"]);
    assert_eq!(cache.last_successful_generation(), Some("2026-08-10T10:01:00Z"));
    let failure = cache.last_error().expect("last failure retained");
    assert_eq!(failure.message, "cook exited 7");
    assert_eq!(failure.exit_code, Some(7));
}

#[test]
fn dirty_tracker_coalesces_per_project_and_allows_one_dirty_again_rerun() {
    let mut tracker = DirtyTracker::new(Duration::from_millis(150));

    tracker.mark_dirty("a", Duration::zero());
    tracker.mark_dirty("a", Duration::from_millis(40));
    tracker.mark_dirty("b", Duration::from_millis(50));
    assert!(tracker.due(Duration::from_millis(189)).is_empty());
    assert_eq!(tracker.due(Duration::from_millis(190)), ["a"]);
    assert_eq!(tracker.due(Duration::from_millis(199)), Vec::<String>::new());
    assert_eq!(tracker.due(Duration::from_millis(200)), ["b"]);

    tracker.mark_dirty("a", Duration::from_millis(201));
    tracker.mark_dirty("a", Duration::from_millis(202));
    tracker.mark_dirty("a", Duration::from_millis(203));
    tracker.finished("a", Duration::from_millis(210));
    assert!(tracker.due(Duration::from_millis(359)).is_empty());
    assert_eq!(tracker.due(Duration::from_millis(360)), ["a"]);
    tracker.finished("a", Duration::from_millis(361));
    assert!(tracker.due(Duration::from_secs(10)).is_empty());

    tracker.finished("b", Duration::from_millis(362));
}
