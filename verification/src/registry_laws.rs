//! Which registries are used, and why others are not; which sockets and locks
//! are trusted.

use crate::daemon::{daemon_error_text, server_error_text, DaemonErrorView, ServerErrorView};
use crate::config::{config_error_text, ConfigErrorView};
use crate::files::{FileFacts, FileKind};
use crate::json::{json_field, JsonView};
use crate::lifecycle::{connect_refusal, hello_frame_reply, hello_json, hello_reply, is_own_socket, lifecycle_error_text, pid_in,
    stale_step, ConnectOutcome, HelloReply, LifecycleErrorView, StaleActionView, StaleEventView, StaleState};
use crate::parse::is_white_space;
use crate::path::components;
use crate::project::RecordView;
use crate::registry::{directory_refusal, facts_refusal, file_refusal, first_refusal, opened_refusal, oversized_refusal,
    record_refusal, registry_error_text, registry_outcome, registry_verdict, repeats_id, repeats_path, RegistryErrorView};
use crate::run_laws::{is_blank, is_made_of};
use crate::text::signed_text;
use crate::text_laws::{signed_numbers_read_back, trimming_takes_only_what_is_around};
use vstd::prelude::*;

verus! {

// ---------------------------------------------------------------------------
// Files

/// What the mode of a file says: who else may do anything with it, whether all
/// may write to it, and whether all may replace what is in it.
pub proof fn modes_say_who_may_write(facts: FileFacts, other: FileFacts)
    ensures
        facts.private() <==> facts.mode & 0o077 == 0,
        facts.open_to_all() <==> facts.mode & 0o002 != 0,
        facts.replaceable() <==> facts.mode & 0o002 != 0 && facts.mode & 0o1000 == 0,
        facts.same_file(other) <==> facts.device == other.device && facts.inode == other.inode,
{
}

/// The file can serve as a registry: a regular file of up to 1 MiB that not
/// everyone may write to.
pub open spec fn can_be_a_registry(facts: FileFacts) -> bool {
    &&& facts.kind == FileKind::Regular
    &&& facts.mode & 0o002 == 0
    &&& facts.size <= 1024 * 1024
}

/// A registry is read exactly if its directory is not one whose entries anyone
/// may replace, the file can serve as one, is the same when it is opened, and
/// holds no more than 1 MiB; each reason is told in its own words, the first
/// one counts.
pub proof fn only_trusted_registries_are_read(directory: Option<FileFacts>, before: FileFacts, after: FileFacts, count: u64)
    ensures
        facts_refusal(directory, Some(before), Some(after), Some(count)) is None <==> {
            &&& directory matches Some(facts) ==> facts.mode & 0o002 == 0 || facts.mode & 0o1000 != 0
            &&& can_be_a_registry(before)
            &&& can_be_a_registry(after)
            &&& before.device == after.device && before.inode == after.inode
            &&& count <= 1024 * 1024
        },
        before.kind != FileKind::Regular ==> file_refusal(before) == Some(
            RegistryErrorView::Validation("project registry must be a regular file"@),
        ),
        before.kind == FileKind::Regular && before.mode & 0o002 != 0 ==> file_refusal(before) == Some(
            RegistryErrorView::Validation("project registry must not be writable by everyone"@),
        ),
        count > 1024 * 1024 ==> oversized_refusal(count as int) == Some(
            RegistryErrorView::Validation("project registry exceeds 1048576 bytes"@),
        ),
        count <= 1024 * 1024 ==> oversized_refusal(count as int) is None,
        before.mode & 0o002 != 0 && before.mode & 0o1000 == 0 ==> directory_refusal(before) == Some(
            RegistryErrorView::Validation("project registry directory must not be writable by everyone"@),
        ),
        before.device != after.device || before.inode != after.inode ==> opened_refusal(before, after) == Some(
            RegistryErrorView::Validation("project registry must be the same regular file opened without symlinks"@),
        ),
{
}

/// Every complaint about the registry says what it is about, in full.
pub proof fn complaints_about_the_registry_are_told_in_full(detail: Seq<char>)
    ensures
        is_made_of(registry_error_text(RegistryErrorView::Read(detail)), "cannot read project registry: "@, detail),
        is_made_of(registry_error_text(RegistryErrorView::Parse(detail)), "invalid project registry: "@, detail),
        is_made_of(registry_error_text(RegistryErrorView::Validation(detail)), "invalid project registry: "@, detail),
{
}

// ---------------------------------------------------------------------------
// Records

/// The path starts at the root.
pub open spec fn starts_at_root(path: Seq<char>) -> bool {
    path.len() > 0 && path[0] == '/'
}

/// The record can be served beside those before it: it has an id and an
/// absolute path that none of them has, and its command, if it has one, is
/// absolute.
pub open spec fn is_usable(records: Seq<RecordView>, at: int) -> bool {
    let record = records[at];
    &&& record.id.len() > 0
    &&& starts_at_root(record.path)
    &&& forall|i: int| 0 <= i < at ==> (#[trigger] records[i]).id != record.id && components(records[i].path) != components(record.path)
    &&& record.cook matches Some(command) ==> command.len() > 0 && starts_at_root(command[0])
}

/// What is wrong with the record is told by what it is: the first of its
/// faults, with its id or its path.
pub open spec fn is_complaint_about(message: Seq<char>, records: Seq<RecordView>, at: int) -> bool {
    let record = records[at];
    if record.id.len() == 0 {
        message == "project id must not be empty"@
    } else if !starts_at_root(record.path) {
        message == "project "@ + record.id + " path must be absolute"@
    } else if exists|i: int| 0 <= i < at && (#[trigger] records[i]).id == record.id {
        message == "duplicate project id "@ + record.id
    } else if exists|i: int| 0 <= i < at && components((#[trigger] records[i]).path) == components(record.path) {
        message == "duplicate project path "@ + record.path
    } else if record.cook == Some(Seq::<Seq<char>>::empty()) {
        message == "project "@ + record.id + " cook command must not be empty"@
    } else {
        message == "project "@ + record.id + " cook executable must be absolute"@
    }
}

proof fn records_are_judged(records: Seq<RecordView>, at: int)
    requires
        0 <= at < records.len(),
    ensures
        record_refusal(records, at) is None <==> is_usable(records, at),
        record_refusal(records, at) matches Some(message) ==> is_complaint_about(message, records, at),
{
    let record = records[at];
    assert(repeats_id(records, at) <==> exists|i: int| 0 <= i < at && (#[trigger] records[i]).id == record.id);
    assert(repeats_path(records, at) <==> exists|i: int| 0 <= i < at && components((#[trigger] records[i]).path) == components(record.path));
    if record_refusal(records, at) is None {
        assert forall|i: int| 0 <= i < at implies (#[trigger] records[i]).id != record.id && components(records[i].path)
            != components(record.path) by {}
    }
    if is_usable(records, at) {
        if repeats_id(records, at) {
            let i = choose|i: int| 0 <= i < at && (#[trigger] records[i]).id == record.id;
            assert(records[i].id != record.id);
        }
        if repeats_path(records, at) {
            let i = choose|i: int| 0 <= i < at && components((#[trigger] records[i]).path) == components(record.path);
            assert(components(records[i].path) != components(record.path));
        }
    }
    if let Some(command) = record.cook {
        if command.len() == 0 {
            assert(command =~= Seq::<Seq<char>>::empty());
        }
    }
}

proof fn the_first_fault_counts(records: Seq<RecordView>, from: int)
    requires
        0 <= from <= records.len(),
    ensures
        match first_refusal(records, from) {
            None => forall|i: int| from <= i < records.len() ==> #[trigger] is_usable(records, i),
            Some(message) => exists|at: int|
                from <= at < records.len() && !#[trigger] is_usable(records, at) && is_complaint_about(message, records, at) && forall|i: int|
                    from <= i < at ==> #[trigger] is_usable(records, i),
        },
    decreases records.len() - from,
{
    if from < records.len() {
        records_are_judged(records, from);
        the_first_fault_counts(records, from + 1);
        match first_refusal(records, from) {
            None => {
                assert forall|i: int| from <= i < records.len() implies #[trigger] is_usable(records, i) by {
                    if i > from {
                    }
                }
            },
            Some(message) => {
                if record_refusal(records, from) is Some {
                    assert(!is_usable(records, from));
                } else {
                    let at = choose|at: int|
                        from + 1 <= at < records.len() && !#[trigger] is_usable(records, at) && is_complaint_about(message, records, at)
                            && forall|i: int| from + 1 <= i < at ==> #[trigger] is_usable(records, i);
                    assert forall|i: int| from <= i < at implies #[trigger] is_usable(records, i) by {
                        if i > from {
                        }
                    }
                }
            },
        }
    }
}

/// A registry whose records are all usable is taken over as it is, in its
/// order; any other is refused for the first fault of its first unusable
/// record, and one that does not parse with what the parser says.
pub proof fn registries_are_taken_as_a_whole(records: Seq<RecordView>, problem: Seq<char>)
    ensures
        (forall|i: int| 0 <= i < records.len() ==> #[trigger] is_usable(records, i)) ==> registry_outcome(Ok(records)) == Ok::<
            Seq<RecordView>,
            RegistryErrorView,
        >(records),
        !(forall|i: int| 0 <= i < records.len() ==> #[trigger] is_usable(records, i)) ==> exists|at: int|
            0 <= at < records.len() && !#[trigger] is_usable(records, at) && (registry_outcome(Ok(records)) matches Err(
                RegistryErrorView::Validation(message),
            ) && is_complaint_about(message, records, at)) && forall|i: int| 0 <= i < at ==> #[trigger] is_usable(records, i),
        registry_outcome(Err(problem)) == Err::<Seq<RecordView>, RegistryErrorView>(RegistryErrorView::Parse(problem)),
{
    the_first_fault_counts(records, 0);
}

/// What is wrong with the file comes before what is wrong with its records.
pub proof fn files_are_judged_before_records(directory: Option<FileFacts>, before: FileFacts, after: FileFacts, count: u64, parsed: Result<Seq<RecordView>, Seq<char>>)
    ensures
        facts_refusal(directory, Some(before), Some(after), Some(count)) matches Some(error) ==> registry_verdict(
            directory,
            before,
            after,
            count,
            parsed,
        ) == Err::<Seq<RecordView>, RegistryErrorView>(error),
        facts_refusal(directory, Some(before), Some(after), Some(count)) is None ==> registry_verdict(
            directory,
            before,
            after,
            count,
            parsed,
        ) == registry_outcome(parsed),
{
}

// ---------------------------------------------------------------------------
// Locks, sockets and probes

/// A lock file names a process by its number, alone but for white space; no
/// number up to 1 is a process, and what is no number is none either.
pub proof fn locks_name_processes(before: Seq<char>, number: int, behind: Seq<char>)
    requires
        is_blank(before),
        is_blank(behind),
        -2147483648 <= number <= 2147483647,
    ensures
        number > 1 ==> pid_in(before + signed_text(number) + behind) == Some(number),
        number <= 1 ==> pid_in(before + signed_text(number) + behind) is None,
{
    signed_numbers_read_back(number);
    let text = signed_text(number);
    if number >= 0 {
        crate::parse::decimals_read_back(number as nat);
    } else {
        crate::parse::decimals_read_back((-number) as nat);
    }
    assert(text.len() > 0);
    assert(crate::parse::is_digit(text.last()));
    assert(crate::parse::is_digit(text[0]) || text[0] == '-');
    assert(!is_white_space(text[0]) && !is_white_space(text.last()));
    trimming_takes_only_what_is_around(before, text, behind);
}

/// A probe asks for the greeting, in this version, under its own id.
pub proof fn probes_say_hello()
    ensures
        json_field(hello_json(), "v"@) == Some(JsonView::Unsigned(1)),
        json_field(hello_json(), "kind"@) == Some(JsonView::Text("req"@)),
        json_field(hello_json(), "id"@) == Some(JsonView::Text("lifecycle"@)),
        json_field(hello_json(), "method"@) == Some(JsonView::Text("server.hello"@)),
        json_field(hello_json(), "params"@) == Some(JsonView::Object(Map::empty())),
{
    reveal_strlit("v");
    reveal_strlit("kind");
    reveal_strlit("id");
    reveal_strlit("method");
    reveal_strlit("params");
    assert("v"@.len() == 1 && "kind"@.len() == 4 && "id"@.len() == 2 && "method"@.len() == 6 && "params"@.len() == 6);
    assert("method"@[0] != "params"@[0]);
}

/// A probe accepts exactly a successful answer to its own request that names
/// this version of the protocol. Events of this version and answers to others
/// are passed over, and all else is turned down.
pub proof fn probes_accept_their_own_answer(document: JsonView)
    ensures
        ({
            let kind = json_field(document, "kind"@);
            let own = json_field(document, "id"@) == Some(JsonView::Text("lifecycle"@));
            let event = kind == Some(JsonView::Text("event"@)) && json_field(document, "v"@) == Some(JsonView::Unsigned(1))
                && (json_field(document, "name"@) matches Some(JsonView::Text(_))) && json_field(document, "payload"@) is Some;
            let response = kind == Some(JsonView::Text("res"@));
            let good = response && own && json_field(document, "ok"@) == Some(JsonView::Bool(true)) && json_field(document, "result"@) is Some
                && json_field(json_field(document, "result"@)->0, "protocolVersion"@) == Some(JsonView::Unsigned(1));
            &&& hello_reply(document) == HelloReply::Accepted <==> good
            &&& hello_reply(document) == HelloReply::Unrelated <==> event || (response && !own)
        }),
        hello_frame_reply(Ok(document)) == hello_reply(document),
        hello_frame_reply(Err(Seq::empty())) == HelloReply::Rejected,
{
    reveal_strlit("event");
    reveal_strlit("res");
    assert("event"@.len() == 5 && "res"@.len() == 3);
}

/// What stands at the socket's path is judged in three looks: a socket of the
/// user's own is tried, one that refuses is looked at again, and the same one,
/// still the user's own, is removed. Where nothing stands there the daemon goes
/// on; whatever else is found stops it, with what was found.
pub proof fn sockets_are_judged_in_three_looks(path: Seq<char>, user: u32, facts: FileFacts, again: FileFacts, message: Seq<char>)
    ensures
        is_own_socket(facts, user) <==> facts.kind == FileKind::Socket && facts.owner == user,
        stale_step(path, user, StaleState::Unseen, StaleEventView::Absent(message)) == (StaleState::Over, StaleActionView::Proceed),
        facts.kind == FileKind::Socket && facts.owner == user ==> stale_step(
            path,
            user,
            StaleState::Unseen,
            StaleEventView::Present(facts),
        ) == (StaleState::Seen(facts), StaleActionView::Connect),
        facts.kind != FileKind::Socket || facts.owner != user ==> stale_step(
            path,
            user,
            StaleState::Unseen,
            StaleEventView::Present(facts),
        ) == (StaleState::Over, StaleActionView::Refuse(LifecycleErrorView::UnsafeSocket(path))),
        stale_step(path, user, StaleState::Seen(facts), StaleEventView::Refused) == (
            StaleState::Refused(facts),
            StaleActionView::LookAgain,
        ),
        stale_step(path, user, StaleState::Seen(facts), StaleEventView::Connected) == (
            StaleState::Over,
            StaleActionView::Refuse(LifecycleErrorView::AlreadyRunning),
        ),
        stale_step(path, user, StaleState::Seen(facts), StaleEventView::Failed(message)) == (
            StaleState::Over,
            StaleActionView::Refuse(LifecycleErrorView::AmbiguousSocket(message)),
        ),
        again.kind == FileKind::Socket && again.owner == user && again.device == facts.device && again.inode == facts.inode ==> stale_step(
            path,
            user,
            StaleState::Refused(facts),
            StaleEventView::Present(again),
        ) == (StaleState::Over, StaleActionView::Remove { device: again.device, inode: again.inode }),
        !(again.kind == FileKind::Socket && again.owner == user && again.device == facts.device && again.inode == facts.inode)
            ==> stale_step(path, user, StaleState::Refused(facts), StaleEventView::Present(again)) == (
            StaleState::Over,
            StaleActionView::Refuse(LifecycleErrorView::UnsafeSocket(path)),
        ),
        stale_step(path, user, StaleState::Refused(facts), StaleEventView::Absent(message)) == (
            StaleState::Over,
            StaleActionView::Refuse(LifecycleErrorView::Io(message)),
        ),
        stale_step(path, user, StaleState::Unseen, StaleEventView::Unknown(message)) == (
            StaleState::Over,
            StaleActionView::Refuse(LifecycleErrorView::Io(message)),
        ),
        stale_step(path, user, StaleState::Refused(facts), StaleEventView::Unknown(message)) == (
            StaleState::Over,
            StaleActionView::Refuse(LifecycleErrorView::Io(message)),
        ),
{
}

/// Only a refused connection shows that nobody listens.
pub proof fn only_refusals_show_that_nobody_listens(message: String)
    ensures
        connect_refusal(ConnectOutcome::Refused) is None,
        connect_refusal(ConnectOutcome::Connected) == Some(LifecycleErrorView::AlreadyRunning),
        connect_refusal(ConnectOutcome::Failed(message)) == Some(LifecycleErrorView::AmbiguousSocket(message@)),
{
}

/// Every complaint of the daemon says what it is about, in full.
pub proof fn complaints_of_the_daemon_are_told_in_full(detail: Seq<char>, config: ConfigErrorView, lifecycle: LifecycleErrorView, server: ServerErrorView)
    ensures
        lifecycle_error_text(LifecycleErrorView::AlreadyRunning) == "daemon is already running"@,
        lifecycle_error_text(LifecycleErrorView::LockNotHeld) == "daemon lock is not held"@,
        lifecycle_error_text(LifecycleErrorView::InvalidPid) == "invalid daemon PID file"@,
        lifecycle_error_text(LifecycleErrorView::InvalidHello) == "daemon did not answer the P1a hello"@,
        is_made_of(lifecycle_error_text(LifecycleErrorView::UnsafeSocket(detail)), "unsafe existing socket path "@, detail),
        is_made_of(lifecycle_error_text(LifecycleErrorView::AmbiguousSocket(detail)), "cannot prove existing socket is stale: "@, detail),
        is_made_of(lifecycle_error_text(LifecycleErrorView::NotRunning(detail)), "daemon is not running: "@, detail),
        is_made_of(lifecycle_error_text(LifecycleErrorView::Io(detail)), "lifecycle operation failed: "@, detail),
        is_made_of(server_error_text(ServerErrorView::Registry(detail)), "project registry failed: "@, detail),
        is_made_of(server_error_text(ServerErrorView::Watch(detail)), "filesystem watcher failed: "@, detail),
        is_made_of(server_error_text(ServerErrorView::Io(detail)), "socket server failed: "@, detail),
        is_made_of(daemon_error_text(DaemonErrorView::Config(config)), "configuration error: "@, config_error_text(config)),
        is_made_of(daemon_error_text(DaemonErrorView::Lifecycle(lifecycle)), "lifecycle error: "@, lifecycle_error_text(lifecycle)),
        is_made_of(daemon_error_text(DaemonErrorView::Server(server)), "daemon error: "@, server_error_text(server)),
{
}

} // verus!
