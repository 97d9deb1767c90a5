//! Taking a snapshot: the command to run, what its end means, and how its
//! output is read.

use crate::json::json_parsed;
use crate::parse::{mentions, mentions_words, trim_text, trimmed};
use crate::path::{absolute, is_absolute};
use crate::project::{ProjectRecord, RecordView, Snapshot, SnapshotView};
use crate::project_json::{parse_snapshot, snapshot_error_text, snapshot_outcome};
use crate::text::{joined, signed_decimal, signed_text};
use crate::time::Duration;
use crate::views::{option_view, views, views_push};
use vstd::prelude::*;
use vstd::utf8::{encode_utf8, valid_utf8};

verus! {

/// How much of a command's diagnostics is kept: 64 KiB.
pub const STDERR_LIMIT: usize = 65536;

// ---------------------------------------------------------------------------
// Failures

/// Why there is no new snapshot.
#[derive(Debug, PartialEq, Eq)]
pub enum SnapshotFailure {
    Invalid(String),
    InvalidInvocation(String),
    Spawn(String),
    Timeout,
    Cancelled,
    Exit { message: String, code: Option<i32> },
    Output(String),
    Launch(String),
    OutputTooLarge(String),
    CacheFull(String),
}

pub enum FailureView {
    Invalid(Seq<char>),
    InvalidInvocation(Seq<char>),
    Spawn(Seq<char>),
    Timeout,
    Cancelled,
    Exit { message: Seq<char>, code: Option<i32> },
    Output(Seq<char>),
    Launch(Seq<char>),
    OutputTooLarge(Seq<char>),
    CacheFull(Seq<char>),
}

impl View for SnapshotFailure {
    type V = FailureView;

    open spec fn view(&self) -> FailureView {
        match self {
            SnapshotFailure::Invalid(message) => FailureView::Invalid(message@),
            SnapshotFailure::InvalidInvocation(message) => FailureView::InvalidInvocation(message@),
            SnapshotFailure::Spawn(message) => FailureView::Spawn(message@),
            SnapshotFailure::Timeout => FailureView::Timeout,
            SnapshotFailure::Cancelled => FailureView::Cancelled,
            SnapshotFailure::Exit { message, code } => FailureView::Exit { message: message@, code: *code },
            SnapshotFailure::Output(message) => FailureView::Output(message@),
            SnapshotFailure::Launch(message) => FailureView::Launch(message@),
            SnapshotFailure::OutputTooLarge(message) => FailureView::OutputTooLarge(message@),
            SnapshotFailure::CacheFull(message) => FailureView::CacheFull(message@),
        }
    }
}

/// What an operator is told.
pub open spec fn failure_text(failure: FailureView) -> Seq<char> {
    match failure {
        FailureView::Invalid(message) => "invalid snapshot: "@ + message,
        FailureView::InvalidInvocation(message) => "invalid snapshot invocation: "@ + message,
        FailureView::Spawn(message) => "failed to start snapshot command: "@ + message,
        FailureView::Timeout => "snapshot command timed out"@,
        FailureView::Cancelled => "snapshot command cancelled"@,
        FailureView::Exit { message, code } => message,
        FailureView::Output(message) => "failed to read snapshot output: "@ + message,
        FailureView::Launch(message) => "failed to launch snapshot: "@ + message,
        FailureView::OutputTooLarge(message) => "snapshot output too large: "@ + message,
        FailureView::CacheFull(message) => "snapshot cache full: "@ + message,
    }
}

pub open spec fn failure_code(failure: FailureView) -> Option<i32> {
    match failure {
        FailureView::Exit { message, code } => code,
        _ => None,
    }
}

/// The command may still be running, or have left something running, after
/// this failure: it is to be ended.
pub open spec fn failure_ends_command(failure: FailureView) -> bool {
    failure is Cancelled || failure is Timeout || failure is OutputTooLarge || failure is Launch
}

impl SnapshotFailure {
    /// Whether the command is to be ended after this failure.
    pub fn ends_command(&self) -> (ends: bool)
        ensures
            ends == failure_ends_command(self@),
    {
        match self {
            SnapshotFailure::Cancelled => true,
            SnapshotFailure::Timeout => true,
            SnapshotFailure::OutputTooLarge(_) => true,
            SnapshotFailure::Launch(_) => true,
            _ => false,
        }
    }

    pub fn message(&self) -> (text: String)
        ensures
            text@ == failure_text(self@),
    {
        match self {
            SnapshotFailure::Invalid(message) => joined("invalid snapshot: ", message.as_str()),
            SnapshotFailure::InvalidInvocation(message) => joined("invalid snapshot invocation: ", message.as_str()),
            SnapshotFailure::Spawn(message) => joined("failed to start snapshot command: ", message.as_str()),
            SnapshotFailure::Timeout => "snapshot command timed out".to_owned(),
            SnapshotFailure::Cancelled => "snapshot command cancelled".to_owned(),
            SnapshotFailure::Exit { message, code } => message.clone(),
            SnapshotFailure::Output(message) => joined("failed to read snapshot output: ", message.as_str()),
            SnapshotFailure::Launch(message) => joined("failed to launch snapshot: ", message.as_str()),
            SnapshotFailure::OutputTooLarge(message) => joined("snapshot output too large: ", message.as_str()),
            SnapshotFailure::CacheFull(message) => joined("snapshot cache full: ", message.as_str()),
        }
    }

    pub fn exit_code(&self) -> (code: Option<i32>)
        ensures
            code == failure_code(self@),
    {
        match self {
            SnapshotFailure::Exit { message, code } => *code,
            _ => None,
        }
    }
}

/// A result by the views of both sides.
pub open spec fn run_view(result: Result<Snapshot, SnapshotFailure>) -> Result<SnapshotView, FailureView> {
    match result {
        Ok(snapshot) => Ok(snapshot@),
        Err(failure) => Err(failure@),
    }
}

// ---------------------------------------------------------------------------
// The command

/// The command that prints a project's snapshot.
#[derive(Debug)]
pub struct SnapshotInvocation {
    program: String,
    args: Vec<String>,
    cwd: String,
}

#[verifier::ext_equal]
pub struct InvocationView {
    pub program: Seq<char>,
    pub args: Seq<Seq<char>>,
    pub cwd: Seq<char>,
}

impl View for SnapshotInvocation {
    type V = InvocationView;

    closed spec fn view(&self) -> InvocationView {
        InvocationView { program: self.program@, args: views(self.args@), cwd: self.cwd@ }
    }
}

/// The command for a record: its own command or `cook`, with the arguments of
/// the snapshot contract at the end, run in the project's directory.
pub open spec fn invocation_for(record: RecordView) -> Result<InvocationView, FailureView> {
    if !is_absolute(record.path) {
        Err(FailureView::InvalidInvocation("project path must be absolute"@))
    } else {
        match record.cook {
            None => Ok(
                InvocationView { program: "cook"@, args: seq!["snapshot"@, "--json"@], cwd: record.path },
            ),
            Some(command) => if command.len() == 0 {
                Err(FailureView::InvalidInvocation("cook command must not be empty"@))
            } else if !is_absolute(command[0]) {
                Err(FailureView::InvalidInvocation("explicit cook executable must be absolute"@))
            } else {
                Ok(
                    InvocationView {
                        program: command[0],
                        args: command.skip(1) + seq!["snapshot"@, "--json"@],
                        cwd: record.path,
                    },
                )
            },
        }
    }
}

pub open spec fn invocation_view(result: Result<SnapshotInvocation, SnapshotFailure>) -> Result<InvocationView, FailureView> {
    match result {
        Ok(invocation) => Ok(invocation@),
        Err(failure) => Err(failure@),
    }
}

impl SnapshotInvocation {
    /// The command for a registered project.
    pub fn for_project(project: &ProjectRecord) -> (result: Result<SnapshotInvocation, SnapshotFailure>)
        ensures
            invocation_view(result) == invocation_for(project@),
    {
        if !absolute(project.path.as_str()) {
            return Err(SnapshotFailure::InvalidInvocation("project path must be absolute".to_owned()));
        }
        let mut args: Vec<String> = Vec::new();
        assert(views(args@) =~= Seq::<Seq<char>>::empty());
        let program = match &project.cook {
            None => "cook".to_owned(),
            Some(command) => {
                if command.len() == 0 {
                    return Err(SnapshotFailure::InvalidInvocation("cook command must not be empty".to_owned()));
                }
                assert(views(command@)[0] == command@[0]@);
                if !absolute(command[0].as_str()) {
                    return Err(
                        SnapshotFailure::InvalidInvocation(
                            "explicit cook executable must be absolute".to_owned(),
                        ),
                    );
                }
                let ghost rest = views(command@).skip(1);
                let mut i: usize = 1;
                assert(views(args@) =~= rest.take(0));
                while i < command.len()
                    invariant
                        1 <= i <= command@.len(),
                        rest == views(command@).skip(1),
                        views(args@) == rest.take(i - 1),
                    decreases command@.len() - i,
                {
                    proof {
                        views_push(args@, command@[i as int]);
                        assert(rest.take(i as int) =~= rest.take(i - 1).push(rest[i - 1]));
                    }
                    args.push(command[i].clone());
                    i += 1;
                }
                assert(rest.take(i - 1) =~= rest);
                command[0].clone()
            },
        };
        let ghost start = views(args@);
        let first = "snapshot".to_owned();
        let second = "--json".to_owned();
        proof {
            views_push(args@, first);
            views_push(args@.push(first), second);
        }
        args.push(first);
        args.push(second);
        proof {
            assert(views(args@) =~= start + seq!["snapshot"@, "--json"@]);
            assert(Seq::<Seq<char>>::empty() + seq!["snapshot"@, "--json"@] =~= seq!["snapshot"@, "--json"@]);
        }
        Ok(SnapshotInvocation { program, args, cwd: project.path.clone() })
    }

    pub fn program(&self) -> (program: &str)
        ensures
            program@ == self@.program,
    {
        self.program.as_str()
    }

    pub fn args(&self) -> (args: &Vec<String>)
        ensures
            views(args@) == self@.args,
    {
        &self.args
    }

    pub fn cwd(&self) -> (cwd: &str)
        ensures
            cwd@ == self@.cwd,
    {
        self.cwd.as_str()
    }
}

/// A registered project that passed validation can always be asked.
pub proof fn valid_records_can_be_invoked(record: RecordView)
    requires
        is_absolute(record.path),
        record.cook matches Some(command) ==> command.len() > 0 && is_absolute(command[0]),
    ensures
        invocation_for(record) matches Ok(invocation) && invocation.cwd == record.path && invocation.args.len() >= 2
            && invocation.args.skip(invocation.args.len() - 2) == seq!["snapshot"@, "--json"@],
{
    match record.cook {
        Some(command) => {
            let args = command.skip(1) + seq!["snapshot"@, "--json"@];
            assert(args.skip(args.len() - 2) =~= seq!["snapshot"@, "--json"@]);
        },
        None => {
            let args = seq!["snapshot"@, "--json"@];
            assert(args.skip(0) =~= args);
        },
    }
}

// ---------------------------------------------------------------------------
// The output

/// What the text decoder says about bytes that are not text.
pub uninterp spec fn utf8_error_text(bytes: Seq<u8>) -> Seq<char>;

/// The bytes as text, with a mark in place of everything that is not text.
pub uninterp spec fn lossy_text(bytes: Seq<u8>) -> Seq<char>;

/// `std::str::from_utf8`: the text if the bytes are valid UTF-8, and otherwise
/// the wording of the error, which depends on the bytes alone.
#[verifier::external_body]
fn decode_text(bytes: &[u8]) -> (result: Result<&str, String>)
    ensures
        result is Ok == valid_utf8(bytes@),
        result matches Ok(text) ==> encode_utf8(text@) == bytes@,
        result matches Err(message) ==> message@ == utf8_error_text(bytes@),
{
    std::str::from_utf8(bytes).map_err(|error| error.to_string())
}

/// `String::from_utf8_lossy`: text that depends on the bytes alone.
#[verifier::external_body]
fn decode_lossy(bytes: &[u8]) -> (text: String)
    ensures
        text@ == lossy_text(bytes@),
{
    String::from_utf8_lossy(bytes).into_owned()
}

/// The snapshot in what a command printed: exactly one supported document.
pub open spec fn output_outcome(output: Seq<u8>) -> Result<SnapshotView, FailureView> {
    if !valid_utf8(output) {
        Err(FailureView::Invalid(utf8_error_text(output)))
    } else {
        match snapshot_outcome(json_parsed(output)) {
            Ok(snapshot) => Ok(snapshot),
            Err(error) => Err(FailureView::Invalid(snapshot_error_text(error))),
        }
    }
}

/// Reads the snapshot in what a command printed.
pub fn parse_snapshot_output(output: &[u8]) -> (result: Result<Snapshot, SnapshotFailure>)
    ensures
        run_view(result) == output_outcome(output@),
{
    match decode_text(output) {
        Err(message) => Err(SnapshotFailure::Invalid(message)),
        Ok(text) => {
            match parse_snapshot(text) {
                Ok(snapshot) => Ok(snapshot),
                Err(error) => Err(SnapshotFailure::Invalid(error.message())),
            }
        },
    }
}

/// What a failed command is reported as, from its diagnostics: a `cook` that
/// does not know the command is an old one; without diagnostics the code
/// speaks.
pub open spec fn exit_text(diagnostics: Seq<char>, code: Option<i32>) -> Seq<char> {
    let diagnostic = trim_text(diagnostics);
    if mentions(diagnostic, "unknown command"@) || mentions(diagnostic, "usage:"@) {
        "older jeff missing snapshot: "@ + diagnostic
    } else if diagnostic.len() == 0 {
        match code {
            Some(number) => "cook exited "@ + signed_text(number as int),
            None => "cook exited without a code"@,
        }
    } else {
        diagnostic
    }
}

/// Words the failure of a command.
pub fn exit_message(diagnostics: &str, code: Option<i32>) -> (message: String)
    ensures
        message@ == exit_text(diagnostics@, code),
{
    let diagnostic = trimmed(diagnostics);
    if mentions_words(diagnostic.as_str(), "unknown command") || mentions_words(diagnostic.as_str(), "usage:") {
        joined("older jeff missing snapshot: ", diagnostic.as_str())
    } else if diagnostic.as_str().is_empty() {
        match code {
            Some(number) => joined("cook exited ", signed_decimal(number).as_str()),
            None => "cook exited without a code".to_owned(),
        }
    } else {
        diagnostic
    }
}

/// Output that is kept up to a limit.
#[derive(Debug)]
pub struct BoundedOutput {
    pub kept: Vec<u8>,
    pub limit: usize,
    pub overflowed: bool,
}

impl BoundedOutput {
    pub open spec fn wf(&self) -> bool {
        self.kept@.len() <= self.limit
    }

    /// `stream` is everything that was printed.
    pub open spec fn holds(&self, stream: Seq<u8>) -> bool {
        &&& self.kept@ == if stream.len() <= self.limit { stream } else { stream.take(self.limit as int) }
        &&& self.overflowed == (stream.len() > self.limit)
    }

    pub fn new(limit: usize) -> (output: BoundedOutput)
        ensures
            output.wf(),
            output.limit == limit,
            output.holds(Seq::empty()),
    {
        BoundedOutput { kept: Vec::new(), limit, overflowed: false }
    }

    /// Takes the next part of the output.
    pub fn push(&mut self, chunk: &[u8])
        requires
            old(self).wf(),
        ensures
            final(self).wf(),
            final(self).limit == old(self).limit,
            forall|stream: Seq<u8>| #[trigger] old(self).holds(stream) ==> final(self).holds(stream + chunk@),
    {
        let ghost before = *self;
        let room: usize = self.limit - self.kept.len();
        if chunk.len() > room {
            let part = vstd::slice::slice_subrange(chunk, 0, room);
            self.kept.extend_from_slice(part);
            self.overflowed = true;
            proof {
                assert forall|stream: Seq<u8>| #[trigger] before.holds(stream) implies self.holds(stream + chunk@) by {
                    if stream.len() <= self.limit {
                        assert(stream.len() + room == self.limit);
                        assert((stream + chunk@).take(self.limit as int) =~= stream + chunk@.subrange(0, room as int));
                        assert(self.kept@ =~= before.kept@ + part@);
                        assert(before.kept@ == stream);
                    } else {
                        assert(room == 0);
                        assert(chunk@.subrange(0, 0) =~= Seq::<u8>::empty());
                        assert((stream + chunk@).take(self.limit as int) =~= stream.take(self.limit as int));
                        assert(self.kept@ =~= before.kept@);
                    }
                }
            }
        } else {
            self.kept.extend_from_slice(chunk);
            proof {
                assert forall|stream: Seq<u8>| #[trigger] before.holds(stream) implies self.holds(stream + chunk@) by {
                    if stream.len() > self.limit {
                        assert(room == 0);
                        assert(chunk@ =~= Seq::<u8>::empty());
                        assert(stream + chunk@ =~= stream);
                        assert(self.kept@ =~= before.kept@);
                    } else {
                        assert(self.kept@ =~= stream + chunk@);
                    }
                }
            }
        }
    }
}

// ---------------------------------------------------------------------------
// Supervision

/// How a command ended.
#[derive(Clone, Copy, Debug, PartialEq, Eq, Structural)]
pub struct ExitFacts {
    pub success: bool,
    pub code: Option<i32>,
}

/// What asking for a command's end or output gave.
#[derive(Debug)]
pub enum Poll<T> {
    Ready(T),
    Pending,
    Failed(String),
    Stopped,
    TooLarge,
}

/// One of the two outputs of a command.
#[derive(Clone, Copy, Debug, PartialEq, Eq, Structural)]
pub enum OutputStream {
    Stdout,
    Stderr,
}

impl BoundedOutput {
    /// Standard output must fit; diagnostics are merely cut.
    pub open spec fn too_large(self, stream: OutputStream) -> bool {
        self.overflowed && stream == OutputStream::Stdout
    }

    /// Whether reading can stop here: nothing that follows is of use.
    pub fn is_too_large(&self, stream: OutputStream) -> (large: bool)
        ensures
            large == self.too_large(stream),
    {
        self.overflowed && stream == OutputStream::Stdout
    }

    /// What a supervisor is told of an output that has been read.
    pub fn polled(self, stream: OutputStream) -> (poll: Poll<Vec<u8>>)
        ensures
            poll == if self.too_large(stream) { Poll::TooLarge } else { Poll::Ready(self.kept) },
    {
        if self.is_too_large(stream) {
            Poll::TooLarge
        } else {
            Poll::Ready(self.kept)
        }
    }
}

/// Follows a running command until it has ended and both outputs are read.
#[derive(Debug)]
pub struct SnapshotSupervisor {
    pub timeout: Duration,
    pub output_limit: usize,
    pub status: Option<ExitFacts>,
    pub stdout: Option<Vec<u8>>,
    pub stderr: Option<Vec<u8>>,
}

pub struct SupervisorView {
    pub timeout: Duration,
    pub output_limit: usize,
    pub status: Option<ExitFacts>,
    pub stdout: Option<Seq<u8>>,
    pub stderr: Option<Seq<u8>>,
}

impl View for SnapshotSupervisor {
    type V = SupervisorView;

    open spec fn view(&self) -> SupervisorView {
        SupervisorView {
            timeout: self.timeout,
            output_limit: self.output_limit,
            status: self.status,
            stdout: option_view(self.stdout),
            stderr: option_view(self.stderr),
        }
    }
}

/// Why a command is to be killed now, if it is.
pub open spec fn interruption(view: SupervisorView, cancelled: bool, elapsed: Duration) -> Option<FailureView> {
    if cancelled {
        Some(FailureView::Cancelled)
    } else if elapsed.nanos >= view.timeout.nanos {
        Some(FailureView::Timeout)
    } else {
        None
    }
}

/// The name of an output in messages.
pub open spec fn stream_name(stream: OutputStream) -> Seq<char> {
    match stream {
        OutputStream::Stdout => "stdout"@,
        OutputStream::Stderr => "stderr"@,
    }
}

/// The state or the failure after asking for the command's end.
pub open spec fn status_after(view: SupervisorView, poll: Poll<ExitFacts>) -> Result<SupervisorView, FailureView> {
    if view.status is Some {
        Ok(view)
    } else {
        match poll {
            Poll::Ready(facts) => Ok(SupervisorView { status: Some(facts), ..view }),
            Poll::Pending => Ok(view),
            Poll::Failed(message) => Err(FailureView::Output(message@)),
            Poll::Stopped => Err(FailureView::Output("missing child status"@)),
            Poll::TooLarge => Err(FailureView::Output("missing child status"@)),
        }
    }
}

/// The state or the failure after asking for one of the outputs.
pub open spec fn output_after(view: SupervisorView, stream: OutputStream, poll: Poll<Vec<u8>>) -> Result<SupervisorView, FailureView> {
    let known = match stream {
        OutputStream::Stdout => view.stdout is Some,
        OutputStream::Stderr => view.stderr is Some,
    };
    if known {
        Ok(view)
    } else {
        match poll {
            Poll::Ready(bytes) => Ok(
                match stream {
                    OutputStream::Stdout => SupervisorView { stdout: Some(bytes@), ..view },
                    OutputStream::Stderr => SupervisorView { stderr: Some(bytes@), ..view },
                },
            ),
            Poll::Pending => Ok(view),
            Poll::Failed(message) => Err(FailureView::Output(message@)),
            Poll::Stopped => Err(FailureView::Output(stream_name(stream) + " reader stopped before returning output"@)),
            Poll::TooLarge => Err(
                FailureView::OutputTooLarge(
                    stream_name(stream) + " exceeds "@ + crate::text::decimal_text(view.output_limit as nat) + " bytes"@,
                ),
            ),
        }
    }
}

/// What the run came to, once nothing is missing.
pub open spec fn run_outcome(view: SupervisorView) -> Option<Result<SnapshotView, FailureView>> {
    match (view.status, view.stdout, view.stderr) {
        (Some(facts), Some(stdout), Some(stderr)) => Some(
            if facts.success {
                output_outcome(stdout)
            } else {
                Err(FailureView::Exit { message: exit_text(lossy_text(stderr), facts.code), code: facts.code })
            },
        ),
        _ => None,
    }
}

pub open spec fn step_view(result: Result<(), SnapshotFailure>, view: SupervisorView) -> Result<SupervisorView, FailureView> {
    match result {
        Ok(()) => Ok(view),
        Err(failure) => Err(failure@),
    }
}

impl SnapshotSupervisor {
    pub fn new(timeout: Duration, output_limit: usize) -> (supervisor: SnapshotSupervisor)
        ensures
            supervisor@ == (SupervisorView { timeout, output_limit, status: None, stdout: None, stderr: None }),
    {
        SnapshotSupervisor { timeout, output_limit, status: None, stdout: None, stderr: None }
    }

    /// Whether the command is to be killed now, and why.
    pub fn interrupted(&self, cancelled: bool, elapsed: Duration) -> (failure: Option<SnapshotFailure>)
        ensures
            option_view(failure) == interruption(self@, cancelled, elapsed),
    {
        if cancelled {
            Some(SnapshotFailure::Cancelled)
        } else if elapsed.reached(self.timeout) {
            Some(SnapshotFailure::Timeout)
        } else {
            None
        }
    }

    /// Takes note of what asking for the command's end gave.
    pub fn status_polled(&mut self, poll: Poll<ExitFacts>) -> (result: Result<(), SnapshotFailure>)
        ensures
            step_view(result, final(self)@) == status_after(old(self)@, poll),
    {
        if self.status.is_some() {
            return Ok(());
        }
        match poll {
            Poll::Ready(facts) => {
                self.status = Some(facts);
                Ok(())
            },
            Poll::Pending => Ok(()),
            Poll::Failed(message) => Err(SnapshotFailure::Output(message)),
            Poll::Stopped => Err(SnapshotFailure::Output("missing child status".to_owned())),
            Poll::TooLarge => Err(SnapshotFailure::Output("missing child status".to_owned())),
        }
    }

    /// Takes note of what asking for one of the outputs gave.
    pub fn output_polled(&mut self, stream: OutputStream, poll: Poll<Vec<u8>>) -> (result: Result<(), SnapshotFailure>)
        ensures
            step_view(result, final(self)@) == output_after(old(self)@, stream, poll),
    {
        let name = match stream {
            OutputStream::Stdout => {
                if self.stdout.is_some() {
                    return Ok(());
                }
                "stdout"
            },
            OutputStream::Stderr => {
                if self.stderr.is_some() {
                    return Ok(());
                }
                "stderr"
            },
        };
        match poll {
            Poll::Ready(bytes) => {
                match stream {
                    OutputStream::Stdout => {
                        self.stdout = Some(bytes);
                    },
                    OutputStream::Stderr => {
                        self.stderr = Some(bytes);
                    },
                }
                Ok(())
            },
            Poll::Pending => Ok(()),
            Poll::Failed(message) => Err(SnapshotFailure::Output(message)),
            Poll::Stopped => Err(SnapshotFailure::Output(joined(name, " reader stopped before returning output"))),
            Poll::TooLarge => {
                let mut message = joined(name, " exceeds ");
                message.append(crate::text::decimal(self.output_limit as u64).as_str());
                message.append(" bytes");
                Err(SnapshotFailure::OutputTooLarge(message))
            },
        }
    }

    /// What the run came to, once nothing is missing.
    pub fn outcome(&self) -> (result: Option<Result<Snapshot, SnapshotFailure>>)
        ensures
            result is Some == (run_outcome(self@) is Some),
            result matches Some(run) ==> run_outcome(self@) == Some(run_view(run)),
    {
        match (&self.status, &self.stdout, &self.stderr) {
            (Some(facts), Some(stdout), Some(stderr)) => {
                if facts.success {
                    Some(parse_snapshot_output(stdout.as_slice()))
                } else {
                    let diagnostics = decode_lossy(stderr.as_slice());
                    Some(
                        Err(
                            SnapshotFailure::Exit {
                                message: exit_message(diagnostics.as_str(), facts.code),
                                code: facts.code,
                            },
                        ),
                    )
                }
            },
            _ => None,
        }
    }
}

/// A run is over only when the command has ended and both outputs are there.
pub proof fn a_run_waits_for_everything(view: SupervisorView)
    ensures
        run_outcome(view) is Some <==> view.status is Some && view.stdout is Some && view.stderr is Some,
{
}

/// What has been learnt about a run is not unlearnt.
pub proof fn facts_about_a_run_are_kept(view: SupervisorView, facts: Poll<ExitFacts>, stream: OutputStream, bytes: Poll<Vec<u8>>)
    ensures
        status_after(view, facts) matches Ok(after) ==> (view.status is Some ==> after.status == view.status) && after.stdout
            == view.stdout && after.stderr == view.stderr,
        output_after(view, stream, bytes) matches Ok(after) ==> after.status == view.status && (view.stdout is Some ==> after.stdout
            == view.stdout) && (view.stderr is Some ==> after.stderr == view.stderr),
{
}

} // verus!
