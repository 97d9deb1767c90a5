//! What holds of every run of a snapshot command, from its words to its end.

use crate::json::{json_field, json_parsed, JsonView};
use crate::parse::{is_white_space, mentions, trim_text};
use crate::project::RecordView;
use crate::snapshot::{exit_text, failure_code, failure_ends_command, failure_text, interruption, invocation_for,
    output_after, output_outcome, run_outcome, status_after, utf8_error_text, BoundedOutput, ExitFacts, FailureView, OutputStream, Poll, SupervisorView};
use crate::text::{decimal_text, signed_text};
use crate::text_laws::{trimming_takes_only_what_is_around, words_are_found_wherever_they_stand, same_but_for_capitals};
use crate::time::Duration;
use vstd::prelude::*;
use vstd::utf8::valid_utf8;

verus! {

// ---------------------------------------------------------------------------
// The words of a command

/// A registered command is run exactly as it was registered, word by word,
/// with `snapshot` and `--json` behind it, in the project's directory.
pub proof fn registered_commands_are_run_word_by_word(record: RecordView, command: Seq<Seq<char>>)
    requires
        record.path.len() > 0 && record.path[0] == '/',
        record.cook == Some(command),
        command.len() > 0 && command[0].len() > 0 && command[0][0] == '/',
    ensures
        invocation_for(record) matches Ok(invocation) && {
            let words = seq![invocation.program] + invocation.args;
            &&& words.len() == command.len() + 2
            &&& forall|i: int| 0 <= i < command.len() ==> words[i] == #[trigger] command[i]
            &&& words[command.len() as int] == "snapshot"@
            &&& words[command.len() as int + 1] == "--json"@
            &&& invocation.cwd == record.path
        },
{
    let invocation = invocation_for(record)->Ok_0;
    let words = seq![invocation.program] + invocation.args;
    assert forall|i: int| 0 <= i < command.len() implies words[i] == #[trigger] command[i] by {
        if i > 0 {
            assert(command.skip(1)[i - 1] == command[i]);
        }
    }
}

/// A project without a command of its own is asked by `cook snapshot --json`
/// in its directory.
pub proof fn projects_without_a_command_are_cooked(record: RecordView)
    requires
        record.path.len() > 0 && record.path[0] == '/',
        record.cook is None,
    ensures
        invocation_for(record) matches Ok(invocation) && {
            &&& invocation.program == "cook"@
            &&& invocation.args.len() == 2
            &&& invocation.args[0] == "snapshot"@
            &&& invocation.args[1] == "--json"@
            &&& invocation.cwd == record.path
        },
{
}

/// A project is asked exactly if its directory and its command are absolute;
/// what is refused is refused before anything is run.
pub proof fn only_absolute_commands_are_run(record: RecordView)
    ensures
        invocation_for(record) is Ok <==> {
            &&& record.path.len() > 0 && record.path[0] == '/'
            &&& record.cook matches Some(command) ==> command.len() > 0 && command[0].len() > 0 && command[0][0] == '/'
        },
        invocation_for(record) matches Err(failure) ==> failure is InvalidInvocation && failure_code(failure) is None,
{
}

// ---------------------------------------------------------------------------
// What failures are called

/// The text begins and ends with these.
pub open spec fn is_made_of(text: Seq<char>, start: Seq<char>, end: Seq<char>) -> bool {
    &&& text.len() == start.len() + end.len()
    &&& forall|i: int| 0 <= i < start.len() ==> text[i] == #[trigger] start[i]
    &&& forall|i: int| 0 <= i < end.len() ==> text[start.len() + i] == #[trigger] end[i]
}

/// Every failure is told in its own words: what kind it is, and then all that
/// is known of it. The words of a command that failed by itself stand alone.
pub proof fn failures_are_told_in_full(message: Seq<char>, code: Option<i32>)
    ensures
        is_made_of(failure_text(FailureView::Invalid(message)), "invalid snapshot: "@, message),
        is_made_of(failure_text(FailureView::InvalidInvocation(message)), "invalid snapshot invocation: "@, message),
        is_made_of(failure_text(FailureView::Spawn(message)), "failed to start snapshot command: "@, message),
        is_made_of(failure_text(FailureView::Output(message)), "failed to read snapshot output: "@, message),
        is_made_of(failure_text(FailureView::Launch(message)), "failed to launch snapshot: "@, message),
        is_made_of(failure_text(FailureView::OutputTooLarge(message)), "snapshot output too large: "@, message),
        is_made_of(failure_text(FailureView::CacheFull(message)), "snapshot cache full: "@, message),
        failure_text(FailureView::Exit { message, code }) == message,
        failure_text(FailureView::Timeout) == "snapshot command timed out"@,
        failure_text(FailureView::Cancelled) == "snapshot command cancelled"@,
{
}

/// A failure carries an exit code exactly if the command ended by itself, and
/// then the code that it ended with.
pub proof fn only_exits_have_a_code(failure: FailureView)
    ensures
        failure_code(failure) == (match failure {
            FailureView::Exit { message, code } => code,
            _ => None,
        }),
        failure_code(failure) is Some ==> failure is Exit,
{
}

/// A command is ended exactly if it may still be running: after a
/// cancellation, a timeout, too much output, or a launch that went wrong.
pub proof fn commands_that_may_run_are_ended(failure: FailureView)
    ensures
        failure_ends_command(failure) <==> match failure {
            FailureView::Cancelled => true,
            FailureView::Timeout => true,
            FailureView::OutputTooLarge(_) => true,
            FailureView::Launch(_) => true,
            FailureView::Invalid(_) => false,
            FailureView::InvalidInvocation(_) => false,
            FailureView::Spawn(_) => false,
            FailureView::Exit { .. } => false,
            FailureView::Output(_) => false,
            FailureView::CacheFull(_) => false,
        },
{
}

// ---------------------------------------------------------------------------
// What a failed command said

/// Nothing but white space.
pub open spec fn is_blank(text: Seq<char>) -> bool {
    forall|i: int| 0 <= i < text.len() ==> is_white_space(#[trigger] text[i])
}

/// A command that failed without a word is told by its code, or by the lack of
/// one.
pub proof fn silent_commands_are_told_by_their_code(blank: Seq<char>, code: Option<i32>)
    requires
        is_blank(blank),
    ensures
        code matches Some(number) ==> exit_text(blank, code) == "cook exited "@ + signed_text(number as int),
        code is None ==> exit_text(blank, code) == "cook exited without a code"@,
{
    reveal_strlit("unknown command");
    reveal_strlit("usage:");
    trimming_takes_only_what_is_around(blank, Seq::empty(), Seq::empty());
    assert(blank + Seq::<char>::empty() + Seq::<char>::empty() =~= blank);
    assert("unknown command"@.len() == 15);
    assert("usage:"@.len() == 6);
    assert(!mentions(Seq::<char>::empty(), "unknown command"@)) by {
        assert forall|at: int| !crate::parse::stands_at(Seq::<char>::empty(), "unknown command"@, at) by {}
    }
    assert(!mentions(Seq::<char>::empty(), "usage:"@)) by {
        assert forall|at: int| !crate::parse::stands_at(Seq::<char>::empty(), "usage:"@, at) by {}
    }
}

/// What a failed command said is passed on as it is, without the white space
/// around it, whatever its code was; where it shows that the command is not
/// known, it is said in front that the program is an older one.
pub proof fn diagnostics_are_passed_on(before: Seq<char>, said: Seq<char>, behind: Seq<char>, code: Option<i32>)
    requires
        is_blank(before),
        is_blank(behind),
        said.len() > 0 && !is_white_space(said[0]) && !is_white_space(said.last()),
    ensures
        mentions(said, "unknown command"@) || mentions(said, "usage:"@) ==> exit_text(before + said + behind, code)
            == "older jeff missing snapshot: "@ + said,
        !mentions(said, "unknown command"@) && !mentions(said, "usage:"@) ==> exit_text(before + said + behind, code) == said,
{
    trimming_takes_only_what_is_around(before, said, behind);
    assert(trim_text(before + said + behind) == said);
}

/// A program that prints its usage is an older one, whatever else it prints
/// and however it capitalises the word.
pub proof fn usage_shows_an_older_program(before: Seq<char>, word: Seq<char>, behind: Seq<char>, code: Option<i32>)
    requires
        word.len() == "usage:"@.len(),
        forall|i: int| 0 <= i < word.len() ==> same_but_for_capitals(#[trigger] word[i], "usage:"@[i]),
        before.len() > 0 ==> !is_white_space(before[0]),
        behind.len() > 0 ==> !is_white_space(behind.last()),
    ensures
        exit_text(before + word + behind, code) == "older jeff missing snapshot: "@ + (before + word + behind),
{
    reveal_strlit("usage:");
    let needle = "usage:"@;
    assert(needle.len() == 6);
    assert(needle[0] == 'u' && needle[1] == 's' && needle[2] == 'a' && needle[3] == 'g' && needle[4] == 'e' && needle[5] == ':');
    assert forall|i: int| 0 <= i < needle.len() implies same_but_for_capitals(word[i], #[trigger] needle[i]) && !('A'
        <= needle[i] <= 'Z') by {
        assert(same_but_for_capitals(word[i], needle[i]));
    }
    words_are_found_wherever_they_stand(before, word, behind, needle);
    let said = before + word + behind;
    assert(same_but_for_capitals(word[0], needle[0]));
    assert(same_but_for_capitals(word[5], needle[5]));
    assert(said[0] == if before.len() > 0 { before[0] } else { word[0] });
    assert(said.last() == if behind.len() > 0 { behind.last() } else { word[5] });
    assert(said + Seq::<char>::empty() =~= said);
    assert(Seq::<char>::empty() + said + Seq::<char>::empty() =~= said);
    diagnostics_are_passed_on(Seq::empty(), said, Seq::empty(), code);
}

// ---------------------------------------------------------------------------
// The end of a run

/// A command is stopped when it is cancelled, and otherwise from its timeout
/// on, not before.
pub proof fn commands_end_in_time(view: SupervisorView, cancelled: bool, elapsed: Duration)
    ensures
        cancelled ==> interruption(view, cancelled, elapsed) == Some(FailureView::Cancelled),
        !cancelled && elapsed.nanos >= view.timeout.nanos ==> interruption(view, cancelled, elapsed) == Some(FailureView::Timeout),
        !cancelled && elapsed.nanos < view.timeout.nanos ==> interruption(view, cancelled, elapsed) is None,
{
}

/// A command that says it succeeded is judged by what it printed; any other is
/// a failure with the code that it ended with, whatever it printed.
pub proof fn failed_commands_give_no_snapshot(view: SupervisorView, facts: ExitFacts, stdout: Seq<u8>, stderr: Seq<u8>)
    requires
        view.status == Some(facts),
        view.stdout == Some(stdout),
        view.stderr == Some(stderr),
    ensures
        facts.success ==> run_outcome(view) == Some(crate::snapshot::output_outcome(stdout)),
        !facts.success ==> (run_outcome(view) matches Some(Err(FailureView::Exit { message, code })) && code == facts.code
            && message == exit_text(crate::snapshot::lossy_text(stderr), facts.code)),
{
}

/// The end of a command and each of its outputs is taken over as it came, once,
/// and touches nothing else that is known.
pub proof fn what_comes_is_taken_over(view: SupervisorView, facts: ExitFacts, bytes: Vec<u8>, stream: OutputStream)
    ensures
        view.status is None ==> status_after(view, Poll::Ready(facts)) == Ok::<SupervisorView, FailureView>(
            SupervisorView { status: Some(facts), ..view },
        ),
        status_after(view, Poll::Pending) == Ok::<SupervisorView, FailureView>(view),
        output_after(view, stream, Poll::Pending) == Ok::<SupervisorView, FailureView>(view),
        view.stdout is None ==> output_after(view, OutputStream::Stdout, Poll::Ready(bytes)) == Ok::<SupervisorView, FailureView>(
            SupervisorView { stdout: Some(bytes@), ..view },
        ),
        view.stderr is None ==> output_after(view, OutputStream::Stderr, Poll::Ready(bytes)) == Ok::<SupervisorView, FailureView>(
            SupervisorView { stderr: Some(bytes@), ..view },
        ),
{
}

/// Where asking goes wrong the run fails, and says what went wrong: the words
/// of the failure, the output that was lost, or the limit that was passed.
pub proof fn lost_output_fails_the_run(view: SupervisorView, message: String)
    requires
        view.status is None,
        view.stdout is None,
        view.stderr is None,
    ensures
        status_after(view, Poll::Failed(message)) == Err::<SupervisorView, FailureView>(FailureView::Output(message@)),
        status_after(view, Poll::Stopped) == Err::<SupervisorView, FailureView>(FailureView::Output("missing child status"@)),
        output_after(view, OutputStream::Stdout, Poll::Failed(message)) == Err::<SupervisorView, FailureView>(
            FailureView::Output(message@),
        ),
        output_after(view, OutputStream::Stderr, Poll::Failed(message)) == Err::<SupervisorView, FailureView>(
            FailureView::Output(message@),
        ),
        output_after(view, OutputStream::Stdout, Poll::Stopped) == Err::<SupervisorView, FailureView>(
            FailureView::Output("stdout"@ + " reader stopped before returning output"@),
        ),
        output_after(view, OutputStream::Stderr, Poll::Stopped) == Err::<SupervisorView, FailureView>(
            FailureView::Output("stderr"@ + " reader stopped before returning output"@),
        ),
        output_after(view, OutputStream::Stdout, Poll::TooLarge) == Err::<SupervisorView, FailureView>(
            FailureView::OutputTooLarge("stdout"@ + " exceeds "@ + decimal_text(view.output_limit as nat) + " bytes"@),
        ),
        output_after(view, OutputStream::Stderr, Poll::TooLarge) == Err::<SupervisorView, FailureView>(
            FailureView::OutputTooLarge("stderr"@ + " exceeds "@ + decimal_text(view.output_limit as nat) + " bytes"@),
        ),
{
}

/// Of an output the beginning is kept, as much as the limit allows and no
/// less; only standard output fails the run when it goes on after that.
pub proof fn output_is_kept_up_to_the_limit(output: BoundedOutput, stream: Seq<u8>)
    requires
        output.holds(stream),
    ensures
        output.kept@.len() <= output.limit,
        output.kept@.len() <= stream.len(),
        output.kept@.len() == output.limit || output.kept@.len() == stream.len(),
        forall|i: int| 0 <= i < output.kept@.len() ==> output.kept@[i] == #[trigger] stream[i],
        output.too_large(OutputStream::Stdout) <==> stream.len() > output.limit,
        !output.too_large(OutputStream::Stderr),
{
}

/// Output that cannot be read fails the run and says why: where it is no text,
/// where it is no document, and where the document is of another version.
pub proof fn unreadable_output_says_why(output: Seq<u8>, problem: Seq<char>, document: JsonView, version: u64)
    ensures
        !valid_utf8(output) ==> (output_outcome(output) matches Err(failure) && failure_text(failure) == "invalid snapshot: "@
            + utf8_error_text(output) && failure is Invalid),
        valid_utf8(output) && json_parsed(output) == Err::<JsonView, Seq<char>>(problem) ==> (output_outcome(output) matches Err(
            failure,
        ) && failure_text(failure) == "invalid snapshot: "@ + ("invalid snapshot: "@ + problem) && failure is Invalid),
        valid_utf8(output) && json_parsed(output) == Ok::<JsonView, Seq<char>>(document) && json_field(document, "schemaVersion"@)
            == Some(JsonView::Unsigned(version)) && version > 1 ==> (output_outcome(output) matches Err(failure)
            && failure_text(failure) == "invalid snapshot: "@ + ("snapshot schema version "@ + decimal_text(version as nat)
            + " is newer than supported maximum "@ + decimal_text(1) + "; upgrade jeffd"@) && failure is Invalid),
{
}

} // verus!
