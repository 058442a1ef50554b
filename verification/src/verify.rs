//! What is reported of a verify command.

use crate::limits::MAX_OUTPUT_CHARS;
use crate::text;
use crate::text::{chars_of, decoded_lossy, string_of};
use crate::types::{VerifyStatus, VerifyStatusView};
use vstd::prelude::*;

verus! {

/// How the run of a command ended.
pub enum CommandOutcome {
    /// It ran; a command that a signal ended has no exit code.
    Exited { code: Option<i32>, stdout: Vec<u8>, stderr: Vec<u8>, duration_ms: u128 },
    /// It could not be started.
    NotSpawned { detail: String, duration_ms: u128 },
}

/// The view of a [`CommandOutcome`].
pub enum OutcomeView {
    Exited { code: Option<i32>, stdout: Seq<u8>, stderr: Seq<u8>, duration_ms: u128 },
    NotSpawned { detail: Seq<char>, duration_ms: u128 },
}

impl DeepView for CommandOutcome {
    type V = OutcomeView;

    open spec fn deep_view(&self) -> OutcomeView {
        match self {
            CommandOutcome::Exited { code, stdout, stderr, duration_ms } => OutcomeView::Exited {
                code: *code,
                stdout: stdout@,
                stderr: stderr@,
                duration_ms: *duration_ms,
            },
            CommandOutcome::NotSpawned { detail, duration_ms } => OutcomeView::NotSpawned {
                detail: detail@,
                duration_ms: *duration_ms,
            },
        }
    }
}

/// The first [`MAX_OUTPUT_CHARS`] characters of `t`.
pub open spec fn capped(t: Seq<char>) -> Seq<char> {
    if t.len() > MAX_OUTPUT_CHARS {
        t.take(MAX_OUTPUT_CHARS as int)
    } else {
        t
    }
}

/// The exit code that is reported: -1 for a command without one.
pub open spec fn reported_exit(code: Option<i32>) -> int {
    match code {
        Some(c) => c as int,
        None => -1,
    }
}

/// The status of a command that ran and wrote the texts `stdout` and `stderr`.
pub open spec fn exited_status(
    cmd: Seq<char>,
    code: Option<i32>,
    stdout: Seq<char>,
    stderr: Seq<char>,
    duration_ms: u128,
) -> VerifyStatusView {
    VerifyStatusView {
        cmd,
        exit: reported_exit(code),
        stdout: capped(stdout),
        stderr: capped(stderr),
        duration_ms,
    }
}

/// The status of a command.
pub open spec fn verify_status(cmd: Seq<char>, outcome: OutcomeView) -> VerifyStatusView {
    match outcome {
        OutcomeView::Exited { code, stdout, stderr, duration_ms } => exited_status(
            cmd,
            code,
            text::lossy(stdout),
            text::lossy(stderr),
            duration_ms,
        ),
        OutcomeView::NotSpawned { detail, duration_ms } => VerifyStatusView {
            cmd,
            exit: -1,
            stdout: seq![],
            stderr: "failed to spawn: "@ + detail,
            duration_ms,
        },
    }
}

/// The first [`MAX_OUTPUT_CHARS`] characters of `t`.
pub fn capped_text(t: String) -> (out: String)
    ensures
        out@ == capped(t@),
{
    let chars = chars_of(t.as_str());
    if chars.len() <= MAX_OUTPUT_CHARS {
        return t;
    }
    string_of(&chars, 0, MAX_OUTPUT_CHARS)
}

/// The status of a command that ran and wrote the texts `stdout` and `stderr`.
pub fn status_of_exited(
    cmd: &str,
    code: Option<i32>,
    stdout: String,
    stderr: String,
    duration_ms: u128,
) -> (s: VerifyStatus)
    ensures
        s.deep_view() == exited_status(cmd@, code, stdout@, stderr@, duration_ms),
{
    let exit: i64 = match code {
        Some(c) => c as i64,
        None => -1,
    };
    VerifyStatus {
        cmd: cmd.to_owned(),
        exit,
        stdout: capped_text(stdout),
        stderr: capped_text(stderr),
        duration_ms,
    }
}

/// The status of a command.
pub fn run_verify(cmd: &str, outcome: &CommandOutcome) -> (s: VerifyStatus)
    ensures
        s.deep_view() == verify_status(cmd@, outcome.deep_view()),
        outcome.deep_view() matches OutcomeView::Exited { stdout, stderr, .. } ==> {
            &&& vstd::utf8::valid_utf8(stdout) ==> s.stdout@ == capped(
                vstd::utf8::decode_utf8(stdout),
            )
            &&& vstd::utf8::valid_utf8(stderr) ==> s.stderr@ == capped(
                vstd::utf8::decode_utf8(stderr),
            )
        },
{
    match outcome {
        CommandOutcome::Exited { code, stdout, stderr, duration_ms } => status_of_exited(
            cmd,
            *code,
            decoded_lossy(stdout.as_slice()),
            decoded_lossy(stderr.as_slice()),
            *duration_ms,
        ),
        CommandOutcome::NotSpawned { detail, duration_ms } => {
            let mut m = "failed to spawn: ".to_owned();
            m.append(detail.as_str());
            VerifyStatus {
                cmd: cmd.to_owned(),
                exit: -1,
                stdout: String::new(),
                stderr: m,
                duration_ms: *duration_ms,
            }
        },
    }
}

/// No more than [`MAX_OUTPUT_CHARS`] characters are kept of what a command prints.
pub proof fn law_output_is_capped(cmd: Seq<char>, outcome: OutcomeView)
    ensures
        verify_status(cmd, outcome).stdout.len() <= MAX_OUTPUT_CHARS,
        outcome is Exited ==> verify_status(cmd, outcome).stderr.len() <= MAX_OUTPUT_CHARS,
{
}

/// `shown` is the first [`MAX_OUTPUT_CHARS`] characters of the text, or all of it where it has
/// no more.
pub open spec fn is_start_of(shown: Seq<char>, whole: Seq<char>) -> bool {
    &&& forall|i: int| 0 <= i < shown.len() ==> shown[i] == whole[i]
    &&& whole.len() <= MAX_OUTPUT_CHARS ==> shown.len() == whole.len()
    &&& whole.len() > MAX_OUTPUT_CHARS ==> shown.len() == MAX_OUTPUT_CHARS
}

/// The status tells how the command ended: its exit code, or -1 where it has none, the start
/// of what it printed to each stream, and the time that it took; of one that could not be
/// started the reason.
pub open spec fn tells(s: VerifyStatusView, cmd: Seq<char>, outcome: OutcomeView) -> bool {
    &&& s.cmd == cmd
    &&& match outcome {
        OutcomeView::Exited { code, stdout, stderr, duration_ms } => {
            &&& code matches Some(c) ==> s.exit == c
            &&& code is None ==> s.exit == -1
            &&& is_start_of(s.stdout, text::lossy(stdout))
            &&& is_start_of(s.stderr, text::lossy(stderr))
            &&& s.duration_ms == duration_ms
        },
        OutcomeView::NotSpawned { detail, duration_ms } => {
            &&& s.exit == -1
            &&& s.stdout.len() == 0
            &&& s.stderr == "failed to spawn: "@ + detail
            &&& s.duration_ms == duration_ms
        },
    }
}

/// A command is reported as it ended.
pub proof fn law_command_is_reported(cmd: Seq<char>, outcome: OutcomeView)
    ensures
        tells(verify_status(cmd, outcome), cmd, outcome),
{
}

/// The contracts speak of how a command ended as it is.
pub proof fn law_outcome_as_it_is(o: CommandOutcome)
    ensures
        match o {
            CommandOutcome::Exited { code, stdout, stderr, duration_ms } => o.deep_view() == (
            OutcomeView::Exited { code, stdout: stdout@, stderr: stderr@, duration_ms }),
            CommandOutcome::NotSpawned { detail, duration_ms } => o.deep_view() == (
            OutcomeView::NotSpawned { detail: detail@, duration_ms }),
        },
{
}

} // verus!
