//! What running a program came to, and what is reported of it.
//!
//! The caller writes the program to a file and runs the toolchain on it. It
//! reports how far that got as a `RunOutcome`; `execution_result` turns the
//! outcome into the text and the error flag that the client is told.

use vstd::prelude::*;
use vstd::string::StringExecFns;
use vstd::utf8::{decode_utf8, valid_utf8};

verus! {

/// The text that `String::from_utf8_lossy` makes of bytes: the text that the
/// bytes encode, with a replacement character for each part that is not
/// well-formed UTF-8.
pub uninterp spec fn lossy_text(bytes: Seq<u8>) -> Seq<char>;

/// Decodes bytes with `String::from_utf8_lossy`, which never fails: bytes
/// that are well-formed UTF-8 give the text they encode, and other bytes
/// give text with replacement characters.
#[verifier::external_body]
fn decode_lossy(bytes: &[u8]) -> (text: String)
    ensures
        text@ == lossy_text(bytes@),
        valid_utf8(bytes@) ==> text@ == decode_utf8(bytes@),
{
    String::from_utf8_lossy(bytes).into_owned()
}

/// How far writing and running a program got.
pub enum RunOutcome {
    /// The program could not be written to its file; the toolchain was not
    /// started. Holds the reason.
    WriteFailed(String),
    /// The toolchain could not be started. Holds the reason.
    SpawnFailed(String),
    /// The toolchain was started, but waiting for it failed. Holds the reason.
    WaitFailed(String),
    /// The toolchain ran to its end. Holds what it wrote to standard output
    /// and to standard error, and whether its exit status is success.
    Exited { stdout: Vec<u8>, stderr: Vec<u8>, success: bool },
}

/// What a client is told of one execution.
pub struct ExecutionResult {
    pub stdout: String,
    pub stderr: String,
    pub is_error: bool,
}

/// A result as a value: standard output, standard error, error flag.
pub struct ResultView {
    pub stdout: Seq<char>,
    pub stderr: Seq<char>,
    pub is_error: bool,
}

impl View for ExecutionResult {
    type V = ResultView;

    open spec fn view(&self) -> ResultView {
        ResultView { stdout: self.stdout@, stderr: self.stderr@, is_error: self.is_error }
    }
}

/// The result that stands for an outcome. A failure to write, to start or to
/// wait is an error with no output and a message that names the reason. A
/// run that came to its end has the output it wrote, and is an error exactly
/// when its exit status is not success, whatever it wrote to standard error.
/// Output that is not well-formed UTF-8 is kept, with replacement characters.
pub open spec fn result_of(outcome: RunOutcome) -> ResultView {
    match outcome {
        RunOutcome::WriteFailed(reason) => ResultView {
            stdout: Seq::empty(),
            stderr: "Failed to write source: "@ + reason@,
            is_error: true,
        },
        RunOutcome::SpawnFailed(reason) => ResultView {
            stdout: Seq::empty(),
            stderr: "Could not start `v`. Is V installed and in PATH?\nError: "@ + reason@,
            is_error: true,
        },
        RunOutcome::WaitFailed(reason) => ResultView {
            stdout: Seq::empty(),
            stderr: "Failed to wait on `v run`: "@ + reason@,
            is_error: true,
        },
        RunOutcome::Exited { stdout, stderr, success } => ResultView {
            stdout: lossy_text(stdout@),
            stderr: lossy_text(stderr@),
            is_error: !success,
        },
    }
}

/// A message followed by a reason.
fn message(text: &str, reason: &str) -> (out: String)
    ensures
        out@ == text@ + reason@,
{
    let mut out = String::new();
    out.append(text);
    out.append(reason);
    assert(out@ =~= text@ + reason@);
    out
}

/// Turns the outcome of a run into the result that the client is told.
pub fn execution_result(outcome: RunOutcome) -> (r: ExecutionResult)
    ensures
        r@ == result_of(outcome),
{
    match outcome {
        RunOutcome::WriteFailed(reason) => ExecutionResult {
            stdout: String::new(),
            stderr: message("Failed to write source: ", reason.as_str()),
            is_error: true,
        },
        RunOutcome::SpawnFailed(reason) => ExecutionResult {
            stdout: String::new(),
            stderr: message(
                "Could not start `v`. Is V installed and in PATH?\nError: ",
                reason.as_str(),
            ),
            is_error: true,
        },
        RunOutcome::WaitFailed(reason) => ExecutionResult {
            stdout: String::new(),
            stderr: message("Failed to wait on `v run`: ", reason.as_str()),
            is_error: true,
        },
        RunOutcome::Exited { stdout, stderr, success } => ExecutionResult {
            stdout: decode_lossy(stdout.as_slice()),
            stderr: decode_lossy(stderr.as_slice()),
            is_error: !success,
        },
    }
}

} // verus!
