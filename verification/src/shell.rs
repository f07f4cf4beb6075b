//! The rules around running a shell command for the assistant: which commands
//! may run at all, and what the caller is told once one has run.
//!
//! Running the command is left to the caller; this module decides before and
//! after.

use std::borrow::Cow;
use vstd::prelude::*;
use vstd::utf8::{decode_utf8, valid_utf8};
use crate::decimal::{decimal, decimal_string};
use crate::snip::{lemma_snipped_cut, lemma_snipped_fits, snip_long_text, snipped, SnipTextFmtCtx};
use crate::utf8_text::{lemma_utf8_len_at_most_four_per_char, utf8_len};

verus! {

/// The name under which the shell tool is offered.
pub const SAFE_SHELL_TOOL_NAME: &'static str = "safe-shell";

/// How the shell tool describes itself.
pub const SAFE_SHELL_TOOL_DESCRIPTION: &'static str =
    "Runs safe shell commands like cat, grep, find, etc.";

/// Byte budget for what a successful command printed.
pub const STDOUT_MAX_BYTES: usize = 10_000;

/// Byte budget for what a failed command printed on its error stream.
pub const STDERR_MAX_BYTES: usize = 5_000;

/// Lets `std::io::Error` be held, unopened, in [`SafeShellToolError`].
#[verifier::external_type_specification]
#[verifier::external_body]
pub struct ExIoError(std::io::Error);

/// Why the shell tool gave no output.
#[derive(Debug)]
pub enum SafeShellToolError {
    /// The command checker did not clear the command.
    CommandIsNotAllowed(String),
    /// The shell could not be started for the command.
    FailedToExecute(String, std::io::Error),
    /// The command ran and reported failure; holds its (snipped) error output.
    Failure(String),
}

/// Whether the command checker of the `safe_chains` crate clears `command`.
///
/// Calls `safe_chains::is_safe_command`. Nothing is stated of the answer: the
/// checker consults the environment (the home directory, the current
/// directory, files on disk) as well as the command text.
#[verifier::external_body]
fn is_safe_command(command: &str) -> bool {
    safe_chains::is_safe_command(command)
}

/// The text that `String::from_utf8_lossy` makes of `bytes`: the bytes read as
/// UTF-8, with each invalid sequence replaced by U+FFFD.
pub uninterp spec fn lossy_utf8(bytes: Seq<u8>) -> Seq<char>;

/// The text of what a command printed.
///
/// Calls `String::from_utf8_lossy`. Claims that the result is
/// [`lossy_utf8`] of the bytes, and, as that function's documentation says,
/// that bytes which are valid UTF-8 come back as the text they encode.
#[verifier::external_body]
fn output_text(bytes: &[u8]) -> (text: String)
    ensures
        text@ == lossy_utf8(bytes@),
        valid_utf8(bytes@) ==> text@ == decode_utf8(bytes@),
{
    String::from_utf8_lossy(bytes).into_owned()
}

/// The text that `std::io::Error`'s `Display` gives.
///
/// Nothing is stated of it: it comes from the operating system.
#[verifier::external_body]
fn io_error_text(err: &std::io::Error) -> String {
    format!("{}", err)
}

impl SafeShellToolError {
    /// The text that explains the error.
    pub fn message(&self) -> (m: String)
        ensures
            match self {
                SafeShellToolError::CommandIsNotAllowed(cmd) => m@ == "Command '"@ + cmd@
                    + "' is not allowed or is restricted"@,
                SafeShellToolError::FailedToExecute(cmd, _) => exists|io_text: Seq<char>|
                    m@ == "Failed to execute '"@ + cmd@ + "', IO Error: '"@ + io_text + "'"@,
                SafeShellToolError::Failure(out) => m@ == "Command exited with error: '"@ + out@
                    + "'"@,
            },
    {
        match self {
            SafeShellToolError::CommandIsNotAllowed(cmd) => {
                let mut m = "Command '".to_owned();
                m.append(cmd.as_str());
                m.append("' is not allowed or is restricted");
                m
            },
            SafeShellToolError::FailedToExecute(cmd, err) => {
                let io_text = io_error_text(err);
                let mut m = "Failed to execute '".to_owned();
                m.append(cmd.as_str());
                m.append("', IO Error: '");
                m.append(io_text.as_str());
                m.append("'");
                assert(m@ == "Failed to execute '"@ + cmd@ + "', IO Error: '"@ + io_text@ + "'"@);
                m
            },
            SafeShellToolError::Failure(out) => {
                let mut m = "Command exited with error: '".to_owned();
                m.append(out.as_str());
                m.append("'");
                m
            },
        }
    }
}

/// What becomes of `command` once the checker has judged it: a command judged
/// safe may run, any other is refused by name.
pub fn admit_command(command: &str, judged_safe: bool) -> (r: Result<(), SafeShellToolError>)
    ensures
        judged_safe ==> r is Ok,
        !judged_safe ==> (r matches Err(SafeShellToolError::CommandIsNotAllowed(c)) && c@
            == command@),
{
    if judged_safe {
        Ok(())
    } else {
        Err(SafeShellToolError::CommandIsNotAllowed(command.to_owned()))
    }
}

/// Asks the command checker about `command` and says whether it may run.
pub fn screen_command(command: &str) -> (r: Result<(), SafeShellToolError>)
    ensures
        r is Ok || (r matches Err(SafeShellToolError::CommandIsNotAllowed(c)) && c@ == command@),
{
    admit_command(command, is_safe_command(command))
}

/// The note put after output cut to `max_bytes`.
pub open spec fn output_cut_note(max_bytes: nat) -> Seq<char> {
    "\n\n[... Output truncated. First "@ + decimal(max_bytes) + " bytes shown ...]"@
}

/// `text` within `max_bytes` as the shell tool shows it: whole if it fits,
/// otherwise cut with [`output_cut_note`].
pub open spec fn shown_output(text: Seq<char>, max_bytes: nat) -> Seq<char> {
    if utf8_len(text) <= max_bytes {
        text
    } else {
        snipped(text, max_bytes, output_cut_note(max_bytes))
    }
}

/// Whatever a command prints, what the shell tool shows of it fits its budget,
/// provided the budget leaves room for the note.
pub proof fn lemma_shown_output_fits(text: Seq<char>, max_bytes: nat)
    requires
        utf8_len(output_cut_note(max_bytes)) <= max_bytes,
    ensures
        utf8_len(shown_output(text, max_bytes)) <= max_bytes,
{
    if utf8_len(text) > max_bytes {
        lemma_snipped_fits(text, max_bytes, output_cut_note(max_bytes));
    }
}

/// Both of the shell tool's budgets leave room for the note, so what it
/// reports of a command's output, or of its error output, stays within budget.
pub proof fn lemma_shell_budgets_hold(stdout: Seq<char>, stderr: Seq<char>)
    ensures
        utf8_len(shown_output(stdout, STDOUT_MAX_BYTES as nat)) <= STDOUT_MAX_BYTES,
        utf8_len(shown_output(stderr, STDERR_MAX_BYTES as nat)) <= STDERR_MAX_BYTES,
{
    reveal_strlit("\n\n[... Output truncated. First ");
    reveal_strlit(" bytes shown ...]");
    reveal_with_fuel(decimal, 6);
    assert(decimal(10000).len() == 5);
    assert(decimal(5000).len() == 4);
    lemma_utf8_len_at_most_four_per_char(output_cut_note(10000));
    lemma_utf8_len_at_most_four_per_char(output_cut_note(5000));
    lemma_shown_output_fits(stdout, STDOUT_MAX_BYTES as nat);
    lemma_shown_output_fits(stderr, STDERR_MAX_BYTES as nat);
}

/// Output within budget is shown unchanged; output over budget is shown as a
/// run of its whole leading characters followed by the note, the longest run
/// that fits beside the note within the budget.
pub proof fn lemma_shown_output(text: Seq<char>, max_bytes: nat)
    requires
        utf8_len(output_cut_note(max_bytes)) <= max_bytes,
    ensures
        utf8_len(text) <= max_bytes ==> shown_output(text, max_bytes) == text,
        utf8_len(text) > max_bytes ==> ({
            let note = output_cut_note(max_bytes);
            let shown = shown_output(text, max_bytes);
            let k = shown.len() - note.len();
            &&& 0 <= k <= text.len()
            &&& shown == text.take(k) + note
            &&& utf8_len(text.take(k)) + utf8_len(note) <= max_bytes
            &&& k < text.len() ==> utf8_len(text.take(k + 1)) + utf8_len(note) > max_bytes
        }),
{
    if utf8_len(text) > max_bytes {
        lemma_snipped_cut(text, max_bytes, output_cut_note(max_bytes));
    }
}

/// Formats [`output_cut_note`].
fn output_cut_message(max_bytes: usize) -> (s: String)
    ensures
        s@ == output_cut_note(max_bytes as nat),
{
    let mut s = "\n\n[... Output truncated. First ".to_owned();
    s.append(decimal_string(max_bytes).as_str());
    s.append(" bytes shown ...]");
    s
}

/// `text` as the shell tool shows it within `max_bytes`: whole if it fits,
/// otherwise cut to whole characters with the note [`output_cut_note`].
pub fn show_output(text: &str, max_bytes: usize) -> (s: String)
    ensures
        s@ == shown_output(text@, max_bytes as nat),
        utf8_len(text@) <= max_bytes ==> s@ == text@,
{
    let fmt = |ctx: SnipTextFmtCtx| -> (s: String)
        ensures
            s@ == output_cut_note(ctx.max_bytes as nat),
        { output_cut_message(ctx.max_bytes) };
    let cut = snip_long_text(Cow::Borrowed(text), max_bytes, fmt);
    match cut {
        Cow::Borrowed(b) => b.to_owned(),
        Cow::Owned(o) => o,
    }
}

/// What the shell tool reports once a command has run: what it printed,
/// read as text (at most [`STDOUT_MAX_BYTES`] bytes of it, cut with a note),
/// if it succeeded; otherwise a [`SafeShellToolError::Failure`] holding its
/// error output, read as text (at most [`STDERR_MAX_BYTES`] bytes, cut the
/// same way). Output that is valid UTF-8 is read as the text it encodes.
pub fn shell_outcome(success: bool, stdout: &[u8], stderr: &[u8]) -> (r: Result<
    String,
    SafeShellToolError,
>)
    ensures
        success ==> (r matches Ok(out) && out@ == shown_output(
            lossy_utf8(stdout@),
            STDOUT_MAX_BYTES as nat,
        )),
        !success ==> (r matches Err(SafeShellToolError::Failure(err)) && err@ == shown_output(
            lossy_utf8(stderr@),
            STDERR_MAX_BYTES as nat,
        )),
        success && valid_utf8(stdout@) ==> (r matches Ok(out) && out@ == shown_output(
            decode_utf8(stdout@),
            STDOUT_MAX_BYTES as nat,
        )),
        !success && valid_utf8(stderr@) ==> (r matches Err(SafeShellToolError::Failure(err))
            && err@ == shown_output(decode_utf8(stderr@), STDERR_MAX_BYTES as nat)),
        success && valid_utf8(stdout@) && utf8_len(decode_utf8(stdout@)) <= STDOUT_MAX_BYTES ==> (
        r matches Ok(out) && out@ == decode_utf8(stdout@)),
        !success && valid_utf8(stderr@) && utf8_len(decode_utf8(stderr@)) <= STDERR_MAX_BYTES
            ==> (r matches Err(SafeShellToolError::Failure(err)) && err@ == decode_utf8(stderr@)),
{
    if success {
        let raw_output = output_text(stdout);
        Ok(show_output(raw_output.as_str(), STDOUT_MAX_BYTES))
    } else {
        let stderr_text = output_text(stderr);
        Err(SafeShellToolError::Failure(show_output(stderr_text.as_str(), STDERR_MAX_BYTES)))
    }
}

} // verus!
