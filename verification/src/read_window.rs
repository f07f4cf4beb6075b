//! Choosing which lines of a file a read returns: a line range, cut short by
//! a line limit and a byte limit, with a note saying where and why it stopped.
//!
//! The file itself is read elsewhere; a [`ReadWindow`] is told about each line
//! in turn and decides whether to skip it, keep it, or stop.

use vstd::prelude::*;
use vstd::string::StringSliceAdditionalSpecFns;
use crate::decimal::{decimal, decimal_string};
use crate::utf8_text::{lemma_encode_single, lemma_utf8_len_concat, utf8_len};

verus! {

/// The name under which the file-reading tool is offered.
pub const READ_FILE_TOOL_NAME: &'static str = "read-file";

/// How the file-reading tool describes itself.
pub const READ_FILE_TOOL_DESCRIPTION: &'static str =
    "Reads a file and returns its content with optional line range selection";

/// Limits of the file-reading tool.
#[derive(Debug)]
pub struct ReadFileTool {
    /// Maximum number of lines to return in a single call.
    pub max_lines: usize,
    /// Maximum number of bytes to return in a single call.
    pub max_bytes: usize,
}

impl Default for ReadFileTool {
    fn default() -> (tool: Self)
        ensures
            tool.max_lines == 1_000,
            tool.max_bytes == 100_000,
    {
        Self { max_lines: 1_000, max_bytes: 100_000 }
    }
}

/// What a read returns.
#[derive(Debug)]
pub struct ReadFileToolOutput {
    /// The file content for the requested range.
    pub content: String,
    /// Whether the output was truncated due to size limits.
    pub truncated: Option<bool>,
    /// The actual line range returned, formatted as "start,end" (e.g. "1,100").
    pub range_lines: String,
    /// A human-readable message describing truncation, if any.
    pub message: String,
}

/// What to do with the next line of the file.
#[derive(PartialEq, Eq, Structural, Debug, Clone, Copy)]
pub enum LineAction {
    /// The line lies before the requested range: pass over it unread.
    Skip,
    /// Read the line and hand it to [`ReadWindow::take`].
    Take,
    /// The window is closed: stop reading.
    Stop,
}

/// Lines joined with a newline after each one.
pub open spec fn joined_lines(lines: Seq<Seq<char>>) -> Seq<char>
    decreases lines.len(),
{
    if lines.len() == 0 {
        Seq::empty()
    } else {
        joined_lines(lines.drop_last()) + lines.last() + seq!['\n']
    }
}

/// The note left when the line limit stops a read at line `line_num`.
pub open spec fn line_limit_note(line_num: nat, max_lines: nat) -> Seq<char> {
    "Output truncated at line "@ + decimal(line_num) + ": exceeded maximum line limit of "@
        + decimal(max_lines) + "."@
}

/// The note left when the byte limit stops a read at line `line_num`.
pub open spec fn byte_limit_note(line_num: nat, max_bytes: nat) -> Seq<char> {
    "Output truncated at line "@ + decimal(line_num) + ": exceeded maximum byte limit of "@
        + decimal(max_bytes) + "."@
}

/// The range text "first,last".
pub open spec fn range_text(first: nat, last: nat) -> Seq<char> {
    decimal(first) + ","@ + decimal(last)
}

/// The abstract state of a [`ReadWindow`].
pub struct ReadWindowView {
    /// First line of the requested range (1-indexed).
    pub range_start: usize,
    /// Last line of the requested range, if any.
    pub end_line: Option<usize>,
    /// Most lines the read may return.
    pub max_lines: usize,
    /// Most bytes the read may return, newlines included.
    pub max_bytes: usize,
    /// The lines kept so far, in order.
    pub taken: Seq<Seq<char>>,
    /// Number of the first line kept.
    pub first_line: Option<usize>,
    /// Number of the last line kept (`range_start - 1`, saturating, while none is).
    pub last_line: usize,
    /// Whether a limit stopped the read.
    pub truncated: bool,
    /// The note saying why the read stopped, empty if it did not.
    pub message: Seq<char>,
}

/// The lines of a file that a read returns, collected one line at a time.
pub struct ReadWindow {
    range_start: usize,
    end_line: Option<usize>,
    max_lines: usize,
    max_bytes: usize,
    content: String,
    truncated: bool,
    truncation_message: String,
    first_line: Option<usize>,
    last_line: usize,
    lines_collected: usize,
    taken: Ghost<Seq<Seq<char>>>,
}

impl View for ReadWindow {
    type V = ReadWindowView;

    closed spec fn view(&self) -> ReadWindowView {
        ReadWindowView {
            range_start: self.range_start,
            end_line: self.end_line,
            max_lines: self.max_lines,
            max_bytes: self.max_bytes,
            taken: self.taken@,
            first_line: self.first_line,
            last_line: self.last_line,
            truncated: self.truncated,
            message: self.truncation_message@,
        }
    }
}

impl ReadWindow {
    /// The window's internal consistency.
    pub closed spec fn wf(&self) -> bool {
        &&& self.content@ == joined_lines(self.taken@)
        &&& self.lines_collected == self.taken@.len()
        &&& self.lines_collected <= self.max_lines
        &&& utf8_len(self.content@) <= self.max_bytes
        &&& (self.first_line is None <==> self.lines_collected == 0)
        &&& (self.lines_collected == 0 ==> self.last_line == sat_pred(self.range_start))
        &&& (self.truncated <==> self.truncation_message@.len() > 0)
    }

    /// Every window keeps within its limits, and is truncated exactly when it
    /// carries a note saying why.
    pub proof fn lemma_within_limits(&self)
        requires
            self.wf(),
        ensures
            self@.taken.len() <= self@.max_lines,
            utf8_len(joined_lines(self@.taken)) <= self@.max_bytes,
            self@.truncated <==> self@.message.len() > 0,
    {
    }

    /// Starts a read of lines `start_line..=end_line` (1-indexed; the start
    /// defaults to 1 and the end to the end of the file), keeping at most
    /// `max_lines` lines and `max_bytes` bytes.
    pub fn new(
        start_line: Option<usize>,
        end_line: Option<usize>,
        max_lines: usize,
        max_bytes: usize,
    ) -> (w: Self)
        ensures
            w.wf(),
            w@ == fresh_window(
                match start_line {
                    Some(s) => s,
                    None => 1,
                },
                end_line,
                max_lines,
                max_bytes,
            ),
    {
        let range_start = match start_line {
            Some(s) => s,
            None => 1,
        };
        let w = ReadWindow {
            range_start,
            end_line,
            max_lines,
            max_bytes,
            content: String::new(),
            truncated: false,
            truncation_message: String::new(),
            first_line: None,
            last_line: range_start.saturating_sub(1),
            lines_collected: 0,
            taken: Ghost(Seq::empty()),
        };
        assert(utf8_len(w.content@) == 0);
        w
    }

    /// What to do with line `line_num` (1-indexed).
    pub fn action(&self, line_num: usize) -> (a: LineAction)
        ensures
            a == line_action(self@, line_num),
    {
        if self.truncated {
            LineAction::Stop
        } else if line_num < self.range_start {
            LineAction::Skip
        } else {
            match self.end_line {
                Some(end) => {
                    if line_num > end {
                        LineAction::Stop
                    } else {
                        LineAction::Take
                    }
                },
                None => LineAction::Take,
            }
        }
    }

    /// Hands the window line `line_num`, whose text is `line`, after
    /// [`ReadWindow::action`] said to take it. Returns whether to go on reading.
    ///
    /// The line limit is checked first, then the byte limit (each kept line
    /// costs its bytes plus one for the newline); a line that breaks a limit is
    /// not kept, and the read stops with a note naming the line and the limit.
    pub fn take(&mut self, line_num: usize, line: &str) -> (keep_going: bool)
        requires
            old(self).wf(),
            line_action(old(self)@, line_num) == LineAction::Take,
        ensures
            final(self).wf(),
            final(self)@ == after_take(old(self)@, line_num, line@),
            keep_going == !final(self)@.truncated,
    {
        let ghost line_view = line@;
        if self.lines_collected >= self.max_lines {
            self.truncated = true;
            self.truncation_message = limit_message(
                line_num,
                ": exceeded maximum line limit of ",
                self.max_lines,
            );
            return false;
        }
        let line_len = line.as_bytes().len();
        let content_len = self.content.as_str().as_bytes().len();
        if line_len >= self.max_bytes - content_len {
            self.truncated = true;
            self.truncation_message = limit_message(
                line_num,
                ": exceeded maximum byte limit of ",
                self.max_bytes,
            );
            return false;
        }
        if self.first_line.is_none() {
            self.first_line = Some(line_num);
        }
        self.last_line = line_num;
        self.lines_collected = self.lines_collected + 1;
        let ghost old_content = self.content@;
        self.content.append(line);
        self.content.append("\n");
        proof {
            reveal_strlit("\n");
            let old_taken = self.taken@;
            self.taken@ = old_taken.push(line_view);
            assert(self.taken@.drop_last() =~= old_taken);
            assert(self.content@ =~= old_content + line_view + seq!['\n']);
            lemma_utf8_len_concat(old_content, line_view);
            lemma_utf8_len_concat(old_content + line_view, seq!['\n']);
            lemma_encode_single('\n');
        }
        true
    }

    /// Ends the read and reports what it returned.
    pub fn finish(self) -> (out: ReadFileToolOutput)
        requires
            self.wf(),
        ensures
            out.content@ == joined_lines(self@.taken),
            out.truncated == (if self@.truncated {
                Some(true)
            } else {
                None
            }),
            out.range_lines@ == range_text(
                (match self@.first_line {
                    Some(f) => f,
                    None => self@.range_start,
                }) as nat,
                self@.last_line as nat,
            ),
            out.range_lines@ == decimal(
                (match self@.first_line {
                    Some(f) => f,
                    None => self@.range_start,
                }) as nat,
            ) + ","@ + decimal(self@.last_line as nat),
            out.message@ == self@.message,
            utf8_len(out.content@) <= self@.max_bytes,
            self@.taken.len() <= self@.max_lines,
    {
        let actual_first = match self.first_line {
            Some(f) => f,
            None => self.range_start,
        };
        let mut range_lines = decimal_string(actual_first);
        range_lines.append(",");
        range_lines.append(decimal_string(self.last_line).as_str());
        ReadFileToolOutput {
            content: self.content,
            truncated: if self.truncated {
                Some(true)
            } else {
                None
            },
            range_lines,
            message: self.truncation_message,
        }
    }
}

/// "Output truncated at line {line_num}{limit_text}{limit}."
fn limit_message(line_num: usize, limit_text: &str, limit: usize) -> (s: String)
    ensures
        s@ == "Output truncated at line "@ + decimal(line_num as nat) + limit_text@ + decimal(
            limit as nat,
        ) + "."@,
        s@.len() > 0,
{
    let mut s = "Output truncated at line ".to_owned();
    s.append(decimal_string(line_num).as_str());
    s.append(limit_text);
    s.append(decimal_string(limit).as_str());
    s.append(".");
    s
}

/// The state after a window in state `w` is handed line `line_num` with text `line`.
pub open spec fn after_take(w: ReadWindowView, line_num: usize, line: Seq<char>) -> ReadWindowView {
    if w.taken.len() >= w.max_lines {
        ReadWindowView {
            truncated: true,
            message: line_limit_note(line_num as nat, w.max_lines as nat),
            ..w
        }
    } else if utf8_len(joined_lines(w.taken)) + utf8_len(line) + 1 > w.max_bytes {
        ReadWindowView {
            truncated: true,
            message: byte_limit_note(line_num as nat, w.max_bytes as nat),
            ..w
        }
    } else {
        ReadWindowView {
            taken: w.taken.push(line),
            first_line: if w.first_line is None {
                Some(line_num)
            } else {
                w.first_line
            },
            last_line: line_num,
            ..w
        }
    }
}

/// A window over lines `range_start..=end_line` that has taken nothing yet.
pub open spec fn fresh_window(
    range_start: usize,
    end_line: Option<usize>,
    max_lines: usize,
    max_bytes: usize,
) -> ReadWindowView {
    ReadWindowView {
        range_start,
        end_line,
        max_lines,
        max_bytes,
        taken: Seq::empty(),
        first_line: None,
        last_line: sat_pred(range_start),
        truncated: false,
        message: Seq::empty(),
    }
}

/// `n - 1`, or 0 for 0.
pub open spec fn sat_pred(n: usize) -> usize {
    if n == 0 {
        0
    } else {
        (n - 1) as usize
    }
}

/// What a window in state `w` does with line `line_num`: stop once a limit
/// has cut the read short, pass over lines before the range, stop after it,
/// and take the lines within it.
pub open spec fn line_action(w: ReadWindowView, line_num: usize) -> LineAction {
    if w.truncated {
        LineAction::Stop
    } else if line_num < w.range_start {
        LineAction::Skip
    } else if w.end_line matches Some(end) && line_num > end {
        LineAction::Stop
    } else {
        LineAction::Take
    }
}

} // verus!
