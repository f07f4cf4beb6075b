use code_assistant::read_window::{
    LineAction, ReadFileTool, ReadFileToolOutput, ReadWindow, READ_FILE_TOOL_DESCRIPTION,
    READ_FILE_TOOL_NAME,
};

const LOREM: &str = "Lorem ipsum dolor sit amet, consectetur adipiscing elit.
Sed do eiusmod tempor incididunt ut labore et dolore magna aliqua.
Ut enim ad minim veniam, quis nostrud exercitation ullamco.
Laboris nisi ut aliquip ex ea commodo consequat.
Duis aute irure dolor in reprehenderit in voluptate velit.
Esse cillum dolore eu fugiat nulla pariatur.
Excepteur sint occaecat cupidatat non proident.
Sunt in culpa qui officia deserunt mollit anim.
Id est laborum et dolorum fuga.
Et harum quidem rerum facilis est et expedita distinctio.
";

/// Offers the lines of `text` to a window the way the file reader does.
fn read_text(
    text: &str,
    start_line: Option<usize>,
    end_line: Option<usize>,
    tool: &ReadFileTool,
) -> ReadFileToolOutput {
    let mut window = ReadWindow::new(start_line, end_line, tool.max_lines, tool.max_bytes);
    for (idx, line) in text.lines().enumerate() {
        let line_num = idx + 1;
        match window.action(line_num) {
            LineAction::Skip => continue,
            LineAction::Stop => break,
            LineAction::Take => {
                if !window.take(line_num, line) {
                    break;
                }
            }
        }
    }
    window.finish()
}

#[test]
fn tool_names_and_defaults() {
    assert_eq!(READ_FILE_TOOL_NAME, "read-file");
    assert_eq!(
        READ_FILE_TOOL_DESCRIPTION,
        "Reads a file and returns its content with optional line range selection"
    );
    let tool = ReadFileTool::default();
    assert_eq!(tool.max_lines, 1_000);
    assert_eq!(tool.max_bytes, 100_000);
}

#[test]
fn whole_fixture_is_read() {
    let result = read_text(LOREM, None, None, &ReadFileTool::default());
    assert_eq!(result.truncated, None);
    assert!(result.message.is_empty());
    assert_eq!(result.range_lines, "1,10");
    assert!(result.content.contains("Lorem ipsum"));
    assert_eq!(result.content, LOREM);
}

#[test]
fn line_range_is_read() {
    let result = read_text(LOREM, Some(2), Some(4), &ReadFileTool::default());
    assert_eq!(result.truncated, None);
    assert!(result.message.is_empty());
    assert_eq!(result.range_lines, "2,4");
    let expected: Vec<&str> = LOREM.lines().skip(1).take(3).collect();
    assert_eq!(result.content, format!("{}\n", expected.join("\n")));
}

#[test]
fn line_limit_truncates() {
    let tool = ReadFileTool { max_lines: 3, max_bytes: 100_000 };
    let result = read_text(LOREM, None, None, &tool);
    assert_eq!(result.truncated, Some(true));
    assert_eq!(
        result.message,
        "Output truncated at line 4: exceeded maximum line limit of 3."
    );
    assert_eq!(result.range_lines, "1,3");
    assert_eq!(result.content.lines().count(), 3);
}

#[test]
fn byte_limit_truncates() {
    let tool = ReadFileTool { max_lines: 1_000, max_bytes: 50 };
    let result = read_text(LOREM, None, None, &tool);
    assert_eq!(result.truncated, Some(true));
    assert!(!result.message.is_empty());
    assert!(result.content.len() <= 50);
    // The first line alone is 57 bytes with its newline, so nothing is kept.
    assert_eq!(result.content, "");
    assert_eq!(
        result.message,
        "Output truncated at line 1: exceeded maximum byte limit of 50."
    );
    assert_eq!(result.range_lines, "1,0");
}

#[test]
fn byte_limit_counts_the_newline() {
    let text = "abc\ndef\n";
    // "abc\n" is 4 bytes: it fits in 4, and "def\n" does not fit in the rest.
    let tool = ReadFileTool { max_lines: 10, max_bytes: 4 };
    let result = read_text(text, None, None, &tool);
    assert_eq!(result.content, "abc\n");
    assert_eq!(result.range_lines, "1,1");
    assert_eq!(
        result.message,
        "Output truncated at line 2: exceeded maximum byte limit of 4."
    );
    // With 3 bytes even the first line does not fit.
    let tool = ReadFileTool { max_lines: 10, max_bytes: 3 };
    let result = read_text(text, None, None, &tool);
    assert_eq!(result.content, "");
    assert_eq!(result.truncated, Some(true));
}

#[test]
fn start_past_the_end_returns_nothing() {
    let result = read_text(LOREM, Some(20), None, &ReadFileTool::default());
    assert_eq!(result.content, "");
    assert_eq!(result.truncated, None);
    assert_eq!(result.range_lines, "20,19");
}

#[test]
fn empty_file_reads_as_empty_range() {
    let result = read_text("", None, None, &ReadFileTool::default());
    assert_eq!(result.content, "");
    assert_eq!(result.range_lines, "1,0");
    assert_eq!(result.truncated, None);
}

#[test]
fn window_actions_follow_the_range() {
    let window = ReadWindow::new(Some(3), Some(5), 10, 1000);
    assert_eq!(window.action(1), LineAction::Skip);
    assert_eq!(window.action(2), LineAction::Skip);
    assert_eq!(window.action(3), LineAction::Take);
    assert_eq!(window.action(5), LineAction::Take);
    assert_eq!(window.action(6), LineAction::Stop);
}

#[test]
fn truncated_window_stops() {
    let mut window = ReadWindow::new(None, None, 1, 1000);
    assert!(window.take(1, "one"));
    assert!(!window.take(2, "two"));
    assert_eq!(window.action(3), LineAction::Stop);
    let out = window.finish();
    assert_eq!(out.content, "one\n");
    assert_eq!(out.truncated, Some(true));
    assert_eq!(out.range_lines, "1,1");
}

#[test]
fn start_zero_reads_from_the_first_line() {
    let result = read_text(LOREM, Some(0), Some(2), &ReadFileTool::default());
    assert_eq!(result.range_lines, "1,2");
    let expected: Vec<&str> = LOREM.lines().take(2).collect();
    assert_eq!(result.content, format!("{}\n", expected.join("\n")));
    let empty = read_text("", Some(0), None, &ReadFileTool::default());
    assert_eq!(empty.range_lines, "0,0");
    assert_eq!(empty.content, "");
}

#[test]
fn range_of_an_untruncated_full_read_agrees_with_it() {
    let tool = ReadFileTool::default();
    let full = read_text(LOREM, None, None, &tool);
    assert_eq!(full.truncated, None);
    let lines: Vec<&str> = LOREM.lines().collect();
    for (a, b) in [(1, 1), (3, 7), (9, 20), (10, 10)] {
        let part = read_text(LOREM, Some(a), Some(b), &tool);
        assert_eq!(part.truncated, None);
        let hi = b.min(lines.len());
        let expected: String = lines[a - 1..hi].iter().map(|l| format!("{l}\n")).collect();
        assert_eq!(part.content, expected);
    }
}

#[test]
fn raising_limits_only_extends_the_read() {
    let low = read_text(LOREM, None, None, &ReadFileTool { max_lines: 2, max_bytes: 150 });
    let high = read_text(LOREM, None, None, &ReadFileTool { max_lines: 5, max_bytes: 100_000 });
    assert_eq!(low.truncated, Some(true));
    assert!(high.content.starts_with(&low.content));
    let untruncated = read_text(LOREM, Some(2), Some(3), &ReadFileTool { max_lines: 2, max_bytes: 1_000 });
    let raised = read_text(LOREM, Some(2), Some(3), &ReadFileTool::default());
    assert_eq!(untruncated.truncated, None);
    assert_eq!(raised.content, untruncated.content);
    assert_eq!(raised.range_lines, untruncated.range_lines);
    assert_eq!(raised.message, untruncated.message);
    assert_eq!(raised.truncated, None);
}
