# code_assistant

The verified core of a small command-line code assistant that lets a language
model explore a codebase through two tools: one that reads a file (optionally a
range of its lines) and one that runs shell commands a checker considers safe.

`src/` holds the library, proved with Verus:

- `snip` — cuts text to a byte budget at a character boundary and appends a
  note; `utf8_text` holds the UTF-8 facts it rests on.
- `read_window` — decides, line by line, which lines of a file a read
  returns under its line range, line limit and byte limit, and what it
  reports; `read_laws` proves what a whole read returns.
- `access` — the workspace rule: only paths inside the workspace root, and
  no symbolic links.
- `shell` — which commands may run (asking the `safe_chains` checker) and
  how a command's output or failure is reported.
- `decimal` — decimal rendering of numbers used in the reports.

`app/` is the program around it: the agent loop over the `rig` crate, the
tools' schemas, file and process I/O. `tests/` exercises the library.
