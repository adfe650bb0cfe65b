//! One terminal tab: its output, its input line and cursor, its command
//! history, scrolling and line selection, and the decisions taken when a
//! command is entered.
use vstd::prelude::*;
use vstd::string::*;
use vstd::utf8::*;

use crate::offsets::{
    byte_offset, char_index, char_index_of, char_width, char_width_of, lemma_byte_offset_bounds,
    lemma_byte_offset_step, lemma_char_index, lemma_char_index_inverse,
    lemma_char_width, lemma_encode_concat, lemma_encode_injective, lemma_ends_on_boundary,
    lemma_insert_bytes, lemma_is_char_boundary,
    lemma_remove_bytes, lemma_split_bytes, on_char_boundary,
};
use crate::clock::{is_clock_time, is_local_date_time, now_displayed, now_formatted};
use crate::text::{
    chars_of, contains_text, decode_lossy, lossy_text, is_blank, lines_of, matches_at, signed_decimal_string, strip_prefix_all, trim,
    all_white_space, is_white_space, decimal, decimal_string, push_char, insert_char, remove_char, signed_decimal,
    string_views, byte_len, strip_prefix_repeated, text_lines, trim_ws, utf8_len,
};

verus! {

broadcast use {vstd::utf8::encode_utf8_valid_utf8, vstd::utf8::encode_utf8_decode_utf8};

/// A 24-bit colour.
#[derive(Clone, Copy, PartialEq, Eq, Structural, Debug)]
pub struct Rgb {
    pub r: u8,
    pub g: u8,
    pub b: u8,
}

/// Green: the echo of an entered command and a successful export.
pub open spec fn green_rgb() -> Rgb {
    Rgb { r: 152, g: 195, b: 121 }
}

/// Grey: a failed change of directory.
pub open spec fn grey_rgb() -> Rgb {
    Rgb { r: 171, g: 178, b: 191 }
}

/// Yellow: notices (the exit hint, a cancelled export, a non-zero exit code).
pub open spec fn yellow_rgb() -> Rgb {
    Rgb { r: 229, g: 192, b: 123 }
}

/// Red: errors and the standard error of a command.
pub open spec fn red_rgb() -> Rgb {
    Rgb { r: 224, g: 108, b: 117 }
}

/// Light blue: the standard output of a command.
pub open spec fn blue_rgb() -> Rgb {
    Rgb { r: 196, g: 214, b: 255 }
}

impl Rgb {
    pub fn green() -> (c: Rgb)
        ensures
            c == green_rgb(),
    {
        Rgb { r: 152, g: 195, b: 121 }
    }

    pub fn grey() -> (c: Rgb)
        ensures
            c == grey_rgb(),
    {
        Rgb { r: 171, g: 178, b: 191 }
    }

    pub fn yellow() -> (c: Rgb)
        ensures
            c == yellow_rgb(),
    {
        Rgb { r: 229, g: 192, b: 123 }
    }

    pub fn red() -> (c: Rgb)
        ensures
            c == red_rgb(),
    {
        Rgb { r: 224, g: 108, b: 117 }
    }

    pub fn blue() -> (c: Rgb)
        ensures
            c == blue_rgb(),
    {
        Rgb { r: 196, g: 214, b: 255 }
    }
}

/// One line of terminal output.
#[derive(Clone)]
pub struct OutputLine {
    pub text: String,
    pub color: Rgb,
}

/// The mathematical content of an output line.
pub struct LineView {
    pub text: Seq<char>,
    pub color: Rgb,
}

impl View for OutputLine {
    type V = LineView;

    open spec fn view(&self) -> LineView {
        LineView { text: self.text@, color: self.color }
    }
}

impl OutputLine {
    /// A copy of the line.
    pub fn duplicate(&self) -> (res: OutputLine)
        ensures
            res@ == self@,
    {
        OutputLine { text: self.text.clone(), color: self.color }
    }
}

/// The views of a sequence of output lines.
pub open spec fn lines_view(v: Seq<OutputLine>) -> Seq<LineView> {
    v.map_values(|l: OutputLine| l@)
}

/// The state of a session as mathematical values.
pub struct SessionView {
    pub output: Seq<LineView>,
    pub input: Seq<char>,
    pub cursor: nat,
    pub history: Seq<Seq<char>>,
    pub history_index: Option<usize>,
    pub current_dir: Seq<char>,
    pub title: Seq<char>,
    pub scroll: usize,
    pub visual_line: usize,
    pub selection: Option<(usize, usize)>,
    pub line_count: usize,
}

/// The UTF-8 bytes of the input line; the cursor is an offset into them.
pub open spec fn input_bytes(v: SessionView) -> Seq<u8> {
    encode_utf8(v.input)
}

/// The invariant of a session: the cursor is the byte offset at which a
/// character of the input line starts (or its end), and a recalled history
/// entry exists.
pub open spec fn session_wf(v: SessionView) -> bool {
    &&& v.cursor <= utf8_len(v.input)
    &&& on_char_boundary(v.input, v.cursor as int)
    &&& (v.history_index matches Some(i) ==> i < v.history.len())
}

/// `v` with `l` pushed onto the output, as a background job does it.
pub open spec fn pushed(v: SessionView, l: LineView) -> SessionView {
    SessionView { output: v.output.push(l), ..v }
}

/// `v` with `l` appended to the output by the session itself: the line count
/// and the visual cursor move to the end.
pub open spec fn appended(v: SessionView, l: LineView) -> SessionView {
    SessionView {
        output: v.output.push(l),
        line_count: (v.output.len() + 1) as usize,
        visual_line: (v.output.len() + 1) as usize,
        ..v
    }
}

/// `v` with its output cleared and the view reset.
pub open spec fn cleared(v: SessionView) -> SessionView {
    SessionView {
        output: Seq::empty(),
        line_count: 0,
        scroll: 0,
        selection: None,
        visual_line: 0,
        ..v
    }
}

/// `v` with an empty input line.
pub open spec fn input_reset(v: SessionView) -> SessionView {
    SessionView { input: Seq::empty(), cursor: 0, ..v }
}

/// `v` with history entry `i` recalled into the input line.
pub open spec fn recalled(v: SessionView, i: int) -> SessionView {
    SessionView {
        history_index: Some(i as usize),
        input: v.history[i],
        cursor: utf8_len(v.history[i]),
        ..v
    }
}

/// The effect of the up arrow in the input line: step back in history.
pub open spec fn history_up(v: SessionView) -> SessionView {
    if v.history.len() == 0 {
        v
    } else {
        match v.history_index {
            None => recalled(v, v.history.len() - 1),
            Some(i) => if i > 0 {
                recalled(v, i - 1)
            } else {
                v
            },
        }
    }
}

/// The effect of the down arrow in the input line: step forward in history,
/// past the newest entry to an empty line.
pub open spec fn history_down(v: SessionView) -> SessionView {
    match v.history_index {
        None => v,
        Some(i) => if i < v.history.len() - 1 {
            recalled(v, i + 1)
        } else {
            SessionView { history_index: None, ..input_reset(v) }
        },
    }
}

/// A fresh session for tab number `n`.
pub open spec fn fresh_session(n: nat) -> SessionView {
    SessionView {
        output: Seq::empty(),
        input: Seq::empty(),
        cursor: 0,
        history: Seq::empty(),
        history_index: None,
        current_dir: "C:\\"@,
        title: "Tab "@ + decimal(n),
        scroll: 0,
        visual_line: 0,
        selection: None,
        line_count: 0,
    }
}

/// The number of characters of the input line before the cursor.
pub open spec fn cursor_index(v: SessionView) -> int {
    char_index(v.input, v.cursor as int)
}

/// Typing `c` at the cursor: it goes into the input line before the
/// character at the cursor, and the cursor moves past it, by its width in
/// bytes.
pub open spec fn typed(v: SessionView, c: char) -> SessionView {
    SessionView {
        input: v.input.insert(cursor_index(v), c),
        cursor: v.cursor + char_width(c),
        ..v
    }
}

/// Typing each character of `text` in turn.
pub open spec fn typed_all(v: SessionView, text: Seq<char>) -> SessionView
    decreases text.len(),
{
    if text.len() == 0 {
        v
    } else {
        typed(typed_all(v, text.drop_last()), text.last())
    }
}

/// `text` can be typed at the cursor without exceeding the largest size of
/// a string.
pub open spec fn pastable(v: SessionView, text: Seq<char>) -> bool {
    text.len() > 0 ==> utf8_len(v.input) + 4 * text.len() + 4 <= isize::MAX
}

/// Backspace: the character before the cursor goes, and the cursor moves to
/// where it started.
pub open spec fn backspaced(v: SessionView) -> SessionView {
    let k = cursor_index(v);
    if k <= 0 {
        v
    } else {
        SessionView {
            input: v.input.remove(k - 1),
            cursor: byte_offset(v.input, k - 1),
            ..v
        }
    }
}

/// Delete: the character at the cursor goes.
pub open spec fn deleted(v: SessionView) -> SessionView {
    let k = cursor_index(v);
    if k >= v.input.len() {
        v
    } else {
        SessionView { input: v.input.remove(k), ..v }
    }
}

/// Left arrow: the cursor moves back over one character.
pub open spec fn cursor_left(v: SessionView) -> SessionView {
    let k = cursor_index(v);
    if k <= 0 {
        v
    } else {
        SessionView { cursor: byte_offset(v.input, k - 1), ..v }
    }
}

/// Right arrow: the cursor moves on over one character.
pub open spec fn cursor_right(v: SessionView) -> SessionView {
    let k = cursor_index(v);
    if k >= v.input.len() {
        v
    } else {
        SessionView { cursor: byte_offset(v.input, k + 1), ..v }
    }
}

pub open spec fn cursor_home(v: SessionView) -> SessionView {
    SessionView { cursor: 0, ..v }
}

pub open spec fn cursor_end(v: SessionView) -> SessionView {
    SessionView { cursor: utf8_len(v.input), ..v }
}

pub open spec fn visual_up(v: SessionView) -> SessionView {
    SessionView {
        visual_line: if v.visual_line > 0 {
            (v.visual_line - 1) as usize
        } else {
            0
        },
        ..v
    }
}

pub open spec fn visual_down(v: SessionView) -> SessionView {
    SessionView {
        visual_line: if v.visual_line < v.output.len() {
            (v.visual_line + 1) as usize
        } else {
            v.visual_line
        },
        ..v
    }
}

pub open spec fn scrolled_up(v: SessionView) -> SessionView {
    SessionView {
        scroll: if v.scroll < v.output.len() {
            (v.scroll + 1) as usize
        } else {
            v.scroll
        },
        ..v
    }
}

pub open spec fn scrolled_down(v: SessionView) -> SessionView {
    SessionView {
        scroll: if v.scroll > 0 {
            (v.scroll - 1) as usize
        } else {
            0
        },
        ..v
    }
}

pub open spec fn selection_started(v: SessionView) -> SessionView {
    SessionView {
        selection: if v.selection is None {
            Some((v.visual_line, 0usize))
        } else {
            v.selection
        },
        ..v
    }
}

pub open spec fn selection_cleared(v: SessionView) -> SessionView {
    SessionView { selection: None, ..v }
}

/// The lines `lo..end` of the output, each followed by a newline.
pub open spec fn joined_lines(out: Seq<LineView>, lo: int, end: int) -> Seq<char>
    decreases end - lo,
{
    if end <= lo {
        Seq::empty()
    } else {
        joined_lines(out, lo, end - 1) + out[end - 1].text.push('\n')
    }
}

pub open spec fn min_usize(a: usize, b: usize) -> usize {
    if a <= b {
        a
    } else {
        b
    }
}

pub open spec fn max_usize(a: usize, b: usize) -> usize {
    if a >= b {
        a
    } else {
        b
    }
}

/// The text of the selected lines: every line from the selection anchor to
/// the visual cursor, both included, clipped to the output.
pub open spec fn selected_text(v: SessionView) -> Option<Seq<char>> {
    match v.selection {
        None => None,
        Some(start) => {
            let lo = min_usize(start.0, v.visual_line);
            let hi = max_usize(start.0, v.visual_line);
            if lo >= v.output.len() {
                None
            } else {
                let end = if hi + 1 <= v.output.len() {
                    hi + 1
                } else {
                    v.output.len() as int
                };
                Some(joined_lines(v.output, lo as int, end))
            }
        },
    }
}

/// The echo line of an entered command.
pub open spec fn prompt_text(time: Seq<char>, cmd: Seq<char>) -> Seq<char> {
    "Started @"@ + time + " -> "@ + cmd
}

/// The hint shown for `exit`.
pub open spec fn exit_hint_text() -> Seq<char> {
    "Use Ctrl+Q to quit or Ctrl+W to close tab"@
}

/// `cmd` is a change of directory.
pub open spec fn is_cd_command(cmd: Seq<char>) -> bool {
    cmd.len() >= 3 && cmd.take(3) == "cd "@
}

/// The directory named by a change-of-directory command.
pub open spec fn cd_target(cmd: Seq<char>) -> Seq<char> {
    trim_ws(strip_prefix_repeated(cmd, "cd "@))
}

/// The text of the output lines, each followed by a newline.
pub open spec fn export_body(out: Seq<LineView>) -> Seq<char>
    decreases out.len(),
{
    if out.len() == 0 {
        Seq::empty()
    } else {
        export_body(out.drop_last()) + out.last().text.push('\n')
    }
}

/// The content of an export file written at `date`.
pub open spec fn export_text(out: Seq<LineView>, date: Seq<char>) -> Seq<char> {
    "=== Terminal Export ===\n"@ + "Date: "@ + date + "\n"@ + "=======================\n\n"@
        + export_body(out)
}

/// What the surroundings must do after a command was entered.
pub enum ActionView {
    Nothing,
    ChangeDir(Seq<char>),
    Export(Seq<char>),
    Shell(Seq<char>),
}

/// What the surroundings must do after a command was entered.
pub enum SessionAction {
    /// Nothing more.
    Nothing,
    /// Change the process's working directory to the path, then report the
    /// outcome with `finish_change_dir`.
    ChangeDir(String),
    /// Offer to save the text to a file, then report with `finish_export`.
    Export(String),
    /// Run the command line in PowerShell, then report with
    /// `record_shell_output` or `record_shell_error`.
    Shell(String),
}

impl View for SessionAction {
    type V = ActionView;

    open spec fn view(&self) -> ActionView {
        match self {
            SessionAction::Nothing => ActionView::Nothing,
            SessionAction::ChangeDir(p) => ActionView::ChangeDir(p@),
            SessionAction::Export(c) => ActionView::Export(c@),
            SessionAction::Shell(c) => ActionView::Shell(c@),
        }
    }
}

/// Entering the input line at clock time `time` (and, for `export`, date
/// `date`): the echo line, the history, the built-in commands, and what is
/// left to do outside.
pub open spec fn command_step(v: SessionView, time: Seq<char>, date: Seq<char>) -> (
    SessionView,
    ActionView,
) {
    let cmd = trim_ws(v.input);
    let v1 = appended(v, LineView { text: prompt_text(time, cmd), color: green_rgb() });
    if cmd.len() == 0 {
        (input_reset(v1), ActionView::Nothing)
    } else {
        let v2 = SessionView {
            scroll: 0,
            selection: None,
            history: v1.history.push(cmd),
            history_index: None,
            ..v1
        };
        if is_cd_command(cmd) {
            (input_reset(v2), ActionView::ChangeDir(cd_target(cmd)))
        } else if cmd == "clear"@ || cmd == "cls"@ {
            (input_reset(cleared(v2)), ActionView::Nothing)
        } else if cmd == "exit"@ {
            (
                input_reset(appended(v2, LineView { text: exit_hint_text(), color: yellow_rgb() })),
                ActionView::Nothing,
            )
        } else if cmd == "export"@ {
            (input_reset(v2), ActionView::Export(export_text(v2.output, date)))
        } else {
            (input_reset(v2), ActionView::Shell(cmd))
        }
    }
}

/// How an export ended.
pub enum ExportOutcome {
    /// Written; the text is the path as `{:?}` renders it.
    Saved(String),
    /// Writing failed with this message.
    Failed(String),
    /// The dialog was dismissed.
    Cancelled,
}

/// The line that reports an export.
pub open spec fn export_report(o: ExportOutcome) -> LineView {
    match o {
        ExportOutcome::Saved(p) => LineView {
            text: "Successfully exported to "@ + p@,
            color: green_rgb(),
        },
        ExportOutcome::Failed(e) => LineView { text: "Failed to export: "@ + e@, color: red_rgb() },
        ExportOutcome::Cancelled => LineView { text: "Export cancelled."@, color: yellow_rgb() },
    }
}

/// The lines of a command's standard output.
pub open spec fn stdout_lines(ls: Seq<Seq<char>>) -> Seq<LineView>
    decreases ls.len(),
{
    if ls.len() == 0 {
        Seq::empty()
    } else {
        stdout_lines(ls.drop_last()).push(LineView { text: ls.last(), color: blue_rgb() })
    }
}

/// The non-blank lines of a command's standard error.
pub open spec fn stderr_lines(ls: Seq<Seq<char>>) -> Seq<LineView>
    decreases ls.len(),
{
    if ls.len() == 0 {
        Seq::empty()
    } else if all_white_space(ls.last()) {
        stderr_lines(ls.drop_last())
    } else {
        stderr_lines(ls.drop_last()).push(LineView { text: ls.last(), color: red_rgb() })
    }
}

/// The line that reports a non-zero exit code, if any.
pub open spec fn exit_code_lines(code: Option<i32>) -> Seq<LineView> {
    match code {
        Some(c) => if c != 0 {
            seq![
                LineView {
                    text: "[Exit code: "@ + signed_decimal(c as int) + "]"@,
                    color: yellow_rgb(),
                },
            ]
        } else {
            Seq::empty()
        },
        None => Seq::empty(),
    }
}

/// The most output lines a command's result leaves behind.
pub open spec fn output_cap() -> nat {
    1000
}

/// The output after a finished command's result: its output lines, its
/// non-blank error lines, its exit code when not zero, then only the last
/// thousand lines kept.
pub open spec fn shell_step(
    v: SessionView,
    out: Seq<char>,
    err: Seq<char>,
    code: Option<i32>,
) -> SessionView {
    let all = v.output + stdout_lines(text_lines(out)) + stderr_lines(text_lines(err))
        + exit_code_lines(code);
    SessionView {
        output: if all.len() > output_cap() {
            all.skip(all.len() - output_cap())
        } else {
            all
        },
        ..v
    }
}

/// The effect of reporting a change of directory.
pub open spec fn dir_changed(v: SessionView, outcome: Result<Option<String>, String>) -> SessionView {
    match outcome {
        Ok(Some(d)) => SessionView { current_dir: d@, ..v },
        Ok(None) => v,
        Err(e) => appended(v, LineView { text: "Error: "@ + e@, color: grey_rgb() }),
    }
}

/// The result of work done in the background for a session.
pub enum BackgroundResult {
    /// A command ran; its raw output, error output and exit code.
    ShellOutput { stdout: Vec<u8>, stderr: Vec<u8>, exit_code: Option<i32> },
    /// A command could not be started.
    ShellFailed(String),
    /// An export ended.
    Export(ExportOutcome),
}

/// The lossy decoding of a result's output and error bytes is their exact
/// text wherever those bytes are valid UTF-8.
pub open spec fn decodes(r: BackgroundResult) -> bool {
    match r {
        BackgroundResult::ShellOutput { stdout, stderr, exit_code } => {
            &&& valid_utf8(stdout@) ==> lossy_text(stdout@) == decode_utf8(stdout@)
            &&& valid_utf8(stderr@) ==> lossy_text(stderr@) == decode_utf8(stderr@)
        },
        _ => true,
    }
}

/// The effect of a background result; command output is decoded lossily.
pub open spec fn background_effect(v: SessionView, r: BackgroundResult) -> SessionView {
    match r {
        BackgroundResult::ShellOutput { stdout, stderr, exit_code } => shell_step(
            v,
            lossy_text(stdout@),
            lossy_text(stderr@),
            exit_code,
        ),
        BackgroundResult::ShellFailed(m) => pushed(
            v,
            LineView { text: "Error: "@ + m@, color: red_rgb() },
        ),
        BackgroundResult::Export(o) => pushed(v, export_report(o)),
    }
}

/// How a line in the terminal view is highlighted.
#[derive(Clone, Copy, PartialEq, Eq, Structural, Debug)]
pub enum LineHighlight {
    Plain,
    Selected,
    Cursor,
}

/// A visible output line.
pub struct ViewLine {
    pub text: String,
    pub color: Rgb,
    pub highlight: LineHighlight,
}

/// The first output line that the viewport shows.
pub open spec fn view_start(v: SessionView, height: usize) -> int {
    if v.output.len() >= height + v.scroll {
        v.output.len() - height - v.scroll
    } else {
        0
    }
}

/// One past the last output line that the viewport shows.
pub open spec fn view_end(v: SessionView) -> int {
    if v.output.len() >= v.scroll {
        v.output.len() - v.scroll
    } else {
        0
    }
}

/// The highlight of output line `i`.
pub open spec fn highlight_of(v: SessionView, i: int, insert_mode: bool) -> LineHighlight {
    match v.selection {
        Some(start) => if min_usize(start.0, v.visual_line) <= i <= max_usize(
            start.0,
            v.visual_line,
        ) {
            LineHighlight::Selected
        } else {
            LineHighlight::Plain
        },
        None => if !insert_mode && i == v.visual_line {
            LineHighlight::Cursor
        } else {
            LineHighlight::Plain
        },
    }
}

/// The visible lines, in order, match output lines `start..end`.
pub open spec fn shows_lines(
    v: SessionView,
    lines: Seq<ViewLine>,
    start: int,
    end: int,
    insert_mode: bool,
) -> bool {
    &&& lines.len() == if end > start {
        end - start
    } else {
        0
    }
    &&& forall|k: int|
        0 <= k < lines.len() ==> {
            &&& (#[trigger] lines[k]).text@ == v.output[start + k].text
            &&& lines[k].color == v.output[start + k].color
            &&& lines[k].highlight == highlight_of(v, start + k, insert_mode)
        }
}

/// One terminal tab.
pub struct TerminalSession {
    output: Vec<OutputLine>,
    pub input_buffer: String,
    pub cursor_pos: usize,
    command_history: Vec<String>,
    history_index: Option<usize>,
    current_dir: String,
    pub title: String,
    pub scroll_offset: usize,
    pub visual_cursor_line: usize,
    pub selection_start: Option<(usize, usize)>,
    pub output_line_count: usize,
}

impl View for TerminalSession {
    type V = SessionView;

    closed spec fn view(&self) -> SessionView {
        SessionView {
            output: lines_view(self.output@),
            input: self.input_buffer@,
            cursor: self.cursor_pos as nat,
            history: string_views(self.command_history@),
            history_index: self.history_index,
            current_dir: self.current_dir@,
            title: self.title@,
            scroll: self.scroll_offset,
            visual_line: self.visual_cursor_line,
            selection: self.selection_start,
            line_count: self.output_line_count,
        }
    }
}

/// Removing the character that starts at the start of character `k` of `s`
/// (as `String::remove` reports it) leaves `s` without character `k`.
proof fn lemma_removed_char(s: Seq<char>, k: int, c: char, rest: Seq<char>)
    requires
        0 <= k < s.len(),
        byte_offset(s, k) + char_width(c) <= utf8_len(s),
        encode_utf8(s).skip(byte_offset(s, k) as int).take(char_width(c) as int) == encode_utf8(
            seq![c],
        ),
        encode_utf8(rest) == encode_utf8(s).take(byte_offset(s, k) as int) + encode_utf8(s).skip(
            (byte_offset(s, k) + char_width(c)) as int,
        ),
    ensures
        rest == s.remove(k),
        char_width(c) == char_width(s[k]),
{
    let b = encode_utf8(s).skip(byte_offset(s, k) as int);
    let tail = seq![s[k]] + s.skip(k + 1);
    lemma_remove_bytes(s, k);
    lemma_encode_concat(seq![s[k]], s.skip(k + 1));
    assert(tail[0] == s[k]);
    encode_utf8_first_scalar(tail);
    encode_utf8_first_scalar(seq![c]);
    lemma_char_width(c);
    lemma_char_width(s[k]);
    assert(seq![c][0] == c);
    assert(b[0] == encode_utf8(seq![c])[0]);
    lemma_byte_offset_step(s, k);
    lemma_encode_injective(rest, s.remove(k));
}

/// Typing keeps a session well formed; the input grows by the character's
/// width and the cursor moves past the typed character.
pub proof fn lemma_typed_wf(v: SessionView, c: char)
    requires
        session_wf(v),
    ensures
        session_wf(typed(v, c)),
        utf8_len(typed(v, c).input) == utf8_len(v.input) + char_width(c),
        cursor_index(typed(v, c)) == cursor_index(v) + 1,
        1 <= char_width(c) <= 4,
{
    let s = v.input;
    let k = cursor_index(v);
    lemma_char_index_inverse(s, v.cursor as int);
    lemma_insert_bytes(s, k, c);
    lemma_split_bytes(s, k);
    lemma_char_width(c);
    let t = s.insert(k, c);
    lemma_char_index(t, k + 1);
    lemma_byte_offset_bounds(t, k + 1);
}

impl TerminalSession {
    /// The invariant of a session.
    pub open spec fn wf(&self) -> bool {
        session_wf(self@)
    }

    /// A fresh session titled `Tab <n>` whose directory is `C:\`.
    pub fn new(tab_number: usize) -> (s: TerminalSession)
        ensures
            s.wf(),
            s@ == fresh_session(tab_number as nat),
    {
        let mut title = String::from_str("Tab ");
        let n = decimal_string(tab_number as u64);
        title.append(n.as_str());
        let s = TerminalSession {
            output: Vec::new(),
            input_buffer: String::new(),
            cursor_pos: 0,
            command_history: Vec::new(),
            history_index: None,
            current_dir: String::from_str("C:\\"),
            title,
            scroll_offset: 0,
            visual_cursor_line: 0,
            selection_start: None,
            output_line_count: 0,
        };
        assert(s@.output =~= Seq::<LineView>::empty());
        assert(s@.history =~= Seq::<Seq<char>>::empty());
        assert(utf8_len(s@.input) == 0) by {
            assert(s@.input =~= Seq::<char>::empty());
        }
        proof {
            lemma_ends_on_boundary(s@.input);
        }
        s
    }

    /// Appends a line as the session's own output: the line count and the
    /// visual cursor move to the end.
    fn append_output(&mut self, line: OutputLine)
        ensures
            final(self)@ == appended(old(self)@, line@),
    {
        self.output.push(line);
        self.output_line_count = self.output.len();
        self.visual_cursor_line = self.output_line_count;
        assert(self@.output =~= old(self)@.output.push(line@));
    }

    /// Appends a line as a background job does: nothing else changes.
    fn push_output(&mut self, line: OutputLine)
        ensures
            final(self)@ == pushed(old(self)@, line@),
    {
        self.output.push(line);
        assert(self@.output =~= old(self)@.output.push(line@));
    }

    /// Empties the output and resets scrolling, selection and the visual
    /// cursor.
    pub fn clear_output(&mut self)
        requires
            old(self).wf(),
        ensures
            final(self).wf(),
            final(self)@ == cleared(old(self)@),
    {
        self.output.clear();
        self.output_line_count = 0;
        self.scroll_offset = 0;
        self.selection_start = None;
        self.visual_cursor_line = 0;
        assert(self@.output =~= Seq::<LineView>::empty());
    }

    /// The characters of the input line and the number of them before the
    /// cursor.
    fn cursor_chars(&self) -> (res: (Vec<char>, usize))
        requires
            self.wf(),
        ensures
            res.0@ == self@.input,
            res.1 == cursor_index(self@),
            0 <= cursor_index(self@) <= self@.input.len(),
            byte_offset(self@.input, cursor_index(self@)) == self@.cursor,
    {
        let chars = chars_of(self.input_buffer.as_str());
        proof {
            lemma_char_index_inverse(self@.input, self@.cursor as int);
        }
        let k = char_index_of(&chars, self.cursor_pos);
        (chars, k)
    }

    /// Types `c` at the cursor and moves the cursor past it.
    pub fn handle_char(&mut self, c: char)
        requires
            old(self).wf(),
            utf8_len(old(self)@.input) + 4 <= isize::MAX,
        ensures
            final(self).wf(),
            final(self)@ == typed(old(self)@, c),
            utf8_len(final(self)@.input) == utf8_len(old(self)@.input) + char_width(c),
    {
        let ghost v = self@;
        let ghost s = self@.input;
        let ghost k = cursor_index(self@);
        proof {
            lemma_char_index_inverse(s, v.cursor as int);
            lemma_is_char_boundary(s, k);
            lemma_insert_bytes(s, k, c);
            lemma_typed_wf(v, c);
        }
        insert_char(&mut self.input_buffer, self.cursor_pos, c);
        let w = char_width_of(c);
        proof {
            lemma_encode_injective(self.input_buffer@, s.insert(k, c));
        }
        self.cursor_pos = self.cursor_pos + w;
    }

    /// Deletes the character before the cursor, if any, and moves the cursor
    /// to where it started.
    pub fn handle_backspace(&mut self)
        requires
            old(self).wf(),
        ensures
            final(self).wf(),
            final(self)@ == backspaced(old(self)@),
    {
        let ghost v = self@;
        let ghost s = self@.input;
        proof {
            lemma_ends_on_boundary(s);
        }
        if self.cursor_pos > 0 {
            let (chars, k) = self.cursor_chars();
            proof {
                lemma_byte_offset_bounds(s, 0);
                lemma_byte_offset_step(s, k - 1);
                lemma_is_char_boundary(s, k - 1);
                lemma_byte_offset_bounds(s, k as int);
            }
            let w = char_width_of(chars[k - 1]);
            let idx = self.cursor_pos - w;
            let c = remove_char(&mut self.input_buffer, idx);
            proof {
                lemma_removed_char(s, k - 1, c, self.input_buffer@);
                lemma_remove_bytes(s, k - 1);
                lemma_char_index(s.remove(k - 1), k - 1);
                lemma_byte_offset_bounds(s.remove(k - 1), k - 1);
            }
            self.cursor_pos = idx;
        }
    }

    /// Deletes the character at the cursor, if any.
    pub fn handle_delete(&mut self)
        requires
            old(self).wf(),
        ensures
            final(self).wf(),
            final(self)@ == deleted(old(self)@),
    {
        let ghost v = self@;
        let ghost s = self@.input;
        proof {
            lemma_ends_on_boundary(s);
        }
        if self.cursor_pos < byte_len(&self.input_buffer) {
            let ghost k = cursor_index(v);
            proof {
                lemma_char_index_inverse(s, v.cursor as int);
                lemma_is_char_boundary(s, k);
                lemma_byte_offset_bounds(s, k);
            }
            let c = remove_char(&mut self.input_buffer, self.cursor_pos);
            proof {
                lemma_removed_char(s, k, c, self.input_buffer@);
                lemma_remove_bytes(s, k);
                lemma_char_index(s.remove(k), k);
                lemma_byte_offset_bounds(s.remove(k), k);
            }
        }
    }

    /// Moves the cursor back over one character, if it can.
    pub fn handle_left(&mut self)
        requires
            old(self).wf(),
        ensures
            final(self).wf(),
            final(self)@ == cursor_left(old(self)@),
    {
        let ghost s = self@.input;
        proof {
            lemma_ends_on_boundary(s);
        }
        if self.cursor_pos > 0 {
            let (chars, k) = self.cursor_chars();
            proof {
                lemma_byte_offset_bounds(s, 0);
                lemma_byte_offset_step(s, k - 1);
                lemma_char_index(s, k - 1);
                lemma_byte_offset_bounds(s, k - 1);
            }
            let w = char_width_of(chars[k - 1]);
            self.cursor_pos = self.cursor_pos - w;
        }
    }

    /// Moves the cursor on over one character, if it can.
    pub fn handle_right(&mut self)
        requires
            old(self).wf(),
        ensures
            final(self).wf(),
            final(self)@ == cursor_right(old(self)@),
    {
        let ghost s = self@.input;
        proof {
            lemma_ends_on_boundary(s);
        }
        if self.cursor_pos < byte_len(&self.input_buffer) {
            let (chars, k) = self.cursor_chars();
            proof {
                lemma_byte_offset_step(s, k as int);
                lemma_char_index(s, k + 1);
                lemma_byte_offset_bounds(s, k + 1);
            }
            let w = char_width_of(chars[k]);
            self.cursor_pos = self.cursor_pos + w;
        }
    }

    /// Moves the cursor to the start of the input line.
    pub fn move_home(&mut self)
        requires
            old(self).wf(),
        ensures
            final(self).wf(),
            final(self)@ == cursor_home(old(self)@),
    {
        proof {
            lemma_ends_on_boundary(self@.input);
        }
        self.cursor_pos = 0;
    }

    /// Moves the cursor to the end of the input line.
    pub fn move_end(&mut self)
        requires
            old(self).wf(),
        ensures
            final(self).wf(),
            final(self)@ == cursor_end(old(self)@),
    {
        proof {
            lemma_ends_on_boundary(self@.input);
        }
        self.cursor_pos = byte_len(&self.input_buffer);
    }

    /// Moves the visual cursor one line up, if it can.
    pub fn move_visual_up(&mut self)
        requires
            old(self).wf(),
        ensures
            final(self).wf(),
            final(self)@ == visual_up(old(self)@),
    {
        if self.visual_cursor_line > 0 {
            self.visual_cursor_line -= 1;
        }
    }

    /// Moves the visual cursor one line down, at most to one past the last
    /// output line.
    pub fn move_visual_down(&mut self)
        requires
            old(self).wf(),
        ensures
            final(self).wf(),
            final(self)@ == visual_down(old(self)@),
    {
        let max_lines = self.get_output_len();
        if self.visual_cursor_line < max_lines {
            self.visual_cursor_line += 1;
        }
    }

    /// Scrolls one line towards older output, at most by the output's length.
    pub fn scroll_up(&mut self)
        requires
            old(self).wf(),
        ensures
            final(self).wf(),
            final(self)@ == scrolled_up(old(self)@),
    {
        let max_len = self.get_output_len();
        if self.scroll_offset < max_len {
            self.scroll_offset += 1;
        }
    }

    /// Scrolls one line towards newer output, if it can.
    pub fn scroll_down(&mut self)
        requires
            old(self).wf(),
        ensures
            final(self).wf(),
            final(self)@ == scrolled_down(old(self)@),
    {
        if self.scroll_offset > 0 {
            self.scroll_offset -= 1;
        }
    }

    /// Anchors a selection at the visual cursor's line, unless one exists.
    pub fn start_selection(&mut self)
        requires
            old(self).wf(),
        ensures
            final(self).wf(),
            final(self)@ == selection_started(old(self)@),
    {
        if self.selection_start.is_none() {
            self.selection_start = Some((self.visual_cursor_line, 0));
        }
    }

    /// Types each character of `text` in turn, as a paste does.
    pub fn type_text(&mut self, text: &str)
        requires
            old(self).wf(),
            pastable(old(self)@, text@),
        ensures
            final(self).wf(),
            final(self)@ == typed_all(old(self)@, text@),
    {
        let chars = chars_of(text);
        let n = chars.len();
        let mut i: usize = 0;
        assert(chars@.take(0) =~= Seq::<char>::empty());
        while i < n
            invariant
                i <= n == chars@.len(),
                chars@ == text@,
                self.wf(),
                pastable(old(self)@, text@),
                self@ == typed_all(old(self)@, chars@.take(i as int)),
                utf8_len(self@.input) <= utf8_len(old(self)@.input) + 4 * i,
            decreases n - i,
        {
            let c = chars[i];
            proof {
                lemma_char_width(c);
                assert(chars@.take(i + 1).drop_last() =~= chars@.take(i as int));
                assert(chars@.take(i + 1).last() == c);
            }
            self.handle_char(c);
            i += 1;
        }
        assert(chars@.take(n as int) =~= chars@);
    }

    /// The tab's title.
    pub fn title_text(&self) -> (t: String)
        ensures
            t@ == self@.title,
    {
        self.title.clone()
    }

    /// The length of the tab's title in bytes.
    pub fn title_byte_len(&self) -> (n: usize)
        ensures
            n == utf8_len(self@.title),
    {
        byte_len(&self.title)
    }

    /// The cursor's byte offset in the input line.
    pub fn cursor_position(&self) -> (c: usize)
        ensures
            c == self@.cursor,
    {
        self.cursor_pos
    }

    /// The length of the input line in bytes.
    pub fn input_byte_len(&self) -> (n: usize)
        ensures
            n == utf8_len(self@.input),
    {
        byte_len(&self.input_buffer)
    }

    /// Renames the tab.
    pub fn set_title(&mut self, title: String)
        requires
            old(self).wf(),
        ensures
            final(self).wf(),
            final(self)@ == (SessionView { title: title@, ..old(self)@ }),
    {
        self.title = title;
    }

    /// Drops the selection.
    pub fn clear_selection(&mut self)
        requires
            old(self).wf(),
        ensures
            final(self).wf(),
            final(self)@ == selection_cleared(old(self)@),
    {
        self.selection_start = None;
    }

    /// The selected lines joined, each followed by a newline, or `None` when
    /// nothing is selected or the selection starts past the output.
    pub fn get_selected_text(&self) -> (res: Option<String>)
        ensures
            match res {
                None => selected_text(self@) is None,
                Some(t) => selected_text(self@) == Some(t@),
            },
    {
        let start = match self.selection_start {
            Some(s) => s,
            None => return None,
        };
        let end_line = self.visual_cursor_line;
        let min = if start.0 <= end_line {
            start.0
        } else {
            end_line
        };
        let max = if start.0 >= end_line {
            start.0
        } else {
            end_line
        };
        let len = self.output.len();
        if min >= len {
            return None;
        }
        let effective_max = if max < len {
            max + 1
        } else {
            len
        };
        let mut text = String::new();
        let mut i = min;
        while i < effective_max
            invariant
                min <= i <= effective_max <= len == self.output@.len(),
                text@ == joined_lines(self@.output, min as int, i as int),
            decreases effective_max - i,
        {
            let line = &self.output[i];
            text.append(line.text.as_str());
            push_char(&mut text, '\n');
            i += 1;
        }
        Some(text)
    }

    /// Recalls the previous history entry into the input line.
    pub fn handle_up(&mut self)
        requires
            old(self).wf(),
        ensures
            final(self).wf(),
            final(self)@ == history_up(old(self)@),
    {
        if self.command_history.len() == 0 {
            return;
        }
        match self.history_index {
            None => {
                let last = self.command_history.len() - 1;
                self.history_index = Some(last);
                self.input_buffer = self.command_history[last].clone();
                self.cursor_pos = byte_len(&self.input_buffer);
                proof {
                    lemma_ends_on_boundary(self@.input);
                }
            },
            Some(idx) => {
                if idx > 0 {
                    self.history_index = Some(idx - 1);
                    self.input_buffer = self.command_history[idx - 1].clone();
                    self.cursor_pos = byte_len(&self.input_buffer);
                    proof {
                        lemma_ends_on_boundary(self@.input);
                    }
                }
            },
        }
    }

    /// Recalls the next history entry, or leaves history with an empty line.
    pub fn handle_down(&mut self)
        requires
            old(self).wf(),
        ensures
            final(self).wf(),
            final(self)@ == history_down(old(self)@),
    {
        if let Some(idx) = self.history_index {
            if idx < self.command_history.len() - 1 {
                self.history_index = Some(idx + 1);
                self.input_buffer = self.command_history[idx + 1].clone();
                self.cursor_pos = byte_len(&self.input_buffer);
                proof {
                    lemma_ends_on_boundary(self@.input);
                }
            } else {
                self.history_index = None;
                self.input_buffer = String::new();
                self.cursor_pos = 0;
                assert(utf8_len(self@.input) == 0) by {
                    assert(self@.input =~= Seq::<char>::empty());
                }
                proof {
                    lemma_ends_on_boundary(self@.input);
                }
            }
        }
    }

    /// A copy of the output.
    pub fn get_output(&self) -> (res: Vec<OutputLine>)
        ensures
            lines_view(res@) == self@.output,
    {
        let mut res: Vec<OutputLine> = Vec::new();
        let mut i: usize = 0;
        while i < self.output.len()
            invariant
                i <= self.output@.len(),
                res@.len() == i,
                lines_view(res@) == self@.output.take(i as int),
            decreases self.output.len() - i,
        {
            let line = self.output[i].duplicate();
            let ghost prev = res@;
            res.push(line);
            assert(lines_view(res@) =~= self@.output.take(i + 1)) by {
                assert forall|k: int| 0 <= k < i + 1 implies lines_view(res@)[k] == self@.output.take(
                    i + 1,
                )[k] by {
                    if k < i {
                        assert(lines_view(prev)[k] == self@.output.take(i as int)[k]);
                        assert(res@[k] == prev[k]);
                    } else {
                        assert(self@.output[i as int] == self.output@[i as int]@);
                    }
                }
            }
            i += 1;
        }
        assert(self@.output.take(self.output.len() as int) =~= self@.output);
        res
    }

    /// The number of output lines.
    pub fn get_output_len(&self) -> (n: usize)
        ensures
            n == self@.output.len(),
    {
        self.output.len()
    }

    /// The session's working directory.
    pub fn get_current_dir(&self) -> (d: &str)
        ensures
            d@ == self@.current_dir,
    {
        self.current_dir.as_str()
    }

    /// The text of an export written at `date`.
    fn export_content(&self, date: &str) -> (res: String)
        ensures
            res@ == export_text(self@.output, date@),
    {
        let mut res = String::from_str("=== Terminal Export ===\n");
        res.append("Date: ");
        res.append(date);
        res.append("\n");
        res.append("=======================\n\n");
        let ghost head = res@;
        let mut i: usize = 0;
        while i < self.output.len()
            invariant
                i <= self.output@.len(),
                res@ == head + export_body(self@.output.take(i as int)),
            decreases self.output.len() - i,
        {
            proof {
                let t = self@.output.take(i + 1);
                assert(t.drop_last() =~= self@.output.take(i as int));
                assert(t.last() == self.output@[i as int]@);
            }
            res.append(self.output[i].text.as_str());
            push_char(&mut res, '\n');
            i += 1;
        }
        assert(self@.output.take(self.output.len() as int) =~= self@.output);
        res
    }

    /// Enters the input line: echoes it with the clock time, records it in
    /// history, runs the built-in commands (`cd`, `clear`/`cls`, `exit`,
    /// `export`) as far as they stay inside the session, and says what is left
    /// to do outside. The clock's reading is unknown here; the time has the
    /// shape `HH:MM:SS`, and the date an export shows is a local date and time
    /// as chrono displays it.
    pub fn execute_command(&mut self) -> (action: SessionAction)
        requires
            old(self).wf(),
        ensures
            final(self).wf(),
            exists|time: Seq<char>, date: Seq<char>|
                {
                    &&& is_clock_time(time)
                    &&& (action@ is Export ==> is_local_date_time(date))
                    &&& #[trigger] command_step(old(self)@, time, date) == (final(self)@, action@)
                },
    {
        let ghost v0 = self@;
        proof {
            lemma_ends_on_boundary(Seq::<char>::empty());
        }
        let cmd = trim(self.input_buffer.as_str());
        let time = now_formatted("%H:%M:%S");
        let mut prompt = String::from_str("Started @");
        prompt.append(time.as_str());
        prompt.append(" -> ");
        prompt.append(cmd.as_str());
        self.append_output(OutputLine { text: prompt, color: Rgb::green() });
        let ghost v1 = self@;
        assert(v1 == appended(v0, LineView { text: prompt_text(time@, cmd@), color: green_rgb() }));
        if cmd.as_str().is_empty() {
            self.input_buffer = String::new();
            self.cursor_pos = 0;
            proof {
                assert(self@.input =~= Seq::<char>::empty());
                assert(command_step(v0, time@, Seq::empty()) == (self@, SessionAction::Nothing@));
            }
            return SessionAction::Nothing;
        }
        self.scroll_offset = 0;
        self.selection_start = None;
        self.command_history.push(cmd.clone());
        self.history_index = None;
        let ghost v2 = self@;
        assert(v2.history =~= v1.history.push(cmd@));
        assert(v2 == SessionView {
            scroll: 0,
            selection: None,
            history: v1.history.push(cmd@),
            history_index: None,
            ..v1
        });
        let ghost mut date_seen: Seq<char> = Seq::empty();
        let cmd_chars = chars_of(cmd.as_str());
        let cd_chars = chars_of("cd ");
        proof {
            reveal_strlit("cd ");
        }
        let is_cd = cd_chars.len() <= cmd_chars.len() && matches_at(&cmd_chars, 0, &cd_chars);
        assert(is_cd == is_cd_command(cmd@)) by {
            if cd_chars.len() <= cmd_chars.len() {
                assert(cmd_chars@.subrange(0, 3) =~= cmd@.take(3));
            }
        }
        let action = if is_cd {
            let stripped = strip_prefix_all(cmd.as_str(), "cd ");
            let target = trim(stripped.as_str());
            SessionAction::ChangeDir(target)
        } else if cmd == String::from_str("clear") || cmd == String::from_str("cls") {
            self.clear_output();
            SessionAction::Nothing
        } else if cmd == String::from_str("exit") {
            let hint = String::from_str("Use Ctrl+Q to quit or Ctrl+W to close tab");
            self.append_output(OutputLine { text: hint, color: Rgb::yellow() });
            SessionAction::Nothing
        } else if cmd == String::from_str("export") {
            let date = now_displayed();
            proof {
                date_seen = date@;
            }
            let content = self.export_content(date.as_str());
            SessionAction::Export(content)
        } else {
            SessionAction::Shell(cmd)
        };
        self.input_buffer = String::new();
        self.cursor_pos = 0;
        proof {
            assert(self@.input =~= Seq::<char>::empty());
            assert(command_step(v0, time@, date_seen) == (self@, action@));
        }
        action
    }

    /// Reports the outcome of a change of directory: the new directory when
    /// known, nothing when the directory could not be read back, or the error.
    pub fn finish_change_dir(&mut self, outcome: Result<Option<String>, String>)
        requires
            old(self).wf(),
        ensures
            final(self).wf(),
            final(self)@ == dir_changed(old(self)@, outcome),
    {
        match outcome {
            Ok(Some(d)) => {
                self.current_dir = d;
            },
            Ok(None) => {},
            Err(e) => {
                let mut text = String::from_str("Error: ");
                text.append(e.as_str());
                self.append_output(OutputLine { text, color: Rgb::grey() });
            },
        }
    }

    /// Reports how an export ended.
    pub fn finish_export(&mut self, outcome: ExportOutcome)
        requires
            old(self).wf(),
        ensures
            final(self).wf(),
            final(self)@ == pushed(old(self)@, export_report(outcome)),
    {
        let line = match outcome {
            ExportOutcome::Saved(p) => {
                let mut text = String::from_str("Successfully exported to ");
                text.append(p.as_str());
                OutputLine { text, color: Rgb::green() }
            },
            ExportOutcome::Failed(e) => {
                let mut text = String::from_str("Failed to export: ");
                text.append(e.as_str());
                OutputLine { text, color: Rgb::red() }
            },
            ExportOutcome::Cancelled => OutputLine {
                text: String::from_str("Export cancelled."),
                color: Rgb::yellow(),
            },
        };
        self.push_output(line);
    }

    /// Reports that a command could not be started.
    pub fn record_shell_error(&mut self, message: &str)
        requires
            old(self).wf(),
        ensures
            final(self).wf(),
            final(self)@ == pushed(
                old(self)@,
                LineView { text: "Error: "@ + message@, color: red_rgb() },
            ),
    {
        let mut text = String::from_str("Error: ");
        text.append(message);
        self.push_output(OutputLine { text, color: Rgb::red() });
    }

    /// Reports a finished command from its decoded output and error text and
    /// its exit code.
    pub fn record_shell_text(&mut self, stdout: &str, stderr: &str, exit_code: Option<i32>)
        requires
            old(self).wf(),
        ensures
            final(self).wf(),
            final(self)@ == shell_step(old(self)@, stdout@, stderr@, exit_code),
    {
        let ghost v0 = self@;
        let out_lines = lines_of(stdout);
        let ghost ls = string_views(out_lines@);
        let mut i: usize = 0;
        assert(ls.take(0) =~= Seq::<Seq<char>>::empty());
        assert(v0.output + stdout_lines(ls.take(0)) =~= v0.output);
        while i < out_lines.len()
            invariant
                i <= out_lines@.len(),
                ls == string_views(out_lines@),
                self@ == (SessionView { output: v0.output + stdout_lines(ls.take(i as int)), ..v0 }),
            decreases out_lines.len() - i,
        {
            let text = out_lines[i].clone();
            self.push_output(OutputLine { text, color: Rgb::blue() });
            proof {
                assert(ls.take(i + 1).drop_last() =~= ls.take(i as int));
                assert(ls.take(i + 1).last() == out_lines@[i as int]@);
                assert(self@.output =~= v0.output + stdout_lines(ls.take(i + 1)));
            }
            i += 1;
        }
        assert(ls.take(out_lines.len() as int) =~= ls);
        let ghost base = self@.output;
        let err_lines = lines_of(stderr);
        let ghost es = string_views(err_lines@);
        let mut j: usize = 0;
        assert(es.take(0) =~= Seq::<Seq<char>>::empty());
        assert(base + stderr_lines(es.take(0)) =~= base);
        while j < err_lines.len()
            invariant
                j <= err_lines@.len(),
                es == string_views(err_lines@),
                self@ == (SessionView { output: base + stderr_lines(es.take(j as int)), ..v0 }),
            decreases err_lines.len() - j,
        {
            proof {
                assert(es.take(j + 1).drop_last() =~= es.take(j as int));
                assert(es.take(j + 1).last() == err_lines@[j as int]@);
            }
            if !is_blank(err_lines[j].as_str()) {
                let text = err_lines[j].clone();
                self.push_output(OutputLine { text, color: Rgb::red() });
                assert(self@.output =~= base + stderr_lines(es.take(j + 1)));
            }
            j += 1;
        }
        assert(es.take(err_lines.len() as int) =~= es);
        let ghost base2 = self@.output;
        if let Some(code) = exit_code {
            if code != 0 {
                let mut text = String::from_str("[Exit code: ");
                let digits = signed_decimal_string(code as i64);
                text.append(digits.as_str());
                text.append("]");
                self.push_output(OutputLine { text, color: Rgb::yellow() });
                assert(self@.output =~= base2 + exit_code_lines(exit_code));
            }
        }
        assert(self@.output =~= base2 + exit_code_lines(exit_code));
        let ghost all = self@.output;
        assert(all =~= v0.output + stdout_lines(text_lines(stdout@)) + stderr_lines(
            text_lines(stderr@),
        ) + exit_code_lines(exit_code));
        let len = self.output.len();
        if len > 1000 {
            let kept = self.output.split_off(len - 1000);
            self.output = kept;
            assert(self@.output =~= all.skip(all.len() - 1000)) by {
                assert(lines_view(kept@) =~= all.skip(all.len() - 1000));
            }
        }
    }

    /// Reports a finished command from its raw output and error bytes, decoded
    /// lossily (`lossy_text`, which is exact on valid UTF-8), and its exit
    /// code.
    pub fn record_shell_output(&mut self, stdout: &[u8], stderr: &[u8], exit_code: Option<i32>)
        requires
            old(self).wf(),
        ensures
            final(self).wf(),
            final(self)@ == shell_step(
                old(self)@,
                lossy_text(stdout@),
                lossy_text(stderr@),
                exit_code,
            ),
            valid_utf8(stdout@) ==> lossy_text(stdout@) == decode_utf8(stdout@),
            valid_utf8(stderr@) ==> lossy_text(stderr@) == decode_utf8(stderr@),
    {
        let out = decode_lossy(stdout);
        let err = decode_lossy(stderr);
        self.record_shell_text(out.as_str(), err.as_str(), exit_code);
    }

    /// Applies a background result.
    pub fn apply_background(&mut self, result: BackgroundResult)
        requires
            old(self).wf(),
        ensures
            final(self).wf(),
            final(self)@ == background_effect(old(self)@, result),
            decodes(result),
    {
        match result {
            BackgroundResult::ShellOutput { stdout, stderr, exit_code } => {
                self.record_shell_output(stdout.as_slice(), stderr.as_slice(), exit_code);
            },
            BackgroundResult::ShellFailed(m) => {
                self.record_shell_error(m.as_str());
            },
            BackgroundResult::Export(o) => {
                self.finish_export(o);
            },
        }
    }

    /// The visible output lines for a viewport of `height` lines, scrolled up
    /// by the scroll offset, with their highlights.
    pub fn view_lines(&self, height: usize, insert_mode: bool) -> (lines: Vec<ViewLine>)
        ensures
            shows_lines(self@, lines@, view_start(self@, height), view_end(self@), insert_mode),
    {
        let total = self.output.len();
        let start = if height <= total && self.scroll_offset <= total - height {
            total - height - self.scroll_offset
        } else {
            0
        };
        let end = if self.scroll_offset <= total {
            total - self.scroll_offset
        } else {
            0
        };
        let mut lines: Vec<ViewLine> = Vec::new();
        let mut i = start;
        while i < end
            invariant
                start <= i,
                i <= end || end < start,
                end <= total == self.output@.len(),
                start as int == view_start(self@, height),
                end as int == view_end(self@),
                lines@.len() == i - start,
                forall|k: int|
                    0 <= k < lines@.len() ==> {
                        &&& (#[trigger] lines@[k]).text@ == self@.output[start + k].text
                        &&& lines@[k].color == self@.output[start + k].color
                        &&& lines@[k].highlight == highlight_of(self@, start + k, insert_mode)
                    },
            decreases end - i,
        {
            let h = self.highlight(i, insert_mode);
            let line = &self.output[i];
            lines.push(ViewLine { text: line.text.clone(), color: line.color, highlight: h });
            i += 1;
        }
        lines
    }

    /// The highlight of output line `i`.
    fn highlight(&self, i: usize, insert_mode: bool) -> (h: LineHighlight)
        ensures
            h == highlight_of(self@, i as int, insert_mode),
    {
        match self.selection_start {
            Some(start) => {
                let lo = if start.0 <= self.visual_cursor_line {
                    start.0
                } else {
                    self.visual_cursor_line
                };
                let hi = if start.0 >= self.visual_cursor_line {
                    start.0
                } else {
                    self.visual_cursor_line
                };
                if lo <= i && i <= hi {
                    LineHighlight::Selected
                } else {
                    LineHighlight::Plain
                }
            },
            None => {
                if !insert_mode && i == self.visual_cursor_line {
                    LineHighlight::Cursor
                } else {
                    LineHighlight::Plain
                }
            },
        }
    }

    /// The input line cut at the cursor: the characters before it and the
    /// characters from it on.
    pub fn input_split(&self) -> (parts: (String, String))
        requires
            self.wf(),
        ensures
            parts.0@ == self@.input.take(cursor_index(self@)),
            parts.1@ == self@.input.skip(cursor_index(self@)),
    {
        let ghost s = self@.input;
        let ghost k = cursor_index(self@);
        proof {
            lemma_char_index_inverse(s, self@.cursor as int);
            lemma_is_char_boundary(s, k);
            lemma_split_bytes(s, k);
        }
        let (before, after) = self.input_buffer.as_str().split_at(self.cursor_pos);
        let b = before.to_owned();
        let a = after.to_owned();
        proof {
            assert(input_bytes(self@).take(self@.cursor as int) =~= input_bytes(self@).subrange(
                0,
                self@.cursor as int,
            ));
            assert(input_bytes(self@).skip(self@.cursor as int) =~= input_bytes(self@).subrange(
                self@.cursor as int,
                input_bytes(self@).len() as int,
            ));
            lemma_encode_injective(b@, s.take(k));
            lemma_encode_injective(a@, s.skip(k));
        }
        (b, a)
    }

    /// The last component of the working directory, or the whole directory
    /// when the platform's path rules give none.
    pub fn get_current_dir_name(&self) -> (name: String)
        ensures
            shown_dir_name(name@, self@.current_dir),
    {
        let component = final_path_component(self.current_dir.as_str());
        dir_name_or(component, self.current_dir.as_str())
    }
}

/// The final component of a path as text (`std::path::Path::file_name`
/// followed by `OsStr::to_str`). What holds under both the Unix and the
/// Windows path rules: a component that comes back is a non-empty run of the
/// path's own text; a path with no separator (`/`, `\`) and no drive colon is
/// a single component, and a drive root such as `C:\` has no component other
/// than itself, so what comes back is the whole path; and a path that ends in
/// `/` and a plain name (see `ends_with_component`) gives that name. Which
/// component the platform's rules pick in other paths, and whether there is
/// one, is left unsaid here.
#[verifier::external_body]
fn final_path_component(path: &str) -> (res: Option<String>)
    ensures
        res matches Some(c) ==> c@.len() > 0 && contains_text(path@, c@),
        res matches Some(c) ==> (has_no_separator(path@) ==> c@ == path@),
        res matches Some(c) ==> (is_drive_root(path@) ==> c@ == path@),
        forall|n: Seq<char>|
            #[trigger] ends_with_component(path@, n) ==> res is Some && res->0@ == n,
{
    std::path::Path::new(path).file_name().and_then(|n| n.to_str()).map(|n| n.to_string())
}

/// `s` holds no path separator (`/`, `\`) and no drive colon (`:`).
pub open spec fn has_no_separator(s: Seq<char>) -> bool {
    forall|i: int| 0 <= i < s.len() ==> #[trigger] s[i] != '/' && s[i] != '\\' && s[i] != ':'
}

/// `n` is a plain path component: non-empty, without separators or a drive
/// colon, and neither `.` nor `..`.
pub open spec fn is_plain_component(n: Seq<char>) -> bool {
    &&& n.len() > 0
    &&& has_no_separator(n)
    &&& n != seq!['.']
    &&& n != seq!['.', '.']
}

/// `s` is the root of a drive, such as `C:\`.
pub open spec fn is_drive_root(s: Seq<char>) -> bool {
    &&& s.len() == 3
    &&& ('a' <= s[0] <= 'z' || 'A' <= s[0] <= 'Z')
    &&& s[1] == ':'
    &&& s[2] == '\\'
}

/// `path` is `q/n` with `n` a plain component, where `q` holds no `\` and
/// no drive colon and `path` does not start with `//`: a path that the Unix
/// and the Windows rules both end in the component `n`.
pub open spec fn ends_with_component(path: Seq<char>, n: Seq<char>) -> bool {
    let q = path.len() - n.len() - 1;
    &&& is_plain_component(n)
    &&& q >= 0
    &&& path.skip(q + 1) == n
    &&& path[q] == '/'
    &&& forall|i: int| 0 <= i < q ==> #[trigger] path[i] != '\\' && path[i] != ':'
    &&& !(path.len() >= 2 && path[0] == '/' && path[1] == '/')
}

/// What may be shown as the name of directory `dir`: the directory itself,
/// or a non-empty run of its text (its final component); the directory
/// itself when it has no separator or is a drive root; and the name after
/// the last `/` when `dir` ends in a plain component.
pub open spec fn shown_dir_name(name: Seq<char>, dir: Seq<char>) -> bool {
    &&& name == dir || (name.len() > 0 && contains_text(dir, name))
    &&& has_no_separator(dir) ==> name == dir
    &&& is_drive_root(dir) ==> name == dir
    &&& forall|n: Seq<char>| #[trigger] ends_with_component(dir, n) ==> name == n
}

/// The name shown for directory `dir` given its final component.
pub open spec fn dir_name_choice(component: Option<Seq<char>>, dir: Seq<char>) -> Seq<char> {
    match component {
        Some(c) => c,
        None => dir,
    }
}

/// The name to show for a directory: its final component when there is one,
/// else the directory itself.
pub fn dir_name_or(component: Option<String>, dir: &str) -> (name: String)
    ensures
        name@ == dir_name_choice(
            match component {
                Some(c) => Some(c@),
                None => None,
            },
            dir@,
        ),
{
    match component {
        Some(c) => c,
        None => dir.to_owned(),
    }
}

/// Exporting nothing gives an empty body.
pub proof fn lemma_export_body_empty()
    ensures
        export_body(Seq::<LineView>::empty()) == Seq::<char>::empty(),
{
}

/// The export body of one output line is its text and a newline, whatever
/// the text holds (an empty line gives a lone newline).
pub proof fn lemma_export_body_one_line(l: LineView)
    ensures
        export_body(seq![l]) == l.text + seq!['\n'],
{
    assert(seq![l].drop_last() =~= Seq::<LineView>::empty());
    assert(export_body(seq![l].drop_last()) == Seq::<char>::empty());
    assert(seq![l].last() == l);
    assert(Seq::<char>::empty() + l.text.push('\n') =~= l.text + seq!['\n']);
}

/// The export body of two runs of output lines is the body of the first
/// followed by the body of the second: no line is left out, merged or
/// reordered.
pub proof fn lemma_export_body_concat(a: Seq<LineView>, b: Seq<LineView>)
    ensures
        export_body(a + b) == export_body(a) + export_body(b),
    decreases b.len(),
{
    if b.len() == 0 {
        assert(a + b =~= a);
        assert(export_body(a) + Seq::<char>::empty() =~= export_body(a));
    } else {
        lemma_export_body_concat(a, b.drop_last());
        assert((a + b).drop_last() =~= a + b.drop_last());
        assert((a + b).last() == b.last());
        let t = b.last().text.push('\n');
        assert((export_body(a) + export_body(b.drop_last())) + t =~= export_body(a) + (
        export_body(b.drop_last()) + t));
    }
}

/// The number of characters in the texts of the lines.
pub open spec fn text_len_total(out: Seq<LineView>) -> nat
    decreases out.len(),
{
    if out.len() == 0 {
        0
    } else {
        out[0].text.len() + text_len_total(out.drop_first())
    }
}

/// The export body is as long as all output lines together, each counted
/// with its newline.
pub proof fn lemma_export_body_len(out: Seq<LineView>)
    ensures
        export_body(out).len() == out.len() + text_len_total(out),
    decreases out.len(),
{
    if out.len() > 0 {
        assert(out =~= seq![out[0]] + out.drop_first());
        lemma_export_body_concat(seq![out[0]], out.drop_first());
        lemma_export_body_one_line(out[0]);
        lemma_export_body_len(out.drop_first());
    }
}

/// The lines `lo..end` joined for copying are exactly their export body.
pub proof fn lemma_joined_lines_export(out: Seq<LineView>, lo: int, end: int)
    requires
        0 <= lo <= end <= out.len(),
    ensures
        joined_lines(out, lo, end) == export_body(out.subrange(lo, end)),
    decreases end - lo,
{
    if lo < end {
        lemma_joined_lines_export(out, lo, end - 1);
        assert(out.subrange(lo, end).drop_last() =~= out.subrange(lo, end - 1));
    } else {
        assert(out.subrange(lo, end) =~= Seq::<LineView>::empty());
    }
}

/// Copying a selection does not depend on which end the selection was
/// anchored at: swapping the anchor line and the visual cursor line gives
/// the same text.
pub proof fn lemma_selected_text_symmetric(v: SessionView, anchor: usize, other: usize)
    requires
        v.selection == Some((anchor, other)),
    ensures
        selected_text(v) == selected_text(
            SessionView { selection: Some((v.visual_line, other)), visual_line: anchor, ..v },
        ),
{
}

/// The copied text is every output line from the lower of the anchor and
/// the visual cursor to the higher, both included and clipped to the output,
/// each followed by a newline; nothing is copied when the selection starts
/// past the output or there is no selection.
pub proof fn lemma_selected_text_lines(
    v: SessionView,
    anchor: usize,
    other: usize,
    lo: int,
    hi: int,
)
    requires
        v.selection == Some((anchor, other)),
        lo <= hi,
        (lo == anchor && hi == v.visual_line) || (lo == v.visual_line && hi == anchor),
    ensures
        lo >= v.output.len() ==> selected_text(v) is None,
        hi < v.output.len() ==> selected_text(v) == Some(export_body(v.output.subrange(lo, hi + 1))),
        lo < v.output.len() <= hi ==> selected_text(v) == Some(
            export_body(v.output.subrange(lo, v.output.len() as int)),
        ),
{
    if lo < v.output.len() {
        if hi < v.output.len() {
            lemma_joined_lines_export(v.output, lo, hi + 1);
        } else {
            lemma_joined_lines_export(v.output, lo, v.output.len() as int);
        }
    }
}

/// Without a selection nothing is copied.
pub proof fn lemma_selected_text_none(v: SessionView)
    requires
        v.selection is None,
    ensures
        selected_text(v) is None,
{
}

/// With a selection, a line is highlighted as selected exactly when it lies
/// between the anchor line and the visual cursor line, in either order, and
/// is otherwise plain; without one, only the visual cursor's line is marked,
/// and only in normal mode.
pub proof fn lemma_highlight_lines(v: SessionView, i: int, insert_mode: bool)
    ensures
        v.selection matches Some(start) ==> {
            &&& ((start.0 <= i <= v.visual_line) || (v.visual_line <= i <= start.0)) ==> highlight_of(
                v,
                i,
                insert_mode,
            ) == LineHighlight::Selected
            &&& !((start.0 <= i <= v.visual_line) || (v.visual_line <= i <= start.0)) ==> highlight_of(
                v,
                i,
                insert_mode,
            ) == LineHighlight::Plain
        },
        v.selection is None ==> (highlight_of(v, i, insert_mode) == LineHighlight::Cursor <==> (
        !insert_mode && i == v.visual_line)),
        v.selection is None && !(!insert_mode && i == v.visual_line) ==> highlight_of(
            v,
            i,
            insert_mode,
        ) == LineHighlight::Plain,
{
}

/// The highlight does not depend on which end a selection was anchored at.
pub proof fn lemma_highlight_symmetric(v: SessionView, anchor: usize, other: usize, i: int, insert_mode: bool)
    requires
        v.selection == Some((anchor, other)),
    ensures
        highlight_of(v, i, insert_mode) == highlight_of(
            SessionView { selection: Some((v.visual_line, other)), visual_line: anchor, ..v },
            i,
            insert_mode,
        ),
{
}

/// A command's standard output keeps every line, in order, in blue.
pub proof fn lemma_stdout_lines_push(ls: Seq<Seq<char>>, l: Seq<char>)
    ensures
        stdout_lines(ls.push(l)) == stdout_lines(ls).push(LineView { text: l, color: blue_rgb() }),
        stdout_lines(ls).len() == ls.len(),
{
    assert(ls.push(l).drop_last() =~= ls);
    lemma_stdout_lines_len(ls);
}

proof fn lemma_stdout_lines_len(ls: Seq<Seq<char>>)
    ensures
        stdout_lines(ls).len() == ls.len(),
    decreases ls.len(),
{
    if ls.len() > 0 {
        lemma_stdout_lines_len(ls.drop_last());
    }
}

/// A command's standard error keeps a line, after the lines before it and
/// in red, exactly when the line holds a character that is not white space;
/// a line made only of white space (or empty) is dropped.
pub proof fn lemma_stderr_lines_push(ls: Seq<Seq<char>>, l: Seq<char>)
    ensures
        (exists|i: int| 0 <= i < l.len() && !is_white_space(#[trigger] l[i])) ==> stderr_lines(
            ls.push(l),
        ) == stderr_lines(ls).push(LineView { text: l, color: red_rgb() }),
        (forall|i: int| 0 <= i < l.len() ==> is_white_space(#[trigger] l[i])) ==> stderr_lines(
            ls.push(l),
        ) == stderr_lines(ls),
{
    assert(ls.push(l).drop_last() =~= ls);
    assert(ls.push(l).last() == l);
}

/// Error output is read line by line: the kept lines of two runs of lines
/// are the kept lines of the first followed by those of the second.
pub proof fn lemma_stderr_lines_concat(a: Seq<Seq<char>>, b: Seq<Seq<char>>)
    ensures
        stderr_lines(a + b) == stderr_lines(a) + stderr_lines(b),
    decreases b.len(),
{
    if b.len() == 0 {
        assert(a + b =~= a);
        assert(stderr_lines(a) + Seq::<LineView>::empty() =~= stderr_lines(a));
    } else {
        lemma_stderr_lines_concat(a, b.drop_last());
        assert((a + b).drop_last() =~= a + b.drop_last());
        assert((a + b).last() == b.last());
        if !all_white_space(b.last()) {
            assert((stderr_lines(a) + stderr_lines(b.drop_last())).push(
                LineView { text: b.last(), color: red_rgb() },
            ) =~= stderr_lines(a) + stderr_lines(b.drop_last()).push(
                LineView { text: b.last(), color: red_rgb() },
            ));
        }
    }
}

/// Backspace undoes typing: after any character is typed, the cursor sits
/// just past it, on the next character boundary, and Backspace restores the
/// session exactly.
pub proof fn lemma_backspace_undoes_typing(v: SessionView, c: char)
    requires
        session_wf(v),
    ensures
        session_wf(typed(v, c)),
        typed(v, c).cursor == v.cursor + char_width(c),
        backspaced(typed(v, c)) == v,
{
    let s = v.input;
    let k = cursor_index(v);
    lemma_typed_wf(v, c);
    lemma_char_index_inverse(s, v.cursor as int);
    lemma_insert_bytes(s, k, c);
    assert(s.insert(k, c).remove(k) =~= s);
}

/// In every well-formed session the cursor sits on a character boundary of
/// the input line's UTF-8 bytes, so editing at the cursor never splits a
/// character.
pub proof fn lemma_cursor_on_char_boundary(v: SessionView)
    requires
        session_wf(v),
    ensures
        is_char_boundary(input_bytes(v), v.cursor as int),
{
    lemma_char_index_inverse(v.input, v.cursor as int);
    lemma_is_char_boundary(v.input, cursor_index(v));
}

/// Moving left then right returns the cursor, away from the line's start.
pub proof fn lemma_left_then_right(v: SessionView)
    requires
        session_wf(v),
        v.cursor > 0,
    ensures
        session_wf(cursor_left(v)),
        cursor_right(cursor_left(v)) == v,
{
    let s = v.input;
    let k = cursor_index(v);
    lemma_char_index_inverse(s, v.cursor as int);
    lemma_byte_offset_bounds(s, k);
    lemma_char_index(s, k - 1);
    lemma_byte_offset_bounds(s, k - 1);
}

/// Moving right then left returns the cursor, away from the line's end.
pub proof fn lemma_right_then_left(v: SessionView)
    requires
        session_wf(v),
        v.cursor < utf8_len(v.input),
    ensures
        session_wf(cursor_right(v)),
        cursor_left(cursor_right(v)) == v,
{
    let s = v.input;
    let k = cursor_index(v);
    lemma_char_index_inverse(s, v.cursor as int);
    lemma_ends_on_boundary(s);
    lemma_char_index(s, k + 1);
    lemma_byte_offset_bounds(s, k + 1);
}

/// Scrolling down undoes scrolling up while there is older output to show.
pub proof fn lemma_scroll_up_then_down(v: SessionView)
    requires
        v.scroll < v.output.len() <= usize::MAX,
    ensures
        scrolled_down(scrolled_up(v)) == v,
{
}

/// A command's result never leaves more than a thousand output lines, and
/// what it keeps are the newest lines.
pub proof fn lemma_shell_output_capped(v: SessionView, out: Seq<char>, err: Seq<char>, code: Option<i32>)
    ensures
        ({
            let all = v.output + stdout_lines(text_lines(out)) + stderr_lines(text_lines(err))
                + exit_code_lines(code);
            let kept = shell_step(v, out, err, code).output;
            &&& kept.len() <= output_cap()
            &&& kept.len() <= all.len()
            &&& kept == all.skip(all.len() - kept.len())
        }),
{
    let all = v.output + stdout_lines(text_lines(out)) + stderr_lines(text_lines(err))
        + exit_code_lines(code);
    if all.len() <= output_cap() {
        assert(all.skip(0) =~= all);
    }
}

/// An entered command that is not blank becomes the newest history entry:
/// the up arrow brings it back.
pub proof fn lemma_entered_command_recalled(v: SessionView, time: Seq<char>, date: Seq<char>)
    requires
        session_wf(v),
        trim_ws(v.input).len() > 0,
    ensures
        history_up(command_step(v, time, date).0).input == trim_ws(v.input),
{
}

/// Clearing the output leaves nothing selected.
pub proof fn lemma_cleared_selects_nothing(v: SessionView)
    ensures
        cleared(v).output.len() == 0,
        selected_text(cleared(v)) is None,
{
}

} // verus!
