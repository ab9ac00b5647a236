//! The editing session: what each line read from the user does to the
//! editor, what it shows and what it asks the caller to do next.
//!
//! The session alternates between two modes. In command mode a line names a
//! command; in edit mode lines gather text until a line holding only `.`,
//! which inserts the gathered text at the cursor. Reading lines, printing and
//! writing files are left to the caller: each turn hands back what to show
//! and a [`Request`].
use vstd::prelude::*;

use crate::buffer::{string_to_lines, Buffer};
use crate::lines::{file_lines, join_lines, string_views, text_to_lines};
use crate::commands::{parse_command, read_command, unknown_command_message, Operation, OperationView};
use crate::text::{
    drop_trailing_newlines, drop_trailing_white_space, lemma_trim_trailing_newlines_prefix, skip_white_space,
    trim, trim_trailing_newlines,
};

verus! {

pub enum Mode {
    Command,
    Edit,
}

/// The state of an editing session.
pub struct Editor {
    pub buffer: Buffer,
    pub mode: Mode,
    pub display_prompt: bool,
    pub prompt: String,
    pub verbose: bool,
    /// the text typed in edit mode, not yet in the buffer
    pub editing_buffer: String,
    /// whether the last command was a refused quit
    pub tried_quit: bool,
    pub last_error: String,
}

/// An [`Editor`] with its strings taken as their characters.
pub struct EditorView {
    pub lines: Seq<Seq<char>>,
    pub cursor: usize,
    pub modified: bool,
    pub filename: Seq<char>,
    pub marker: usize,
    pub editing: bool,
    pub display_prompt: bool,
    pub prompt: Seq<char>,
    pub verbose: bool,
    pub pending: Seq<char>,
    pub tried_quit: bool,
    pub last_error: Seq<char>,
}

impl View for Editor {
    type V = EditorView;

    open spec fn view(&self) -> EditorView {
        EditorView {
            lines: string_views(self.buffer.lines@),
            cursor: self.buffer.cursor,
            modified: self.buffer.modified,
            filename: self.buffer.filename@,
            marker: self.buffer.marker,
            editing: self.mode is Edit,
            display_prompt: self.display_prompt,
            prompt: self.prompt@,
            verbose: self.verbose,
            pending: self.editing_buffer@,
            tried_quit: self.tried_quit,
            last_error: self.last_error@,
        }
    }
}

/// What a turn shows.
pub enum Output {
    /// the editor's terse `?`
    Question,
    /// a message, such as the last error
    Message(String),
    /// the number of bytes a write wrote
    Written(usize),
    /// the text being added, and the line it is added at
    Adding(String, usize),
    /// the lines of the buffer
    Lines,
}

pub enum OutputView {
    Question,
    Message(Seq<char>),
    Written(usize),
    Adding(Seq<char>, usize),
    Lines,
}

impl View for Output {
    type V = OutputView;

    open spec fn view(&self) -> OutputView {
        match self {
            Output::Question => OutputView::Question,
            Output::Message(m) => OutputView::Message(m@),
            Output::Written(n) => OutputView::Written(*n),
            Output::Adding(t, at) => OutputView::Adding(t@, *at),
            Output::Lines => OutputView::Lines,
        }
    }
}

pub open spec fn outputs_view(v: Seq<Output>) -> Seq<OutputView> {
    v.map_values(|o: Output| o@)
}

/// What the caller is to do after a turn.
pub enum Request {
    /// read the next line
    Read,
    /// end the session successfully
    Exit,
    /// write the text to the named file, then report with `finish_write`
    WriteFile(String, String),
}

pub enum RequestView {
    Read,
    Exit,
    WriteFile(Seq<char>, Seq<char>),
}

impl View for Request {
    type V = RequestView;

    open spec fn view(&self) -> RequestView {
        match self {
            Request::Read => RequestView::Read,
            Request::Exit => RequestView::Exit,
            Request::WriteFile(name, text) => RequestView::WriteFile(name@, text@),
        }
    }
}

/// Why a file could not be created.
pub enum CreateError {
    PermissionDenied,
    NotFound,
    InvalidInput,
    /// any other reason, as the system describes it
    Other(String),
}

/// How a requested write went.
pub enum WriteOutcome {
    /// the file was created and this many bytes were written
    Written(usize),
    /// the file was created but writing failed, as described
    WriteFailed(String),
    CreateFailed(CreateError),
}

pub open spec fn buffer_modified_warning() -> Seq<char> {
    "Warning: buffer modified"@
}

pub open spec fn no_filename_message() -> Seq<char> {
    "No current filename"@
}

/// The error recorded when `name` could not be created.
pub open spec fn create_error_message(name: Seq<char>, e: CreateError) -> Seq<char> {
    match e {
        CreateError::PermissionDenied => name + ": permission denied"@,
        CreateError::NotFound => name + ": No such file or directory"@,
        CreateError::InvalidInput => name + ": invalid filename"@,
        CreateError::Other(d) => name + ": "@ + d@
            + " \n btw how did you do this? srsly, i'm curious, feel free to msg me"@,
    }
}

/// The end of a turn: a verbose editor shows the pending error, once.
pub open spec fn end_of_turn(v: EditorView, shown: Seq<OutputView>) -> (EditorView, Seq<OutputView>) {
    if v.verbose && v.last_error.len() > 0 {
        (EditorView { last_error: Seq::<char>::empty(), ..v }, shown.push(OutputView::Message(v.last_error)))
    } else {
        (v, shown)
    }
}

/// The command a line read in command mode gives: the line without its
/// final newlines; an empty line, the end of the input, quits.
pub open spec fn command_text(line: Seq<char>) -> Seq<char> {
    if line.len() == 0 {
        seq!['q']
    } else {
        trim_trailing_newlines(line)
    }
}

/// What a command does to the editor in state `v`: the next state, what is
/// shown and what the caller is to do.
pub open spec fn on_command(v: EditorView, op: OperationView) -> (EditorView, Seq<OutputView>, RequestView) {
    match op {
        OperationView::Quit => if !v.modified || v.tried_quit {
            (v, Seq::empty(), RequestView::Exit)
        } else {
            (
                EditorView { tried_quit: true, last_error: buffer_modified_warning(), ..v },
                seq![OutputView::Question],
                RequestView::Read,
            )
        },
        OperationView::Write(file) => if file.len() == 0 && v.filename.len() == 0 {
            let (w, shown) = end_of_turn(
                EditorView {
                    last_error: no_filename_message(),
                    modified: false,
                    tried_quit: false,
                    ..v
                },
                seq![OutputView::Question],
            );
            (w, shown, RequestView::Read)
        } else {
            let name = if file.len() > 0 {
                file
            } else {
                v.filename
            };
            (EditorView { filename: name, ..v }, Seq::empty(), RequestView::WriteFile(name, join_lines(v.lines)))
        },
        _ => {
            let (w, shown) = match op {
                OperationView::Error(m) => (EditorView { last_error: m, ..v }, seq![OutputView::Question]),
                OperationView::TogglePrompt => (EditorView { display_prompt: !v.display_prompt, ..v }, Seq::empty()),
                OperationView::Insert => (
                    EditorView {
                        cursor: if v.cursor > 0 {
                            (v.cursor - 1) as usize
                        } else {
                            0
                        },
                        editing: true,
                        ..v
                    },
                    Seq::empty(),
                ),
                OperationView::Append => (EditorView { editing: true, ..v }, Seq::empty()),
                OperationView::ToggleVerbose => (EditorView { verbose: !v.verbose, ..v }, Seq::empty()),
                _ => (v, seq![OutputView::Lines]),
            };
            let (u, all) = end_of_turn(EditorView { tried_quit: false, ..w }, shown);
            (u, all, RequestView::Read)
        },
    }
}

/// The lines after the text `text` is inserted at line `at`.
pub open spec fn insert_text(lines: Seq<Seq<char>>, at: int, text: Seq<char>) -> Seq<Seq<char>> {
    lines.take(at) + text_to_lines(text) + lines.skip(at)
}

/// What a line read in edit mode does: a line of only `.` (white space
/// aside) inserts the gathered text at the cursor, puts the cursor on the
/// last line and goes back to command mode; any other line is gathered.
pub open spec fn on_edit_line(v: EditorView, line: Seq<char>) -> (EditorView, Seq<OutputView>, RequestView) {
    if trim(line) == seq!['.'] {
        let lines = insert_text(v.lines, v.cursor as int, v.pending);
        (
            EditorView {
                lines,
                cursor: lines.len() as usize,
                pending: Seq::empty(),
                editing: false,
                modified: true,
                ..v
            },
            seq![OutputView::Adding(v.pending, v.cursor)],
            RequestView::Read,
        )
    } else {
        let (w, shown) = end_of_turn(EditorView { pending: v.pending + line, ..v }, Seq::empty());
        (w, shown, RequestView::Read)
    }
}

/// What a line read from the user does to the editor in state `v`.
pub open spec fn on_line(v: EditorView, line: Seq<char>) -> (EditorView, Seq<OutputView>, RequestView) {
    if v.editing {
        on_edit_line(v, line)
    } else {
        on_command(v, read_command(command_text(line)))
    }
}

/// What the report of a write does: it records the error, if any, shows
/// the byte count or `?`, and leaves the buffer unmodified.
pub open spec fn after_write(v: EditorView, outcome: WriteOutcome) -> (EditorView, Seq<OutputView>) {
    let (error, shown) = match outcome {
        WriteOutcome::Written(n) => (v.last_error, seq![OutputView::Written(n)]),
        WriteOutcome::WriteFailed(m) => (m@, seq![OutputView::Question]),
        WriteOutcome::CreateFailed(e) => (create_error_message(v.filename, e), seq![OutputView::Question]),
    };
    end_of_turn(EditorView { last_error: error, modified: false, tried_quit: false, ..v }, shown)
}

/// The cursor stays within the buffer: on a line of it, or just past its
/// last line.
pub open spec fn view_wf(v: EditorView) -> bool {
    v.cursor <= v.lines.len()
}

/// A quit ends the session at once when the buffer is unmodified or the
/// command before was a refused quit; otherwise it is refused with a warning,
/// and a second quit right after it ends the session.
pub proof fn lemma_quit_twice_exits(v: EditorView)
    ensures
        on_command(v, OperationView::Quit).2 == RequestView::Exit <==> (!v.modified || v.tried_quit),
        on_command(on_command(v, OperationView::Quit).0, OperationView::Quit).2 == RequestView::Exit,
{
}

/// A write leaves the buffer unmodified whether it succeeds or fails, and
/// so does a write refused for want of a file name.
pub proof fn lemma_write_clears_modified(v: EditorView, file: Seq<char>, outcome: WriteOutcome)
    ensures
        !after_write(v, outcome).0.modified,
        file.len() == 0 && v.filename.len() == 0 ==> !on_command(v, OperationView::Write(file)).0.modified,
        !(file.len() == 0 && v.filename.len() == 0) ==> on_command(v, OperationView::Write(file)).2
            == RequestView::WriteFile(
            if file.len() > 0 {
                file
            } else {
                v.filename
            },
            join_lines(v.lines),
        ),
{
}

/// In edit mode, a line that is not a lone `.` is gathered, and the `.`
/// that follows inserts everything gathered at the cursor, leaving the other
/// lines as they were, marks the buffer modified and returns to command
/// mode.
pub proof fn lemma_gathered_text_is_inserted(v: EditorView, line: Seq<char>, dot: Seq<char>)
    requires
        v.editing,
        trim(line) != seq!['.'],
        trim(dot) == seq!['.'],
    ensures
        ({
            let after = on_edit_line(on_edit_line(v, line).0, dot).0;
            &&& after.lines == insert_text(v.lines, v.cursor as int, v.pending + line)
            &&& after.modified
            &&& !after.editing
            &&& after.pending.len() == 0
        }),
{
}

/// A lone `.` in edit mode puts the gathered text's lines at the cursor:
/// the old lines before the cursor stay in front of them, in order, and the
/// old lines from the cursor on follow them, in order; nothing else is added
/// or lost. With the cursor past the last line the text goes at the end.
pub proof fn lemma_dot_inserts_at_cursor(v: EditorView, dot: Seq<char>)
    requires
        v.editing,
        view_wf(v),
        trim(dot) == seq!['.'],
    ensures
        ({
            let after = on_edit_line(v, dot).0.lines;
            let added = text_to_lines(v.pending);
            let c = v.cursor as int;
            &&& after.len() == v.lines.len() + added.len()
            &&& after.take(c) == v.lines.take(c)
            &&& after.subrange(c, c + added.len()) == added
            &&& after.skip(c + added.len()) == v.lines.skip(c)
            &&& (c == v.lines.len() ==> after == v.lines + added)
        }),
{
    let after = on_edit_line(v, dot).0.lines;
    let added = text_to_lines(v.pending);
    let c = v.cursor as int;
    assert(after == v.lines.take(c) + added + v.lines.skip(c));
    assert(after.take(c) == v.lines.take(c));
    assert(after.subrange(c, c + added.len()) == added);
    assert(after.skip(c + added.len()) == v.lines.skip(c));
    if c == v.lines.len() {
        assert(v.lines.take(c) == v.lines);
        assert(v.lines.skip(c) == Seq::<Seq<char>>::empty());
        assert(after == v.lines + added);
    }
}

/// In command mode only the end of the input or a line that starts with
/// `q` or `Q` ends the session; an empty command line, made only of
/// newlines, is an unknown command and the session goes on.
pub proof fn lemma_only_quit_or_end_of_input_exits(v: EditorView, line: Seq<char>)
    requires
        !v.editing,
    ensures
        on_line(v, line).2 == RequestView::Exit ==> line.len() == 0 || line[0] == 'q' || line[0]
            == 'Q',
        line.len() > 0 && trim_trailing_newlines(line).len() == 0 ==> {
            &&& on_line(v, line).2 == RequestView::Read
            &&& on_line(v, line).1 == if v.verbose {
                seq![OutputView::Question, OutputView::Message(unknown_command_message())]
            } else {
                seq![OutputView::Question]
            }
            &&& !v.verbose ==> on_line(v, line).0.last_error == unknown_command_message()
        },
{
    lemma_trim_trailing_newlines_prefix(line);
    let trimmed = trim_trailing_newlines(line);
    if line.len() > 0 && trimmed.len() > 0 {
        assert(trimmed[0] == line.take(trimmed.len() as int)[0]);
        assert(trimmed[0] == line[0]);
    }
    assert(unknown_command_message().len() > 0);
}

/// Every command but a quit and a write forgets a refused quit: on a
/// modified buffer a quit, then any such command, then a quit again is
/// refused again, the buffer still modified.
pub proof fn lemma_other_commands_forget_refused_quit(v: EditorView, op: OperationView)
    requires
        !(op is Quit),
        !(op is Write),
    ensures
        !on_command(v, op).0.tried_quit,
        on_command(v, op).0.modified == v.modified,
        on_command(v, op).2 == RequestView::Read,
        v.modified && !v.tried_quit ==> {
            let refused = on_command(v, OperationView::Quit);
            let between = on_command(refused.0, op);
            let again = on_command(between.0, OperationView::Quit);
            &&& refused.2 == RequestView::Read
            &&& again.2 == RequestView::Read
            &&& again.1 == seq![OutputView::Question]
            &&& again.0.last_error == buffer_modified_warning()
        },
{
}

/// `i` starts editing one line above the cursor (at line 0 it stays), `a`
/// at the cursor; neither changes the lines.
pub proof fn lemma_insert_and_append_start_editing(v: EditorView)
    ensures
        on_command(v, OperationView::Insert).0.editing,
        on_command(v, OperationView::Append).0.editing,
        on_command(v, OperationView::Insert).0.cursor + (if v.cursor > 0 {
            1int
        } else {
            0int
        }) == v.cursor,
        on_command(v, OperationView::Append).0.cursor == v.cursor,
        on_command(v, OperationView::Insert).0.lines == v.lines,
        on_command(v, OperationView::Append).0.lines == v.lines,
{
}

/// `P` and `H` flip the prompt and the verbose setting: given twice, each
/// restores its setting, and neither touches the other or the lines.
pub proof fn lemma_toggles_flip(v: EditorView)
    ensures
        on_command(v, OperationView::TogglePrompt).0.display_prompt == !v.display_prompt,
        on_command(on_command(v, OperationView::TogglePrompt).0, OperationView::TogglePrompt).0.display_prompt
            == v.display_prompt,
        on_command(v, OperationView::TogglePrompt).0.verbose == v.verbose,
        on_command(v, OperationView::ToggleVerbose).0.verbose == !v.verbose,
        on_command(on_command(v, OperationView::ToggleVerbose).0, OperationView::ToggleVerbose).0.verbose
            == v.verbose,
        on_command(v, OperationView::ToggleVerbose).0.display_prompt == v.display_prompt,
        on_command(v, OperationView::TogglePrompt).0.lines == v.lines,
        on_command(v, OperationView::ToggleVerbose).0.lines == v.lines,
{
}

/// A verbose editor shows a pending error at the end of the turn that left
/// it and forgets it: after any command but a quit or a write request, no
/// error is pending and the last thing shown is the error, if there was one.
pub proof fn lemma_verbose_shows_errors_once(v: EditorView, op: OperationView)
    requires
        !(op is Quit),
        !(op is Write),
    ensures
        on_command(v, op).0.verbose ==> on_command(v, op).0.last_error.len() == 0,
        op matches OperationView::Error(m) ==> (v.verbose && m.len() > 0 ==> on_command(v, op).1
            == seq![OutputView::Question, OutputView::Message(m)]),
{
}

/// Inserts `new` into `lines` at `at`.
fn insert_lines(lines: &mut Vec<String>, at: usize, new: &Vec<String>)
    requires
        at <= old(lines)@.len(),
    ensures
        string_views(final(lines)@) == string_views(old(lines)@).take(at as int) + string_views(
            new@,
        ) + string_views(old(lines)@).skip(at as int),
{
    let ghost before = string_views(lines@);
    let ghost added = string_views(new@);
    let count = new.len();
    assert(added.take(0) == Seq::<Seq<char>>::empty());
    assert(before == before.take(at as int) + added.take(0) + before.skip(at as int));
    for i in 0..count
        invariant
            count == new@.len(),
            added == string_views(new@),
            at <= before.len(),
            lines@.len() == before.len() + i,
            string_views(lines@) == before.take(at as int) + added.take(i as int) + before.skip(
                at as int,
            ),
    {
        let line = new[i].clone();
        let current = lines.len();
        assert(at + i <= current);
        let ghost views_before = string_views(lines@);
        lines.insert(at + i, line);
        assert(string_views(lines@) == views_before.insert(at + i, new@[i as int]@));
        assert(added.take(i + 1) == added.take(i as int).push(added[i as int]));
        assert(string_views(lines@) == before.take(at as int) + added.take(i + 1) + before.skip(
            at as int,
        ));
    }
    assert(added.take(count as int) == added);
}

impl Editor {
    pub open spec fn wf(&self) -> bool {
        view_wf(self@)
    }

    /// A session on the lines of `text` (none without a text), in command
    /// mode; the prompt shows when one is given, `*` when none is.
    pub fn new(text: Option<&str>, prompt: Option<String>, verbose: bool) -> (e: Editor)
        ensures
            e.wf(),
            e@ == (EditorView {
                lines: match text {
                    Some(t) => file_lines(t@),
                    None => Seq::empty(),
                },
                cursor: 0,
                modified: false,
                filename: Seq::empty(),
                marker: 0,
                editing: false,
                display_prompt: prompt is Some,
                prompt: match prompt {
                    Some(p) => p@,
                    None => "*"@,
                },
                verbose,
                pending: Seq::empty(),
                tried_quit: false,
                last_error: Seq::empty(),
            }),
    {
        let buffer = Buffer::new(text);
        let display_prompt = prompt.is_some();
        let prompt = match prompt {
            Some(p) => p,
            None => "*".to_owned(),
        };
        Editor {
            buffer,
            mode: Mode::Command,
            display_prompt,
            prompt,
            verbose,
            editing_buffer: String::new(),
            tried_quit: false,
            last_error: String::new(),
        }
    }

    /// Whether the prompt is shown before the next line is read.
    pub fn shows_prompt(&self) -> (r: bool)
        ensures
            r == (!self@.editing && self@.display_prompt),
    {
        match self.mode {
            Mode::Command => self.display_prompt,
            Mode::Edit => false,
        }
    }

    fn end_turn(&mut self, shown: &mut Vec<Output>)
        ensures
            (final(self)@, outputs_view(final(shown)@)) == end_of_turn(old(self)@, outputs_view(old(shown)@)),
    {
        if self.verbose && !self.last_error.as_str().is_empty() {
            let message = self.last_error.clone();
            self.last_error = String::new();
            let ghost before = outputs_view(shown@);
            shown.push(Output::Message(message));
            assert(outputs_view(shown@) == before.push(OutputView::Message(old(self)@.last_error)));
        }
    }

    fn command_turn(&mut self, line: &str) -> (turn: (Vec<Output>, Request))
        requires
            old(self).wf(),
            !old(self)@.editing,
        ensures
            final(self).wf(),
            (final(self)@, outputs_view(turn.0@), turn.1@) == on_command(
                old(self)@,
                read_command(command_text(line@)),
            ),
    {
        proof {
            reveal_strlit("q");
        }
        let text = if line.unicode_len() == 0 {
            "q"
        } else {
            drop_trailing_newlines(line)
        };
        let op = parse_command(text);
        let mut shown: Vec<Output> = Vec::new();
        assert(outputs_view(shown@) == Seq::<OutputView>::empty());
        match op {
            Operation::Quit => {
                if !self.buffer.modified || self.tried_quit {
                    return (shown, Request::Exit);
                }
                self.tried_quit = true;
                self.last_error = "Warning: buffer modified".to_owned();
                shown.push(Output::Question);
                assert(outputs_view(shown@) == seq![OutputView::Question]);
                return (shown, Request::Read);
            },
            Operation::Write(file) => {
                if file.as_str().is_empty() && self.buffer.filename.as_str().is_empty() {
                    self.last_error = "No current filename".to_owned();
                    shown.push(Output::Question);
                    assert(outputs_view(shown@) == seq![OutputView::Question]);
                    self.buffer.modified = false;
                    self.tried_quit = false;
                    self.end_turn(&mut shown);
                    return (shown, Request::Read);
                }
                if !file.as_str().is_empty() {
                    self.buffer.filename = file;
                }
                let text = self.buffer.to_string();
                let name = self.buffer.filename.clone();
                return (shown, Request::WriteFile(name, text));
            },
            Operation::Error(m) => {
                self.last_error = m.to_owned();
                shown.push(Output::Question);
                assert(outputs_view(shown@) == seq![OutputView::Question]);
            },
            Operation::TogglePrompt => {
                self.display_prompt = !self.display_prompt;
            },
            Operation::Insert => {
                if self.buffer.cursor > 0 {
                    self.buffer.cursor = self.buffer.cursor - 1;
                }
                self.mode = Mode::Edit;
            },
            Operation::Append => {
                self.mode = Mode::Edit;
            },
            Operation::ToggleVerbose => {
                self.verbose = !self.verbose;
            },
            Operation::Print => {
                shown.push(Output::Lines);
                assert(outputs_view(shown@) == seq![OutputView::Lines]);
            },
        }
        self.tried_quit = false;
        self.end_turn(&mut shown);
        (shown, Request::Read)
    }

    fn edit_turn(&mut self, line: &str) -> (turn: (Vec<Output>, Request))
        requires
            old(self).wf(),
            old(self)@.editing,
        ensures
            final(self).wf(),
            (final(self)@, outputs_view(turn.0@), turn.1@) == on_edit_line(old(self)@, line@),
    {
        let trimmed = drop_trailing_white_space(skip_white_space(line));
        let mut shown: Vec<Output> = Vec::new();
        assert(outputs_view(shown@) == Seq::<OutputView>::empty());
        if trimmed.unicode_len() == 1 && trimmed.get_char(0) == '.' {
            assert(trimmed@ == seq!['.']);
            shown.push(Output::Adding(self.editing_buffer.clone(), self.buffer.cursor));
            assert(outputs_view(shown@) == seq![OutputView::Adding(old(self)@.pending, old(self)@.cursor)]);
            let new_lines = string_to_lines(self.editing_buffer.as_str());
            insert_lines(&mut self.buffer.lines, self.buffer.cursor, &new_lines);
            self.buffer.cursor = self.buffer.lines.len();
            self.editing_buffer = String::new();
            self.mode = Mode::Command;
            self.buffer.modified = true;
            return (shown, Request::Read);
        }
        assert(trim(line@) != seq!['.']) by {
            if trim(line@) == seq!['.'] {
                assert(trim(line@).len() == 1);
                assert(trim(line@)[0] == '.');
            }
        }
        self.editing_buffer.append(line);
        self.end_turn(&mut shown);
        (shown, Request::Read)
    }

    /// Takes one line read from the user.
    pub fn handle_line(&mut self, line: &str) -> (turn: (Vec<Output>, Request))
        requires
            old(self).wf(),
        ensures
            final(self).wf(),
            (final(self)@, outputs_view(turn.0@), turn.1@) == on_line(old(self)@, line@),
    {
        match self.mode {
            Mode::Command => self.command_turn(line),
            Mode::Edit => self.edit_turn(line),
        }
    }

    /// Takes the outcome of the write that the last turn requested.
    pub fn finish_write(&mut self, outcome: WriteOutcome) -> (shown: Vec<Output>)
        requires
            old(self).wf(),
        ensures
            final(self).wf(),
            (final(self)@, outputs_view(shown@)) == after_write(old(self)@, outcome),
    {
        let mut shown: Vec<Output> = Vec::new();
        let ghost spec_outcome = outcome;
        match outcome {
            WriteOutcome::Written(n) => {
                shown.push(Output::Written(n));
                assert(outputs_view(shown@) == seq![OutputView::Written(n)]);
            },
            WriteOutcome::WriteFailed(m) => {
                shown.push(Output::Question);
                assert(outputs_view(shown@) == seq![OutputView::Question]);
                self.last_error = m;
            },
            WriteOutcome::CreateFailed(e) => {
                shown.push(Output::Question);
                assert(outputs_view(shown@) == seq![OutputView::Question]);
                let mut message = self.buffer.filename.clone();
                match e {
                    CreateError::PermissionDenied => message.append(": permission denied"),
                    CreateError::NotFound => message.append(": No such file or directory"),
                    CreateError::InvalidInput => message.append(": invalid filename"),
                    CreateError::Other(d) => {
                        message.append(": ");
                        message.append(d.as_str());
                        message.append(" \n btw how did you do this? srsly, i'm curious, feel free to msg me");
                    },
                }
                self.last_error = message;
            },
        }
        self.buffer.modified = false;
        self.tried_quit = false;
        self.end_turn(&mut shown);
        shown
    }
}

} // verus!
