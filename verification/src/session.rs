//! The state of the interactive session: a form with the driver's options, and
//! a transcript of the runs started from it.

use crate::field::{FieldView, TextField};
use crate::host::{may_be_parent, optional_text, parent, shell_command, shell_join};
use crate::text::{signed_decimal, signed_decimal_text, texts, trim, trimmed};
use vstd::prelude::*;

verus! {

/// The number of form fields that can have the focus.
pub const FIELD_COUNT: usize = 8;

/// The number of runs that the transcript keeps.
pub const HISTORY_CAP: usize = 8;

/// The number of policies to choose from.
pub const POLICY_COUNT: usize = 3;

/// The number of vector widths to choose from.
pub const WIDTH_COUNT: usize = 5;

/// The number of frames of the spinner.
pub const SPINNER_FRAMES: usize = 10;

/// The number of lines that a page key scrolls.
pub const SCROLL_STEP: u16 = 5;

/// The policies to choose from.
pub open spec fn policy_text(index: int) -> Seq<char> {
    if index == 0 {
        "balanced"@
    } else if index == 1 {
        "conservative"@
    } else {
        "aggressive"@
    }
}

/// The name of a policy to choose.
pub fn policy_name(index: usize) -> (text: &'static str)
    requires
        index < POLICY_COUNT,
    ensures
        text@ == policy_text(index as int),
{
    if index == 0 {
        "balanced"
    } else if index == 1 {
        "conservative"
    } else {
        "aggressive"
    }
}

/// The vector widths to choose from.
pub open spec fn width_text(index: int) -> Seq<char> {
    if index == 0 {
        "auto"@
    } else if index == 1 {
        "2"@
    } else if index == 2 {
        "4"@
    } else if index == 3 {
        "8"@
    } else {
        "16"@
    }
}

/// The name of a vector width to choose.
pub fn width_name(index: usize) -> (text: &'static str)
    requires
        index < WIDTH_COUNT,
    ensures
        text@ == width_text(index as int),
{
    if index == 0 {
        "auto"
    } else if index == 1 {
        "2"
    } else if index == 2 {
        "4"
    } else if index == 3 {
        "8"
    } else {
        "16"
    }
}

/// The status of one entry in the run transcript.
#[derive(Clone, Copy, Debug, PartialEq, Eq, Structural)]
pub enum EntryStatus {
    Running,
    Success,
    Failed,
}

/// One invocation shown in the session transcript: the command that ran, its
/// outcome and any captured output.
#[derive(Debug, PartialEq, Eq)]
pub struct HistoryEntry {
    pub command: String,
    pub status: EntryStatus,
    pub detail: String,
}

/// One invocation, as mathematical values.
pub ghost struct EntryView {
    pub command: Seq<char>,
    pub status: EntryStatus,
    pub detail: Seq<char>,
}

impl View for HistoryEntry {
    type V = EntryView;

    open spec fn view(&self) -> EntryView {
        EntryView { command: self.command@, status: self.status, detail: self.detail@ }
    }
}

/// The transcript, as mathematical values.
pub open spec fn entries(history: Seq<HistoryEntry>) -> Seq<EntryView> {
    history.map_values(|entry: HistoryEntry| entry@)
}

/// How a background invocation has ended.
#[derive(Debug, PartialEq, Eq)]
pub struct WorkerResult {
    pub success: bool,
    pub code: Option<i32>,
    pub stdout: String,
    pub stderr: String,
    pub spawn_error: Option<String>,
}

/// A key that the session reacts to.
#[derive(Clone, Copy, Debug, PartialEq, Eq, Structural)]
pub enum Key {
    Escape,
    Tab,
    BackTab,
    Up,
    Down,
    PageUp,
    PageDown,
    Left,
    Right,
    Home,
    End,
    Backspace,
    Delete,
    Enter,
    Character(char),
    Other,
}

/// A key event with the modifiers that matter.
#[derive(Clone, Copy, Debug, PartialEq, Eq, Structural)]
pub struct KeyPress {
    pub key: Key,
    /// Whether the key went down, rather than up again or repeating.
    pub pressed: bool,
    pub control: bool,
    pub alt: bool,
}

/// The session.
pub struct App {
    pub input: TextField,
    pub output: TextField,
    pub policy: usize,
    pub vector_width: usize,
    pub report: bool,
    pub verify: bool,
    pub emit_bitcode: bool,
    pub focused: usize,
    pub history: Vec<HistoryEntry>,
    pub transcript_scroll: u16,
    pub spinner_frame: usize,
    /// Whether a run is in flight.
    pub running: bool,
    pub quit: bool,
}

/// The session, as mathematical values.
pub ghost struct AppView {
    pub input: FieldView,
    pub output: FieldView,
    pub policy: int,
    pub vector_width: int,
    pub report: bool,
    pub verify: bool,
    pub emit_bitcode: bool,
    pub focused: int,
    pub history: Seq<EntryView>,
    pub transcript_scroll: int,
    pub spinner_frame: int,
    pub running: bool,
    pub quit: bool,
}

impl View for App {
    type V = AppView;

    open spec fn view(&self) -> AppView {
        AppView {
            input: self.input@,
            output: self.output@,
            policy: self.policy as int,
            vector_width: self.vector_width as int,
            report: self.report,
            verify: self.verify,
            emit_bitcode: self.emit_bitcode,
            focused: self.focused as int,
            history: entries(self.history@),
            transcript_scroll: self.transcript_scroll as int,
            spinner_frame: self.spinner_frame as int,
            running: self.running,
            quit: self.quit,
        }
    }
}

impl AppView {
    /// Choices are among those on offer, the transcript is within its bound, and
    /// a run in flight is the last entry of the transcript.
    pub open spec fn wf(self) -> bool {
        &&& self.input.wf()
        &&& self.output.wf()
        &&& 0 <= self.policy < POLICY_COUNT
        &&& 0 <= self.vector_width < WIDTH_COUNT
        &&& 0 <= self.focused < FIELD_COUNT
        &&& self.history.len() <= HISTORY_CAP
        &&& 0 <= self.transcript_scroll <= u16::MAX
        &&& 0 <= self.spinner_frame < SPINNER_FRAMES
        &&& self.running ==> self.history.len() > 0 && self.history.last().status
            == EntryStatus::Running
    }

    /// The focus on the next field.
    pub open spec fn next(self) -> AppView {
        AppView { focused: (self.focused + 1) % (FIELD_COUNT as int), ..self }
    }

    /// The focus on the previous field.
    pub open spec fn previous(self) -> AppView {
        AppView {
            focused: (self.focused + FIELD_COUNT - 1) % (FIELD_COUNT as int),
            ..self
        }
    }

    /// The focused selector on its next or previous choice.
    pub open spec fn cycled(self, forward: bool) -> AppView {
        let step = |index: int, count: int|
            if forward {
                (index + 1) % count
            } else {
                (index + count - 1) % count
            };
        if self.focused == 2 {
            AppView { policy: step(self.policy, POLICY_COUNT as int), ..self }
        } else if self.focused == 3 {
            AppView { vector_width: step(self.vector_width, WIDTH_COUNT as int), ..self }
        } else {
            self
        }
    }

    /// The focused switch turned over.
    pub open spec fn toggled(self) -> AppView {
        if self.focused == 4 {
            AppView { report: !self.report, ..self }
        } else if self.focused == 5 {
            AppView { verify: !self.verify, ..self }
        } else if self.focused == 6 {
            AppView { emit_bitcode: !self.emit_bitcode, ..self }
        } else {
            self
        }
    }

    /// The focused text field changed, if a text field has the focus.
    pub open spec fn edited(self, change: spec_fn(FieldView) -> FieldView) -> AppView {
        if self.focused == 0 {
            AppView { input: change(self.input), ..self }
        } else if self.focused == 1 {
            AppView { output: change(self.output), ..self }
        } else {
            self
        }
    }

    /// One more entry in the transcript, which drops its oldest entries and is
    /// shown from its beginning.
    pub open spec fn recorded(self, entry: EntryView) -> AppView {
        let all = self.history.push(entry);
        AppView {
            history: if all.len() > HISTORY_CAP {
                all.skip(all.len() - HISTORY_CAP)
            } else {
                all
            },
            transcript_scroll: 0,
            ..self
        }
    }

    /// A failure that never reached the driver in the transcript.
    pub open spec fn failed(self, message: Seq<char>) -> AppView {
        self.recorded(
            EntryView {
                command: Seq::empty(),
                status: EntryStatus::Failed,
                detail: message,
            },
        )
    }
}

impl Default for App {
    /// A session with example paths.
    fn default() -> (app: App)
        ensures
            app.wf(),
            app@ == initial_session(),
    {
        let app = App {
            input: TextField::new("tests/fixtures/vectorizable.ll"),
            output: TextField::new("build/tui-vectorized.ll"),
            policy: 0,
            vector_width: 0,
            report: true,
            verify: true,
            emit_bitcode: false,
            focused: 0,
            history: Vec::new(),
            transcript_scroll: 0,
            spinner_frame: 0,
            running: false,
            quit: false,
        };
        assert(entries(app.history@) =~= Seq::<EntryView>::empty());
        app
    }
}

/// A session as it begins.
pub open spec fn initial_session() -> AppView {
    AppView {
        input: FieldView::at_end("tests/fixtures/vectorizable.ll"@),
        output: FieldView::at_end("build/tui-vectorized.ll"@),
        policy: 0,
        vector_width: 0,
        report: true,
        verify: true,
        emit_bitcode: false,
        focused: 0,
        history: Seq::empty(),
        transcript_scroll: 0,
        spinner_frame: 0,
        running: false,
        quit: false,
    }
}

impl App {
    /// The session is in order.
    pub open spec fn wf(&self) -> bool {
        self.input.wf() && self.output.wf() && self@.wf()
    }

    /// Moves the focus to the next field.
    pub fn next_field(&mut self)
        requires
            old(self).wf(),
        ensures
            final(self).wf(),
            final(self)@ == old(self)@.next(),
    {
        self.focused = (self.focused + 1) % FIELD_COUNT;
    }

    /// Moves the focus to the previous field.
    pub fn previous_field(&mut self)
        requires
            old(self).wf(),
        ensures
            final(self).wf(),
            final(self)@ == old(self)@.previous(),
    {
        self.focused = (self.focused + FIELD_COUNT - 1) % FIELD_COUNT;
    }

    /// The text field that has the focus, if one has it.
    pub fn selected_text_field(&mut self) -> (field: Option<&mut TextField>)
        ensures
            match field {
                Some(field) => old(self).focused <= 1 && (if old(self).focused == 0 {
                    *field == old(self).input && *final(self) == (App {
                        input: *final(field),
                        ..*old(self)
                    })
                } else {
                    *field == old(self).output && *final(self) == (App {
                        output: *final(field),
                        ..*old(self)
                    })
                }),
                None => old(self).focused > 1 && *final(self) == *old(self),
            },
    {
        match self.focused {
            0 => Some(&mut self.input),
            1 => Some(&mut self.output),
            _ => None,
        }
    }

    /// Moves the focused selector to its next or previous choice.
    pub fn cycle_selected(&mut self, forward: bool)
        requires
            old(self).wf(),
        ensures
            final(self).wf(),
            final(self)@ == old(self)@.cycled(forward),
    {
        match self.focused {
            2 => {
                self.policy = if forward {
                    (self.policy + 1) % POLICY_COUNT
                } else {
                    (self.policy + POLICY_COUNT - 1) % POLICY_COUNT
                };
            },
            3 => {
                self.vector_width = if forward {
                    (self.vector_width + 1) % WIDTH_COUNT
                } else {
                    (self.vector_width + WIDTH_COUNT - 1) % WIDTH_COUNT
                };
            },
            _ => {},
        }
    }

    /// Turns over the focused switch.
    pub fn toggle_selected(&mut self)
        requires
            old(self).wf(),
        ensures
            final(self).wf(),
            final(self)@ == old(self)@.toggled(),
    {
        match self.focused {
            4 => self.report = !self.report,
            5 => self.verify = !self.verify,
            6 => self.emit_bitcode = !self.emit_bitcode,
            _ => {},
        }
    }

    /// Adds an entry to the transcript.
    pub fn push_history(&mut self, entry: HistoryEntry)
        ensures
            final(self)@ == old(self)@.recorded(entry@),
            final(self).input == old(self).input,
            final(self).output == old(self).output,
    {
        let ghost all = entries(self.history@).push(entry@);
        self.history.push(entry);
        assert(entries(self.history@) =~= all.skip(0));
        let ghost mut dropped: int = 0;
        while self.history.len() > HISTORY_CAP
            invariant
                0 <= dropped,
                dropped + self.history@.len() == all.len(),
                entries(self.history@) == all.skip(dropped),
                dropped > 0 ==> self.history@.len() >= HISTORY_CAP,
                self.input == old(self).input,
                self.output == old(self).output,
                (AppView { history: all, ..self@ }) == (AppView { history: all, ..old(self)@ }),
            decreases self.history@.len(),
        {
            let ghost before = entries(self.history@);
            let ghost kept = self.history@.skip(1);
            self.history.remove(0);
            assert(self.history@ =~= kept);
            assert(entries(self.history@) =~= before.skip(1));
            assert(before.skip(1) =~= all.skip(dropped + 1));
            proof {
                dropped = dropped + 1;
            }
        }
        assert(all.skip(0) =~= all);
        self.transcript_scroll = 0;
    }

    /// Records a failure that never reached the driver.
    pub fn push_immediate_failure(&mut self, message: &str)
        ensures
            final(self)@ == old(self)@.failed(message@),
            final(self).input == old(self).input,
            final(self).output == old(self).output,
    {
        self.push_history(
            HistoryEntry {
                command: String::new(),
                status: EntryStatus::Failed,
                detail: message.to_owned(),
            },
        );
    }
}

/// How a background invocation has ended, as mathematical values.
pub ghost struct WorkerView {
    pub success: bool,
    pub code: Option<i32>,
    pub stdout: Seq<char>,
    pub stderr: Seq<char>,
    pub spawn_error: Option<Seq<char>>,
}

impl View for WorkerResult {
    type V = WorkerView;

    open spec fn view(&self) -> WorkerView {
        WorkerView {
            success: self.success,
            code: self.code,
            stdout: self.stdout@,
            stderr: self.stderr@,
            spawn_error: match self.spawn_error {
                Some(error) => Some(error@),
                None => None,
            },
        }
    }
}

/// A text that is missing, or nothing but white space.
pub open spec fn is_blank(text: Seq<char>) -> bool {
    trimmed(text).len() == 0
}

/// How the end of an invocation is worded, given what it printed without white
/// space at the ends.
pub open spec fn completion(
    success: bool,
    code: Option<i32>,
    stderr: Seq<char>,
    stdout: Seq<char>,
) -> Seq<char> {
    let head = if success {
        "wrote output successfully."@
    } else {
        "rv-vectorize exited with status "@ + (match code {
            Some(code) => signed_decimal(code as int),
            None => "signal"@,
        }) + "."@
    };
    let errors = if stderr.len() > 0 {
        "\n"@ + stderr
    } else {
        Seq::empty()
    };
    let output = if stdout.len() > 0 {
        "\n\nstdout:\n"@ + stdout
    } else {
        Seq::empty()
    };
    head + errors + output
}

/// Words the end of an invocation, given what it printed without white space at
/// the ends.
pub fn completion_text(success: bool, code: Option<i32>, stderr: &str, stdout: &str) -> (text:
    String)
    ensures
        text@ == completion(success, code, stderr@, stdout@),
{
    let mut text: String = String::new();
    if success {
        text.append("wrote output successfully.");
    } else {
        text.append("rv-vectorize exited with status ");
        match code {
            Some(code) => text.append(signed_decimal_text(code).as_str()),
            None => text.append("signal"),
        }
        text.append(".");
    }
    if !stderr.is_empty() {
        text.append("\n");
        text.append(stderr);
    }
    if !stdout.is_empty() {
        text.append("\n\nstdout:\n");
        text.append(stdout);
    }
    assert(text@ =~= completion(success, code, stderr@, stdout@));
    text
}

impl AppView {
    /// The arguments that the driver is started with.
    pub open spec fn command(self) -> Seq<Seq<char>> {
        let width = if self.vector_width == 0 {
            seq!["--policy"@, policy_text(self.policy)]
        } else {
            seq!["--vf"@, width_text(self.vector_width)]
        };
        let report = if self.report {
            seq!["--report"@]
        } else {
            Seq::empty()
        };
        let verify = if self.verify {
            Seq::empty()
        } else {
            seq!["--no-verify"@]
        };
        let bitcode = if self.emit_bitcode {
            seq!["--emit-bitcode"@]
        } else {
            Seq::empty()
        };
        width + report + verify + bitcode + seq![self.input.text, "-o"@, self.output.text]
    }

    /// What a request to run comes to, given which paths are blank: the session,
    /// and whether a run is to be started. While a run is in flight, requests
    /// are ignored.
    pub open spec fn requested(self, input_blank: bool, output_blank: bool) -> (AppView, bool) {
        if self.running {
            (self, false)
        } else if input_blank || output_blank {
            (self.failed("Input and output paths are required."@), false)
        } else {
            (self, true)
        }
    }

    /// A run in flight, as the last entry of the transcript.
    pub open spec fn started(self, executable: Seq<char>) -> AppView {
        AppView {
            running: true,
            ..self.recorded(
                EntryView {
                    command: executable + " "@ + shell_command(self.command()),
                    status: EntryStatus::Running,
                    detail: Seq::empty(),
                },
            )
        }
    }

    /// The session one tick later: the spinner has moved on, and the run has
    /// ended if its result is there.
    pub open spec fn ticked(self, finished: Option<WorkerView>) -> AppView {
        let spun = AppView {
            spinner_frame: (self.spinner_frame + 1) % (SPINNER_FRAMES as int),
            ..self
        };
        match finished {
            _ if !self.running => self,
            None => spun,
            Some(result) => {
                let last = self.history.len() - 1;
                let entry = match result.spawn_error {
                    Some(error) => EntryView {
                        status: EntryStatus::Failed,
                        detail: "Could not start rv-vectorize: "@ + error,
                        ..self.history[last]
                    },
                    None => EntryView {
                        status: if result.success {
                            EntryStatus::Success
                        } else {
                            EntryStatus::Failed
                        },
                        detail: completion(
                            result.success,
                            result.code,
                            trimmed(result.stderr),
                            trimmed(result.stdout),
                        ),
                        ..self.history[last]
                    },
                };
                AppView { running: false, history: self.history.update(last, entry), ..spun }
            },
        }
    }

    /// What a key comes to: the session, and whether a run is to be started.
    pub open spec fn pressed(self, press: KeyPress) -> (AppView, bool) {
        let is_text = self.focused <= 1;
        let is_switch = 4 <= self.focused <= 6;
        let request = self.requested(is_blank(self.input.text), is_blank(self.output.text));
        if !press.pressed {
            (self, false)
        } else if press.control && press.key == Key::Character('c') {
            (AppView { quit: true, ..self }, false)
        } else if press.control && press.key == Key::Character('r') {
            request
        } else {
            match press.key {
                Key::Escape => (AppView { quit: true, ..self }, false),
                Key::Tab | Key::Down => (self.next(), false),
                Key::BackTab | Key::Up => (self.previous(), false),
                Key::PageUp => (
                    AppView {
                        transcript_scroll: if self.transcript_scroll < SCROLL_STEP {
                            0
                        } else {
                            self.transcript_scroll - SCROLL_STEP
                        },
                        ..self
                    },
                    false,
                ),
                Key::PageDown => (
                    AppView {
                        transcript_scroll: if self.transcript_scroll + SCROLL_STEP > u16::MAX {
                            u16::MAX as int
                        } else {
                            self.transcript_scroll + SCROLL_STEP
                        },
                        ..self
                    },
                    false,
                ),
                Key::Left => if is_text {
                    (self.edited(|field: FieldView| field.moved_left()), false)
                } else {
                    (self.cycled(false), false)
                },
                Key::Right => if is_text {
                    (self.edited(|field: FieldView| field.moved_right()), false)
                } else {
                    (self.cycled(true), false)
                },
                Key::Home => (self.edited(|field: FieldView| field.moved_home()), false),
                Key::End => (self.edited(|field: FieldView| field.moved_to_end()), false),
                Key::Backspace => (self.edited(|field: FieldView| field.backspaced()), false),
                Key::Delete => (self.edited(|field: FieldView| field.deleted()), false),
                Key::Enter => if self.focused == 7 {
                    request
                } else if is_switch {
                    (self.toggled(), false)
                } else {
                    (self, false)
                },
                Key::Character(c) => if c == ' ' && is_switch {
                    (self.toggled(), false)
                } else if is_text && !press.control && !press.alt {
                    (self.edited(|field: FieldView| field.inserted(c)), false)
                } else {
                    (self, false)
                },
                Key::Other => (self, false),
            }
        }
    }
}

impl App {
    /// The arguments that the driver is started with.
    pub fn command_arguments(&self) -> (arguments: Vec<String>)
        requires
            self.wf(),
        ensures
            texts(arguments@) == self@.command(),
    {
        let mut arguments: Vec<String> = Vec::new();
        if self.vector_width == 0 {
            arguments.push("--policy".to_owned());
            arguments.push(policy_name(self.policy).to_owned());
        } else {
            arguments.push("--vf".to_owned());
            arguments.push(width_name(self.vector_width).to_owned());
        }
        if self.report {
            arguments.push("--report".to_owned());
        }
        if !self.verify {
            arguments.push("--no-verify".to_owned());
        }
        if self.emit_bitcode {
            arguments.push("--emit-bitcode".to_owned());
        }
        arguments.push(self.input.value.clone());
        arguments.push("-o".to_owned());
        arguments.push(self.output.value.clone());
        assert(texts(arguments@) =~= self@.command());
        arguments
    }

    /// Reacts to a request to run, given which paths are blank, and tells
    /// whether a run is to be started.
    pub fn request_run(&mut self, input_blank: bool, output_blank: bool) -> (start: bool)
        requires
            old(self).wf(),
        ensures
            final(self).wf(),
            (final(self)@, start) == old(self)@.requested(input_blank, output_blank),
            start ==> !final(self).running,
    {
        if self.running {
            return false;
        }
        if input_blank || output_blank {
            self.push_immediate_failure("Input and output paths are required.");
            return false;
        }
        true
    }

    /// Reacts to a request to run, and tells whether a run is to be started.
    pub fn execute(&mut self) -> (start: bool)
        requires
            old(self).wf(),
        ensures
            final(self).wf(),
            (final(self)@, start) == old(self)@.requested(
                is_blank(old(self)@.input.text),
                is_blank(old(self)@.output.text),
            ),
            start ==> !final(self).running,
    {
        let input_blank: bool = trim(self.input.value.as_str()).is_empty();
        let output_blank: bool = trim(self.output.value.as_str()).is_empty();
        self.request_run(input_blank, output_blank)
    }

    /// The directory that has to exist before a run writes its output, if there
    /// is one: the parent of the output, which is up to the host, unless that is
    /// empty.
    pub fn output_directory(&self) -> (directory: Option<String>)
        ensures
            exists|parent: Option<Seq<char>>|
                may_be_parent(self.output.value@, parent) && optional_text(directory)
                    == #[trigger] needed(parent),
    {
        let parent: Option<String> = parent(self.output.value.as_str());
        let ghost found = optional_text(parent);
        let directory: Option<String> = needed_directory(parent);
        assert(may_be_parent(self.output.value@, found) && optional_text(directory) == needed(
            found,
        ));
        directory
    }

    /// Records that a run has been started, and returns its arguments.
    pub fn start(&mut self, executable: &str) -> (arguments: Vec<String>)
        requires
            old(self).wf(),
            !old(self).running,
        ensures
            final(self).wf(),
            final(self)@ == old(self)@.started(executable@),
            texts(arguments@) == old(self)@.command(),
    {
        let arguments: Vec<String> = self.command_arguments();
        let mut command: String = executable.to_owned();
        command.append(" ");
        command.append(shell_join(&arguments).as_str());
        self.push_history(
            HistoryEntry { command, status: EntryStatus::Running, detail: String::new() },
        );
        self.running = true;
        arguments
    }

    /// Moves the spinner on while a run is in flight, and takes in its result if
    /// it has ended.
    pub fn tick(&mut self, finished: Option<WorkerResult>)
        requires
            old(self).wf(),
        ensures
            final(self).wf(),
            final(self)@ == old(self)@.ticked(
                match finished {
                    Some(result) => Some(result@),
                    None => None,
                },
            ),
    {
        if !self.running {
            return ;
        }
        self.spinner_frame = (self.spinner_frame + 1) % SPINNER_FRAMES;
        let result: WorkerResult = match finished {
            Some(result) => result,
            None => return ,
        };
        let ghost before = self@;
        let ghost list = self.history@;
        self.running = false;
        match self.history.pop() {
            None => {},
            Some(entry) => {
                let (status, detail): (EntryStatus, String) = match result.spawn_error {
                    Some(error) => {
                        let mut detail: String = "Could not start rv-vectorize: ".to_owned();
                        detail.append(error.as_str());
                        (EntryStatus::Failed, detail)
                    },
                    None => (
                        if result.success {
                            EntryStatus::Success
                        } else {
                            EntryStatus::Failed
                        },
                        completion_text(
                            result.success,
                            result.code,
                            trim(result.stderr.as_str()),
                            trim(result.stdout.as_str()),
                        ),
                    ),
                };
                let updated = HistoryEntry { command: entry.command, status, detail };
                self.history.push(updated);
                assert(entries(self.history@) =~= before.history.update(
                    list.len() - 1,
                    updated@,
                ));
            },
        }
    }

    /// Reacts to a key, and tells whether a run is to be started.
    #[verifier::rlimit(60)]
    pub fn handle_key(&mut self, press: KeyPress) -> (start: bool)
        requires
            old(self).wf(),
        ensures
            final(self).wf(),
            (final(self)@, start) == old(self)@.pressed(press),
            start ==> !final(self).running,
    {
        if !press.pressed {
            return false;
        }
        if press.control && press.key == Key::Character('c') {
            self.quit = true;
            return false;
        }
        if press.control && press.key == Key::Character('r') {
            return self.execute();
        }
        let is_switch: bool = 4 <= self.focused && self.focused <= 6;
        match press.key {
            Key::Escape => self.quit = true,
            Key::Tab | Key::Down => self.next_field(),
            Key::BackTab | Key::Up => self.previous_field(),
            Key::PageUp => {
                self.transcript_scroll = if self.transcript_scroll < SCROLL_STEP {
                    0
                } else {
                    self.transcript_scroll - SCROLL_STEP
                };
            },
            Key::PageDown => {
                self.transcript_scroll = if self.transcript_scroll > u16::MAX - SCROLL_STEP {
                    u16::MAX
                } else {
                    self.transcript_scroll + SCROLL_STEP
                };
            },
            Key::Left => match self.selected_text_field() {
                Some(field) => field.move_left(),
                None => self.cycle_selected(false),
            },
            Key::Right => match self.selected_text_field() {
                Some(field) => field.move_right(),
                None => self.cycle_selected(true),
            },
            Key::Home => match self.selected_text_field() {
                Some(field) => field.move_home(),
                None => {},
            },
            Key::End => match self.selected_text_field() {
                Some(field) => field.move_end(),
                None => {},
            },
            Key::Backspace => match self.selected_text_field() {
                Some(field) => field.backspace(),
                None => {},
            },
            Key::Delete => match self.selected_text_field() {
                Some(field) => field.delete(),
                None => {},
            },
            Key::Enter => {
                if self.focused == 7 {
                    return self.execute();
                }
                if is_switch {
                    self.toggle_selected();
                }
            },
            Key::Character(character) => {
                if character == ' ' && is_switch {
                    self.toggle_selected();
                } else if !press.control && !press.alt {
                    match self.selected_text_field() {
                        Some(field) => field.insert(character),
                        None => {},
                    }
                }
            },
            Key::Other => {},
        }
        false
    }
}

/// The directory that has to be made, given the parent of the output.
pub open spec fn needed(parent: Option<Seq<char>>) -> Option<Seq<char>> {
    match parent {
        Some(text) => if text.len() > 0 {
            Some(text)
        } else {
            None
        },
        None => None,
    }
}

/// Decides which directory has to be made, given the parent of the output.
pub fn needed_directory(parent: Option<String>) -> (directory: Option<String>)
    ensures
        optional_text(directory) == needed(optional_text(parent)),
{
    match parent {
        Some(text) => if text.as_str().is_empty() {
            None
        } else {
            Some(text)
        },
        None => None,
    }
}

/// Why a run cannot be started.
#[derive(Debug, PartialEq, Eq)]
pub enum LaunchError {
    NoExecutable(String),
    NoDirectory,
    NoDriver,
    OutputDirectory { directory: String, error: String },
}

/// Why a run cannot be started, as mathematical values.
pub ghost enum LaunchErrorView {
    NoExecutable(Seq<char>),
    NoDirectory,
    NoDriver,
    OutputDirectory { directory: Seq<char>, error: Seq<char> },
}

impl View for LaunchError {
    type V = LaunchErrorView;

    open spec fn view(&self) -> LaunchErrorView {
        match self {
            LaunchError::NoExecutable(error) => LaunchErrorView::NoExecutable(error@),
            LaunchError::NoDirectory => LaunchErrorView::NoDirectory,
            LaunchError::NoDriver => LaunchErrorView::NoDriver,
            LaunchError::OutputDirectory { directory, error } => {
                LaunchErrorView::OutputDirectory { directory: directory@, error: error@ }
            },
        }
    }
}

impl LaunchErrorView {
    /// The error in words.
    pub open spec fn text(self) -> Seq<char> {
        match self {
            LaunchErrorView::NoExecutable(error) => "Cannot locate TUI binary: "@ + error,
            LaunchErrorView::NoDirectory => "Cannot determine the executable directory."@,
            LaunchErrorView::NoDriver => {
                "The rv-vectorize CLI is not beside the TUI. Run cargo build --release."@
            },
            LaunchErrorView::OutputDirectory { directory, error } => {
                "Cannot create output directory "@ + directory + ": "@ + error
            },
        }
    }
}

impl LaunchError {
    /// The error in words.
    pub fn message(&self) -> (text: String)
        ensures
            text@ == self@.text(),
    {
        let mut text: String = String::new();
        match self {
            LaunchError::NoExecutable(error) => {
                text.append("Cannot locate TUI binary: ");
                text.append(error.as_str());
            },
            LaunchError::NoDirectory => text.append("Cannot determine the executable directory."),
            LaunchError::NoDriver => {
                text.append(
                    "The rv-vectorize CLI is not beside the TUI. Run cargo build --release.",
                );
            },
            LaunchError::OutputDirectory { directory, error } => {
                text.append("Cannot create output directory ");
                text.append(directory.as_str());
                text.append(": ");
                text.append(error.as_str());
            },
        }
        assert(text@ =~= self@.text());
        text
    }
}

/// The next step of a launch.
#[derive(Debug, PartialEq, Eq)]
pub enum LaunchStep {
    /// Make this directory, and tell how that has ended.
    MakeDirectory(String),
    /// Start the driver with these arguments.
    Start(Vec<String>),
    /// There is nothing to start.
    Stop,
}

/// The next step of a launch, as mathematical values.
pub ghost enum LaunchStepView {
    MakeDirectory(Seq<char>),
    Start(Seq<Seq<char>>),
    Stop,
}

impl View for LaunchStep {
    type V = LaunchStepView;

    open spec fn view(&self) -> LaunchStepView {
        match self {
            LaunchStep::MakeDirectory(directory) => LaunchStepView::MakeDirectory(directory@),
            LaunchStep::Start(arguments) => LaunchStepView::Start(texts(arguments@)),
            LaunchStep::Stop => LaunchStepView::Stop,
        }
    }
}

/// The path of the driver, or why there is none, as mathematical values.
pub open spec fn driver_view(driver: Result<String, LaunchError>) -> Result<
    Seq<char>,
    LaunchErrorView,
> {
    match driver {
        Ok(executable) => Ok(executable@),
        Err(error) => Err(error@),
    }
}

/// How making a directory has ended, as mathematical values.
pub open spec fn making_view(made: Option<Result<(), String>>) -> Option<Result<(), Seq<char>>> {
    match made {
        Some(Ok(())) => Some(Ok(())),
        Some(Err(error)) => Some(Err(error@)),
        None => None,
    }
}

impl AppView {
    /// What the next step of a launch comes to: the session, and the step. The
    /// driver has to be there, then the directory of the output is made, and then
    /// the run is started; the first failure is recorded.
    pub open spec fn launched(
        self,
        driver: Result<Seq<char>, LaunchErrorView>,
        directory: Option<Seq<char>>,
        made: Option<Result<(), Seq<char>>>,
    ) -> (AppView, LaunchStepView) {
        match (driver, directory, made) {
            (Err(error), _, _) => (self.failed(error.text()), LaunchStepView::Stop),
            (Ok(_), Some(directory), None) => (self, LaunchStepView::MakeDirectory(directory)),
            (Ok(_), Some(directory), Some(Err(error))) => (
                self.failed(LaunchErrorView::OutputDirectory { directory, error }.text()),
                LaunchStepView::Stop,
            ),
            (Ok(executable), _, _) => (
                self.started(executable),
                LaunchStepView::Start(self.command()),
            ),
        }
    }
}

impl App {
    /// Takes the next step of a launch, given the path of the driver or why there
    /// is none, the directory that has to exist, and how making it has ended, if
    /// that has been tried.
    pub fn launch(
        &mut self,
        driver: &Result<String, LaunchError>,
        directory: &Option<String>,
        made: &Option<Result<(), String>>,
    ) -> (step: LaunchStep)
        requires
            old(self).wf(),
            !old(self).running,
        ensures
            final(self).wf(),
            (final(self)@, step@) == old(self)@.launched(
                driver_view(*driver),
                optional_text(*directory),
                making_view(*made),
            ),
    {
        let executable: &String = match driver {
            Ok(executable) => executable,
            Err(error) => {
                self.push_immediate_failure(error.message().as_str());
                return LaunchStep::Stop;
            },
        };
        if let Some(directory) = directory {
            match made {
                None => return LaunchStep::MakeDirectory(directory.clone()),
                Some(Err(error)) => {
                    let error = LaunchError::OutputDirectory {
                        directory: directory.clone(),
                        error: error.clone(),
                    };
                    self.push_immediate_failure(error.message().as_str());
                    return LaunchStep::Stop;
                },
                Some(Ok(())) => {},
            }
        }
        LaunchStep::Start(self.start(executable.as_str()))
    }
}

} // verus!
