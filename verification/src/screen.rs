//! What the interactive session shows: areas, lines of styled text and the
//! cursor.

use crate::session::{
    policy_name, policy_text, width_name, width_text, App, AppView, EntryStatus, EntryView,
    HistoryEntry, SPINNER_FRAMES,
};
use crate::text::{lines, lines_of, texts};
use ratatui::layout::{Constraint, Layout, Rect};
use vstd::prelude::*;

verus! {

/// The number of lines of header and footer.
pub const BAR_HEIGHT: u16 = 3;

/// The least number of lines between them.
pub const CONTENT_HEIGHT: u16 = 12;

/// The share of the width that the form has.
pub const FORM_PERCENT: u16 = 42;

/// The share of the width that the transcript has.
pub const TRANSCRIPT_PERCENT: u16 = 58;

/// The width of the labels of the form.
pub const LABEL_WIDTH: usize = 12;

/// A part of the terminal.
#[derive(Clone, Copy, Debug, PartialEq, Eq, Structural)]
pub struct Area {
    pub x: u16,
    pub y: u16,
    pub width: u16,
    pub height: u16,
}

/// A coordinate, which stays on the largest terminal.
pub open spec fn capped(value: int) -> int {
    if value > u16::MAX {
        u16::MAX as int
    } else {
        value
    }
}

/// How much of a length is left on the largest terminal from a coordinate on.
pub open spec fn extent(start: int, length: int) -> int {
    capped(start + length) - start
}

/// Rows that divide an area from its top to its bottom: a fixed, a growing and a
/// fixed one. The growing row has all the lines that the others leave. If there
/// are too few, it keeps its least number of lines as long as there are any, and
/// the other rows are cut.
pub open spec fn are_rows(
    area: Area,
    top: int,
    middle: int,
    bottom: int,
    rows: (Area, Area, Area),
) -> bool {
    let (first, second, third) = rows;
    let height = extent(area.y as int, area.height as int);
    &&& first.x == area.x && first.width == area.width
    &&& second.x == area.x && second.width == area.width
    &&& third.x == area.x && third.width == area.width
    &&& first.y == area.y
    &&& second.y == first.y + first.height
    &&& third.y == second.y + second.height
    &&& first.height + second.height + third.height == height
    &&& if height >= top + middle + bottom {
        first.height == top && third.height == bottom
    } else {
        &&& second.height == (if height < middle {
            height
        } else {
            middle
        })
        &&& first.height <= top
        &&& third.height <= bottom
    }
}

/// Columns that divide an area from its left to its right, in two shares of a
/// hundred. Where they meet is rounded to the nearest column.
pub open spec fn are_columns(area: Area, left: int, columns: (Area, Area)) -> bool {
    let (first, second) = columns;
    let width = extent(area.x as int, area.width as int);
    &&& first.y == area.y && first.height == area.height
    &&& second.y == area.y && second.height == area.height
    &&& first.x == area.x
    &&& second.x == first.x + first.width
    &&& first.width + second.width == width
    &&& first.width == (width * left + 50) / 100
}

/// `ratatui::layout::Layout::vertical` with a fixed, a growing and a fixed row,
/// and its `areas`: the contract claims that the rows divide the area without
/// gaps, that the fixed rows have their heights if there is room for all three
/// rows, and that the growing row else has its least height, or all lines if
/// there are fewer. How a shortage is shared between the fixed rows is left
/// open.
#[verifier::external_body]
fn split_rows(area: Area, top: u16, middle: u16, bottom: u16) -> (rows: (Area, Area, Area))
    requires
        middle <= i16::MAX,
    ensures
        are_rows(area, top as int, middle as int, bottom as int, rows),
{
    let [a, b, c] = Layout::vertical(
        [Constraint::Length(top), Constraint::Min(middle), Constraint::Length(bottom)],
    ).areas(Rect { x: area.x, y: area.y, width: area.width, height: area.height });
    (
        Area { x: a.x, y: a.y, width: a.width, height: a.height },
        Area { x: b.x, y: b.y, width: b.width, height: b.height },
        Area { x: c.x, y: c.y, width: c.width, height: c.height },
    )
}

/// `ratatui::layout::Layout::horizontal` with two shares of the width, and its
/// `areas`: the contract claims of shares that make a hundred that the columns
/// divide the area without a gap, and that the first has its share, rounded to
/// the nearest column.
#[verifier::external_body]
fn split_columns(area: Area, left: u16, right: u16) -> (columns: (Area, Area))
    requires
        left + right == 100,
    ensures
        are_columns(area, left as int, columns),
{
    let [a, b] = Layout::horizontal(
        [Constraint::Percentage(left), Constraint::Percentage(right)],
    ).areas(Rect { x: area.x, y: area.y, width: area.width, height: area.height });
    (
        Area { x: a.x, y: a.y, width: a.width, height: a.height },
        Area { x: b.x, y: b.y, width: b.width, height: b.height },
    )
}

/// The parts of the screen.
#[derive(Clone, Copy, Debug, PartialEq, Eq, Structural)]
pub struct Screen {
    pub header: Area,
    pub form: Area,
    pub transcript: Area,
    pub footer: Area,
}

impl Screen {
    /// What lies between header and footer of a screen on an area.
    pub open spec fn content(self, area: Area) -> Area {
        Area { x: area.x, y: self.form.y, width: area.width, height: self.form.height }
    }

    /// The screen divides an area: a header and a footer over its whole width,
    /// and between them the form beside the transcript.
    pub open spec fn divides(self, area: Area) -> bool {
        &&& are_rows(
            area,
            BAR_HEIGHT as int,
            CONTENT_HEIGHT as int,
            BAR_HEIGHT as int,
            (self.header, self.content(area), self.footer),
        )
        &&& are_columns(
            self.content(area),
            FORM_PERCENT as int,
            (self.form, self.transcript),
        )
    }
}

/// Divides the terminal.
pub fn screen_areas(area: Area) -> (screen: Screen)
    ensures
        screen.divides(area),
{
    let (header, content, footer) = split_rows(area, BAR_HEIGHT, CONTENT_HEIGHT, BAR_HEIGHT);
    let (form, transcript) = split_columns(content, FORM_PERCENT, TRANSCRIPT_PERCENT);
    let screen = Screen { header, form, transcript, footer };
    assert(screen.content(area) == content);
    screen
}

/// The parts of the screen lie on the terminal and do not overlap; if there is
/// room, header and footer have their heights, and all other lines are the form's
/// and the transcript's. The form has its share of the width, to the nearest
/// column.
pub proof fn law_screen_is_divided(area: Area, screen: Screen)
    requires
        screen.divides(area),
        area.x + area.width <= u16::MAX,
        area.y + area.height <= u16::MAX,
    ensures
        screen.header.y == area.y,
        screen.form.y == screen.header.y + screen.header.height,
        screen.transcript.y == screen.form.y,
        screen.transcript.height == screen.form.height,
        screen.footer.y == screen.form.y + screen.form.height,
        screen.footer.y + screen.footer.height == area.y + area.height,
        screen.form.x == area.x,
        screen.transcript.x == screen.form.x + screen.form.width,
        screen.transcript.x + screen.transcript.width == area.x + area.width,
        area.height >= 18 ==> screen.header.height == 3 && screen.footer.height == 3
            && screen.form.height == area.height - 6,
        42 * area.width - 50 < 100 * screen.form.width <= 42 * area.width + 50,
{
}

/// The colors of the interface: a warm accent on a neutral backdrop.
#[derive(Clone, Copy, Debug, PartialEq, Eq, Structural)]
pub enum Tone {
    Accent,
    AccentDim,
    Ink,
    Text,
    Muted,
    Success,
    Failure,
    Pending,
}

impl Tone {
    /// The red, green and blue of a color.
    pub open spec fn channels(self) -> (u8, u8, u8) {
        match self {
            Tone::Accent => (0xD9, 0x77, 0x57),
            Tone::AccentDim => (0x8A, 0x55, 0x42),
            Tone::Ink => (0x16, 0x14, 0x12),
            Tone::Text => (0xE8, 0xE6, 0xE1),
            Tone::Muted => (0x8A, 0x87, 0x82),
            Tone::Success => (0x5C, 0xB8, 0x5C),
            Tone::Failure => (0xE0, 0x5A, 0x4E),
            Tone::Pending => (0xE0, 0xB0, 0x5A),
        }
    }

    /// The red, green and blue of the color.
    pub fn rgb(self) -> (color: (u8, u8, u8))
        ensures
            color == self.channels(),
    {
        match self {
            Tone::Accent => (0xD9, 0x77, 0x57),
            Tone::AccentDim => (0x8A, 0x55, 0x42),
            Tone::Ink => (0x16, 0x14, 0x12),
            Tone::Text => (0xE8, 0xE6, 0xE1),
            Tone::Muted => (0x8A, 0x87, 0x82),
            Tone::Success => (0x5C, 0xB8, 0x5C),
            Tone::Failure => (0xE0, 0x5A, 0x4E),
            Tone::Pending => (0xE0, 0xB0, 0x5A),
        }
    }
}

/// How a piece of text looks.
#[derive(Clone, Copy, Debug, PartialEq, Eq, Structural)]
pub struct Look {
    pub foreground: Tone,
    pub background: Option<Tone>,
    pub bold: bool,
}

/// Text in a color.
pub open spec fn plain(tone: Tone) -> Look {
    Look { foreground: tone, background: None, bold: false }
}

/// Bold text in a color.
pub open spec fn strong(tone: Tone) -> Look {
    Look { foreground: tone, background: None, bold: true }
}

/// The look of a value of the form.
pub open spec fn selection(selected: bool) -> Look {
    if selected {
        Look { foreground: Tone::Ink, background: Some(Tone::Accent), bold: true }
    } else {
        plain(Tone::Text)
    }
}

/// The look of a value of the form.
pub fn selected_style(selected: bool) -> (look: Look)
    ensures
        look == selection(selected),
{
    if selected {
        Look { foreground: Tone::Ink, background: Some(Tone::Accent), bold: true }
    } else {
        Look { foreground: Tone::Text, background: None, bold: false }
    }
}

/// A piece of a line.
#[derive(Debug, PartialEq, Eq)]
pub struct Piece {
    pub text: String,
    pub look: Look,
}

/// A piece of a line, as mathematical values.
pub ghost struct PieceView {
    pub text: Seq<char>,
    pub look: Look,
}

impl View for Piece {
    type V = PieceView;

    open spec fn view(&self) -> PieceView {
        PieceView { text: self.text@, look: self.look }
    }
}

/// A line, as mathematical values.
pub open spec fn pieces(line: Seq<Piece>) -> Seq<PieceView> {
    line.map_values(|piece: Piece| piece@)
}

/// Several lines, as mathematical values.
pub open spec fn rows(list: Seq<Vec<Piece>>) -> Seq<Seq<PieceView>> {
    list.map_values(|line: Vec<Piece>| pieces(line@))
}

fn piece(text: &str, foreground: Tone, bold: bool) -> (result: Piece)
    ensures
        result@ == (PieceView {
            text: text@,
            look: Look { foreground, background: None, bold },
        }),
{
    Piece { text: text.to_owned(), look: Look { foreground, background: None, bold } }
}

/// The spaces that fill a label up.
pub open spec fn filled(text: Seq<char>) -> Seq<char> {
    text + Seq::new(
        (if text.len() < LABEL_WIDTH {
            LABEL_WIDTH - text.len()
        } else {
            0
        }) as nat,
        |k: int| ' ',
    )
}

fn fill(text: &str) -> (result: String)
    ensures
        result@ == filled(text@),
{
    let mut result: String = text.to_owned();
    let length: usize = text.unicode_len();
    let mut k: usize = length;
    while k < LABEL_WIDTH
        invariant
            length == text@.len(),
            length <= k,
            k <= LABEL_WIDTH || k == length,
            result@ == text@ + Seq::new((k - length) as nat, |j: int| ' '),
        decreases LABEL_WIDTH - k,
    {
        result.push(' ');
        assert(result@ =~= text@ + Seq::new((k + 1 - length) as nat, |j: int| ' '));
        k += 1;
    }
    result
}

/// A line of the form: a label and a value.
pub open spec fn field_row(label: Seq<char>, value: Seq<char>, selected: bool) -> Seq<PieceView> {
    seq![
        PieceView { text: filled(label), look: plain(Tone::Muted) },
        PieceView { text: value, look: selection(selected) },
    ]
}

/// Makes a line of the form.
pub fn field_line(label: &str, value: &str, selected: bool) -> (line: Vec<Piece>)
    ensures
        pieces(line@) == field_row(label@, value@, selected),
{
    let mut line: Vec<Piece> = Vec::new();
    line.push(piece(fill(label).as_str(), Tone::Muted, false));
    line.push(Piece { text: value.to_owned(), look: selected_style(selected) });
    assert(pieces(line@) =~= field_row(label@, value@, selected));
    line
}

/// The value of a switch.
pub open spec fn switch_text(enabled: bool) -> Seq<char> {
    if enabled {
        "[x] enabled"@
    } else {
        "[ ] disabled"@
    }
}

/// Makes a line of the form for a switch.
pub fn toggle_line(label: &str, enabled: bool, selected: bool) -> (line: Vec<Piece>)
    ensures
        pieces(line@) == field_row(label@, switch_text(enabled), selected),
{
    let value: &str = if enabled {
        "[x] enabled"
    } else {
        "[ ] disabled"
    };
    field_line(label, value, selected)
}

/// The title of a pane.
pub open spec fn title(text: Seq<char>) -> PieceView {
    PieceView { text, look: strong(Tone::Text) }
}

/// Makes the title of the form.
pub fn form_title() -> (result: Piece)
    ensures
        result@ == title(" Configuration "@),
{
    piece(" Configuration ", Tone::Text, true)
}

/// Makes the title of the transcript.
pub fn transcript_title() -> (result: Piece)
    ensures
        result@ == title(" Session "@),
{
    piece(" Session ", Tone::Text, true)
}

/// The form.
pub open spec fn form(a: AppView) -> Seq<Seq<PieceView>> {
    seq![
        field_row("Input"@, a.input.text, a.focused == 0),
        field_row("Output"@, a.output.text, a.focused == 1),
        Seq::empty(),
        field_row("Policy"@, policy_text(a.policy), a.focused == 2),
        field_row("Vector width"@, width_text(a.vector_width), a.focused == 3),
        field_row("Report"@, switch_text(a.report), a.focused == 4),
        field_row("Verify"@, switch_text(a.verify), a.focused == 5),
        field_row("Bitcode"@, switch_text(a.emit_bitcode), a.focused == 6),
        Seq::empty(),
        field_row("Action"@, "[ Run vectorizer ]"@, a.focused == 7),
    ]
}

/// Makes the lines of the form.
pub fn form_lines(app: &App) -> (result: Vec<Vec<Piece>>)
    requires
        app.wf(),
    ensures
        rows(result@) == form(app@),
{
    let mut result: Vec<Vec<Piece>> = Vec::new();
    result.push(field_line("Input", app.input.value.as_str(), app.focused == 0));
    result.push(field_line("Output", app.output.value.as_str(), app.focused == 1));
    result.push(Vec::new());
    result.push(field_line("Policy", policy_name(app.policy), app.focused == 2));
    result.push(field_line("Vector width", width_name(app.vector_width), app.focused == 3));
    result.push(toggle_line("Report", app.report, app.focused == 4));
    result.push(toggle_line("Verify", app.verify, app.focused == 5));
    result.push(toggle_line("Bitcode", app.emit_bitcode, app.focused == 6));
    result.push(Vec::new());
    result.push(field_line("Action", "[ Run vectorizer ]", app.focused == 7));
    assert(pieces(result@[2]@) =~= Seq::<PieceView>::empty());
    assert(pieces(result@[8]@) =~= Seq::<PieceView>::empty());
    assert(rows(result@) =~= form(app@));
    result
}

/// A frame of the spinner.
pub open spec fn spinner(frame: int) -> Seq<char> {
    if frame == 0 {
        "⠋"@
    } else if frame == 1 {
        "⠙"@
    } else if frame == 2 {
        "⠹"@
    } else if frame == 3 {
        "⠸"@
    } else if frame == 4 {
        "⠼"@
    } else if frame == 5 {
        "⠴"@
    } else if frame == 6 {
        "⠦"@
    } else if frame == 7 {
        "⠧"@
    } else if frame == 8 {
        "⠇"@
    } else {
        "⠏"@
    }
}

/// A frame of the spinner.
pub fn spinner_text(frame: usize) -> (text: &'static str)
    requires
        frame < SPINNER_FRAMES,
    ensures
        text@ == spinner(frame as int),
{
    match frame {
        0 => "⠋",
        1 => "⠙",
        2 => "⠹",
        3 => "⠸",
        4 => "⠼",
        5 => "⠴",
        6 => "⠦",
        7 => "⠧",
        8 => "⠇",
        _ => "⠏",
    }
}

/// The status of an entry, with a spinner if it is running.
pub open spec fn status_row(status: EntryStatus, spinner: Seq<char>) -> Seq<PieceView> {
    match status {
        EntryStatus::Running => seq![
            PieceView { text: spinner + " "@, look: strong(Tone::Pending) },
            PieceView { text: "running…"@, look: plain(Tone::Pending) },
        ],
        EntryStatus::Success => seq![
            PieceView { text: "✔ success"@, look: strong(Tone::Success) },
        ],
        EntryStatus::Failed => seq![
            PieceView { text: "✘ failed"@, look: strong(Tone::Failure) },
        ],
    }
}

/// An entry of the transcript: its command, its status, what it printed, and an
/// empty line.
pub open spec fn entry_rows(entry: EntryView, spinner: Seq<char>) -> Seq<Seq<PieceView>> {
    let command = if entry.command.len() > 0 {
        seq![
            seq![
                PieceView { text: "❯ "@, look: strong(Tone::Accent) },
                PieceView { text: entry.command, look: plain(Tone::Muted) },
            ],
        ]
    } else {
        Seq::empty()
    };
    let details = lines_of(entry.detail).map_values(
        |line: Seq<char>| seq![PieceView { text: "  "@ + line, look: plain(Tone::Muted) }],
    );
    command + seq![status_row(entry.status, spinner)] + details + seq![Seq::empty()]
}

fn status_line(status: EntryStatus, spinner: &str) -> (line: Vec<Piece>)
    ensures
        pieces(line@) == status_row(status, spinner@),
{
    let mut line: Vec<Piece> = Vec::new();
    match status {
        EntryStatus::Running => {
            let mut mark: String = spinner.to_owned();
            mark.append(" ");
            line.push(piece(mark.as_str(), Tone::Pending, true));
            line.push(piece("running…", Tone::Pending, false));
        },
        EntryStatus::Success => line.push(piece("✔ success", Tone::Success, true)),
        EntryStatus::Failed => line.push(piece("✘ failed", Tone::Failure, true)),
    }
    assert(pieces(line@) =~= status_row(status, spinner@));
    line
}

/// Makes the lines of one entry of the transcript.
pub fn history_lines(entry: &HistoryEntry, spinner: &str) -> (result: Vec<Vec<Piece>>)
    ensures
        rows(result@) == entry_rows(entry@, spinner@),
{
    let mut result: Vec<Vec<Piece>> = Vec::new();
    if !entry.command.as_str().is_empty() {
        let mut line: Vec<Piece> = Vec::new();
        line.push(piece("❯ ", Tone::Accent, true));
        line.push(piece(entry.command.as_str(), Tone::Muted, false));
        assert(pieces(line@) =~= seq![
            PieceView { text: "❯ "@, look: strong(Tone::Accent) },
            PieceView { text: entry.command@, look: plain(Tone::Muted) },
        ]);
        result.push(line);
    }
    result.push(status_line(entry.status, spinner));
    let ghost head = rows(result@);
    let details: Vec<String> = lines(entry.detail.as_str());
    let ghost wanted = lines_of(entry.detail@).map_values(
        |line: Seq<char>| seq![PieceView { text: "  "@ + line, look: plain(Tone::Muted) }],
    );
    let mut k: usize = 0;
    assert(head + wanted.take(0) =~= head);
    while k < details.len()
        invariant
            k <= details@.len(),
            texts(details@) == lines_of(entry.detail@),
            wanted == lines_of(entry.detail@).map_values(
                |line: Seq<char>| seq![PieceView { text: "  "@ + line, look: plain(Tone::Muted) }],
            ),
            rows(result@) == head + wanted.take(k as int),
        decreases details@.len() - k,
    {
        let ghost before = rows(result@);
        let mut text: String = "  ".to_owned();
        text.append(details[k].as_str());
        let mut line: Vec<Piece> = Vec::new();
        line.push(piece(text.as_str(), Tone::Muted, false));
        assert(texts(details@)[k as int] == details@[k as int]@);
        assert(pieces(line@) =~= wanted[k as int]);
        result.push(line);
        assert(rows(result@) =~= before.push(wanted[k as int]));
        assert(rows(result@) =~= head + wanted.take(k + 1));
        k += 1;
    }
    assert(texts(details@).len() == details@.len());
    assert(wanted.take(wanted.len() as int) =~= wanted);
    let ghost body = rows(result@);
    let last: Vec<Piece> = Vec::new();
    assert(pieces(last@) =~= Seq::<PieceView>::empty());
    result.push(last);
    assert(rows(result@) =~= body.push(Seq::empty()));
    assert(rows(result@) =~= entry_rows(entry@, spinner@));
    result
}

/// The first `count` entries of the transcript.
pub open spec fn transcript_rows(
    history: Seq<EntryView>,
    spinner: Seq<char>,
    count: nat,
) -> Seq<Seq<PieceView>>
    decreases count,
{
    if count == 0 {
        Seq::empty()
    } else {
        transcript_rows(history, spinner, (count - 1) as nat) + entry_rows(
            history[count - 1],
            spinner,
        )
    }
}

/// The transcript, or a hint if there is none.
pub open spec fn transcript(a: AppView) -> Seq<Seq<PieceView>> {
    if a.history.len() == 0 {
        seq![
            seq![
                PieceView {
                    text:
                        "No runs yet. Configure the pass, then press Enter on Run or Ctrl-R."@,
                    look: plain(Tone::Muted),
                },
            ],
        ]
    } else {
        transcript_rows(a.history, spinner(a.spinner_frame), a.history.len())
    }
}

/// Makes the lines of the transcript.
pub fn transcript_lines(app: &App) -> (result: Vec<Vec<Piece>>)
    requires
        app.wf(),
    ensures
        rows(result@) == transcript(app@),
{
    let mut result: Vec<Vec<Piece>> = Vec::new();
    if app.history.len() == 0 {
        let mut line: Vec<Piece> = Vec::new();
        line.push(
            piece(
                "No runs yet. Configure the pass, then press Enter on Run or Ctrl-R.",
                Tone::Muted,
                false,
            ),
        );
        assert(pieces(line@) =~= transcript(app@)[0]);
        result.push(line);
        assert(rows(result@) =~= transcript(app@));
        return result;
    }
    let mark: &str = spinner_text(app.spinner_frame);
    let ghost history = app@.history;
    let mut k: usize = 0;
    assert(rows(result@) =~= Seq::<Seq<PieceView>>::empty());
    while k < app.history.len()
        invariant
            k <= app.history@.len(),
            history == app@.history,
            history.len() == app.history@.len(),
            rows(result@) == transcript_rows(history, mark@, k as nat),
        decreases app.history@.len() - k,
    {
        let mut more: Vec<Vec<Piece>> = history_lines(&app.history[k], mark);
        let ghost before = result@;
        let ghost added = more@;
        assert(history[k as int] == app.history@[k as int]@);
        result.append(&mut more);
        assert(rows(result@) =~= rows(before) + rows(added));
        k += 1;
    }
    result
}

/// The header.
pub open spec fn header() -> Seq<PieceView> {
    seq![
        PieceView { text: "✳ "@, look: strong(Tone::Accent) },
        PieceView { text: "rv-vectorize"@, look: strong(Tone::Text) },
        PieceView { text: "  research LLVM loop vectorizer"@, look: plain(Tone::Muted) },
    ]
}

/// Makes the header.
pub fn header_line() -> (line: Vec<Piece>)
    ensures
        pieces(line@) == header(),
{
    let mut line: Vec<Piece> = Vec::new();
    line.push(piece("✳ ", Tone::Accent, true));
    line.push(piece("rv-vectorize", Tone::Text, true));
    line.push(piece("  research LLVM loop vectorizer", Tone::Muted, false));
    assert(pieces(line@) =~= header());
    line
}

/// The footer: keys and what they do.
pub open spec fn footer() -> Seq<PieceView> {
    let key = |text: Seq<char>| PieceView { text, look: strong(Tone::Accent) };
    let what = |text: Seq<char>| PieceView { text, look: plain(Tone::Muted) };
    seq![
        key(" ❯ "@),
        key("tab/↑↓"@),
        what(" next  "@),
        key("←→"@),
        what(" change  "@),
        key("enter/space"@),
        what(" select  "@),
        key("ctrl-r"@),
        what(" run  "@),
        key("esc"@),
        what(" quit "@),
    ]
}

/// Makes the footer.
pub fn footer_line() -> (line: Vec<Piece>)
    ensures
        pieces(line@) == footer(),
{
    let mut line: Vec<Piece> = Vec::new();
    line.push(piece(" ❯ ", Tone::Accent, true));
    line.push(piece("tab/↑↓", Tone::Accent, true));
    line.push(piece(" next  ", Tone::Muted, false));
    line.push(piece("←→", Tone::Accent, true));
    line.push(piece(" change  ", Tone::Muted, false));
    line.push(piece("enter/space", Tone::Accent, true));
    line.push(piece(" select  ", Tone::Muted, false));
    line.push(piece("ctrl-r", Tone::Accent, true));
    line.push(piece(" run  ", Tone::Muted, false));
    line.push(piece("esc", Tone::Accent, true));
    line.push(piece(" quit ", Tone::Muted, false));
    assert(pieces(line@) =~= footer());
    line
}

/// The color of the transcript's border: how the latest run stands.
pub open spec fn border(a: AppView) -> Tone {
    if a.running {
        Tone::Pending
    } else if a.history.len() == 0 {
        Tone::AccentDim
    } else {
        match a.history.last().status {
            EntryStatus::Running => Tone::Pending,
            EntryStatus::Success => Tone::Success,
            EntryStatus::Failed => Tone::Failure,
        }
    }
}

/// Chooses the color of the transcript's border.
pub fn border_tone(app: &App) -> (tone: Tone)
    ensures
        tone == border(app@),
{
    if app.running {
        return Tone::Pending;
    }
    if app.history.len() == 0 {
        return Tone::AccentDim;
    }
    assert(app@.history.last() == app.history@.last()@);
    match app.history[app.history.len() - 1].status {
        EntryStatus::Running => Tone::Pending,
        EntryStatus::Success => Tone::Success,
        EntryStatus::Failed => Tone::Failure,
    }
}

/// Where the cursor is shown: behind the character that it follows in the
/// focused text field, unless that is outside of the form's border.
pub open spec fn cursor(a: AppView, area: Area) -> Option<(int, int)> {
    let field = if a.focused == 0 {
        a.input
    } else {
        a.output
    };
    let x = capped(area.x + 13 + field.position);
    let y = capped(area.y + 1 + a.focused);
    if a.focused <= 1 && x < capped(area.x + area.width) - 1 && y < capped(area.y + area.height)
        - 1 {
        Some((x, y))
    } else {
        None
    }
}

fn capped_sum(left: u16, right: u16) -> (sum: u16)
    ensures
        sum == capped(left + right),
{
    if left > u16::MAX - right {
        u16::MAX
    } else {
        left + right
    }
}

/// Works out where the cursor is shown in the area of the form.
pub fn cursor_position(app: &App, area: Area) -> (result: Option<(u16, u16)>)
    requires
        app.wf(),
    ensures
        match (result, cursor(app@, area)) {
            (Some(found), Some(wanted)) => found.0 == wanted.0 && found.1 == wanted.1,
            (None, None) => true,
            _ => false,
        },
{
    let count: usize = match app.focused {
        0 => app.input.characters_before(),
        1 => app.output.characters_before(),
        _ => return None,
    };
    let column: u16 = if count > u16::MAX as usize {
        u16::MAX
    } else {
        count as u16
    };
    let x: u16 = capped_sum(capped_sum(area.x, 13), column);
    let y: u16 = capped_sum(capped_sum(area.y, 1), app.focused as u16);
    let right: u16 = capped_sum(area.x, area.width);
    let bottom: u16 = capped_sum(area.y, area.height);
    if right > 0 && x < right - 1 && bottom > 0 && y < bottom - 1 {
        Some((x, y))
    } else {
        None
    }
}

/// The cursor is shown inside the border of the form or not at all.
pub proof fn law_cursor_stays_inside(a: AppView, area: Area)
    requires
        a.wf(),
    ensures
        cursor(a, area) matches Some((x, y)) ==> area.x + 13 <= x < area.x + area.width - 1
            && area.y + 1 <= y < area.y + area.height - 1,
{
}

/// The form shows every option as it is, and marks the field that has the focus
/// and no other.
pub proof fn law_form_shows_the_options(a: AppView)
    requires
        a.wf(),
    ensures
        ({
            let shown = |row: int, label: Seq<char>, value: Seq<char>, field: int| {
                let line = form(a)[row];
                &&& line.len() == 2
                &&& label.is_prefix_of(line[0].text)
                &&& line[1].text == value
                &&& line[0].look.background is None
                &&& line[1].look.background is Some <==> a.focused == field
                &&& line[1].look.bold <==> a.focused == field
            };
            let switch = |on: bool| if on {
                "[x] enabled"@
            } else {
                "[ ] disabled"@
            };
            &&& form(a).len() == 10
            &&& shown(0, "Input"@, a.input.text, 0)
            &&& shown(1, "Output"@, a.output.text, 1)
            &&& form(a)[2].len() == 0
            &&& a.policy == 0 ==> shown(3, "Policy"@, "balanced"@, 2)
            &&& a.policy == 1 ==> shown(3, "Policy"@, "conservative"@, 2)
            &&& a.policy == 2 ==> shown(3, "Policy"@, "aggressive"@, 2)
            &&& a.vector_width == 0 ==> shown(4, "Vector width"@, "auto"@, 3)
            &&& a.vector_width == 1 ==> shown(4, "Vector width"@, "2"@, 3)
            &&& a.vector_width == 2 ==> shown(4, "Vector width"@, "4"@, 3)
            &&& a.vector_width == 3 ==> shown(4, "Vector width"@, "8"@, 3)
            &&& a.vector_width == 4 ==> shown(4, "Vector width"@, "16"@, 3)
            &&& shown(5, "Report"@, switch(a.report), 4)
            &&& shown(6, "Verify"@, switch(a.verify), 5)
            &&& shown(7, "Bitcode"@, switch(a.emit_bitcode), 6)
            &&& form(a)[8].len() == 0
            &&& shown(9, "Action"@, "[ Run vectorizer ]"@, 7)
        }),
{
    lemma_filled("Input"@);
    lemma_filled("Output"@);
    lemma_filled("Policy"@);
    lemma_filled("Vector width"@);
    lemma_filled("Report"@);
    lemma_filled("Verify"@);
    lemma_filled("Bitcode"@);
    lemma_filled("Action"@);
}

proof fn lemma_filled(text: Seq<char>)
    ensures
        text.is_prefix_of(filled(text)),
{
    assert(filled(text).subrange(0, text.len() as int) =~= text);
}

/// Labels are filled up with spaces to twelve columns, so that values stand below
/// each other; none is cut.
pub proof fn law_labels_are_aligned(text: Seq<char>, k: int)
    ensures
        text.len() <= 12 ==> filled(text).len() == 12,
        text.len() > 12 ==> filled(text) == text,
        0 <= k < text.len() ==> filled(text)[k] == text[k],
        text.len() <= k < 12 ==> filled(text)[k] == ' ',
{
    if text.len() > 12 {
        assert(filled(text) =~= text);
    }
}

/// The border of the transcript, and the line of an entry, tell how a run stands:
/// in one colour while it goes on, in another if it succeeded, in a third if it
/// failed.
pub proof fn law_colours_tell_how_runs_stand(a: AppView, status: EntryStatus, spinner: Seq<char>)
    ensures
        a.running ==> border(a) == Tone::Pending,
        !a.running && a.history.len() == 0 ==> border(a) == Tone::AccentDim,
        !a.running && a.history.len() > 0 && a.history.last().status == EntryStatus::Success
            ==> border(a) == Tone::Success,
        !a.running && a.history.len() > 0 && a.history.last().status == EntryStatus::Failed
            ==> border(a) == Tone::Failure,
        status_row(status, spinner)[0].look.bold,
        status == EntryStatus::Running <==> status_row(status, spinner)[0].look.foreground
            == Tone::Pending,
        status == EntryStatus::Success <==> status_row(status, spinner)[0].look.foreground
            == Tone::Success,
        status == EntryStatus::Failed <==> status_row(status, spinner)[0].look.foreground
            == Tone::Failure,
        status == EntryStatus::Running ==> status_row(status, spinner)[0].text == spinner + " "@,
{
}

/// The transcript shows the entries one below the other: the command, where there
/// is one, how it stands, each line of the detail, and an empty line.
pub proof fn law_transcript_shows_every_entry(
    history: Seq<EntryView>,
    entry: EntryView,
    spinner: Seq<char>,
    k: int,
)
    ensures
        transcript_rows(history.push(entry), spinner, history.len() + 1) == transcript_rows(
            history,
            spinner,
            history.len(),
        ) + entry_rows(entry, spinner),
        ({
            let rows = entry_rows(entry, spinner);
            let first: int = if entry.command.len() > 0 {
                1
            } else {
                0
            };
            let details = lines_of(entry.detail);
            &&& rows.len() == first + details.len() + 2
            &&& entry.command.len() > 0 ==> rows[0].len() == 2 && rows[0][1].text == entry.command
            &&& rows[first] == status_row(entry.status, spinner)
            &&& 0 <= k < details.len() ==> rows[first + 1 + k].len() == 1 && rows[first + 1
                + k][0].text == "  "@ + details[k]
            &&& rows.last().len() == 0
        }),
{
    lemma_transcript_prefix(history, entry, spinner, history.len());
    assert(history.push(entry)[history.len() as int] == entry);
}

proof fn lemma_transcript_prefix(
    history: Seq<EntryView>,
    entry: EntryView,
    spinner: Seq<char>,
    count: nat,
)
    requires
        count <= history.len(),
    ensures
        transcript_rows(history.push(entry), spinner, count) == transcript_rows(
            history,
            spinner,
            count,
        ),
    decreases count,
{
    if count > 0 {
        lemma_transcript_prefix(history, entry, spinner, (count - 1) as nat);
        assert(history.push(entry)[count - 1] == history[count - 1]);
    }
}

/// The cursor stands behind the label, at its place in the text of the field that
/// has the focus, wherever that is inside the border; else it is not shown.
pub proof fn law_cursor_marks_the_place(a: AppView, area: Area)
    requires
        a.wf(),
        area.x + area.width <= 65535,
        area.y + area.height <= 65535,
    ensures
        ({
            let p = if a.focused == 0 {
                a.input.position
            } else {
                a.output.position
            };
            let x = area.x + 13 + p;
            let y = area.y + 1 + a.focused;
            let is_inside = x < area.x + area.width - 1 && y < area.y + area.height - 1;
            &&& a.focused <= 1 && is_inside ==> cursor(a, area) == Some((x, y))
            &&& a.focused > 1 || !is_inside ==> cursor(a, area) is None
        }),
{
}

} // verus!
