use ratatui::backend::TestBackend;
use ratatui::layout::Rect;
use ratatui::text::{Line, Text};
use ratatui::widgets::{Block, Borders, Paragraph};
use ratatui::Terminal;

use rust_loop_vectorizer::command_line::{parse_args, Parsed, Policy, VectorWidth};
use rust_loop_vectorizer::field::TextField;
use rust_loop_vectorizer::host::{Argument, HostPath};
use rust_loop_vectorizer::screen::{
    border_tone, cursor_position, footer_line, form_lines, form_title, header_line, history_lines,
    screen_areas, transcript_lines, transcript_title, Area, Look, Piece, Tone,
};
use rust_loop_vectorizer::session::{
    policy_name, width_name, App, EntryStatus, HistoryEntry, Key, KeyPress, LaunchError, LaunchStep,
    WorkerResult, FIELD_COUNT, HISTORY_CAP,
};

fn press(key: Key) -> KeyPress {
    KeyPress {
        key,
        pressed: true,
        control: false,
        alt: false,
    }
}

fn control(c: char) -> KeyPress {
    KeyPress {
        control: true,
        ..press(Key::Character(c))
    }
}

fn line_text(line: &[Piece]) -> String {
    line.iter().map(|piece| piece.text.as_str()).collect()
}

#[test]
fn text_editor_handles_unicode_boundaries() {
    let mut field = TextField::new("aλ");
    field.move_left();
    field.backspace();
    assert_eq!(field.value, "λ");
    assert_eq!(field.cursor, 0);
    field.delete();
    assert!(field.value.is_empty());
}

#[test]
fn command_uses_policy_for_automatic_width() {
    let app = App::default();
    assert_eq!(
        app.command_arguments(),
        [
            "--policy",
            "balanced",
            "--report",
            "tests/fixtures/vectorizable.ll",
            "-o",
            "build/tui-vectorized.ll"
        ]
    );
}

#[test]
fn command_uses_forced_width_and_toggles() {
    let app = App {
        vector_width: 3,
        verify: false,
        emit_bitcode: true,
        ..App::default()
    };
    let arguments = app.command_arguments();
    assert!(arguments.windows(2).any(|pair| pair == ["--vf", "8"]));
    assert!(arguments.iter().any(|argument| argument == "--no-verify"));
    assert!(
        arguments
            .iter()
            .any(|argument| argument == "--emit-bitcode")
    );
    assert!(!arguments.iter().any(|argument| argument == "--policy"));
}

#[test]
fn navigation_wraps_in_both_directions() {
    let mut app = App::default();
    app.previous_field();
    assert_eq!(app.focused, FIELD_COUNT - 1);
    app.next_field();
    assert_eq!(app.focused, 0);
}

#[test]
fn selectors_cycle_in_both_directions() {
    let mut app = App {
        focused: 2,
        ..App::default()
    };
    app.cycle_selected(false);
    assert_eq!(policy_name(app.policy), "aggressive");
    app.cycle_selected(true);
    assert_eq!(policy_name(app.policy), "balanced");

    app.focused = 3;
    app.cycle_selected(false);
    assert_eq!(width_name(app.vector_width), "16");
}

#[test]
fn immediate_validation_failure_is_recorded_without_spawning_a_worker() {
    let mut app = App {
        input: TextField::new(""),
        ..App::default()
    };
    let start = app.execute();
    assert!(!start);
    assert!(!app.running);
    assert_eq!(app.history.len(), 1);
    assert_eq!(app.history[0].status, EntryStatus::Failed);
}

#[test]
fn history_is_capped() {
    let mut app = App::default();
    for _ in 0..(HISTORY_CAP + 3) {
        app.push_history(HistoryEntry {
            command: "x".to_owned(),
            status: EntryStatus::Success,
            detail: String::new(),
        });
    }
    assert_eq!(app.history.len(), HISTORY_CAP);
}

#[test]
fn history_drops_the_oldest_entries() {
    let mut app = App::default();
    for k in 0..10 {
        app.push_immediate_failure(&format!("failure {k}"));
    }
    let details: Vec<_> = app.history.iter().map(|entry| entry.detail.as_str()).collect();
    assert_eq!(details.len(), 8);
    assert_eq!(details[0], "failure 2");
    assert_eq!(details[7], "failure 9");
}

#[test]
fn typing_can_be_taken_back() {
    let mut field = TextField::new("ab");
    field.move_left();
    field.insert('€');
    assert_eq!(field.value, "a€b");
    assert_eq!(field.cursor, 4);
    field.backspace();
    assert_eq!(field, {
        let mut other = TextField::new("ab");
        other.move_left();
        other
    });
    field.insert('𝄞');
    field.move_left();
    assert_eq!(field.cursor, 1);
    field.delete();
    assert_eq!(field.value, "ab");
    field.move_home();
    field.move_left();
    field.backspace();
    assert_eq!(field.cursor, 0);
    field.move_end();
    field.move_right();
    field.delete();
    assert_eq!((field.value.as_str(), field.cursor), ("ab", 2));
    field.move_home();
    field.move_right();
    assert_eq!(field.cursor, 1);
}

#[test]
fn keys_edit_the_focused_field() {
    let mut app = App {
        input: TextField::new("in"),
        output: TextField::new("out"),
        ..App::default()
    };
    assert!(!app.handle_key(press(Key::Character('!'))));
    assert_eq!(app.input.value, "in!");
    app.handle_key(press(Key::Backspace));
    app.handle_key(press(Key::Home));
    app.handle_key(press(Key::Delete));
    assert_eq!(app.input.value, "n");
    app.handle_key(press(Key::Down));
    app.handle_key(press(Key::Left));
    app.handle_key(press(Key::Character(' ')));
    assert_eq!(app.output.value, "ou t");
    app.handle_key(press(Key::End));
    app.handle_key(press(Key::Right));
    app.handle_key(press(Key::Character('x')));
    assert_eq!(app.output.value, "ou tx");
    app.handle_key(control('x'));
    app.handle_key(KeyPress {
        alt: true,
        ..press(Key::Character('x'))
    });
    app.handle_key(KeyPress {
        pressed: false,
        ..press(Key::Character('x'))
    });
    app.handle_key(press(Key::Enter));
    app.handle_key(press(Key::Other));
    assert_eq!(app.output.value, "ou tx");
}

#[test]
fn keys_change_selectors_and_switches() {
    let mut app = App::default();
    app.handle_key(press(Key::Tab));
    app.handle_key(press(Key::Tab));
    app.handle_key(press(Key::Right));
    assert_eq!(policy_name(app.policy), "conservative");
    app.handle_key(press(Key::Tab));
    app.handle_key(press(Key::Left));
    assert_eq!(width_name(app.vector_width), "16");
    app.handle_key(press(Key::Tab));
    app.handle_key(press(Key::Enter));
    assert!(!app.report);
    app.handle_key(press(Key::Character(' ')));
    assert!(app.report);
    app.handle_key(press(Key::Tab));
    app.handle_key(control(' '));
    assert!(!app.verify);
    app.handle_key(press(Key::Tab));
    app.handle_key(press(Key::Character('y')));
    assert!(!app.emit_bitcode);
    app.handle_key(press(Key::Character(' ')));
    assert!(app.emit_bitcode);
    app.handle_key(press(Key::BackTab));
    assert_eq!(app.focused, 5);
    app.handle_key(press(Key::Up));
    assert_eq!(app.focused, 4);
}

#[test]
fn keys_scroll_and_quit() {
    let mut app = App::default();
    app.handle_key(press(Key::PageUp));
    assert_eq!(app.transcript_scroll, 0);
    app.handle_key(press(Key::PageDown));
    app.handle_key(press(Key::PageDown));
    app.handle_key(press(Key::PageUp));
    assert_eq!(app.transcript_scroll, 5);
    app.transcript_scroll = u16::MAX - 2;
    app.handle_key(press(Key::PageDown));
    assert_eq!(app.transcript_scroll, u16::MAX);
    assert!(!app.quit);
    app.handle_key(press(Key::Escape));
    assert!(app.quit);
    let mut other = App::default();
    other.handle_key(control('c'));
    assert!(other.quit);
}

#[test]
fn runs_are_started_one_at_a_time() {
    let mut app = App::default();
    assert!(app.handle_key(control('r')));
    let arguments = app.start("/bin/rv vectorize");
    assert_eq!(arguments, App::default().command_arguments());
    assert!(app.running);
    assert_eq!(
        app.history[0].command,
        "/bin/rv vectorize --policy balanced --report tests/fixtures/vectorizable.ll \
         -o build/tui-vectorized.ll"
    );
    assert_eq!(app.history[0].status, EntryStatus::Running);
    assert!(!app.handle_key(control('r')));
    app.focused = 7;
    assert!(!app.handle_key(press(Key::Enter)));
    assert_eq!(app.history.len(), 1);
}

#[test]
fn blank_paths_are_refused() {
    let mut app = App {
        output: TextField::new(" \t\u{3000}"),
        focused: 7,
        ..App::default()
    };
    assert!(!app.handle_key(press(Key::Enter)));
    assert_eq!(app.history[0].detail, "Input and output paths are required.");
    assert_eq!(app.history[0].command, "");
    let mut other = App::default();
    assert!(!other.request_run(true, false));
    assert!(other.request_run(false, false));
    assert_eq!(other.history.len(), 1);
}

#[test]
fn output_directories_are_found() {
    let with = |output: &str| App {
        output: TextField::new(output),
        ..App::default()
    };
    assert_eq!(with("build/x/out.ll").output_directory(), Some("build/x".to_owned()));
    assert_eq!(with("out.ll").output_directory(), None);
    assert_eq!(with("/").output_directory(), None);
    assert_eq!(with("/out.ll").output_directory(), Some("/".to_owned()));
    assert_eq!(with("out//x.ll").output_directory(), Some("out".to_owned()));
    assert_eq!(with("out/./x.ll").output_directory(), Some("out".to_owned()));
    assert_eq!(with("./x.ll").output_directory(), Some(".".to_owned()));
    assert_eq!(with("out/x.ll/.").output_directory(), Some("out".to_owned()));
    assert_eq!(with(".").output_directory(), None);
}

fn finished(success: bool, code: Option<i32>, stdout: &str, stderr: &str) -> WorkerResult {
    WorkerResult {
        success,
        code,
        stdout: stdout.to_owned(),
        stderr: stderr.to_owned(),
        spawn_error: None,
    }
}

#[test]
fn ticks_move_the_spinner_and_take_in_results() {
    let mut app = App::default();
    app.tick(Some(finished(true, Some(0), "", "")));
    assert_eq!((app.spinner_frame, app.history.len()), (0, 0));
    app.start("rv");
    for _ in 0..11 {
        app.tick(None);
    }
    assert_eq!(app.spinner_frame, 1);
    assert!(app.running);
    app.tick(Some(finished(true, Some(0), " text \n", "\n remark\n")));
    assert!(!app.running);
    assert_eq!(app.spinner_frame, 2);
    assert_eq!(app.history[0].status, EntryStatus::Success);
    assert_eq!(
        app.history[0].detail,
        "wrote output successfully.\nremark\n\nstdout:\ntext"
    );
}

#[test]
fn failed_results_are_worded() {
    let detail = |result: WorkerResult| {
        let mut app = App::default();
        app.start("rv");
        app.tick(Some(result));
        assert_eq!(app.history[0].status, EntryStatus::Failed);
        app.history.remove(0).detail
    };
    assert_eq!(
        detail(finished(false, Some(-2), "", " ")),
        "rv-vectorize exited with status -2."
    );
    assert_eq!(
        detail(finished(false, None, "", "bad")),
        "rv-vectorize exited with status signal.\nbad"
    );
    let unstarted = WorkerResult {
        spawn_error: Some("no such file".to_owned()),
        ..finished(false, None, "out", "err")
    };
    assert_eq!(detail(unstarted), "Could not start rv-vectorize: no such file");
}

#[test]
fn the_driver_understands_every_choice() {
    for policy in 0..3 {
        for vector_width in 0..5 {
            for bits in 0..8 {
                let app = App {
                    policy,
                    vector_width,
                    report: bits & 1 != 0,
                    verify: bits & 2 != 0,
                    emit_bitcode: bits & 4 != 0,
                    ..App::default()
                };
                let arguments: Vec<Argument> =
                    app.command_arguments().into_iter().map(Argument::Unicode).collect();
                let Ok(Parsed::Run(options)) = parse_args(&arguments) else {
                    panic!("expected runnable options");
                };
                assert_eq!(options.report, app.report);
                assert_eq!(options.verify, app.verify);
                assert_eq!(options.emit_bitcode, app.emit_bitcode);
                assert_eq!(options.input, Some(HostPath::new("tests/fixtures/vectorizable.ll")));
                assert_eq!(options.output, Some(HostPath::new("build/tui-vectorized.ll")));
                let widths = [
                    VectorWidth::Auto,
                    VectorWidth::Fixed(2),
                    VectorWidth::Fixed(4),
                    VectorWidth::Fixed(8),
                    VectorWidth::Fixed(16),
                ];
                assert_eq!(options.vector_width, widths[vector_width]);
                let policies = [Policy::Balanced, Policy::Conservative, Policy::Aggressive];
                let chosen = if vector_width == 0 { policy } else { 0 };
                assert_eq!(options.policy, policies[chosen]);
            }
        }
    }
}

#[test]
fn the_form_shows_the_choices() {
    let app = App {
        focused: 1,
        ..App::default()
    };
    let lines = form_lines(&app);
    let texts: Vec<_> = lines.iter().map(|line| line_text(line)).collect();
    assert_eq!(
        texts,
        [
            "Input       tests/fixtures/vectorizable.ll",
            "Output      build/tui-vectorized.ll",
            "",
            "Policy      balanced",
            "Vector widthauto",
            "Report      [x] enabled",
            "Verify      [x] enabled",
            "Bitcode     [ ] disabled",
            "",
            "Action      [ Run vectorizer ]",
        ]
    );
    let selected = Look {
        foreground: Tone::Ink,
        background: Some(Tone::Accent),
        bold: true,
    };
    assert_eq!(lines[1][1].look, selected);
    assert_eq!(lines[0][1].look.foreground, Tone::Text);
    assert_eq!(lines[0][0].look.foreground, Tone::Muted);
}

#[test]
fn the_transcript_shows_the_runs() {
    let mut app = App::default();
    assert_eq!(
        line_text(&transcript_lines(&app)[0]),
        "No runs yet. Configure the pass, then press Enter on Run or Ctrl-R."
    );
    assert_eq!(border_tone(&app), Tone::AccentDim);
    app.start("rv");
    app.tick(None);
    let lines = transcript_lines(&app);
    assert_eq!(lines.len(), 3);
    assert!(line_text(&lines[0]).starts_with("❯ rv --policy balanced"));
    assert_eq!(line_text(&lines[1]), "⠙ running…");
    assert_eq!(line_text(&lines[2]), "");
    assert_eq!(border_tone(&app), Tone::Pending);
    app.tick(Some(finished(true, Some(0), "", "one\r\n\ntwo")));
    let texts: Vec<_> = transcript_lines(&app).iter().map(|line| line_text(line)).collect();
    assert_eq!(
        texts[1..],
        ["✔ success", "  wrote output successfully.", "  one", "  ", "  two", ""]
    );
    assert_eq!(border_tone(&app), Tone::Success);
    app.push_immediate_failure("broken");
    assert_eq!(transcript_lines(&app).len(), 7 + 3);
    assert_eq!(border_tone(&app), Tone::Failure);
}

#[test]
fn entries_without_a_command_have_no_prompt() {
    let entry = HistoryEntry {
        command: String::new(),
        status: EntryStatus::Failed,
        detail: "a\rb\n".to_owned(),
    };
    let texts: Vec<_> = history_lines(&entry, "*").iter().map(|line| line_text(line)).collect();
    assert_eq!(texts, ["✘ failed", "  a\rb", ""]);
}

#[test]
fn the_bars_name_the_program_and_its_keys() {
    assert_eq!(
        line_text(&header_line()),
        "✳ rv-vectorize  research LLVM loop vectorizer"
    );
    assert_eq!(
        line_text(&footer_line()),
        " ❯ tab/↑↓ next  ←→ change  enter/space select  ctrl-r run  esc quit "
    );
    assert_eq!(Tone::Accent.rgb(), (0xD9, 0x77, 0x57));
}

#[test]
fn the_screen_is_divided() {
    let area = Area {
        x: 0,
        y: 0,
        width: 120,
        height: 32,
    };
    let screen = screen_areas(area);
    assert_eq!(
        screen.header,
        Area {
            height: 3,
            ..area
        }
    );
    assert_eq!(
        screen.footer,
        Area {
            y: 29,
            height: 3,
            ..area
        }
    );
    assert_eq!(
        screen.form,
        Area {
            x: 0,
            y: 3,
            width: 50,
            height: 26
        }
    );
    assert_eq!(
        screen.transcript,
        Area {
            x: 50,
            y: 3,
            width: 70,
            height: 26
        }
    );
}

#[test]
fn screens_of_every_size_are_divided() {
    for y in [0, 1, 65_500] {
        for height in 0..=70 {
            let area = Area {
                x: 3,
                y,
                width: 80,
                height,
            };
            let screen = screen_areas(area);
            let (header, content, footer) = (screen.header, screen.form, screen.footer);
            let lines = height.min(u16::MAX - y);
            assert_eq!(header.y, y);
            assert_eq!(content.y, header.y + header.height);
            assert_eq!(footer.y, content.y + content.height);
            assert_eq!(header.height + content.height + footer.height, lines);
            if lines >= 18 {
                assert_eq!((header.height, footer.height), (3, 3));
            } else {
                assert_eq!(content.height, lines.min(12));
                assert!(header.height <= 3 && footer.height <= 3);
            }
        }
    }
    for x in [0, 2, 65_300] {
        for width in (0..=300).chain([5_025, 40_001, 65_535]) {
            let area = Area {
                x,
                y: 0,
                width,
                height: 20,
            };
            let screen = screen_areas(area);
            let columns = u32::from(width.min(u16::MAX - x));
            assert_eq!((screen.header.x, screen.header.width), (x, width));
            assert_eq!((screen.footer.x, screen.footer.width), (x, width));
            assert_eq!(screen.form.x, x);
            assert_eq!(screen.transcript.x, x + screen.form.width);
            assert_eq!(u32::from(screen.form.width), (columns * 42 + 50) / 100);
            assert_eq!(
                u32::from(screen.form.width) + u32::from(screen.transcript.width),
                columns
            );
        }
    }
}

fn rect(area: Area) -> Rect {
    Rect {
        x: area.x,
        y: area.y,
        width: area.width,
        height: area.height,
    }
}

fn framed(lines: &[Vec<Piece>], title: String) -> Paragraph<'static> {
    let lines: Vec<_> = lines.iter().map(|line| Line::from(line_text(line))).collect();
    Paragraph::new(Text::from(lines)).block(Block::default().borders(Borders::ALL).title(title))
}

#[test]
fn renders_at_typical_terminal_size() {
    let backend = TestBackend::new(120, 32);
    let mut terminal = Terminal::new(backend).expect("test terminal");
    let app = App::default();
    terminal
        .draw(|frame| {
            let whole = frame.area();
            let screen = screen_areas(Area {
                x: whole.x,
                y: whole.y,
                width: whole.width,
                height: whole.height,
            });
            frame.render_widget(framed(&[header_line()], String::new()), rect(screen.header));
            frame.render_widget(framed(&form_lines(&app), form_title().text), rect(screen.form));
            frame.render_widget(
                framed(&transcript_lines(&app), transcript_title().text),
                rect(screen.transcript),
            );
            frame.render_widget(framed(&[footer_line()], String::new()), rect(screen.footer));
        })
        .expect("render TUI");
    let buffer = terminal.backend().buffer();
    let rendered = format!("{buffer:?}");
    assert!(rendered.contains("rv-vectorize"));
    assert!(rendered.contains("Configuration"));
    assert!(rendered.contains("Session"));
    assert!(rendered.contains("No runs yet"));
}

#[test]
fn panes_have_titles() {
    let look = Look {
        foreground: Tone::Text,
        background: None,
        bold: true,
    };
    assert_eq!(form_title().text, " Configuration ");
    assert_eq!(transcript_title().text, " Session ");
    assert_eq!((form_title().look, transcript_title().look), (look, look));
}

#[test]
fn launches_go_step_by_step() {
    let mut app = App::default();
    let missing = Err(LaunchError::NoDriver);
    assert_eq!(app.launch(&missing, &None, &None), LaunchStep::Stop);
    assert_eq!(app.history[0].detail, LaunchError::NoDriver.message());
    assert!(!app.running);

    let found = Ok("bin/rv".to_owned());
    let directory = Some("build".to_owned());
    assert_eq!(
        app.launch(&found, &directory, &None),
        LaunchStep::MakeDirectory("build".to_owned())
    );
    let denied = Some(Err("denied".to_owned()));
    assert_eq!(app.launch(&found, &directory, &denied), LaunchStep::Stop);
    assert_eq!(
        app.history[1].detail,
        "Cannot create output directory build: denied"
    );
    assert!(!app.running);

    let arguments = app.command_arguments();
    assert_eq!(
        app.launch(&found, &directory, &Some(Ok(()))),
        LaunchStep::Start(arguments.clone())
    );
    assert!(app.running);
    assert_eq!(app.history[2].status, EntryStatus::Running);
    assert!(app.history[2].command.starts_with("bin/rv --policy balanced"));

    let mut other = App::default();
    assert_eq!(other.launch(&found, &None, &None), LaunchStep::Start(arguments));
}

#[test]
fn white_space_is_blank() {
    let mut app = App {
        input: TextField::new("\t \u{85}\u{a0}\u{1680}\u{200a}\u{2028}\u{202f}\u{205f}\u{3000}"),
        ..App::default()
    };
    assert!(!app.execute());
    assert_eq!(app.history.len(), 1);
    app.input = TextField::new("\u{200b}");
    assert!(app.execute());
    assert!(App::default().handle_key(control('r')));
}

#[test]
fn the_cursor_stays_inside_the_form() {
    let area = Area {
        x: 2,
        y: 3,
        width: 20,
        height: 10,
    };
    let mut app = App {
        input: TextField::new("aλ"),
        ..App::default()
    };
    assert_eq!(cursor_position(&app, area), Some((17, 4)));
    app.focused = 1;
    assert_eq!(cursor_position(&app, area), None);
    app.output.move_home();
    assert_eq!(cursor_position(&app, area), Some((15, 5)));
    app.focused = 2;
    assert_eq!(cursor_position(&app, area), None);
    app.focused = 0;
    let edge = Area {
        x: u16::MAX,
        y: u16::MAX,
        width: 0,
        height: 0,
    };
    assert_eq!(cursor_position(&app, edge), None);
}

#[test]
fn launch_failures_are_worded() {
    assert_eq!(
        LaunchError::NoExecutable("gone".to_owned()).message(),
        "Cannot locate TUI binary: gone"
    );
    assert_eq!(
        LaunchError::NoDirectory.message(),
        "Cannot determine the executable directory."
    );
    assert_eq!(
        LaunchError::NoDriver.message(),
        "The rv-vectorize CLI is not beside the TUI. Run cargo build --release."
    );
    let error = LaunchError::OutputDirectory {
        directory: "build".to_owned(),
        error: "denied".to_owned(),
    };
    assert_eq!(error.message(), "Cannot create output directory build: denied");
}
