//! What holds of every session, and of the command lines that it builds.

use crate::command_line::{
    finished, initial_options, inline_option, no_options, policy_named, scanned, switched,
    value_option, width_named, with_value, OptionsView, ParsedView, Policy, UsageErrorView,
    ValueOption, VectorWidth,
};
use crate::field::{law_editing_is_local, law_moving_keeps_the_text, FieldView};
use crate::host::{shell_command, unicode, ArgumentView};
use crate::session::{
    completion, initial_session, is_blank, needed, policy_text, width_text, AppView, EntryStatus,
    EntryView, Key, KeyPress, LaunchErrorView, LaunchStepView, WorkerView, HISTORY_CAP,
};
use crate::text::{
    is_white_space, signed_decimal, trimmed, without_leading_space, without_trailing_space,
};
use vstd::prelude::*;
use vstd::utf8::encode_utf8;

verus! {

/// Moving the focus on and back again changes nothing.
pub proof fn law_focus_moves_are_opposite(a: AppView)
    requires
        a.wf(),
    ensures
        a.next().wf(),
        a.previous().wf(),
        a.next().previous() == a,
        a.previous().next() == a,
{
}

/// Choosing the next and then the previous choice of a selector, or the other
/// way round, changes nothing.
pub proof fn law_choices_are_opposite(a: AppView, forward: bool)
    requires
        a.wf(),
    ensures
        a.cycled(forward).wf(),
        a.cycled(forward).cycled(!forward) == a,
{
}

/// Turning a switch over twice changes nothing.
pub proof fn law_switches_turn_back(a: AppView)
    ensures
        a.toggled().toggled() == a,
{
}

/// While a run is in flight, no key starts another one.
pub proof fn law_one_run_at_a_time(a: AppView, press: KeyPress)
    requires
        a.running,
    ensures
        !a.pressed(press).1,
        a.pressed(press).0.running,
        a.pressed(press).0.history == a.history,
{
}

/// A launch starts a run if the driver was found and the directory of the output
/// was made or not needed, and only then; else there is nothing in flight.
pub proof fn law_runs_start_when_all_is_ready(
    a: AppView,
    driver: Result<Seq<char>, LaunchErrorView>,
    directory: Option<Seq<char>>,
    made: Option<Result<(), Seq<char>>>,
)
    requires
        !a.running,
    ensures
        ({
            let (after, step) = a.launched(driver, directory, made);
            let ready = driver is Ok && (directory is None || made is Some && made->0 is Ok);
            &&& step is Start <==> ready
            &&& after.running <==> ready
            &&& ready ==> step == LaunchStepView::Start(a.command())
        }),
{
}

proof fn lemma_leading_space(text: Seq<char>)
    ensures
        without_leading_space(text).len() == 0 <==> (forall|k: int|
            0 <= k < text.len() ==> is_white_space(#[trigger] text[k])),
        without_leading_space(text).len() > 0 ==> !is_white_space(without_leading_space(text)[0]),
    decreases text.len(),
{
    if text.len() > 0 && is_white_space(text[0]) {
        let rest = text.drop_first();
        lemma_leading_space(rest);
        if without_leading_space(rest).len() == 0 {
            assert forall|k: int| 0 <= k < text.len() implies is_white_space(#[trigger] text[k]) by {
                if k > 0 {
                    assert(is_white_space(rest[k - 1]));
                }
            }
        } else {
            let k = choose|k: int| 0 <= k < rest.len() && !is_white_space(#[trigger] rest[k]);
            assert(!is_white_space(text[k + 1]));
        }
    }
}

proof fn lemma_trailing_space(text: Seq<char>)
    requires
        text.len() > 0,
        !is_white_space(text[0]),
    ensures
        without_trailing_space(text).len() > 0,
    decreases text.len(),
{
    if is_white_space(text.last()) {
        lemma_trailing_space(text.drop_last());
    }
}

/// A text is blank if it holds nothing but white space.
pub proof fn law_blank_texts_are_white_space(text: Seq<char>)
    ensures
        is_blank(text) <==> (forall|k: int| 0 <= k < text.len() ==> is_white_space(#[trigger] text[k])),
{
    lemma_leading_space(text);
    let rest = without_leading_space(text);
    if rest.len() > 0 {
        lemma_trailing_space(rest);
    }
}

/// A session can start a run as it begins.
pub proof fn law_sessions_begin_ready(press: KeyPress)
    requires
        press.pressed,
        press.control,
        press.key == Key::Character('r'),
    ensures
        initial_session().wf(),
        initial_session().pressed(press) == (initial_session(), true),
{
    let a = initial_session();
    reveal_strlit("tests/fixtures/vectorizable.ll");
    reveal_strlit("build/tui-vectorized.ll");
    law_blank_texts_are_white_space(a.input.text);
    law_blank_texts_are_white_space(a.output.text);
    assert(!is_white_space(a.input.text[0]) && !is_white_space(a.output.text[0]));
}

/// The transcript keeps the newest entries, up to its bound, in their order.
pub proof fn law_transcript_keeps_the_newest(a: AppView, entry: EntryView)
    requires
        a.history.len() <= HISTORY_CAP,
    ensures
        a.recorded(entry).history.len() <= HISTORY_CAP,
        a.recorded(entry).history.last() == entry,
        a.history.len() < HISTORY_CAP ==> a.recorded(entry).history == a.history.push(entry),
        a.history.len() == HISTORY_CAP ==> a.recorded(entry).history == a.history.skip(1).push(
            entry,
        ),
{
    if a.history.len() == HISTORY_CAP {
        assert(a.recorded(entry).history =~= a.history.skip(1).push(entry));
    }
}

/// The policy that a session asks for.
pub open spec fn chosen_policy(a: AppView) -> Policy {
    if a.vector_width != 0 || a.policy == 0 {
        Policy::Balanced
    } else if a.policy == 1 {
        Policy::Conservative
    } else {
        Policy::Aggressive
    }
}

/// The width that a session asks for.
pub open spec fn chosen_width(a: AppView) -> VectorWidth {
    if a.vector_width == 0 {
        VectorWidth::Auto
    } else if a.vector_width == 1 {
        VectorWidth::Fixed(2)
    } else if a.vector_width == 2 {
        VectorWidth::Fixed(4)
    } else if a.vector_width == 3 {
        VectorWidth::Fixed(8)
    } else {
        VectorWidth::Fixed(16)
    }
}

/// The driver options that a session stands for.
pub open spec fn chosen_options(a: AppView) -> OptionsView {
    OptionsView {
        input: Some(encode_utf8(a.input.text)),
        output: Some(encode_utf8(a.output.text)),
        policy: chosen_policy(a),
        vector_width: chosen_width(a),
        report: a.report,
        emit_bitcode: a.emit_bitcode,
        verify: a.verify,
        ..no_options()
    }
}

/// The arguments of a command, as the driver receives them.
pub open spec fn received(command: Seq<Seq<char>>) -> Seq<ArgumentView> {
    command.map_values(|text: Seq<char>| unicode(text))
}

/// A text that begins with a dash.
spec fn is_dashed(text: Seq<char>) -> bool {
    text.len() > 0 && text[0] == '-'
}

proof fn lemma_dashes()
    ensures
        forall|text: Seq<char>| #[trigger] "-"@.is_prefix_of(text) <==> is_dashed(text),
{
    reveal_strlit("-");
    assert forall|text: Seq<char>| #[trigger] "-"@.is_prefix_of(text) <==> is_dashed(text) by {
        if text.len() > 0 {
            assert(text.subrange(0, 1)[0] == text[0]);
            if text[0] == '-' {
                assert("-"@ =~= text.subrange(0, 1));
            }
        }
    }
}

proof fn lemma_dashed_prefix(prefix: Seq<char>, text: Seq<char>)
    requires
        is_dashed(prefix),
        prefix.is_prefix_of(text),
    ensures
        is_dashed(text),
{
    assert(text.subrange(0, prefix.len() as int)[0] == text[0]);
}

/// A text without a dash in front is an input.
proof fn lemma_reads_input(
    arguments: Seq<ArgumentView>,
    k: int,
    o: OptionsView,
    text: Seq<char>,
)
    requires
        0 <= k < arguments.len(),
        arguments[k] == unicode(text),
        !is_dashed(text),
        o.input is None,
    ensures
        scanned(arguments, k, false, o) == scanned(
            arguments,
            k + 1,
            false,
            OptionsView { input: Some(encode_utf8(text)), ..o },
        ),
{
    lemma_dashes();
    reveal_strlit("--");
    reveal_strlit("-h");
    reveal_strlit("--help");
    reveal_strlit("-V");
    reveal_strlit("--version");
    reveal_strlit("-o");
    reveal_strlit("--output");
    reveal_strlit("--policy");
    reveal_strlit("--vf");
    reveal_strlit("--llvm-prefix");
    reveal_strlit("--opt");
    reveal_strlit("--plugin");
    reveal_strlit("--report");
    reveal_strlit("--emit-bitcode");
    reveal_strlit("--no-verify");
    reveal_strlit("--dry-run");
    reveal_strlit("--output=");
    reveal_strlit("--policy=");
    reveal_strlit("--vf=");
    reveal_strlit("--llvm-prefix=");
    reveal_strlit("--opt=");
    reveal_strlit("--plugin=");
    assert(inline_option(text) is None) by {
        if "--output="@.is_prefix_of(text) {
            lemma_dashed_prefix("--output="@, text);
        }
        if "--policy="@.is_prefix_of(text) {
            lemma_dashed_prefix("--policy="@, text);
        }
        if "--vf="@.is_prefix_of(text) {
            lemma_dashed_prefix("--vf="@, text);
        }
        if "--llvm-prefix="@.is_prefix_of(text) {
            lemma_dashed_prefix("--llvm-prefix="@, text);
        }
        if "--opt="@.is_prefix_of(text) {
            lemma_dashed_prefix("--opt="@, text);
        }
        if "--plugin="@.is_prefix_of(text) {
            lemma_dashed_prefix("--plugin="@, text);
        }
    }
}

/// An option of the session takes the next argument as its value.
proof fn lemma_reads_value(
    arguments: Seq<ArgumentView>,
    k: int,
    o: OptionsView,
    text: Seq<char>,
    option: ValueOption,
)
    requires
        0 <= k,
        k + 1 < arguments.len(),
        arguments[k] == unicode(text),
        ({
            ||| text == "--policy"@ && option == ValueOption::Policy
            ||| text == "--vf"@ && option == ValueOption::Width
            ||| text == "-o"@ && option == ValueOption::Output
        }),
        with_value(o, option, arguments[k + 1]) is Ok,
    ensures
        scanned(arguments, k, false, o) == scanned(
            arguments,
            k + 2,
            false,
            with_value(o, option, arguments[k + 1])->Ok_0,
        ),
{
    reveal_strlit("--policy");
    reveal_strlit("--vf");
    reveal_strlit("-o");
    reveal_strlit("--output");
    reveal_strlit("--");
    reveal_strlit("-h");
    reveal_strlit("--help");
    reveal_strlit("-V");
    reveal_strlit("--version");
    assert("--policy"@ != "--output"@) by {
        assert("--policy"@[2] != "--output"@[2]);
    }
    assert("-o"@ != "-h"@ && "-o"@ != "-V"@ && "-o"@ != "--"@) by {
        assert("-o"@[1] != "-h"@[1] && "-o"@[1] != "-V"@[1] && "-o"@[1] != "--"@[1]);
    }
    assert(value_option(text) == Some(option));
}

/// A switch of the session is read as that.
proof fn lemma_reads_switch(
    arguments: Seq<ArgumentView>,
    k: int,
    o: OptionsView,
    text: Seq<char>,
)
    requires
        0 <= k < arguments.len(),
        arguments[k] == unicode(text),
        text == "--report"@ || text == "--no-verify"@ || text == "--emit-bitcode"@,
    ensures
        switched(o, text) is Some,
        scanned(arguments, k, false, o) == scanned(arguments, k + 1, false, switched(o, text)->0),
{
    reveal_strlit("--report");
    reveal_strlit("--no-verify");
    reveal_strlit("--emit-bitcode");
    reveal_strlit("--");
    reveal_strlit("-h");
    reveal_strlit("--help");
    reveal_strlit("-V");
    reveal_strlit("--version");
    reveal_strlit("-o");
    reveal_strlit("--output");
    reveal_strlit("--policy");
    reveal_strlit("--vf");
    reveal_strlit("--llvm-prefix");
    reveal_strlit("--opt");
    reveal_strlit("--plugin");
    assert("--report"@ != "--output"@) by {
        assert("--report"@[2] != "--output"@[2]);
    }
    assert("--report"@ != "--policy"@) by {
        assert("--report"@[2] != "--policy"@[2]);
    }
    assert("--report"@ != "--plugin"@) by {
        assert("--report"@[2] != "--plugin"@[2]);
    }
    assert(value_option(text) is None);
}

/// The choices of a session have names that the driver knows.
proof fn lemma_choices_are_known(a: AppView)
    requires
        a.wf(),
    ensures
        a.vector_width == 0 ==> policy_named(policy_text(a.policy)) == Some(chosen_policy(a)),
        a.vector_width != 0 ==> width_named(width_text(a.vector_width)) == Some(chosen_width(a)),
{
    reveal_strlit("balanced");
    reveal_strlit("conservative");
    reveal_strlit("aggressive");
    reveal_strlit("auto");
    reveal_strlit("2");
    reveal_strlit("4");
    reveal_strlit("8");
    reveal_strlit("16");
    assert("2"@ != "4"@ && "2"@ != "8"@ && "4"@ != "8"@) by {
        assert("2"@[0] != "4"@[0] && "2"@[0] != "8"@[0] && "4"@[0] != "8"@[0]);
    }
    assert("16"@.len() == 2 && "auto"@.len() == 4);
    assert("balanced"@.len() == 8 && "conservative"@.len() == 12 && "aggressive"@.len() == 10);
}

/// Every command line that a session builds is read by the driver as the
/// options that the session stands for, provided that the input does not look
/// like an option; only if input and output are the same path is it refused.
pub proof fn law_command_lines_are_understood(a: AppView, same: bool)
    requires
        a.wf(),
        !"-"@.is_prefix_of(a.input.text),
    ensures
        scanned(received(a.command()), 0, false, initial_options()) == Ok::<
            ParsedView,
            UsageErrorView,
        >(ParsedView::Run(chosen_options(a))),
        finished(chosen_options(a), same) == (if same {
            Err::<ParsedView, UsageErrorView>(UsageErrorView::SamePaths)
        } else {
            Ok(ParsedView::Run(chosen_options(a)))
        }),
{
    lemma_dashes();
    lemma_choices_are_known(a);
    let command = a.command();
    let arguments = received(command);
    let start = initial_options();
    let chosen = OptionsView {
        policy: chosen_policy(a),
        vector_width: chosen_width(a),
        ..start
    };
    if a.vector_width == 0 {
        assert(arguments[1] == unicode(policy_text(a.policy)));
        lemma_reads_value(arguments, 0, start, "--policy"@, ValueOption::Policy);
    } else {
        assert(arguments[1] == unicode(width_text(a.vector_width)));
        lemma_reads_value(arguments, 0, start, "--vf"@, ValueOption::Width);
    }
    assert(scanned(arguments, 0, false, start) == scanned(arguments, 2, false, chosen));
    let k = if a.report {
        assert(command[2] == "--report"@);
        lemma_reads_switch(arguments, 2, chosen, "--report"@);
        3int
    } else {
        2int
    };
    let reported = OptionsView { report: a.report, ..chosen };
    assert(scanned(arguments, 2, false, chosen) == scanned(arguments, k, false, reported));
    let j = if a.verify {
        k
    } else {
        assert(command[k] == "--no-verify"@);
        lemma_reads_switch(arguments, k, reported, "--no-verify"@);
        reveal_strlit("--report");
        reveal_strlit("--no-verify");
        reveal_strlit("--emit-bitcode");
        k + 1
    };
    let verified = OptionsView { verify: a.verify, ..reported };
    assert(scanned(arguments, k, false, reported) == scanned(arguments, j, false, verified));
    let i = if a.emit_bitcode {
        assert(command[j] == "--emit-bitcode"@);
        lemma_reads_switch(arguments, j, verified, "--emit-bitcode"@);
        reveal_strlit("--report");
        reveal_strlit("--emit-bitcode");
        j + 1
    } else {
        j
    };
    let emitted = OptionsView { emit_bitcode: a.emit_bitcode, ..verified };
    assert(scanned(arguments, j, false, verified) == scanned(arguments, i, false, emitted));
    assert(command[i] == a.input.text && command[i + 1] == "-o"@ && command[i + 2]
        == a.output.text && command.len() == i + 3);
    lemma_reads_input(arguments, i, emitted, a.input.text);
    let given = OptionsView { input: Some(encode_utf8(a.input.text)), ..emitted };
    assert(arguments[i + 2] == unicode(a.output.text));
    lemma_reads_value(arguments, i + 1, given, "-o"@, ValueOption::Output);
    assert(scanned(arguments, i + 3, false, chosen_options(a)) == Ok::<
        ParsedView,
        UsageErrorView,
    >(ParsedView::Run(chosen_options(a))));
}

/// Keys that are let go or repeat do nothing. Escape and Ctrl-C quit, and change
/// nothing else.
pub proof fn law_keys_quit(a: AppView, press: KeyPress)
    ensures
        !press.pressed ==> a.pressed(press) == (a, false),
        press.pressed && (press.key == Key::Escape || press.control && press.key
            == Key::Character('c')) ==> a.pressed(press) == (AppView { quit: true, ..a }, false),
        a.pressed(press).0.quit ==> a.quit || press.pressed && (press.key == Key::Escape
            || press.control && press.key == Key::Character('c')),
{
}

/// Tab and down go to the next field, back-tab and up to the one before, round and
/// round through the eight of them; nothing else changes.
pub proof fn law_keys_move_the_focus(a: AppView, press: KeyPress)
    requires
        a.wf(),
        press.pressed,
    ensures
        press.key == Key::Tab || press.key == Key::Down ==> a.pressed(press) == (
            AppView {
                focused: if a.focused == 7 {
                    0
                } else {
                    a.focused + 1
                },
                ..a
            },
            false,
        ),
        press.key == Key::BackTab || press.key == Key::Up ==> a.pressed(press) == (
            AppView {
                focused: if a.focused == 0 {
                    7
                } else {
                    a.focused - 1
                },
                ..a
            },
            false,
        ),
        a.pressed(press).0.focused != a.focused ==> press.key == Key::Tab || press.key == Key::Down
            || press.key == Key::BackTab || press.key == Key::Up,
{
}

/// Page keys move the transcript by five lines, up to its beginning and as far as
/// lines are numbered; nothing else changes.
pub proof fn law_keys_scroll(a: AppView, press: KeyPress)
    requires
        a.wf(),
        press.pressed,
    ensures
        press.key == Key::PageUp ==> a.pressed(press) == (
            AppView {
                transcript_scroll: if a.transcript_scroll >= 5 {
                    a.transcript_scroll - 5
                } else {
                    0
                },
                ..a
            },
            false,
        ),
        press.key == Key::PageDown ==> a.pressed(press) == (
            AppView {
                transcript_scroll: if a.transcript_scroll <= 65530 {
                    a.transcript_scroll + 5
                } else {
                    65535
                },
                ..a
            },
            false,
        ),
{
}

/// A change of the focused text field, and of nothing else.
pub open spec fn with_field(a: AppView, field: FieldView) -> AppView {
    if a.focused == 0 {
        AppView { input: field, ..a }
    } else {
        AppView { output: field, ..a }
    }
}

/// In the input and output fields, keys edit the field that has the focus: letters
/// are typed, backspace and delete take away, and left, right, home and end move
/// the cursor. Nothing else changes.
pub proof fn law_keys_edit_the_focused_text(a: AppView, press: KeyPress)
    requires
        a.wf(),
        press.pressed,
        a.focused == 0 || a.focused == 1,
    ensures
        ({
            let field = if a.focused == 0 {
                a.input
            } else {
                a.output
            };
            let (text, p) = (field.text, field.position);
            let n = text.len() as int;
            let becomes = |text: Seq<char>, position: int|
                a.pressed(press) == (with_field(a, FieldView { text, position }), false);
            &&& press.key matches Key::Character(c) ==> !press.control && !press.alt ==> becomes(
                text.take(p) + seq![c] + text.skip(p),
                p + 1,
            )
            &&& press.key == Key::Backspace && p > 0 ==> becomes(
                text.take(p - 1) + text.skip(p),
                p - 1,
            )
            &&& press.key == Key::Backspace && p == 0 ==> becomes(text, 0)
            &&& press.key == Key::Delete && p < n ==> becomes(text.take(p) + text.skip(p + 1), p)
            &&& press.key == Key::Delete && p == n ==> becomes(text, n)
            &&& press.key == Key::Left ==> becomes(
                text,
                if p > 0 {
                    p - 1
                } else {
                    0
                },
            )
            &&& press.key == Key::Right ==> becomes(
                text,
                if p < n {
                    p + 1
                } else {
                    n
                },
            )
            &&& press.key == Key::Home ==> becomes(text, 0)
            &&& press.key == Key::End ==> becomes(text, n)
            &&& press.key == Key::Enter ==> a.pressed(press) == (a, false)
            &&& press.key matches Key::Character(c) ==> (press.control || press.alt) && !(
            press.control && (c == 'c' || c == 'r')) ==> a.pressed(press) == (a, false)
        }),
{
    let field = if a.focused == 0 {
        a.input
    } else {
        a.output
    };
    if let Key::Character(c) = press.key {
        law_editing_is_local(field, c);
    } else {
        law_editing_is_local(field, ' ');
    }
    law_moving_keeps_the_text(field);
}

/// On the policy and the width, right goes on to the next choice and left back to
/// the one before, round and round through three policies and five widths; nothing
/// else changes, and on the other fields that hold no text nothing does.
pub proof fn law_keys_choose(a: AppView, press: KeyPress)
    requires
        a.wf(),
        press.pressed,
        press.key == Key::Left || press.key == Key::Right,
        a.focused >= 2,
    ensures
        ({
            let on = press.key == Key::Right;
            let around = |k: int, last: int|
                if on {
                    if k == last {
                        0
                    } else {
                        k + 1
                    }
                } else if k == 0 {
                    last
                } else {
                    k - 1
                };
            &&& a.focused == 2 ==> a.pressed(press) == (
                AppView { policy: around(a.policy, 2), ..a },
                false,
            )
            &&& a.focused == 3 ==> a.pressed(press) == (
                AppView { vector_width: around(a.vector_width, 4), ..a },
                false,
            )
            &&& a.focused > 3 ==> a.pressed(press) == (a, false)
        }),
{
}

/// Enter and the space bar turn over the switch that has the focus, and change
/// nothing else.
pub proof fn law_keys_switch(a: AppView, press: KeyPress)
    requires
        press.pressed,
        press.key == Key::Enter || press.key == Key::Character(' '),
    ensures
        a.focused == 4 ==> a.pressed(press) == (AppView { report: !a.report, ..a }, false),
        a.focused == 5 ==> a.pressed(press) == (AppView { verify: !a.verify, ..a }, false),
        a.focused == 6 ==> a.pressed(press) == (
            AppView { emit_bitcode: !a.emit_bitcode, ..a },
            false,
        ),
{
}

/// A run is asked for by Ctrl-R, or by Enter on the last field, and by nothing
/// else. It starts where none is in flight and both paths hold more than white
/// space; where one of them does not, that is told in the transcript.
pub proof fn law_keys_ask_for_runs(a: AppView, press: KeyPress)
    requires
        a.wf(),
    ensures
        ({
            let asked = press.pressed && (press.control && press.key == Key::Character('r')
                || press.key == Key::Enter && a.focused == 7);
            let input_is_blank = forall|k: int|
                0 <= k < a.input.text.len() ==> is_white_space(#[trigger] a.input.text[k]);
            let output_is_blank = forall|k: int|
                0 <= k < a.output.text.len() ==> is_white_space(#[trigger] a.output.text[k]);
            let ready = !a.running && !input_is_blank && !output_is_blank;
            &&& a.pressed(press).1 <==> asked && ready
            &&& asked && (ready || a.running) ==> a.pressed(press).0 == a
            &&& asked && !ready && !a.running ==> {
                let after = a.pressed(press).0;
                &&& after.history.last() == (EntryView {
                    command: Seq::empty(),
                    status: EntryStatus::Failed,
                    detail: "Input and output paths are required."@,
                })
                &&& after.transcript_scroll == 0
                &&& after == (AppView { history: after.history, transcript_scroll: 0, ..a })
            }
            &&& !asked ==> a.pressed(press).0.history == a.history
        }),
{
    law_blank_texts_are_white_space(a.input.text);
    law_blank_texts_are_white_space(a.output.text);
    law_transcript_keeps_the_newest(
        a,
        EntryView {
            command: Seq::empty(),
            status: EntryStatus::Failed,
            detail: "Input and output paths are required."@,
        },
    );
}

/// A run that was started is the newest entry of the transcript, with the driver
/// and its arguments as its command; nothing else but the transcript's position
/// changes.
pub proof fn law_started_runs_are_recorded(a: AppView, executable: Seq<char>)
    requires
        a.history.len() <= 8,
    ensures
        ({
            let after = a.started(executable);
            let entry = after.history.last();
            &&& after.running
            &&& entry.status == EntryStatus::Running
            &&& entry.detail.len() == 0
            &&& entry.command == executable + " "@ + shell_command(a.command())
            &&& after == (AppView {
                running: true,
                history: after.history,
                transcript_scroll: 0,
                ..a
            })
            &&& a.history.len() < 8 ==> after.history == a.history.push(entry)
            &&& a.history.len() == 8 ==> after.history == a.history.skip(1).push(entry)
        }),
{
    law_transcript_keeps_the_newest(
        a,
        EntryView {
            command: executable + " "@ + shell_command(a.command()),
            status: EntryStatus::Running,
            detail: Seq::empty(),
        },
    );
}

/// The clock turns the spinner while a run is in flight. When the run has ended,
/// its entry says how: as failed where the driver could not be started, else as
/// the driver ended. Its command and all other entries stay as they are.
pub proof fn law_finished_runs_are_told(a: AppView, finished: Option<WorkerView>)
    requires
        a.wf(),
    ensures
        ({
            let after = a.ticked(finished);
            let last = a.history.len() - 1;
            let turned = if a.spinner_frame == 9 {
                0
            } else {
                a.spinner_frame + 1
            };
            &&& !a.running ==> after == a
            &&& a.running && finished is None ==> after == (AppView { spinner_frame: turned, ..a })
            &&& a.running && finished is Some ==> {
                let result = finished->0;
                let entry = after.history.last();
                &&& after == (AppView {
                    spinner_frame: turned,
                    running: false,
                    history: a.history.drop_last().push(entry),
                    ..a
                })
                &&& entry.command == a.history[last].command
                &&& entry.status == EntryStatus::Success <==> result.spawn_error is None
                    && result.success
                &&& entry.status == EntryStatus::Failed <==> result.spawn_error is Some
                    || !result.success
                &&& result.spawn_error matches Some(error) ==> entry.detail
                    == "Could not start rv-vectorize: "@ + error
                &&& result.spawn_error is None ==> entry.detail == completion(
                    result.success,
                    result.code,
                    trimmed(result.stderr),
                    trimmed(result.stdout),
                )
            }
        }),
{
    if a.running && finished is Some {
        let after = a.ticked(finished);
        assert(after.history =~= a.history.drop_last().push(after.history.last()));
    }
}

/// What is told of a run that has ended: whether output was written or with which
/// status the driver ended, and behind that what it wrote, if it wrote anything.
pub proof fn law_completions_tell_everything(
    success: bool,
    code: Option<i32>,
    stderr: Seq<char>,
    stdout: Seq<char>,
)
    ensures
        ({
            let nothing = Seq::<char>::empty();
            let head = completion(success, code, nothing, nothing);
            &&& success ==> head == "wrote output successfully."@
            &&& !success && code is Some ==> head == "rv-vectorize exited with status "@
                + signed_decimal(code->0 as int) + "."@
            &&& !success && code is None ==> head
                == "rv-vectorize exited with status signal."@
            &&& stderr.len() > 0 ==> completion(success, code, stderr, nothing) == head + "\n"@
                + stderr
            &&& stdout.len() > 0 ==> completion(success, code, stderr, stdout) == completion(
                success,
                code,
                stderr,
                nothing,
            ) + "\n\nstdout:\n"@ + stdout
        }),
{
    let nothing = Seq::<char>::empty();
    reveal_strlit("rv-vectorize exited with status ");
    reveal_strlit("signal");
    reveal_strlit(".");
    reveal_strlit("rv-vectorize exited with status signal.");
    let head = completion(success, code, nothing, nothing);
    if success {
        assert(head =~= "wrote output successfully."@);
    } else if code is None {
        assert(head =~= "rv-vectorize exited with status signal."@);
    } else {
        assert(head =~= "rv-vectorize exited with status "@ + signed_decimal(code->0 as int)
            + "."@);
    }
    if stderr.len() > 0 {
        assert(completion(success, code, stderr, nothing) =~= head + "\n"@ + stderr);
    }
    if stdout.len() > 0 {
        assert(completion(success, code, stderr, stdout) =~= completion(
            success,
            code,
            stderr,
            nothing,
        ) + "\n\nstdout:\n"@ + stdout);
    }
}

/// The directory of the output is made before a run only if it has a name, and
/// nothing starts before that has ended well.
pub proof fn law_directories_are_made_first(
    a: AppView,
    executable: Seq<char>,
    parent: Option<Seq<char>>,
    error: Seq<char>,
)
    ensures
        needed(parent) is Some <==> parent is Some && parent->0.len() > 0,
        needed(parent) is Some ==> needed(parent) == parent,
        parent matches Some(directory) ==> {
            let driver = Ok::<Seq<char>, LaunchErrorView>(executable);
            &&& a.launched(driver, parent, None) == (a, LaunchStepView::MakeDirectory(directory))
            &&& a.launched(driver, parent, Some(Err(error))) == (
                a.failed("Cannot create output directory "@ + directory + ": "@ + error),
                LaunchStepView::Stop,
            )
            &&& a.launched(driver, parent, Some(Ok(()))) == (
                a.started(executable),
                LaunchStepView::Start(a.command()),
            )
        },
{
}

} // verus!
