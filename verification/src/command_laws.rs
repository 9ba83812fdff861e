//! What each argument of a command line does, and what the options come to.

use crate::command_line::{
    finished, initial_options, inline_option, is_read_at, pipeline, scanned, switched, value_option,
    with_input, with_value, OptionsView, ParsedView, Policy, UsageErrorView, VectorWidth,
};
use crate::host::{unicode, ArgumentView};
use crate::text::decimal;
use vstd::prelude::*;

verus! {

/// What comes behind arguments that were read is read on with the options that
/// they gave.
proof fn lemma_reading_goes_on(
    front: Seq<ArgumentView>,
    rest: Seq<ArgumentView>,
    k: int,
    o: OptionsView,
    r: OptionsView,
)
    requires
        0 <= k <= front.len(),
        is_read_at(front, k, front.len() as int),
        scanned(front, k, false, o) == Ok::<ParsedView, UsageErrorView>(ParsedView::Run(r)),
    ensures
        scanned(front + rest, k, false, o) == scanned(front + rest, front.len() as int, false, r),
    decreases front.len() - k,
{
    let all = front + rest;
    if k < front.len() {
        assert(all[k] == front[k]);
        let argument = front[k];
        if with_input(o, argument) is Ok && is_read_at(front, k + 1, front.len() as int)
            && scanned(front, k + 1, false, with_input(o, argument)->Ok_0) == Ok::<
            ParsedView,
            UsageErrorView,
        >(ParsedView::Run(r)) {
            lemma_reading_goes_on(front, rest, k + 1, with_input(o, argument)->Ok_0, r);
        }
        if let Some(text) = argument.text {
            if value_option(text) is Some {
                if k + 1 < front.len() {
                    assert(all[k + 1] == front[k + 1]);
                    let next = with_value(o, value_option(text)->0, front[k + 1]);
                    if next is Ok && is_read_at(front, k + 2, front.len() as int) && scanned(
                        front,
                        k + 2,
                        false,
                        next->Ok_0,
                    ) == Ok::<ParsedView, UsageErrorView>(ParsedView::Run(r)) {
                        lemma_reading_goes_on(front, rest, k + 2, next->Ok_0, r);
                    }
                }
            } else if switched(o, text) is Some {
                if scanned(front, k + 1, false, switched(o, text)->0) == Ok::<
                    ParsedView,
                    UsageErrorView,
                >(ParsedView::Run(r)) {
                    lemma_reading_goes_on(front, rest, k + 1, switched(o, text)->0, r);
                }
            } else if let Some((option, value)) = inline_option(text) {
                let next = with_value(o, option, unicode(value));
                if next is Ok && scanned(front, k + 1, false, next->Ok_0) == Ok::<
                    ParsedView,
                    UsageErrorView,
                >(ParsedView::Run(r)) {
                    lemma_reading_goes_on(front, rest, k + 1, next->Ok_0, r);
                }
            }
        }
    }
}

/// The arguments `front` are read to the end as options and inputs, and give `o`.
pub open spec fn gives(front: Seq<ArgumentView>, o: OptionsView) -> bool {
    &&& is_read_at(front, 0, front.len() as int)
    &&& scanned(front, 0, false, initial_options()) == Ok::<ParsedView, UsageErrorView>(
        ParsedView::Run(o),
    )
}

/// What `front` and two more arguments come to.
pub open spec fn after_two(
    front: Seq<ArgumentView>,
    first: Seq<char>,
    second: ArgumentView,
) -> Result<ParsedView, UsageErrorView> {
    scanned(front + seq![unicode(first), second], 0, false, initial_options())
}

/// What `front` and one more argument come to.
pub open spec fn after_one(front: Seq<ArgumentView>, last: ArgumentView) -> Result<
    ParsedView,
    UsageErrorView,
> {
    scanned(front + seq![last], 0, false, initial_options())
}

/// The run that options give.
pub open spec fn run(o: OptionsView) -> Result<ParsedView, UsageErrorView> {
    Ok(ParsedView::Run(o))
}

/// The names differ from each other.
proof fn lemma_names()
    ensures
        "--output"@ != "--policy"@ && "--output"@ != "--plugin"@ && "--output"@ != "--report"@,
        "--policy"@ != "--plugin"@ && "--policy"@ != "--report"@ && "--plugin"@ != "--report"@,
        "-o"@ != "-h"@ && "-o"@ != "-V"@ && "-o"@ != "--"@ && "-h"@ != "-V"@ && "-h"@ != "--"@,
        "-V"@ != "--"@ && "--version"@ != "--dry-run"@,
        "-o"@.len() == 2 && "-h"@.len() == 2 && "-V"@.len() == 2 && "--"@.len() == 2,
        "--output"@.len() == 8 && "--policy"@.len() == 8 && "--plugin"@.len() == 8,
        "--report"@.len() == 8 && "--help"@.len() == 6 && "--opt"@.len() == 5,
        "--vf"@.len() == 4 && "--version"@.len() == 9 && "--dry-run"@.len() == 9,
        "--no-verify"@.len() == 11 && "--llvm-prefix"@.len() == 13,
        "--emit-bitcode"@.len() == 14,
{
    reveal_strlit("-o");
    reveal_strlit("-h");
    reveal_strlit("-V");
    reveal_strlit("--");
    reveal_strlit("--output");
    reveal_strlit("--policy");
    reveal_strlit("--plugin");
    reveal_strlit("--report");
    reveal_strlit("--help");
    reveal_strlit("--opt");
    reveal_strlit("--vf");
    reveal_strlit("--version");
    reveal_strlit("--dry-run");
    reveal_strlit("--no-verify");
    reveal_strlit("--llvm-prefix");
    reveal_strlit("--emit-bitcode");
    assert("--output"@[2] == 'o' && "--report"@[2] == 'r');
    assert("--policy"@[3] == 'o' && "--plugin"@[3] == 'l');
    assert("--policy"@[2] == 'p' && "--plugin"@[2] == 'p');
    assert("-o"@[1] == 'o' && "-h"@[1] == 'h' && "-V"@[1] == 'V' && "--"@[1] == '-');
    assert("--version"@[2] == 'v' && "--dry-run"@[2] == 'd');
}

/// An option with a value sets its own field to that value, and leaves all others
/// as they were; the last of several counts.
pub proof fn law_values_set_their_field(
    front: Seq<ArgumentView>,
    o: OptionsView,
    value: ArgumentView,
)
    requires
        gives(front, o),
    ensures
        after_two(front, "-o"@, value) == run(OptionsView { output: Some(value.path), ..o }),
        after_two(front, "--output"@, value) == run(OptionsView { output: Some(value.path), ..o }),
        after_two(front, "--llvm-prefix"@, value) == run(
            OptionsView { llvm_prefix: Some(value.path), ..o },
        ),
        after_two(front, "--opt"@, value) == run(OptionsView { opt: Some(value.path), ..o }),
        after_two(front, "--plugin"@, value) == run(OptionsView { plugin: Some(value.path), ..o }),
{
    lemma_names();
    lemma_after_two(front, o, "-o"@, value);
    lemma_after_two(front, o, "--output"@, value);
    lemma_after_two(front, o, "--llvm-prefix"@, value);
    lemma_after_two(front, o, "--opt"@, value);
    lemma_after_two(front, o, "--plugin"@, value);
}

/// Two more arguments, the first the name of an option, set the option.
proof fn lemma_after_two(
    front: Seq<ArgumentView>,
    o: OptionsView,
    name: Seq<char>,
    value: ArgumentView,
)
    requires
        gives(front, o),
        value_option(name) is Some,
        name != "--"@ && name != "-h"@ && name != "--help"@ && name != "-V"@ && name
            != "--version"@,
    ensures
        after_two(front, name, value) == (match with_value(o, value_option(name)->0, value) {
            Ok(next) => run(next),
            Err(error) => Err(error),
        }),
        after_one(front, unicode(name)) == Err::<ParsedView, UsageErrorView>(
            UsageErrorView::MissingValue(name),
        ),
{
    let pair = seq![unicode(name), value];
    let single = seq![unicode(name)];
    let n = front.len() as int;
    lemma_reading_goes_on(front, pair, 0, initial_options(), o);
    lemma_reading_goes_on(front, single, 0, initial_options(), o);
    assert((front + pair)[n] == unicode(name));
    assert((front + pair)[n + 1] == value);
    assert((front + single)[n] == unicode(name));
    if let Ok(next) = with_value(o, value_option(name)->0, value) {
        assert(scanned(front + pair, n + 2, false, next) == run(next));
    }
}

/// The policies and widths that can be asked for, by their names; any other value
/// is refused as what it is, and named as it was written.
pub proof fn law_policies_and_widths_are_named(
    front: Seq<ArgumentView>,
    o: OptionsView,
    value: ArgumentView,
)
    requires
        gives(front, o),
    ensures
        value.text == Some("balanced"@) ==> after_two(front, "--policy"@, value) == run(
            OptionsView { policy: Policy::Balanced, ..o },
        ),
        value.text == Some("conservative"@) ==> after_two(front, "--policy"@, value) == run(
            OptionsView { policy: Policy::Conservative, ..o },
        ),
        value.text == Some("aggressive"@) ==> after_two(front, "--policy"@, value) == run(
            OptionsView { policy: Policy::Aggressive, ..o },
        ),
        value.text != Some("balanced"@) && value.text != Some("conservative"@) && value.text
            != Some("aggressive"@) ==> after_two(front, "--policy"@, value) == Err::<
            ParsedView,
            UsageErrorView,
        >(UsageErrorView::InvalidPolicy(value.shown)),
        value.text == Some("auto"@) ==> after_two(front, "--vf"@, value) == run(
            OptionsView { vector_width: VectorWidth::Auto, ..o },
        ),
        value.text == Some("2"@) ==> after_two(front, "--vf"@, value) == run(
            OptionsView { vector_width: VectorWidth::Fixed(2), ..o },
        ),
        value.text == Some("4"@) ==> after_two(front, "--vf"@, value) == run(
            OptionsView { vector_width: VectorWidth::Fixed(4), ..o },
        ),
        value.text == Some("8"@) ==> after_two(front, "--vf"@, value) == run(
            OptionsView { vector_width: VectorWidth::Fixed(8), ..o },
        ),
        value.text == Some("16"@) ==> after_two(front, "--vf"@, value) == run(
            OptionsView { vector_width: VectorWidth::Fixed(16), ..o },
        ),
        value.text != Some("auto"@) && value.text != Some("2"@) && value.text != Some("4"@)
            && value.text != Some("8"@) && value.text != Some("16"@) ==> after_two(
            front,
            "--vf"@,
            value,
        ) == Err::<ParsedView, UsageErrorView>(UsageErrorView::InvalidWidth(value.shown)),
{
    reveal_strlit("balanced");
    reveal_strlit("conservative");
    reveal_strlit("aggressive");
    reveal_strlit("auto");
    reveal_strlit("2");
    reveal_strlit("4");
    reveal_strlit("8");
    reveal_strlit("16");
    assert("balanced"@.len() == 8 && "conservative"@.len() == 12 && "aggressive"@.len() == 10);
    assert("auto"@.len() == 4 && "16"@.len() == 2);
    assert("2"@[0] == '2' && "4"@[0] == '4' && "8"@[0] == '8');
    lemma_names();
    lemma_after_two(front, o, "--policy"@, value);
    lemma_after_two(front, o, "--vf"@, value);
}

/// A switch turns its own field and leaves all others as they were.
pub proof fn law_switches_turn_their_field(front: Seq<ArgumentView>, o: OptionsView)
    requires
        gives(front, o),
    ensures
        after_one(front, unicode("--report"@)) == run(OptionsView { report: true, ..o }),
        after_one(front, unicode("--emit-bitcode"@)) == run(
            OptionsView { emit_bitcode: true, ..o },
        ),
        after_one(front, unicode("--no-verify"@)) == run(OptionsView { verify: false, ..o }),
        after_one(front, unicode("--dry-run"@)) == run(OptionsView { dry_run: true, ..o }),
{
    lemma_names();
    lemma_after_switch(front, o, "--report"@);
    lemma_after_switch(front, o, "--emit-bitcode"@);
    lemma_after_switch(front, o, "--no-verify"@);
    lemma_after_switch(front, o, "--dry-run"@);
}

/// One more argument, a switch, turns it.
proof fn lemma_after_switch(front: Seq<ArgumentView>, o: OptionsView, name: Seq<char>)
    requires
        gives(front, o),
        value_option(name) is None,
        switched(o, name) is Some,
        name != "--"@ && name != "-h"@ && name != "--help"@ && name != "-V"@ && name
            != "--version"@,
    ensures
        after_one(front, unicode(name)) == run(switched(o, name)->0),
{
    let single = seq![unicode(name)];
    let n = front.len() as int;
    lemma_reading_goes_on(front, single, 0, initial_options(), o);
    assert((front + single)[n] == unicode(name));
    assert(scanned(front + single, n + 1, false, switched(o, name)->0) == run(
        switched(o, name)->0,
    ));
}

/// Help and version are given wherever they are asked for, whatever follows.
pub proof fn law_help_and_version_are_given(
    front: Seq<ArgumentView>,
    o: OptionsView,
    rest: Seq<ArgumentView>,
)
    requires
        gives(front, o),
    ensures
        ({
            let on = |name: Seq<char>|
                scanned(front + (seq![unicode(name)] + rest), 0, false, initial_options());
            &&& on("-h"@) == Ok::<ParsedView, UsageErrorView>(ParsedView::Help)
            &&& on("--help"@) == Ok::<ParsedView, UsageErrorView>(ParsedView::Help)
            &&& on("-V"@) == Ok::<ParsedView, UsageErrorView>(ParsedView::Version)
            &&& on("--version"@) == Ok::<ParsedView, UsageErrorView>(ParsedView::Version)
        }),
{
    lemma_names();
    let n = front.len() as int;
    assert forall|name: Seq<char>| #[trigger]
        scanned(front + (seq![unicode(name)] + rest), 0, false, initial_options()) == scanned(
            front + (seq![unicode(name)] + rest),
            n,
            false,
            o,
        ) && (front + (seq![unicode(name)] + rest))[n] == unicode(name) by {
        lemma_reading_goes_on(front, seq![unicode(name)] + rest, 0, initial_options(), o);
    }
}

/// The text is the name of an option, or such a name with a value behind `=`.
pub open spec fn is_known_option(text: Seq<char>) -> bool {
    ||| text == "--"@
    ||| text == "-h"@ || text == "--help"@
    ||| text == "-V"@ || text == "--version"@
    ||| text == "-o"@ || text == "--output"@
    ||| text == "--policy"@ || text == "--vf"@
    ||| text == "--llvm-prefix"@ || text == "--opt"@ || text == "--plugin"@
    ||| text == "--report"@ || text == "--emit-bitcode"@
    ||| text == "--no-verify"@ || text == "--dry-run"@
    ||| "--output="@.is_prefix_of(text)
    ||| "--policy="@.is_prefix_of(text)
    ||| "--vf="@.is_prefix_of(text)
    ||| "--llvm-prefix="@.is_prefix_of(text)
    ||| "--opt="@.is_prefix_of(text)
    ||| "--plugin="@.is_prefix_of(text)
}

/// An argument that is no Unicode text or does not begin with a hyphen is the
/// input, if there is none yet, and refused otherwise; behind `--` so is every
/// argument. An argument that begins with a hyphen and is no option is refused.
pub proof fn law_other_arguments_are_inputs(
    front: Seq<ArgumentView>,
    o: OptionsView,
    last: ArgumentView,
)
    requires
        gives(front, o),
    ensures
        ({
            let begins_with_hyphen = last.text is Some && last.text->0.len() > 0
                && last.text->0[0] == '-';
            let taken = if o.input is None {
                run(OptionsView { input: Some(last.path), ..o })
            } else {
                Err(UsageErrorView::ExtraInput(last.shown))
            };
            &&& !begins_with_hyphen ==> after_one(front, last) == taken
            &&& after_two(front, "--"@, last) == taken
            &&& begins_with_hyphen && !is_known_option(last.text->0) ==> after_one(front, last)
                == Err::<ParsedView, UsageErrorView>(UsageErrorView::UnknownOption(last.shown))
        }),
{
    let n = front.len() as int;
    let single = seq![last];
    let pair = seq![unicode("--"@), last];
    lemma_names();
    lemma_reading_goes_on(front, single, 0, initial_options(), o);
    lemma_reading_goes_on(front, pair, 0, initial_options(), o);
    assert((front + single)[n] == last);
    assert((front + pair)[n] == unicode("--"@));
    assert((front + pair)[n + 1] == last);
    let next = OptionsView { input: Some(last.path), ..o };
    assert(scanned(front + single, n + 1, false, next) == run(next));
    assert(scanned(front + pair, n + 2, true, next) == run(next));
    assert(scanned(front + pair, n, false, o) == scanned(front + pair, n + 1, true, o));
    if let Some(text) = last.text {
        lemma_hyphen(text);
    }
}

/// Every option begins with a hyphen.
proof fn lemma_hyphen(text: Seq<char>)
    ensures
        "-"@.is_prefix_of(text) <==> text.len() > 0 && text[0] == '-',
        is_known_option(text) ==> text.len() > 0 && text[0] == '-',
{
    reveal_strlit("-");
    reveal_strlit("-o");
    reveal_strlit("-h");
    reveal_strlit("-V");
    reveal_strlit("--");
    reveal_strlit("--output");
    reveal_strlit("--policy");
    reveal_strlit("--plugin");
    reveal_strlit("--report");
    reveal_strlit("--help");
    reveal_strlit("--opt");
    reveal_strlit("--vf");
    reveal_strlit("--version");
    reveal_strlit("--dry-run");
    reveal_strlit("--no-verify");
    reveal_strlit("--llvm-prefix");
    reveal_strlit("--emit-bitcode");
    reveal_strlit("--output=");
    reveal_strlit("--policy=");
    reveal_strlit("--vf=");
    reveal_strlit("--llvm-prefix=");
    reveal_strlit("--opt=");
    reveal_strlit("--plugin=");
    if "-"@.is_prefix_of(text) {
        assert("-"@[0] == text[0]);
    }
    if text.len() > 0 && text[0] == '-' {
        assert(text.subrange(0, 1) =~= "-"@);
    }
    if "--output="@.is_prefix_of(text) {
        assert("--output="@[0] == text[0]);
    }
    if "--policy="@.is_prefix_of(text) {
        assert("--policy="@[0] == text[0]);
    }
    if "--vf="@.is_prefix_of(text) {
        assert("--vf="@[0] == text[0]);
    }
    if "--llvm-prefix="@.is_prefix_of(text) {
        assert("--llvm-prefix="@[0] == text[0]);
    }
    if "--opt="@.is_prefix_of(text) {
        assert("--opt="@[0] == text[0]);
    }
    if "--plugin="@.is_prefix_of(text) {
        assert("--plugin="@[0] == text[0]);
    }
}

/// An option that takes a value and comes last has none.
pub proof fn law_values_are_needed(front: Seq<ArgumentView>, o: OptionsView, name: Seq<char>)
    requires
        gives(front, o),
        name == "-o"@ || name == "--output"@ || name == "--policy"@ || name == "--vf"@ || name
            == "--llvm-prefix"@ || name == "--opt"@ || name == "--plugin"@,
    ensures
        after_one(front, unicode(name)) == Err::<ParsedView, UsageErrorView>(
            UsageErrorView::MissingValue(name),
        ),
{
    lemma_names();
    lemma_after_two(front, o, name, unicode(name));
}

/// A command line without arguments gives the defaults: nothing is named, the
/// policy is balanced, the width automatic, and the result is verified.
pub proof fn law_defaults()
    ensures
        gives(
            Seq::empty(),
            OptionsView {
                input: None,
                output: None,
                policy: Policy::Balanced,
                vector_width: VectorWidth::Auto,
                report: false,
                emit_bitcode: false,
                verify: true,
                llvm_prefix: None,
                opt: None,
                plugin: None,
                dry_run: false,
            },
        ),
{
}

/// Options run as they are, exactly where they name an input, ask for no policy
/// beside a fixed width, and do not write over what they read. What is missing is
/// told first, then what contradicts itself, then what would be lost.
pub proof fn law_complete_options_run(o: OptionsView, same: bool)
    ensures
        ({
            let contradicts = o.vector_width is Fixed && (o.policy == Policy::Conservative
                || o.policy == Policy::Aggressive);
            let overwrites = o.output is Some && same;
            &&& o.input is None ==> finished(o, same) == Err::<ParsedView, UsageErrorView>(
                UsageErrorView::MissingInput,
            )
            &&& o.input is Some && contradicts ==> finished(o, same) == Err::<
                ParsedView,
                UsageErrorView,
            >(UsageErrorView::PolicyWithWidth)
            &&& o.input is Some && !contradicts && overwrites ==> finished(o, same) == Err::<
                ParsedView,
                UsageErrorView,
            >(UsageErrorView::SamePaths)
            &&& o.input is Some && !contradicts && !overwrites ==> finished(o, same) == run(o)
        }),
{
}

/// The pass that is run: by policy where the width is automatic, by width where it
/// is fixed. A report is asked for by the pass's name, and verification by a pass
/// of its own behind it; the other options have no part in it.
pub proof fn law_pipelines_name_what_is_asked(o: OptionsView)
    ensures
        ({
            let bare = pipeline(OptionsView { report: false, verify: false, ..o });
            &&& o.vector_width is Auto && o.policy == Policy::Balanced ==> bare
                == "rust-loop-vectorize"@
            &&& o.vector_width is Auto && o.policy == Policy::Conservative ==> bare
                == "rust-loop-vectorize-conservative"@
            &&& o.vector_width is Auto && o.policy == Policy::Aggressive ==> bare
                == "rust-loop-vectorize-aggressive"@
            &&& o.vector_width matches VectorWidth::Fixed(width) ==> bare
                == "rust-loop-vectorize-force-vf"@ + decimal(width as nat)
            &&& !o.report && !o.verify ==> pipeline(o) == bare
            &&& o.report && !o.verify ==> pipeline(o) == bare + "-report"@
            &&& !o.report && o.verify ==> pipeline(o) == bare + ",verify"@
            &&& o.report && o.verify ==> pipeline(o) == bare + "-report"@ + ",verify"@
        }),
{
}

} // verus!
