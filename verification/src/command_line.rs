//! The command line of the driver: options, their errors, and the pass
//! pipeline that they select.

use crate::host::{
    are_always_same, are_settled, is_comparison, law_answers_belong_to_comparisons, may_be_same,
    unicode, Argument, ArgumentView, HostPath,
};
use crate::text::{decimal, decimal_text, same_text, starts_with};
use vstd::prelude::*;

verus! {

/// The policy that the driver asks the pass for.
#[derive(Clone, Copy, Debug, PartialEq, Eq, Structural)]
pub enum Policy {
    Balanced,
    Conservative,
    Aggressive,
}

impl Default for Policy {
    fn default() -> (policy: Policy)
        ensures
            policy == Policy::Balanced,
    {
        Policy::Balanced
    }
}

/// The policy with a name.
pub open spec fn policy_named(text: Seq<char>) -> Option<Policy> {
    if text == "balanced"@ {
        Some(Policy::Balanced)
    } else if text == "conservative"@ {
        Some(Policy::Conservative)
    } else if text == "aggressive"@ {
        Some(Policy::Aggressive)
    } else {
        None
    }
}

impl Policy {
    /// Reads the name of a policy.
    pub fn parse(value: &Argument) -> (result: Result<Policy, UsageError>)
        ensures
            match (value@.text, result) {
                (Some(text), Ok(policy)) => policy_named(text) == Some(policy),
                (Some(text), Err(error)) => policy_named(text) is None && error@
                    == UsageErrorView::InvalidPolicy(value@.shown),
                (None, Ok(_)) => false,
                (None, Err(error)) => error@ == UsageErrorView::InvalidPolicy(value@.shown),
            },
    {
        match value {
            Argument::Unicode(text) => {
                if same_text(text.as_str(), "balanced") {
                    return Ok(Policy::Balanced);
                }
                if same_text(text.as_str(), "conservative") {
                    return Ok(Policy::Conservative);
                }
                if same_text(text.as_str(), "aggressive") {
                    return Ok(Policy::Aggressive);
                }
            },
            Argument::Raw { .. } => {},
        }
        Err(UsageError::InvalidPolicy(value.shown()))
    }

    /// The pass that stands for a policy.
    pub open spec fn stem(self) -> Seq<char> {
        match self {
            Policy::Balanced => "rust-loop-vectorize"@,
            Policy::Conservative => "rust-loop-vectorize-conservative"@,
            Policy::Aggressive => "rust-loop-vectorize-aggressive"@,
        }
    }

    /// The name of the pass that stands for the policy.
    pub fn pass_stem(self) -> (text: &'static str)
        ensures
            text@ == self.stem(),
    {
        match self {
            Policy::Balanced => "rust-loop-vectorize",
            Policy::Conservative => "rust-loop-vectorize-conservative",
            Policy::Aggressive => "rust-loop-vectorize-aggressive",
        }
    }
}

/// The vector width that the driver asks the pass for.
#[derive(Clone, Copy, Debug, PartialEq, Eq, Structural)]
pub enum VectorWidth {
    Auto,
    Fixed(u8),
}

impl Default for VectorWidth {
    fn default() -> (width: VectorWidth)
        ensures
            width == VectorWidth::Auto,
    {
        VectorWidth::Auto
    }
}

/// The width with a name.
pub open spec fn width_named(text: Seq<char>) -> Option<VectorWidth> {
    if text == "auto"@ {
        Some(VectorWidth::Auto)
    } else if text == "2"@ {
        Some(VectorWidth::Fixed(2))
    } else if text == "4"@ {
        Some(VectorWidth::Fixed(4))
    } else if text == "8"@ {
        Some(VectorWidth::Fixed(8))
    } else if text == "16"@ {
        Some(VectorWidth::Fixed(16))
    } else {
        None
    }
}

impl VectorWidth {
    /// Reads the name of a width.
    pub fn parse(value: &Argument) -> (result: Result<VectorWidth, UsageError>)
        ensures
            match (value@.text, result) {
                (Some(text), Ok(width)) => width_named(text) == Some(width),
                (Some(text), Err(error)) => width_named(text) is None && error@
                    == UsageErrorView::InvalidWidth(value@.shown),
                (None, Ok(_)) => false,
                (None, Err(error)) => error@ == UsageErrorView::InvalidWidth(value@.shown),
            },
    {
        match value {
            Argument::Unicode(text) => {
                if same_text(text.as_str(), "auto") {
                    return Ok(VectorWidth::Auto);
                }
                if same_text(text.as_str(), "2") {
                    return Ok(VectorWidth::Fixed(2));
                }
                if same_text(text.as_str(), "4") {
                    return Ok(VectorWidth::Fixed(4));
                }
                if same_text(text.as_str(), "8") {
                    return Ok(VectorWidth::Fixed(8));
                }
                if same_text(text.as_str(), "16") {
                    return Ok(VectorWidth::Fixed(16));
                }
            },
            Argument::Raw { .. } => {},
        }
        Err(UsageError::InvalidWidth(value.shown()))
    }
}

/// Why a command line is not accepted.
#[derive(Debug, PartialEq, Eq)]
pub enum UsageError {
    InvalidPolicy(String),
    InvalidWidth(String),
    MissingValue(String),
    ExtraInput(String),
    UnknownOption(String),
    MissingInput,
    PolicyWithWidth,
    SamePaths,
}

/// Why a command line is not accepted, as mathematical values.
pub ghost enum UsageErrorView {
    InvalidPolicy(Seq<char>),
    InvalidWidth(Seq<char>),
    MissingValue(Seq<char>),
    ExtraInput(Seq<char>),
    UnknownOption(Seq<char>),
    MissingInput,
    PolicyWithWidth,
    SamePaths,
}

impl View for UsageError {
    type V = UsageErrorView;

    open spec fn view(&self) -> UsageErrorView {
        match self {
            UsageError::InvalidPolicy(shown) => UsageErrorView::InvalidPolicy(shown@),
            UsageError::InvalidWidth(shown) => UsageErrorView::InvalidWidth(shown@),
            UsageError::MissingValue(option) => UsageErrorView::MissingValue(option@),
            UsageError::ExtraInput(shown) => UsageErrorView::ExtraInput(shown@),
            UsageError::UnknownOption(shown) => UsageErrorView::UnknownOption(shown@),
            UsageError::MissingInput => UsageErrorView::MissingInput,
            UsageError::PolicyWithWidth => UsageErrorView::PolicyWithWidth,
            UsageError::SamePaths => UsageErrorView::SamePaths,
        }
    }
}

impl UsageErrorView {
    /// The error in words.
    pub open spec fn text(self) -> Seq<char> {
        match self {
            UsageErrorView::InvalidPolicy(shown) => "invalid policy "@ + shown
                + "; expected balanced, conservative, or aggressive"@,
            UsageErrorView::InvalidWidth(shown) => "invalid vector width "@ + shown
                + "; expected auto, 2, 4, 8, or 16"@,
            UsageErrorView::MissingValue(option) => option + " requires a value"@,
            UsageErrorView::ExtraInput(shown) => "unexpected extra input "@ + shown,
            UsageErrorView::UnknownOption(shown) => "unknown option "@ + shown,
            UsageErrorView::MissingInput => "missing input LLVM IR or bitcode file"@,
            UsageErrorView::PolicyWithWidth => "--policy and a fixed --vf cannot be combined"@,
            UsageErrorView::SamePaths => "input and output paths must differ"@,
        }
    }
}

fn two(first: &str, second: &str) -> (text: String)
    ensures
        text@ == first@ + second@,
{
    let mut text: String = first.to_owned();
    text.append(second);
    text
}

impl UsageError {
    /// The error in words.
    pub fn message(&self) -> (text: String)
        ensures
            text@ == self@.text(),
    {
        match self {
            UsageError::InvalidPolicy(shown) => two(
                two("invalid policy ", shown.as_str()).as_str(),
                "; expected balanced, conservative, or aggressive",
            ),
            UsageError::InvalidWidth(shown) => two(
                two("invalid vector width ", shown.as_str()).as_str(),
                "; expected auto, 2, 4, 8, or 16",
            ),
            UsageError::MissingValue(option) => two(option.as_str(), " requires a value"),
            UsageError::ExtraInput(shown) => two("unexpected extra input ", shown.as_str()),
            UsageError::UnknownOption(shown) => two("unknown option ", shown.as_str()),
            UsageError::MissingInput => "missing input LLVM IR or bitcode file".to_owned(),
            UsageError::PolicyWithWidth => {
                "--policy and a fixed --vf cannot be combined".to_owned()
            },
            UsageError::SamePaths => "input and output paths must differ".to_owned(),
        }
    }
}

/// What the command line asks for.
#[derive(Debug, PartialEq, Eq)]
pub struct Options {
    pub input: Option<HostPath>,
    pub output: Option<HostPath>,
    pub policy: Policy,
    pub vector_width: VectorWidth,
    pub report: bool,
    pub emit_bitcode: bool,
    pub verify: bool,
    pub llvm_prefix: Option<HostPath>,
    pub opt: Option<HostPath>,
    pub plugin: Option<HostPath>,
    pub dry_run: bool,
}

/// What the command line asks for, as mathematical values.
pub ghost struct OptionsView {
    pub input: Option<Seq<u8>>,
    pub output: Option<Seq<u8>>,
    pub policy: Policy,
    pub vector_width: VectorWidth,
    pub report: bool,
    pub emit_bitcode: bool,
    pub verify: bool,
    pub llvm_prefix: Option<Seq<u8>>,
    pub opt: Option<Seq<u8>>,
    pub plugin: Option<Seq<u8>>,
    pub dry_run: bool,
}

/// The bytes of an optional path.
pub open spec fn optional(path: Option<HostPath>) -> Option<Seq<u8>> {
    match path {
        Some(path) => Some(path@),
        None => None,
    }
}

impl View for Options {
    type V = OptionsView;

    open spec fn view(&self) -> OptionsView {
        OptionsView {
            input: optional(self.input),
            output: optional(self.output),
            policy: self.policy,
            vector_width: self.vector_width,
            report: self.report,
            emit_bitcode: self.emit_bitcode,
            verify: self.verify,
            llvm_prefix: optional(self.llvm_prefix),
            opt: optional(self.opt),
            plugin: optional(self.plugin),
            dry_run: self.dry_run,
        }
    }
}

/// Options with nothing set.
pub open spec fn no_options() -> OptionsView {
    OptionsView {
        input: None,
        output: None,
        policy: Policy::Balanced,
        vector_width: VectorWidth::Auto,
        report: false,
        emit_bitcode: false,
        verify: false,
        llvm_prefix: None,
        opt: None,
        plugin: None,
        dry_run: false,
    }
}

impl Default for Options {
    fn default() -> (options: Options)
        ensures
            options@ == no_options(),
    {
        Options {
            input: None,
            output: None,
            policy: Policy::Balanced,
            vector_width: VectorWidth::Auto,
            report: false,
            emit_bitcode: false,
            verify: false,
            llvm_prefix: None,
            opt: None,
            plugin: None,
            dry_run: false,
        }
    }
}

/// What a command line asks the driver to do.
#[derive(Debug, PartialEq, Eq)]
pub enum Parsed {
    Run(Options),
    Help,
    Version,
}

/// What a command line asks the driver to do, as mathematical values.
pub ghost enum ParsedView {
    Run(OptionsView),
    Help,
    Version,
}

impl View for Parsed {
    type V = ParsedView;

    open spec fn view(&self) -> ParsedView {
        match self {
            Parsed::Run(options) => ParsedView::Run(options@),
            Parsed::Help => ParsedView::Help,
            Parsed::Version => ParsedView::Version,
        }
    }
}

/// The options that take a value.
#[derive(Clone, Copy, Debug, PartialEq, Eq, Structural)]
pub enum ValueOption {
    Output,
    Policy,
    Width,
    LlvmPrefix,
    Opt,
    Plugin,
}

/// The option whose value is the next argument.
pub open spec fn value_option(text: Seq<char>) -> Option<ValueOption> {
    if text == "-o"@ || text == "--output"@ {
        Some(ValueOption::Output)
    } else if text == "--policy"@ {
        Some(ValueOption::Policy)
    } else if text == "--vf"@ {
        Some(ValueOption::Width)
    } else if text == "--llvm-prefix"@ {
        Some(ValueOption::LlvmPrefix)
    } else if text == "--opt"@ {
        Some(ValueOption::Opt)
    } else if text == "--plugin"@ {
        Some(ValueOption::Plugin)
    } else {
        None
    }
}

fn find_value_option(text: &str) -> (result: Option<ValueOption>)
    ensures
        result == value_option(text@),
{
    if same_text(text, "-o") || same_text(text, "--output") {
        Some(ValueOption::Output)
    } else if same_text(text, "--policy") {
        Some(ValueOption::Policy)
    } else if same_text(text, "--vf") {
        Some(ValueOption::Width)
    } else if same_text(text, "--llvm-prefix") {
        Some(ValueOption::LlvmPrefix)
    } else if same_text(text, "--opt") {
        Some(ValueOption::Opt)
    } else if same_text(text, "--plugin") {
        Some(ValueOption::Plugin)
    } else {
        None
    }
}

/// What is left of a text behind a prefix that it has.
pub open spec fn behind(text: Seq<char>, prefix: Seq<char>) -> Seq<char> {
    text.skip(prefix.len() as int)
}

/// The option that has its value in the same argument, with that value.
pub open spec fn inline_option(text: Seq<char>) -> Option<(ValueOption, Seq<char>)> {
    if "--output="@.is_prefix_of(text) {
        Some((ValueOption::Output, behind(text, "--output="@)))
    } else if "--policy="@.is_prefix_of(text) {
        Some((ValueOption::Policy, behind(text, "--policy="@)))
    } else if "--vf="@.is_prefix_of(text) {
        Some((ValueOption::Width, behind(text, "--vf="@)))
    } else if "--llvm-prefix="@.is_prefix_of(text) {
        Some((ValueOption::LlvmPrefix, behind(text, "--llvm-prefix="@)))
    } else if "--opt="@.is_prefix_of(text) {
        Some((ValueOption::Opt, behind(text, "--opt="@)))
    } else if "--plugin="@.is_prefix_of(text) {
        Some((ValueOption::Plugin, behind(text, "--plugin="@)))
    } else {
        None
    }
}

fn strip(text: &str, prefix: &str) -> (result: Option<String>)
    ensures
        match result {
            Some(rest) => prefix@.is_prefix_of(text@) && rest@ == behind(text@, prefix@),
            None => !prefix@.is_prefix_of(text@),
        },
{
    if starts_with(text, prefix) {
        let rest: String = text.substring_char(prefix.unicode_len(), text.unicode_len()).to_owned();
        assert(rest@ =~= behind(text@, prefix@));
        Some(rest)
    } else {
        None
    }
}

fn find_inline_option(text: &str) -> (result: Option<(ValueOption, String)>)
    ensures
        match (result, inline_option(text@)) {
            (Some(found), Some(wanted)) => found.0 == wanted.0 && found.1@ == wanted.1,
            (None, None) => true,
            _ => false,
        },
{
    if let Some(rest) = strip(text, "--output=") {
        return Some((ValueOption::Output, rest));
    }
    if let Some(rest) = strip(text, "--policy=") {
        return Some((ValueOption::Policy, rest));
    }
    if let Some(rest) = strip(text, "--vf=") {
        return Some((ValueOption::Width, rest));
    }
    if let Some(rest) = strip(text, "--llvm-prefix=") {
        return Some((ValueOption::LlvmPrefix, rest));
    }
    if let Some(rest) = strip(text, "--opt=") {
        return Some((ValueOption::Opt, rest));
    }
    if let Some(rest) = strip(text, "--plugin=") {
        return Some((ValueOption::Plugin, rest));
    }
    None
}

/// The options after one more value has been given.
pub open spec fn with_value(o: OptionsView, option: ValueOption, value: ArgumentView) -> Result<
    OptionsView,
    UsageErrorView,
> {
    match option {
        ValueOption::Output => Ok(OptionsView { output: Some(value.path), ..o }),
        ValueOption::Policy => match value.text {
            Some(text) => match policy_named(text) {
                Some(policy) => Ok(OptionsView { policy, ..o }),
                None => Err(UsageErrorView::InvalidPolicy(value.shown)),
            },
            None => Err(UsageErrorView::InvalidPolicy(value.shown)),
        },
        ValueOption::Width => match value.text {
            Some(text) => match width_named(text) {
                Some(vector_width) => Ok(OptionsView { vector_width, ..o }),
                None => Err(UsageErrorView::InvalidWidth(value.shown)),
            },
            None => Err(UsageErrorView::InvalidWidth(value.shown)),
        },
        ValueOption::LlvmPrefix => Ok(OptionsView { llvm_prefix: Some(value.path), ..o }),
        ValueOption::Opt => Ok(OptionsView { opt: Some(value.path), ..o }),
        ValueOption::Plugin => Ok(OptionsView { plugin: Some(value.path), ..o }),
    }
}

/// The options after a switch, if the text is one.
pub open spec fn switched(o: OptionsView, text: Seq<char>) -> Option<OptionsView> {
    if text == "--report"@ {
        Some(OptionsView { report: true, ..o })
    } else if text == "--emit-bitcode"@ {
        Some(OptionsView { emit_bitcode: true, ..o })
    } else if text == "--no-verify"@ {
        Some(OptionsView { verify: false, ..o })
    } else if text == "--dry-run"@ {
        Some(OptionsView { dry_run: true, ..o })
    } else {
        None
    }
}

/// The options after an input; there can be only one.
pub open spec fn with_input(o: OptionsView, value: ArgumentView) -> Result<
    OptionsView,
    UsageErrorView,
> {
    if o.input is Some {
        Err(UsageErrorView::ExtraInput(value.shown))
    } else {
        Ok(OptionsView { input: Some(value.path), ..o })
    }
}

/// What the arguments from `k` on ask for, when those in front of it gave `o`.
/// Behind `--` everything is an input; help and version end the reading.
pub open spec fn scanned(
    arguments: Seq<ArgumentView>,
    k: int,
    inputs_only: bool,
    o: OptionsView,
) -> Result<ParsedView, UsageErrorView>
    decreases arguments.len() - k,
{
    if k >= arguments.len() {
        Ok(ParsedView::Run(o))
    } else {
        let argument = arguments[k];
        let as_input = match with_input(o, argument) {
            Ok(next) => scanned(arguments, k + 1, inputs_only, next),
            Err(error) => Err(error),
        };
        match argument.text {
            None => as_input,
            Some(text) => if inputs_only {
                as_input
            } else if text == "--"@ {
                scanned(arguments, k + 1, true, o)
            } else if text == "-h"@ || text == "--help"@ {
                Ok(ParsedView::Help)
            } else if text == "-V"@ || text == "--version"@ {
                Ok(ParsedView::Version)
            } else if value_option(text) is Some {
                if k + 1 >= arguments.len() {
                    Err(UsageErrorView::MissingValue(text))
                } else {
                    match with_value(o, value_option(text)->0, arguments[k + 1]) {
                        Ok(next) => scanned(arguments, k + 2, false, next),
                        Err(error) => Err(error),
                    }
                }
            } else if switched(o, text) is Some {
                scanned(arguments, k + 1, false, switched(o, text)->0)
            } else if inline_option(text) is Some {
                let (option, value) = inline_option(text)->0;
                match with_value(o, option, unicode(value)) {
                    Ok(next) => scanned(arguments, k + 1, false, next),
                    Err(error) => Err(error),
                }
            } else if "-"@.is_prefix_of(text) {
                Err(UsageErrorView::UnknownOption(argument.shown))
            } else {
                as_input
            },
        }
    }
}

/// The options before any argument: the verifier runs unless it is switched
/// off.
pub open spec fn initial_options() -> OptionsView {
    OptionsView { verify: true, ..no_options() }
}

/// The last checks on what was read, given whether input and output are the
/// same path.
pub open spec fn finished(o: OptionsView, same: bool) -> Result<ParsedView, UsageErrorView> {
    if o.input is None {
        Err(UsageErrorView::MissingInput)
    } else if o.policy != Policy::Balanced && o.vector_width != VectorWidth::Auto {
        Err(UsageErrorView::PolicyWithWidth)
    } else if o.output is Some && same {
        Err(UsageErrorView::SamePaths)
    } else {
        Ok(ParsedView::Run(o))
    }
}

/// A parse result, as mathematical values.
pub open spec fn outcome(result: Result<Parsed, UsageError>) -> Result<
    ParsedView,
    UsageErrorView,
> {
    match result {
        Ok(parsed) => Ok(parsed@),
        Err(error) => Err(error@),
    }
}

/// Several arguments, as mathematical values.
pub open spec fn views(arguments: Seq<Argument>) -> Seq<ArgumentView> {
    arguments.map_values(|argument: Argument| argument@)
}

fn set_value(options: &mut Options, option: ValueOption, value: &Argument) -> (result: Result<
    (),
    UsageError,
>)
    ensures
        match (result, with_value(old(options)@, option, value@)) {
            (Ok(()), Ok(next)) => final(options)@ == next,
            (Err(found), Err(wanted)) => found@ == wanted,
            _ => false,
        },
{
    match option {
        ValueOption::Output => options.output = Some(value.path()),
        ValueOption::Policy => match Policy::parse(value) {
            Ok(policy) => options.policy = policy,
            Err(error) => return Err(error),
        },
        ValueOption::Width => match VectorWidth::parse(value) {
            Ok(width) => options.vector_width = width,
            Err(error) => return Err(error),
        },
        ValueOption::LlvmPrefix => options.llvm_prefix = Some(value.path()),
        ValueOption::Opt => options.opt = Some(value.path()),
        ValueOption::Plugin => options.plugin = Some(value.path()),
    }
    Ok(())
}

fn set_switch(options: &mut Options, text: &str) -> (found: bool)
    ensures
        match switched(old(options)@, text@) {
            Some(next) => found && final(options)@ == next,
            None => !found && *final(options) == *old(options),
        },
{
    if same_text(text, "--report") {
        options.report = true;
    } else if same_text(text, "--emit-bitcode") {
        options.emit_bitcode = true;
    } else if same_text(text, "--no-verify") {
        options.verify = false;
    } else if same_text(text, "--dry-run") {
        options.dry_run = true;
    } else {
        return false;
    }
    true
}

fn set_input(options: &mut Options, value: &Argument) -> (result: Result<(), UsageError>)
    ensures
        match (result, with_input(old(options)@, value@)) {
            (Ok(()), Ok(next)) => final(options)@ == next,
            (Err(found), Err(wanted)) => found@ == wanted,
            _ => false,
        },
{
    if options.input.is_some() {
        return Err(UsageError::ExtraInput(value.shown()));
    }
    options.input = Some(value.path());
    Ok(())
}

/// Reads all arguments, up to the last checks.
#[verifier::rlimit(40)]
fn scan(arguments: &Vec<Argument>) -> (result: Result<Parsed, UsageError>)
    ensures
        outcome(result) == scanned(views(arguments@), 0, false, initial_options()),
{
    let ghost all = views(arguments@);
    let mut options: Options = Options::default();
    options.verify = true;
    let mut k: usize = 0;
    let mut inputs_only: bool = false;
    assert(options@ == initial_options());
    while k < arguments.len()
        invariant
            k <= arguments@.len(),
            all == views(arguments@),
            scanned(all, k as int, inputs_only, options@) == scanned(
                all,
                0,
                false,
                initial_options(),
            ),
        decreases arguments@.len() - k,
    {
        let argument: &Argument = &arguments[k];
        assert(all[k as int] == argument@);
        match argument {
            Argument::Unicode(text) if !inputs_only => {
                let text: &str = text.as_str();
                if same_text(text, "--") {
                    inputs_only = true;
                } else if same_text(text, "-h") || same_text(text, "--help") {
                    return Ok(Parsed::Help);
                } else if same_text(text, "-V") || same_text(text, "--version") {
                    return Ok(Parsed::Version);
                } else if let Some(option) = find_value_option(text) {
                    k += 1;
                    if k >= arguments.len() {
                        return Err(UsageError::MissingValue(text.to_owned()));
                    }
                    assert(all[k as int] == arguments@[k as int]@);
                    match set_value(&mut options, option, &arguments[k]) {
                        Ok(()) => {},
                        Err(error) => return Err(error),
                    }
                } else if set_switch(&mut options, text) {
                } else if let Some((option, value)) = find_inline_option(text) {
                    let value: Argument = Argument::Unicode(value);
                    match set_value(&mut options, option, &value) {
                        Ok(()) => {},
                        Err(error) => return Err(error),
                    }
                } else if starts_with(text, "-") {
                    return Err(UsageError::UnknownOption(argument.shown()));
                } else {
                    match set_input(&mut options, argument) {
                        Ok(()) => {},
                        Err(error) => return Err(error),
                    }
                }
            },
            _ => match set_input(&mut options, argument) {
                Ok(()) => {},
                Err(error) => return Err(error),
            },
        }
        k += 1;
    }
    Ok(Parsed::Run(options))
}

/// Makes the last checks on what was read, given whether input and output are
/// the same path.
pub fn finish(options: Options, same: bool) -> (result: Result<Parsed, UsageError>)
    ensures
        outcome(result) == finished(options@, same),
{
    if options.input.is_none() {
        return Err(UsageError::MissingInput);
    }
    let balanced: bool = match options.policy {
        Policy::Balanced => true,
        _ => false,
    };
    let automatic: bool = match options.vector_width {
        VectorWidth::Auto => true,
        _ => false,
    };
    if !balanced && !automatic {
        return Err(UsageError::PolicyWithWidth);
    }
    if options.output.is_some() && same {
        return Err(UsageError::SamePaths);
    }
    Ok(Parsed::Run(options))
}

/// Whether options name the same path as input and output, on a host that
/// compares paths like this.
pub open spec fn paths_coincide(o: OptionsView, host: spec_fn(Seq<u8>, Seq<u8>) -> bool) -> bool {
    match (o.input, o.output) {
        (Some(input), Some(output)) => host(input, output),
        _ => false,
    }
}

/// What a command line comes to, on a host that compares paths like this.
pub open spec fn parsed(
    arguments: Seq<ArgumentView>,
    host: spec_fn(Seq<u8>, Seq<u8>) -> bool,
) -> Result<ParsedView, UsageErrorView> {
    match scanned(arguments, 0, false, initial_options()) {
        Ok(ParsedView::Run(o)) => finished(o, paths_coincide(o, host)),
        other => other,
    }
}

/// What a command line can come to on some host.
pub open spec fn may_parse(
    arguments: Seq<ArgumentView>,
    result: Result<ParsedView, UsageErrorView>,
) -> bool {
    exists|host: spec_fn(Seq<u8>, Seq<u8>) -> bool|
        is_comparison(host) && result == #[trigger] parsed(arguments, host)
}

/// The answer about the two paths of a command line settles what it comes to.
proof fn lemma_may_parse(
    arguments: Seq<ArgumentView>,
    o: OptionsView,
    same: bool,
    result: Result<ParsedView, UsageErrorView>,
)
    requires
        scanned(arguments, 0, false, initial_options()) == Ok::<ParsedView, UsageErrorView>(
            ParsedView::Run(o),
        ),
        result == finished(o, same),
        o.input is Some && o.output is Some ==> may_be_same(o.input->0, o.output->0, same),
    ensures
        may_parse(arguments, result),
{
    let empty = Seq::<u8>::empty();
    let (left, right, answer) = if o.input is Some && o.output is Some {
        (o.input->0, o.output->0, same)
    } else {
        assert(may_be_same(empty, empty, true));
        (empty, empty, true)
    };
    law_answers_belong_to_comparisons(left, right, answer);
    let host = choose|host: spec_fn(Seq<u8>, Seq<u8>) -> bool| #[trigger]
        is_comparison(host) && host(left, right) == answer;
    assert(is_comparison(host) && result == parsed(arguments, host));
}

/// Reads a command line.
pub fn parse_args(arguments: &Vec<Argument>) -> (result: Result<Parsed, UsageError>)
    ensures
        may_parse(views(arguments@), outcome(result)),
{
    match scan(arguments) {
        Ok(Parsed::Run(options)) => {
            let same: bool = match (&options.input, &options.output) {
                (Some(input), Some(output)) => input.is_same(output),
                _ => false,
            };
            let ghost o = options@;
            let result = finish(options, same);
            proof {
                lemma_may_parse(views(arguments@), o, same, outcome(result));
            }
            result
        },
        other => {
            proof {
                let empty = Seq::<u8>::empty();
                assert(may_be_same(empty, empty, true));
                law_answers_belong_to_comparisons(empty, empty, true);
                let host = choose|host: spec_fn(Seq<u8>, Seq<u8>) -> bool| #[trigger]
                    is_comparison(host) && host(empty, empty) == true;
                assert(is_comparison(host) && outcome(other) == parsed(views(arguments@), host));
            }
            other
        },
    }
}

/// It is settled, for every host, whether input and output of a command line
/// are the same path, if there are both.
pub open spec fn has_settled_paths(arguments: Seq<ArgumentView>) -> bool {
    match scanned(arguments, 0, false, initial_options()) {
        Ok(ParsedView::Run(o)) => match (o.input, o.output) {
            (Some(input), Some(output)) => are_settled(input, output),
            _ => true,
        },
        _ => true,
    }
}

/// A command line with settled paths comes to the same on every host: it is
/// refused for its paths if they are always the same, and not otherwise.
pub proof fn law_settled_command_lines_come_to_one_result(
    arguments: Seq<ArgumentView>,
    result: Result<ParsedView, UsageErrorView>,
)
    requires
        has_settled_paths(arguments),
        may_parse(arguments, result),
    ensures
        result == parsed(arguments, |left: Seq<u8>, right: Seq<u8>| are_always_same(left, right)),
{
    let host = choose|host: spec_fn(Seq<u8>, Seq<u8>) -> bool|
        is_comparison(host) && result == #[trigger] parsed(arguments, host);
    if let Ok(ParsedView::Run(o)) = scanned(arguments, 0, false, initial_options()) {
        if let (Some(input), Some(output)) = (o.input, o.output) {
            assert(may_be_same(input, output, host(input, output)));
        }
    }
}

/// An option that takes a value, by its long name.
pub open spec fn is_long_name(text: Seq<char>) -> bool {
    ||| text == "--output"@
    ||| text == "--policy"@
    ||| text == "--vf"@
    ||| text == "--llvm-prefix"@
    ||| text == "--opt"@
    ||| text == "--plugin"@
}

/// Whether reading that has come to argument `k` comes to argument `target` as
/// well, and takes it neither for the value of an option nor for one of the
/// inputs behind `--`.
pub open spec fn is_read_at(arguments: Seq<ArgumentView>, k: int, target: int) -> bool
    decreases target + 1 - k,
{
    if k >= target {
        k == target
    } else {
        match arguments[k].text {
            Some(text) => text != "--"@ && is_read_at(
                arguments,
                k + (if value_option(text) is Some {
                    2int
                } else {
                    1
                }),
                target,
            ),
            None => is_read_at(arguments, k + 1, target),
        }
    }
}

/// A long name and its value in one argument are an option with that value.
proof fn lemma_inline_option(name: Seq<char>, value: Seq<char>)
    requires
        is_long_name(name),
    ensures
        ({
            let text = name + "="@ + value;
            &&& text != "--"@
            &&& text != "-h"@ && text != "--help"@
            &&& text != "-V"@ && text != "--version"@
            &&& value_option(text) is None
            &&& forall|o: OptionsView| #[trigger] switched(o, text) is None
            &&& value_option(name) is Some
            &&& inline_option(text) == Some((value_option(name)->0, value))
            &&& name != "--"@
            &&& name != "-h"@ && name != "--help"@
            &&& name != "-V"@ && name != "--version"@
        }),
{
    reveal_strlit("=");
    reveal_strlit("--");
    reveal_strlit("-h");
    reveal_strlit("--help");
    reveal_strlit("-V");
    reveal_strlit("--version");
    reveal_strlit("-o");
    reveal_strlit("--output");
    reveal_strlit("--policy");
    reveal_strlit("--vf");
    reveal_strlit("--llvm-prefix");
    reveal_strlit("--opt");
    reveal_strlit("--plugin");
    reveal_strlit("--report");
    reveal_strlit("--emit-bitcode");
    reveal_strlit("--no-verify");
    reveal_strlit("--dry-run");
    reveal_strlit("--output=");
    reveal_strlit("--policy=");
    reveal_strlit("--vf=");
    reveal_strlit("--llvm-prefix=");
    reveal_strlit("--opt=");
    reveal_strlit("--plugin=");
    let text = name + "="@ + value;
    let n = name.len() as int;
    assert(text[n] == '=');
    assert(name + "="@ =~= (if name == "--output"@ {
        "--output="@
    } else if name == "--policy"@ {
        "--policy="@
    } else if name == "--vf"@ {
        "--vf="@
    } else if name == "--llvm-prefix"@ {
        "--llvm-prefix="@
    } else if name == "--opt"@ {
        "--opt="@
    } else {
        "--plugin="@
    }));
    assert(text.subrange(0, n + 1) =~= name + "="@);
    assert(text.skip(n + 1) =~= value);
    assert(text[2] == name[2] && text[3] == name[3] && text[4] == (name + "="@)[4]);
    if "--output="@.is_prefix_of(text) {
        assert("--output="@[3] == text[3]);
        assert("--output="@[2] == text[2]);
    }
    if "--policy="@.is_prefix_of(text) {
        assert("--policy="@[3] == text[3]);
        assert("--policy="@[2] == text[2]);
    }
    if "--vf="@.is_prefix_of(text) {
        assert("--vf="@[2] == text[2]);
    }
    if "--llvm-prefix="@.is_prefix_of(text) {
        assert("--llvm-prefix="@[2] == text[2]);
    }
    if "--opt="@.is_prefix_of(text) {
        assert("--opt="@[3] == text[3]);
        assert("--opt="@[2] == text[2]);
    }
    if "--plugin="@.is_prefix_of(text) {
        assert("--plugin="@[3] == text[3]);
        assert("--plugin="@[2] == text[2]);
    }
}

/// What is behind argument `k` of one list and behind argument `k + 1` of another
/// is read alike if it is the same.
proof fn lemma_scanned_shifted(
    short: Seq<ArgumentView>,
    long: Seq<ArgumentView>,
    k: int,
    inputs_only: bool,
    o: OptionsView,
)
    requires
        0 <= k,
        long.len() == short.len() + 1,
        forall|j: int| k <= j < short.len() ==> #[trigger] short[j] == long[j + 1],
    ensures
        scanned(short, k, inputs_only, o) == scanned(long, k + 1, inputs_only, o),
    decreases short.len() - k,
{
    if k < short.len() {
        assert(short[k] == long[k + 1]);
        let argument = short[k];
        if with_input(o, argument) is Ok {
            lemma_scanned_shifted(short, long, k + 1, inputs_only, with_input(o, argument)->Ok_0);
        }
        lemma_scanned_shifted(short, long, k + 1, true, o);
        if let Some(text) = argument.text {
            if value_option(text) is Some && k + 1 < short.len() {
                assert(short[k + 1] == long[k + 2]);
                let next = with_value(o, value_option(text)->0, short[k + 1]);
                if next is Ok {
                    lemma_scanned_shifted(short, long, k + 2, false, next->Ok_0);
                }
            }
            if switched(o, text) is Some {
                lemma_scanned_shifted(short, long, k + 1, false, switched(o, text)->0);
            }
            if let Some((option, value)) = inline_option(text) {
                let next = with_value(o, option, unicode(value));
                if next is Ok {
                    lemma_scanned_shifted(short, long, k + 1, false, next->Ok_0);
                }
            }
        }
    }
}

/// Whether reading comes to an argument depends on those in front of it alone.
proof fn lemma_is_read_at(first: Seq<ArgumentView>, second: Seq<ArgumentView>, k: int, target: int)
    requires
        0 <= k,
        forall|j: int| 0 <= j < target ==> #[trigger] first[j] == second[j],
        is_read_at(first, k, target),
    ensures
        is_read_at(second, k, target),
    decreases target + 1 - k,
{
    if k < target {
        assert(first[k] == second[k]);
        match first[k].text {
            Some(text) => if value_option(text) is Some {
                lemma_is_read_at(first, second, k + 2, target);
            } else {
                lemma_is_read_at(first, second, k + 1, target);
            },
            None => lemma_is_read_at(first, second, k + 1, target),
        }
    }
}

/// Two lists that agree in front of an argument that reading comes to are read
/// alike if they are from there on.
proof fn lemma_scanned_common(
    first: Seq<ArgumentView>,
    second: Seq<ArgumentView>,
    k: int,
    target: int,
    o: OptionsView,
)
    requires
        0 <= k <= target < first.len(),
        target < second.len(),
        forall|j: int| 0 <= j < target ==> #[trigger] first[j] == second[j],
        is_read_at(first, k, target),
        forall|p: OptionsView| #[trigger]
            scanned(first, target, false, p) == scanned(second, target, false, p),
    ensures
        scanned(first, k, false, o) == scanned(second, k, false, o),
    decreases target + 1 - k,
{
    if k < target {
        assert(first[k] == second[k]);
        let argument = first[k];
        if with_input(o, argument) is Ok && is_read_at(first, k + 1, target) {
            lemma_scanned_common(first, second, k + 1, target, with_input(o, argument)->Ok_0);
        }
        if let Some(text) = argument.text {
            if value_option(text) is Some {
                assert(is_read_at(first, k + 2, target));
                assert(first[k + 1] == second[k + 1]);
                let next = with_value(o, value_option(text)->0, first[k + 1]);
                if next is Ok {
                    lemma_scanned_common(first, second, k + 2, target, next->Ok_0);
                }
            } else {
                if switched(o, text) is Some {
                    lemma_scanned_common(first, second, k + 1, target, switched(o, text)->0);
                }
                if let Some((option, value)) = inline_option(text) {
                    let next = with_value(o, option, unicode(value));
                    if next is Ok {
                        lemma_scanned_common(first, second, k + 1, target, next->Ok_0);
                    }
                }
            }
        }
    }
}

/// The value of an option can stand in the next argument or, behind an equals
/// sign, in the same one: if reading comes to the option, the command line is
/// read alike, and comes to the same on each host, whatever its paths are.
pub proof fn law_values_can_be_inline(
    front: Seq<ArgumentView>,
    name: Seq<char>,
    value: Seq<char>,
    rest: Seq<ArgumentView>,
)
    requires
        is_long_name(name),
        is_read_at(front, 0, front.len() as int),
    ensures
        ({
            let apart = front + seq![unicode(name), unicode(value)] + rest;
            let together = front + seq![unicode(name + "="@ + value)] + rest;
            &&& scanned(apart, 0, false, initial_options()) == scanned(
                together,
                0,
                false,
                initial_options(),
            )
            &&& forall|host: spec_fn(Seq<u8>, Seq<u8>) -> bool|
                parsed(apart, host) == #[trigger] parsed(together, host)
            &&& forall|result: Result<ParsedView, UsageErrorView>| #[trigger]
                may_parse(apart, result) == may_parse(together, result)
            &&& forall|
                first: Result<ParsedView, UsageErrorView>,
                second: Result<ParsedView, UsageErrorView>,
            |
                has_settled_paths(apart) && #[trigger] may_parse(apart, first)
                    && #[trigger] may_parse(together, second) ==> first == second
        }),
{
    let apart = front + seq![unicode(name), unicode(value)] + rest;
    let together = front + seq![unicode(name + "="@ + value)] + rest;
    let n = front.len() as int;
    lemma_inline_option(name, value);
    assert forall|p: OptionsView| #[trigger]
        scanned(apart, n, false, p) == scanned(together, n, false, p) by {
        let next = with_value(p, value_option(name)->0, unicode(value));
        assert(apart[n + 1] == unicode(value));
        assert(switched(p, name + "="@ + value) is None);
        if next is Ok {
            lemma_scanned_shifted(together, apart, n + 1, false, next->Ok_0);
        }
    }
    lemma_is_read_at(front, apart, 0, n);
    lemma_scanned_common(apart, together, 0, n, initial_options());
    assert forall|host: spec_fn(Seq<u8>, Seq<u8>) -> bool|
        parsed(apart, host) == #[trigger] parsed(together, host) by {}
    assert forall|result: Result<ParsedView, UsageErrorView>| #[trigger]
        may_parse(apart, result) == may_parse(together, result) by {
        if may_parse(apart, result) {
            let host = choose|host: spec_fn(Seq<u8>, Seq<u8>) -> bool|
                is_comparison(host) && result == #[trigger] parsed(apart, host);
            assert(is_comparison(host) && result == parsed(together, host));
        }
        if may_parse(together, result) {
            let host = choose|host: spec_fn(Seq<u8>, Seq<u8>) -> bool|
                is_comparison(host) && result == #[trigger] parsed(together, host);
            assert(is_comparison(host) && result == parsed(apart, host));
        }
    }
    assert forall|
        first: Result<ParsedView, UsageErrorView>,
        second: Result<ParsedView, UsageErrorView>,
    |
        has_settled_paths(apart) && #[trigger] may_parse(apart, first) && #[trigger] may_parse(
            together,
            second,
        ) implies first == second by {
        law_settled_command_lines_come_to_one_result(apart, first);
        law_settled_command_lines_come_to_one_result(apart, second);
    }
}

/// The pipeline that options select: the pass, and the verifier behind it.
pub open spec fn pipeline(o: OptionsView) -> Seq<char> {
    let pass = match o.vector_width {
        VectorWidth::Auto => o.policy.stem(),
        VectorWidth::Fixed(width) => "rust-loop-vectorize-force-vf"@ + decimal(width as nat),
    };
    let reported = if o.report {
        pass + "-report"@
    } else {
        pass
    };
    if o.verify {
        reported + ",verify"@
    } else {
        reported
    }
}

/// Writes the pipeline that options select.
pub fn pass_pipeline(options: &Options) -> (text: String)
    ensures
        text@ == pipeline(options@),
{
    let mut pass: String = match options.vector_width {
        VectorWidth::Auto => options.policy.pass_stem().to_owned(),
        VectorWidth::Fixed(width) => two(
            "rust-loop-vectorize-force-vf",
            decimal_text(width as u64).as_str(),
        ),
    };
    if options.report {
        pass.append("-report");
    }
    if options.verify {
        pass.append(",verify");
    }
    pass
}

/// The pass that options select.
pub open spec fn selected_pass(o: OptionsView) -> Seq<char> {
    pipeline(OptionsView { verify: false, ..o })
}

/// The names under which passes are registered and that the driver can select.
pub open spec fn is_registered(pass: Seq<char>) -> bool {
    ||| pass == "rust-loop-vectorize"@
    ||| pass == "rust-loop-vectorize-report"@
    ||| pass == "rust-loop-vectorize-conservative"@
    ||| pass == "rust-loop-vectorize-conservative-report"@
    ||| pass == "rust-loop-vectorize-aggressive"@
    ||| pass == "rust-loop-vectorize-aggressive-report"@
    ||| pass == "rust-loop-vectorize-force-vf2"@
    ||| pass == "rust-loop-vectorize-force-vf2-report"@
    ||| pass == "rust-loop-vectorize-force-vf4"@
    ||| pass == "rust-loop-vectorize-force-vf4-report"@
    ||| pass == "rust-loop-vectorize-force-vf8"@
    ||| pass == "rust-loop-vectorize-force-vf8-report"@
    ||| pass == "rust-loop-vectorize-force-vf16"@
    ||| pass == "rust-loop-vectorize-force-vf16-report"@
}

/// The widths that can be asked for.
pub open spec fn is_offered(width: VectorWidth) -> bool {
    width == VectorWidth::Auto || width == VectorWidth::Fixed(2) || width == VectorWidth::Fixed(4)
        || width == VectorWidth::Fixed(8) || width == VectorWidth::Fixed(16)
}

proof fn lemma_scanned_width(
    arguments: Seq<ArgumentView>,
    k: int,
    inputs_only: bool,
    o: OptionsView,
)
    requires
        is_offered(o.vector_width),
    ensures
        scanned(arguments, k, inputs_only, o) matches Ok(ParsedView::Run(r)) ==> is_offered(
            r.vector_width,
        ),
    decreases arguments.len() - k,
{
    if k < arguments.len() {
        let argument = arguments[k];
        if with_input(o, argument) is Ok {
            lemma_scanned_width(arguments, k + 1, inputs_only, with_input(o, argument)->Ok_0);
        }
        lemma_scanned_width(arguments, k + 1, true, o);
        if let Some(text) = argument.text {
            if value_option(text) is Some && k + 1 < arguments.len() {
                let next = with_value(o, value_option(text)->0, arguments[k + 1]);
                if next is Ok {
                    lemma_scanned_width(arguments, k + 2, false, next->Ok_0);
                }
            }
            if switched(o, text) is Some {
                lemma_scanned_width(arguments, k + 1, false, switched(o, text)->0);
            }
            if let Some((option, value)) = inline_option(text) {
                let next = with_value(o, option, unicode(value));
                if next is Ok {
                    lemma_scanned_width(arguments, k + 1, false, next->Ok_0);
                }
            }
        }
    }
}

proof fn lemma_fixed_pass_names()
    ensures
        forall|width: u8|
            is_offered(VectorWidth::Fixed(width)) ==> is_registered(
                "rust-loop-vectorize-force-vf"@ + #[trigger] decimal(width as nat),
            ) && is_registered(
                "rust-loop-vectorize-force-vf"@ + decimal(width as nat) + "-report"@,
            ),
{
    reveal_strlit("rust-loop-vectorize-force-vf");
    reveal_strlit("rust-loop-vectorize-force-vf2");
    reveal_strlit("rust-loop-vectorize-force-vf2-report");
    reveal_strlit("rust-loop-vectorize-force-vf4");
    reveal_strlit("rust-loop-vectorize-force-vf4-report");
    reveal_strlit("rust-loop-vectorize-force-vf8");
    reveal_strlit("rust-loop-vectorize-force-vf8-report");
    reveal_strlit("rust-loop-vectorize-force-vf16");
    reveal_strlit("rust-loop-vectorize-force-vf16-report");
    reveal_strlit("-report");
    reveal_strlit("0123456789ABCDEF");
    let stem = "rust-loop-vectorize-force-vf"@;
    let tail = "-report"@;
    assert(decimal(2) =~= seq!['2'] && decimal(4) =~= seq!['4'] && decimal(8) =~= seq!['8']);
    assert(decimal(16) =~= seq!['1', '6']) by {
        reveal_with_fuel(decimal, 2);
    }
    assert(stem + decimal(2) =~= "rust-loop-vectorize-force-vf2"@);
    assert(stem + decimal(2) + tail =~= "rust-loop-vectorize-force-vf2-report"@);
    assert(stem + decimal(4) =~= "rust-loop-vectorize-force-vf4"@);
    assert(stem + decimal(4) + tail =~= "rust-loop-vectorize-force-vf4-report"@);
    assert(stem + decimal(8) =~= "rust-loop-vectorize-force-vf8"@);
    assert(stem + decimal(8) + tail =~= "rust-loop-vectorize-force-vf8-report"@);
    assert(stem + decimal(16) =~= "rust-loop-vectorize-force-vf16"@);
    assert(stem + decimal(16) + tail =~= "rust-loop-vectorize-force-vf16-report"@);
}

proof fn lemma_policy_pass_names()
    ensures
        is_registered(Policy::Balanced.stem() + "-report"@),
        is_registered(Policy::Conservative.stem() + "-report"@),
        is_registered(Policy::Aggressive.stem() + "-report"@),
{
    reveal_strlit("rust-loop-vectorize");
    reveal_strlit("rust-loop-vectorize-report");
    reveal_strlit("rust-loop-vectorize-conservative");
    reveal_strlit("rust-loop-vectorize-conservative-report");
    reveal_strlit("rust-loop-vectorize-aggressive");
    reveal_strlit("rust-loop-vectorize-aggressive-report");
    reveal_strlit("-report");
    assert("rust-loop-vectorize"@ + "-report"@ =~= "rust-loop-vectorize-report"@);
    assert("rust-loop-vectorize-conservative"@ + "-report"@
        =~= "rust-loop-vectorize-conservative-report"@);
    assert("rust-loop-vectorize-aggressive"@ + "-report"@
        =~= "rust-loop-vectorize-aggressive-report"@);
}

/// Every command line that asks for a run selects a registered pass, and has
/// the verifier behind it unless that is switched off.
pub proof fn law_registered_passes_are_selected(arguments: Seq<ArgumentView>)
    ensures
        scanned(arguments, 0, false, initial_options()) matches Ok(ParsedView::Run(o))
            ==> is_registered(selected_pass(o)) && pipeline(o) == (if o.verify {
            selected_pass(o) + ",verify"@
        } else {
            selected_pass(o)
        }),
{
    lemma_scanned_width(arguments, 0, false, initial_options());
    lemma_fixed_pass_names();
    lemma_policy_pass_names();
    if let Ok(ParsedView::Run(o)) = scanned(arguments, 0, false, initial_options()) {
        if let VectorWidth::Fixed(width) = o.vector_width {
            assert(is_registered("rust-loop-vectorize-force-vf"@ + decimal(width as nat)));
        }
    }
}

} // verus!
