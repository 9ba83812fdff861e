//! The driver's decisions: which tools it tries, which command it runs, and
//! how it words its failures.

use crate::command_line::{optional, pass_pipeline, pipeline, Options, OptionsView};
use crate::host::{may_be_parent, path_text, shell_command, shell_join, widened, HostPath};
use crate::text::{contains_text, occurs_in, signed_decimal, signed_decimal_text, texts};
use vstd::prelude::*;
use vstd::utf8::encode_utf8;

verus! {

/// Several paths, as bytes.
pub open spec fn paths(list: Seq<HostPath>) -> Seq<Seq<u8>> {
    list.map_values(|path: HostPath| path@)
}

/// Why a run fails.
#[derive(Debug, PartialEq, Eq)]
pub enum DriverError {
    InputNotFound(String),
    NotOpt(String),
    OptNotFound,
    PluginNotFound(String),
    EnvironmentPluginNotFound(String),
    NoPlugin,
    ExecutionFailed { opt: String, error: String },
    ExitStatus(i32),
    Terminated,
}

/// Why a run fails, as mathematical values.
pub ghost enum DriverErrorView {
    InputNotFound(Seq<char>),
    NotOpt(Seq<char>),
    OptNotFound,
    PluginNotFound(Seq<char>),
    EnvironmentPluginNotFound(Seq<char>),
    NoPlugin,
    ExecutionFailed { opt: Seq<char>, error: Seq<char> },
    ExitStatus(int),
    Terminated,
}

impl View for DriverError {
    type V = DriverErrorView;

    open spec fn view(&self) -> DriverErrorView {
        match self {
            DriverError::InputNotFound(path) => DriverErrorView::InputNotFound(path@),
            DriverError::NotOpt(path) => DriverErrorView::NotOpt(path@),
            DriverError::OptNotFound => DriverErrorView::OptNotFound,
            DriverError::PluginNotFound(path) => DriverErrorView::PluginNotFound(path@),
            DriverError::EnvironmentPluginNotFound(path) => {
                DriverErrorView::EnvironmentPluginNotFound(path@)
            },
            DriverError::NoPlugin => DriverErrorView::NoPlugin,
            DriverError::ExecutionFailed { opt, error } => DriverErrorView::ExecutionFailed {
                opt: opt@,
                error: error@,
            },
            DriverError::ExitStatus(code) => DriverErrorView::ExitStatus(*code as int),
            DriverError::Terminated => DriverErrorView::Terminated,
        }
    }
}

impl DriverErrorView {
    /// The error in words.
    pub open spec fn text(self) -> Seq<char> {
        match self {
            DriverErrorView::InputNotFound(path) => "input file not found at "@ + path,
            DriverErrorView::NotOpt(path) => path + " is not an executable LLVM 21 opt"@,
            DriverErrorView::OptNotFound => {
                "LLVM 21 opt was not found; use --opt, --llvm-prefix, or LLVM_SYS_211_PREFIX"@
            },
            DriverErrorView::PluginNotFound(path) => "pass plugin not found at "@ + path,
            DriverErrorView::EnvironmentPluginNotFound(path) => {
                "pass plugin from RV_PLUGIN_PATH not found at "@ + path
            },
            DriverErrorView::NoPlugin => {
                "pass plugin was not found; run cargo build --release or use --plugin"@
            },
            DriverErrorView::ExecutionFailed { opt, error } => "failed to execute "@ + opt + ": "@
                + error,
            DriverErrorView::ExitStatus(code) => "LLVM opt exited with status "@ + signed_decimal(
                code,
            ),
            DriverErrorView::Terminated => "LLVM opt was terminated by a signal"@,
        }
    }
}

impl DriverError {
    /// The error in words.
    pub fn message(&self) -> (text: String)
        ensures
            text@ == self@.text(),
    {
        let mut text: String = String::new();
        match self {
            DriverError::InputNotFound(path) => {
                text.append("input file not found at ");
                text.append(path.as_str());
            },
            DriverError::NotOpt(path) => {
                text.append(path.as_str());
                text.append(" is not an executable LLVM 21 opt");
            },
            DriverError::OptNotFound => {
                text.append(
                    "LLVM 21 opt was not found; use --opt, --llvm-prefix, or LLVM_SYS_211_PREFIX",
                );
            },
            DriverError::PluginNotFound(path) => {
                text.append("pass plugin not found at ");
                text.append(path.as_str());
            },
            DriverError::EnvironmentPluginNotFound(path) => {
                text.append("pass plugin from RV_PLUGIN_PATH not found at ");
                text.append(path.as_str());
            },
            DriverError::NoPlugin => {
                text.append("pass plugin was not found; run cargo build --release or use --plugin");
            },
            DriverError::ExecutionFailed { opt, error } => {
                text.append("failed to execute ");
                text.append(opt.as_str());
                text.append(": ");
                text.append(error.as_str());
            },
            DriverError::ExitStatus(code) => {
                text.append("LLVM opt exited with status ");
                text.append(signed_decimal_text(*code).as_str());
            },
            DriverError::Terminated => {
                text.append("LLVM opt was terminated by a signal");
            },
        }
        assert(text@ =~= self@.text());
        text
    }
}

/// A list of an optional path.
pub open spec fn listed(path: Option<Seq<u8>>) -> Seq<Seq<u8>> {
    match path {
        Some(path) => seq![path],
        None => Seq::empty(),
    }
}

/// Where LLVM may be installed, most specific first. An explicit prefix is the
/// only candidate; else the environment comes in front of usual places.
pub open spec fn prefix_candidates(
    explicit: Option<Seq<u8>>,
    environment: Option<Seq<u8>>,
    config: Option<Seq<u8>>,
) -> Seq<Seq<u8>> {
    match explicit {
        Some(prefix) => seq![prefix],
        None => listed(environment) + listed(config) + seq![
            encode_utf8("/opt/homebrew/opt/llvm"@),
            encode_utf8("/usr/local/opt/llvm"@),
            encode_utf8("/usr/lib/llvm-21"@),
        ],
    }
}

/// Lists where LLVM may be installed. `environment` is the prefix that the
/// environment names, `config` the one that its `llvm-config` belongs to.
pub fn llvm_prefix_candidates(
    options: &Options,
    environment: Option<HostPath>,
    config: Option<HostPath>,
) -> (result: Vec<HostPath>)
    ensures
        paths(result@) == prefix_candidates(
            options@.llvm_prefix,
            optional(environment),
            optional(config),
        ),
{
    let mut result: Vec<HostPath> = Vec::new();
    let ghost wanted = prefix_candidates(
        options@.llvm_prefix,
        optional(environment),
        optional(config),
    );
    if let Some(prefix) = &options.llvm_prefix {
        result.push(prefix.duplicate());
        assert(paths(result@) =~= wanted);
        return result;
    }
    if let Some(prefix) = environment {
        result.push(prefix);
    }
    if let Some(prefix) = config {
        result.push(prefix);
    }
    result.push(HostPath::new("/opt/homebrew/opt/llvm"));
    result.push(HostPath::new("/usr/local/opt/llvm"));
    result.push(HostPath::new("/usr/lib/llvm-21"));
    assert(paths(result@) =~= wanted);
    result
}

/// What holds of the prefix that an `llvm-config` belongs to: it is the parent of
/// the parent of its path, if there are both.
pub open spec fn may_be_prefix(config: Seq<u8>, prefix: Option<Seq<u8>>) -> bool {
    match prefix {
        Some(prefix) => exists|programs: Seq<u8>| #[trigger]
            may_be_parent(widened(config), Some(widened(programs))) && may_be_parent(
                widened(programs),
                Some(widened(prefix)),
            ),
        None => may_be_parent(widened(config), None) || exists|programs: Seq<u8>| #[trigger]
            may_be_parent(widened(config), Some(widened(programs))) && may_be_parent(
                widened(programs),
                None,
            ),
    }
}

/// Finds the prefix that an `llvm-config` belongs to.
pub fn config_prefix(config: &HostPath) -> (prefix: Option<HostPath>)
    ensures
        may_be_prefix(config@, optional(prefix)),
{
    match config.parent() {
        Some(programs) => {
            let prefix: Option<HostPath> = programs.parent();
            assert(may_be_parent(widened(config@), Some(widened(programs@))));
            prefix
        },
        None => None,
    }
}

/// The next step of a search.
#[derive(Debug, PartialEq, Eq)]
pub enum Search {
    /// Find out whether this path is what is searched for.
    Probe(HostPath),
    Found(HostPath),
    Failed(DriverError),
}

/// The next step of a search, as mathematical values.
pub ghost enum SearchView {
    Probe(Seq<u8>),
    Found(Seq<u8>),
    Failed(DriverErrorView),
}

impl View for Search {
    type V = SearchView;

    open spec fn view(&self) -> SearchView {
        match self {
            Search::Probe(path) => SearchView::Probe(path@),
            Search::Found(path) => SearchView::Found(path@),
            Search::Failed(error) => SearchView::Failed(error@),
        }
    }
}

/// A search through candidates in their order, after some have been probed: the
/// first that fits is taken, and no candidate behind it is probed.
pub open spec fn searched(
    candidates: Seq<Seq<u8>>,
    answers: Seq<bool>,
    failure: DriverErrorView,
    k: int,
) -> SearchView
    decreases candidates.len() - k,
{
    if k >= candidates.len() {
        SearchView::Failed(failure)
    } else if k >= answers.len() {
        SearchView::Probe(candidates[k])
    } else if answers[k] {
        SearchView::Found(candidates[k])
    } else {
        searched(candidates, answers, failure, k + 1)
    }
}

fn search(candidates: &Vec<HostPath>, answers: &Vec<bool>, failure: DriverError) -> (result: Search)
    ensures
        result@ == searched(paths(candidates@), answers@, failure@, 0),
{
    let mut k: usize = 0;
    while k < candidates.len()
        invariant
            k <= candidates@.len(),
            searched(paths(candidates@), answers@, failure@, 0) == searched(
                paths(candidates@),
                answers@,
                failure@,
                k as int,
            ),
        decreases candidates@.len() - k,
    {
        assert(paths(candidates@)[k as int] == candidates@[k as int]@);
        if k >= answers.len() {
            return Search::Probe(candidates[k].duplicate());
        }
        if answers[k] {
            return Search::Found(candidates[k].duplicate());
        }
        k += 1;
    }
    Search::Failed(failure)
}

/// The search for LLVM's `opt`: an explicit path or nothing, else candidates.
pub open spec fn opt_search(
    explicit: Option<Seq<u8>>,
    candidates: Seq<Seq<u8>>,
    answers: Seq<bool>,
) -> SearchView {
    match explicit {
        Some(path) => searched(
            seq![path],
            answers,
            DriverErrorView::NotOpt(path_text(path)),
            0,
        ),
        None => searched(candidates, answers, DriverErrorView::OptNotFound, 0),
    }
}

/// Decides the next step of the search for `opt`. `candidates` are the `opt`
/// programs of the possible prefixes, `answers` says which of the paths probed
/// so far are an LLVM 21 `opt`.
pub fn resolve_opt(
    options: &Options,
    candidates: &Vec<HostPath>,
    answers: &Vec<bool>,
) -> (result: Search)
    ensures
        result@ == opt_search(options@.opt, paths(candidates@), answers@),
{
    match &options.opt {
        Some(path) => {
            let mut only: Vec<HostPath> = Vec::new();
            only.push(path.duplicate());
            assert(paths(only@) =~= seq![path@]);
            search(&only, answers, DriverError::NotOpt(path.display()))
        },
        None => search(candidates, answers, DriverError::OptNotFound),
    }
}

/// Whether a program that was asked for its version is LLVM 21.
pub fn reports_llvm_21(success: bool, output: &str) -> (result: bool)
    ensures
        result == (success && occurs_in(output@, "LLVM version 21."@)),
{
    success && contains_text(output, "LLVM version 21.")
}

/// The systems that name libraries in different ways.
#[derive(Clone, Copy, Debug, PartialEq, Eq, Structural)]
pub enum HostSystem {
    Mac,
    Windows,
    Other,
}

impl HostSystem {
    /// The file name of the plugin.
    pub open spec fn plugin(self) -> Seq<char> {
        match self {
            HostSystem::Mac => "librust_loop_vectorizer.dylib"@,
            HostSystem::Windows => "rust_loop_vectorizer.dll"@,
            HostSystem::Other => "librust_loop_vectorizer.so"@,
        }
    }
}

/// The file name of the plugin on a system.
pub fn plugin_filename(system: HostSystem) -> (text: &'static str)
    ensures
        text@ == system.plugin(),
{
    match system {
        HostSystem::Mac => "librust_loop_vectorizer.dylib",
        HostSystem::Windows => "rust_loop_vectorizer.dll",
        HostSystem::Other => "librust_loop_vectorizer.so",
    }
}

/// Lists where the plugin may be: beside the driver, and among the release and
/// the debug builds.
pub fn plugin_candidates(
    beside: Option<HostPath>,
    release: Option<HostPath>,
    debug: Option<HostPath>,
) -> (result: Vec<HostPath>)
    ensures
        paths(result@) == listed(optional(beside)) + listed(optional(release)) + listed(
            optional(debug),
        ),
{
    let ghost wanted = listed(optional(beside)) + listed(optional(release)) + listed(
        optional(debug),
    );
    let mut result: Vec<HostPath> = Vec::new();
    if let Some(path) = beside {
        result.push(path);
    }
    if let Some(path) = release {
        result.push(path);
    }
    if let Some(path) = debug {
        result.push(path);
    }
    assert(paths(result@) =~= wanted);
    result
}

/// The search for the plugin: an explicit path or nothing, else the path that
/// the environment names or nothing, else candidates.
pub open spec fn plugin_search(
    explicit: Option<Seq<u8>>,
    environment: Option<Seq<u8>>,
    candidates: Seq<Seq<u8>>,
    answers: Seq<bool>,
) -> SearchView {
    match (explicit, environment) {
        (Some(path), _) => searched(
            seq![path],
            answers,
            DriverErrorView::PluginNotFound(path_text(path)),
            0,
        ),
        (None, Some(path)) => searched(
            seq![path],
            answers,
            DriverErrorView::EnvironmentPluginNotFound(path_text(path)),
            0,
        ),
        (None, None) => searched(candidates, answers, DriverErrorView::NoPlugin, 0),
    }
}

/// Decides the next step of the search for the plugin. `answers` says which of
/// the paths probed so far are files.
pub fn resolve_plugin(
    options: &Options,
    environment: &Option<HostPath>,
    candidates: &Vec<HostPath>,
    answers: &Vec<bool>,
) -> (result: Search)
    ensures
        result@ == plugin_search(
            options@.plugin,
            optional(*environment),
            paths(candidates@),
            answers@,
        ),
{
    let mut only: Vec<HostPath> = Vec::new();
    if let Some(path) = &options.plugin {
        only.push(path.duplicate());
        assert(paths(only@) =~= seq![path@]);
        return search(&only, answers, DriverError::PluginNotFound(path.display()));
    }
    if let Some(path) = environment {
        only.push(path.duplicate());
        assert(paths(only@) =~= seq![path@]);
        return search(&only, answers, DriverError::EnvironmentPluginNotFound(path.display()));
    }
    search(candidates, answers, DriverError::NoPlugin)
}

/// The arguments that `opt` is run with.
pub open spec fn command_arguments(o: OptionsView, plugin: Seq<u8>) -> Seq<Seq<u8>> {
    let head = seq![
        encode_utf8("-load-pass-plugin="@ + path_text(plugin)),
        encode_utf8("-passes="@ + pipeline(o)),
    ];
    let mode = if o.emit_bitcode {
        Seq::empty()
    } else {
        seq![encode_utf8("-S"@)]
    };
    let output = match o.output {
        Some(path) => path,
        None => encode_utf8("-"@),
    };
    head + mode + seq![o.input->0, encode_utf8("-o"@), output]
}

/// Puts together the arguments that `opt` is run with.
pub fn build_command(options: &Options, plugin: &HostPath) -> (result: Vec<HostPath>)
    requires
        options@.input is Some,
    ensures
        paths(result@) == command_arguments(options@, plugin@),
{
    let ghost wanted = command_arguments(options@, plugin@);
    let mut result: Vec<HostPath> = Vec::new();
    let mut load: String = "-load-pass-plugin=".to_owned();
    load.append(plugin.display().as_str());
    result.push(HostPath::new(load.as_str()));
    let mut passes: String = "-passes=".to_owned();
    passes.append(pass_pipeline(options).as_str());
    result.push(HostPath::new(passes.as_str()));
    if !options.emit_bitcode {
        result.push(HostPath::new("-S"));
    }
    if let Some(input) = &options.input {
        result.push(input.duplicate());
    }
    result.push(HostPath::new("-o"));
    match &options.output {
        Some(output) => result.push(output.duplicate()),
        None => result.push(HostPath::new("-")),
    }
    assert(paths(result@) =~= wanted);
    result
}

/// The words of a command, for display.
pub open spec fn command_words(program: Seq<u8>, arguments: Seq<Seq<u8>>) -> Seq<Seq<char>> {
    seq![path_text(program)] + arguments.map_values(|argument: Seq<u8>| path_text(argument))
}

/// Writes a command as a shell would take it.
pub fn command_display(program: &HostPath, arguments: &Vec<HostPath>) -> (text: String)
    ensures
        text@ == shell_command(command_words(program@, paths(arguments@))),
{
    let ghost wanted = command_words(program@, paths(arguments@));
    let mut words: Vec<String> = Vec::new();
    words.push(program.display());
    assert(texts(words@) =~= wanted.take(1));
    let mut k: usize = 0;
    while k < arguments.len()
        invariant
            k <= arguments@.len(),
            wanted == command_words(program@, paths(arguments@)),
            texts(words@) == wanted.take(k + 1),
        decreases arguments@.len() - k,
    {
        let ghost before = texts(words@);
        words.push(arguments[k].display());
        assert(wanted[k + 1] == path_text(paths(arguments@)[k as int]));
        assert(texts(words@) =~= before.push(wanted[k + 1]));
        assert(texts(words@) =~= wanted.take(k + 2));
        k += 1;
    }
    assert(wanted.take(wanted.len() as int) =~= wanted);
    shell_join(&words)
}

/// How a finished `opt` ends the driver.
pub open spec fn run_outcome(success: bool, code: Option<i32>) -> Result<(), DriverErrorView> {
    if success {
        Ok(())
    } else {
        match code {
            Some(code) => Err(DriverErrorView::ExitStatus(code as int)),
            None => Err(DriverErrorView::Terminated),
        }
    }
}

/// Judges how `opt` has ended.
pub fn judge_status(success: bool, code: Option<i32>) -> (result: Result<(), DriverError>)
    ensures
        match (result, run_outcome(success, code)) {
            (Ok(()), Ok(())) => true,
            (Err(found), Err(wanted)) => found@ == wanted,
            _ => false,
        },
{
    if success {
        return Ok(());
    }
    match code {
        Some(code) => Err(DriverError::ExitStatus(code)),
        None => Err(DriverError::Terminated),
    }
}

proof fn lemma_searched(
    candidates: Seq<Seq<u8>>,
    answers: Seq<bool>,
    failure: DriverErrorView,
    k: int,
)
    requires
        0 <= k,
        k <= answers.len(),
        forall|j: int| 0 <= j < k ==> !#[trigger] answers[j],
    ensures
        match searched(candidates, answers, failure, k) {
            SearchView::Probe(path) => answers.len() < candidates.len() && path
                == candidates[answers.len() as int] && !answers.contains(true),
            SearchView::Found(path) => exists|j: int|
                0 <= j < answers.len() && j < candidates.len() && #[trigger] answers[j] && path
                    == candidates[j] && forall|i: int| 0 <= i < j ==> !#[trigger] answers[i],
            SearchView::Failed(error) => error == failure && forall|j: int|
                0 <= j < answers.len() && j < candidates.len() ==> !#[trigger] answers[j],
        },
    decreases candidates.len() - k,
{
    if k < candidates.len() && k < answers.len() && !answers[k] {
        lemma_searched(candidates, answers, failure, k + 1);
    }
}

/// A search probes its candidates one by one, takes the first that fits, and
/// fails only if none does.
pub proof fn law_searches_take_the_first(
    candidates: Seq<Seq<u8>>,
    answers: Seq<bool>,
    failure: DriverErrorView,
)
    ensures
        match searched(candidates, answers, failure, 0) {
            SearchView::Probe(path) => answers.len() < candidates.len() && path
                == candidates[answers.len() as int] && !answers.contains(true),
            SearchView::Found(path) => exists|j: int|
                0 <= j < answers.len() && j < candidates.len() && #[trigger] answers[j] && path
                    == candidates[j] && forall|i: int| 0 <= i < j ==> !#[trigger] answers[i],
            SearchView::Failed(error) => error == failure && forall|j: int|
                0 <= j < answers.len() && j < candidates.len() ==> !#[trigger] answers[j],
        },
{
    lemma_searched(candidates, answers, failure, 0);
}

/// The command ends in what the options say about the output: `-o` and exactly
/// the path that they name, whatever else they ask for, or `-` for standard
/// output if they name none. In front of it stand the plugin, the pipeline, the
/// text mode unless bitcode is asked for, and the input, and nothing else.
pub proof fn law_commands_do_what_is_asked(o: OptionsView, plugin: Seq<u8>)
    requires
        o.input is Some,
    ensures
        ({
            let arguments = command_arguments(o, plugin);
            let n = arguments.len() as int;
            &&& n == (if o.emit_bitcode {
                5int
            } else {
                6int
            })
            &&& arguments[n - 2] == encode_utf8("-o"@)
            &&& o.output matches Some(path) ==> arguments[n - 1] == path
            &&& o.output is None ==> arguments[n - 1] == encode_utf8("-"@)
            &&& Some(arguments[n - 3]) == o.input
            &&& !o.emit_bitcode ==> arguments[2] == encode_utf8("-S"@)
            &&& arguments[0] == encode_utf8("-load-pass-plugin="@ + path_text(plugin))
            &&& arguments[1] == encode_utf8("-passes="@ + pipeline(o))
        }),
{
}

/// A program or plugin that is named is the only candidate: it is probed first,
/// taken if it fits, and told by its name if it does not, wherever others may be.
/// A plugin that the environment names counts where none is named otherwise.
pub proof fn law_named_paths_are_taken(
    path: Seq<u8>,
    environment: Option<Seq<u8>>,
    candidates: Seq<Seq<u8>>,
)
    ensures
        opt_search(Some(path), candidates, Seq::empty()) == SearchView::Probe(path),
        opt_search(Some(path), candidates, seq![true]) == SearchView::Found(path),
        opt_search(Some(path), candidates, seq![false]) == SearchView::Failed(
            DriverErrorView::NotOpt(path_text(path)),
        ),
        plugin_search(Some(path), environment, candidates, Seq::empty()) == SearchView::Probe(path),
        plugin_search(Some(path), environment, candidates, seq![true]) == SearchView::Found(path),
        plugin_search(Some(path), environment, candidates, seq![false]) == SearchView::Failed(
            DriverErrorView::PluginNotFound(path_text(path)),
        ),
        plugin_search(None, Some(path), candidates, Seq::empty()) == SearchView::Probe(path),
        plugin_search(None, Some(path), candidates, seq![true]) == SearchView::Found(path),
        plugin_search(None, Some(path), candidates, seq![false]) == SearchView::Failed(
            DriverErrorView::EnvironmentPluginNotFound(path_text(path)),
        ),
{
    reveal_with_fuel(searched, 2);
}

/// Where nothing is named, the candidates are probed in their order, the first
/// that fits is found, and the failure says that there was none.
pub proof fn law_candidates_are_probed_in_order(
    candidates: Seq<Seq<u8>>,
    answers: Seq<bool>,
    k: int,
)
    requires
        0 <= k < candidates.len(),
        answers.len() <= k + 1,
        forall|j: int| 0 <= j < k && j < answers.len() ==> !#[trigger] answers[j],
    ensures
        answers.len() == k ==> {
            &&& opt_search(None, candidates, answers) == SearchView::Probe(candidates[k])
            &&& plugin_search(None, None, candidates, answers) == SearchView::Probe(candidates[k])
        },
        answers.len() == k + 1 && answers[k] ==> {
            &&& opt_search(None, candidates, answers) == SearchView::Found(candidates[k])
            &&& plugin_search(None, None, candidates, answers) == SearchView::Found(candidates[k])
        },
        answers.len() == k + 1 && k + 1 == candidates.len() && !answers[k] ==> {
            &&& opt_search(None, candidates, answers) == SearchView::Failed(
                DriverErrorView::OptNotFound,
            )
            &&& plugin_search(None, None, candidates, answers) == SearchView::Failed(
                DriverErrorView::NoPlugin,
            )
        },
{
    lemma_search_outcome(candidates, answers, DriverErrorView::OptNotFound, 0, k);
    lemma_search_outcome(candidates, answers, DriverErrorView::NoPlugin, 0, k);
}

proof fn lemma_search_outcome(
    candidates: Seq<Seq<u8>>,
    answers: Seq<bool>,
    failure: DriverErrorView,
    from: int,
    k: int,
)
    requires
        0 <= from <= k < candidates.len(),
        k <= answers.len() <= k + 1 || answers.len() < k,
        forall|j: int| 0 <= j < k && j < answers.len() ==> !#[trigger] answers[j],
    ensures
        answers.len() == k ==> searched(candidates, answers, failure, from) == SearchView::Probe(
            candidates[k],
        ),
        answers.len() == k + 1 && answers[k] ==> searched(candidates, answers, failure, from)
            == SearchView::Found(candidates[k]),
        answers.len() == k + 1 && k + 1 == candidates.len() && !answers[k] ==> searched(
            candidates,
            answers,
            failure,
            from,
        ) == SearchView::Failed(failure),
    decreases k - from,
{
    reveal_with_fuel(searched, 2);
    if from < k {
        lemma_search_outcome(candidates, answers, failure, from + 1, k);
    }
}

/// An LLVM prefix that is named is the only one. Where none is, the one of the
/// environment comes first, then the one that the configuration program names,
/// and behind them the usual places.
pub proof fn law_prefixes_come_in_order(
    prefix: Seq<u8>,
    environment: Option<Seq<u8>>,
    config: Option<Seq<u8>>,
)
    ensures
        prefix_candidates(Some(prefix), environment, config) == seq![prefix],
        ({
            let all = prefix_candidates(None, environment, config);
            let n = all.len() as int;
            &&& n == 3 + (if environment is Some {
                1int
            } else {
                0
            }) + (if config is Some {
                1int
            } else {
                0
            })
            &&& environment is Some ==> all[0] == environment->0
            &&& config is Some ==> all[n - 4] == config->0
            &&& all[n - 3] == encode_utf8("/opt/homebrew/opt/llvm"@)
            &&& all[n - 2] == encode_utf8("/usr/local/opt/llvm"@)
            &&& all[n - 1] == encode_utf8("/usr/lib/llvm-21"@)
        }),
{
}

/// The driver succeeds exactly where `opt` does, and tells its exit status, if it
/// has one.
pub proof fn law_runs_end_as_opt_does(success: bool, code: Option<i32>)
    ensures
        run_outcome(success, code) is Ok <==> success,
        !success && code is Some ==> run_outcome(success, code) == Err::<(), DriverErrorView>(
            DriverErrorView::ExitStatus(code->0 as int),
        ),
        !success && code is None ==> run_outcome(success, code) == Err::<(), DriverErrorView>(
            DriverErrorView::Terminated,
        ),
{
}

/// A command is shown with its program first, and then its arguments in order.
pub proof fn law_commands_are_shown_in_order(program: Seq<u8>, arguments: Seq<Seq<u8>>, k: int)
    requires
        0 <= k < arguments.len(),
    ensures
        command_words(program, arguments).len() == arguments.len() + 1,
        command_words(program, arguments)[0] == path_text(program),
        command_words(program, arguments)[k + 1] == path_text(arguments[k]),
{
}

} // verus!
