use rust_loop_vectorizer::command_line::{
    parse_args, pass_pipeline, Options, Parsed, Policy, UsageError, VectorWidth,
};
use rust_loop_vectorizer::driver::{
    build_command, command_display, config_prefix, judge_status, llvm_prefix_candidates,
    plugin_candidates, plugin_filename, reports_llvm_21, resolve_opt, resolve_plugin, DriverError,
    HostSystem, Search,
};
use rust_loop_vectorizer::host::{shell_quote, Argument, HostPath};

fn args(values: &[&str]) -> Vec<Argument> {
    values.iter().map(|value| Argument::new(value)).collect()
}

fn options(values: &[&str]) -> Options {
    match parse_args(&args(values)) {
        Ok(Parsed::Run(options)) => options,
        other => panic!("expected runnable options, got {other:?}"),
    }
}

fn error(values: &[&str]) -> UsageError {
    match parse_args(&args(values)) {
        Err(error) => error,
        other => panic!("expected an error, got {other:?}"),
    }
}

#[test]
fn parses_normal_invocation() {
    let Parsed::Run(options) = parse_args(&args(&[
        "--policy",
        "aggressive",
        "--report",
        "-o",
        "out.ll",
        "in.ll",
    ]))
    .expect("valid arguments") else {
        panic!("expected runnable options");
    };
    assert_eq!(options.input, Some(HostPath::new("in.ll")));
    assert_eq!(options.output, Some(HostPath::new("out.ll")));
    assert_eq!(options.policy, Policy::Aggressive);
    assert!(options.report);
}

#[test]
fn builds_balanced_pipeline_with_verifier() {
    let options = Options {
        verify: true,
        report: true,
        ..Options::default()
    };
    assert_eq!(pass_pipeline(&options), "rust-loop-vectorize-report,verify");
}

#[test]
fn builds_forced_width_pipeline() {
    let options = Options {
        vector_width: VectorWidth::Fixed(8),
        verify: false,
        ..Options::default()
    };
    assert_eq!(pass_pipeline(&options), "rust-loop-vectorize-force-vf8");
}

#[test]
fn rejects_policy_with_fixed_width() {
    let result = parse_args(&args(&["--policy=aggressive", "--vf=4", "in.ll"]));
    assert!(matches!(result, Err(error) if error.message().contains("cannot be combined")));
}

#[test]
fn quotes_shell_metacharacters() {
    assert_eq!(shell_quote("plain.ll"), "plain.ll");
    assert_eq!(shell_quote("it's here.ll"), "'it'\\''s here.ll'");
}

#[test]
fn quotes_the_empty_word_and_other_scripts() {
    assert_eq!(shell_quote(""), "''");
    assert_eq!(shell_quote("λ"), "'λ'");
    assert_eq!(shell_quote("a_b+c-d.e,f/g:h=9"), "a_b+c-d.e,f/g:h=9");
    assert_eq!(shell_quote("$(x)"), "'$(x)'");
}

#[test]
fn help_and_version_end_the_reading() {
    assert_eq!(parse_args(&args(&["-h", "--nonsense"])), Ok(Parsed::Help));
    assert_eq!(parse_args(&args(&["--help"])), Ok(Parsed::Help));
    assert_eq!(parse_args(&args(&["in.ll", "-V"])), Ok(Parsed::Version));
    assert_eq!(parse_args(&args(&["--version"])), Ok(Parsed::Version));
}

#[test]
fn every_option_is_read() {
    let read = options(&[
        "--vf",
        "16",
        "--output=o.bc",
        "--emit-bitcode",
        "--no-verify",
        "--dry-run",
        "--llvm-prefix=/llvm",
        "--opt",
        "/bin/opt",
        "--plugin=p.so",
        "--",
        "-weird-.ll",
    ]);
    assert_eq!(read.vector_width, VectorWidth::Fixed(16));
    assert_eq!(read.output, Some(HostPath::new("o.bc")));
    assert!(read.emit_bitcode && read.dry_run && !read.verify && !read.report);
    assert_eq!(read.llvm_prefix, Some(HostPath::new("/llvm")));
    assert_eq!(read.opt, Some(HostPath::new("/bin/opt")));
    assert_eq!(read.plugin, Some(HostPath::new("p.so")));
    assert_eq!(read.input, Some(HostPath::new("-weird-.ll")));
    assert_eq!(read.policy, Policy::Balanced);
    let separate = options(&[
        "--llvm-prefix",
        "/l",
        "--opt=o",
        "--plugin",
        "p",
        "--policy",
        "conservative",
        "--output",
        "x",
        "in",
    ]);
    assert_eq!(separate.llvm_prefix, Some(HostPath::new("/l")));
    assert_eq!(separate.opt, Some(HostPath::new("o")));
    assert_eq!(separate.plugin, Some(HostPath::new("p")));
    assert_eq!(separate.policy, Policy::Conservative);
    assert!(separate.verify);
}

#[test]
fn every_usage_error_is_worded() {
    assert_eq!(
        error(&["--policy", "wild", "in"]).message(),
        "invalid policy \"wild\"; expected balanced, conservative, or aggressive"
    );
    assert_eq!(
        error(&["--vf=3", "in"]).message(),
        "invalid vector width \"3\"; expected auto, 2, 4, 8, or 16"
    );
    assert_eq!(error(&["in", "-o"]).message(), "-o requires a value");
    assert_eq!(error(&["in", "--opt"]).message(), "--opt requires a value");
    assert_eq!(error(&["a", "b"]).message(), "unexpected extra input \"b\"");
    assert_eq!(error(&["--what\t"]).message(), "unknown option \"--what\\t\"");
    assert_eq!(error(&[]).message(), "missing input LLVM IR or bitcode file");
    assert_eq!(
        error(&["in", "--vf", "2", "--policy", "aggressive"]).message(),
        "--policy and a fixed --vf cannot be combined"
    );
    assert_eq!(
        error(&["in.ll", "-o", "in.ll"]).message(),
        "input and output paths must differ"
    );
}

#[test]
fn spellings_of_one_path_are_the_same() {
    assert_eq!(error(&["dir/in.ll", "-o", "dir//in.ll"]), UsageError::SamePaths);
    assert_eq!(error(&["dir/in.ll", "-o", "dir/./in.ll"]), UsageError::SamePaths);
    assert_eq!(error(&["dir/in.ll", "-o", "dir/in.ll/"]), UsageError::SamePaths);
    assert_eq!(error(&["/in.ll", "-o", "/./in.ll"]), UsageError::SamePaths);
    for (input, output) in [
        ("in/k.ll", "out/k.ll"),
        ("in.ll", "/in.ll"),
        ("in.ll", "./in.ll"),
        ("a/../in.ll", "in.ll"),
        (":in.ll", "out.ll"),
        ("C:\\in.ll", "C:\\out.ll"),
        ("//host/in.ll", "//host/out.ll"),
    ] {
        assert_eq!(options(&[input, "-o", output]).output, Some(HostPath::new(output)));
    }
    assert_eq!(error(&["C:\\in.ll", "-o", "C:\\in.ll"]), UsageError::SamePaths);
}

#[test]
fn arguments_need_not_be_unicode() {
    let raw = |debug: &str| Argument::Raw {
        bytes: vec![b'-', 0xFF],
        debug: debug.to_owned(),
    };
    let Ok(Parsed::Run(read)) = parse_args(&vec![raw("x")]) else {
        panic!("expected runnable options");
    };
    assert_eq!(read.input.as_ref().map(|path| path.bytes.clone()), Some(vec![b'-', 0xFF]));
    assert_eq!(read.input.unwrap().display(), "-\u{FFFD}");
    assert_eq!(
        parse_args(&vec![Argument::new("--policy"), raw("\"-\\xFF\"")]),
        Err(UsageError::InvalidPolicy("\"-\\xFF\"".to_owned()))
    );
    assert_eq!(
        parse_args(&vec![Argument::new("in"), raw("\"-\\xFF\"")]),
        Err(UsageError::ExtraInput("\"-\\xFF\"".to_owned()))
    );
    assert_eq!(
        parse_args(&vec![raw("x"), Argument::new("-o"), raw("x")]),
        Err(UsageError::SamePaths)
    );
}

#[test]
fn pipelines_name_the_policy() {
    for (policy, name) in [
        (Policy::Balanced, "rust-loop-vectorize"),
        (Policy::Conservative, "rust-loop-vectorize-conservative"),
        (Policy::Aggressive, "rust-loop-vectorize-aggressive"),
    ] {
        assert_eq!(policy.pass_stem(), name);
        let options = Options {
            policy,
            ..Options::default()
        };
        assert_eq!(pass_pipeline(&options), name);
    }
    assert_eq!(
        pass_pipeline(&options(&["in", "--vf=16", "--report"])),
        "rust-loop-vectorize-force-vf16-report,verify"
    );
}

#[test]
fn prefixes_are_tried_in_order() {
    let usual = ["/opt/homebrew/opt/llvm", "/usr/local/opt/llvm", "/usr/lib/llvm-21"];
    let plain = options(&["in"]);
    let names = |list: Vec<HostPath>| list.iter().map(HostPath::display).collect::<Vec<_>>();
    assert_eq!(names(llvm_prefix_candidates(&plain, None, None)), usual);
    let found = names(llvm_prefix_candidates(
        &plain,
        Some(HostPath::new("/env")),
        Some(HostPath::new("/config")),
    ));
    assert_eq!(found[..2], ["/env", "/config"]);
    assert_eq!(found[2..], usual);
    let explicit = options(&["in", "--llvm-prefix=/own"]);
    assert_eq!(
        names(llvm_prefix_candidates(&explicit, Some(HostPath::new("/env")), None)),
        ["/own"]
    );
}

#[test]
fn the_first_fitting_opt_is_taken() {
    let plain = options(&["in"]);
    let candidates = vec![HostPath::new("a"), HostPath::new("b")];
    assert_eq!(
        resolve_opt(&plain, &candidates, &vec![]),
        Search::Probe(HostPath::new("a"))
    );
    assert_eq!(
        resolve_opt(&plain, &candidates, &vec![false]),
        Search::Probe(HostPath::new("b"))
    );
    assert_eq!(
        resolve_opt(&plain, &candidates, &vec![false, true]),
        Search::Found(HostPath::new("b"))
    );
    let Search::Failed(error) = resolve_opt(&plain, &candidates, &vec![false, false]) else {
        panic!("expected a failure");
    };
    assert_eq!(
        error.message(),
        "LLVM 21 opt was not found; use --opt, --llvm-prefix, or LLVM_SYS_211_PREFIX"
    );
    let explicit = options(&["in", "--opt=/x/opt"]);
    assert_eq!(
        resolve_opt(&explicit, &candidates, &vec![true]),
        Search::Found(HostPath::new("/x/opt"))
    );
    let Search::Failed(error) = resolve_opt(&explicit, &candidates, &vec![false]) else {
        panic!("expected a failure");
    };
    assert_eq!(error.message(), "/x/opt is not an executable LLVM 21 opt");
}

#[test]
fn the_plugin_is_searched_like_opt() {
    let plain = options(&["in"]);
    let candidates = vec![HostPath::new("a"), HostPath::new("b")];
    assert_eq!(
        resolve_plugin(&plain, &None, &candidates, &vec![false, true]),
        Search::Found(HostPath::new("b"))
    );
    let Search::Failed(error) = resolve_plugin(&plain, &None, &candidates, &vec![false, false]) else {
        panic!("expected a failure");
    };
    assert_eq!(
        error.message(),
        "pass plugin was not found; run cargo build --release or use --plugin"
    );
    let environment = Some(HostPath::new("/env.so"));
    let Search::Failed(error) = resolve_plugin(&plain, &environment, &candidates, &vec![false]) else {
        panic!("expected a failure");
    };
    assert_eq!(
        error.message(),
        "pass plugin from RV_PLUGIN_PATH not found at /env.so"
    );
    let explicit = options(&["in", "--plugin=/p.so"]);
    let Search::Failed(error) = resolve_plugin(&explicit, &environment, &candidates, &vec![false]) else {
        panic!("expected a failure");
    };
    assert_eq!(error.message(), "pass plugin not found at /p.so");
    assert_eq!(
        resolve_plugin(&explicit, &environment, &candidates, &vec![true]),
        Search::Found(HostPath::new("/p.so"))
    );
}

#[test]
fn versions_are_recognized() {
    assert!(reports_llvm_21(true, "LLVM (http://llvm.org/):\n  LLVM version 21.1.0\n"));
    assert!(!reports_llvm_21(false, "LLVM version 21.1.0"));
    assert!(!reports_llvm_21(true, "LLVM version 20.1.0"));
    assert!(!reports_llvm_21(true, "LLVM version 21"));
}

#[test]
fn plugins_are_named_by_system() {
    assert_eq!(plugin_filename(HostSystem::Mac), "librust_loop_vectorizer.dylib");
    assert_eq!(plugin_filename(HostSystem::Windows), "rust_loop_vectorizer.dll");
    assert_eq!(plugin_filename(HostSystem::Other), "librust_loop_vectorizer.so");
}

#[test]
fn commands_are_built_and_displayed() {
    let plain = options(&["in file.ll"]);
    let command = build_command(&plain, &HostPath::new("/p.so"));
    assert_eq!(
        command_display(&HostPath::new("/llvm/bin/opt"), &command),
        "/llvm/bin/opt -load-pass-plugin=/p.so -passes=rust-loop-vectorize,verify -S \
         'in file.ll' -o -"
    );
    let bitcode = options(&["in.bc", "--emit-bitcode", "-o", "out.bc", "--no-verify"]);
    let command = build_command(&bitcode, &HostPath::new("/p.so"));
    let words: Vec<_> = command.iter().map(HostPath::display).collect();
    assert_eq!(
        words,
        ["-load-pass-plugin=/p.so", "-passes=rust-loop-vectorize", "in.bc", "-o", "out.bc"]
    );
}

#[test]
fn ends_of_runs_are_judged() {
    assert_eq!(judge_status(true, Some(0)), Ok(()));
    assert_eq!(
        judge_status(false, Some(-7)).unwrap_err().message(),
        "LLVM opt exited with status -7"
    );
    assert_eq!(
        judge_status(false, None).unwrap_err().message(),
        "LLVM opt was terminated by a signal"
    );
    assert_eq!(
        DriverError::InputNotFound("x.ll".to_owned()).message(),
        "input file not found at x.ll"
    );
    let failure = DriverError::ExecutionFailed {
        opt: "opt".to_owned(),
        error: "gone".to_owned(),
    };
    assert_eq!(failure.message(), "failed to execute opt: gone");
}

#[test]
fn values_can_be_inline() {
    let cases: [(&str, &str); 8] = [
        ("--output", "out.ll"),
        ("--output", "in.ll"),
        ("--policy", "aggressive"),
        ("--policy", "no=ne"),
        ("--vf", "8"),
        ("--llvm-prefix", ""),
        ("--opt", "-opt"),
        ("--plugin", "--plugin=x"),
    ];
    for (name, value) in cases {
        let inline = format!("{name}={value}");
        for rest in [&["in.ll"][..], &["in.ll", "in.ll"], &["--help"], &[]] {
            let apart = [&["--report", name, value][..], rest].concat();
            let together = [&["--report", inline.as_str()][..], rest].concat();
            assert_eq!(parse_args(&args(&apart)), parse_args(&args(&together)));
        }
    }
}

#[test]
fn the_plugin_is_looked_for_in_order() {
    let path = |text: &str| Some(HostPath::new(text));
    assert_eq!(
        plugin_candidates(path("a"), path("b"), path("c")),
        [HostPath::new("a"), HostPath::new("b"), HostPath::new("c")]
    );
    assert_eq!(plugin_candidates(None, path("b"), path("c")).len(), 2);
    assert_eq!(plugin_candidates(path("a"), None, None), [HostPath::new("a")]);
}

#[test]
fn prefixes_are_found_from_their_programs() {
    let prefix = |text: &str| config_prefix(&HostPath::new(text));
    assert_eq!(prefix("/opt/llvm/bin/llvm-config"), Some(HostPath::new("/opt/llvm")));
    assert_eq!(prefix("bin/llvm-config"), Some(HostPath::new("")));
    assert_eq!(prefix("llvm-config"), None);
    assert_eq!(prefix("/llvm-config"), None);
    let raw = HostPath {
        bytes: b"\xff/bin/llvm-config".to_vec(),
    };
    assert_eq!(config_prefix(&raw), Some(HostPath { bytes: vec![0xff] }));
}
