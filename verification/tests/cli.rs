use rename_me::cli::{
    argument_panic, parse_arguments, target_action, ArgumentPanic, CLIError, CliOutcome, EmitKind, PassRunner, RelocMode,
    TargetAction, UserConfig,
};

fn args(list: &[&str]) -> Vec<String> {
    list.iter().map(|a| String::from(*a)).collect()
}

fn run(list: &[&str]) -> UserConfig {
    match parse_arguments(&args(list)) {
        Ok(CliOutcome::Run(config)) => config,
        other => panic!("unexpected {:?}", other),
    }
}

fn error(list: &[&str]) -> CLIError {
    match parse_arguments(&args(list)) {
        Err(error) => error,
        other => panic!("unexpected {:?}", other),
    }
}

#[test]
fn no_arguments_give_the_defaults() {
    let config = run(&[]);
    assert_eq!(config.flags.jobs, 1);
    assert_eq!(config.flags.optimise, 1);
    assert_eq!(config.flags.reloc, RelocMode::Default);
    assert_eq!(config.flags.emit_kind, EmitKind::ElfLinked);
    assert!(!config.flags.verbose);
    assert!(!config.flags.dump_passes);
    assert_eq!(config.target, None);
    assert!(config.input_files.is_empty());
    assert_eq!(EmitKind::default(), EmitKind::ElfLinked);
    assert_eq!(UserConfig::default().flags, config.flags);
}

#[test]
fn jobs_take_a_number() {
    assert_eq!(run(&["-j4"]).flags.jobs, 4);
    assert_eq!(run(&["-j", "8"]).flags.jobs, 8);
    assert_eq!(run(&["-j+3"]).flags.jobs, 3);
}

#[test]
fn jobs_without_a_number_mean_two() {
    assert_eq!(run(&["-j"]).flags.jobs, 2);
    let config = run(&["-j", "-v"]);
    assert_eq!(config.flags.jobs, 2);
    assert!(config.flags.verbose);
}

#[test]
fn optimisation_levels() {
    assert_eq!(run(&["-O"]).flags.optimise, 3);
    assert_eq!(run(&["-O0"]).flags.optimise, 0);
    assert_eq!(run(&["-O", "2"]).flags.optimise, 2);
    assert_eq!(run(&["--optimise"]).flags.optimise, 3);
    assert_eq!(run(&["--optimise=2"]).flags.optimise, 2);
    assert_eq!(run(&["--optimise", "0"]).flags.optimise, 0);
    assert_eq!(run(&["-O2", "--no-optimise"]).flags.optimise, 0);
    assert_eq!(run(&["--optimise", "-v"]).flags.optimise, 3);
}

#[test]
fn relocation_modes() {
    assert_eq!(run(&["--reloc=default"]).flags.reloc, RelocMode::Default);
    assert_eq!(run(&["--reloc=static"]).flags.reloc, RelocMode::Static);
    assert_eq!(run(&["--reloc", "pic"]).flags.reloc, RelocMode::PIC);
    assert_eq!(run(&["--reloc=dynamic-no-pic"]).flags.reloc, RelocMode::DynamicNoPic);
    assert_eq!(
        error(&["--reloc=shared"]),
        CLIError::InvalidValue {
            arg_name: "--reloc",
            value: String::from("shared"),
            expected: Some("one of: 'default' OR 'static' OR 'pic' OR 'dynamic-no-pic'"),
        }
    );
}

#[test]
fn emit_kinds() {
    assert_eq!(run(&["--emit=elf-linked"]).flags.emit_kind, EmitKind::ElfLinked);
    assert_eq!(run(&["--emit=elf-obj"]).flags.emit_kind, EmitKind::ElfObject);
    assert_eq!(run(&["--emit", "asm"]).flags.emit_kind, EmitKind::Assembly);
    assert_eq!(run(&["--emit=llvm-ir"]).flags.emit_kind, EmitKind::IntermediateRepresentation);
    assert_eq!(
        error(&["--emit=exe"]),
        CLIError::InvalidValue {
            arg_name: "--emit",
            value: String::from("exe"),
            expected: Some("one of: 'elf-linked' OR 'elf-obj' OR 'asm' OR 'llvm-ir'"),
        }
    );
}

#[test]
fn targets_and_flags() {
    assert_eq!(
        run(&["--target=aarch64-unknown-linux-gnu"]).target,
        Some(String::from("aarch64-unknown-linux-gnu"))
    );
    assert_eq!(run(&["--target", "riscv64", "--native-target"]).target, None);
    assert!(run(&["--verbose"]).flags.verbose);
    assert!(run(&["-v"]).flags.verbose);
    assert!(run(&["--dump-passes"]).flags.dump_passes);
}

#[test]
fn versions() {
    assert!(matches!(parse_arguments(&args(&["-V"])), Ok(CliOutcome::ShortVersion)));
    assert!(matches!(parse_arguments(&args(&["-v", "--version"])), Ok(CliOutcome::LongVersion)));
    assert!(matches!(parse_arguments(&args(&["-V", "--bogus"])), Ok(CliOutcome::ShortVersion)));
}

#[test]
fn unknown_arguments() {
    assert_eq!(error(&["--bogus"]), CLIError::UnknownArgument { arg_name: String::from("bogus") });
    assert_eq!(error(&["--bogus=1"]), CLIError::UnknownArgument { arg_name: String::from("bogus") });
    assert_eq!(error(&["-q"]), CLIError::UnknownArgument { arg_name: String::from("-q") });
}

#[test]
fn bad_numbers() {
    assert_eq!(error(&["-jx"]), CLIError::InvalidNumber { value: String::from("x") });
    assert_eq!(error(&["-O", "99999999999"]), CLIError::InvalidNumber { value: String::from("99999999999") });
    assert_eq!(error(&["-j", ""]), CLIError::InvalidNumber { value: String::new() });
}

#[test]
fn panicking_command_lines() {
    assert_eq!(argument_panic(&args(&["-"])), Some(ArgumentPanic::ShortArgument));
    assert_eq!(argument_panic(&args(&["x"])), None);
    assert_eq!(argument_panic(&args(&["-v", ""])), Some(ArgumentPanic::ShortArgument));
    assert_eq!(argument_panic(&args(&["--optimise=high"])), Some(ArgumentPanic::OptimisationLevel));
    assert_eq!(argument_panic(&args(&["-v", "-j3"])), None);
    assert_eq!(argument_panic(&args(&["--bogus", "x"])), None);
}

#[test]
fn environment_commands() {
    let mut config = UserConfig::default();
    config.apply_environment(None, Some(String::from("mold")), Some(String::from("strip")), None, None, None);
    assert_eq!(config.passes, None);
    assert!(config.trailing.is_empty());
    assert_eq!(config.linker_command, "mold");
    assert_eq!(config.strip_command, "strip");
    assert_eq!(config.opt_command, "");
    config.apply_environment(
        Some(String::from("ld.lld")),
        Some(String::from("mold")),
        None,
        Some(String::from("opt")),
        Some(String::from("mem2reg")),
        Some(String::from("  -O2\t-g  -Wall ")),
    );
    assert_eq!(config.passes, Some(String::from("mem2reg")));
    assert_eq!(config.trailing, vec![String::from("-O2"), String::from("-g"), String::from("-Wall")]);
    assert_eq!(config.linker_command, "ld.lld");
    assert_eq!(config.strip_command, "strip");
    assert_eq!(config.opt_command, "opt");
}

fn same_run(a: &[&str], b: &[&str]) {
    let left = run(a);
    let right = run(b);
    assert_eq!(left.flags, right.flags);
    assert_eq!(left.target, right.target);
}

#[test]
fn optimise_without_a_value_is_level_three() {
    same_run(&["--optimise"], &["--optimise=3"]);
    same_run(&["--optimise", "-v"], &["--optimise=3", "-v"]);
}

#[test]
fn short_options_without_a_number_take_their_default() {
    same_run(&["-j"], &["-j2"]);
    same_run(&["-O", "--verbose"], &["-O3", "--verbose"]);
}

#[test]
fn values_may_stand_in_the_next_argument() {
    same_run(&["-j", "5", "-v"], &["-j5", "-v"]);
    same_run(&["--emit", "llvm-ir"], &["--emit=llvm-ir"]);
    same_run(&["--target", "x86_64-unknown-linux-unknown"], &["--target=x86_64-unknown-linux-unknown"]);
}

#[test]
fn output_and_input_files() {
    let config = run(&["-o", "out", "main.rn"]);
    assert_eq!(config.output_file, Some(String::from("out")));
    assert_eq!(config.input_files, vec![String::from("main.rn")]);
    let config = run(&["a.rn", "--output-file=b", "c.rn", "-oz"]);
    assert_eq!(config.output_file, Some(String::from("z")));
    assert_eq!(config.input_files, vec![String::from("a.rn"), String::from("c.rn")]);
}

#[test]
fn rpath_and_short_emit() {
    let config = run(&["--rpath=/opt/lib", "-e", "asm"]);
    assert_eq!(config.rpath, "/opt/lib");
    assert_eq!(config.flags.emit_kind, EmitKind::Assembly);
    assert_eq!(run(&["-ellvm-ir"]).flags.emit_kind, EmitKind::IntermediateRepresentation);
    assert_eq!(
        error(&["-e", "exe"]),
        CLIError::InvalidValue {
            arg_name: "--emit",
            value: String::from("exe"),
            expected: Some("one of: 'elf-linked' OR 'elf-obj' OR 'asm' OR 'llvm-ir'"),
        }
    );
}

#[test]
fn passes_and_pass_runner() {
    assert_eq!(run(&["-p", "mem2reg,gvn"]).passes, Some(String::from("mem2reg,gvn")));
    assert_eq!(run(&["--passes=dce"]).passes, Some(String::from("dce")));
    assert!(run(&["--no-default-passes"]).no_default_passes);
    assert!(!run(&[]).no_default_passes);
    assert_eq!(run(&["--pass-runner=opt"]).pass_runner, Some(PassRunner::Opt));
    assert_eq!(run(&["--pass-runner", "integrated"]).pass_runner, Some(PassRunner::Integrated));
    assert_eq!(
        error(&["--pass-runner=llc"]),
        CLIError::InvalidValue {
            arg_name: "--pass-runner",
            value: String::from("llc"),
            expected: Some("one of: 'integrated' OR 'opt'"),
        }
    );
}

#[test]
fn stripping() {
    assert_eq!(run(&["--strip"]).strip, Some(String::new()));
    assert_eq!(run(&["--strip", "-v"]).strip, Some(String::new()));
    assert_eq!(run(&["--strip=debug,locals"]).strip, Some(String::from("debug,locals")));
    assert_eq!(run(&["--strip=all", "--no-strip"]).strip, None);
    assert_eq!(run(&[]).strip, None);
}

#[test]
fn help() {
    assert!(matches!(parse_arguments(&args(&["-h"])), Ok(CliOutcome::Help)));
    assert!(matches!(parse_arguments(&args(&["-v", "--help"])), Ok(CliOutcome::Help)));
}

#[test]
fn double_dash_ends_the_options() {
    let config = run(&["main.rn", "--", "-x", "y", "--"]);
    assert_eq!(config.input_files, vec![String::from("main.rn")]);
    assert_eq!(config.trailing, vec![String::from("-x"), String::from("y"), String::from("--")]);
    assert!(run(&["--"]).trailing.is_empty());
    let config = run(&["-j", "--", "z"]);
    assert_eq!(config.flags.jobs, 2);
    assert_eq!(config.trailing, vec![String::from("z")]);
}

#[test]
fn target_actions() {
    let mut config = UserConfig::default();
    assert_eq!(target_action(false, &config.flags), TargetAction::RefuseTarget);
    assert_eq!(target_action(true, &config.flags), TargetAction::Continue);
    config.flags.dump_passes = true;
    assert_eq!(target_action(true, &config.flags), TargetAction::DumpPasses);
    assert_eq!(target_action(false, &config.flags), TargetAction::RefuseTarget);
}
