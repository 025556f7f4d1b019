//! The command line of the compiler driver: its options, as a configuration.
//!
//! Short options are `-j[N]`, `-v`, `-O[N]` and `-V`; a short option that takes
//! a number takes it from the rest of its argument or from the next argument,
//! and falls back to a default where that is absent or is itself an option.
//! Long options are `--name` or `--name=value`; a value may also be the next
//! argument, where that is no option.
use vstd::prelude::*;
use vstd::string::*;

use crate::lexer::{is_white_space, is_whitespace};
use crate::text::{
    chars_equal_str, chars_of, extend_chars, parse_unsigned, parse_unsigned_numeral, string_from_chars,
    sub_chars, unsigned_digits, decimal_value,
};

verus! {

/// What the driver emits.
#[derive(Debug, Clone, Copy, PartialEq, Eq, Structural)]
pub enum EmitKind {
    /// A linked ELF executable.
    ElfLinked,
    /// An ELF object file.
    ElfObject,
    /// Assembly.
    Assembly,
    /// LLVM intermediate representation.
    IntermediateRepresentation,
}

impl EmitKind {
    /// A linked executable.
    pub fn default() -> (res: Self)
        ensures
            res == EmitKind::ElfLinked,
    {
        EmitKind::ElfLinked
    }
}

/// How generated code may be relocated.
#[derive(Debug, Clone, Copy, PartialEq, Eq, Structural)]
pub enum RelocMode {
    /// The target's default.
    Default,
    /// Static code.
    Static,
    /// Position-independent code.
    PIC,
    /// Dynamic code that is not position-independent.
    DynamicNoPic,
}

/// What runs the LLVM passes.
#[derive(Debug, Clone, Copy, PartialEq, Eq, Structural)]
pub enum PassRunner {
    /// LLVM's pass manager, in the driver.
    Integrated,
    /// The `opt` program.
    Opt,
}

/// The settings that the command line can change.
#[derive(Debug, Clone, Copy, PartialEq, Eq, Structural)]
pub struct Flags {
    /// `-j`: how many jobs run at once.
    pub jobs: u32,
    /// `--reloc`.
    pub reloc: RelocMode,
    /// `-v`, `--verbose`.
    pub verbose: bool,
    /// `--dump-passes`: print LLVM's passes and stop.
    pub dump_passes: bool,
    /// `-O`, `--optimise`, `--no-optimise`: the optimisation level.
    pub optimise: u32,
    /// `--emit`.
    pub emit_kind: EmitKind,
}

/// The configuration of one run of the driver.
#[derive(Debug)]
pub struct UserConfig {
    /// The numeric and boolean settings.
    pub flags: Flags,
    /// The target tuple; `None` for the host's default tuple.
    pub target: Option<String>,
    /// The run-time search path of the linked output.
    pub rpath: String,
    /// The libraries to link with.
    pub link_libraries: Vec<String>,
    /// Where the output goes, where given.
    pub output_file: Option<String>,
    /// The sources to compile.
    pub input_files: Vec<String>,
    /// The arguments after the options, passed on.
    pub trailing: Vec<String>,
    /// `-p`, `--passes`: the passes to run, as given.
    pub passes: Option<String>,
    /// `--no-default-passes`.
    pub no_default_passes: bool,
    /// `--pass-runner`.
    pub pass_runner: Option<PassRunner>,
    /// `--strip`, `--no-strip`: the kinds of symbols to strip, as given (empty
    /// where none is named); `None` strips nothing.
    pub strip: Option<String>,
    /// A path, or a path with arguments.
    pub linker_command: String,
    pub strip_command: String,
    pub opt_command: String,
}

/// The settings before any option: one job, level 1, a linked executable.
pub open spec fn default_flags() -> Flags {
    Flags {
        jobs: 1,
        reloc: RelocMode::Default,
        verbose: false,
        dump_passes: false,
        optimise: 1,
        emit_kind: EmitKind::ElfLinked,
    }
}

/// What the command line sets besides the flags and the target.
pub struct SpecExtras {
    pub rpath: Seq<char>,
    pub output_file: Option<Seq<char>>,
    pub input_files: Seq<Seq<char>>,
    pub trailing: Seq<Seq<char>>,
    pub passes: Option<Seq<char>>,
    pub no_default_passes: bool,
    pub pass_runner: Option<PassRunner>,
    pub strip: Option<Seq<char>>,
}

/// Nothing set: no run-time path, output file, input file, trailing
/// argument, passes, pass runner or stripping.
pub open spec fn default_extras() -> SpecExtras {
    SpecExtras {
        rpath: Seq::empty(),
        output_file: None,
        input_files: Seq::empty(),
        trailing: Seq::empty(),
        passes: None,
        no_default_passes: false,
        pass_runner: None,
        strip: None,
    }
}

/// What the command line sets: the flags, the target (`None` for the host's
/// default) and the rest.
pub struct SpecSettings {
    pub flags: Flags,
    pub target: Option<Seq<char>>,
    pub extra: SpecExtras,
}

/// The texts of a sequence of strings.
pub open spec fn string_texts(v: Seq<String>) -> Seq<Seq<char>> {
    v.map_values(|a: String| a@)
}

/// The text of an optional string.
pub open spec fn opt_string_text(o: Option<String>) -> Option<Seq<char>> {
    match o {
        Some(t) => Some(t@),
        None => None,
    }
}

impl UserConfig {
    /// The settings that the command line sets.
    pub open spec fn settings(self) -> SpecSettings {
        SpecSettings {
            flags: self.flags,
            target: opt_string_text(self.target),
            extra: SpecExtras {
                rpath: self.rpath@,
                output_file: opt_string_text(self.output_file),
                input_files: string_texts(self.input_files@),
                trailing: string_texts(self.trailing@),
                passes: opt_string_text(self.passes),
                no_default_passes: self.no_default_passes,
                pass_runner: self.pass_runner,
                strip: opt_string_text(self.strip),
            },
        }
    }

    /// What the command line does not set, before the environment: no
    /// libraries and no commands.
    pub open spec fn is_default_rest(self) -> bool {
        &&& self.link_libraries@.len() == 0
        &&& self.linker_command@ == Seq::<char>::empty()
        &&& self.strip_command@ == Seq::<char>::empty()
        &&& self.opt_command@ == Seq::<char>::empty()
    }

    /// The configuration before any option.
    pub fn default() -> (res: Self)
        ensures
            res.settings() == (SpecSettings {
                flags: default_flags(),
                target: None,
                extra: default_extras(),
            }),
            res.is_default_rest(),
    {
        let res = UserConfig {
            flags: Flags {
                jobs: 1,
                reloc: RelocMode::Default,
                verbose: false,
                dump_passes: false,
                optimise: 1,
                emit_kind: EmitKind::default(),
            },
            target: None,
            rpath: String::new(),
            link_libraries: Vec::new(),
            output_file: None,
            input_files: Vec::new(),
            trailing: Vec::new(),
            passes: None,
            no_default_passes: false,
            pass_runner: None,
            strip: None,
            linker_command: String::new(),
            strip_command: String::new(),
            opt_command: String::new(),
        };
        proof {
            assert(string_texts(res.input_files@) =~= Seq::<Seq<char>>::empty());
            assert(string_texts(res.trailing@) =~= Seq::<Seq<char>>::empty());
        }
        res
    }

    /// Takes the commands from the environment: the linker from `LD`, or else
    /// from `LINKER`; `STRIP`; `OPT`; the passes from `LLVM_PASSES`, as
    /// `--passes` would; and the arguments after `--` from the words of
    /// `CFLAGS`.  Absent variables change nothing.
    pub fn apply_environment(
        &mut self,
        ld: Option<String>,
        linker: Option<String>,
        strip: Option<String>,
        opt: Option<String>,
        llvm_passes: Option<String>,
        cflags: Option<String>,
    )
        ensures
            final(self).passes == match llvm_passes {
                Some(v) => Some(v),
                None => old(self).passes,
            },
            final(self).no_default_passes == old(self).no_default_passes,
            final(self).pass_runner == old(self).pass_runner,
            final(self).strip == old(self).strip,
            final(self).flags == old(self).flags,
            final(self).target == old(self).target,
            final(self).linker_command == match ld {
                Some(v) => v,
                None => match linker {
                    Some(v) => v,
                    None => old(self).linker_command,
                },
            },
            final(self).strip_command == match strip {
                Some(v) => v,
                None => old(self).strip_command,
            },
            final(self).opt_command == match opt {
                Some(v) => v,
                None => old(self).opt_command,
            },
            final(self).rpath == old(self).rpath,
            final(self).link_libraries == old(self).link_libraries,
            final(self).output_file == old(self).output_file,
            final(self).input_files == old(self).input_files,
            string_texts(final(self).trailing@) == match cflags {
                Some(v) => words(v@),
                None => string_texts(old(self).trailing@),
            },
    {
        if let Some(value) = ld {
            self.linker_command = value;
        } else if let Some(value) = linker {
            self.linker_command = value;
        }
        if let Some(value) = strip {
            self.strip_command = value;
        }
        if let Some(value) = opt {
            self.opt_command = value;
        }
        if let Some(value) = llvm_passes {
            self.passes = Some(value);
        }
        if let Some(value) = cflags {
            self.trailing = split_words(value.as_str());
        }
    }
}

/// `text` read from its start: the words that are complete, and the word
/// that its last characters begin.
pub open spec fn scan_words(text: Seq<char>) -> (Seq<Seq<char>>, Seq<char>)
    decreases text.len(),
{
    if text.len() == 0 {
        (Seq::empty(), Seq::empty())
    } else {
        let (done, current) = scan_words(text.drop_last());
        let c = text.last();
        if !is_white_space(c) {
            (done, current.push(c))
        } else if current.len() > 0 {
            (done.push(current), Seq::empty())
        } else {
            (done, current)
        }
    }
}

/// The words of `text`: its longest runs of characters other than
/// whitespace, in order.
pub open spec fn words(text: Seq<char>) -> Seq<Seq<char>> {
    let (done, current) = scan_words(text);
    if current.len() > 0 {
        done.push(current)
    } else {
        done
    }
}

/// The words of `text`, as `str::split_whitespace` gives them.
fn split_words(text: &str) -> (res: Vec<String>)
    ensures
        string_texts(res@) == words(text@),
{
    let chars = chars_of(text);
    let n = chars.len();
    let mut done: Vec<String> = Vec::new();
    let mut current: Vec<char> = Vec::new();
    for i in 0..n
        invariant
            n == chars@.len(),
            chars@ == text@,
            (string_texts(done@), current@) == scan_words(chars@.take(i as int)),
    {
        let c = chars[i];
        proof {
            assert(chars@.take(i + 1).drop_last() =~= chars@.take(i as int));
        }
        if !is_whitespace(c) {
            current.push(c);
        } else if current.len() > 0 {
            let ghost before = done@;
            let word = string_from_chars(&current);
            done.push(word);
            current = Vec::new();
            proof {
                assert(string_texts(done@) =~= string_texts(before).push(word@));
            }
        }
    }
    proof {
        assert(chars@.take(n as int) =~= chars@);
    }
    if current.len() > 0 {
        let ghost before = done@;
        let word = string_from_chars(&current);
        done.push(word);
        proof {
            assert(string_texts(done@) =~= string_texts(before).push(word@));
        }
    }
    done
}

/// An argument that the driver refuses.
#[derive(Debug, PartialEq, Eq)]
pub enum CLIError {
    /// A value that the option does not take.
    InvalidValue { arg_name: &'static str, value: String, expected: Option<&'static str> },
    /// An option that does not exist.
    UnknownArgument { arg_name: String },
    /// A number that is no unsigned 32-bit number.
    InvalidNumber { value: String },
}

/// The mathematical value of a [`CLIError`].
pub enum SpecCLIError {
    InvalidValue { arg_name: Seq<char>, value: Seq<char>, expected: Option<Seq<char>> },
    UnknownArgument { arg_name: Seq<char> },
    InvalidNumber { value: Seq<char> },
}

impl View for CLIError {
    type V = SpecCLIError;

    open spec fn view(&self) -> SpecCLIError {
        match self {
            CLIError::InvalidValue { arg_name, value, expected } => SpecCLIError::InvalidValue {
                arg_name: arg_name@,
                value: value@,
                expected: match expected {
                    Some(e) => Some(e@),
                    None => None,
                },
            },
            CLIError::UnknownArgument { arg_name } => SpecCLIError::UnknownArgument {
                arg_name: arg_name@,
            },
            CLIError::InvalidNumber { value } => SpecCLIError::InvalidNumber { value: value@ },
        }
    }
}

/// The command lines on which the driver stops with a panic instead of an error.
#[derive(Debug, Clone, Copy, PartialEq, Eq, Structural)]
pub enum ArgumentPanic {
    /// An empty argument, or `-` alone.
    ShortArgument,
    /// `--optimise=VALUE` with a value that is no unsigned 32-bit number.
    OptimisationLevel,
}

/// What a command line asks for.
#[derive(Debug)]
pub enum CliOutcome {
    /// Compile with this configuration.
    Run(UserConfig),
    /// Print the bare version (`-V`).
    ShortVersion,
    /// Print the program's name and version (`--version`).
    LongVersion,
    /// Print the usage (`-h`, `--help`).
    Help,
}

// ---------------------------------------------------------------------------
// The rules, as mathematical functions
// ---------------------------------------------------------------------------

/// The state of the argument reader: the settings so far, the arguments not
/// read yet, and the arguments pushed back (the last is read first).
pub struct CliState {
    pub settings: SpecSettings,
    pub args: Seq<Seq<char>>,
    pub pushed: Seq<Seq<char>>,
}

impl CliState {
    pub open spec fn measure(self) -> nat {
        2 * self.args.len() + self.pushed.len()
    }
}

/// The end of a command line.
pub enum SpecOutcome {
    Run(SpecSettings),
    ShortVersion,
    LongVersion,
    Help,
    Error(SpecCLIError),
    Panic(ArgumentPanic),
    /// A step that read nothing; the driver's contracts show that it never happens.
    Stalled,
}

/// The next argument: the last pushed back, or else the first not read.
pub open spec fn next_arg(st: CliState) -> Option<(Seq<char>, CliState)> {
    if st.pushed.len() > 0 {
        Some((st.pushed.last(), CliState { pushed: st.pushed.drop_last(), ..st }))
    } else if st.args.len() > 0 {
        Some((st.args[0], CliState { args: st.args.drop_first(), ..st }))
    } else {
        None
    }
}

/// Whether an argument is an option: it starts with `-`.
pub open spec fn is_option(a: Seq<char>) -> bool {
    a.len() > 0 && a[0] == '-'
}

/// The value of a short numeric option whose own text after the option is
/// `rest`: the rest where not empty; else the next argument where it is no
/// option; else the default, pushing back an option that was read.
pub open spec fn short_value(rest: Seq<char>, st: CliState, default: char) -> (Seq<char>, CliState) {
    if rest.len() > 0 {
        (rest, st)
    } else {
        match next_arg(st) {
            Some((next, st1)) => if is_option(next) {
                (seq![default], CliState { pushed: st1.pushed.push(next), ..st1 })
            } else {
                (next, st1)
            },
            None => (seq![default], st),
        }
    }
}

/// The position of the first `=`, if any.
pub open spec fn first_equals(s: Seq<char>) -> Option<int> {
    if exists|i: int| 0 <= i < s.len() && s[i] == '=' {
        Some(choose|i: int| 0 <= i < s.len() && s[i] == '=' && forall|j: int| 0 <= j < i ==> s[j] != '=')
    } else {
        None
    }
}

/// The text of a long option after `--`, with the next argument joined on by
/// `=` where the text holds no `=` and the next argument is no option.
pub open spec fn long_text(rest: Seq<char>, st: CliState) -> (Seq<char>, CliState) {
    if first_equals(rest) is None {
        match next_arg(st) {
            Some((next, st1)) => if is_option(next) {
                (rest, CliState { pushed: st1.pushed.push(next), ..st1 })
            } else {
                (rest + seq!['='] + next, st1)
            },
            None => (rest, st),
        }
    } else {
        (rest, st)
    }
}

/// What one step of the reader does: go on from a new state, or end.
pub enum Step {
    Continue(CliState),
    End(SpecOutcome),
}

/// `--NAME=VALUE`.
#[verifier::opaque]
pub open spec fn long_with_value(name: Seq<char>, value: Seq<char>, st: CliState) -> Step {
    let s = st.settings;
    if name == "reloc"@ {
        if value == "default"@ {
            Step::Continue(CliState { settings: SpecSettings { flags: Flags { reloc: RelocMode::Default, ..s.flags }, ..s }, ..st })
        } else if value == "static"@ {
            Step::Continue(CliState { settings: SpecSettings { flags: Flags { reloc: RelocMode::Static, ..s.flags }, ..s }, ..st })
        } else if value == "pic"@ {
            Step::Continue(CliState { settings: SpecSettings { flags: Flags { reloc: RelocMode::PIC, ..s.flags }, ..s }, ..st })
        } else if value == "dynamic-no-pic"@ {
            Step::Continue(CliState { settings: SpecSettings { flags: Flags { reloc: RelocMode::DynamicNoPic, ..s.flags }, ..s }, ..st })
        } else {
            Step::End(SpecOutcome::Error(SpecCLIError::InvalidValue {
                arg_name: "--reloc"@,
                value,
                expected: Some("one of: 'default' OR 'static' OR 'pic' OR 'dynamic-no-pic'"@),
            }))
        }
    } else if name == "target"@ {
        Step::Continue(CliState { settings: SpecSettings { target: Some(value), ..s }, ..st })
    } else if name == "optimise"@ {
        match parse_unsigned(value, u32::MAX as nat) {
            Some(v) => Step::Continue(CliState { settings: SpecSettings { flags: Flags { optimise: v as u32, ..s.flags }, ..s }, ..st }),
            None => Step::End(SpecOutcome::Panic(ArgumentPanic::OptimisationLevel)),
        }
    } else if name == "emit"@ {
        if value == "elf-linked"@ {
            Step::Continue(CliState { settings: SpecSettings { flags: Flags { emit_kind: EmitKind::ElfLinked, ..s.flags }, ..s }, ..st })
        } else if value == "elf-obj"@ {
            Step::Continue(CliState { settings: SpecSettings { flags: Flags { emit_kind: EmitKind::ElfObject, ..s.flags }, ..s }, ..st })
        } else if value == "asm"@ {
            Step::Continue(CliState { settings: SpecSettings { flags: Flags { emit_kind: EmitKind::Assembly, ..s.flags }, ..s }, ..st })
        } else if value == "llvm-ir"@ {
            Step::Continue(CliState { settings: SpecSettings { flags: Flags { emit_kind: EmitKind::IntermediateRepresentation, ..s.flags }, ..s }, ..st })
        } else {
            Step::End(SpecOutcome::Error(SpecCLIError::InvalidValue {
                arg_name: "--emit"@,
                value,
                expected: Some("one of: 'elf-linked' OR 'elf-obj' OR 'asm' OR 'llvm-ir'"@),
            }))
        }
    } else if name == "rpath"@ {
        Step::Continue(CliState { settings: SpecSettings { extra: SpecExtras { rpath: value, ..s.extra }, ..s }, ..st })
    } else if name == "output-file"@ {
        Step::Continue(CliState { settings: SpecSettings { extra: SpecExtras { output_file: Some(value), ..s.extra }, ..s }, ..st })
    } else if name == "passes"@ {
        Step::Continue(CliState { settings: SpecSettings { extra: SpecExtras { passes: Some(value), ..s.extra }, ..s }, ..st })
    } else if name == "pass-runner"@ {
        if value == "integrated"@ {
            Step::Continue(CliState { settings: SpecSettings { extra: SpecExtras { pass_runner: Some(PassRunner::Integrated), ..s.extra }, ..s }, ..st })
        } else if value == "opt"@ {
            Step::Continue(CliState { settings: SpecSettings { extra: SpecExtras { pass_runner: Some(PassRunner::Opt), ..s.extra }, ..s }, ..st })
        } else {
            Step::End(SpecOutcome::Error(SpecCLIError::InvalidValue {
                arg_name: "--pass-runner"@,
                value,
                expected: Some("one of: 'integrated' OR 'opt'"@),
            }))
        }
    } else if name == "strip"@ {
        Step::Continue(CliState { settings: SpecSettings { extra: SpecExtras { strip: Some(value), ..s.extra }, ..s }, ..st })
    } else {
        Step::End(SpecOutcome::Error(SpecCLIError::UnknownArgument { arg_name: name }))
    }
}

/// `--FLAG`.
#[verifier::opaque]
pub open spec fn long_flag(name: Seq<char>, st: CliState) -> Step {
    let s = st.settings;
    if name == "native-target"@ {
        Step::Continue(CliState { settings: SpecSettings { target: None, ..s }, ..st })
    } else if name == "verbose"@ {
        Step::Continue(CliState { settings: SpecSettings { flags: Flags { verbose: true, ..s.flags }, ..s }, ..st })
    } else if name == "dump-passes"@ {
        Step::Continue(CliState { settings: SpecSettings { flags: Flags { dump_passes: true, ..s.flags }, ..s }, ..st })
    } else if name == "optimise"@ {
        Step::Continue(CliState { settings: SpecSettings { flags: Flags { optimise: 3, ..s.flags }, ..s }, ..st })
    } else if name == "no-optimise"@ {
        Step::Continue(CliState { settings: SpecSettings { flags: Flags { optimise: 0, ..s.flags }, ..s }, ..st })
    } else if name == "version"@ {
        Step::End(SpecOutcome::LongVersion)
    } else if name == "no-default-passes"@ {
        Step::Continue(CliState { settings: SpecSettings { extra: SpecExtras { no_default_passes: true, ..s.extra }, ..s }, ..st })
    } else if name == "strip"@ {
        Step::Continue(CliState { settings: SpecSettings { extra: SpecExtras { strip: Some(Seq::empty()), ..s.extra }, ..s }, ..st })
    } else if name == "no-strip"@ {
        Step::Continue(CliState { settings: SpecSettings { extra: SpecExtras { strip: None, ..s.extra }, ..s }, ..st })
    } else if name == "help"@ {
        Step::End(SpecOutcome::Help)
    } else {
        Step::End(SpecOutcome::Error(SpecCLIError::UnknownArgument { arg_name: name }))
    }
}

/// `-jN` or `-ON` (`c` is `j` or `O`), with `rest` the text after the option:
/// the number of jobs or the optimisation level.
pub open spec fn short_numeric(c: char, rest: Seq<char>, st: CliState) -> Step {
    let s = st.settings;
    let (value, st1) = short_value(rest, st, short_default(c));
    match parse_unsigned(value, u32::MAX as nat) {
        Some(v) => if c == 'j' {
            Step::Continue(CliState { settings: SpecSettings { flags: Flags { jobs: v as u32, ..s.flags }, ..s }, ..st1 })
        } else {
            Step::Continue(CliState { settings: SpecSettings { flags: Flags { optimise: v as u32, ..s.flags }, ..s }, ..st1 })
        },
        None => Step::End(SpecOutcome::Error(SpecCLIError::InvalidNumber { value })),
    }
}

/// A long option, with `rest` the text after `--`.
pub open spec fn long_option(rest: Seq<char>, st: CliState) -> Step {
    let (text, st1) = long_text(rest, st);
    match first_equals(text) {
        Some(i) => long_with_value(text.take(i), text.skip(i + 1), st1),
        None => long_flag(text, st1),
    }
}

/// The text of a long option that a short one abbreviates: `-eKIND` is
/// `--emit=KIND`, and `-e` alone is `--emit`.
pub open spec fn abbreviated(name: Seq<char>, rest: Seq<char>) -> Seq<char> {
    if rest.len() == 0 {
        name
    } else {
        name + seq!['='] + rest
    }
}

/// The arguments not read yet, in the order the reader would read them.
pub open spec fn remaining_args(st: CliState) -> Seq<Seq<char>>
    decreases st.measure(),
{
    match next_arg(st) {
        None => Seq::empty(),
        Some((a, st1)) => if st1.measure() < st.measure() {
            seq![a] + remaining_args(st1)
        } else {
            Seq::empty()
        },
    }
}

/// One argument `arg`, read from the state `st`.
#[verifier::opaque]
pub open spec fn spec_step(arg: Seq<char>, st: CliState) -> Step {
    let s = st.settings;
    if arg.len() == 0 || arg == seq!['-'] {
        Step::End(SpecOutcome::Panic(ArgumentPanic::ShortArgument))
    } else if arg[0] != '-' {
        Step::Continue(CliState { settings: SpecSettings { extra: SpecExtras { input_files: s.extra.input_files.push(arg), ..s.extra }, ..s }, ..st })
    } else {
        let rest = arg.subrange(2, arg.len() as int);
        if arg[1] == 'j' || arg[1] == 'O' {
            short_numeric(arg[1], rest, st)
        } else if arg[1] == 'v' {
            Step::Continue(CliState { settings: SpecSettings { flags: Flags { verbose: true, ..s.flags }, ..s }, ..st })
        } else if arg[1] == 'V' {
            Step::End(SpecOutcome::ShortVersion)
        } else if arg[1] == 'h' {
            Step::End(SpecOutcome::Help)
        } else if arg[1] == 'e' {
            long_option(abbreviated("emit"@, rest), st)
        } else if arg[1] == 'o' {
            long_option(abbreviated("output-file"@, rest), st)
        } else if arg[1] == 'p' {
            long_option(abbreviated("passes"@, rest), st)
        } else if arg[1] == '-' {
            if rest.len() == 0 {
                Step::End(SpecOutcome::Run(SpecSettings { extra: SpecExtras { trailing: remaining_args(st), ..s.extra }, ..s }))
            } else {
                long_option(rest, st)
            }
        } else {
            Step::End(SpecOutcome::Error(SpecCLIError::UnknownArgument { arg_name: arg }))
        }
    }
}

/// Reads arguments until none is left or one ends the run.
pub open spec fn spec_run(st: CliState) -> SpecOutcome
    decreases st.measure(),
{
    match next_arg(st) {
        None => SpecOutcome::Run(st.settings),
        Some((arg, st1)) => match spec_step(arg, st1) {
            Step::End(outcome) => outcome,
            Step::Continue(st2) => if st2.measure() < st.measure() {
                spec_run(st2)
            } else {
                SpecOutcome::Stalled
            },
        },
    }
}

/// What the command line `args` asks for, starting from the default settings.
pub open spec fn spec_command_line(args: Seq<Seq<char>>) -> SpecOutcome {
    spec_run(
        CliState {
            settings: SpecSettings { flags: default_flags(), target: None, extra: default_extras() },
            args,
            pushed: Seq::empty(),
        },
    )
}

/// The texts of the arguments.
pub open spec fn args_view(args: Seq<String>) -> Seq<Seq<char>> {
    args.map_values(|a: String| a@)
}

} // verus!

verus! {

// ---------------------------------------------------------------------------
// The reader
// ---------------------------------------------------------------------------

/// The texts of a sequence of character vectors.
pub open spec fn texts(v: Seq<Vec<char>>) -> Seq<Seq<char>> {
    v.map_values(|a: Vec<char>| a@)
}

/// The text of an optional character vector.
pub open spec fn opt_text(t: Option<Vec<char>>) -> Option<Seq<char>> {
    match t {
        Some(v) => Some(v@),
        None => None,
    }
}

/// How the reading of a command line ends before its last argument: with a
/// run whose settings the reader holds (after `--`), or with no run.
enum End {
    Finished,
    ShortVersion,
    LongVersion,
    Help,
    Error(CLIError),
    Panic(ArgumentPanic),
}

/// The outcome of an end with no run.
spec fn end_view(e: End) -> SpecOutcome
    recommends
        !(e is Finished),
{
    match e {
        End::Finished => SpecOutcome::Stalled,
        End::ShortVersion => SpecOutcome::ShortVersion,
        End::LongVersion => SpecOutcome::LongVersion,
        End::Help => SpecOutcome::Help,
        End::Error(err) => SpecOutcome::Error(err@),
        End::Panic(p) => SpecOutcome::Panic(p),
    }
}

/// The settings of the reader besides the flags and the target.
struct Extras {
    rpath: Vec<char>,
    output_file: Option<Vec<char>>,
    input_files: Vec<Vec<char>>,
    trailing: Vec<Vec<char>>,
    passes: Option<Vec<char>>,
    no_default_passes: bool,
    pass_runner: Option<PassRunner>,
    strip: Option<Vec<char>>,
}

spec fn extras_view(e: Extras) -> SpecExtras {
    SpecExtras {
        rpath: e.rpath@,
        output_file: opt_text(e.output_file),
        input_files: texts(e.input_files@),
        trailing: texts(e.trailing@),
        passes: opt_text(e.passes),
        no_default_passes: e.no_default_passes,
        pass_runner: e.pass_runner,
        strip: opt_text(e.strip),
    }
}

/// The argument reader: all arguments, the position of the first one not
/// read, the arguments pushed back, and the settings so far.
struct Reader {
    args: Vec<Vec<char>>,
    next: usize,
    pushed: Vec<Vec<char>>,
    flags: Flags,
    target: Option<Vec<char>>,
    extra: Extras,
}

impl Reader {
    spec fn state(&self) -> CliState {
        CliState {
            settings: SpecSettings {
                flags: self.flags,
                target: opt_text(self.target),
                extra: extras_view(self.extra),
            },
            args: texts(self.args@).skip(self.next as int),
            pushed: texts(self.pushed@),
        }
    }

    spec fn wf(&self) -> bool {
        self.next <= self.args.len()
    }

    fn next_arg(&mut self) -> (res: Option<Vec<char>>)
        requires
            old(self).wf(),
        ensures
            final(self).wf(),
            final(self).args == old(self).args,
            final(self).flags == old(self).flags,
            final(self).target == old(self).target,
            final(self).extra == old(self).extra,
            match next_arg(old(self).state()) {
                Some((a, st1)) => res matches Some(r) && r@ == a && final(self).state() == st1,
                None => res is None && final(self).state() == old(self).state(),
            },
    {
        match self.pushed.pop() {
            Some(a) => {
                proof {
                    assert(texts(self.pushed@) =~= texts(old(self).pushed@).drop_last());
                }
                Some(a)
            },
            None => {
                proof {
                    assert(texts(self.pushed@).len() == 0);
                }
                if self.next < self.args.len() {
                    let a = sub_chars(&self.args[self.next], 0, self.args[self.next].len());
                    assert(a@ =~= self.args@[self.next as int]@);
                    self.next = self.next + 1;
                    proof {
                        assert(texts(self.args@).skip(self.next as int) =~= texts(self.args@).skip(
                            old(self).next as int,
                        ).drop_first());
                    }
                    Some(a)
                } else {
                    None
                }
            },
        }
    }

    fn push_back(&mut self, a: Vec<char>)
        ensures
            final(self).args == old(self).args,
            final(self).next == old(self).next,
            final(self).flags == old(self).flags,
            final(self).target == old(self).target,
            final(self).extra == old(self).extra,
            texts(final(self).pushed@) == texts(old(self).pushed@).push(a@),
    {
        self.pushed.push(a);
        assert(texts(self.pushed@) =~= texts(old(self).pushed@).push(a@));
    }

    /// The value of `-j` or `-O`.
    fn short_value(&mut self, rest: Vec<char>, default: char) -> (res: Vec<char>)
        requires
            old(self).wf(),
        ensures
            final(self).wf(),
            final(self).args == old(self).args,
            final(self).flags == old(self).flags,
            final(self).target == old(self).target,
            final(self).extra == old(self).extra,
            (res@, final(self).state()) == short_value(rest@, old(self).state(), default),
            final(self).state().measure() <= old(self).state().measure(),
    {
        if rest.len() > 0 {
            return rest;
        }
        let mut fallback: Vec<char> = Vec::new();
        fallback.push(default);
        assert(fallback@ =~= seq![default]);
        match self.next_arg() {
            Some(next) => {
                if next.len() > 0 && next[0] == '-' {
                    self.push_back(next);
                    fallback
                } else {
                    next
                }
            },
            None => fallback,
        }
    }

    /// The text of a long option, with its value joined on where that is the
    /// next argument.
    fn long_text(&mut self, rest: Vec<char>) -> (res: Vec<char>)
        requires
            old(self).wf(),
        ensures
            final(self).wf(),
            final(self).args == old(self).args,
            final(self).flags == old(self).flags,
            final(self).target == old(self).target,
            final(self).extra == old(self).extra,
            (res@, final(self).state()) == long_text(rest@, old(self).state()),
            final(self).state().measure() <= old(self).state().measure(),
    {
        if find_equals(&rest).is_some() {
            return rest;
        }
        match self.next_arg() {
            Some(next) => {
                if next.len() > 0 && next[0] == '-' {
                    self.push_back(next);
                    rest
                } else {
                    let mut text = rest;
                    text.push('=');
                    extend_chars(&mut text, &next);
                    assert(text@ =~= rest@ + seq!['='] + next@);
                    text
                }
            },
            None => rest,
        }
    }
}

/// The position of the first `=` in `s`.
fn find_equals(s: &Vec<char>) -> (res: Option<usize>)
    ensures
        match first_equals(s@) {
            Some(i) => res == Some(i as usize) && 0 <= i < s@.len(),
            None => res is None,
        },
{
    let n = s.len();
    for i in 0..n
        invariant
            n == s@.len(),
            forall|j: int| 0 <= j < i ==> s@[j] != '=',
    {
        if s[i] == '=' {
            proof {
                let k = choose|k: int| 0 <= k < s@.len() && s@[k] == '=' && forall|j: int| 0 <= j < k ==> s@[j] != '=';
                assert(0 <= k < s@.len() && s@[k] == '=' && forall|j: int| 0 <= j < k ==> s@[j] != '=');
                assert(k == i);
            }
            return Some(i);
        }
    }
    None
}

} // verus!

verus! {

impl Reader {
    /// `--NAME=VALUE`.
    fn long_with_value(&mut self, name: &Vec<char>, value: Vec<char>) -> (res: Option<End>)
        requires
            old(self).wf(),
        ensures
            final(self).wf(),
            final(self).args == old(self).args,
            final(self).next == old(self).next,
            final(self).pushed == old(self).pushed,
            match long_with_value(name@, value@, old(self).state()) {
                Step::Continue(st2) => res is None && final(self).state() == st2,
                Step::End(o) => res matches Some(e) && !(e is Finished) && end_view(e) == o,
            },
    {
        proof {
            reveal(long_with_value);
        }
        if chars_equal_str(name, "reloc") {
            if chars_equal_str(&value, "default") {
                self.flags.reloc = RelocMode::Default;
                None
            } else if chars_equal_str(&value, "static") {
                self.flags.reloc = RelocMode::Static;
                None
            } else if chars_equal_str(&value, "pic") {
                self.flags.reloc = RelocMode::PIC;
                None
            } else if chars_equal_str(&value, "dynamic-no-pic") {
                self.flags.reloc = RelocMode::DynamicNoPic;
                None
            } else {
                Some(
                    End::Error(
                        CLIError::InvalidValue {
                            arg_name: "--reloc",
                            value: string_from_chars(&value),
                            expected: Some("one of: 'default' OR 'static' OR 'pic' OR 'dynamic-no-pic'"),
                        },
                    ),
                )
            }
        } else if chars_equal_str(name, "target") {
            self.target = Some(value);
            None
        } else if chars_equal_str(name, "optimise") {
            let text = string_from_chars(&value);
            match parse_unsigned_numeral(text.as_str(), 0xffff_ffff) {
                Some(v) => {
                    self.flags.optimise = v as u32;
                    None
                },
                None => Some(End::Panic(ArgumentPanic::OptimisationLevel)),
            }
        } else if chars_equal_str(name, "emit") {
            if chars_equal_str(&value, "elf-linked") {
                self.flags.emit_kind = EmitKind::ElfLinked;
                None
            } else if chars_equal_str(&value, "elf-obj") {
                self.flags.emit_kind = EmitKind::ElfObject;
                None
            } else if chars_equal_str(&value, "asm") {
                self.flags.emit_kind = EmitKind::Assembly;
                None
            } else if chars_equal_str(&value, "llvm-ir") {
                self.flags.emit_kind = EmitKind::IntermediateRepresentation;
                None
            } else {
                Some(
                    End::Error(
                        CLIError::InvalidValue {
                            arg_name: "--emit",
                            value: string_from_chars(&value),
                            expected: Some("one of: 'elf-linked' OR 'elf-obj' OR 'asm' OR 'llvm-ir'"),
                        },
                    ),
                )
            }
        } else if chars_equal_str(name, "rpath") {
            self.extra.rpath = value;
            None
        } else if chars_equal_str(name, "output-file") {
            self.extra.output_file = Some(value);
            None
        } else if chars_equal_str(name, "passes") {
            self.extra.passes = Some(value);
            None
        } else if chars_equal_str(name, "pass-runner") {
            if chars_equal_str(&value, "integrated") {
                self.extra.pass_runner = Some(PassRunner::Integrated);
                None
            } else if chars_equal_str(&value, "opt") {
                self.extra.pass_runner = Some(PassRunner::Opt);
                None
            } else {
                Some(
                    End::Error(
                        CLIError::InvalidValue {
                            arg_name: "--pass-runner",
                            value: string_from_chars(&value),
                            expected: Some("one of: 'integrated' OR 'opt'"),
                        },
                    ),
                )
            }
        } else if chars_equal_str(name, "strip") {
            self.extra.strip = Some(value);
            None
        } else {
            Some(End::Error(CLIError::UnknownArgument { arg_name: string_from_chars(name) }))
        }
    }

    /// `--FLAG`.
    fn long_flag(&mut self, name: &Vec<char>) -> (res: Option<End>)
        requires
            old(self).wf(),
        ensures
            final(self).wf(),
            final(self).args == old(self).args,
            final(self).next == old(self).next,
            final(self).pushed == old(self).pushed,
            match long_flag(name@, old(self).state()) {
                Step::Continue(st2) => res is None && final(self).state() == st2,
                Step::End(o) => res matches Some(e) && !(e is Finished) && end_view(e) == o,
            },
    {
        proof {
            reveal(long_flag);
        }
        if chars_equal_str(name, "native-target") {
            self.target = None;
            None
        } else if chars_equal_str(name, "verbose") {
            self.flags.verbose = true;
            None
        } else if chars_equal_str(name, "dump-passes") {
            self.flags.dump_passes = true;
            None
        } else if chars_equal_str(name, "optimise") {
            self.flags.optimise = 3;
            None
        } else if chars_equal_str(name, "no-optimise") {
            self.flags.optimise = 0;
            None
        } else if chars_equal_str(name, "version") {
            Some(End::LongVersion)
        } else if chars_equal_str(name, "no-default-passes") {
            self.extra.no_default_passes = true;
            None
        } else if chars_equal_str(name, "strip") {
            self.extra.strip = Some(Vec::new());
            None
        } else if chars_equal_str(name, "no-strip") {
            self.extra.strip = None;
            None
        } else if chars_equal_str(name, "help") {
            Some(End::Help)
        } else {
            Some(End::Error(CLIError::UnknownArgument { arg_name: string_from_chars(name) }))
        }
    }
}

} // verus!

verus! {

impl Reader {
    /// A long option, with `rest` its text after `--`.
    fn long_option(&mut self, rest: Vec<char>) -> (res: Option<End>)
        requires
            old(self).wf(),
        ensures
            final(self).wf(),
            final(self).args == old(self).args,
            match long_option(rest@, old(self).state()) {
                Step::Continue(st2) => res is None && final(self).state() == st2
                    && st2.measure() <= old(self).state().measure(),
                Step::End(o) => res matches Some(e) && !(e is Finished) && end_view(e) == o,
            },
    {
        let text = self.long_text(rest);
        proof {
            lemma_long_keeps_args(text@, text@, self.state());
        }
        match find_equals(&text) {
            Some(i) => {
                let name = sub_chars(&text, 0, i);
                let value = sub_chars(&text, i + 1, text.len());
                assert(name@ =~= text@.take(i as int));
                assert(value@ =~= text@.skip(i + 1));
                proof {
                    lemma_long_keeps_args(name@, value@, self.state());
                }
                self.long_with_value(&name, value)
            },
            None => self.long_flag(&text),
        }
    }

    /// The arguments not read yet, read in order.
    fn read_rest(&mut self) -> (res: Vec<Vec<char>>)
        requires
            old(self).wf(),
        ensures
            final(self).wf(),
            final(self).args == old(self).args,
            final(self).flags == old(self).flags,
            final(self).target == old(self).target,
            final(self).extra == old(self).extra,
            texts(res@) == remaining_args(old(self).state()),
        decreases old(self).state().measure(),
    {
        match self.next_arg() {
            None => Vec::new(),
            Some(a) => {
                let ghost av = a@;
                let mut rest = self.read_rest();
                let ghost after = texts(rest@);
                rest.insert(0, a);
                assert(texts(rest@) =~= seq![av] + after);
                rest
            },
        }
    }

    /// Reads the argument `arg`.
    fn step(&mut self, arg: Vec<char>) -> (res: Option<End>)
        requires
            old(self).wf(),
        ensures
            final(self).wf(),
            final(self).args == old(self).args,
            match spec_step(arg@, old(self).state()) {
                Step::Continue(st2) => res is None && final(self).state() == st2
                    && st2.measure() <= old(self).state().measure(),
                Step::End(SpecOutcome::Run(s)) => res matches Some(End::Finished)
                    && final(self).state().settings == s,
                Step::End(o) => res matches Some(e) && !(e is Finished) && end_view(e) == o,
            },
    {
        proof {
            reveal(spec_step);
        }
        if arg.len() == 0 || (arg.len() == 1 && arg[0] == '-') {
            assert(arg.len() == 1 ==> arg@ =~= seq![arg@[0]]);
            return Some(End::Panic(ArgumentPanic::ShortArgument));
        }
        assert(arg@ != seq!['-']);
        let first = arg[0];
        if first != '-' {
            let ghost files = texts(self.extra.input_files@);
            let ghost av = arg@;
            self.extra.input_files.push(arg);
            assert(texts(self.extra.input_files@) =~= files.push(av));
            return None;
        }
        let rest = sub_chars(&arg, 2, arg.len());
        let second = arg[1];
        if second == 'j' || second == 'O' {
            let value = self.short_value(rest, if second == 'j' { '2' } else { '3' });
            let text = string_from_chars(&value);
            match parse_unsigned_numeral(text.as_str(), 0xffff_ffff) {
                Some(v) => {
                    if second == 'j' {
                        self.flags.jobs = v as u32;
                    } else {
                        self.flags.optimise = v as u32;
                    }
                    None
                },
                None => Some(End::Error(CLIError::InvalidNumber { value: text })),
            }
        } else if second == 'v' {
            self.flags.verbose = true;
            None
        } else if second == 'V' {
            Some(End::ShortVersion)
        } else if second == 'h' {
            Some(End::Help)
        } else if second == 'e' {
            let text = abbreviate("emit", rest);
            self.long_option(text)
        } else if second == 'o' {
            let text = abbreviate("output-file", rest);
            self.long_option(text)
        } else if second == 'p' {
            let text = abbreviate("passes", rest);
            self.long_option(text)
        } else if second == '-' {
            if rest.len() == 0 {
                let trailing = self.read_rest();
                self.extra.trailing = trailing;
                Some(End::Finished)
            } else {
                self.long_option(rest)
            }
        } else {
            Some(End::Error(CLIError::UnknownArgument { arg_name: string_from_chars(&arg) }))
        }
    }

    /// Reads arguments until none is left or one ends the run.
    fn run(&mut self) -> (res: Option<End>)
        requires
            old(self).wf(),
        ensures
            final(self).wf(),
            match spec_run(old(self).state()) {
                SpecOutcome::Run(s) => (res is None || res matches Some(End::Finished))
                    && final(self).state().settings == s,
                SpecOutcome::Stalled => false,
                o => res matches Some(e) && !(e is Finished) && end_view(e) == o,
            },
        decreases old(self).state().measure(),
    {
        match self.next_arg() {
            None => None,
            Some(arg) => match self.step(arg) {
                Some(e) => Some(e),
                None => self.run(),
            },
        }
    }
}

/// The text of the long option that the short option with the text `rest`
/// after it abbreviates.
fn abbreviate(name: &str, rest: Vec<char>) -> (res: Vec<char>)
    ensures
        res@ == abbreviated(name@, rest@),
{
    let mut text = chars_of(name);
    if rest.len() > 0 {
        text.push('=');
        let ghost before = text@;
        extend_chars(&mut text, &rest);
        assert(text@ =~= name@ + seq!['='] + rest@);
    }
    text
}

/// A reader at the start of the command line `args`.
fn reader_for(args: &Vec<String>) -> (r: Reader)
    ensures
        r.wf(),
        r.state() == (CliState {
            settings: SpecSettings { flags: default_flags(), target: None, extra: default_extras() },
            args: args_view(args@),
            pushed: Seq::empty(),
        }),
{
    let mut all: Vec<Vec<char>> = Vec::new();
    let n = args.len();
    for i in 0..n
        invariant
            n == args@.len(),
            all@.len() == i,
            texts(all@) == args_view(args@).take(i as int),
    {
        let a = chars_of(args[i].as_str());
        assert(a@ == args_view(args@)[i as int]);
        let ghost prev = all@;
        all.push(a);
        assert forall|j: int| 0 <= j <= i implies #[trigger] texts(all@)[j] == args_view(args@)[j] by {
            if j < i {
                assert(all@[j] == prev[j]);
                assert(texts(prev)[j] == args_view(args@).take(i as int)[j]);
            }
        }
        assert(texts(all@) =~= args_view(args@).take((i + 1) as int));
    }
    assert(args_view(args@).take(n as int) =~= args_view(args@));
    let pushed: Vec<Vec<char>> = Vec::new();
    assert(texts(pushed@) =~= Seq::<Seq<char>>::empty());
    assert(texts(all@).skip(0) =~= texts(all@));
    let extra = Extras {
        rpath: Vec::new(),
        output_file: None,
        input_files: Vec::new(),
        trailing: Vec::new(),
        passes: None,
        no_default_passes: false,
        pass_runner: None,
        strip: None,
    };
    assert(extras_view(extra) =~= default_extras()) by {
        assert(extra.rpath@ =~= Seq::<char>::empty());
        assert(texts(extra.input_files@) =~= Seq::<Seq<char>>::empty());
        assert(texts(extra.trailing@) =~= Seq::<Seq<char>>::empty());
    }
    Reader {
        args: all,
        next: 0,
        pushed,
        flags: Flags {
            jobs: 1,
            reloc: RelocMode::Default,
            verbose: false,
            dump_passes: false,
            optimise: 1,
            emit_kind: EmitKind::ElfLinked,
        },
        target: None,
        extra,
    }
}

/// The optional string of optional characters.
fn opt_string(o: Option<Vec<char>>) -> (res: Option<String>)
    ensures
        opt_string_text(res) == opt_text(o),
{
    match o {
        Some(t) => Some(string_from_chars(&t)),
        None => None,
    }
}

/// The strings of character vectors.
fn strings_of(v: &Vec<Vec<char>>) -> (res: Vec<String>)
    ensures
        string_texts(res@) == texts(v@),
{
    let mut res: Vec<String> = Vec::new();
    let n = v.len();
    for i in 0..n
        invariant
            n == v@.len(),
            res@.len() == i,
            string_texts(res@) == texts(v@).take(i as int),
    {
        let s = string_from_chars(&v[i]);
        let ghost prev = res@;
        res.push(s);
        assert forall|j: int| 0 <= j <= i implies #[trigger] string_texts(res@)[j] == texts(v@)[j] by {
            if j < i {
                assert(res@[j] == prev[j]);
                assert(string_texts(prev)[j] == texts(v@).take(i as int)[j]);
            }
        }
        assert(string_texts(res@) =~= texts(v@).take((i + 1) as int));
    }
    assert(texts(v@).take(n as int) =~= texts(v@));
    res
}

/// Reads the command line `args` (without the program's name): what it asks
/// for, or the error that the first refused argument gives.  A command line
/// on which the driver panics is left out; see [`argument_panic`].
pub fn parse_arguments(args: &Vec<String>) -> (res: Result<CliOutcome, CLIError>)
    requires
        !(spec_command_line(args_view(args@)) is Panic),
    ensures
        match spec_command_line(args_view(args@)) {
            SpecOutcome::Run(s) => res matches Ok(CliOutcome::Run(c)) && c.settings() == s
                && c.is_default_rest(),
            SpecOutcome::ShortVersion => res matches Ok(CliOutcome::ShortVersion),
            SpecOutcome::LongVersion => res matches Ok(CliOutcome::LongVersion),
            SpecOutcome::Help => res matches Ok(CliOutcome::Help),
            SpecOutcome::Error(e) => res matches Err(err) && err@ == e,
            _ => false,
        },
{
    let mut reader = reader_for(args);
    match reader.run() {
        None | Some(End::Finished) => {
            let mut config = UserConfig::default();
            config.flags = reader.flags;
            config.target = opt_string(reader.target);
            config.rpath = string_from_chars(&reader.extra.rpath);
            config.output_file = opt_string(reader.extra.output_file);
            config.input_files = strings_of(&reader.extra.input_files);
            config.trailing = strings_of(&reader.extra.trailing);
            config.passes = opt_string(reader.extra.passes);
            config.no_default_passes = reader.extra.no_default_passes;
            config.pass_runner = reader.extra.pass_runner;
            config.strip = opt_string(reader.extra.strip);
            Ok(CliOutcome::Run(config))
        },
        Some(End::Help) => Ok(CliOutcome::Help),
        Some(End::ShortVersion) => Ok(CliOutcome::ShortVersion),
        Some(End::LongVersion) => Ok(CliOutcome::LongVersion),
        Some(End::Error(e)) => Err(e),
        Some(End::Panic(_)) => {
            proof {
                assert(false);
            }
            Ok(CliOutcome::ShortVersion)
        },
    }
}

/// Where the driver panics on the command line `args`, the cause.
pub fn argument_panic(args: &Vec<String>) -> (res: Option<ArgumentPanic>)
    ensures
        res == match spec_command_line(args_view(args@)) {
            SpecOutcome::Panic(p) => Some(p),
            _ => None,
        },
{
    let mut reader = reader_for(args);
    match reader.run() {
        Some(End::Panic(p)) => Some(p),
        _ => None,
    }
}

} // verus!

verus! {

// ---------------------------------------------------------------------------
// Laws of the command line
// ---------------------------------------------------------------------------

/// A long option changes the settings alone, and ends in no stall.
proof fn lemma_long_keeps_args(name: Seq<char>, value: Seq<char>, st: CliState)
    ensures
        long_with_value(name, value, st) matches Step::Continue(st2) ==> st2.args == st.args
            && st2.pushed == st.pushed,
        long_flag(name, st) matches Step::Continue(st2) ==> st2.args == st.args && st2.pushed
            == st.pushed,
        long_with_value(name, value, st) matches Step::End(o) ==> !(o is Stalled),
        long_flag(name, st) matches Step::End(o) ==> !(o is Stalled),
{
    reveal(long_with_value);
    reveal(long_flag);
}

/// Reading the value of an option never makes the reader's measure grow.
proof fn lemma_value_measure(rest: Seq<char>, st: CliState, default: char)
    ensures
        short_value(rest, st, default).1.measure() <= st.measure(),
        short_value(rest, st, default).1.settings == st.settings,
        long_text(rest, st).1.measure() <= st.measure(),
        long_text(rest, st).1.settings == st.settings,
{
}

/// One argument never makes the reader's measure grow, and ends in no stall.
pub proof fn lemma_step_measure(arg: Seq<char>, st: CliState)
    ensures
        spec_step(arg, st) matches Step::Continue(st2) ==> st2.measure() <= st.measure(),
        spec_step(arg, st) matches Step::End(o) ==> !(o is Stalled),
{
    reveal(spec_step);
    if arg.len() == 1 {
        assert(arg[0] == '-' ==> arg =~= seq!['-']);
    }
    if arg.len() >= 2 {
        let rest = arg.subrange(2, arg.len() as int);
        lemma_short_numeric_measure(arg[1], rest, st);
        lemma_long_option_measure(rest, st);
        lemma_long_option_measure(abbreviated("emit"@, rest), st);
        lemma_long_option_measure(abbreviated("output-file"@, rest), st);
        lemma_long_option_measure(abbreviated("passes"@, rest), st);
    }
}

/// A short numeric option never makes the reader's measure grow, and ends in
/// no stall.
proof fn lemma_short_numeric_measure(c: char, rest: Seq<char>, st: CliState)
    ensures
        short_numeric(c, rest, st) matches Step::Continue(st2) ==> st2.measure() <= st.measure(),
        short_numeric(c, rest, st) matches Step::End(o) ==> !(o is Stalled),
{
    lemma_value_measure(rest, st, short_default(c));
}

/// A long option never makes the reader's measure grow, and ends in no stall.
proof fn lemma_long_option_measure(rest: Seq<char>, st: CliState)
    ensures
        long_option(rest, st) matches Step::Continue(st2) ==> st2.measure() <= st.measure(),
        long_option(rest, st) matches Step::End(o) ==> !(o is Stalled),
{
    lemma_value_measure(rest, st, '2');
    let (text, st1) = long_text(rest, st);
    match first_equals(text) {
        Some(i) => lemma_long_keeps_args(text.take(i), text.skip(i + 1), st1),
        None => lemma_long_keeps_args(text, text, st1),
    }
}

/// An argument `--TEXT`, with `TEXT` not empty, is the long option `TEXT`.
proof fn lemma_long_step(arg: Seq<char>, st: CliState)
    requires
        arg.len() >= 3,
        arg[0] == '-',
        arg[1] == '-',
    ensures
        spec_step(arg, st) == long_option(arg.subrange(2, arg.len() as int), st),
{
    reveal(spec_step);
    assert(arg != seq!['-']);
}

/// The first `=` of `s` is at `i`.
proof fn lemma_first_equals_at(s: Seq<char>, i: int)
    requires
        0 <= i < s.len(),
        s[i] == '=',
        forall|j: int| 0 <= j < i ==> s[j] != '=',
    ensures
        first_equals(s) == Some(i),
{
    let k = choose|k: int| 0 <= k < s.len() && s[k] == '=' && forall|j: int| 0 <= j < k ==> s[j] != '=';
    assert(0 <= k < s.len() && s[k] == '=' && forall|j: int| 0 <= j < k ==> s[j] != '=');
    assert(k == i);
}

/// Whether the arguments `rest` are empty or start with an option.
pub open spec fn option_or_end(rest: Seq<Seq<char>>) -> bool {
    rest.len() == 0 || is_option(rest[0])
}

/// `--optimise` means `--optimise=3`, where no value follows it.
#[verifier::spinoff_prover]
pub proof fn law_optimise_flag_is_level_three(rest: Seq<Seq<char>>)
    requires
        option_or_end(rest),
    ensures
        spec_command_line(seq!["--optimise"@] + rest) == spec_command_line(
            seq!["--optimise=3"@] + rest,
        ),
{
    reveal_strlit("--optimise");
    reveal_strlit("--optimise=3");
    reveal_strlit("optimise");
    reveal_strlit("3");
    reveal_strlit("optimise=3");
    let a = seq!["--optimise"@] + rest;
    let b = seq!["--optimise=3"@] + rest;
    let init = |args: Seq<Seq<char>>| CliState {
        settings: SpecSettings { flags: default_flags(), target: None, extra: default_extras() },
        args,
        pushed: Seq::empty(),
    };
    assert(a[0] == "--optimise"@);
    assert(b[0] == "--optimise=3"@);
    assert(a.drop_first() =~= rest);
    assert(b.drop_first() =~= rest);
    let text_b = "--optimise=3"@.subrange(2, 12);
    assert(text_b =~= "optimise=3"@);
    lemma_first_equals_at(text_b, 8);
    assert(text_b.take(8) =~= "optimise"@);
    assert(text_b.skip(9) =~= "3"@);
    let text_a = "--optimise"@.subrange(2, 10);
    assert(text_a =~= "optimise"@);
    assert(first_equals(text_a) is None);
    let st1 = CliState { args: rest, ..init(b) };
    let st2 = CliState {
        settings: SpecSettings { flags: Flags { optimise: 3, ..default_flags() }, target: None, extra: default_extras() },
        ..st1
    };
    assert(next_arg(init(b)) == Some(("--optimise=3"@, st1)));
    assert(next_arg(init(a)) == Some(("--optimise"@, st1)));
    assert(long_text(text_b, st1) == (text_b, st1));
    lemma_optimise_value(st1);
    lemma_long_step("--optimise=3"@, st1);
    assert(spec_step("--optimise=3"@, st1) == Step::Continue(st2));
    assert(spec_command_line(b) == spec_run(st2));
    if rest.len() == 0 {
        assert(next_arg(st1) is None);
        assert(long_text(text_a, st1) == (text_a, st1));
        lemma_optimise_flag(st1);
        lemma_long_step("--optimise"@, st1);
        assert(spec_step("--optimise"@, st1) == Step::Continue(st2));
        assert(spec_command_line(a) == spec_run(st2));
    } else {
        let st1a = CliState { args: rest.drop_first(), pushed: seq![rest[0]], ..st1 };
        let st2a = CliState { args: rest.drop_first(), pushed: seq![rest[0]], ..st2 };
        let st3 = CliState { args: rest.drop_first(), ..st2 };
        assert(next_arg(st1) == Some((rest[0], CliState { args: rest.drop_first(), ..st1 })));
        assert(Seq::<Seq<char>>::empty().push(rest[0]) =~= seq![rest[0]]);
        assert(long_text(text_a, st1) == (text_a, st1a));
        lemma_optimise_flag(st1a);
        lemma_long_step("--optimise"@, st1);
        assert(spec_step("--optimise"@, st1) == Step::Continue(st2a));
        assert(spec_command_line(a) == spec_run(st2a));
        assert(seq![rest[0]].drop_last() =~= Seq::<Seq<char>>::empty());
        assert(next_arg(st2a) == Some((rest[0], st3)));
        assert(next_arg(st2) == Some((rest[0], st3)));
        lemma_step_measure(rest[0], st3);
    }
}

/// The long option `--optimise=3` sets level 3.
proof fn lemma_optimise_value(st: CliState)
    ensures
        long_with_value("optimise"@, "3"@, st) == Step::Continue(
            CliState { settings: SpecSettings { flags: Flags { optimise: 3, ..st.settings.flags }, ..st.settings }, ..st },
        ),
{
    reveal(long_with_value);
    reveal_strlit("optimise");
    reveal_strlit("3");
    reveal_strlit("reloc");
    reveal_strlit("target");
    assert(parse_unsigned("3"@, u32::MAX as nat) == Some(3nat)) by {
        assert("3"@.len() == 1 && "3"@[0] == '3');
        assert(unsigned_digits("3"@) =~= "3"@);
        assert("3"@.drop_last() =~= Seq::<char>::empty());
        assert(decimal_value("3"@.drop_last()) == 0);
        assert(decimal_value("3"@) == 3);
    }
    assert("optimise"@.len() == 8 && "reloc"@.len() == 5 && "target"@.len() == 6);
    assert("optimise"@ != "reloc"@ && "optimise"@ != "target"@);
}

/// The long flag `--optimise` sets level 3.
proof fn lemma_optimise_flag(st: CliState)
    ensures
        long_flag("optimise"@, st) == Step::Continue(
            CliState { settings: SpecSettings { flags: Flags { optimise: 3, ..st.settings.flags }, ..st.settings }, ..st },
        ),
{
    reveal(long_flag);
    reveal_strlit("optimise");
    reveal_strlit("native-target");
    reveal_strlit("verbose");
    reveal_strlit("dump-passes");
    assert("native-target"@.len() == 13 && "verbose"@.len() == 7 && "dump-passes"@.len() == 11);
    assert("optimise"@ != "native-target"@ && "optimise"@ != "verbose"@ && "optimise"@ != "dump-passes"@);
}

} // verus!

verus! {

/// The reader at the start of the command line `args`.
pub open spec fn initial_state(args: Seq<Seq<char>>) -> CliState {
    CliState {
        settings: SpecSettings { flags: default_flags(), target: None, extra: default_extras() },
        args,
        pushed: Seq::empty(),
    }
}

/// The default number of a short numeric option: 2 jobs, level 3.
pub open spec fn short_default(c: char) -> char {
    if c == 'j' {
        '2'
    } else {
        '3'
    }
}

/// Two command lines whose first arguments, each read from the rest of its
/// line, take the same step go on alike.
proof fn lemma_same_first_step(a: Seq<Seq<char>>, b: Seq<Seq<char>>)
    requires
        a.len() > 0,
        b.len() > 0,
        spec_step(a[0], initial_state(a.drop_first())) == spec_step(
            b[0],
            initial_state(b.drop_first()),
        ),
    ensures
        spec_command_line(a) == spec_command_line(b),
{
    assert(next_arg(initial_state(a)) == Some((a[0], initial_state(a.drop_first()))));
    assert(next_arg(initial_state(b)) == Some((b[0], initial_state(b.drop_first()))));
    lemma_step_measure(a[0], initial_state(a.drop_first()));
    lemma_step_measure(b[0], initial_state(b.drop_first()));
}

/// `-j` with no number after it means `-j2`, and `-O` with none means `-O3`.
#[verifier::spinoff_prover]
pub proof fn law_short_option_default(c: char, rest: Seq<Seq<char>>)
    requires
        c == 'j' || c == 'O',
        option_or_end(rest),
    ensures
        spec_command_line(seq![seq!['-', c]] + rest) == spec_command_line(
            seq![seq!['-', c, short_default(c)]] + rest,
        ),
{
    reveal(spec_step);
    let d = short_default(c);
    let a = seq![seq!['-', c]] + rest;
    let b = seq![seq!['-', c, d]] + rest;
    assert(a[0] == seq!['-', c]);
    assert(b[0] == seq!['-', c, d]);
    assert(a.drop_first() =~= rest);
    assert(b.drop_first() =~= rest);
    let st1 = initial_state(rest);
    assert(seq!['-', c].subrange(2, 2) =~= Seq::<char>::empty());
    assert(seq!['-', c, d].subrange(2, 3) =~= seq![d]);
    assert(parse_unsigned(seq![d], u32::MAX as nat) == Some((d as int - '0' as int) as nat)) by {
        assert(unsigned_digits(seq![d]) =~= seq![d]);
        assert(seq![d].drop_last() =~= Seq::<char>::empty());
        assert(decimal_value(seq![d].drop_last()) == 0);
    }
    let flags2 = if c == 'j' {
        Flags { jobs: 2, ..default_flags() }
    } else {
        Flags { optimise: 3, ..default_flags() }
    };
    let st2 = CliState { settings: SpecSettings { flags: flags2, target: None, extra: default_extras() }, ..st1 };
    assert(short_value(seq![d], st1, d) == (seq![d], st1));
    assert(spec_step(b[0], st1) == Step::Continue(st2));
    if rest.len() == 0 {
        assert(next_arg(st1) is None);
        assert(short_value(Seq::empty(), st1, d) == (seq![d], st1));
        assert(spec_step(a[0], st1) == Step::Continue(st2));
        lemma_same_first_step(a, b);
    } else {
        let st1a = CliState { args: rest.drop_first(), pushed: seq![rest[0]], ..st1 };
        let st2a = CliState { args: rest.drop_first(), pushed: seq![rest[0]], ..st2 };
        let st3 = CliState { args: rest.drop_first(), ..st2 };
        assert(next_arg(st1) == Some((rest[0], CliState { args: rest.drop_first(), ..st1 })));
        assert(Seq::<Seq<char>>::empty().push(rest[0]) =~= seq![rest[0]]);
        assert(short_value(Seq::empty(), st1, d) == (seq![d], st1a));
        assert(spec_step(a[0], st1) == Step::Continue(st2a));
        assert(next_arg(initial_state(a)) == Some((a[0], st1)));
        assert(next_arg(initial_state(b)) == Some((b[0], st1)));
        assert(spec_command_line(a) == spec_run(st2a));
        assert(spec_command_line(b) == spec_run(st2));
        assert(seq![rest[0]].drop_last() =~= Seq::<Seq<char>>::empty());
        assert(next_arg(st2a) == Some((rest[0], st3)));
        assert(next_arg(st2) == Some((rest[0], st3)));
        lemma_step_measure(rest[0], st3);
    }
}

/// A short numeric option may take its number from the next argument:
/// `-j N` means `-jN`, and `-O N` means `-ON`.
#[verifier::spinoff_prover]
pub proof fn law_short_value_in_next_argument(c: char, value: Seq<char>, rest: Seq<Seq<char>>)
    requires
        c == 'j' || c == 'O',
        value.len() > 0,
        !is_option(value),
    ensures
        spec_command_line(seq![seq!['-', c], value] + rest) == spec_command_line(
            seq![seq!['-', c] + value] + rest,
        ),
{
    reveal(spec_step);
    let a = seq![seq!['-', c], value] + rest;
    let b = seq![seq!['-', c] + value] + rest;
    assert(a[0] == seq!['-', c]);
    assert(a[1] == value);
    assert(b[0] == seq!['-', c] + value);
    assert(a.drop_first().drop_first() =~= rest);
    assert(b.drop_first() =~= rest);
    let sta = initial_state(a.drop_first());
    let stb = initial_state(rest);
    assert(next_arg(sta) == Some((value, stb)));
    assert(seq!['-', c].subrange(2, 2) =~= Seq::<char>::empty());
    assert((seq!['-', c] + value).subrange(2, value.len() as int + 2) =~= value);
    assert(short_value(Seq::empty(), sta, short_default(c)) == (value, stb));
    assert(short_value(value, stb, short_default(c)) == (value, stb));
    assert(spec_step(a[0], sta) == spec_step(b[0], stb));
    lemma_same_first_step(a, b);
}

/// A long option may take its value from the next argument: `--NAME VALUE`
/// means `--NAME=VALUE`, where the name is not empty (`--` alone ends the
/// options) and holds no `=`, and the value is no option.
#[verifier::spinoff_prover]
pub proof fn law_long_value_in_next_argument(
    name: Seq<char>,
    value: Seq<char>,
    rest: Seq<Seq<char>>,
)
    requires
        name.len() > 0,
        first_equals(name) is None,
        !is_option(value),
    ensures
        spec_command_line(seq![seq!['-', '-'] + name, value] + rest) == spec_command_line(
            seq![seq!['-', '-'] + name + seq!['='] + value] + rest,
        ),
{
    let a = seq![seq!['-', '-'] + name, value] + rest;
    let b = seq![seq!['-', '-'] + name + seq!['='] + value] + rest;
    let text = name + seq!['='] + value;
    assert(a[0] == seq!['-', '-'] + name);
    assert(a[1] == value);
    assert(b[0] == seq!['-', '-'] + text);
    assert(a.drop_first().drop_first() =~= rest);
    assert(b.drop_first() =~= rest);
    let sta = initial_state(a.drop_first());
    let stb = initial_state(rest);
    assert(next_arg(sta) == Some((value, stb)));
    assert(a[0].len() >= 3 && a[0][0] == '-' && a[0][1] == '-');
    assert(b[0].len() >= 3 && b[0][0] == '-' && b[0][1] == '-');
    assert((seq!['-', '-'] + name).subrange(2, name.len() as int + 2) =~= name);
    assert((seq!['-', '-'] + text).subrange(2, text.len() as int + 2) =~= text);
    assert forall|j: int| 0 <= j < name.len() implies text[j] != '=' by {
        if name[j] == '=' {
            assert(exists|i: int| 0 <= i < name.len() && name[i] == '=');
        }
    }
    lemma_first_equals_at(text, name.len() as int);
    assert(long_text(name, sta) == (text, stb));
    assert(long_text(text, stb) == (text, stb));
    lemma_long_step(a[0], sta);
    lemma_long_step(b[0], stb);
    assert(long_option(name, sta) == long_option(text, stb));
    assert(spec_step(a[0], sta) == spec_step(b[0], stb));
    lemma_same_first_step(a, b);
}

} // verus!

verus! {

proof fn lemma_run_ends(st: CliState)
    ensures
        !(spec_run(st) is Stalled),
    decreases st.measure(), 0nat,
{
    match next_arg(st) {
        None => {},
        Some((arg, st1)) => {
            assert(st1.measure() < st.measure());
            lemma_step_measure(arg, st1);
            lemma_step_continues(arg, st1);
        },
    }
}

proof fn lemma_step_continues(arg: Seq<char>, st1: CliState)
    ensures
        spec_step(arg, st1) matches Step::Continue(st2) ==> st2.measure() <= st1.measure() && !(
        spec_run(st2) is Stalled),
    decreases st1.measure(), 1nat,
{
    lemma_step_measure(arg, st1);
    let step = spec_step(arg, st1);
    if let Step::Continue(st2) = step {
        lemma_run_ends(st2);
    }
}

/// Every command line ends: in a run, a version, an error or a panic, as
/// each argument that the reader goes on from lowers what is left to read.
pub proof fn law_command_line_ends(args: Seq<Seq<char>>)
    ensures
        !(spec_command_line(args) is Stalled),
{
    lemma_run_ends(initial_state(args));
}

/// What the driver does once it has looked up the target it compiles for.
#[derive(Debug, Clone, Copy, PartialEq, Eq, Structural)]
pub enum TargetAction {
    /// The target is unknown: refuse the value of `--target`.
    RefuseTarget,
    /// Print LLVM's passes and stop.
    DumpPasses,
    /// Go on compiling.
    Continue,
}

/// An unknown target is refused first; then `--dump-passes` prints the
/// passes and stops; otherwise the driver goes on.
pub open spec fn spec_target_action(target_known: bool, dump_passes: bool) -> TargetAction {
    if !target_known {
        TargetAction::RefuseTarget
    } else if dump_passes {
        TargetAction::DumpPasses
    } else {
        TargetAction::Continue
    }
}

/// What the driver does with the flags `flags` once it knows whether LLVM
/// knows the target.
pub fn target_action(target_known: bool, flags: &Flags) -> (res: TargetAction)
    ensures
        res == spec_target_action(target_known, flags.dump_passes),
{
    if !target_known {
        TargetAction::RefuseTarget
    } else if flags.dump_passes {
        TargetAction::DumpPasses
    } else {
        TargetAction::Continue
    }
}

} // verus!
