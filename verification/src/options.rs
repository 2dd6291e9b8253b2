//! The command line: which arguments there are, and what their values mean.

use clap::builder::{PathBufValueParser, PossibleValue, PossibleValuesParser};
use clap::{Arg, ArgAction, Command};
use vstd::prelude::*;
use vstd::string::*;
use crate::number::{
    integer_value, is_unsigned_integer, leading_digits, numeral_value, parse_positive_usize,
    positive_usize_value, starts_too_large,
};
use crate::text::{same_text, strings};
use crate::{ABOUT, PROGRAM, VERSION};

verus! {

/// The execution backend that the user asked for.
#[derive(Clone, Copy, Debug, PartialEq, Eq, Structural)]
pub enum Backend {
    /// Prefer GPU and fall back to CPU when no compatible adapter is available.
    Auto,
    /// Use the portable multithreaded CPU implementation.
    Cpu,
    /// Use the compute implementation on a graphics adapter.
    Gpu,
}

/// The command-line options.
#[derive(Clone, Debug)]
pub struct Options {
    /// Search configuration file.
    pub config: String,
    /// Execution backend.
    pub backend: Backend,
    /// CPU worker count, if one was given; never zero.
    pub threads: Option<usize>,
    /// Validate and summarize the config without scanning.
    pub validate: bool,
    /// Also append matches to this file.
    pub output: Option<String>,
}

/// A word that an argument can take as its value.
#[derive(Clone, Copy, Debug)]
pub struct Choice {
    pub name: &'static str,
    pub help: &'static str,
}

/// What an argument is for.
#[derive(Clone, Copy, Debug)]
pub enum ArgumentKind {
    /// Names a file.
    Path,
    /// Takes one of three words, by default the first.
    Choice(Choice, Choice, Choice),
    /// Gives a positive number.
    Count,
    /// Is present or not.
    Flag,
    /// Prints the version.
    Version,
}

/// The declaration of one command-line argument.
#[derive(Clone, Copy, Debug)]
pub struct Argument {
    /// What stands for the value in the help text.
    pub name: &'static str,
    pub short: Option<char>,
    pub long: Option<&'static str>,
    pub help: &'static str,
    pub required: bool,
    pub kind: ArgumentKind,
}

/// The arguments of the program.
pub open spec fn argument_table() -> Seq<Argument> {
    seq![
        Argument {
            name: "CONFIG",
            short: None,
            long: None,
            help: "Search configuration file",
            required: true,
            kind: ArgumentKind::Path,
        },
        Argument {
            name: "BACKEND",
            short: Some('b'),
            long: Some("backend"),
            help: "Execution backend",
            required: false,
            kind: ArgumentKind::Choice(
                Choice {
                    name: "auto",
                    help: "Prefer GPU and fall back to CPU when no compatible adapter is available",
                },
                Choice {
                    name: "cpu",
                    help: "Use the portable multithreaded CPU implementation",
                },
                Choice { name: "gpu", help: "Use the wgpu compute implementation" },
            ),
        },
        Argument {
            name: "THREADS",
            short: Some('t'),
            long: Some("threads"),
            help: "CPU worker count (defaults to the available hardware parallelism)",
            required: false,
            kind: ArgumentKind::Count,
        },
        Argument {
            name: "VALIDATE",
            short: Some('e'),
            long: Some("validate"),
            help: "Validate and summarize the config without scanning",
            required: false,
            kind: ArgumentKind::Flag,
        },
        Argument {
            name: "FILE",
            short: Some('o'),
            long: Some("output"),
            help: "Also append matches to this file",
            required: false,
            kind: ArgumentKind::Path,
        },
        Argument {
            name: "VERSION",
            short: Some('v'),
            long: Some("version"),
            help: "Print version information",
            required: false,
            kind: ArgumentKind::Version,
        },
    ]
}

/// Returns the declarations of all arguments.
pub fn arguments() -> (table: Vec<Argument>)
    ensures
        table@ == argument_table(),
{
    let table: Vec<Argument> = vec![
        Argument {
            name: "CONFIG",
            short: None,
            long: None,
            help: "Search configuration file",
            required: true,
            kind: ArgumentKind::Path,
        },
        Argument {
            name: "BACKEND",
            short: Some('b'),
            long: Some("backend"),
            help: "Execution backend",
            required: false,
            kind: ArgumentKind::Choice(
                Choice {
                    name: "auto",
                    help: "Prefer GPU and fall back to CPU when no compatible adapter is available",
                },
                Choice {
                    name: "cpu",
                    help: "Use the portable multithreaded CPU implementation",
                },
                Choice { name: "gpu", help: "Use the wgpu compute implementation" },
            ),
        },
        Argument {
            name: "THREADS",
            short: Some('t'),
            long: Some("threads"),
            help: "CPU worker count (defaults to the available hardware parallelism)",
            required: false,
            kind: ArgumentKind::Count,
        },
        Argument {
            name: "VALIDATE",
            short: Some('e'),
            long: Some("validate"),
            help: "Validate and summarize the config without scanning",
            required: false,
            kind: ArgumentKind::Flag,
        },
        Argument {
            name: "FILE",
            short: Some('o'),
            long: Some("output"),
            help: "Also append matches to this file",
            required: false,
            kind: ArgumentKind::Path,
        },
        Argument {
            name: "VERSION",
            short: Some('v'),
            long: Some("version"),
            help: "Print version information",
            required: false,
            kind: ArgumentKind::Version,
        },
    ];
    assert(table@ =~= argument_table());
    table
}

/// Why the command line was not accepted, or a text that it asked for.
#[derive(Clone, Debug)]
pub struct UsageError {
    /// The text to print.
    pub text: String,
    /// The text is a complaint, not one that was asked for.
    pub to_stderr: bool,
}

/// The contents of an optional text.
pub open spec fn optional(text: Option<String>) -> Option<Seq<char>> {
    match text {
        Some(s) => Some(s@),
        None => None,
    }
}

/// The contents of a list of optional texts.
pub open spec fn optionals(list: Seq<Option<String>>) -> Seq<Option<Seq<char>>> {
    list.map_values(|s: Option<String>| optional(s))
}

/// A value is one that the argument can take.
pub open spec fn accepted(kind: ArgumentKind, value: Seq<char>) -> bool {
    match kind {
        ArgumentKind::Path => value.len() > 0,
        ArgumentKind::Choice(a, b, c) => value == a.name@ || value == b.name@ || value == c.name@,
        ArgumentKind::Count => positive_usize_value(value) is Some,
        ArgumentKind::Flag => true,
        ArgumentKind::Version => true,
    }
}

/// The values that the arguments of the table can have together: the
/// configuration file is named, and every value is one that its argument can take.
pub open spec fn acceptable(values: Seq<Option<Seq<char>>>) -> bool {
    &&& values.len() == argument_table().len()
    &&& values[0] is Some
    &&& forall|i: int|
        0 <= i < values.len() && #[trigger] values[i] is Some ==> accepted(
            argument_table()[i].kind,
            values[i]->Some_0,
        )
}

/// What is wrong with a text that is no positive number. The text is read from the
/// left, so digits that are too large count before what follows them.
pub open spec fn count_error(value: Seq<char>) -> Seq<char> {
    if value.len() == 0 {
        "cannot parse integer from empty string"@
    } else if numeral_value(leading_digits(value)) > usize::MAX {
        "number too large to fit in target type"@
    } else if integer_value(value, false) is None {
        "invalid digit found in string"@
    } else {
        "number would be zero for non-zero type"@
    }
}

/// Checks that a text is a positive number.
pub fn check_count(value: &str) -> (result: Result<(), String>)
    ensures
        result is Ok == accepted(ArgumentKind::Count, value@),
        result matches Err(message) ==> message@ == count_error(value@),
{
    if parse_positive_usize(value).is_some() {
        Ok(())
    } else if value.is_empty() {
        Err("cannot parse integer from empty string".to_owned())
    } else if starts_too_large(value) {
        Err("number too large to fit in target type".to_owned())
    } else if !is_unsigned_integer(value) {
        Err("invalid digit found in string".to_owned())
    } else {
        Err("number would be zero for non-zero type".to_owned())
    }
}

/// A command line that clap can read.
#[verifier::external_type_specification]
#[verifier::external_body]
pub struct ExCommand(clap::Command);

/// The arguments that a command holds, in the order in which they were added.
pub uninterp spec fn command_arguments(command: Command) -> Seq<Argument>;

/// Makes a command with `clap::Command::new`. It bears the name, the version and
/// the description of the program, shows its help when nothing is given, leaves
/// the version flag to the argument table, and holds no argument yet.
#[verifier::external_body]
fn new_command() -> (command: Command)
    ensures
        command_arguments(command) == Seq::<Argument>::empty(),
{
    Command::new(PROGRAM).version(VERSION).about(ABOUT).disable_version_flag(
        true,
    ).arg_required_else_help(true)
}

/// Adds an argument that names a file with `clap::Command::arg`, which puts it
/// behind those that the command holds. clap's `PathBufValueParser` rejects an
/// empty value.
#[verifier::external_body]
fn with_path(command: Command, argument: Argument) -> (extended: Command)
    requires
        argument.kind is Path,
        argument.short != Some('-'),
    ensures
        command_arguments(extended) == command_arguments(command).push(argument),
{
    let declared = Arg::new(argument.name).short(argument.short).long(argument.long);
    let described = declared.help(argument.help).required(argument.required);
    command.arg(described.value_parser(PathBufValueParser::new()))
}

/// Adds an argument that takes one of three words with `clap::Command::arg`, which
/// puts it behind those that the command holds. clap's `PossibleValuesParser`
/// rejects any other value, and the first word stands where none is given.
#[verifier::external_body]
fn with_choice(
    command: Command,
    argument: Argument,
    first: Choice,
    second: Choice,
    third: Choice,
) -> (extended: Command)
    requires
        argument.kind == ArgumentKind::Choice(first, second, third),
        argument.short != Some('-'),
    ensures
        command_arguments(extended) == command_arguments(command).push(argument),
{
    let declared = Arg::new(argument.name).short(argument.short).long(argument.long);
    let described = declared.help(argument.help).required(argument.required);
    let words = PossibleValuesParser::new(
        [first, second, third].map(|word| PossibleValue::new(word.name).help(word.help)),
    );
    command.arg(described.value_parser(words).default_value(first.name))
}

/// Adds an argument that gives a positive number with `clap::Command::arg`, which
/// puts it behind those that the command holds. A value that [`check_count`]
/// rejects is an error.
#[verifier::external_body]
fn with_count(command: Command, argument: Argument) -> (extended: Command)
    requires
        argument.kind is Count,
        argument.short != Some('-'),
    ensures
        command_arguments(extended) == command_arguments(command).push(argument),
{
    let declared = Arg::new(argument.name).short(argument.short).long(argument.long);
    let described = declared.help(argument.help).required(argument.required);
    command.arg(described.value_parser(|value: &str| check_count(value)))
}

/// Adds an argument that is present or not with `clap::Command::arg`, which puts
/// it behind those that the command holds.
#[verifier::external_body]
fn with_flag(command: Command, argument: Argument) -> (extended: Command)
    requires
        argument.kind is Flag,
        argument.short != Some('-'),
    ensures
        command_arguments(extended) == command_arguments(command).push(argument),
{
    let declared = Arg::new(argument.name).short(argument.short).long(argument.long);
    let described = declared.help(argument.help).required(argument.required);
    command.arg(described.action(ArgAction::SetTrue))
}

/// Adds an argument that asks for the version with `clap::Command::arg`, which
/// puts it behind those that the command holds.
#[verifier::external_body]
fn with_version(command: Command, argument: Argument) -> (extended: Command)
    requires
        argument.kind is Version,
        argument.short != Some('-'),
    ensures
        command_arguments(extended) == command_arguments(command).push(argument),
{
    let declared = Arg::new(argument.name).short(argument.short).long(argument.long);
    let described = declared.help(argument.help).required(argument.required);
    command.arg(described.action(ArgAction::Version))
}

/// Builds the command that holds the whole argument table.
fn command_for(table: &Vec<Argument>) -> (command: Command)
    requires
        forall|i: int| 0 <= i < table.len() ==> (#[trigger] table[i]).short != Some('-'),
    ensures
        command_arguments(command) == table@,
{
    let mut command: Command = new_command();
    let mut i: usize = 0;
    while i < table.len()
        invariant
            i <= table.len(),
            forall|i: int| 0 <= i < table.len() ==> (#[trigger] table[i]).short != Some('-'),
            command_arguments(command) == table@.take(i as int),
        decreases table.len() - i,
    {
        let argument: Argument = table[i];
        command = match argument.kind {
            ArgumentKind::Path => with_path(command, argument),
            ArgumentKind::Choice(a, b, c) => with_choice(command, argument, a, b, c),
            ArgumentKind::Count => with_count(command, argument),
            ArgumentKind::Flag => with_flag(command, argument),
            ArgumentKind::Version => with_version(command, argument),
        };
        i = i + 1;
        assert(table@.take(i as int) =~= table@.take(i - 1).push(argument));
    }
    assert(table@.take(i as int) =~= table@);
    command
}

/// How clap reads a command line against the argument table: the first value of
/// every argument, in the order of the table, or whether it complains.
pub uninterp spec fn clap_reading(args: Seq<Seq<char>>) -> Result<Seq<Option<Seq<char>>>, bool>;

/// Reads a command line with `clap::Command::try_get_matches_from`. The values,
/// and whether the text of an error goes to standard error, follow from the
/// arguments alone. Where it succeeds, there is one entry for every declared
/// argument, the required one has a value, and every value has passed the value
/// parser of its argument. The text of an error is not described: it shows the
/// name of the program's file, which the platform takes from the first argument.
#[verifier::external_body]
fn clap_matches(command: Command, table: &Vec<Argument>, args: &Vec<String>) -> (result: Result<
    Vec<Option<String>>,
    UsageError,
>)
    requires
        table@ == argument_table(),
        command_arguments(command) == table@,
    ensures
        match result {
            Ok(values) => clap_reading(strings(args@)) == Ok::<Seq<Option<Seq<char>>>, bool>(
                optionals(values@),
            ) && acceptable(optionals(values@)),
            Err(error) => clap_reading(strings(args@)) == Err::<Seq<Option<Seq<char>>>, bool>(
                error.to_stderr,
            ),
        },
{
    match command.try_get_matches_from(args) {
        Ok(found) => Ok(
            table.iter().map(
                |a| Some(found.get_raw(a.name)?.next()?.to_str()?.to_owned()),
            ).collect(),
        ),
        Err(error) => Err(UsageError { to_stderr: error.use_stderr(), text: error.to_string() }),
    }
}

/// [`Options`] with texts as sequences.
pub struct OptionsView {
    pub config: Seq<char>,
    pub backend: Backend,
    pub threads: Option<usize>,
    pub validate: bool,
    pub output: Option<Seq<char>>,
}

impl View for Options {
    type V = OptionsView;

    open spec fn view(&self) -> OptionsView {
        OptionsView {
            config: self.config@,
            backend: self.backend,
            threads: self.threads,
            validate: self.validate,
            output: optional(self.output),
        }
    }
}

/// The backend that a text names.
pub open spec fn backend_named(s: Seq<char>) -> Option<Backend> {
    if s == "auto"@ {
        Some(Backend::Auto)
    } else if s == "cpu"@ {
        Some(Backend::Cpu)
    } else if s == "gpu"@ {
        Some(Backend::Gpu)
    } else {
        None
    }
}

/// Reads the name of a backend.
pub fn parse_backend(value: &str) -> (backend: Option<Backend>)
    ensures
        backend == backend_named(value@),
{
    if same_text(value, "auto") {
        Some(Backend::Auto)
    } else if same_text(value, "cpu") {
        Some(Backend::Cpu)
    } else if same_text(value, "gpu") {
        Some(Backend::Gpu)
    } else {
        None
    }
}

/// The options that the values of the arguments mean, given in the order of the
/// argument table. The backend is chosen automatically where none is named.
pub open spec fn options_value(values: Seq<Option<Seq<char>>>) -> OptionsView {
    OptionsView {
        config: values[0]->Some_0,
        backend: match values[1] {
            Some(name) => backend_named(name)->Some_0,
            None => Backend::Auto,
        },
        threads: match values[2] {
            Some(n) => Some(positive_usize_value(n)->Some_0 as usize),
            None => None,
        },
        validate: values[3] == Some("true"@),
        output: values[4],
    }
}

/// Interprets the values of the arguments, given in the order of the argument table.
pub fn interpret(values: &Vec<Option<String>>) -> (options: Options)
    requires
        acceptable(optionals(values@)),
    ensures
        options@ == options_value(optionals(values@)),
        options.config@.len() > 0,
        options.threads != Some(0usize),
{
    assert(optionals(values@).len() == 6);
    assert(forall|i: int|
        0 <= i < values.len() ==> optionals(values@)[i] == optional(#[trigger] values@[i]));
    let config: String = match &values[0] {
        Some(path) => path.clone(),
        None => String::new(),
    };
    let backend: Backend = match &values[1] {
        Some(name) => match parse_backend(name.as_str()) {
            Some(backend) => backend,
            None => Backend::Auto,
        },
        None => Backend::Auto,
    };
    let threads: Option<usize> = match &values[2] {
        Some(number) => parse_positive_usize(number.as_str()),
        None => None,
    };
    let validate: bool = match &values[3] {
        Some(flag) => same_text(flag.as_str(), "true"),
        None => false,
    };
    let output: Option<String> = match &values[4] {
        Some(path) => Some(path.clone()),
        None => None,
    };
    Options { config, backend, threads, validate, output }
}

impl Options {
    /// Reads the command line; the first argument is the name of the program.
    pub fn try_parse_from(args: &Vec<String>) -> (result: Result<Options, UsageError>)
        ensures
            match clap_reading(strings(args@)) {
                Ok(values) => result matches Ok(options) && options@ == options_value(values),
                Err(to_stderr) => result matches Err(error) && error.to_stderr == to_stderr,
            },
            result matches Ok(options) ==> options.config@.len() > 0 && options.threads != Some(
                0usize,
            ),
    {
        let table: Vec<Argument> = arguments();
        match clap_matches(command_for(&table), &table, args) {
            Ok(values) => Ok(interpret(&values)),
            Err(error) => Err(error),
        }
    }
}

impl UsageError {
    /// Returns the exit status of a program that stops here: a complaint counts
    /// as a failure, a text that was asked for does not.
    pub fn exit_code(&self) -> (code: u8)
        ensures
            code == (if self.to_stderr { 2u8 } else { 0u8 }),
    {
        if self.to_stderr {
            2
        } else {
            0
        }
    }
}

} // verus!
