//! The options of the command line.
use vstd::prelude::*;

use crate::common::text;

verus! {

#[derive(Debug, Clone, Copy, PartialEq, Eq, PartialOrd, Structural)]
pub enum LogLevel {
    Normal,
    Debug,
}

/// What the command line asks for.
#[derive(Debug)]
pub struct Options {
    pub log_level: LogLevel,
    pub input_file: String,
}

/// The mathematical content of [`Options`].
pub struct SpecOptions {
    pub log_level: LogLevel,
    pub input_file: Seq<char>,
}

impl View for Options {
    type V = SpecOptions;

    open spec fn view(&self) -> SpecOptions {
        SpecOptions { log_level: self.log_level, input_file: self.input_file@ }
    }
}

/// The options of a command line without arguments: the normal log level
/// and the bundled example as input.
pub open spec fn default_options() -> SpecOptions {
    SpecOptions { log_level: LogLevel::Normal, input_file: "./minipl/hello.pl"@ }
}

impl Default for Options {
    fn default() -> (options: Options)
        ensures
            options@ == default_options(),
    {
        Options { log_level: LogLevel::Normal, input_file: String::from_str("./minipl/hello.pl") }
    }
}

/// What a command line holds: the options, and the arguments that are no
/// known flag, in their order.
pub struct SpecArguments {
    pub options: SpecOptions,
    pub unknown: Seq<Seq<char>>,
}

/// Whether `arg` asks for the debug log level.
pub open spec fn is_verbose_flag(arg: Seq<char>) -> bool {
    arg == "--verbose"@ || arg == "--debug"@ || arg == "-v"@
}

/// Whether `arg` announces the name of the input file.
pub open spec fn is_file_flag(arg: Seq<char>) -> bool {
    arg == "--file"@ || arg == "-f"@
}

/// Reads the arguments from place `i` on, with `so_far` read before them.
/// `None` where a flag that announces a file name is the last argument.
pub open spec fn parse_arguments_from(
    args: Seq<Seq<char>>,
    i: int,
    so_far: SpecArguments,
) -> Option<SpecArguments>
    decreases args.len() - i,
{
    if i < 0 || i >= args.len() {
        Some(so_far)
    } else if is_verbose_flag(args[i]) {
        parse_arguments_from(
            args,
            i + 1,
            SpecArguments {
                options: SpecOptions { log_level: LogLevel::Debug, ..so_far.options },
                ..so_far
            },
        )
    } else if is_file_flag(args[i]) {
        if i + 1 < args.len() {
            parse_arguments_from(
                args,
                i + 2,
                SpecArguments {
                    options: SpecOptions { input_file: args[i + 1], ..so_far.options },
                    ..so_far
                },
            )
        } else {
            None
        }
    } else {
        parse_arguments_from(
            args,
            i + 1,
            SpecArguments { unknown: so_far.unknown.push(args[i]), ..so_far },
        )
    }
}

/// Reads a command line, whose first argument is the name of the program
/// and is passed over.
pub open spec fn parse_arguments(args: Seq<Seq<char>>) -> Option<SpecArguments> {
    parse_arguments_from(
        args,
        1,
        SpecArguments { options: default_options(), unknown: Seq::empty() },
    )
}

/// The options that a command line asks for, with the arguments that are
/// no known flag; `None` where `--file` or `-f` is the last argument.
pub fn parse_command_line_args(args: Vec<String>) -> (parsed: Option<(Options, Vec<String>)>)
    ensures
        match (parse_arguments(args@.map_values(|arg: String| arg@)), parsed) {
            (Some(expected), Some((options, unknown))) => options@ == expected.options
                && unknown@.map_values(|arg: String| arg@) == expected.unknown,
            (None, None) => true,
            _ => false,
        },
{
    let ghost all = args@.map_values(|arg: String| arg@);
    let mut options = Options::default();
    let mut unknown: Vec<String> = Vec::new();
    let mut i: usize = 1;
    assert(unknown@.map_values(|arg: String| arg@) =~= Seq::empty());
    while i < args.len()
        invariant
            1 <= i,
            all == args@.map_values(|arg: String| arg@),
            parse_arguments(all) == parse_arguments_from(
                all,
                i as int,
                SpecArguments {
                    options: options@,
                    unknown: unknown@.map_values(|arg: String| arg@),
                },
            ),
        decreases args.len() - i,
    {
        let ghost seen = unknown@.map_values(|arg: String| arg@);
        let arg = args[i].as_str();
        assert(arg@ == all[i as int]);
        if text::same_text(arg, "--verbose") || text::same_text(arg, "--debug") || text::same_text(
            arg,
            "-v",
        ) {
            options.log_level = LogLevel::Debug;
            i += 1;
        } else if text::same_text(arg, "--file") || text::same_text(arg, "-f") {
            if i + 1 < args.len() {
                options.input_file = args[i + 1].clone();
                assert(options.input_file@ == all[i + 1]);
                i += 2;
            } else {
                return None;
            }
        } else {
            unknown.push(args[i].clone());
            assert(unknown@.map_values(|arg: String| arg@) =~= seen.push(all[i as int]));
            i += 1;
        }
    }
    Some((options, unknown))
}

} // verus!
