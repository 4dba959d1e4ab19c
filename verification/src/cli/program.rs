//! The name that a program was called by, and the command that it implies.

use vstd::prelude::*;
use crate::cli::paths;
use crate::columns;
use crate::vectors;

verus! {

/// The name of the program where it was called by none.
pub open spec fn default_program() -> Seq<char> {
    "rustrecom"@
}

/// The name that a program was called by: the stem of its file name.
pub open spec fn program_of(path: Option<Seq<char>>) -> Seq<char> {
    match path {
        Some(path) => if paths::names_a_file(path) {
            paths::stem(paths::file_name(path))
        } else {
            default_program()
        },
        None => default_program(),
    }
}

/// The name that a program was called by.
pub fn invoked_name(path: Option<&str>) -> (r: String)
    ensures
        r@ == program_of(
            match path {
                Some(path) => Some(path@),
                None => None,
            },
        ),
{
    match path {
        Some(path) => {
            if paths::is_file_path(path) {
                let name: String = paths::get_file_name(path);
                paths::get_stem(name.as_str())
            } else {
                "rustrecom".to_string()
            }
        },
        None => "rustrecom".to_string(),
    }
}

/// Whether an argument asks for help.
pub open spec fn asks_for_help(arg: Seq<char>) -> bool {
    arg == "-h"@ || arg == "--help"@
}

/// Whether an argument asks for the version.
pub open spec fn asks_for_version(arg: Seq<char>) -> bool {
    arg == "-V"@ || arg == "--version"@
}

/// Whether an argument is a flag.
pub open spec fn is_flag(arg: Seq<char>) -> bool {
    arg.len() > 0 && arg[0] == '-'
}

/// The command that is put before the arguments, if one is: the command of a
/// program of its own, unless the version is asked for; else the chain where
/// the arguments begin with a flag that asks for neither help nor version, or
/// where there are none.
pub open spec fn implied_command(program: Seq<char>, first: Option<Seq<char>>) -> Option<Seq<char>> {
    let version = first matches Some(arg) && asks_for_version(arg);
    if program == "frcw_short_bursts"@ {
        if version {
            None
        } else {
            Some("short-bursts"@)
        }
    } else if program == "frcw_tilted"@ {
        if version {
            None
        } else {
            Some("tilted"@)
        }
    } else {
        match first {
            None => Some("chain"@),
            Some(arg) => if is_flag(arg) && !asks_for_help(arg) && !asks_for_version(arg) {
                Some("chain"@)
            } else {
                None
            },
        }
    }
}

/// The warning about an old name of the program.
pub open spec fn old_program_warning(program: Seq<char>) -> Option<Seq<char>> {
    if program == "frcw"@ {
        Some("Warning: the `frcw` binary is deprecated; use `rustrecom` instead."@)
    } else if program == "frcw_short_bursts"@ {
        Some(
            "Warning: the `frcw_short_bursts` binary is deprecated; use `rustrecom short-bursts` instead."@,
        )
    } else if program == "frcw_tilted"@ {
        Some("Warning: the `frcw_tilted` binary is deprecated; use `rustrecom tilted` instead."@)
    } else {
        None
    }
}

/// The warning about an old name of the program, if it was called by one.
pub fn program_warning(program: &str) -> (r: Option<String>)
    ensures
        match old_program_warning(program@) {
            Some(message) => r matches Some(text) && text@ == message,
            None => r is None,
        },
{
    if columns::str_eq(program, "frcw") {
        Some("Warning: the `frcw` binary is deprecated; use `rustrecom` instead.".to_string())
    } else if columns::str_eq(program, "frcw_short_bursts") {
        Some(
            "Warning: the `frcw_short_bursts` binary is deprecated; use `rustrecom short-bursts` instead.".to_string(),
        )
    } else if columns::str_eq(program, "frcw_tilted") {
        Some(
            "Warning: the `frcw_tilted` binary is deprecated; use `rustrecom tilted` instead.".to_string(),
        )
    } else {
        None
    }
}

fn begins_with_dash(arg: &str) -> (r: bool)
    ensures
        r == is_flag(arg@),
{
    arg.unicode_len() > 0 && arg.get_char(0) == '-'
}

fn is_version(arg: &str) -> (r: bool)
    ensures
        r == asks_for_version(arg@),
{
    columns::str_eq(arg, "-V") || columns::str_eq(arg, "--version")
}

/// Puts the implied command behind the program name, so that calls without a
/// command keep working.
pub fn with_default_subcommand(program: &str, args: Vec<String>) -> (r: Vec<String>)
    requires
        args.len() > 0,
    ensures
        ({
            let given = vectors::texts(args@);
            let first = if given.len() > 1 {
                Some(given[1])
            } else {
                None
            };
            match implied_command(program@, first) {
                Some(command) => vectors::texts(r@) == given.insert(1, command),
                None => vectors::texts(r@) == given,
            }
        }),
{
    let bursts: bool = columns::str_eq(program, "frcw_short_bursts");
    let tilted: bool = columns::str_eq(program, "frcw_tilted");
    let insert: bool = if args.len() == 1 {
        true
    } else {
        let first: &str = args[1].as_str();
        if bursts || tilted {
            !is_version(first)
        } else {
            begins_with_dash(first) && !columns::str_eq(first, "-h") && !columns::str_eq(
                first,
                "--help",
            ) && !is_version(first)
        }
    };
    let ghost given = vectors::texts(args@);
    let ghost first = if given.len() > 1 {
        Some(given[1])
    } else {
        None
    };
    let mut out: Vec<String> = args;
    if insert {
        let command: String = if bursts {
            "short-bursts".to_string()
        } else if tilted {
            "tilted".to_string()
        } else {
            "chain".to_string()
        };
        let ghost text = command@;
        out.insert(1, command);
        proof {
            assert(implied_command(program@, first) == Some(text));
            assert(vectors::texts(out@) =~= given.insert(1, text));
        }
    }
    out
}

} // verus!
