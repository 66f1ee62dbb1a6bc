//! Command line arguments.

use vstd::prelude::*;

use crate::text::{opt_seq, str_eq, str_skip, str_starts_with};

verus! {

/// Options for running the player.
#[derive(Debug, Default, PartialEq, Eq, Clone)]
pub struct CliOptions {
    pub music_dir: Option<String>,
    pub play_file: Option<String>,
}

/// What the command line asks for.
#[derive(Debug, PartialEq, Eq)]
pub enum CliAction {
    Help,
    Version,
    Run(CliOptions),
}

/// What the command line asks for, as values.
pub enum CliOutcome {
    Help,
    Version,
    Run(Option<Seq<char>>, Option<Seq<char>>),
}

impl CliAction {
    pub open spec fn outcome(self) -> CliOutcome {
        match self {
            CliAction::Help => CliOutcome::Help,
            CliAction::Version => CliOutcome::Version,
            CliAction::Run(o) => CliOutcome::Run(opt_seq(o.music_dir), opt_seq(o.play_file)),
        }
    }
}

pub open spec fn is_help_flag(a: Seq<char>) -> bool {
    a == "-h"@ || a == "--help"@
}

pub open spec fn is_version_flag(a: Seq<char>) -> bool {
    a == "-v"@ || a == "-V"@ || a == "--version"@
}

pub open spec fn is_dir_flag(a: Seq<char>) -> bool {
    a == "-d"@ || a == "--dir"@
}

pub open spec fn is_play_flag(a: Seq<char>) -> bool {
    a == "-p"@ || a == "--play"@
}

pub open spec fn has_prefix(a: Seq<char>, p: Seq<char>) -> bool {
    a.len() >= p.len() && a.take(p.len() as int) == p
}

/// Reads `args[i..]` with the options found so far. `dirs[k]` tells whether `args[k]` names
/// an existing directory. `-h`/`--help` and `-v`/`-V`/`--version` answer at once; `-d`/`--dir`
/// and `-p`/`--play` take the next argument (if any); `--dir=X` and `--play=X` carry it; an
/// argument not starting with `-` is a music directory if it names one and a file to play
/// otherwise; any other argument starting with `-` asks for help. The last setting wins.
pub open spec fn cli_scan(args: Seq<Seq<char>>, dirs: Seq<bool>, i: int, dir: Option<Seq<char>>, play: Option<Seq<char>>) -> CliOutcome
    decreases args.len() - i,
{
    if i < 0 || i >= args.len() {
        CliOutcome::Run(dir, play)
    } else {
        let a = args[i];
        if is_help_flag(a) {
            CliOutcome::Help
        } else if is_version_flag(a) {
            CliOutcome::Version
        } else if is_dir_flag(a) {
            if i + 1 < args.len() {
                cli_scan(args, dirs, i + 2, Some(args[i + 1]), play)
            } else {
                cli_scan(args, dirs, i + 1, dir, play)
            }
        } else if is_play_flag(a) {
            if i + 1 < args.len() {
                cli_scan(args, dirs, i + 2, dir, Some(args[i + 1]))
            } else {
                cli_scan(args, dirs, i + 1, dir, play)
            }
        } else if has_prefix(a, "--dir="@) {
            cli_scan(args, dirs, i + 1, Some(a.skip("--dir="@.len() as int)), play)
        } else if has_prefix(a, "--play="@) {
            cli_scan(args, dirs, i + 1, dir, Some(a.skip("--play="@.len() as int)))
        } else if !has_prefix(a, "-"@) {
            if dirs[i] {
                cli_scan(args, dirs, i + 1, Some(a), play)
            } else {
                cli_scan(args, dirs, i + 1, dir, Some(a))
            }
        } else {
            CliOutcome::Help
        }
    }
}

impl CliOptions {
    /// Reads the command line `args` (the first is the program name). `dirs[k]` tells whether
    /// `args[k]` names an existing directory; only arguments that are paths are looked at.
    pub fn parse(args: &Vec<String>, dirs: &Vec<bool>) -> (r: CliAction)
        requires
            dirs@.len() == args@.len(),
        ensures
            r.outcome() == cli_scan(args@.map_values(|a: String| a@), dirs@, 1, None, None),
    {
        let ghost av = args@.map_values(|a: String| a@);
        let mut music_dir: Option<String> = None;
        let mut play_file: Option<String> = None;
        let mut i: usize = 1;
        while i < args.len()
            invariant
                1 <= i,
                av == args@.map_values(|a: String| a@),
                dirs@.len() == args@.len(),
                cli_scan(av, dirs@, i as int, opt_seq(music_dir), opt_seq(play_file)) == cli_scan(av, dirs@, 1, None, None),
            decreases args@.len() - i,
        {
            let arg = args[i].as_str();
            assert(av[i as int] == arg@);
            if str_eq(arg, "-h") || str_eq(arg, "--help") {
                return CliAction::Help;
            } else if str_eq(arg, "-v") || str_eq(arg, "-V") || str_eq(arg, "--version") {
                return CliAction::Version;
            } else if str_eq(arg, "-d") || str_eq(arg, "--dir") {
                if i + 1 < args.len() {
                    assert(av[i + 1] == args@[i + 1]@);
                    music_dir = Some(args[i + 1].clone());
                    i = i + 2;
                } else {
                    i = i + 1;
                }
            } else if str_eq(arg, "-p") || str_eq(arg, "--play") {
                if i + 1 < args.len() {
                    assert(av[i + 1] == args@[i + 1]@);
                    play_file = Some(args[i + 1].clone());
                    i = i + 2;
                } else {
                    i = i + 1;
                }
            } else if str_starts_with(arg, "--dir=") {
                proof {
                    reveal_strlit("--dir=");
                }
                music_dir = Some(str_skip(arg, 6));
                i = i + 1;
            } else if str_starts_with(arg, "--play=") {
                proof {
                    reveal_strlit("--play=");
                }
                play_file = Some(str_skip(arg, 7));
                i = i + 1;
            } else if !str_starts_with(arg, "-") {
                if dirs[i] {
                    music_dir = Some(args[i].clone());
                } else {
                    play_file = Some(args[i].clone());
                }
                i = i + 1;
            } else {
                return CliAction::Help;
            }
        }
        CliAction::Run(CliOptions { music_dir, play_file })
    }
}

} // verus!
