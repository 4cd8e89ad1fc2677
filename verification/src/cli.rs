//! The daemon's command line: mount the graph at a mountpoint, with an
//! optional configuration file, or watch a path.
use vstd::prelude::*;

use crate::text::{concat2, concat3, text_eq, texts_of};

verus! {

/// What the daemon is asked to do.
#[derive(Debug, PartialEq, Eq)]
pub enum Command {
    Mount { mountpoint: String, config: Option<String> },
    Watch { path: String },
}

pub enum CommandView {
    Mount { mountpoint: Seq<char>, config: Option<Seq<char>> },
    Watch { path: Seq<char> },
}

impl View for Command {
    type V = CommandView;

    open spec fn view(&self) -> CommandView {
        match self {
            Command::Mount { mountpoint, config } => CommandView::Mount {
                mountpoint: mountpoint@,
                config: match config {
                    Some(c) => Some(c@),
                    None => None,
                },
            },
            Command::Watch { path } => CommandView::Watch { path: path@ },
        }
    }
}

/// The usage text, naming the program as it was called.
pub open spec fn usage_spec(program: Seq<char>) -> Seq<char> {
    "usage: "@ + program + " [--config <path>] <mountpoint>\n       "@ + program
        + " --watch <path>"@
}

pub fn usage(program: &str) -> (r: String)
    ensures
        r@ == usage_spec(program@),
{
    let a = concat3("usage: ", program, " [--config <path>] <mountpoint>\n       ");
    let b = concat2(program, " --watch <path>");
    let r = concat2(a.as_str(), b.as_str());
    r
}

/// The options after the program name, read from `i` on with the
/// configuration file and mountpoint found so far: `--config` takes the
/// next argument as the configuration file, any other argument is the
/// mountpoint; either given twice, or `--config` last, is refused.
pub open spec fn scan_spec(
    args: Seq<Seq<char>>,
    i: int,
    config: Option<Seq<char>>,
    mountpoint: Option<Seq<char>>,
) -> Option<(Option<Seq<char>>, Option<Seq<char>>)>
    decreases args.len() - i,
{
    if i < 0 || i >= args.len() {
        Some((config, mountpoint))
    } else if args[i] == "--config"@ {
        if i + 1 >= args.len() || config is Some {
            None
        } else {
            scan_spec(args, i + 2, Some(args[i + 1]), mountpoint)
        }
    } else if mountpoint is Some {
        None
    } else {
        scan_spec(args, i + 1, config, Some(args[i]))
    }
}

/// The command that the arguments (the program name first) ask for, or
/// `None` where they are to be refused with the usage text: `--watch` and
/// one path, or options naming exactly one mountpoint.
pub open spec fn command_spec(args: Seq<Seq<char>>) -> Option<CommandView> {
    if args.len() <= 1 {
        None
    } else if args[1] == "--watch"@ {
        if args.len() == 3 {
            Some(CommandView::Watch { path: args[2] })
        } else {
            None
        }
    } else {
        match scan_spec(args, 1, None, None) {
            Some((config, Some(m))) => Some(CommandView::Mount { mountpoint: m, config }),
            _ => None,
        }
    }
}

/// The program's name as it was called, or `locusfs`.
pub open spec fn program_spec(args: Seq<Seq<char>>) -> Seq<char> {
    if args.len() > 0 {
        args[0]
    } else {
        "locusfs"@
    }
}

/// Reads the command line (the program name first).
pub fn parse_command(args: &Vec<String>) -> (r: Result<Command, String>)
    ensures
        match command_spec(texts_of(args@)) {
            Some(c) => r matches Ok(v) && v@ == c,
            None => r matches Err(u) && u@ == usage_spec(program_spec(texts_of(args@))),
        },
{
    let ghost a = texts_of(args@);
    let program: String = if args.len() > 0 {
        args[0].clone()
    } else {
        "locusfs".to_owned()
    };
    assert(program@ == program_spec(a));
    if args.len() <= 1 {
        return Err(usage(program.as_str()));
    }
    assert(a[1] == args@[1]@);
    if text_eq(args[1].as_str(), "--watch") {
        if args.len() == 3 {
            assert(a[2] == args@[2]@);
            return Ok(Command::Watch { path: args[2].clone() });
        }
        return Err(usage(program.as_str()));
    }
    let mut config: Option<String> = None;
    let mut mountpoint: Option<String> = None;
    let mut i: usize = 1;
    while i < args.len()
        invariant
            1 <= i <= args.len() + 1,
            a == texts_of(args@),
            a.len() == args.len(),
            a.len() > 1,
            !(a[1] == "--watch"@),
            program@ == program_spec(a),
            scan_spec(a, i as int, match config {
                Some(c) => Some(c@),
                None => None,
            }, match mountpoint {
                Some(m) => Some(m@),
                None => None,
            }) == scan_spec(a, 1, None, None),
        decreases args.len() + 1 - i,
    {
        assert(a[i as int] == args@[i as int]@);
        if text_eq(args[i].as_str(), "--config") {
            if i + 1 >= args.len() || config.is_some() {
                return Err(usage(program.as_str()));
            }
            assert(a[i + 1] == args@[i + 1]@);
            config = Some(args[i + 1].clone());
            i += 2;
        } else {
            if mountpoint.is_some() {
                return Err(usage(program.as_str()));
            }
            mountpoint = Some(args[i].clone());
            i += 1;
        }
    }
    match mountpoint {
        Some(m) => Ok(Command::Mount { mountpoint: m, config }),
        None => Err(usage(program.as_str())),
    }
}

} // verus!
