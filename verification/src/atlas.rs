//! The command line of the kernel atlas.

use vstd::prelude::*;

verus! {

/// What the command line asks for.
pub enum Command {
    /// The number of rows and the first of them.
    Read { path: String },
    /// The number of rows.
    Count { path: String },
    /// The first rows; one where no number is given.
    Head { path: String, rows: Option<String> },
    /// How to use the program.
    Help,
    /// No subcommand.
    Missing,
    /// A subcommand that is not there or has another number of arguments.
    Unknown { name: String },
}

/// What the command line asks for, as mathematics.
pub enum Asked {
    Read(Seq<char>),
    Count(Seq<char>),
    Head(Seq<char>, Option<Seq<char>>),
    Help,
    Missing,
    Unknown(Seq<char>),
}

impl View for Command {
    type V = Asked;

    open spec fn view(&self) -> Asked {
        match self {
            Command::Read { path } => Asked::Read(path@),
            Command::Count { path } => Asked::Count(path@),
            Command::Head { path, rows } => Asked::Head(
                path@,
                match rows {
                    Some(n) => Some(n@),
                    None => None,
                },
            ),
            Command::Help => Asked::Help,
            Command::Missing => Asked::Missing,
            Command::Unknown { name } => Asked::Unknown(name@),
        }
    }
}

/// What arguments ask for; the program's own name is the first of them.
pub open spec fn asked(args: Seq<String>) -> Asked {
    if args.len() < 2 {
        Asked::Missing
    } else if args[1]@ == "read"@ && args.len() == 3 {
        Asked::Read(args[2]@)
    } else if args[1]@ == "count"@ && args.len() == 3 {
        Asked::Count(args[2]@)
    } else if args[1]@ == "head"@ && args.len() == 3 {
        Asked::Head(args[2]@, None)
    } else if args[1]@ == "head"@ && args.len() == 4 {
        Asked::Head(args[2]@, Some(args[3]@))
    } else if args[1]@ == "-h"@ || args[1]@ == "--help"@ || args[1]@ == "help"@ {
        Asked::Help
    } else {
        Asked::Unknown(args[1]@)
    }
}

/// What arguments ask for.
pub fn command(args: &Vec<String>) -> (r: Command)
    ensures
        r@ == asked(args@),
{
    let n: usize = args.len();
    if n < 2 {
        return Command::Missing;
    }
    let name: &String = &args[1];
    if *name == "read".to_owned() && n == 3 {
        Command::Read { path: args[2].clone() }
    } else if *name == "count".to_owned() && n == 3 {
        Command::Count { path: args[2].clone() }
    } else if *name == "head".to_owned() && n == 3 {
        Command::Head { path: args[2].clone(), rows: None }
    } else if *name == "head".to_owned() && n == 4 {
        Command::Head { path: args[2].clone(), rows: Some(args[3].clone()) }
    } else if *name == "-h".to_owned() || *name == "--help".to_owned() || *name
        == "help".to_owned() {
        Command::Help
    } else {
        Command::Unknown { name: name.clone() }
    }
}

} // verus!
