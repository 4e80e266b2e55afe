//! The dispatcher's parse step: one pass over the command-line arguments
//! yields exactly one command, with unrecognized or incomplete argument
//! lists a distinct, handled case rather than an out-of-bounds fault.

use vstd::prelude::*;

use crate::boolean::spec_string_to_bool;
use crate::boolean::string_to_bool;
use crate::text::str_eq;

verus! {

/// One recognized invocation of the tool.
#[derive(Debug, Clone)]
pub enum Command {
    /// `add move <name> <is_upper> <require_weight>`: store a new movement.
    AddMove { name: String, is_upper: bool, require_weight: bool },
    /// `del move <name>`: delete a movement by its exact name.
    DelMove { name: String },
    /// `movements`: list every stored movement.
    Movements,
    /// `help`: print the usage text.
    Help,
    /// Anything else: an unknown verb or too few arguments, the empty
    /// argument list included. The surrounding program answers this case
    /// with the usage text instead of terminating abnormally.
    Invalid,
}

/// What `parse_command` returns for the argument list `args`, the program
/// name standing at position zero.
pub open spec fn spec_parse(args: Seq<String>) -> Command {
    if args.len() >= 6 && args[1]@ == "add"@ && args[2]@ == "move"@ {
        Command::AddMove {
            name: args[3],
            is_upper: spec_string_to_bool(args[4]@),
            require_weight: spec_string_to_bool(args[5]@),
        }
    } else if args.len() >= 4 && args[1]@ == "del"@ && args[2]@ == "move"@ {
        Command::DelMove { name: args[3] }
    } else if args.len() >= 2 && args[1]@ == "movements"@ {
        Command::Movements
    } else if args.len() >= 2 && args[1]@ == "help"@ {
        Command::Help
    } else {
        Command::Invalid
    }
}

/// Maps an argument list to the single command it selects. The boolean
/// arguments of `add move` are coerced with `string_to_bool`; extra
/// arguments beyond a matched pattern are ignored; everything that matches
/// no pattern — a missing verb included — parses to `Command::Invalid`.
pub fn parse_command(args: &Vec<String>) -> (c: Command)
    ensures
        c == spec_parse(args@),
{
    if args.len() >= 6 && str_eq(args[1].as_str(), "add") && str_eq(args[2].as_str(), "move") {
        Command::AddMove {
            name: args[3].clone(),
            is_upper: string_to_bool(args[4].as_str()),
            require_weight: string_to_bool(args[5].as_str()),
        }
    } else if args.len() >= 4 && str_eq(args[1].as_str(), "del") && str_eq(
        args[2].as_str(),
        "move",
    ) {
        Command::DelMove { name: args[3].clone() }
    } else if args.len() >= 2 && str_eq(args[1].as_str(), "movements") {
        Command::Movements
    } else if args.len() >= 2 && str_eq(args[1].as_str(), "help") {
        Command::Help
    } else {
        Command::Invalid
    }
}

} // verus!
