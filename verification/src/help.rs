//! The tool's fixed metadata and its static usage text.

use vstd::prelude::*;

verus! {

/// The name the tool announces in its usage text.
pub const PROGRAM_NAME: &'static str = "LIFT_CLI";

/// The fixed name of the database file every operation opens.
pub const DB_FILE_NAME: &'static str = "lift_data.db";

/// The author named in the usage text.
pub const AUTHOR_NAME: &'static str = "Jake Goodwin";

/// The full usage text, word for word.
pub open spec fn spec_help_text() -> Seq<char> {
    "Program Name: LIFT_CLI\nDataBase File: lift_data.db\nAuthor: Jake Goodwin\n\nDescription:\nLift is a command line interface program for keeping track of different kinds of movements and lift data.\n\nOPTIONS:\n\nadd: usage --> lift add move <name> <is_upper true/false> <require_weight true/false>\nAdds a movement to the database for future use.\n\nmovements: usage --> lift movements\nShows all the movements in the database.\n\ndel: usage --> lift del move <name>\nRemoves a movement from the database using its name.\n\nundo: usage --> lift undo\nreverts the database back before the last run command.\n"@
}

/// The static usage text: it names the program, the database file, the
/// author, and each verb with an example.
pub fn help_text() -> (r: String)
    ensures
        r@ == spec_help_text(),
{
    let text: &str =
        "Program Name: LIFT_CLI\nDataBase File: lift_data.db\nAuthor: Jake Goodwin\n\nDescription:\nLift is a command line interface program for keeping track of different kinds of movements and lift data.\n\nOPTIONS:\n\nadd: usage --> lift add move <name> <is_upper true/false> <require_weight true/false>\nAdds a movement to the database for future use.\n\nmovements: usage --> lift movements\nShows all the movements in the database.\n\ndel: usage --> lift del move <name>\nRemoves a movement from the database using its name.\n\nundo: usage --> lift undo\nreverts the database back before the last run command.\n";
    String::from_str(text)
}

} // verus!
