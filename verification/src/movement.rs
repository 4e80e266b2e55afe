//! The movement record: a named exercise with two boolean attributes.

use vstd::prelude::*;

verus! {

/// The identifier given to every newly built movement. The tool never
/// assigns fresh identifiers: each insert asks for this same value, so a
/// second insert into a non-empty table collides with the primary key.
pub const PLACEHOLDER_ID: i32 = 1;

/// A named exercise definition. `is_upper` says whether it targets the
/// upper body; `require_weight` says whether an external weight is needed.
#[derive(Debug, Clone)]
pub struct Movement {
    pub id: i32,
    pub name: String,
    pub is_upper: bool,
    pub require_weight: bool,
}

impl Movement {
    /// Builds a movement carrying the fixed placeholder identifier, as the
    /// `add move` command does.
    pub fn with_placeholder_id(name: String, is_upper: bool, require_weight: bool) -> (m: Movement)
        ensures
            m.id == PLACEHOLDER_ID,
            m.name == name,
            m.is_upper == is_upper,
            m.require_weight == require_weight,
    {
        Movement { id: PLACEHOLDER_ID, name, is_upper, require_weight }
    }
}

} // verus!
