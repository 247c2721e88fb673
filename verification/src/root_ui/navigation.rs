//! What the navigation surface is given to draw.

use vstd::prelude::*;

verus! {

/// One visible candidate: its text, where the query matched in it (character
/// positions), and whether it is the selected one.
#[derive(Clone, PartialEq, Eq, Debug)]
pub struct RowInput {
    pub text: String,
    pub positions: Vec<usize>,
    pub selected: bool,
}

/// Which role each text run wants, index-aligned with the runs: the rows
/// first, then the query line, then the counter.
pub fn text_roles(rows: usize) -> (roles: Vec<&'static str>)
    requires
        rows <= usize::MAX - 2,
    ensures
        roles@.len() == rows + 2,
        forall|i: int| 0 <= i <= rows ==> (#[trigger] roles@[i])@ == "on_surface"@,
        roles@[rows + 1]@ == "on_surface_muted"@,
{
    let mut roles: Vec<&'static str> = Vec::new();
    while roles.len() < rows
        invariant
            roles@.len() <= rows,
            forall|i: int| 0 <= i < roles@.len() ==> (#[trigger] roles@[i])@ == "on_surface"@,
        decreases rows - roles@.len(),
    {
        roles.push("on_surface");
    }
    roles.push("on_surface");
    roles.push("on_surface_muted");
    roles
}

} // verus!
