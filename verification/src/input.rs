//! What the keyboard asks of the drawing overlay.
use vstd::prelude::*;

verus! {

/// The drawing command that the held keys select.
#[derive(PartialEq, Eq, Structural, Clone, Copy, Debug)]
pub enum Command {
    Nothing,
    Drawing,
    EraseAll,
}

/// The command for the keys held: the left meta key draws, else the right
/// meta key erases everything, else nothing.
pub fn get_command(left_meta: bool, right_meta: bool) -> (c: Command)
    ensures
        c == (if left_meta {
            Command::Drawing
        } else if right_meta {
            Command::EraseAll
        } else {
            Command::Nothing
        }),
{
    if left_meta {
        Command::Drawing
    } else if right_meta {
        Command::EraseAll
    } else {
        Command::Nothing
    }
}

} // verus!
