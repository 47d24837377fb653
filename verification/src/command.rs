use vstd::prelude::*;

use crate::errors::ErrorWrapper;
use crate::input::Action;

verus! {

/// A way for an action to be carried out on the game state, driven by inputs of type `Input`.
pub trait Command<Input> {
    fn can_handle_action(&self, action: Action) -> bool;

    fn start(&mut self) -> Result<(), ErrorWrapper>;

    fn handle_input(&mut self, input: Option<&Input>) -> Result<(), ErrorWrapper>;
}

/// The inputs of the command that opens a container.
#[derive(Copy, Clone, PartialEq, Eq, Structural, Debug)]
pub enum OpenContainerEvent {
    MoveUp,
    MoveDown,
    ToggleSelection,
}

/// Whether the character view is building a new character or showing one.
#[derive(Copy, Clone, PartialEq, Eq, Structural, Debug)]
pub enum ViewMode {
    CREATION,
    VIEW,
}

} // verus!
