use vstd::prelude::*;

use crate::pong::game_field::{Input, InputType};

verus! {

/// The direction of an input as the browser client sends it.
#[derive(Clone, Copy, Debug, PartialEq, Eq)]
pub enum InputTypeDTO {
    UP,
    DOWN,
}

impl InputTypeDTO {
    /// The direction this input names.
    pub open spec fn direction(self) -> InputType {
        match self {
            InputTypeDTO::UP => InputType::UP,
            InputTypeDTO::DOWN => InputType::DOWN,
        }
    }

    pub fn to_input_type(&self) -> (r: InputType)
        ensures
            r == self.direction(),
    {
        match self {
            InputTypeDTO::UP => InputType::UP,
            InputTypeDTO::DOWN => InputType::DOWN,
        }
    }
}

/// An input as the browser client sends it.
#[derive(Clone, Copy, Debug, PartialEq, Eq)]
pub struct InputDTO {
    pub input: InputTypeDTO,
    pub obj_id: u16,
}

impl InputDTO {
    pub fn to_input(&self) -> (r: Input)
        ensures
            r.input == self.input.direction(),
            r.obj_id == self.obj_id,
    {
        Input { input: self.input.to_input_type(), obj_id: self.obj_id }
    }
}

} // verus!
