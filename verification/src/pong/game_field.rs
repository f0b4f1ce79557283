use vstd::prelude::*;

verus! {

/// A player's input: move up or down.
#[derive(Clone, Copy, Debug, PartialEq, Eq)]
pub enum InputType {
    UP,
    DOWN,
}

/// An input for the game object `obj_id`.
#[derive(Clone, Copy, Debug, PartialEq, Eq)]
pub struct Input {
    pub input: InputType,
    pub obj_id: u16,
}

/// The first input in `inputs` for the game object `obj_id`, if any.
pub open spec fn first_input(inputs: Seq<Input>, obj_id: u16) -> Option<Input>
    decreases inputs.len(),
{
    if inputs.len() == 0 {
        None
    } else if inputs[0].obj_id == obj_id {
        Some(inputs[0])
    } else {
        first_input(inputs.skip(1), obj_id)
    }
}

/// Finds the input that steers the game object `obj_id` in this tick: the first one for it.
pub fn find_input(inputs: &Vec<Input>, obj_id: u16) -> (r: Option<Input>)
    ensures
        r == first_input(inputs@, obj_id),
{
    let mut k: usize = 0;
    proof {
        assert(inputs@.skip(0) == inputs@);
    }
    while k < inputs.len()
        invariant
            0 <= k <= inputs@.len(),
            first_input(inputs@, obj_id) == first_input(inputs@.skip(k as int), obj_id),
        decreases inputs@.len() - k,
    {
        proof {
            assert(inputs@.skip(k as int)[0] == inputs@[k as int]);
            assert(inputs@.skip(k as int).skip(1) == inputs@.skip(k + 1));
        }
        if inputs[k].obj_id == obj_id {
            return Some(inputs[k]);
        }
        k = k + 1;
    }
    proof {
        assert(inputs@.skip(k as int).len() == 0);
    }
    None
}

} // verus!
