use vstd::prelude::*;
use crate::components::Direction;
use crate::resource::MovementInput;
use crate::server::ClientRequest;

verus! {

/// The direction the held keys push in, one unit per axis: right minus left across, up
/// minus down along. Opposite keys cancel.
pub open spec fn spec_input_direction(input: MovementInput) -> (int, int) {
    ((if input.right { 1int } else { 0 }) - (if input.left { 1int } else { 0 }),
     (if input.up { 1int } else { 0 }) - (if input.down { 1int } else { 0 }))
}

/// The direction the held keys push in; the caller scales it to unit length and by the
/// acceleration.
pub fn input_direction(input: &MovementInput) -> (dir: (i8, i8))
    ensures
        (dir.0 as int, dir.1 as int) == spec_input_direction(*input),
{
    let mut x: i8 = 0;
    let mut y: i8 = 0;
    if input.right {
        x = x + 1;
    }
    if input.left {
        x = x - 1;
    }
    if input.up {
        y = y + 1;
    }
    if input.down {
        y = y - 1;
    }
    (x, y)
}

/// Whether the held keys push at all (the pushed direction is not zero).
pub fn is_pushed(input: &MovementInput) -> (pushed: bool)
    ensures
        pushed == (spec_input_direction(*input) != (0int, 0int)),
{
    let (x, y) = input_direction(input);
    x != 0 || y != 0
}

/// The way a character faces after the movement keys are read: up, down, left and right
/// win in that order; with no key held it keeps facing as it did.
pub open spec fn spec_facing(current: Direction, input: MovementInput) -> Direction {
    if input.up {
        Direction::Up
    } else if input.down {
        Direction::Down
    } else if input.left {
        Direction::Left
    } else if input.right {
        Direction::Right
    } else {
        current
    }
}

/// Turns a character by the movement keys held.
pub fn change_direction(direction: &mut Direction, input: &MovementInput)
    ensures
        *final(direction) == spec_facing(*old(direction), *input),
{
    if input.up {
        *direction = Direction::Up;
    } else if input.down {
        *direction = Direction::Down;
    } else if input.left {
        *direction = Direction::Left;
    } else if input.right {
        *direction = Direction::Right;
    }
}

/// Law: opposite keys cancel; holding left and right together pushes as neither does,
/// and likewise up and down.
pub proof fn lemma_opposite_keys_cancel(input: MovementInput)
    ensures
        spec_input_direction(MovementInput { left: true, right: true, ..input })
            == spec_input_direction(MovementInput { left: false, right: false, ..input }),
        spec_input_direction(MovementInput { up: true, down: true, ..input })
            == spec_input_direction(MovementInput { up: false, down: false, ..input }),
{
}

/// Law: each movement key alone pushes its own way, one unit: up `(0, 1)`, down
/// `(0, -1)`, left `(-1, 0)`, right `(1, 0)`; no key pushes nowhere. The across part
/// does not depend on up and down, nor the along part on left and right, so the push of
/// any keys is the push of the left/right keys plus the push of the up/down keys.
pub proof fn lemma_keys_push_their_way(input: MovementInput)
    ensures
        spec_input_direction(MovementInput { up: true, down: false, left: false, right: false }) == (0int, 1int),
        spec_input_direction(MovementInput { up: false, down: true, left: false, right: false }) == (0int, -1int),
        spec_input_direction(MovementInput { up: false, down: false, left: true, right: false }) == (-1int, 0int),
        spec_input_direction(MovementInput { up: false, down: false, left: false, right: true }) == (1int, 0int),
        spec_input_direction(MovementInput { up: false, down: false, left: false, right: false }) == (0int, 0int),
        spec_input_direction(input).0 == spec_input_direction(MovementInput { up: false, down: false, ..input }).0,
        spec_input_direction(input).1 == spec_input_direction(MovementInput { left: false, right: false, ..input }).1,
        spec_input_direction(MovementInput { up: false, down: false, ..input }).1 == 0,
        spec_input_direction(MovementInput { left: false, right: false, ..input }).0 == 0,
        spec_input_direction(input).0 == spec_input_direction(MovementInput { up: false, down: false, ..input }).0
            + spec_input_direction(MovementInput { left: false, right: false, ..input }).0,
        spec_input_direction(input).1 == spec_input_direction(MovementInput { up: false, down: false, ..input }).1
            + spec_input_direction(MovementInput { left: false, right: false, ..input }).1,
{
}

/// Law: a single movement key turns the character its own way, whatever way it faced;
/// with no key held it keeps facing as it did; and whenever up is held it faces up.
pub proof fn lemma_single_key_faces_its_way(current: Direction, input: MovementInput)
    ensures
        spec_facing(current, MovementInput { up: true, down: false, left: false, right: false }) == Direction::Up,
        spec_facing(current, MovementInput { up: false, down: true, left: false, right: false }) == Direction::Down,
        spec_facing(current, MovementInput { up: false, down: false, left: true, right: false }) == Direction::Left,
        spec_facing(current, MovementInput { up: false, down: false, left: false, right: true }) == Direction::Right,
        spec_facing(current, MovementInput { up: false, down: false, left: false, right: false }) == current,
        input.up ==> spec_facing(current, input) == Direction::Up,
{
}

impl MovementInput {
    /// The message that reports these keys to the server.
    pub fn make_msg(&self) -> (m: ClientRequest)
        ensures
            m == (ClientRequest::MovementInput { up: self.up, left: self.left, right: self.right, down: self.down }),
    {
        ClientRequest::MovementInput { up: self.up, down: self.down, left: self.left, right: self.right }
    }
}

impl Direction {
    /// The message that reports this facing to the server.
    pub fn make_msg(&self) -> (m: ClientRequest)
        ensures
            m == ClientRequest::Direction(*self),
    {
        ClientRequest::Direction(*self)
    }
}

} // verus!
