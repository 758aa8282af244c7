//! Input abstractions: the RetroPad keys and the mapping from the numeric
//! ids the protocol carries.

use vstd::prelude::*;

verus! {

/// Keys that can be pressed on a controller/"RetroPad".
#[derive(Debug, Clone, Copy, PartialEq, Eq, Structural)]
pub enum InputKey {
    A,
    B,
    X,
    Y,
    Select,
    Start,
    Up,
    Down,
    Left,
    Right,
    L,
    R,
    L2,
    R2,
    L3,
    R3,
}

/// The key an `InputState` query's id names.
pub open spec fn spec_key_from_id(id: u32) -> Option<InputKey> {
    if id == 0 {
        Some(InputKey::B)
    } else if id == 1 {
        Some(InputKey::Y)
    } else if id == 2 {
        Some(InputKey::Select)
    } else if id == 3 {
        Some(InputKey::Start)
    } else if id == 4 {
        Some(InputKey::Up)
    } else if id == 5 {
        Some(InputKey::Down)
    } else if id == 6 {
        Some(InputKey::Left)
    } else if id == 7 {
        Some(InputKey::Right)
    } else if id == 8 {
        Some(InputKey::A)
    } else if id == 9 {
        Some(InputKey::X)
    } else if id == 10 {
        Some(InputKey::L)
    } else if id == 11 {
        Some(InputKey::R)
    } else if id == 12 {
        Some(InputKey::L2)
    } else if id == 13 {
        Some(InputKey::R2)
    } else if id == 14 {
        Some(InputKey::L3)
    } else if id == 15 {
        Some(InputKey::R3)
    } else {
        None
    }
}

/// Maps an `InputState` query's id to the key it names.
pub fn key_from_id(id: u32) -> (r: Option<InputKey>)
    ensures
        r == spec_key_from_id(id),
{
    Some(
        match id {
            0 => InputKey::B,
            1 => InputKey::Y,
            2 => InputKey::Select,
            3 => InputKey::Start,
            4 => InputKey::Up,
            5 => InputKey::Down,
            6 => InputKey::Left,
            7 => InputKey::Right,
            8 => InputKey::A,
            9 => InputKey::X,
            10 => InputKey::L,
            11 => InputKey::R,
            12 => InputKey::L2,
            13 => InputKey::R2,
            14 => InputKey::L3,
            15 => InputKey::R3,
            _ => {
                return None;
            },
        },
    )
}

/// Describes an input backend implementation.
#[derive(Debug)]
pub struct InputBackendInfo {
    pub name: &'static str,
}

/// An input backend: polls the devices and answers key queries.
pub trait InputBackend {
    fn poll_events(&mut self);

    fn is_key_down(&self, key: &InputKey) -> bool;
}

} // verus!
