//! What a controller decides: a direction for the paddle, and a speed.

use vstd::prelude::*;
use crate::scalar::{Double, DOUBLE_HALF, DOUBLE_ONE};

verus! {

/// The direction a controller asks the paddle to move in.
#[derive(Debug, Clone, Copy, PartialEq, Eq, Structural)]
pub enum PlayerDirection {
    Up,
    Down,
    Idle,
}

/// The pairs of keys a human can steer with.
#[derive(Debug, Clone, Copy, PartialEq, Eq, Structural)]
pub enum ControlKeys {
    Wasd,
    ArrowKeys,
}

/// A key of the keyboard that a human controller listens to.
#[derive(Debug, Clone, Copy, PartialEq, Eq, Structural)]
pub enum Key {
    W,
    S,
    Up,
    Down,
}

/// A controller steered from the keyboard.
#[derive(Debug, Clone, Copy)]
pub struct HumanController {
    control_keys: ControlKeys,
}

impl HumanController {
    /// The pair of keys this controller listens to.
    pub closed spec fn keys(&self) -> ControlKeys {
        self.control_keys
    }

    pub fn new(ctrl: ControlKeys) -> (controller: Self)
        ensures
            controller.keys() == ctrl,
    {
        HumanController { control_keys: ctrl }
    }

    /// The key that moves the paddle up, and the key that moves it down.
    pub fn bindings(&self) -> (keys: (Key, Key))
        ensures
            keys == (match self.keys() {
                ControlKeys::Wasd => (Key::W, Key::S),
                ControlKeys::ArrowKeys => (Key::Up, Key::Down),
            }),
    {
        match self.control_keys {
            ControlKeys::Wasd => (Key::W, Key::S),
            ControlKeys::ArrowKeys => (Key::Up, Key::Down),
        }
    }

    /// The decision for the current state of the two keys of
    /// [`HumanController::bindings`]: up wins over down, and the speed is
    /// always one.
    pub fn get_input(&self, up_is_down: bool, down_is_down: bool) -> (decision: (PlayerDirection, Double))
        ensures
            decision.0 == (if up_is_down {
                PlayerDirection::Up
            } else if down_is_down {
                PlayerDirection::Down
            } else {
                PlayerDirection::Idle
            }),
            decision.1 == (Double { bits: DOUBLE_ONE }),
    {
        let mut pd = PlayerDirection::Idle;
        if up_is_down {
            pd = PlayerDirection::Up;
        } else if down_is_down {
            pd = PlayerDirection::Down;
        }
        (pd, Double::one())
    }
}

/// How a network's outputs are read: channel 0 is the up signal, channel 1
/// the down signal, channel 2 the speed, returned as it is.
///
/// Both signals above one half cancel out. Otherwise an up signal below one
/// half means up, and failing that a down signal above one half means down.
pub open spec fn decoded_output(outputs: Seq<Double>) -> (PlayerDirection, Double) {
    let half = Double { bits: DOUBLE_HALF };
    let direction = if outputs[0].gt_spec(half) && outputs[1].gt_spec(half) {
        PlayerDirection::Idle
    } else if outputs[0].lt_spec(half) {
        PlayerDirection::Up
    } else if outputs[1].gt_spec(half) {
        PlayerDirection::Down
    } else {
        PlayerDirection::Idle
    };
    (direction, outputs[2])
}

/// Reads a decision off a network's outputs; see [`decoded_output`].
pub fn decode_output(outputs: &[Double]) -> (decision: (PlayerDirection, Double))
    requires
        outputs@.len() >= 3,
    ensures
        decision == decoded_output(outputs@),
{
    let half = Double::half();
    let mut direction = PlayerDirection::Idle;
    if outputs[0].gt(half) && outputs[1].gt(half) {
        direction = PlayerDirection::Idle;
    } else if outputs[0].lt(half) {
        direction = PlayerDirection::Up;
    } else if outputs[1].gt(half) {
        direction = PlayerDirection::Down;
    }
    (direction, outputs[2])
}

} // verus!
