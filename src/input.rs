//! Keyboard state of the camera controller and the camera motions it asks for.

use vstd::prelude::*;

verus! {

/// The keys the camera controller reacts to; every other key is `Other`.
#[derive(Debug, Clone, Copy, PartialEq, Eq, Structural)]
pub enum KeyCode {
    Space,
    LShift,
    W,
    Up,
    A,
    Left,
    S,
    Down,
    D,
    Right,
    Other,
}

/// An event from the windowing layer.
#[derive(Debug, Clone, Copy, PartialEq, Eq, Structural)]
pub enum InputEvent {
    Quit,
    Resize { width: u32, height: u32 },
    KeyDown(KeyCode),
    KeyUp(KeyCode),
    Other,
}

/// A direction of movement that a key stands for.
#[derive(Debug, Clone, Copy, PartialEq, Eq, Structural)]
pub enum Movement {
    Up,
    Down,
    Forward,
    Backward,
    Left,
    Right,
}

/// A step that the camera takes in one update, by the controller's speed.
#[derive(Debug, Clone, Copy, PartialEq, Eq, Structural)]
pub enum CameraMotion {
    /// Move the eye toward the target.
    Forward,
    /// Move the eye away from the target.
    Backward,
    /// Orbit the eye around the target in the horizontal plane, one way.
    OrbitRight,
    /// Orbit the eye around the target in the horizontal plane, the other way.
    OrbitLeft,
}

pub open spec fn movement_of(key: KeyCode) -> Option<Movement> {
    match key {
        KeyCode::Space => Some(Movement::Up),
        KeyCode::LShift => Some(Movement::Down),
        KeyCode::W | KeyCode::Up => Some(Movement::Forward),
        KeyCode::A | KeyCode::Left => Some(Movement::Left),
        KeyCode::S | KeyCode::Down => Some(Movement::Backward),
        KeyCode::D | KeyCode::Right => Some(Movement::Right),
        KeyCode::Other => None,
    }
}

/// The movement that `key` stands for, if any.
pub fn key_movement(key: KeyCode) -> (r: Option<Movement>)
    ensures
        r == movement_of(key),
{
    match key {
        KeyCode::Space => Some(Movement::Up),
        KeyCode::LShift => Some(Movement::Down),
        KeyCode::W | KeyCode::Up => Some(Movement::Forward),
        KeyCode::A | KeyCode::Left => Some(Movement::Left),
        KeyCode::S | KeyCode::Down => Some(Movement::Backward),
        KeyCode::D | KeyCode::Right => Some(Movement::Right),
        KeyCode::Other => None,
    }
}

/// Which movement keys are held down.
#[derive(Debug, Clone, Copy, PartialEq, Eq, Structural)]
pub struct CameraController {
    pub is_up_pressed: bool,
    pub is_down_pressed: bool,
    pub is_forward_pressed: bool,
    pub is_backward_pressed: bool,
    pub is_left_pressed: bool,
    pub is_right_pressed: bool,
}

impl CameraController {
    /// `self` with the key of movement `m` marked `down` or released.
    pub open spec fn with_pressed(self, m: Movement, down: bool) -> CameraController {
        match m {
            Movement::Up => CameraController { is_up_pressed: down, ..self },
            Movement::Down => CameraController { is_down_pressed: down, ..self },
            Movement::Forward => CameraController { is_forward_pressed: down, ..self },
            Movement::Backward => CameraController { is_backward_pressed: down, ..self },
            Movement::Left => CameraController { is_left_pressed: down, ..self },
            Movement::Right => CameraController { is_right_pressed: down, ..self },
        }
    }

    /// The key state after `event`, and whether the controller consumed it.
    pub open spec fn after_event(self, event: InputEvent) -> (CameraController, bool) {
        match event {
            InputEvent::KeyDown(k) => match movement_of(k) {
                Some(m) => (self.with_pressed(m, true), true),
                None => (self, false),
            },
            InputEvent::KeyUp(k) => match movement_of(k) {
                Some(m) => (self.with_pressed(m, false), true),
                None => (self, false),
            },
            _ => (self, false),
        }
    }

    /// The motions of one camera update, in the order they are applied.
    pub open spec fn motions(self) -> Seq<CameraMotion> {
        (if self.is_forward_pressed {
            seq![CameraMotion::Forward]
        } else {
            Seq::empty()
        }) + (if self.is_backward_pressed {
            seq![CameraMotion::Backward]
        } else {
            Seq::empty()
        }) + (if self.is_right_pressed {
            seq![CameraMotion::OrbitRight]
        } else {
            Seq::empty()
        }) + (if self.is_left_pressed {
            seq![CameraMotion::OrbitLeft]
        } else {
            Seq::empty()
        })
    }

    /// A controller with no key held.
    pub fn new() -> (r: CameraController)
        ensures
            !r.is_up_pressed && !r.is_down_pressed && !r.is_forward_pressed
                && !r.is_backward_pressed && !r.is_left_pressed && !r.is_right_pressed,
    {
        CameraController {
            is_up_pressed: false,
            is_down_pressed: false,
            is_forward_pressed: false,
            is_backward_pressed: false,
            is_left_pressed: false,
            is_right_pressed: false,
        }
    }

    fn set_pressed(&mut self, m: Movement, down: bool)
        ensures
            *final(self) == old(self).with_pressed(m, down),
    {
        match m {
            Movement::Up => self.is_up_pressed = down,
            Movement::Down => self.is_down_pressed = down,
            Movement::Forward => self.is_forward_pressed = down,
            Movement::Backward => self.is_backward_pressed = down,
            Movement::Left => self.is_left_pressed = down,
            Movement::Right => self.is_right_pressed = down,
        }
    }

    /// Tracks a key press or release. Returns whether the event was a
    /// movement key, which the controller then consumed.
    pub fn process_events(&mut self, event: &InputEvent) -> (r: bool)
        ensures
            (*final(self), r) == old(self).after_event(*event),
    {
        match event {
            InputEvent::KeyDown(k) => match key_movement(*k) {
                Some(m) => {
                    self.set_pressed(m, true);
                    true
                },
                None => false,
            },
            InputEvent::KeyUp(k) => match key_movement(*k) {
                Some(m) => {
                    self.set_pressed(m, false);
                    true
                },
                None => false,
            },
            _ => false,
        }
    }

    /// The motions the held keys ask of the camera in this update.
    pub fn update_camera(&self) -> (r: Vec<CameraMotion>)
        ensures
            r@ == self.motions(),
    {
        let mut r: Vec<CameraMotion> = Vec::new();
        if self.is_forward_pressed {
            r.push(CameraMotion::Forward);
        }
        if self.is_backward_pressed {
            r.push(CameraMotion::Backward);
        }
        if self.is_right_pressed {
            r.push(CameraMotion::OrbitRight);
        }
        if self.is_left_pressed {
            r.push(CameraMotion::OrbitLeft);
        }
        assert(r@ =~= self.motions());
        r
    }
}

} // verus!
