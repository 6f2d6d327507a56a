//! What the player does, as a script may ask for it: by the names of actions and axes, never by
//! keys, so that keys can be bound anew without touching a script.

use crate::numbers::Real;
use crate::text;
use vstd::prelude::*;

verus! {

/// A point or a step on the screen.
#[derive(Debug, Clone, Copy, PartialEq, Eq, Structural)]
pub struct Vec2 {
    pub x: Real,
    pub y: Real,
}

impl Vec2 {
    #[verifier::allow_in_spec]
    pub fn zero() -> Vec2
        returns
            (Vec2 { x: Real::zero(), y: Real::zero() }),
    {
        Vec2 { x: Real::zero(), y: Real::zero() }
    }
}

/// An action that keys are bound to.
#[derive(Debug)]
pub struct ActionState {
    pub name: String,
    pub pressed: bool,
    /// It was not pressed in the frame before.
    pub just_pressed: bool,
    /// It was pressed in the frame before.
    pub just_released: bool,
}

/// An axis that keys are bound to.
#[derive(Debug)]
pub struct AxisState {
    pub name: String,
    pub value: Real,
}

/// The buttons that scripts know.
#[derive(Debug, Clone, Copy, PartialEq, Eq, Structural)]
pub enum MouseButton {
    Left,
    Right,
    Middle,
}

/// A mouse button.
#[derive(Debug, Clone, Copy, PartialEq, Eq, Structural)]
pub struct ButtonState {
    pub pressed: bool,
    /// It was not pressed in the frame before.
    pub just_pressed: bool,
}

/// A letter in lower case; only the letters from A to Z have one.
pub open spec fn lower(c: char) -> char {
    if 'A' <= c <= 'Z' {
        (c as u32 + 32) as char
    } else {
        c
    }
}

/// A text in lower case.
pub open spec fn lowered(t: Seq<char>) -> Seq<char> {
    Seq::new(t.len(), |i: int| lower(t[i]))
}

/// A text in lower case.
fn to_lower(t: &str) -> (result: String)
    ensures
        result@ == lowered(t@),
{
    let mut result = String::new();
    for c in it: t.chars()
        invariant
            it.seq() == t@,
            result@ == lowered(t@.take(it.index() as int)),
    {
        assert(lowered(t@.take(it.index() + 1)) =~= lowered(t@.take(it.index() as int)).push(
            lower(c),
        ));
        if 'A' <= c && c <= 'Z' {
            let code: u8 = c as u8 + 32;
            result.push(code as char);
        } else {
            result.push(c);
        }
    }
    assert(t@.take(t@.len() as int) =~= t@);
    result
}

impl MouseButton {
    /// The button of a name, in upper or lower case.
    pub open spec fn of(name: Seq<char>) -> Option<MouseButton> {
        if lowered(name) == "left"@ {
            Some(MouseButton::Left)
        } else if lowered(name) == "right"@ {
            Some(MouseButton::Right)
        } else if lowered(name) == "middle"@ {
            Some(MouseButton::Middle)
        } else {
            None
        }
    }

    /// The button of a name, in upper or lower case. A misspelt name is no button, rather than
    /// some other one.
    pub fn named(name: &str) -> (result: Option<MouseButton>)
        ensures
            result == MouseButton::of(name@),
    {
        let name = to_lower(name);
        if text::same_text(name.as_str(), "left") {
            Some(MouseButton::Left)
        } else if text::same_text(name.as_str(), "right") {
            Some(MouseButton::Right)
        } else if text::same_text(name.as_str(), "middle") {
            Some(MouseButton::Middle)
        } else {
            None
        }
    }
}

/// What the player does in a frame.
#[derive(Debug)]
pub struct Input {
    pub actions: Vec<ActionState>,
    pub axes: Vec<AxisState>,
    pub left: ButtonState,
    pub right: ButtonState,
    pub middle: ButtonState,
    /// Where the cursor is, once it was in the window.
    pub cursor: Option<Vec2>,
    /// How far the mouse was moved.
    pub moved: Vec2,
    /// How far the wheel was turned.
    pub scrolled: Vec2,
}

impl Input {
    /// Nothing is bound and nothing happens.
    pub open spec fn idle(self) -> bool {
        &&& self.actions@.len() == 0
        &&& self.axes@.len() == 0
        &&& !self.left.pressed && !self.left.just_pressed
        &&& !self.right.pressed && !self.right.just_pressed
        &&& !self.middle.pressed && !self.middle.just_pressed
        &&& self.cursor is None
        &&& self.moved == Vec2::zero()
        &&& self.scrolled == Vec2::zero()
    }

    /// Where the first action of a name stands, or behind the last one.
    pub open spec fn action_place(actions: Seq<ActionState>, name: Seq<char>) -> nat
        decreases actions.len(),
    {
        if actions.len() == 0 || actions[0].name@ == name {
            0
        } else {
            1 + Self::action_place(actions.drop_first(), name)
        }
    }

    /// Where the first axis of a name stands, or behind the last one.
    pub open spec fn axis_place(axes: Seq<AxisState>, name: Seq<char>) -> nat
        decreases axes.len(),
    {
        if axes.len() == 0 || axes[0].name@ == name {
            0
        } else {
            1 + Self::axis_place(axes.drop_first(), name)
        }
    }

    /// The first action of a name.
    pub open spec fn action(self, name: Seq<char>) -> Option<ActionState> {
        let place = Self::action_place(self.actions@, name);
        if place < self.actions@.len() {
            Some(self.actions@[place as int])
        } else {
            None
        }
    }

    pub open spec fn button(self, button: MouseButton) -> ButtonState {
        match button {
            MouseButton::Left => self.left,
            MouseButton::Right => self.right,
            MouseButton::Middle => self.middle,
        }
    }

    pub fn new() -> (result: Self)
        ensures
            result.idle(),
    {
        let up = ButtonState { pressed: false, just_pressed: false };
        Input {
            actions: Vec::new(),
            axes: Vec::new(),
            left: up,
            right: up,
            middle: up,
            cursor: None,
            moved: Vec2::zero(),
            scrolled: Vec2::zero(),
        }
    }

    fn find_action(&self, name: &str) -> (result: Option<&ActionState>)
        ensures
            result is Some <==> self.action(name@) is Some,
            result matches Some(state) ==> Some(*state) == self.action(name@),
    {
        let wanted = name.to_owned();
        let mut i: usize = 0;
        proof {
            assert(self.actions@.skip(0) =~= self.actions@);
        }
        while i < self.actions.len()
            invariant
                i <= self.actions@.len(),
                wanted@ == name@,
                Self::action_place(self.actions@, name@) == i + Self::action_place(
                    self.actions@.skip(i as int),
                    name@,
                ),
            decreases self.actions@.len() - i,
        {
            assert(self.actions@.skip(i as int).drop_first() =~= self.actions@.skip(i + 1));
            if self.actions[i].name == wanted {
                return Some(&self.actions[i]);
            }
            i += 1;
        }
        None
    }

    pub fn action_pressed(&self, name: &str) -> (result: bool)
        ensures
            result == (self.action(name@) matches Some(state) && state.pressed),
    {
        match self.find_action(name) {
            Some(state) => state.pressed,
            None => false,
        }
    }

    pub fn action_just_pressed(&self, name: &str) -> (result: bool)
        ensures
            result == (self.action(name@) matches Some(state) && state.just_pressed),
    {
        match self.find_action(name) {
            Some(state) => state.just_pressed,
            None => false,
        }
    }

    pub fn action_just_released(&self, name: &str) -> (result: bool)
        ensures
            result == (self.action(name@) matches Some(state) && state.just_released),
    {
        match self.find_action(name) {
            Some(state) => state.just_released,
            None => false,
        }
    }

    /// How far an axis is pushed; not at all, if nothing is bound to it.
    pub open spec fn axis_value(self, name: Seq<char>) -> Real {
        let place = Self::axis_place(self.axes@, name);
        if place < self.axes@.len() {
            self.axes@[place as int].value
        } else {
            Real::zero()
        }
    }

    pub fn axis(&self, name: &str) -> (result: Real)
        ensures
            result == self.axis_value(name@),
    {
        let wanted = name.to_owned();
        let mut i: usize = 0;
        proof {
            assert(self.axes@.skip(0) =~= self.axes@);
        }
        while i < self.axes.len()
            invariant
                i <= self.axes@.len(),
                wanted@ == name@,
                Self::axis_place(self.axes@, name@) == i + Self::axis_place(
                    self.axes@.skip(i as int),
                    name@,
                ),
            decreases self.axes@.len() - i,
        {
            assert(self.axes@.skip(i as int).drop_first() =~= self.axes@.skip(i + 1));
            if self.axes[i].name == wanted {
                return self.axes[i].value;
            }
            i += 1;
        }
        Real::zero()
    }

    pub fn mouse_pressed(&self, button: MouseButton) -> (result: bool)
        ensures
            result == self.button(button).pressed,
    {
        match button {
            MouseButton::Left => self.left.pressed,
            MouseButton::Right => self.right.pressed,
            MouseButton::Middle => self.middle.pressed,
        }
    }

    pub fn mouse_just_pressed(&self, button: MouseButton) -> (result: bool)
        ensures
            result == self.button(button).just_pressed,
    {
        match button {
            MouseButton::Left => self.left.just_pressed,
            MouseButton::Right => self.right.just_pressed,
            MouseButton::Middle => self.middle.just_pressed,
        }
    }

    pub fn cursor_position(&self) -> (result: Option<Vec2>)
        ensures
            result == self.cursor,
    {
        self.cursor
    }

    pub fn mouse_delta(&self) -> (result: Vec2)
        ensures
            result == self.moved,
    {
        self.moved
    }

    pub fn scroll_delta(&self) -> (result: Vec2)
        ensures
            result == self.scrolled,
    {
        self.scrolled
    }
}

impl Default for Input {
    fn default() -> (result: Self)
        ensures
            result.idle(),
    {
        Input::new()
    }
}

} // verus!
