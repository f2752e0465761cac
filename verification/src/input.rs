use vstd::prelude::*;

verus! {

/// The logical identity of a key as reported by the input backend.
#[derive(Clone, Copy, PartialEq, Eq, Structural, Debug)]
pub enum LogicalKey {
    Escape,
    Other(i32),
}

/// What happened to a key: pressed, released, or held down and repeating.
#[derive(Clone, Copy, PartialEq, Eq, Structural, Debug)]
pub enum KeyAction {
    Press,
    Release,
    Repeat,
}

/// A key event value: the logical key, the hardware scancode, and the
/// modifier bitset that was active when the event fired.
#[derive(Clone, Copy, PartialEq, Eq, Structural, Debug)]
pub struct Key {
    pub logical: LogicalKey,
    pub scancode: i32,
    pub modifiers: u32,
}

impl Key {
    /// Whether this key counts as Escape. Some input backends fail to map the
    /// Escape key to its logical identity and deliver it only through the raw
    /// scancode 9, so that scancode counts as Escape too, whatever the
    /// modifiers.
    pub open spec fn is_escape_spec(self) -> bool {
        self.logical is Escape || self.scancode == 9
    }

    pub fn is_escape(&self) -> (r: bool)
        ensures
            r == self.is_escape_spec(),
    {
        match self.logical {
            LogicalKey::Escape => true,
            LogicalKey::Other(_) => self.scancode == 9,
        }
    }
}

} // verus!
