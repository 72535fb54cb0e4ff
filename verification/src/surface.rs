//! How a clickable surface follows the pointer.
use vstd::prelude::*;

verus! {

/// What the pointer does, and whether it does it over the surface.
#[derive(Debug, Clone, Copy, PartialEq, Eq, Structural)]
pub enum Motion {
    Moved { over: bool },
    /// The pointer left, which is the only notice that it is gone.
    Left,
    Pressed { over: bool },
    /// Wherever a release lands.
    Released,
}

/// The pointer as a cell knows it.
#[derive(Debug, Clone, Copy, PartialEq, Eq, Structural)]
pub struct Touch {
    /// The pointer is inside.
    pub inside: bool,
    /// The button is held after landing inside.
    pub down: bool,
}

/// Which fades to start, and towards what.
#[derive(Debug, Clone, Copy, PartialEq, Eq, Structural)]
pub struct Fades {
    pub hover: Option<bool>,
    pub press: Option<bool>,
}

pub open spec fn touched(t: Touch, motion: Motion) -> Touch {
    match motion {
        Motion::Moved { over } => Touch { inside: over, down: t.down && (over || !t.inside) },
        Motion::Left => Touch { inside: false, down: t.down && !t.inside },
        Motion::Pressed { over } => Touch { inside: t.inside, down: t.down || over },
        Motion::Released => Touch { inside: t.inside, down: false },
    }
}

/// A fade for each thing that changed, and none for what did not.
pub open spec fn fades_of(t: Touch, u: Touch) -> Fades {
    Fades {
        hover: if t.inside != u.inside {
            Some(u.inside)
        } else {
            None
        },
        press: if t.down != u.down {
            Some(u.down)
        } else {
            None
        },
    }
}

impl Touch {
    pub fn new() -> (r: Touch)
        ensures
            !r.inside,
            !r.down,
    {
        Touch { inside: false, down: false }
    }

    /// Follow the pointer.
    pub fn follow(&mut self, motion: Motion) -> (r: Fades)
        ensures
            *final(self) == touched(*old(self), motion),
            r == fades_of(*old(self), *final(self)),
    {
        let mut fades = Fades { hover: None, press: None };
        match motion {
            Motion::Moved { over } => {
                self.enter(over, &mut fades);
            },
            Motion::Left => {
                self.enter(false, &mut fades);
            },
            Motion::Pressed { over } => {
                if over && !self.down {
                    self.down = true;
                    fades.press = Some(true);
                }
            },
            Motion::Released => {
                if self.down {
                    self.down = false;
                    fades.press = Some(false);
                }
            },
        }
        fades
    }

    fn enter(&mut self, inside: bool, fades: &mut Fades)
        requires
            old(fades).hover is None,
            old(fades).press is None,
        ensures
            *final(self) == touched(*old(self), Motion::Moved { over: inside }),
            *final(fades) == fades_of(*old(self), *final(self)),
    {
        if inside != self.inside {
            self.inside = inside;
            fades.hover = Some(inside);
            // A pointer that leaves in the middle of a press is not pressing.
            if !inside && self.down {
                self.down = false;
                fades.press = Some(false);
            }
        }
    }
}

/// After the pointer went out of a cell, or the button was let go, the cell is
/// not held.
pub proof fn law_no_press_without_a_pointer(t: Touch)
    ensures
        !touched(t, Motion::Released).down,
        t.inside ==> !touched(t, Motion::Left).down,
        t.inside ==> !touched(t, Motion::Moved { over: false }).down,
        !touched(t, Motion::Left).inside,
        !t.down ==> !touched(t, Motion::Pressed { over: false }).down,
{
}

/// Where the pointer is, by a surface's own events.
#[derive(Debug, Clone, Copy)]
pub enum Seen<P> {
    /// No event yet: whatever the runtime says counts.
    Unseen,
    /// Where the last motion was.
    At(P),
    /// The pointer left.
    Gone,
}

impl<P: Copy> Seen<P> {
    /// The pointer as the surface's content is to see it: where the surface was
    /// last told, not where the runtime last had it.
    pub fn shown(&self, cursor: Option<P>) -> (r: Option<P>)
        ensures
            r == match *self {
                Seen::Unseen => cursor,
                Seen::At(position) => Some(position),
                Seen::Gone => None,
            },
    {
        match self {
            Seen::Unseen => cursor,
            Seen::At(position) => Some(*position),
            Seen::Gone => None,
        }
    }

    /// Follow the pointer: to a position, or out of the surface.
    pub fn follow(&mut self, position: Option<P>)
        ensures
            *final(self) == match position {
                Some(position) => Seen::At(position),
                None => Seen::Gone,
            },
    {
        *self = match position {
            Some(position) => Seen::At(position),
            None => Seen::Gone,
        };
    }
}

} // verus!
