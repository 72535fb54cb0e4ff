//! Idle inhibitor module: keep the session awake while engaged.
use vstd::prelude::*;
use vstd::string::*;

verus! {

/// An open eye.
pub const ENGAGED: &'static str = "\u{f0208}";

/// A crossed-out eye.
pub const RELEASED: &'static str = "\u{f0209}";

#[derive(Debug, Clone)]
pub enum Event {
    Toggle,
    /// The lock was granted.
    Engaged,
    Failed(String),
}

/// What is to be done about the lock.
#[derive(Debug, Clone, Copy, PartialEq, Eq, Structural)]
pub enum Effect {
    Nothing,
    /// Ask for it.
    Inhibit,
    /// Keep it.
    Hold,
    /// Let it go.
    Release,
}

#[derive(Debug, Clone)]
pub struct State {
    /// Whether the lock is held.
    pub held: bool,
    /// A request is in flight; further clicks are ignored until it lands.
    pub pending: bool,
    pub error: Option<String>,
}

pub open spec fn after(s: State, event: Event) -> State {
    match event {
        Event::Toggle => if s.pending {
            s
        } else if s.held {
            State { held: false, pending: false, error: None }
        } else {
            State { held: false, pending: true, error: None }
        },
        Event::Engaged => State { held: true, pending: false, ..s },
        Event::Failed(error) => State { pending: false, error: Some(error), ..s },
    }
}

pub open spec fn effect_of(s: State, event: Event) -> Effect {
    match event {
        Event::Toggle => if s.pending {
            Effect::Nothing
        } else if s.held {
            Effect::Release
        } else {
            Effect::Inhibit
        },
        Event::Engaged => Effect::Hold,
        Event::Failed(_) => Effect::Nothing,
    }
}

/// What the colour of the cell tells. Holding the lock is the loud state.
#[derive(Debug, Clone, Copy, PartialEq, Eq, Structural)]
pub enum Mood {
    Failed,
    Held,
    Idle,
}

impl State {
    pub fn new() -> (r: State)
        ensures
            r == (State { held: false, pending: false, error: None }),
    {
        State { held: false, pending: false, error: None }
    }

    pub fn update(&mut self, event: Event) -> (r: Effect)
        ensures
            *final(self) == after(*old(self), event),
            r == effect_of(*old(self), event),
    {
        match event {
            Event::Toggle => {
                if self.pending {
                    return Effect::Nothing;
                }
                self.error = None;
                if self.held {
                    self.held = false;
                    Effect::Release
                } else {
                    self.pending = true;
                    Effect::Inhibit
                }
            },
            Event::Engaged => {
                self.pending = false;
                self.held = true;
                Effect::Hold
            },
            Event::Failed(error) => {
                self.pending = false;
                self.error = Some(error);
                Effect::Nothing
            },
        }
    }

    /// Whether there is a popup: never, for a click is the toggle.
    pub open spec fn pops_up(self) -> bool {
        false
    }

    pub fn has_popup(&self) -> (r: bool)
        ensures
            r == self.pops_up(),
    {
        false
    }

    /// How the cell looks.
    pub fn mood(&self) -> (r: Mood)
        ensures
            r == if self.error is Some {
                Mood::Failed
            } else if self.held {
                Mood::Held
            } else {
                Mood::Idle
            },
    {
        if self.error.is_some() {
            Mood::Failed
        } else if self.held {
            Mood::Held
        } else {
            Mood::Idle
        }
    }

    /// The glyph of the cell.
    pub fn glyph(&self) -> (r: &'static str)
        ensures
            r@ == if self.error is None && self.held {
                ENGAGED@
            } else {
                RELEASED@
            },
    {
        if self.error.is_none() && self.held {
            ENGAGED
        } else {
            RELEASED
        }
    }
}

/// Clicks while a request is in flight do nothing: there is one request at a
/// time.
pub proof fn law_one_request_at_a_time(s: State)
    ensures
        effect_of(s, Event::Toggle) == Effect::Inhibit ==> after(s, Event::Toggle).pending
            && effect_of(after(s, Event::Toggle), Event::Toggle) == Effect::Nothing && after(
            after(s, Event::Toggle),
            Event::Toggle,
        ) == after(s, Event::Toggle),
{
}

/// A lock that was granted is let go by the next click, and asked for again by
/// the one after it.
pub proof fn law_toggling_holds_and_releases(s: State)
    requires
        !s.pending,
        !s.held,
    ensures
        ({
            let asked = after(s, Event::Toggle);
            let held = after(asked, Event::Engaged);
            let free = after(held, Event::Toggle);
            &&& effect_of(s, Event::Toggle) == Effect::Inhibit
            &&& held.held
            &&& effect_of(held, Event::Toggle) == Effect::Release
            &&& !free.held
            &&& effect_of(free, Event::Toggle) == Effect::Inhibit
        }),
{
}

} // verus!
