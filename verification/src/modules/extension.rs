//! A module whose contents come from another process.
//!
//! All this holds is the last frame the program sent and whether it is there to
//! be told anything.
use crate::extension::{Cell, Command, Frame};
use vstd::prelude::*;
use vstd::string::*;

verus! {

/// What happens to an extension.
#[derive(Debug, Clone)]
pub enum Event {
    /// The program is up and can be told things.
    Started,
    Frame(Frame),
    /// The program exited or could not be started.
    Stopped,
    /// A popup button was pressed; the extension decides what it means.
    Press(String),
}

#[derive(Debug, Clone)]
pub struct State {
    /// Name-table index of this module's config name.
    pub index: u32,
    /// Program and arguments. Changing them restarts the process.
    pub command: Vec<String>,
    pub frame: Option<Frame>,
    /// Whether the program is there to be told things.
    pub running: bool,
    /// Whether this module's popup is on screen. Kept here because the
    /// extension has to be *told*, and a restart has to be told again.
    pub open: bool,
}

/// The last frame after an event: an extension being restarted is not a reason
/// to make the bar jump.
pub open spec fn frame_after(frame: Option<Frame>, event: Event) -> Option<Frame> {
    match event {
        Event::Frame(frame) => Some(frame),
        _ => frame,
    }
}

pub open spec fn running_after(running: bool, event: Event) -> bool {
    match event {
        Event::Started => true,
        Event::Stopped => false,
        _ => running,
    }
}

/// What the program is told on an event. A fresh process knows nothing about
/// the popup it may have been restarted underneath.
pub open spec fn told_on(state: State, event: Event) -> Option<Command> {
    match event {
        Event::Started => Some(Command::Popup { popup: state.open }),
        Event::Press(action) => if state.running {
            Some(Command::Action { action })
        } else {
            None
        },
        _ => None,
    }
}

/// The state after an event.
pub open spec fn after(state: State, event: Event) -> State {
    State {
        frame: frame_after(state.frame, event),
        running: running_after(state.running, event),
        ..state
    }
}

/// What the program is told when its popup opens or closes.
pub open spec fn told_of(state: State, open: bool) -> Option<Command> {
    if state.open != open && state.running {
        Some(Command::Popup { popup: open })
    } else {
        None
    }
}

impl State {
    pub fn new(index: u32, command: Vec<String>) -> (r: State)
        ensures
            r == (State { index, command, frame: None, running: false, open: false }),
    {
        State { index, command, frame: None, running: false, open: false }
    }

    /// Adopt a reloaded config's command.
    pub fn set_command(&mut self, command: Vec<String>)
        ensures
            *final(self) == (State { command, ..*old(self) }),
    {
        self.command = command;
    }

    /// Note what happened; what the program is to be told, if anything.
    pub fn update(&mut self, event: Event) -> (tell: Option<Command>)
        ensures
            *final(self) == after(*old(self), event),
            tell == told_on(*old(self), event),
    {
        match event {
            Event::Started => {
                self.running = true;
                Some(Command::Popup { popup: self.open })
            },
            Event::Frame(frame) => {
                self.frame = Some(frame);
                None
            },
            Event::Stopped => {
                self.running = false;
                None
            },
            Event::Press(action) => self.send(Command::Action { action }),
        }
    }

    /// Note whether the popup is on screen; what the program is to be told, so
    /// detail nothing can see is never gathered.
    pub fn set_open(&mut self, open: bool) -> (tell: Option<Command>)
        ensures
            *final(self) == (State { open, ..*old(self) }),
            tell == told_of(*old(self), open),
    {
        if self.open == open {
            return None;
        }
        self.open = open;
        self.send(Command::Popup { popup: open })
    }

    fn send(&self, command: Command) -> (tell: Option<Command>)
        ensures
            tell == if self.running {
                Some(command)
            } else {
                None
            },
    {
        if self.running {
            Some(command)
        } else {
            None
        }
    }

    /// The bar cell; none hides the module.
    pub fn cell(&self) -> (r: Option<&Cell>)
        ensures
            match r {
                Some(cell) => self.frame matches Some(frame) && frame.cell == Some(*cell),
                None => match self.frame {
                    Some(frame) => frame.cell is None,
                    None => true,
                },
            },
    {
        match &self.frame {
            Some(frame) => match &frame.cell {
                Some(cell) => Some(cell),
                None => None,
            },
            None => None,
        }
    }

    /// A frame with nothing in its popup is a cell that does not click.
    pub open spec fn pops_up(self) -> bool {
        match self.frame {
            Some(frame) => frame.header is Some || frame.popup@.len() > 0,
            None => false,
        }
    }

    /// The frame that the popup draws.
    pub fn popup(&self) -> (r: Option<&Frame>)
        ensures
            r is Some <==> self.pops_up(),
            r matches Some(frame) ==> self.frame == Some(*frame),
    {
        match &self.frame {
            Some(frame) => if frame.header.is_some() || frame.popup.len() > 0 {
                Some(frame)
            } else {
                None
            },
            None => None,
        }
    }

    pub fn has_popup(&self) -> (r: bool)
        ensures
            r == self.pops_up(),
    {
        match &self.frame {
            Some(frame) => frame.header.is_some() || frame.popup.len() > 0,
            None => false,
        }
    }
}

/// What a program holds its popup's state to be, once it has been told
/// something.
pub open spec fn believed_after(believed: Option<bool>, tell: Option<Command>) -> Option<bool> {
    match tell {
        Some(Command::Popup { popup }) => Some(popup),
        _ => believed,
    }
}

/// A running program always knows whether its popup is on screen: whatever
/// happens, a restart in between included, it has been told last what the
/// state holds.
pub proof fn law_program_knows_its_popup(
    state: State,
    believed: Option<bool>,
    event: Event,
    open: bool,
)
    requires
        state.running ==> believed == Some(state.open),
    ensures
        ({
            let next = after(state, event);
            next.running ==> believed_after(believed, told_on(state, event)) == Some(next.open)
        }),
        ({
            let next = State { open, ..state };
            next.running ==> believed_after(believed, told_of(state, open)) == Some(next.open)
        }),
{
}

} // verus!
