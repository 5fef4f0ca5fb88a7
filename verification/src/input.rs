//! What the application is told when a key is pressed or released, a signal
//! arrives, or the listener delivers an item.

use crate::app::Message;
use crate::wayland::WaylandEvent;
use vstd::prelude::*;

verus! {

/// A key, as far as the overlay tells keys apart.
#[derive(Clone, Copy, Debug, PartialEq, Eq, Structural)]
pub enum Key {
    Tab,
    Enter,
    Escape,
    Alt,
    Shift,
    Ctrl,
    Super,
    Other,
}

/// Which modifiers are held.
#[derive(Clone, Copy, Debug, PartialEq, Eq, Structural)]
pub struct Modifiers {
    pub alt: bool,
    pub shift: bool,
    pub ctrl: bool,
    pub logo: bool,
}

impl Modifiers {
    /// The key is that of a modifier which is held.
    pub open spec fn holds(self, key: Key) -> bool {
        match key {
            Key::Alt => self.alt,
            Key::Shift => self.shift,
            Key::Ctrl => self.ctrl,
            Key::Super => self.logo,
            _ => false,
        }
    }

    /// No modifier is held.
    pub open spec fn none_held(self) -> bool {
        forall|key: Key| !self.holds(key)
    }

    /// Whether the key is that of a modifier which is held.
    pub fn contains(&self, key: Key) -> (r: bool)
        ensures
            r == self.holds(key),
    {
        match key {
            Key::Alt => self.alt,
            Key::Shift => self.shift,
            Key::Ctrl => self.ctrl,
            Key::Super => self.logo,
            _ => false,
        }
    }

    /// Whether no modifier is held.
    pub fn is_empty(&self) -> (r: bool)
        ensures
            r == self.none_held(),
    {
        assert(self.holds(Key::Alt) == self.alt && self.holds(Key::Shift) == self.shift
            && self.holds(Key::Ctrl) == self.ctrl && self.holds(Key::Super) == self.logo);
        !self.alt && !self.shift && !self.ctrl && !self.logo
    }
}

/// An event of the overlay's surface.
#[derive(Clone, Copy, Debug, PartialEq, Eq, Structural)]
pub enum InputEvent {
    /// A key goes down; `shift` says whether Shift is held.
    KeyPressed { key: Key, shift: bool },
    /// A key goes up.
    KeyReleased { key: Key },
    /// These modifiers are held. It comes when the surface gains keyboard
    /// focus, and at each later change.
    ModifiersChanged(Modifiers),
    Other,
}

/// A signal that the application listens for.
#[derive(Clone, Copy, Debug, PartialEq, Eq, Structural)]
pub enum Signal {
    /// `SIGUSR1`.
    User1,
    /// `SIGUSR2`.
    User2,
}

/// Whether releasing a key commits: that of Alt does, and that of any modifier
/// that was held when the overlay first gained keyboard focus.
pub open spec fn commits_on_release(key: Key, held: Option<Modifiers>) -> bool {
    key == Key::Alt || (held matches Some(m) && m.holds(key))
}

/// The message that an input event stands for, where `held` are the modifiers
/// that were held when the overlay first gained keyboard focus.
pub open spec fn message_of_input<H>(event: InputEvent, held: Option<Modifiers>) -> Option<
    Message<H>,
> {
    match event {
        InputEvent::KeyPressed { key: Key::Tab, shift: false } => Some(Message::<H>::CycleNext),
        InputEvent::KeyPressed { key: Key::Tab, shift: true } => Some(Message::<H>::CyclePrev),
        InputEvent::KeyPressed { key: Key::Enter, .. } => Some(Message::<H>::Confirm),
        InputEvent::KeyPressed { key: Key::Escape, .. } => Some(Message::<H>::Cancel),
        InputEvent::KeyReleased { key } => if commits_on_release(key, held) {
            Some(Message::<H>::Confirm)
        } else {
            None
        },
        InputEvent::ModifiersChanged(m) => Some(Message::<H>::ModifiersHeld(m)),
        _ => None,
    }
}

/// The message that a signal stands for.
pub open spec fn message_of_signal<H>(signal: Signal) -> Message<H> {
    match signal {
        Signal::User1 => Message::CycleNext,
        Signal::User2 => Message::CyclePrev,
    }
}

/// The message for an input event: Tab cycles forward and Shift+Tab backward,
/// Enter commits and Escape cancels. The release of Alt, or of any modifier
/// among `held`, commits too. `held` are the modifiers that were held when
/// the overlay first gained keyboard focus.
pub fn input_message<H>(event: InputEvent, held: Option<Modifiers>) -> (r: Option<Message<H>>)
    ensures
        r == message_of_input::<H>(event, held),
{
    match event {
        InputEvent::KeyPressed { key, shift } => match key {
            Key::Tab => if shift {
                Some(Message::CyclePrev)
            } else {
                Some(Message::CycleNext)
            },
            Key::Enter => Some(Message::Confirm),
            Key::Escape => Some(Message::Cancel),
            _ => None,
        },
        InputEvent::KeyReleased { key } => {
            let was_held = match held {
                Some(m) => m.contains(key),
                None => false,
            };
            if key == Key::Alt || was_held {
                Some(Message::Confirm)
            } else {
                None
            }
        },
        InputEvent::ModifiersChanged(m) => Some(Message::ModifiersHeld(m)),
        InputEvent::Other => None,
    }
}

/// The message for a signal. `None` as the signal stands for the end of all
/// signals, after which there is no message.
pub fn signal_message<H>(signal: Option<Signal>) -> (r: Option<Message<H>>)
    ensures
        r == match signal {
            Some(signal) => Some(message_of_signal::<H>(signal)),
            None => None,
        },
{
    match signal {
        Some(Signal::User1) => Some(Message::CycleNext),
        Some(Signal::User2) => Some(Message::CyclePrev),
        None => None,
    }
}

/// The message for an item of the listener.
pub fn wayland_message<H>(event: WaylandEvent<H>) -> (r: Message<H>)
    ensures
        r == match event {
            WaylandEvent::Ready(handle) => Message::WaylandReady(handle),
            WaylandEvent::Windows(windows) => Message::WindowsUpdated(windows),
            WaylandEvent::ScreenHeight(h) => Message::ScreenHeight(h),
        },
{
    match event {
        WaylandEvent::Ready(handle) => Message::WaylandReady(handle),
        WaylandEvent::Windows(windows) => Message::WindowsUpdated(windows),
        WaylandEvent::ScreenHeight(h) => Message::ScreenHeight(h),
    }
}

} // verus!
