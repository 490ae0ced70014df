//! Opening the window out, and one client to a machine.
use crate::text;
use vstd::prelude::*;
use vstd::string::*;

verus! {

// Moving and sizing

/// The state a click on the maximise button leads to. The property that draws the
/// button's own symbol follows it.
pub fn toggle_maximise(maximised: bool) -> (r: bool)
    ensures
        r == !maximised,
{
    !maximised
}

/// How many times the window is asked again to fill the screen.
pub const OPENINGS: u32 = 12;

/// What to do about a window that is to fill the screen.
#[derive(Clone, Copy, PartialEq, Eq, Structural, Debug)]
pub enum Opening {
    /// It does: say so, and that is all.
    Done,
    /// Ask it, and look again in a moment with so many tries left.
    Again { ask: bool, left: u32 },
    /// Ask it a last time, and leave it at that.
    GiveUp { ask: bool },
}

/// Asks, then checks, then asks again.
///
/// A single request right after the window is shown is ignored: the backend is
/// still applying the size it decided on, and on some window managers there is
/// nothing listening yet either. Rather than guess a delay long enough to cover
/// both, this asks until the window agrees it is maximised, and gives up after
/// `left` tries so a manager that simply refuses cannot spin here forever.
///
/// `maximised` is what the window says of itself, nothing when there is no window
/// yet.
pub fn open_out(maximised: Option<bool>, left: u32) -> (r: Opening)
    ensures
        r == (if maximised == Some(true) {
            Opening::Done
        } else if left == 0 {
            Opening::GiveUp { ask: maximised is Some }
        } else {
            Opening::Again { ask: maximised is Some, left: (left - 1) as u32 }
        }),
        r matches Opening::Again { left: rest, .. } ==> rest < left,
{
    match maximised {
        Some(true) => Opening::Done,
        other => if left == 0 {
            Opening::GiveUp { ask: other.is_some() }
        } else {
            Opening::Again { ask: other.is_some(), left: left - 1 }
        },
    }
}

/// Whether to register the tray icon again, and with how many tries left: when the
/// shell did not take it and there are any. It can refuse while it is still coming
/// up, and the client would be left with no way back to its own window.
pub fn tray_again(taken: bool, attempts: u32) -> (r: Option<u32>)
    ensures
        r == (if taken || attempts == 0 {
            None
        } else {
            Some((attempts - 1) as u32)
        }),
{
    if taken || attempts == 0 {
        None
    } else {
        Some(attempts - 1)
    }
}

// One client to a machine

/// The claim to be the client of this machine, with whatever holds it: a lock on
/// an open file, or a name in the session. It dies with the process, so a client
/// that is killed outright leaves nothing behind to block the next one.
///
/// A second copy would open a window onto a tunnel it does not own. Both would
/// then report its state from their own idea of it, and the first thing either
/// did to it would make the other wrong.
pub struct SoleInstance<T> {
    held: Option<T>,
}

/// What trying to take the claim came to.
pub enum Taking<T> {
    /// There was nowhere to put the claim.
    Nowhere,
    /// Another process has it.
    Refused,
    /// It is ours, held by this.
    Taken(T),
}

impl<T> SoleInstance<T> {
    /// What holds the claim.
    pub closed spec fn held(self) -> Option<T> {
        self.held
    }

    /// Nothing claimed.
    pub fn new() -> (r: SoleInstance<T>)
        ensures
            r.held() is None,
    {
        SoleInstance { held: None }
    }

    /// Whether this process is the client, or a second copy that should stand
    /// down. Having nowhere to put the claim is no reason to: refusing to start
    /// over that would be worse than the duplicate it is meant to prevent.
    pub fn claim(&mut self, taking: Taking<T>) -> (r: bool)
        ensures
            r == !(taking is Refused),
            final(self).held() == (match taking {
                Taking::Taken(handle) => Some(handle),
                _ => old(self).held(),
            }),
    {
        match taking {
            Taking::Nowhere => true,
            Taking::Refused => false,
            Taking::Taken(handle) => {
                self.held = Some(handle);
                true
            },
        }
    }

    /// Gives the claim up, so a process this one is about to start can take it.
    /// What held it comes back, to be let go.
    pub fn release(&mut self) -> (r: Option<T>)
        ensures
            r == old(self).held(),
            final(self).held() is None,
    {
        let mut held: Option<T> = None;
        std::mem::swap(&mut held, &mut self.held);
        held
    }
}

/// Where the lock goes when the session has no directory of its own.
pub const LOCK_DIRECTORY: &'static str = "/tmp";

/// The name of the lock: the session's runtime directory is per user, `/tmp` is
/// not, so there the name carries the user id and two people on one machine do
/// not lock each other out.
pub fn lock_name(session_directory: bool, uid: u32) -> (r: String)
    ensures
        r@ == (if session_directory {
            "valira-desktop.lock"@
        } else {
            "valira-desktop-"@ + text::decimal(uid as nat) + ".lock"@
        }),
{
    if session_directory {
        "valira-desktop.lock".to_owned()
    } else {
        let mut r = "valira-desktop-".to_owned();
        r.append(text::number(uid as u64).as_str());
        r.append(".lock");
        r
    }
}

} // verus!
