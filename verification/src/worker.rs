//! What the worker thread does next, and how the client starts and stops.
use crate::client::{Outcome, Task};
use crate::text;
use vstd::prelude::*;
use vstd::string::*;

verus! {

/// What the worker's wait for a task came to.
pub enum Wait {
    Task(Task),
    /// Nothing came before the deadline.
    Timeout,
    /// Nothing will come any more.
    Disconnected,
}

/// What the worker does next.
pub enum Work {
    SignIn(String),
    /// Ask the service what is new. Its own failures are ignored: it comes back
    /// soon enough.
    Refresh,
    PickExit(i64),
    SignOut,
    Stop,
}

/// What the worker does next. Waiting with a deadline lets the same loop refresh
/// the exit list while provisioning happens on the server.
pub fn next(wait: Wait) -> (r: Work)
    ensures
        r == (match wait {
            Wait::Task(Task::SignIn(number)) => Work::SignIn(number),
            Wait::Task(Task::LoadExits) => Work::Refresh,
            Wait::Task(Task::PickExit(id)) => Work::PickExit(id),
            Wait::Task(Task::SignOut) => Work::SignOut,
            Wait::Timeout => Work::Refresh,
            Wait::Disconnected => Work::Stop,
        }),
{
    match wait {
        Wait::Task(Task::SignIn(number)) => Work::SignIn(number),
        Wait::Task(Task::LoadExits) => Work::Refresh,
        Wait::Task(Task::PickExit(id)) => Work::PickExit(id),
        Wait::Task(Task::SignOut) => Work::SignOut,
        Wait::Timeout => Work::Refresh,
        Wait::Disconnected => Work::Stop,
    }
}

/// Whether the tunnel is being taken down. Two teardowns at once would each ask
/// the service manager to remove the same tunnel, and the second would report the
/// first one's work as a failure.
pub struct Teardown {
    coming_down: bool,
}

impl Teardown {
    /// Whether one is under way.
    pub closed spec fn under_way(self) -> bool {
        self.coming_down
    }

    /// None under way.
    pub fn new() -> (r: Teardown)
        ensures
            !r.under_way(),
    {
        Teardown { coming_down: false }
    }

    /// Whether to start one now: only when none is under way. Then one is.
    pub fn begin(&mut self) -> (r: bool)
        ensures
            r == !old(self).under_way(),
            final(self).under_way(),
    {
        let r = !self.coming_down;
        self.coming_down = true;
        r
    }

    /// It is over. Silence on success: the screen already says the tunnel is
    /// down. A failure has to be heard.
    pub fn end(&mut self, result: Result<(), String>) -> (r: Option<Outcome>)
        ensures
            !final(self).under_way(),
            r == (match result {
                Ok(()) => None,
                Err(reason) => Some(Outcome::Failed(reason)),
            }),
    {
        self.coming_down = false;
        match result {
            Ok(()) => None,
            Err(reason) => Some(Outcome::Failed(reason)),
        }
    }
}

// The renderer

/// Whether the window is drawn by the GPU, unless a setting pins the other one.
/// Only the GPU renderer can present a transparent window, so it is the default.
pub fn gpu(setting: Option<String>) -> (r: bool)
    ensures
        r == !(setting matches Some(name) && (name@ == "software"@ || name@ == "cpu"@)),
{
    match setting {
        Some(name) => !(text::same(name.as_str(), "software") || text::same(name.as_str(), "cpu")),
        None => true,
    }
}

/// The backend that draws with the GPU, or without.
pub fn backend(gpu: bool) -> (r: &'static str)
    ensures
        r@ == (if gpu {
            "winit-femtovg"@
        } else {
            "winit-software"@
        }),
{
    if gpu {
        "winit-femtovg"
    } else {
        "winit-software"
    }
}

/// Whether a window that never appeared is worth another start, with the software
/// renderer pinned. Only the first attempt may retry: the one it starts already
/// has a renderer pinned.
pub fn relaunches(pinned: bool, knows_itself: bool) -> (r: bool)
    ensures
        r == (!pinned && knows_itself),
{
    !pinned && knows_itself
}

/// Whether the relaunch is to be tried on a machine that does not need it. Debug
/// builds only.
pub fn force_render_failure(debug: bool, asked: bool) -> (r: bool)
    ensures
        r == (debug && asked),
{
    debug && asked
}

} // verus!
