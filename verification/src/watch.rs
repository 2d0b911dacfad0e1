//! Watching for the file with the screenshot.

use vstd::prelude::*;

verus! {

/// What a look at the file has found.
#[derive(Clone, Copy, Debug, PartialEq, Eq, Structural)]
pub enum WatchEvent {
    /// There is no file.
    Absent,
    /// There is one that cannot be read.
    Unreadable,
    /// It was read, but no backdrop could be made of it.
    NoPicture,
    /// It was made into a backdrop.
    Decoded,
}

/// What to do then.
#[derive(Clone, Copy, Debug, PartialEq, Eq, Structural)]
pub enum WatchAction {
    LookAgain,
    /// Look no more, and leave the file.
    Stop,
    /// Show the backdrop, delete the file and look no more.
    ShowRemoveAndStop,
}

/// What to do after a look at the file.
pub open spec fn action_after(event: WatchEvent) -> WatchAction {
    match event {
        WatchEvent::Absent => WatchAction::LookAgain,
        WatchEvent::Decoded => WatchAction::ShowRemoveAndStop,
        _ => WatchAction::Stop,
    }
}

/// Decides what to do after a look at the file. A file that is there at the first look counts as
/// much as one that comes later.
pub fn watch_step(event: WatchEvent) -> (action: WatchAction)
    ensures
        action == action_after(event),
{
    match event {
        WatchEvent::Absent => WatchAction::LookAgain,
        WatchEvent::Decoded => WatchAction::ShowRemoveAndStop,
        WatchEvent::Unreadable | WatchEvent::NoPicture => WatchAction::Stop,
    }
}

/// The watch goes on for as long as there is no file, and the file is removed if and only if what
/// it holds is shown.
pub proof fn lemma_watch_ends_with_a_file(event: WatchEvent)
    ensures
        action_after(event) == WatchAction::LookAgain <==> event == WatchEvent::Absent,
        action_after(event) == WatchAction::ShowRemoveAndStop <==> event == WatchEvent::Decoded,
{
}

} // verus!
