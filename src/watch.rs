//! The decisions of the loop that keeps the state in line with external
//! edits of its backing document. The loop itself, which waits on the file
//! system and reads the document, runs outside the library: it hands each
//! thing it receives to `next_action` and does what comes back.
use vstd::prelude::*;

verus! {

/// The kind of a file system notification.
pub enum FsEventKind {
    /// A change of unknown kind.
    Any,
    /// The file was read or opened, without any change.
    Access,
    Create,
    Modify,
    Remove,
    /// A notification of some other kind.
    Other,
}

/// What the loop receives at its wait point.
pub enum WatchInput {
    /// A notification of the given kind about the given paths, each in
    /// canonical absolute form where it could be resolved.
    Notification { kind: FsEventKind, paths: Vec<String> },
    /// The watch source reported an error.
    WatchError,
    /// The wait timed out.
    Tick,
    /// The watch source has closed.
    Disconnected,
    /// Someone asked the loop to stop.
    StopRequested,
}

/// What the loop does next.
pub enum WatchAction {
    /// Re-read the document and reload the state from it.
    Reload,
    /// Wait again.
    Wait,
    /// Stop the loop: it was asked to.
    Stop,
    /// Stop the loop with an error: the watch source is gone.
    Fail,
}

/// Whether a notification of this kind can concern the content of a file.
pub open spec fn changes_content(kind: FsEventKind) -> bool {
    match kind {
        FsEventKind::Any | FsEventKind::Create | FsEventKind::Modify | FsEventKind::Remove => true,
        FsEventKind::Access | FsEventKind::Other => false,
    }
}

/// Whether a notification about these paths can concern `target`: it names
/// no path, or one of its paths is `target`.
pub open spec fn concerns(paths: Seq<Seq<char>>, target: Seq<char>) -> bool {
    paths.len() == 0 || paths.contains(target)
}

/// Whether a notification of this kind can change the state.
pub fn is_state_change(kind: &FsEventKind) -> (r: bool)
    ensures
        r == changes_content(*kind),
{
    match kind {
        FsEventKind::Any | FsEventKind::Create | FsEventKind::Modify | FsEventKind::Remove => true,
        FsEventKind::Access | FsEventKind::Other => false,
    }
}

/// Whether a notification about `paths` can concern the file `target`.
pub fn event_affects_target(paths: &Vec<String>, target: &String) -> (r: bool)
    ensures
        r == concerns(paths@.map_values(|p: String| p@), target@),
{
    let ghost views = paths@.map_values(|p: String| p@);
    if paths.len() == 0 {
        return true;
    }
    let mut i: usize = 0;
    while i < paths.len()
        invariant
            i <= paths@.len(),
            views == paths@.map_values(|p: String| p@),
            forall|j: int| 0 <= j < i ==> #[trigger] paths@[j]@ != target@,
        decreases paths@.len() - i,
    {
        if paths[i] == *target {
            proof {
                assert(views[i as int] == target@);
            }
            return true;
        }
        i = i + 1;
    }
    proof {
        if views.contains(target@) {
            let k = choose|k: int| 0 <= k < views.len() && views[k] == target@;
            assert(paths@[k]@ == target@);
        }
    }
    false
}

/// The action that the loop takes on `input`, while it watches `target`.
pub fn next_action(input: &WatchInput, target: &String) -> (r: WatchAction)
    ensures
        match *input {
            WatchInput::Notification { kind, paths } => if changes_content(kind) && concerns(
                paths@.map_values(|p: String| p@),
                target@,
            ) {
                r is Reload
            } else {
                r is Wait
            },
            WatchInput::WatchError | WatchInput::Tick => r is Wait,
            WatchInput::Disconnected => r is Fail,
            WatchInput::StopRequested => r is Stop,
        },
{
    match input {
        WatchInput::Notification { kind, paths } => {
            if event_affects_target(paths, target) && is_state_change(kind) {
                WatchAction::Reload
            } else {
                WatchAction::Wait
            }
        },
        WatchInput::WatchError | WatchInput::Tick => WatchAction::Wait,
        WatchInput::Disconnected => WatchAction::Fail,
        WatchInput::StopRequested => WatchAction::Stop,
    }
}

} // verus!
