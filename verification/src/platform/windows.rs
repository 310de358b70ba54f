use vstd::prelude::*;

verus! {

/// Progress shown on the task bar button.
#[derive(Debug, Clone, Copy, PartialEq, Eq, Structural)]
pub struct TaskbarState {
    pub progress_percent: u32,
    pub is_paused: bool,
    pub is_active: bool,
}

impl Default for TaskbarState {
    fn default() -> (s: Self)
        ensures
            s == (TaskbarState { progress_percent: 0, is_paused: false, is_active: false }),
    {
        TaskbarState { progress_percent: 0, is_paused: false, is_active: false }
    }
}

/// Hands the recently played media to the desktop shell's jump list. Only the Windows
/// shell has such a list; elsewhere there is nothing to synchronise.
pub fn sync_windows_jump_list(recent_media: &[String]) {
}

} // verus!
