//! The settings that the daemon is started with.

use vstd::prelude::*;

verus! {

/// The settings of one run of the daemon.
#[derive(Debug)]
pub struct Cli {
    /// Whether the daemon detaches from the terminal.
    pub background: bool,
    /// How often to check for changes, in seconds.
    pub delay: u64,
    /// The screen to connect to, where it is not the session's default.
    pub display: Option<String>,
    /// The command to run when outputs were remapped.
    pub on_remap: Option<String>,
    /// Whether the stored layout is applied once before the polling starts.
    pub reapply: bool,
}

fn clone_text(text: &Option<String>) -> (r: Option<String>)
    ensures
        r == *text,
{
    match text {
        Some(line) => Some(line.clone()),
        None => None,
    }
}

impl Clone for Cli {
    fn clone(&self) -> (r: Self)
        ensures
            r == *self,
    {
        Cli {
            background: self.background,
            delay: self.delay,
            display: clone_text(&self.display),
            on_remap: clone_text(&self.on_remap),
            reapply: self.reapply,
        }
    }
}

impl Default for Cli {
    /// The settings of a daemon started without arguments: in the
    /// foreground, polling once a second, without a hook.
    fn default() -> (r: Self)
        ensures
            !r.background,
            r.delay == 1,
            r.display.is_none(),
            r.on_remap.is_none(),
            !r.reapply,
    {
        Cli { background: false, delay: 1, display: None, on_remap: None, reapply: false }
    }
}

} // verus!
