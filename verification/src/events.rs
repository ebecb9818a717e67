//! What the desktop views tell each other, and the motion preference they share.
use vstd::prelude::*;

verus! {

/// What the inspector editor reports.
#[derive(Debug, Clone, Copy, PartialEq, Eq, Structural)]
pub enum EditorEvent {
    Saved,
    Closed,
}

/// The filmstrip asks to select the game in this visible slot.
#[derive(Debug, Clone, Copy, PartialEq, Eq, Structural)]
pub struct SelectGame(pub usize);

/// The layouts of the library view.
#[derive(Debug, Clone, Copy, PartialEq, Eq, Structural)]
pub enum LibraryView {
    Cards,
    Grid,
    Table,
}

/// A bulk edit was saved; the text describes it.
#[derive(Debug)]
pub struct BulkSaved(pub String);

/// The grid asks to open the selected game.
#[derive(Debug, Clone, Copy, PartialEq, Eq, Structural)]
pub struct OpenGame;

/// What the settings view reports.
#[derive(Debug)]
pub enum SettingsEvent {
    /// A theme was chosen.
    Theme(String),
    /// The library should be read again.
    Refresh,
    /// A Steam sync completed at this time, or none is recorded.
    LastSync(Option<u64>),
}

/// Whether panel motion is reduced; off unless the user turns it on.
#[derive(Debug, Clone, Copy, PartialEq, Eq, Structural)]
pub struct MotionPreferences {
    pub reduced: bool,
}

impl Default for MotionPreferences {
    fn default() -> (r: Self)
        ensures
            !r.reduced,
    {
        MotionPreferences { reduced: false }
    }
}

/// Motion is reduced only where preferences are set and ask for it.
pub fn reduced(preferences: Option<&MotionPreferences>) -> (r: bool)
    ensures
        r == (preferences matches Some(p) && p.reduced),
{
    match preferences {
        Some(p) => p.reduced,
        None => false,
    }
}

} // verus!
