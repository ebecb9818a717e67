//! Decisions of the main window: what it tells the user about a scan, and whether it may
//! close while work is still saving.
use vstd::prelude::*;
use vstd::string::*;

use crate::text::decimal;

verus! {

/// The notice for the problems of a scan: the first one, and how many others there are.
pub open spec fn issues_text(issues: Seq<Seq<char>>) -> Seq<char> {
    if issues.len() == 0 {
        Seq::empty()
    } else if issues.len() == 1 {
        issues[0]
    } else {
        issues[0] + " (+"@ + decimal((issues.len() - 1) as nat) + " other issues)"@
    }
}

pub fn issues_notice(issues: &Vec<String>) -> (r: String)
    ensures
        r@ == issues_text(issues@.map_values(|s: String| s@)),
{
    if issues.len() == 0 {
        return String::new();
    }
    let mut s = issues[0].clone();
    if issues.len() > 1 {
        s.append(" (+");
        crate::text::push_decimal(&mut s, (issues.len() - 1) as u64);
        s.append(" other issues)");
    }
    s
}

/// What keeps the window from closing.
#[derive(Debug, Clone, Copy, PartialEq, Eq, Structural)]
pub enum CloseBlock {
    DisplaySettings,
    GameChanges,
    CollectionSave,
    SteamSync,
    DetailsSaving,
}

impl CloseBlock {
    pub fn message(&self) -> (r: String)
        ensures
            r@ == match *self {
                CloseBlock::DisplaySettings => "Wait for display settings to save."@,
                CloseBlock::GameChanges => "Wait for game changes to save, or close the note, before closing."@,
                CloseBlock::CollectionSave => "Wait for the collection save to finish."@,
                CloseBlock::SteamSync => "Wait for Steam or cancel sync in Settings before closing or switching libraries."@,
                CloseBlock::DetailsSaving => "Changes are still saving. If a save failed, resolve it in details before closing."@,
            },
    {
        match self {
            CloseBlock::DisplaySettings => String::from_str("Wait for display settings to save."),
            CloseBlock::GameChanges => String::from_str("Wait for game changes to save, or close the note, before closing."),
            CloseBlock::CollectionSave => String::from_str("Wait for the collection save to finish."),
            CloseBlock::SteamSync => String::from_str("Wait for Steam or cancel sync in Settings before closing or switching libraries."),
            CloseBlock::DetailsSaving => String::from_str("Changes are still saving. If a save failed, resolve it in details before closing."),
        }
    }
}

/// The first reason, in this order, that keeps the window open: display settings still
/// saving, game changes or an open note, a collection save, a Steam sync, a detail save.
pub fn close_block(display_pending: usize, grid_busy: bool, collections_busy: bool, settings_busy: bool, details_busy: bool) -> (r: Option<CloseBlock>)
    ensures
        r == if display_pending > 0 {
            Some(CloseBlock::DisplaySettings)
        } else if grid_busy {
            Some(CloseBlock::GameChanges)
        } else if collections_busy {
            Some(CloseBlock::CollectionSave)
        } else if settings_busy {
            Some(CloseBlock::SteamSync)
        } else if details_busy {
            Some(CloseBlock::DetailsSaving)
        } else {
            None
        },
{
    if display_pending > 0 {
        Some(CloseBlock::DisplaySettings)
    } else if grid_busy {
        Some(CloseBlock::GameChanges)
    } else if collections_busy {
        Some(CloseBlock::CollectionSave)
    } else if settings_busy {
        Some(CloseBlock::SteamSync)
    } else if details_busy {
        Some(CloseBlock::DetailsSaving)
    } else {
        None
    }
}

} // verus!
