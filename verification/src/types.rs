//! Configuration and event types shared by the whole crate.

use vstd::prelude::*;

verus! {

/// A trigger event handed to the main loop by an event producer: a plain
/// reload, or a request to move along the configured status order.
#[non_exhaustive]
#[derive(Clone, Copy, Debug, PartialEq, Eq, Structural)]
pub enum Update {
    Reload,
    StatusNext,
    StatusPrev,
}

/// The event a status-bar click stands for: mouse wheel up (button `4`) asks
/// for the next status, wheel down (button `5`) for the previous one, and any
/// other button for a plain reload.
pub open spec fn spec_update_for_button(button: u32) -> Update {
    if button == 4 {
        Update::StatusNext
    } else if button == 5 {
        Update::StatusPrev
    } else {
        Update::Reload
    }
}

/// Map a click event's button number to the update it requests.
pub fn update_for_button(button: u32) -> (r: Update)
    ensures
        r == spec_update_for_button(button),
{
    match button {
        4 => Update::StatusNext,
        5 => Update::StatusPrev,
        _ => Update::Reload,
    }
}

/// The process configuration, fixed for the process lifetime.  The
/// surrounding application fills it from the command line; the core only
/// reads it.
pub struct Arguments {
    /// personal api token for the roster service
    pub token: Option<String>,
    /// path of a file whose first line is the api token
    pub token_file: Option<String>,
    /// update interval in seconds
    pub interval: u8,
    /// base address of the roster service
    pub server: String,
    /// status ids to be displayed, comma separated
    pub shown_statuses: String,
    /// order of status ids for quick change, comma separated
    pub status_order: String,
    /// output template; the known names are `full_text`, `short_text`,
    /// `status_name`, `status_color`, and per status id `{id}`, `{id}_count`
    /// and `{id}_color`
    pub display_format: String,
    /// escape double quotes in the colored spans of `{full_text}` and
    /// `{short_text}`
    pub escape_quotes: bool,
    /// disable pango markup in `{full_text}` and `{short_text}`
    pub no_pango: bool,
    /// print debug output
    pub debug: bool,
}

} // verus!
