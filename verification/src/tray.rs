//! What the tray icon reports, and what the program does about it.

use vstd::prelude::*;

verus! {

/// What the user did to the tray icon or its menu.
#[derive(Copy, Clone, Eq, PartialEq, Debug, Structural)]
pub enum Events {
    RightClickTrayIcon,
    DoubleClickTrayIcon,
    Open,
    Exit,
}

/// What the program does in answer to a tray event.
#[derive(Copy, Clone, Eq, PartialEq, Debug, Structural)]
pub enum Reaction {
    /// Show the tray menu.
    ShowMenu,
    /// Start the report window, closing the one already open, if any.
    OpenReport { close_first: bool },
    /// Close the report window, if any, and leave.
    Quit { close_first: bool },
}

/// The reaction to `event` when a report window is or is not `open`.
pub open spec fn reaction(event: Events, open: bool) -> Reaction {
    match event {
        Events::RightClickTrayIcon => Reaction::ShowMenu,
        Events::DoubleClickTrayIcon | Events::Open => Reaction::OpenReport { close_first: open },
        Events::Exit => Reaction::Quit { close_first: open },
    }
}

impl Events {
    /// The reaction to the event when a report window is or is not open.
    pub fn react(self, report_open: bool) -> (r: Reaction)
        ensures
            r == reaction(self, report_open),
    {
        match self {
            Events::RightClickTrayIcon => Reaction::ShowMenu,
            Events::DoubleClickTrayIcon | Events::Open => Reaction::OpenReport {
                close_first: report_open,
            },
            Events::Exit => Reaction::Quit { close_first: report_open },
        }
    }
}

} // verus!
