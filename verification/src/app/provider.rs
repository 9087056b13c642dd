//! What the status provider last said.

use crate::text::owned;
use vstd::prelude::*;

verus! {

/// One message from the status provider.
#[derive(Debug)]
pub enum StatusEvent<T> {
    /// It introduces itself, and says whether it takes clicks.
    Header { click_events: bool },
    /// Everything it shows now.
    Blocks(Vec<T>),
    /// It has stopped, and why.
    Stopped(String),
}

/// What the status provider shows, or why it shows nothing.
#[derive(Debug)]
pub struct Provided<T> {
    pub items: Vec<T>,
    /// Set when the provider itself has failed; shown in place of the groups.
    pub fault: Option<String>,
    pub accepts_clicks: bool,
}

/// What is shown in place of the groups once the provider has stopped.
pub open spec fn stopped_because(reason: Seq<char>) -> Seq<char> {
    "status provider stopped: "@ + reason
}

impl<T> Provided<T> {
    pub fn new() -> (p: Provided<T>)
        ensures
            p.items@.len() == 0,
            p.fault is None,
            !p.accepts_clicks,
    {
        Provided { items: Vec::new(), fault: None, accepts_clicks: false }
    }

    /// Handle one message from the status provider, returning whether the bars are to be drawn
    /// again.
    pub fn on_status(&mut self, event: StatusEvent<T>) -> (redraw: bool)
        ensures
            redraw == !(event is Header),
            match event {
                StatusEvent::Header { click_events } => {
                    &&& final(self).accepts_clicks == click_events
                    &&& final(self).items == old(self).items
                    &&& final(self).fault == old(self).fault
                },
                StatusEvent::Blocks(items) => {
                    &&& final(self).accepts_clicks == old(self).accepts_clicks
                    &&& final(self).items == items
                    &&& final(self).fault is None
                },
                StatusEvent::Stopped(reason) => {
                    &&& final(self).accepts_clicks == old(self).accepts_clicks
                    &&& final(self).items@.len() == 0
                    &&& final(self).fault matches Some(f) && f@ == stopped_because(reason@)
                },
            },
    {
        match event {
            StatusEvent::Header { click_events } => {
                self.accepts_clicks = click_events;
                false
            },
            StatusEvent::Blocks(items) => {
                self.items = items;
                self.fault = None;
                true
            },
            StatusEvent::Stopped(reason) => {
                self.items = Vec::new();
                self.fault = Some(owned("status provider stopped: ").concat(reason.as_str()));
                true
            },
        }
    }
}

} // verus!
