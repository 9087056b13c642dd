//! The pointer buttons a module can be given something to do with.

use crate::text::texts;
use vstd::prelude::*;

verus! {

/// One of the three pointer buttons a module can be given something to do with.
///
/// Scrolling is not here: a notch is a step in a direction rather than a press.
#[derive(Clone, Copy, Debug, PartialEq, Eq, Structural)]
pub enum Button {
    Left,
    Middle,
    Right,
}

/// The number click dispatch knows a button by.
pub open spec fn number_of(b: Button) -> u32 {
    match b {
        Button::Left => 1,
        Button::Middle => 2,
        Button::Right => 3,
    }
}

/// What a configuration calls a button.
pub open spec fn button_name(b: Button) -> Seq<char> {
    match b {
        Button::Left => "left"@,
        Button::Middle => "middle"@,
        Button::Right => "right"@,
    }
}

impl Button {
    /// The i3bar protocol's number for this button, which is what click dispatch speaks.
    pub fn number(self) -> (n: u32)
        ensures
            n == number_of(self),
    {
        match self {
            Button::Left => 1,
            Button::Middle => 2,
            Button::Right => 3,
        }
    }

    /// What to call it in a message, spelled the way the configuration would.
    pub fn name(self) -> (r: &'static str)
        ensures
            r@ == button_name(self),
    {
        match self {
            Button::Left => "left",
            Button::Middle => "middle",
            Button::Right => "right",
        }
    }
}

/// The programs a module runs when it is clicked, each executed directly.
#[derive(Debug)]
pub struct ClickActions {
    pub left: Option<Vec<String>>,
    pub middle: Option<Vec<String>>,
    pub right: Option<Vec<String>>,
}

/// What `ClickActions` say.
#[verifier::ext_equal]
pub struct ActionsView {
    pub left: Option<Seq<Seq<char>>>,
    pub middle: Option<Seq<Seq<char>>>,
    pub right: Option<Seq<Seq<char>>>,
}

/// What an argv that may be missing says.
pub open spec fn argv_view(v: Option<Vec<String>>) -> Option<Seq<Seq<char>>> {
    match v {
        Some(argv) => Some(texts(argv@)),
        None => None,
    }
}

impl View for ClickActions {
    type V = ActionsView;

    open spec fn view(&self) -> ActionsView {
        ActionsView {
            left: argv_view(self.left),
            middle: argv_view(self.middle),
            right: argv_view(self.right),
        }
    }
}

/// The program behind one button.
pub open spec fn action_of(a: ActionsView, b: Button) -> Option<Seq<Seq<char>>> {
    match b {
        Button::Left => a.left,
        Button::Middle => a.middle,
        Button::Right => a.right,
    }
}

impl ClickActions {
    pub fn for_button(&self, button: Button) -> (r: Option<&Vec<String>>)
        ensures
            match r {
                Some(argv) => action_of(self@, button) == Some(texts(argv@)),
                None => action_of(self@, button) is None,
            },
    {
        match button {
            Button::Left => self.left.as_ref(),
            Button::Middle => self.middle.as_ref(),
            Button::Right => self.right.as_ref(),
        }
    }
}

/// What a module can give a button to do.
#[derive(Clone, Copy, Debug, PartialEq, Eq, Structural)]
pub enum Job {
    /// Moving through the further wordings.
    Wordings,
    /// Folding the module down to its icon.
    Fold,
    /// Reading the source again.
    Refresh,
    /// Playing and pausing.
    Controls,
    /// Muting.
    Mute,
    /// Running a program.
    Program(Button),
}

/// The key of a configuration that gives a button this job.
pub open spec fn job_key(job: Job) -> Seq<char> {
    match job {
        Job::Wordings => "format_alt"@,
        Job::Fold => "collapsible"@,
        Job::Refresh => "refresh_button"@,
        Job::Controls => "controls"@,
        Job::Mute => "mute_button"@,
        Job::Program(Button::Left) => "on_click.left"@,
        Job::Program(Button::Middle) => "on_click.middle"@,
        Job::Program(Button::Right) => "on_click.right"@,
    }
}

impl Job {
    /// The key of a configuration that gives a button this job.
    pub fn key(self) -> (r: &'static str)
        ensures
            r@ == job_key(self),
    {
        match self {
            Job::Wordings => "format_alt",
            Job::Fold => "collapsible",
            Job::Refresh => "refresh_button",
            Job::Controls => "controls",
            Job::Mute => "mute_button",
            Job::Program(button) => match button {
                Button::Left => "on_click.left",
                Button::Middle => "on_click.middle",
                Button::Right => "on_click.right",
            },
        }
    }
}

} // verus!
