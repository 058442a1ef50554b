//! What a session asks of its driver and what the driver answers. Paths are as
//! [`crate::path::safe_relative_path`] gives them: relative to the working directory,
//! or absolute.

use crate::guard;
use crate::guard::{Reread, RereadView};
use crate::verify::{CommandOutcome, OutcomeView};
use vstd::prelude::*;

verus! {

/// What the driver has to do next.
pub enum Action {
    /// Nothing; answer [`Event::Done`].
    Proceed,
    /// Find out whether the path resolves inside the working directory; answer
    /// [`Event::Located`].
    Locate { path: String },
    /// Find out whether the file is there and read it; answer [`Event::Found`].
    Inspect { path: String },
    /// Create the missing parent directories of the file; answer [`Event::Done`].
    MakeDirs { path: String },
    /// Take the exclusive lock for the file; answer [`Event::Done`]. The lock is held
    /// until `Unlock`, or until the session is finished.
    Lock { path: String },
    /// Read the file again; answer [`Event::Reread`].
    Reread { path: String },
    /// Make the bytes the content of the file; answer [`Event::Done`].
    Put { path: String, content: Vec<u8> },
    /// Remove the file; answer [`Event::Done`].
    Delete { path: String },
    /// Release the lock for the file; answer [`Event::Done`].
    Unlock { path: String },
    /// Run the shell command in the working directory; answer [`Event::Ran`].
    Run { cmd: String },
    /// Nothing is left to do; the result is there.
    Finish,
}

/// The view of an [`Action`].
pub enum ActionView {
    Proceed,
    Locate { path: Seq<char> },
    Inspect { path: Seq<char> },
    MakeDirs { path: Seq<char> },
    Lock { path: Seq<char> },
    Reread { path: Seq<char> },
    Put { path: Seq<char>, content: Seq<u8> },
    Delete { path: Seq<char> },
    Unlock { path: Seq<char> },
    Run { cmd: Seq<char> },
    Finish,
}

impl DeepView for Action {
    type V = ActionView;

    open spec fn deep_view(&self) -> ActionView {
        match self {
            Action::Proceed => ActionView::Proceed,
            Action::Locate { path } => ActionView::Locate { path: path@ },
            Action::Inspect { path } => ActionView::Inspect { path: path@ },
            Action::MakeDirs { path } => ActionView::MakeDirs { path: path@ },
            Action::Lock { path } => ActionView::Lock { path: path@ },
            Action::Reread { path } => ActionView::Reread { path: path@ },
            Action::Put { path, content } => ActionView::Put { path: path@, content: content@ },
            Action::Delete { path } => ActionView::Delete { path: path@ },
            Action::Unlock { path } => ActionView::Unlock { path: path@ },
            Action::Run { cmd } => ActionView::Run { cmd: cmd@ },
            Action::Finish => ActionView::Finish,
        }
    }
}

/// What came of an action.
pub enum Event {
    /// It was done, or it failed for the given reason.
    Done(Result<(), String>),
    /// Whether the path resolves inside the working directory.
    Located(bool),
    /// Whether the file is there, and its bytes where they could be read.
    Found { exists: bool, content: Option<Vec<u8>> },
    /// What the second reading gave.
    Reread(Reread),
    /// How the command ended.
    Ran(CommandOutcome),
}

/// The view of an [`Event`].
pub enum EventView {
    Done(Result<(), Seq<char>>),
    Located(bool),
    Found { exists: bool, content: Option<Seq<u8>> },
    Reread(RereadView),
    Ran(OutcomeView),
}

impl DeepView for Event {
    type V = EventView;

    open spec fn deep_view(&self) -> EventView {
        match self {
            Event::Done(Ok(())) => EventView::Done(Ok(())),
            Event::Done(Err(m)) => EventView::Done(Err(m@)),
            Event::Located(b) => EventView::Located(*b),
            Event::Found { exists, content } => EventView::Found {
                exists: *exists,
                content: guard::bytes_view(*content),
            },
            Event::Reread(r) => EventView::Reread(r.deep_view()),
            Event::Ran(o) => EventView::Ran(o.deep_view()),
        }
    }
}

/// The contracts speak of what the driver answers as it is.
pub proof fn law_event_as_it_is(ev: Event)
    ensures
        match ev {
            Event::Done(r) => {
                &&& ev.deep_view() matches EventView::Done(v) && (v is Ok <==> r is Ok)
                &&& r matches Err(m) ==> ev.deep_view() == EventView::Done(Err::<(), Seq<char>>(m@))
            },
            Event::Located(inside) => ev.deep_view() == EventView::Located(inside),
            Event::Found { exists, content } => {
                &&& ev.deep_view() matches EventView::Found { exists: e, content: c } && e == exists
                    && (c is Some <==> content is Some)
                &&& content matches Some(b) ==> ev.deep_view()->content == Some(b@)
            },
            Event::Reread(now) => match now {
                Reread::Content(b) => ev.deep_view() == EventView::Reread(RereadView::Content(b@)),
                Reread::Missing => ev.deep_view() == EventView::Reread(RereadView::Missing),
                Reread::Failed(m) => ev.deep_view() == EventView::Reread(RereadView::Failed(m@)),
            },
            Event::Ran(o) => ev.deep_view() == EventView::Ran(o.deep_view()),
        },
{
}

/// The contracts speak of what is asked of the driver as it is.
pub proof fn law_action_as_it_is(a: Action)
    ensures
        match a {
            Action::Proceed => a.deep_view() is Proceed,
            Action::Locate { path } => a.deep_view() == (ActionView::Locate { path: path@ }),
            Action::Inspect { path } => a.deep_view() == (ActionView::Inspect { path: path@ }),
            Action::MakeDirs { path } => a.deep_view() == (ActionView::MakeDirs { path: path@ }),
            Action::Lock { path } => a.deep_view() == (ActionView::Lock { path: path@ }),
            Action::Reread { path } => a.deep_view() == (ActionView::Reread { path: path@ }),
            Action::Put { path, content } => a.deep_view() == (ActionView::Put {
                path: path@,
                content: content@,
            }),
            Action::Delete { path } => a.deep_view() == (ActionView::Delete { path: path@ }),
            Action::Unlock { path } => a.deep_view() == (ActionView::Unlock { path: path@ }),
            Action::Run { cmd } => a.deep_view() == (ActionView::Run { cmd: cmd@ }),
            Action::Finish => a.deep_view() is Finish,
        },
{
}

} // verus!
