//! Why a batch of tasks was turned down.

use crate::text::{debug_string, debug_text};
use vstd::prelude::*;

verus! {

/// A batch that was turned down as a whole, with the names that caused it, in
/// the order in which the batch held them.
#[derive(Debug)]
pub enum PunchError {
    /// These tasks were to be started and are running already.
    ExistingTasks(Vec<String>),
    /// These tasks were to be stopped and are not running.
    MissingTasks(Vec<String>),
}

/// A `PunchError` as contracts see it.
pub enum Refusal {
    ExistingTasks(Seq<Seq<char>>),
    MissingTasks(Seq<Seq<char>>),
}

impl View for PunchError {
    type V = Refusal;

    open spec fn view(&self) -> Refusal {
        match self {
            PunchError::ExistingTasks(names) => Refusal::ExistingTasks(names.deep_view()),
            PunchError::MissingTasks(names) => Refusal::MissingTasks(names.deep_view()),
        }
    }
}

impl Refusal {
    /// The names that caused the refusal.
    pub open spec fn names(self) -> Seq<Seq<char>> {
        match self {
            Refusal::ExistingTasks(names) => names,
            Refusal::MissingTasks(names) => names,
        }
    }

    /// The line that tells the user of the refusal, around the text `list` for
    /// the names.
    pub open spec fn message_around(self, list: Seq<char>) -> Seq<char> {
        match self {
            Refusal::ExistingTasks(_) => "The following tasks already exist: "@ + list,
            Refusal::MissingTasks(_) => "The following tasks do not exist: "@ + list,
        }
    }

    /// The line that tells the user of the refusal.
    pub open spec fn message(self) -> Seq<char> {
        self.message_around(debug_text(self.names()))
    }
}

impl PunchError {
    /// The names that caused the refusal.
    pub fn names(&self) -> (r: &Vec<String>)
        ensures
            r.deep_view() == self@.names(),
    {
        match self {
            PunchError::ExistingTasks(names) => names,
            PunchError::MissingTasks(names) => names,
        }
    }

    /// The line that tells the user of the refusal, with `list` in the place
    /// of the names.
    pub fn message_around(&self, list: &str) -> (r: String)
        ensures
            r@ == self@.message_around(list@),
    {
        let mut line = match self {
            PunchError::ExistingTasks(_) => String::from_str("The following tasks already exist: "),
            PunchError::MissingTasks(_) => String::from_str("The following tasks do not exist: "),
        };
        line.append(list);
        line
    }

    /// The line that tells the user of the refusal: what went wrong, and the
    /// names as a list.
    pub fn message(&self) -> (r: String)
        ensures
            r@ == self@.message(),
    {
        let list = debug_string(self.names());
        self.message_around(list.as_str())
    }
}

} // verus!
