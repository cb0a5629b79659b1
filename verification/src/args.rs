//! What the user asked for, and how a command line becomes a request.

use crate::data::{lemma_already_running, lemma_not_running, lemma_picked_names, Data};
use crate::task_map::{lists, names_of};
use crate::text::same_text;
use vstd::prelude::*;

verus! {

/// How the history adds up the work on a task.
#[derive(Clone, Copy, Debug, PartialEq, Eq, Structural)]
pub enum HistoryMode {
    /// All the seconds of a task.
    Sum,
    /// The seconds of a task per session. The ledger keeps no count of the
    /// sessions, so this shows what `Sum` shows.
    Average,
}

/// One request of the user.
#[derive(Debug)]
pub enum Action {
    Start(Vec<String>),
    Stop(Vec<String>),
    List,
    History(HistoryMode),
}

/// A question to the user: which one of `options` to start, or to stop where
/// `stop` is set. There is at least one option.
#[derive(Debug)]
pub struct Selection {
    pub stop: bool,
    pub options: Vec<String>,
}

/// What a command line comes to: a request, or a question to the user whose
/// answer gives one.
#[derive(Debug)]
pub enum Request {
    Ready(Action),
    Select(Selection),
}

/// An `Action` as contracts see it.
pub enum ActionView {
    Start(Seq<Seq<char>>),
    Stop(Seq<Seq<char>>),
    List,
    History(HistoryMode),
}

/// A `Request` as contracts see it.
pub enum RequestView {
    Ready(ActionView),
    Select { stop: bool, options: Seq<Seq<char>> },
}

impl DeepView for Action {
    type V = ActionView;

    open spec fn deep_view(&self) -> ActionView {
        match self {
            Action::Start(tasks) => ActionView::Start(tasks.deep_view()),
            Action::Stop(tasks) => ActionView::Stop(tasks.deep_view()),
            Action::List => ActionView::List,
            Action::History(mode) => ActionView::History(*mode),
        }
    }
}

impl DeepView for Request {
    type V = RequestView;

    open spec fn deep_view(&self) -> RequestView {
        match self {
            Request::Ready(action) => RequestView::Ready(action.deep_view()),
            Request::Select(selection) => RequestView::Select {
                stop: selection.stop,
                options: selection.options.deep_view(),
            },
        }
    }
}

/// The subcommands: `in` starts tasks, `out` stops tasks, `list` shows the
/// running tasks and `history` the finished work.
pub open spec fn is_subcommand(name: Seq<char>) -> bool {
    name == "in"@ || name == "out"@ || name == "list"@ || name == "history"@
}

/// The tasks that are offered where `in` names none: those with finished work
/// that are not running, in the order in which the history lists them.
pub open spec fn start_options(data: &Data) -> Seq<Seq<char>> {
    data@.not_running(names_of(data.history.listing()))
}

/// The tasks that are offered where `out` names none: the running ones, in
/// the order in which the ledger lists them.
pub open spec fn stop_options(data: &Data) -> Seq<Seq<char>> {
    names_of(data.running.listing())
}

/// What a subcommand with its arguments comes to. `in` and `out` with tasks
/// start and stop those tasks. Without tasks they ask the user to pick one of
/// the tasks on offer, and start or stop nothing where none is on offer.
/// `history` adds up as `--average` says.
pub open spec fn request(
    data: &Data,
    subcommand: Seq<char>,
    tasks: Seq<Seq<char>>,
    average: bool,
) -> RequestView {
    if subcommand == "list"@ {
        RequestView::Ready(ActionView::List)
    } else if subcommand == "history"@ {
        RequestView::Ready(
            ActionView::History(
                if average {
                    HistoryMode::Average
                } else {
                    HistoryMode::Sum
                },
            ),
        )
    } else {
        let stop = subcommand == "out"@;
        let options = if stop {
            stop_options(data)
        } else {
            start_options(data)
        };
        if tasks.len() > 0 || options.len() == 0 {
            RequestView::Ready(
                if stop {
                    ActionView::Stop(tasks)
                } else {
                    ActionView::Start(tasks)
                },
            )
        } else {
            RequestView::Select { stop, options }
        }
    }
}

/// Turns a subcommand, the tasks that were named behind it and the flag
/// `--average` into a request, or into a question to the user.
pub fn args(data: &Data, subcommand: &str, tasks: Vec<String>, average: bool) -> (r: Request)
    requires
        is_subcommand(subcommand@),
    ensures
        r.deep_view() == request(data, subcommand@, tasks.deep_view(), average),
{
    if same_text(subcommand, "list") {
        Request::Ready(Action::List)
    } else if same_text(subcommand, "history") {
        if average {
            Request::Ready(Action::History(HistoryMode::Average))
        } else {
            Request::Ready(Action::History(HistoryMode::Sum))
        }
    } else {
        let stop = same_text(subcommand, "out");
        if tasks.len() > 0 {
            if stop {
                Request::Ready(Action::Stop(tasks))
            } else {
                Request::Ready(Action::Start(tasks))
            }
        } else {
            let options = if stop {
                data.running.names()
            } else {
                let known = data.history.names();
                data.tasks_among(&known, false)
            };
            if options.len() == 0 {
                if stop {
                    Request::Ready(Action::Stop(tasks))
                } else {
                    Request::Ready(Action::Start(tasks))
                }
            } else {
                Request::Select(Selection { stop, options })
            }
        }
    }
}

/// What is on offer can be had: a task that is offered to be started is not
/// running, so that a request to start it is not turned down, and a task that
/// is offered to be stopped is running.
pub proof fn lemma_options_are_eligible(data: &Data, i: int)
    requires
        lists(data.running.listing(), data@.running),
    ensures
        0 <= i < start_options(data).len() ==> data@.already_running(
            seq![start_options(data)[i]],
        ).len() == 0,
        0 <= i < stop_options(data).len() ==> data@.not_running(seq![stop_options(data)[i]]).len()
            == 0,
{
    if 0 <= i < start_options(data).len() {
        let batch = seq![start_options(data)[i]];
        lemma_picked_names(data@, names_of(data.history.listing()), i);
        lemma_already_running(data@, batch);
    }
    if 0 <= i < stop_options(data).len() {
        let batch = seq![stop_options(data)[i]];
        let listing = data.running.listing();
        assert(data@.running.contains_pair(listing[i].0, listing[i].1));
        lemma_not_running(data@, batch);
    }
}

impl Selection {
    /// The request that the user's pick of the option at `index` gives.
    pub open spec fn picked(stop: bool, options: Seq<Seq<char>>, index: int) -> ActionView {
        if stop {
            ActionView::Stop(seq![options[index]])
        } else {
            ActionView::Start(seq![options[index]])
        }
    }

    /// Takes the user's answer: the option at `index` is the one task to
    /// start or to stop.
    pub fn pick(&self, index: usize) -> (r: Action)
        requires
            index < self.options.len(),
        ensures
            r.deep_view() == Self::picked(self.stop, self.options.deep_view(), index as int),
    {
        let mut tasks: Vec<String> = Vec::new();
        tasks.push(self.options[index].clone());
        assert(tasks.deep_view() =~= seq![self.options.deep_view()[index as int]]);
        if self.stop {
            Action::Stop(tasks)
        } else {
            Action::Start(tasks)
        }
    }
}

} // verus!
