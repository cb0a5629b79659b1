//! Starting and stopping tasks at the second that the clock shows.

use crate::clock::current_second;
use crate::data::Data;
use crate::duration::PrettyDuration;
use crate::error::{PunchError, Refusal};
use vstd::prelude::*;

verus! {

/// Starts every task of the batch now, or none of them: where a task of the
/// batch is running, the ledger stays as it is and the running ones are named.
/// Hands back the second at which the tasks were started.
pub fn start(data: &mut Data, tasks: Vec<String>) -> (r: Result<i64, PunchError>)
    ensures
        match r {
            Ok(now) => {
                &&& old(data)@.already_running(tasks.deep_view()).len() == 0
                &&& final(data)@ == old(data)@.started(tasks.deep_view(), now)
            },
            Err(e) => {
                &&& old(data)@.already_running(tasks.deep_view()).len() > 0
                &&& e@ == Refusal::ExistingTasks(old(data)@.already_running(tasks.deep_view()))
                &&& final(data)@ == old(data)@
            },
        },
{
    let now: i64 = current_second();
    match data.start_at(&tasks, now) {
        Ok(_) => Ok(now),
        Err(e) => Err(e),
    }
}

/// Stops every task of the batch now, or none of them: where a task of the
/// batch is not running, the ledger stays as it is and the idle ones are
/// named. Hands back the second at which the tasks were stopped, and for each
/// task of the batch the seconds since its start.
pub fn stop(data: &mut Data, tasks: Vec<String>) -> (r: Result<(i64, Vec<u64>), PunchError>)
    ensures
        match r {
            Ok((now, spent)) => {
                &&& old(data)@.not_running(tasks.deep_view()).len() == 0
                &&& final(data)@ == old(data)@.stopped(tasks.deep_view(), now)
                &&& spent@ == old(data)@.elapsed(tasks.deep_view(), now)
            },
            Err(e) => {
                &&& old(data)@.not_running(tasks.deep_view()).len() > 0
                &&& e@ == Refusal::MissingTasks(old(data)@.not_running(tasks.deep_view()))
                &&& final(data)@ == old(data)@
            },
        },
{
    let now: i64 = current_second();
    match data.stop_at(&tasks, now) {
        Ok(spent) => Ok((now, spent)),
        Err(e) => Err(e),
    }
}

/// The line that tells the user that `task` was started at the time `at`.
pub open spec fn started_line(task: Seq<char>, at: Seq<char>) -> Seq<char> {
    "Starting task `"@ + task + "` at "@ + at
}

/// The line that tells the user that `task` was stopped after `seconds`.
pub open spec fn stopped_line(task: Seq<char>, seconds: u64) -> Seq<char> {
    "Stopped task `"@ + task + "` after "@ + PrettyDuration::decompose(seconds).text()
}

/// Writes the line that tells the user that `task` was started, with `at` as
/// the time of the start in words.
pub fn started_message(task: &str, at: &str) -> (r: String)
    ensures
        r@ == started_line(task@, at@),
{
    let mut line = String::from_str("Starting task `");
    line.append(task);
    line.append("` at ");
    line.append(at);
    line
}

/// Writes the line that tells the user that `task` was stopped after
/// `seconds`, with the seconds broken down.
pub fn stopped_message(task: &str, seconds: u64) -> (r: String)
    ensures
        r@ == stopped_line(task@, seconds),
{
    let mut line = String::from_str("Stopped task `");
    line.append(task);
    line.append("` after ");
    line.append(PrettyDuration::new(seconds).to_text().as_str());
    line
}

} // verus!
