//! The ledger: which tasks are running and since when, and how long each task
//! has been worked on in all.

use crate::duration::{accumulate, accumulated, elapsed, elapsed_between};
use crate::error::{PunchError, Refusal};
use crate::task_map::TaskMap;
use vstd::prelude::*;

verus! {

/// The running tasks with the second at which each was started, and the
/// finished work of each task in seconds. A task may stand in both.
#[derive(Debug)]
pub struct Data {
    pub running: TaskMap<i64>,
    pub history: TaskMap<u64>,
}

/// A `Data` as contracts see it: two maps from names.
pub struct Ledger {
    pub running: Map<Seq<char>, i64>,
    pub history: Map<Seq<char>, u64>,
}

impl View for Data {
    type V = Ledger;

    open spec fn view(&self) -> Ledger {
        Ledger { running: self.running@, history: self.history@ }
    }
}

impl Ledger {
    /// The names of a batch that are running, as often as the batch holds
    /// them.
    pub open spec fn already_running(self, names: Seq<Seq<char>>) -> Seq<Seq<char>> {
        names.filter(|name: Seq<char>| self.running.contains_key(name))
    }

    /// The names of a batch that are not running, as often as the batch holds
    /// them.
    pub open spec fn not_running(self, names: Seq<Seq<char>>) -> Seq<Seq<char>> {
        names.filter(|name: Seq<char>| !self.running.contains_key(name))
    }

    /// The seconds of finished work on `name`: zero for a task that was never
    /// stopped.
    pub open spec fn total(self, name: Seq<char>) -> u64 {
        if self.history.contains_key(name) {
            self.history[name]
        } else {
            0
        }
    }

    /// The ledger in which every task of `names` runs since `now`.
    pub open spec fn started(self, names: Seq<Seq<char>>, now: i64) -> Ledger {
        Ledger {
            running: Map::new(
                |name: Seq<char>| self.running.contains_key(name) || names.contains(name),
                |name: Seq<char>|
                    if names.contains(name) {
                        now
                    } else {
                        self.running[name]
                    },
            ),
            history: self.history,
        }
    }

    /// The ledger in which no task of `names` runs any more, and the seconds
    /// from its start to `now` have been added to the finished work of each.
    /// It is meant for names that are all running.
    pub open spec fn stopped(self, names: Seq<Seq<char>>, now: i64) -> Ledger {
        Ledger {
            running: Map::new(
                |name: Seq<char>| self.running.contains_key(name) && !names.contains(name),
                |name: Seq<char>| self.running[name],
            ),
            history: Map::new(
                |name: Seq<char>| self.history.contains_key(name) || names.contains(name),
                |name: Seq<char>|
                    if names.contains(name) {
                        accumulated(self.total(name), elapsed_between(self.running[name], now))
                    } else {
                        self.history[name]
                    },
            ),
        }
    }

    /// For each task of `names`, the seconds from its start to `now`.
    pub open spec fn elapsed(self, names: Seq<Seq<char>>, now: i64) -> Seq<u64> {
        Seq::new(names.len(), |i: int| elapsed_between(self.running[names[i]], now))
    }

    /// The ledger after a request to start `names` at `now`: the batch is
    /// started as a whole, or not at all where one of its tasks is running.
    pub open spec fn after_start(self, names: Seq<Seq<char>>, now: i64) -> Ledger {
        if self.already_running(names).len() == 0 {
            self.started(names, now)
        } else {
            self
        }
    }

    /// The ledger after a request to stop `names` at `now`: the batch is
    /// stopped as a whole, or not at all where one of its tasks is not
    /// running.
    pub open spec fn after_stop(self, names: Seq<Seq<char>>, now: i64) -> Ledger {
        if self.not_running(names).len() == 0 {
            self.stopped(names, now)
        } else {
            self
        }
    }
}

/// A batch has a running task in it exactly if one of its names is running.
pub proof fn lemma_already_running(ledger: Ledger, names: Seq<Seq<char>>)
    ensures
        ledger.already_running(names).len() == 0 <==> forall|i: int|
            0 <= i < names.len() ==> !ledger.running.contains_key(#[trigger] names[i]),
        ledger.already_running(names).len() <= names.len(),
    decreases names.len(),
{
    reveal(Seq::filter);
    if names.len() > 0 {
        let front = names.drop_last();
        lemma_already_running(ledger, front);
        if ledger.already_running(names).len() == 0 {
            assert forall|i: int| 0 <= i < names.len() implies !ledger.running.contains_key(
                #[trigger] names[i],
            ) by {
                if i < names.len() - 1 {
                    assert(front[i] == names[i]);
                }
            }
        } else {
            if !ledger.running.contains_key(names.last()) {
                let i: int = choose|i: int|
                    0 <= i < front.len() && ledger.running.contains_key(#[trigger] front[i]);
                assert(front[i] == names[i]);
            }
        }
    }
}

/// A batch has an idle task in it exactly if one of its names is not running.
pub proof fn lemma_not_running(ledger: Ledger, names: Seq<Seq<char>>)
    ensures
        ledger.not_running(names).len() == 0 <==> forall|i: int|
            0 <= i < names.len() ==> ledger.running.contains_key(#[trigger] names[i]),
        ledger.not_running(names).len() <= names.len(),
    decreases names.len(),
{
    reveal(Seq::filter);
    if names.len() > 0 {
        let front = names.drop_last();
        lemma_not_running(ledger, front);
        if ledger.not_running(names).len() == 0 {
            assert forall|i: int| 0 <= i < names.len() implies ledger.running.contains_key(
                #[trigger] names[i],
            ) by {
                if i < names.len() - 1 {
                    assert(front[i] == names[i]);
                }
            }
        } else {
            if ledger.running.contains_key(names.last()) {
                let i: int = choose|i: int|
                    0 <= i < front.len() && !ledger.running.contains_key(#[trigger] front[i]);
                assert(front[i] == names[i]);
            }
        }
    }
}

/// The names that `not_running` picks from a batch are not running, and
/// those that `already_running` picks are.
pub proof fn lemma_picked_names(ledger: Ledger, names: Seq<Seq<char>>, i: int)
    ensures
        0 <= i < ledger.not_running(names).len() ==> !ledger.running.contains_key(
            ledger.not_running(names)[i],
        ),
        0 <= i < ledger.already_running(names).len() ==> ledger.running.contains_key(
            ledger.already_running(names)[i],
        ),
    decreases names.len(),
{
    reveal(Seq::filter);
    if names.len() > 0 {
        lemma_picked_names(ledger, names.drop_last(), i);
    }
}

/// The names of the first `i + 1` entries of a batch are those of the first
/// `i` and the one that follows them.
proof fn lemma_take_contains(names: Seq<Seq<char>>, i: int, name: Seq<char>)
    requires
        0 <= i < names.len(),
    ensures
        names.take(i + 1).contains(name) <==> names.take(i).contains(name) || name == names[i],
{
    assert(names.take(i + 1) =~= names.take(i).push(names[i]));
    vstd::seq_lib::lemma_seq_contains_after_push(names.take(i), names[i], name);
}

/// To start one more task of a batch is to insert it.
proof fn lemma_started_step(ledger: Ledger, names: Seq<Seq<char>>, i: int, now: i64)
    requires
        0 <= i < names.len(),
    ensures
        ledger.started(names.take(i + 1), now).running == ledger.started(
            names.take(i),
            now,
        ).running.insert(names[i], now),
{
    let front = names.take(i);
    let next = names.take(i + 1);
    assert forall|name: Seq<char>| #[trigger]
        next.contains(name) <==> front.contains(name) || name == names[i] by {
        lemma_take_contains(names, i, name);
    }
    assert(ledger.started(names.take(i + 1), now).running =~= ledger.started(
        names.take(i),
        now,
    ).running.insert(names[i], now));
}

/// To stop one more task of a batch is to take it out of the running tasks
/// and to add its time to its finished work, unless the batch held its name
/// before.
proof fn lemma_stopped_step(ledger: Ledger, names: Seq<Seq<char>>, i: int, now: i64)
    requires
        0 <= i < names.len(),
        ledger.running.contains_key(names[i]),
    ensures
        names.take(i).contains(names[i]) ==> ledger.stopped(names.take(i + 1), now)
            == ledger.stopped(names.take(i), now) && !ledger.stopped(
            names.take(i),
            now,
        ).running.contains_key(names[i]),
        !names.take(i).contains(names[i]) ==> ({
            let before = ledger.stopped(names.take(i), now);
            let after = ledger.stopped(names.take(i + 1), now);
            &&& before.running.contains_key(names[i])
            &&& before.running[names[i]] == ledger.running[names[i]]
            &&& before.total(names[i]) == ledger.total(names[i])
            &&& after.running == before.running.remove(names[i])
            &&& after.history == before.history.insert(
                names[i],
                accumulated(
                    ledger.total(names[i]),
                    elapsed_between(ledger.running[names[i]], now),
                ),
            )
        }),
{
    let before = ledger.stopped(names.take(i), now);
    let after = ledger.stopped(names.take(i + 1), now);
    let front = names.take(i);
    let next = names.take(i + 1);
    assert forall|name: Seq<char>| #[trigger]
        next.contains(name) <==> front.contains(name) || name == names[i] by {
        lemma_take_contains(names, i, name);
    }
    if names.take(i).contains(names[i]) {
        assert(after.running =~= before.running);
        assert(after.history =~= before.history);
    } else {
        assert(after.running =~= before.running.remove(names[i]));
        assert(after.history =~= before.history.insert(
            names[i],
            accumulated(ledger.total(names[i]), elapsed_between(ledger.running[names[i]], now)),
        ));
    }
}

impl Data {
    /// A ledger without tasks.
    pub fn new() -> (r: Self)
        ensures
            r@.running == Map::<Seq<char>, i64>::empty(),
            r@.history == Map::<Seq<char>, u64>::empty(),
    {
        Data { running: TaskMap::new(), history: TaskMap::new() }
    }

    /// The tasks of a batch that are running (`running` is true) or that are
    /// not (`running` is false), in the order of the batch.
    pub fn tasks_among(&self, tasks: &Vec<String>, running: bool) -> (r: Vec<String>)
        ensures
            r.deep_view() == (if running {
                self@.already_running(tasks.deep_view())
            } else {
                self@.not_running(tasks.deep_view())
            }),
    {
        let ghost names = tasks.deep_view();
        let mut found: Vec<String> = Vec::new();
        let mut i: usize = 0;
        proof {
            reveal(Seq::filter);
            assert(found.deep_view() =~= Seq::<Seq<char>>::empty());
        }
        while i < tasks.len()
            invariant
                i <= tasks.len(),
                names == tasks.deep_view(),
                found.deep_view() == (if running {
                    self@.already_running(names.take(i as int))
                } else {
                    self@.not_running(names.take(i as int))
                }),
            decreases tasks.len() - i,
        {
            let ghost so_far = found.deep_view();
            proof {
                reveal(Seq::filter);
                assert(names.take(i + 1).drop_last() =~= names.take(i as int));
                assert(names.take(i + 1).last() == tasks[i as int]@);
            }
            if self.running.contains_key(&tasks[i]) == running {
                found.push(tasks[i].clone());
                assert(found.deep_view() =~= so_far.push(tasks[i as int]@));
            }
            i += 1;
        }
        assert(names.take(i as int) =~= names);
        found
    }

    /// Starts every task of the batch at the second `now`, or none of them:
    /// where a task of the batch is running, nothing changes and the running
    /// ones are named. A name that the batch holds twice is started once.
    pub fn start_at(&mut self, tasks: &Vec<String>, now: i64) -> (r: Result<(), PunchError>)
        ensures
            final(self)@ == old(self)@.after_start(tasks.deep_view(), now),
            match r {
                Ok(_) => old(self)@.already_running(tasks.deep_view()).len() == 0,
                Err(e) => old(self)@.already_running(tasks.deep_view()).len() > 0 && e@
                    == Refusal::ExistingTasks(old(self)@.already_running(tasks.deep_view())),
            },
    {
        let existing = self.tasks_among(tasks, true);
        if existing.len() > 0 {
            return Err(PunchError::ExistingTasks(existing));
        }
        let ghost names = tasks.deep_view();
        let ghost before = self@;
        let mut i: usize = 0;
        proof {
            assert(names.take(0) =~= Seq::<Seq<char>>::empty());
            assert(before.started(names.take(0), now).running =~= before.running);
        }
        while i < tasks.len()
            invariant
                i <= tasks.len(),
                names == tasks.deep_view(),
                self@.running == before.started(names.take(i as int), now).running,
                self@.history == before.history,
            decreases tasks.len() - i,
        {
            self.running.insert(tasks[i].clone(), now);
            proof {
                lemma_started_step(before, names, i as int, now);
            }
            i += 1;
        }
        assert(names.take(i as int) =~= names);
        Ok(())
    }

    /// Stops every task of the batch at the second `now`, or none of them:
    /// where a task of the batch is not running, nothing changes and the idle
    /// ones are named. Each task that is stopped leaves the running tasks,
    /// and the seconds since its start are added to its finished work; they
    /// are handed back for each task, in the order of the batch. A name that
    /// the batch holds twice is stopped once.
    pub fn stop_at(&mut self, tasks: &Vec<String>, now: i64) -> (r: Result<Vec<u64>, PunchError>)
        ensures
            final(self)@ == old(self)@.after_stop(tasks.deep_view(), now),
            match r {
                Ok(spent) => old(self)@.not_running(tasks.deep_view()).len() == 0 && spent@
                    == old(self)@.elapsed(tasks.deep_view(), now),
                Err(e) => old(self)@.not_running(tasks.deep_view()).len() > 0 && e@
                    == Refusal::MissingTasks(old(self)@.not_running(tasks.deep_view())),
            },
    {
        let missing = self.tasks_among(tasks, false);
        if missing.len() > 0 {
            return Err(PunchError::MissingTasks(missing));
        }
        let ghost names = tasks.deep_view();
        let ghost before = self@;
        proof {
            lemma_not_running(before, names);
        }
        let mut spent: Vec<u64> = Vec::new();
        let mut i: usize = 0;
        while i < tasks.len()
            invariant
                i <= tasks.len(),
                names == tasks.deep_view(),
                self@ == before,
                forall|j: int| 0 <= j < names.len() ==> before.running.contains_key(names[j]),
                spent.len() == i,
                forall|j: int| 0 <= j < i ==> spent[j] == before.elapsed(names, now)[j],
            decreases tasks.len() - i,
        {
            assert(before.running.contains_key(names[i as int]));
            let since: i64 = self.running.get(&tasks[i]).unwrap();
            spent.push(elapsed(since, now));
            i += 1;
        }
        assert(spent@ =~= before.elapsed(names, now));
        i = 0;
        proof {
            assert(names.take(0) =~= Seq::<Seq<char>>::empty());
            assert(before.stopped(names.take(0), now).running =~= before.running);
            assert(before.stopped(names.take(0), now).history =~= before.history);
        }
        while i < tasks.len()
            invariant
                i <= tasks.len(),
                names == tasks.deep_view(),
                forall|j: int| 0 <= j < names.len() ==> before.running.contains_key(names[j]),
                self@ == before.stopped(names.take(i as int), now),
            decreases tasks.len() - i,
        {
            proof {
                assert(names[i as int] == tasks[i as int]@);
                assert(before.running.contains_key(names[i as int]));
                lemma_stopped_step(before, names, i as int, now);
            }
            match self.running.remove(&tasks[i]) {
                Some(since) => {
                    let total: u64 = match self.history.get(&tasks[i]) {
                        Some(total) => total,
                        None => 0,
                    };
                    self.history.insert(tasks[i].clone(), accumulate(total, elapsed(since, now)));
                },
                None => {
                    assert(self@.running =~= before.stopped(names.take(i as int), now).running);
                },
            }
            i += 1;
        }
        assert(names.take(i as int) =~= names);
        Ok(spent)
    }
}

/// To start a task that is running is turned down: exactly that task is
/// named, and the ledger stays as it is.
pub proof fn lemma_start_of_running_task(ledger: Ledger, name: Seq<char>, now: i64)
    requires
        ledger.running.contains_key(name),
    ensures
        ledger.already_running(seq![name]) == seq![name],
        ledger.after_start(seq![name], now) == ledger,
{
    reveal_with_fuel(Seq::filter, 2);
    assert(seq![name].drop_last() =~= Seq::<Seq<char>>::empty());
    assert(ledger.already_running(seq![name]) =~= seq![name]);
}

/// To stop a task that is not running is turned down: exactly that task is
/// named, and the ledger stays as it is.
pub proof fn lemma_stop_of_idle_task(ledger: Ledger, name: Seq<char>, now: i64)
    requires
        !ledger.running.contains_key(name),
    ensures
        ledger.not_running(seq![name]) == seq![name],
        ledger.after_stop(seq![name], now) == ledger,
{
    reveal_with_fuel(Seq::filter, 2);
    assert(seq![name].drop_last() =~= Seq::<Seq<char>>::empty());
    assert(ledger.not_running(seq![name]) =~= seq![name]);
}

/// A batch is started as a whole or not at all: one running task in it, at
/// any place, and the ledger stays as it is.
pub proof fn lemma_start_is_atomic(ledger: Ledger, names: Seq<Seq<char>>, i: int, now: i64)
    requires
        0 <= i < names.len(),
        ledger.running.contains_key(names[i]),
    ensures
        ledger.already_running(names).len() > 0,
        ledger.after_start(names, now) == ledger,
{
    lemma_already_running(ledger, names);
}

/// A batch is stopped as a whole or not at all: one idle task in it, at any
/// place, and the ledger stays as it is.
pub proof fn lemma_stop_is_atomic(ledger: Ledger, names: Seq<Seq<char>>, i: int, now: i64)
    requires
        0 <= i < names.len(),
        !ledger.running.contains_key(names[i]),
    ensures
        ledger.not_running(names).len() > 0,
        ledger.after_stop(names, now) == ledger,
{
    lemma_not_running(ledger, names);
}

/// A task that is started at `start` and stopped `seconds` later runs no
/// more, and its finished work has grown by `seconds`, as long as that fits
/// into a `u64`. Nothing else in the ledger has changed.
pub proof fn lemma_stop_after_start(ledger: Ledger, name: Seq<char>, start: i64, seconds: u64)
    requires
        !ledger.running.contains_key(name),
        start + seconds <= i64::MAX,
        ledger.total(name) + seconds <= u64::MAX,
    ensures
        ({
            let started = ledger.after_start(seq![name], start);
            let stopped = started.after_stop(seq![name], (start + seconds) as i64);
            &&& started.running == ledger.running.insert(name, start)
            &&& started.history == ledger.history
            &&& started.elapsed(seq![name], (start + seconds) as i64) == seq![seconds]
            &&& stopped.running == ledger.running
            &&& !stopped.running.contains_key(name)
            &&& stopped.history == ledger.history.insert(
                name,
                (ledger.total(name) + seconds) as u64,
            )
        }),
{
    let batch = seq![name];
    let end: i64 = (start + seconds) as i64;
    lemma_already_running(ledger, batch);
    let started = ledger.after_start(batch, start);
    assert(batch.contains(name)) by {
        assert(batch[0] == name);
    }
    assert(started.running =~= ledger.running.insert(name, start));
    lemma_not_running(started, batch);
    let stopped = started.after_stop(batch, end);
    assert(stopped.running =~= ledger.running);
    assert(stopped.history =~= ledger.history.insert(name, (ledger.total(name) + seconds) as u64));
    assert(started.elapsed(batch, end) =~= seq![seconds]);
}

/// Finished work never shrinks: a request to start leaves it as it is, and
/// a request to stop takes no task out of it and lowers no total.
pub proof fn lemma_history_never_shrinks(ledger: Ledger, names: Seq<Seq<char>>, now: i64)
    ensures
        ledger.after_start(names, now).history == ledger.history,
        forall|name: Seq<char>| #[trigger]
            ledger.history.contains_key(name) ==> ledger.after_stop(
                names,
                now,
            ).history.contains_key(name),
        forall|name: Seq<char>|
            ledger.total(name) <= #[trigger] ledger.after_stop(names, now).total(name),
{
}

impl Default for Data {
    fn default() -> (r: Self)
        ensures
            r@.running == Map::<Seq<char>, i64>::empty(),
            r@.history == Map::<Seq<char>, u64>::empty(),
    {
        Data::new()
    }
}

} // verus!
