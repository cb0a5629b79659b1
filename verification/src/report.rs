//! The rows that are shown of a ledger: the running tasks with the time since
//! their start, and the finished work, longest first.

use crate::args::HistoryMode;
use crate::data::Data;
use crate::duration::{elapsed, elapsed_between, lemma_decompose_adds_up, PrettyDuration};
use crate::task_map::{entries_of, lists, Entry};
use vstd::prelude::*;

verus! {

/// A task and a duration, broken down for display.
#[derive(Debug)]
pub struct TaskRow {
    pub task: String,
    pub duration: PrettyDuration,
}

/// A `TaskRow` as contracts see it.
pub type Row = (Seq<char>, PrettyDuration);

impl DeepView for TaskRow {
    type V = Row;

    open spec fn deep_view(&self) -> Row {
        (self.task@, self.duration)
    }
}

/// One row for each running task: the time from its start to `now`.
pub open spec fn running_rows(listing: Seq<Entry<i64>>, now: i64) -> Seq<Row> {
    Seq::new(
        listing.len(),
        |i: int| (listing[i].0, PrettyDuration::decompose(elapsed_between(listing[i].1, now))),
    )
}

/// One row for each task with finished work: that work.
pub open spec fn history_rows(listing: Seq<Entry<u64>>) -> Seq<Row> {
    Seq::new(listing.len(), |i: int| (listing[i].0, PrettyDuration::decompose(listing[i].1)))
}

/// The tasks of some rows, each with the seconds that its row shows.
pub open spec fn seconds_shown(rows: Seq<Row>) -> Seq<Entry<u64>> {
    Seq::new(rows.len(), |i: int| (rows[i].0, rows[i].1.total_seconds() as u64))
}

/// No entry holds more seconds than one before it.
pub open spec fn descending(s: Seq<Entry<u64>>) -> bool {
    forall|i: int, j: int| #![trigger s[i], s[j]] 0 <= i < j < s.len() ==> s[i].1 >= s[j].1
}

/// `rows` shows the finished work of `history`: one row for each of its tasks,
/// with the seconds of that task broken down, in descending order of those
/// seconds.
pub open spec fn shows_history(rows: Seq<Row>, history: Map<Seq<char>, u64>) -> bool {
    &&& lists(seconds_shown(rows), history)
    &&& descending(seconds_shown(rows))
    &&& rows == history_rows(seconds_shown(rows))
}

/// A list that holds the entries of a listing of `m`, each as often, in
/// whatever order, is a listing of `m` too.
pub proof fn lemma_reordered_listing(
    s: Seq<Entry<u64>>,
    sorted: Seq<Entry<u64>>,
    m: Map<Seq<char>, u64>,
)
    requires
        lists(s, m),
        sorted.to_multiset() == s.to_multiset(),
    ensures
        lists(sorted, m),
{
    s.to_multiset_ensures();
    sorted.to_multiset_ensures();
    assert(s.no_duplicates()) by {
        assert forall|i: int, j: int| 0 <= i < s.len() && 0 <= j < s.len() && i != j implies s[i]
            != s[j] by {
            if i < j {
                assert(s[i].0 != s[j].0);
            } else {
                assert(s[j].0 != s[i].0);
            }
        }
    }
    s.lemma_multiset_has_no_duplicates();
    sorted.lemma_multiset_has_no_duplicates_conv();
    assert forall|i: int| 0 <= i < sorted.len() implies m.contains_pair(
        (#[trigger] sorted[i]).0,
        sorted[i].1,
    ) by {
        assert(sorted.contains(sorted[i]));
        assert(s.to_multiset().count(sorted[i]) > 0);
        assert(s.contains(sorted[i]));
        let j: int = choose|j: int| 0 <= j < s.len() && s[j] == sorted[i];
        assert(m.contains_pair(s[j].0, s[j].1));
    }
    assert forall|k: Seq<char>| #[trigger] m.contains_key(k) implies exists|i: int|
        0 <= i < sorted.len() && (#[trigger] sorted[i]).0 == k by {
        let j: int = choose|j: int| 0 <= j < s.len() && (#[trigger] s[j]).0 == k;
        assert(s.contains(s[j]));
        assert(sorted.to_multiset().count(s[j]) > 0);
        assert(sorted.contains(s[j]));
        let i: int = choose|i: int| 0 <= i < sorted.len() && sorted[i] == s[j];
        assert(sorted[i].0 == k);
    }
    assert forall|a: int, b: int| 0 <= a < b < sorted.len() implies (#[trigger] sorted[a]).0 != (
    #[trigger] sorted[b]).0 by {
        assert(m.contains_pair(sorted[a].0, sorted[a].1));
        assert(m.contains_pair(sorted[b].0, sorted[b].1));
        assert(sorted[a] != sorted[b]);
    }
}

/// Orders entries by their seconds, the most first. The result holds each
/// entry as often as `entries` does.
pub fn sort_descending(entries: &Vec<(String, u64)>) -> (r: Vec<(String, u64)>)
    ensures
        descending(entries_of(r@)),
        entries_of(r@).to_multiset() == entries_of(entries@).to_multiset(),
{
    let ghost input = entries_of(entries@);
    let mut sorted: Vec<(String, u64)> = Vec::new();
    let mut i: usize = 0;
    assert(entries_of(sorted@) =~= input.take(0));
    while i < entries.len()
        invariant
            i <= entries.len(),
            input == entries_of(entries@),
            descending(entries_of(sorted@)),
            entries_of(sorted@).to_multiset() == input.take(i as int).to_multiset(),
        decreases entries.len() - i,
    {
        let seconds: u64 = entries[i].1;
        let ghost before = entries_of(sorted@);
        let mut at: usize = 0;
        while at < sorted.len() && sorted[at].1 >= seconds
            invariant
                at <= sorted.len(),
                before == entries_of(sorted@),
                forall|j: int| 0 <= j < at ==> (#[trigger] before[j]).1 >= seconds,
            decreases sorted.len() - at,
        {
            at += 1;
        }
        sorted.insert(at, (entries[i].0.clone(), seconds));
        proof {
            let entry = input[i as int];
            assert(entries_of(sorted@) =~= before.insert(at as int, entry));
            lemma_insert_keeps_order(before, at as int, entry);
            vstd::seq_lib::to_multiset_insert(before, at as int, entry);
            vstd::seq_lib::to_multiset_build(input.take(i as int), entry);
            assert(input.take(i + 1) =~= input.take(i as int).push(entry));
        }
        i += 1;
    }
    assert(input.take(i as int) =~= input);
    sorted
}

/// An entry that is put behind all entries with as many seconds or more, and
/// before one with fewer, leaves the list in descending order.
proof fn lemma_insert_keeps_order(s: Seq<Entry<u64>>, at: int, entry: Entry<u64>)
    requires
        descending(s),
        0 <= at <= s.len(),
        forall|j: int| 0 <= j < at ==> (#[trigger] s[j]).1 >= entry.1,
        at < s.len() ==> s[at].1 < entry.1,
    ensures
        descending(s.insert(at, entry)),
{
    let t = s.insert(at, entry);
    assert forall|i: int, j: int| 0 <= i < j < t.len() implies (#[trigger] t[i]).1 >= (
    #[trigger] t[j]).1 by {
        if j < at {
            assert(s[i].1 >= s[j].1);
        } else if j == at {
            assert(s[i].1 >= entry.1);
        } else if i < at {
            assert(s[i].1 >= s[j - 1].1);
        } else if i == at {
            assert(s[at].1 >= s[j - 1].1);
        } else {
            assert(s[i - 1].1 >= s[j - 1].1);
        }
    }
}

impl Data {
    /// The running tasks, each with the second of its start, in the order in
    /// which the ledger lists them.
    pub fn running_snapshot(&self) -> (r: Vec<(String, i64)>)
        ensures
            entries_of(r@) == self.running.listing(),
            lists(self.running.listing(), self@.running),
    {
        self.running.entries()
    }

    /// The tasks with finished work, each with its seconds, in the order in
    /// which the ledger lists them.
    pub fn history_snapshot(&self) -> (r: Vec<(String, u64)>)
        ensures
            entries_of(r@) == self.history.listing(),
            lists(self.history.listing(), self@.history),
    {
        self.history.entries()
    }

    /// One row for each running task, in the order of `running_snapshot`:
    /// the time from the start of the task to `now`, broken down.
    pub fn render_running(&self, now: i64) -> (r: Vec<TaskRow>)
        ensures
            r.deep_view() == running_rows(self.running.listing(), now),
            lists(self.running.listing(), self@.running),
    {
        let entries = self.running.entries();
        let mut rows: Vec<TaskRow> = Vec::new();
        let mut i: usize = 0;
        while i < entries.len()
            invariant
                i <= entries.len(),
                rows.len() == i,
                forall|j: int|
                    0 <= j < i ==> (#[trigger] rows[j]).deep_view() == running_rows(
                        entries_of(entries@),
                        now,
                    )[j],
            decreases entries.len() - i,
        {
            let duration = PrettyDuration::new(elapsed(entries[i].1, now));
            rows.push(TaskRow { task: entries[i].0.clone(), duration });
            i += 1;
        }
        assert(rows.deep_view() =~= running_rows(entries_of(entries@), now));
        rows
    }

    /// One row for each task with finished work: its seconds, broken down.
    /// The rows stand in descending order of those seconds, tasks with the
    /// same seconds in no order that is promised. Both modes show the sum of
    /// a task's seconds.
    pub fn render_history(&self, mode: HistoryMode) -> (r: Vec<TaskRow>)
        ensures
            shows_history(r.deep_view(), self@.history),
    {
        let entries = self.history.entries();
        let sorted = sort_descending(&entries);
        let mut rows: Vec<TaskRow> = Vec::new();
        let mut i: usize = 0;
        while i < sorted.len()
            invariant
                i <= sorted.len(),
                rows.len() == i,
                forall|j: int|
                    0 <= j < i ==> (#[trigger] rows[j]).deep_view() == history_rows(
                        entries_of(sorted@),
                    )[j],
            decreases sorted.len() - i,
        {
            let duration = match mode {
                HistoryMode::Sum => PrettyDuration::new(sorted[i].1),
                HistoryMode::Average => PrettyDuration::new(sorted[i].1),
            };
            rows.push(TaskRow { task: sorted[i].0.clone(), duration });
            i += 1;
        }
        proof {
            let listing = entries_of(sorted@);
            assert(rows.deep_view() =~= history_rows(listing));
            assert(seconds_shown(rows.deep_view()) =~= listing) by {
                assert forall|j: int| 0 <= j < listing.len() implies seconds_shown(
                    rows.deep_view(),
                )[j] == listing[j] by {
                    lemma_decompose_adds_up(listing[j].1);
                }
            }
            lemma_reordered_listing(self.history.listing(), listing, self@.history);
        }
        rows
    }
}

} // verus!
