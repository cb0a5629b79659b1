use comfy_table::Table;
use punch::args::HistoryMode;
use punch::data::Data;
use punch::duration::PrettyDuration;
use punch::report::{sort_descending, TaskRow};
use punch::table::table;
use punch::task_map::TaskMap;

fn names(list: &[&str]) -> Vec<String> {
    list.iter().map(|s| s.to_string()).collect()
}

fn entry<V>(name: &str, value: V) -> (String, V) {
    (name.to_string(), value)
}

fn with_history(entries: Vec<(String, u64)>) -> Data {
    Data { running: TaskMap::new(), history: TaskMap::from_entries(entries) }
}

fn plain(rows: &[TaskRow]) -> Vec<(String, u64, u64, u64, u64)> {
    rows.iter()
        .map(|r| {
            (
                r.task.clone(),
                r.duration.days,
                r.duration.hours,
                r.duration.minutes,
                r.duration.seconds,
            )
        })
        .collect()
}

fn cells(table: &Table) -> Vec<Vec<String>> {
    table.row_iter().map(|row| row.cell_iter().map(|cell| cell.content()).collect()).collect()
}

fn header(table: &Table) -> Vec<String> {
    match table.header() {
        Some(row) => row.cell_iter().map(|cell| cell.content()).collect(),
        None => Vec::new(),
    }
}

#[test]
fn empty_ledger_renders_no_rows() {
    let data = Data::new();
    assert!(data.render_running(1000).is_empty());
    assert!(data.render_history(HistoryMode::Sum).is_empty());
    assert!(data.render_history(HistoryMode::Average).is_empty());
    assert!(data.table_running_at(1000).is_empty());
    assert!(data.table_history(HistoryMode::Sum).is_empty());
}

#[test]
fn running_rows_show_time_since_start() {
    let mut data = Data::new();
    data.start_at(&names(&["a"]), 1000).unwrap();
    data.start_at(&names(&["b"]), 1000 + 90061 - 59).unwrap();
    let mut rows = plain(&data.render_running(1000 + 90061));
    rows.sort();
    assert_eq!(rows, vec![("a".to_string(), 1, 1, 1, 1), ("b".to_string(), 0, 0, 0, 59)]);
}

#[test]
fn running_rows_follow_the_snapshot() {
    let mut data = Data::new();
    data.start_at(&names(&["x", "y", "z"]), 5).unwrap();
    data.stop_at(&names(&["y"]), 6).unwrap();
    data.start_at(&names(&["w"]), 7).unwrap();
    let snapshot: Vec<String> = data.running_snapshot().into_iter().map(|e| e.0).collect();
    let rows: Vec<String> = data.render_running(10).into_iter().map(|r| r.task).collect();
    assert_eq!(rows, snapshot);
    assert_eq!(rows.len(), 3);
}

#[test]
fn running_rows_before_the_start_show_zero() {
    let mut data = Data::new();
    data.start_at(&names(&["a"]), 1000).unwrap();
    assert_eq!(plain(&data.render_running(10)), vec![("a".to_string(), 0, 0, 0, 0)]);
}

#[test]
fn history_is_sorted_by_descending_seconds() {
    let data = with_history(vec![entry("a", 50), entry("b", 200), entry("c", 200)]);
    let rows = plain(&data.render_history(HistoryMode::Sum));
    assert_eq!(rows.len(), 3);
    assert_eq!(rows[2], ("a".to_string(), 0, 0, 0, 50));
    let mut first: Vec<_> = rows[..2].to_vec();
    first.sort();
    assert_eq!(first, vec![("b".to_string(), 0, 0, 3, 20), ("c".to_string(), 0, 0, 3, 20)]);
}

#[test]
fn history_rows_are_decomposed() {
    let data = with_history(vec![entry("short", 59), entry("long", 90061), entry("hour", 3600)]);
    assert_eq!(
        plain(&data.render_history(HistoryMode::Sum)),
        vec![
            ("long".to_string(), 1, 1, 1, 1),
            ("hour".to_string(), 0, 1, 0, 0),
            ("short".to_string(), 0, 0, 0, 59),
        ]
    );
}

#[test]
fn average_shows_what_sum_shows() {
    let mut data = Data::new();
    data.start_at(&names(&["a", "b"]), 0).unwrap();
    data.stop_at(&names(&["a"]), 100).unwrap();
    data.stop_at(&names(&["b"]), 300).unwrap();
    data.start_at(&names(&["a"]), 400).unwrap();
    data.stop_at(&names(&["a"]), 450).unwrap();
    let sum = plain(&data.render_history(HistoryMode::Sum));
    let average = plain(&data.render_history(HistoryMode::Average));
    assert_eq!(sum, vec![("b".to_string(), 0, 0, 5, 0), ("a".to_string(), 0, 0, 2, 30)]);
    assert_eq!(average, sum);
}

#[test]
fn rendering_leaves_the_ledger_alone() {
    let mut data = Data::new();
    data.start_at(&names(&["a", "b"]), 0).unwrap();
    data.stop_at(&names(&["a"]), 100).unwrap();
    let running = data.running_snapshot();
    let history = data.history_snapshot();
    data.render_running(500);
    data.render_history(HistoryMode::Sum);
    data.table_running();
    data.table_history(HistoryMode::Average);
    assert_eq!(data.running_snapshot(), running);
    assert_eq!(data.history_snapshot(), history);
}

#[test]
fn sort_puts_the_most_seconds_first() {
    let sorted = sort_descending(&vec![
        entry("a", 3u64),
        entry("b", 9),
        entry("c", 3),
        entry("d", 0),
        entry("e", 10),
    ]);
    let seconds: Vec<u64> = sorted.iter().map(|e| e.1).collect();
    assert_eq!(seconds, vec![10, 9, 3, 3, 0]);
    let mut all = sorted.clone();
    all.sort();
    assert_eq!(
        all,
        vec![entry("a", 3u64), entry("b", 9), entry("c", 3), entry("d", 0), entry("e", 10)]
    );
    assert!(sort_descending(&Vec::new()).is_empty());
}

#[test]
fn table_has_header_and_one_row_per_task() {
    let rows = vec![
        TaskRow { task: "write".to_string(), duration: PrettyDuration::new(90061) },
        TaskRow { task: "read".to_string(), duration: PrettyDuration::new(59) },
    ];
    let t = table(&rows);
    assert_eq!(header(&t), vec!["Task", "Days", "Hours", "Minutes", "Seconds"]);
    assert_eq!(
        cells(&t),
        vec![vec!["write", "1", "1", "1", "1"], vec!["read", "0", "0", "0", "59"]]
    );
    assert_eq!(t.row_count(), 2);
}

#[test]
fn table_is_drawn_with_full_borders() {
    let rows = vec![TaskRow { task: "a".to_string(), duration: PrettyDuration::new(61) }];
    let text = table(&rows).to_string();
    let lines: Vec<&str> = text.lines().collect();
    assert_eq!(lines.len(), 5);
    assert!(lines[0].starts_with('┌') && lines[0].ends_with('┐'));
    assert!(lines[1].contains("Task") && lines[1].contains("Seconds"));
    assert!(lines[3].starts_with('│') && lines[3].contains(" a "));
    assert!(lines[4].starts_with('└') && lines[4].ends_with('┘'));
}

#[test]
fn table_of_no_rows_has_only_the_header() {
    let t = table(&Vec::new());
    assert!(t.is_empty());
    assert_eq!(header(&t), vec!["Task", "Days", "Hours", "Minutes", "Seconds"]);
}

#[test]
fn table_keeps_names_with_line_breaks() {
    let rows = vec![TaskRow { task: "two\nlines".to_string(), duration: PrettyDuration::new(0) }];
    assert_eq!(cells(&table(&rows)), vec![vec!["two\nlines", "0", "0", "0", "0"]]);
}

#[test]
fn table_running_at_shows_the_running_tasks() {
    let mut data = Data::new();
    data.start_at(&names(&["a"]), 100).unwrap();
    let t = data.table_running_at(100 + 3600);
    assert_eq!(cells(&t), vec![vec!["a", "0", "1", "0", "0"]]);
    assert_eq!(header(&t), vec!["Task", "Days", "Hours", "Minutes", "Seconds"]);
}

#[test]
fn table_running_reads_the_clock() {
    let mut data = Data::new();
    data.start_at(&names(&["a"]), 0).unwrap();
    let t = data.table_running();
    let rows = cells(&t);
    assert_eq!(rows.len(), 1);
    assert_eq!(rows[0][0], "a");
    let days: u64 = rows[0][1].parse().unwrap();
    assert!(days > 50 * 365);
}

#[test]
fn table_history_is_sorted() {
    let data = with_history(vec![entry("a", 50), entry("b", 200)]);
    let t = data.table_history(HistoryMode::Sum);
    assert_eq!(cells(&t), vec![vec!["b", "0", "0", "3", "20"], vec!["a", "0", "0", "0", "50"]]);
}
