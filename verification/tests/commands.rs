use punch::args::{args, Action, HistoryMode, Request, Selection};
use punch::data::Data;
use punch::error::PunchError;
use punch::commands::{start, started_message, stop, stopped_message};
use punch::task_map::TaskMap;
use std::time::{SystemTime, UNIX_EPOCH};

fn names(list: &[&str]) -> Vec<String> {
    list.iter().map(|s| s.to_string()).collect()
}

fn entry<V>(name: &str, value: V) -> (String, V) {
    (name.to_string(), value)
}

fn system_second() -> i64 {
    SystemTime::now().duration_since(UNIX_EPOCH).unwrap().as_secs() as i64
}

#[test]
fn start_uses_the_clock() {
    let mut data = Data::new();
    let before = system_second();
    let now = start(&mut data, names(&["a", "b"])).unwrap();
    let after = system_second();
    assert!(before <= now && now <= after);
    let mut running = data.running_snapshot();
    running.sort();
    assert_eq!(running, vec![entry("a", now), entry("b", now)]);
}

#[test]
fn start_refuses_running_tasks() {
    let mut data = Data::new();
    data.start_at(&names(&["a"]), 5).unwrap();
    match start(&mut data, names(&["b", "a"])) {
        Err(PunchError::ExistingTasks(found)) => assert_eq!(found, names(&["a"])),
        other => panic!("unexpected {:?}", other),
    }
    assert_eq!(data.running_snapshot(), vec![entry("a", 5)]);
}

#[test]
fn stop_uses_the_clock() {
    let mut data = Data::new();
    let begun = system_second() - 125;
    data.start_at(&names(&["a"]), begun).unwrap();
    let (now, spent) = stop(&mut data, names(&["a"])).unwrap();
    assert!(now >= begun + 125 && now <= begun + 130);
    assert_eq!(spent, vec![(now - begun) as u64]);
    assert_eq!(data.history_snapshot(), vec![entry("a", (now - begun) as u64)]);
    assert!(data.running_snapshot().is_empty());
}

#[test]
fn stop_refuses_idle_tasks() {
    let mut data = Data::new();
    match stop(&mut data, names(&["a"])) {
        Err(PunchError::MissingTasks(found)) => assert_eq!(found, names(&["a"])),
        other => panic!("unexpected {:?}", other),
    }
    assert!(data.running_snapshot().is_empty());
    assert!(data.history_snapshot().is_empty());
}

#[test]
fn error_messages_list_the_names() {
    let e = PunchError::ExistingTasks(names(&["a", "b c"]));
    assert_eq!(e.message(), "The following tasks already exist: [\"a\", \"b c\"]");
    assert_eq!(e.names(), &names(&["a", "b c"]));
    let e = PunchError::MissingTasks(names(&["say \"hi\""]));
    assert_eq!(e.message(), "The following tasks do not exist: [\"say \\\"hi\\\"\"]");
    let e = PunchError::MissingTasks(Vec::new());
    assert_eq!(e.message(), "The following tasks do not exist: []");
}

#[test]
fn error_message_around_a_given_list() {
    let e = PunchError::ExistingTasks(names(&["a"]));
    assert_eq!(e.message_around("a and b"), "The following tasks already exist: a and b");
    let e = PunchError::MissingTasks(names(&["a"]));
    assert_eq!(e.message_around(""), "The following tasks do not exist: ");
}

fn sample() -> Data {
    let mut data = Data {
        running: TaskMap::new(),
        history: TaskMap::from_entries(vec![entry("done", 10u64), entry("both", 20)]),
    };
    data.start_at(&names(&["both", "fresh"]), 100).unwrap();
    data
}

#[test]
fn args_list_and_history() {
    let data = sample();
    assert!(matches!(args(&data, "list", Vec::new(), false), Request::Ready(Action::List)));
    assert!(matches!(
        args(&data, "history", Vec::new(), false),
        Request::Ready(Action::History(HistoryMode::Sum))
    ));
    assert!(matches!(
        args(&data, "history", Vec::new(), true),
        Request::Ready(Action::History(HistoryMode::Average))
    ));
}

#[test]
fn args_with_tasks_passes_them_on() {
    let data = sample();
    match args(&data, "in", names(&["x", "both"]), false) {
        Request::Ready(Action::Start(tasks)) => assert_eq!(tasks, names(&["x", "both"])),
        other => panic!("unexpected {:?}", other),
    }
    match args(&data, "out", names(&["y"]), true) {
        Request::Ready(Action::Stop(tasks)) => assert_eq!(tasks, names(&["y"])),
        other => panic!("unexpected {:?}", other),
    }
}

#[test]
fn args_without_tasks_offers_a_choice() {
    let data = sample();
    match args(&data, "in", Vec::new(), false) {
        Request::Select(Selection { stop, options }) => {
            assert!(!stop);
            assert_eq!(options, names(&["done"]));
        }
        other => panic!("unexpected {:?}", other),
    }
    match args(&data, "out", Vec::new(), false) {
        Request::Select(Selection { stop, mut options }) => {
            assert!(stop);
            options.sort();
            assert_eq!(options, names(&["both", "fresh"]));
        }
        other => panic!("unexpected {:?}", other),
    }
}

#[test]
fn args_without_tasks_and_without_options() {
    let data = Data::new();
    match args(&data, "in", Vec::new(), false) {
        Request::Ready(Action::Start(tasks)) => assert!(tasks.is_empty()),
        other => panic!("unexpected {:?}", other),
    }
    match args(&data, "out", Vec::new(), false) {
        Request::Ready(Action::Stop(tasks)) => assert!(tasks.is_empty()),
        other => panic!("unexpected {:?}", other),
    }
    let mut busy = Data::new();
    busy.start_at(&names(&["a"]), 1).unwrap();
    busy.stop_at(&names(&["a"]), 2).unwrap();
    busy.start_at(&names(&["a"]), 3).unwrap();
    match args(&busy, "in", Vec::new(), false) {
        Request::Ready(Action::Start(tasks)) => assert!(tasks.is_empty()),
        other => panic!("unexpected {:?}", other),
    }
}

#[test]
fn pick_takes_one_option() {
    let selection = Selection { stop: false, options: names(&["a", "b", "c"]) };
    match selection.pick(1) {
        Action::Start(tasks) => assert_eq!(tasks, names(&["b"])),
        other => panic!("unexpected {:?}", other),
    }
    let selection = Selection { stop: true, options: names(&["a", "b", "c"]) };
    match selection.pick(2) {
        Action::Stop(tasks) => assert_eq!(tasks, names(&["c"])),
        other => panic!("unexpected {:?}", other),
    }
}

#[test]
fn offered_tasks_can_be_started_and_stopped() {
    let mut data = sample();
    let offered = match args(&data, "in", Vec::new(), false) {
        Request::Select(selection) => selection,
        other => panic!("unexpected {:?}", other),
    };
    for index in 0..offered.options.len() {
        match offered.pick(index) {
            Action::Start(tasks) => assert!(data.start_at(&tasks, 200).is_ok()),
            other => panic!("unexpected {:?}", other),
        }
    }
    let offered = match args(&data, "out", Vec::new(), false) {
        Request::Select(selection) => selection,
        other => panic!("unexpected {:?}", other),
    };
    assert_eq!(offered.options.len(), 3);
    for index in 0..offered.options.len() {
        match offered.pick(index) {
            Action::Stop(tasks) => assert!(data.stop_at(&tasks, 300).is_ok()),
            other => panic!("unexpected {:?}", other),
        }
    }
    assert!(data.running_snapshot().is_empty());
}

#[test]
fn confirmation_lines() {
    assert_eq!(
        started_message("write", "2024-02-29 12:00:00 +01:00"),
        "Starting task `write` at 2024-02-29 12:00:00 +01:00"
    );
    assert_eq!(
        stopped_message("write", 90061),
        "Stopped task `write` after 1 days, 1 hours, 1 minutes, 1 seconds"
    );
    assert_eq!(
        stopped_message("", 0),
        "Stopped task `` after 0 days, 0 hours, 0 minutes, 0 seconds"
    );
}
