use audit_watchdog::watch::{
    check_input, interrupt_action, log_level, output_error, queued_paths, watch_plan, CreateKind,
    EventKind, InterruptAction, ModifyKind, WatchEvent, WatchPlan,
};

#[test]
fn log_levels() {
    assert_eq!(log_level(0), "error");
    assert_eq!(log_level(1), "info");
    assert_eq!(log_level(2), "debug");
    assert_eq!(log_level(3), "trace");
    assert_eq!(log_level(255), "trace");
}

#[test]
fn interrupts() {
    assert_eq!(interrupt_action(true), InterruptAction::Finish);
    assert_eq!(interrupt_action(false), InterruptAction::Quit);
}

#[test]
fn inputs() {
    assert_eq!(check_input(Ok(true), "x"), Ok(()));
    assert_eq!(
        check_input(Ok(false), "x"),
        Err("Input file/folder x does not exist!".to_string())
    );
    assert_eq!(
        check_input(Err(()), "x"),
        Err("Input file/folder x could not be accessed!".to_string())
    );
}

#[test]
fn outputs() {
    assert_eq!(output_error("/x/y"), "Unable to create or open file /x/y");
}

#[test]
fn plans() {
    assert_eq!(watch_plan(true, None), WatchPlan { threads: 4, recursive: true });
    assert_eq!(watch_plan(true, Some(9)), WatchPlan { threads: 9, recursive: true });
    assert_eq!(watch_plan(true, Some(0)), WatchPlan { threads: 0, recursive: true });
    assert_eq!(watch_plan(false, None), WatchPlan { threads: 1, recursive: false });
    assert_eq!(watch_plan(false, Some(9)), WatchPlan { threads: 1, recursive: false });
}

fn event(kind: EventKind, paths: &[u8]) -> WatchEvent<u8> {
    WatchEvent { kind, paths: paths.to_vec() }
}

#[test]
fn paths_of_relevant_events_are_queued() {
    let events = vec![
        event(EventKind::Any, &[1]),
        event(EventKind::Create(CreateKind::Any), &[2, 3]),
        event(EventKind::Access, &[4]),
        event(EventKind::Modify(ModifyKind::Any), &[5]),
        event(EventKind::Create(CreateKind::File), &[6]),
        event(EventKind::Modify(ModifyKind::Data), &[7]),
        event(EventKind::Remove, &[8]),
        event(EventKind::Create(CreateKind::Any), &[2]),
        event(EventKind::Other, &[]),
    ];
    let paths: Vec<u8> = queued_paths(&events).into_iter().copied().collect();
    assert_eq!(paths, vec![2, 3, 5, 6, 7, 2]);
    let none: Vec<WatchEvent<u8>> = Vec::new();
    assert!(queued_paths(&none).is_empty());
}

#[test]
fn batches_of_events_do_not_matter() {
    let first = vec![event(EventKind::Create(CreateKind::Any), &[1])];
    let second = vec![event(EventKind::Modify(ModifyKind::Any), &[2])];
    let both = vec![
        event(EventKind::Create(CreateKind::Any), &[1]),
        event(EventKind::Modify(ModifyKind::Any), &[2]),
    ];
    let mut one_by_one = queued_paths(&first);
    one_by_one.append(&mut queued_paths(&second));
    assert_eq!(queued_paths(&both), one_by_one);
}
