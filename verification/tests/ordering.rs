use delta_kernel::actions::{Action, Protocol, SetTransaction};
use delta_kernel::ordering::{goes_before, order_files, sort_actions};
use delta_kernel::scan::{DvInfo, ScanFile};

fn txn(app: &str, row: usize) -> Action {
    Action::SetTransaction(SetTransaction { app_id: app.to_string(), version: 1 }, row)
}

fn protocol(row: usize) -> Action {
    Action::Protocol(
        Protocol {
            min_reader_version: 1,
            min_writer_version: 2,
            reader_features: None,
            writer_features: None,
        },
        row,
    )
}

fn labels(actions: &[Action]) -> Vec<(String, usize)> {
    actions
        .iter()
        .map(|a| match a {
            Action::SetTransaction(t, row) => (t.app_id.clone(), *row),
            other => ("protocol".to_string(), other.row()),
        })
        .collect()
}

fn label(name: &str, row: usize) -> (String, usize) {
    (name.to_string(), row)
}

#[test]
fn sorting_nothing_gives_nothing() {
    assert_eq!(sort_actions(vec![], true), vec![]);
    assert_eq!(sort_actions(vec![], false), vec![]);
}

#[test]
fn ascending_order_puts_the_lowest_row_first() {
    let sorted = sort_actions(vec![txn("c", 5), txn("a", 1), txn("b", 3)], true);
    assert_eq!(labels(&sorted), vec![label("a", 1), label("b", 3), label("c", 5)]);
}

#[test]
fn descending_order_puts_the_highest_row_first() {
    let sorted = sort_actions(vec![txn("a", 1), txn("c", 5), txn("b", 3)], false);
    assert_eq!(labels(&sorted), vec![label("c", 5), label("b", 3), label("a", 1)]);
}

#[test]
fn actions_of_one_row_keep_their_order_when_ascending() {
    let sorted = sort_actions(
        vec![txn("x", 2), txn("first", 1), protocol(1), txn("last", 1), txn("y", 0)],
        true,
    );
    assert_eq!(
        labels(&sorted),
        vec![
            label("y", 0),
            label("first", 1),
            label("protocol", 1),
            label("last", 1),
            label("x", 2)
        ]
    );
}

#[test]
fn actions_of_one_row_keep_their_order_when_descending() {
    let sorted = sort_actions(
        vec![txn("y", 0), txn("first", 1), protocol(1), txn("last", 1), txn("x", 2)],
        false,
    );
    assert_eq!(
        labels(&sorted),
        vec![
            label("x", 2),
            label("first", 1),
            label("protocol", 1),
            label("last", 1),
            label("y", 0)
        ]
    );
}

#[test]
fn sorting_agrees_with_the_standard_stable_sort() {
    let make = || -> Vec<Action> {
        (0..200usize).map(|i| txn(&format!("t{i}"), (i * 7919) % 23)).collect()
    };
    let mut expected = make();
    expected.sort_by(|a, b| a.row().cmp(&b.row()));
    assert_eq!(sort_actions(make(), true), expected);
    let mut expected = make();
    expected.sort_by(|a, b| b.row().cmp(&a.row()));
    assert_eq!(sort_actions(make(), false), expected);
}

#[test]
fn a_row_goes_before_another_by_the_requested_direction() {
    assert!(goes_before(1, 2, true));
    assert!(!goes_before(2, 1, true));
    assert!(!goes_before(2, 2, true));
    assert!(goes_before(2, 1, false));
    assert!(!goes_before(1, 2, false));
    assert!(!goes_before(2, 2, false));
}

fn file(path: &str) -> ScanFile {
    ScanFile {
        path: path.to_string(),
        size: 1,
        stats: None,
        dv_info: DvInfo { deletion_vector: None },
        partition_values: vec![],
    }
}

#[test]
fn files_keep_their_order_when_ascending() {
    let ordered = order_files(vec![file("a"), file("b"), file("c")], true);
    assert_eq!(ordered, vec![file("a"), file("b"), file("c")]);
}

#[test]
fn files_are_reversed_when_descending() {
    let ordered = order_files(vec![file("a"), file("b"), file("c")], false);
    assert_eq!(ordered, vec![file("c"), file("b"), file("a")]);
    assert_eq!(order_files(vec![], false), vec![]);
    assert_eq!(order_files(vec![file("only")], false), vec![file("only")]);
}
