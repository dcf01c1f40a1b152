use delta_kernel::actions::Action;
use delta_kernel::batch::{Batch, Cell};
use delta_kernel::error::Error;
use delta_kernel::flatten::{flatten_batch, flatten_row, read_log_file};
use delta_kernel::log_schema::get_log_schema;
use delta_kernel::reader::{read_file, read_files, PhysicalFile};
use delta_kernel::scan::{reconcile, Reconciler};
use delta_kernel::schema::{fields_in_all, ActionOffsets, DataType, Field, StructType};
use delta_kernel::stats::{num_records_label, Stats};
use delta_kernel::visitor::LogVisitor;

fn text(s: &str) -> Cell {
    Cell::Str(s.to_string())
}

fn nulls(n: usize) -> Vec<Cell> {
    (0..n).map(|_| Cell::Null).collect()
}

fn add(path: &str, stats: Option<&str>) -> Cell {
    Cell::Record(vec![
        text(path),
        Cell::Dict(vec![("day".to_string(), "1".to_string())]),
        Cell::Long(10),
        Cell::Long(20),
        match stats {
            Some(s) => text(s),
            None => Cell::Null,
        },
        Cell::Null,
    ])
}

fn remove(path: &str) -> Cell {
    Cell::Record(vec![text(path), Cell::Null, Cell::Null, Cell::Long(30), Cell::Null])
}

fn protocol(reader: i32) -> Cell {
    Cell::Record(vec![Cell::Int(reader), Cell::Int(2), Cell::Null, Cell::Null])
}

/// A row in the order of the log schema: add, remove, metaData, protocol, txn.
fn row(add: Cell, remove: Cell, protocol: Cell) -> Vec<Cell> {
    vec![add, remove, Cell::Null, protocol, Cell::Null]
}

/// A file that holds the log columns in the given order.
fn file(order: &[usize], rows: &[Vec<Cell>]) -> PhysicalFile {
    let names = ["add", "remove", "metaData", "protocol", "txn"];
    let copy = |c: &Cell| delta_kernel::projection::copy_cell(c);
    PhysicalFile {
        columns: order.iter().map(|i| names[*i].to_string()).collect(),
        batches: vec![Batch::new(
            rows.iter().map(|r| order.iter().map(|i| copy(&r[*i])).collect()).collect(),
        )],
    }
}

fn actions_of(files: &[PhysicalFile]) -> Vec<Action> {
    let schema = get_log_schema();
    let mut visitor = LogVisitor::new(&schema).unwrap();
    for f in files {
        visitor.visit(&read_log_file(f, &schema).unwrap()).unwrap();
    }
    visitor.actions
}

#[test]
fn a_log_file_is_laid_out_by_the_schema_whatever_its_column_order() {
    let schema = get_log_schema();
    let offsets = ActionOffsets::for_schema(&schema).unwrap();
    let rows = [row(add("a", None), remove("b"), protocol(3))];
    let first = read_log_file(&file(&[0, 1, 2, 3, 4], &rows), &schema).unwrap();
    let second = read_log_file(&file(&[4, 2, 0, 3, 1], &rows), &schema).unwrap();
    assert_eq!(first, second);
    let leaves = &first.rows[0];
    assert_eq!(Some(leaves.len()), fields_in_all(&schema.fields));
    assert_eq!(leaves[offsets.add], text("a"));
    assert_eq!(leaves[offsets.remove], text("b"));
    assert_eq!(leaves[offsets.protocol], Cell::Int(3));
    assert_eq!(leaves[offsets.metadata], Cell::Null);
    assert_eq!(leaves[offsets.txn], Cell::Null);
    // Reading again, and computing the offsets again, changes nothing.
    assert_eq!(read_log_file(&file(&[4, 2, 0, 3, 1], &rows), &schema).unwrap(), first);
    assert_eq!(ActionOffsets::for_schema(&schema).unwrap(), offsets);
}

#[test]
fn a_row_with_an_add_and_a_protocol_passes_the_reader_with_both() {
    let schema = get_log_schema();
    let physical = file(&[3, 0, 1, 2, 4], &[row(add("a", None), Cell::Null, protocol(1))]);
    let nested = read_file(&physical, &schema, &None).unwrap();
    assert_eq!(nested.rows.len(), 1);
    assert_eq!(nested.rows[0][0], add("a", None));
    assert_eq!(nested.rows[0][3], protocol(1));
    let actions = actions_of(&[physical]);
    assert_eq!(actions.len(), 2);
    assert!(matches!(&actions[0], Action::Add(a, 0) if a.path == "a"));
    assert!(matches!(&actions[1], Action::Protocol(p, 0) if p.min_reader_version == 1));
}

#[test]
fn missing_statistics_stay_missing_through_the_reader() {
    let schema = get_log_schema();
    let offsets = ActionOffsets::for_schema(&schema).unwrap();
    let physical = file(&[0, 1, 2, 3, 4], &[row(add("a", None), Cell::Null, Cell::Null)]);
    let read = read_log_file(&physical, &schema).unwrap();
    assert_eq!(read.rows[0][offsets.add], text("a"));
    assert_eq!(read.rows[0][offsets.add + 4], Cell::Null);
    let files = reconcile(actions_of(&[physical]));
    assert_eq!(files.len(), 1);
    assert_eq!(files[0].stats, None);
    assert_eq!(num_records_label(&files[0].stats), "[unknown]");
}

#[test]
fn an_add_keeps_its_statistics_and_partition_values_through_the_reader() {
    let with_stats = add("a", Some("{\"numRecords\":5}"));
    let physical = file(&[2, 0, 1, 4, 3], &[row(with_stats, Cell::Null, Cell::Null)]);
    let files = reconcile(actions_of(&[physical]));
    assert_eq!(files.len(), 1);
    assert_eq!(files[0].path, "a");
    assert_eq!(files[0].stats, Some(Stats { num_records: 5 }));
    assert_eq!(files[0].partition_values, vec![("day".to_string(), "1".to_string())]);
}

#[test]
fn a_more_recent_remove_read_first_excludes_the_file() {
    let schema = get_log_schema();
    let newer = file(&[0, 1, 2, 3, 4], &[row(Cell::Null, remove("a"), Cell::Null)]);
    let older = file(&[1, 0, 2, 3, 4], &[row(add("a", None), Cell::Null, Cell::Null)]);
    let reads = read_files(&vec![newer, older], &schema, &None);
    assert_eq!(reads.len(), 2);
    let first = reads[0].as_ref().unwrap();
    let second = reads[1].as_ref().unwrap();
    assert_eq!(first.rows[0][1], remove("a"));
    assert_eq!(second.rows[0][0], add("a", None));
    let offsets = ActionOffsets::for_schema(&schema).unwrap();
    let mut state = Reconciler::new();
    let mut seen = 0;
    for nested in [first, second] {
        let flat = flatten_batch(nested, &schema).unwrap();
        state.scan_data(&flat, &offsets, seen).unwrap();
        seen += flat.len();
    }
    assert!(state.files().is_empty());
}

#[test]
fn rows_keep_their_file_order_without_a_predicate() {
    let schema = get_log_schema();
    let rows: Vec<Vec<Cell>> =
        (0..5).map(|i| row(add(&format!("f{i}"), None), Cell::Null, Cell::Null)).collect();
    let first = file(&[0, 1, 2, 3, 4], &rows[..2]);
    let second = file(&[4, 3, 2, 1, 0], &rows[2..]);
    let actions = actions_of(&[first, second]);
    let seen: Vec<(String, usize)> = actions
        .iter()
        .map(|a| match a {
            Action::Add(add, row) => (add.path.clone(), *row),
            other => panic!("unexpected action {other:?}"),
        })
        .collect();
    let expected: Vec<(String, usize)> = (0..5).map(|i| (format!("f{i}"), i)).collect();
    assert_eq!(seen, expected);
}

#[test]
fn a_null_record_flattens_to_a_null_for_each_leaf() {
    let schema = get_log_schema();
    let flat = flatten_row(&nulls(5), &schema).unwrap();
    assert_eq!(flat, nulls(28));
}

#[test]
fn a_nested_record_is_flattened_in_field_order() {
    let vector = Cell::Record(vec![text("u"), text("x"), Cell::Null, Cell::Int(4), Cell::Long(2)]);
    let add = Cell::Record(vec![
        text("a"),
        Cell::Dict(vec![]),
        Cell::Long(1),
        Cell::Long(2),
        Cell::Null,
        vector,
    ]);
    let flat = flatten_row(&row(add, Cell::Null, Cell::Null), &get_log_schema()).unwrap();
    assert_eq!(
        flat[..10],
        [
            text("a"),
            Cell::Dict(vec![]),
            Cell::Long(1),
            Cell::Long(2),
            Cell::Null,
            text("u"),
            text("x"),
            Cell::Null,
            Cell::Int(4),
            Cell::Long(2),
        ]
    );
    assert_eq!(flat[10..], nulls(18)[..]);
}

#[test]
fn a_row_that_does_not_fit_the_schema_is_a_schema_mismatch() {
    let schema = StructType::new(vec![
        Field::new("n", DataType::Long, true),
        Field::new("r", DataType::Struct(vec![Field::new("x", DataType::Long, true)]), true),
    ]);
    let ok = vec![Cell::Long(1), Cell::Record(vec![Cell::Long(2)])];
    assert_eq!(flatten_row(&ok, &schema), Ok(vec![Cell::Long(1), Cell::Long(2)]));
    let short = vec![Cell::Long(1)];
    assert_eq!(flatten_row(&short, &schema), Err(Error::SchemaMismatch));
    let leaf_for_record = vec![Cell::Long(1), Cell::Long(2)];
    assert_eq!(flatten_row(&leaf_for_record, &schema), Err(Error::SchemaMismatch));
    let record_for_leaf = vec![Cell::Record(vec![]), Cell::Null];
    assert_eq!(flatten_row(&record_for_leaf, &schema), Err(Error::SchemaMismatch));
    let short_record = vec![Cell::Long(1), Cell::Record(vec![])];
    assert_eq!(flatten_row(&short_record, &schema), Err(Error::SchemaMismatch));
    let batch = Batch::new(vec![ok, short]);
    assert_eq!(flatten_batch(&batch, &schema), Err(Error::SchemaMismatch));
}

#[test]
fn a_log_file_that_lacks_a_kind_reads_that_kind_as_absent() {
    let schema = get_log_schema();
    let physical = PhysicalFile {
        columns: vec!["add".to_string()],
        batches: vec![Batch::new(vec![vec![add("a", None)]])],
    };
    let actions = actions_of(&[physical]);
    assert_eq!(actions.len(), 1);
    assert!(matches!(&actions[0], Action::Add(a, 0) if a.path == "a"));
    let empty = PhysicalFile { columns: vec!["add".to_string()], batches: vec![] };
    assert_eq!(read_log_file(&empty, &schema), Err(Error::EmptyData));
}
