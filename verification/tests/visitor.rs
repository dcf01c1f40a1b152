use delta_kernel::actions::{
    Action, Add, DeletionVector, Metadata, Protocol, Remove, SetTransaction,
};
use delta_kernel::batch::{Batch, Cell};
use delta_kernel::error::Error;
use delta_kernel::log_schema::get_log_schema;
use delta_kernel::schema::{ActionOffsets, DataType, Field, StructType};
use delta_kernel::visitor::{visit_row, LogVisitor};

const ADD: usize = 0;
const REMOVE: usize = 10;
const METADATA: usize = 19;
const PROTOCOL: usize = 22;
const TXN: usize = 26;
const WIDTH: usize = 28;

fn text(s: &str) -> Cell {
    Cell::Str(s.to_string())
}

fn pairs(items: &[(&str, &str)]) -> Vec<(String, String)> {
    items.iter().map(|(k, v)| (k.to_string(), v.to_string())).collect()
}

fn blank() -> Vec<Cell> {
    (0..WIDTH).map(|_| Cell::Null).collect()
}

fn add_row(path: &str, size: i64) -> Vec<Cell> {
    let mut row = blank();
    row[ADD] = text(path);
    row[ADD + 1] = Cell::Dict(pairs(&[("day", "1")]));
    row[ADD + 2] = Cell::Long(size);
    row[ADD + 3] = Cell::Long(1_700_000_000_000);
    row
}

fn remove_row(path: &str) -> Vec<Cell> {
    let mut row = blank();
    row[REMOVE] = text(path);
    row[REMOVE + 3] = Cell::Long(1_700_000_000_500);
    row
}

fn protocol_row(reader: i32, writer: i32) -> Vec<Cell> {
    let mut row = blank();
    row[PROTOCOL] = Cell::Int(reader);
    row[PROTOCOL + 1] = Cell::Int(writer);
    row
}

fn plain_add(path: &str, size: i64) -> Add {
    Add {
        path: path.to_string(),
        partition_values: pairs(&[("day", "1")]),
        size,
        modification_time: 1_700_000_000_000,
        stats: None,
        deletion_vector: None,
    }
}

fn all_kinds() -> ActionOffsets {
    ActionOffsets {
        add: ADD,
        remove: REMOVE,
        metadata: METADATA,
        protocol: PROTOCOL,
        txn: TXN,
        has_add: true,
        has_remove: true,
        has_metadata: true,
        has_protocol: true,
        has_txn: true,
    }
}

fn visitor() -> LogVisitor {
    LogVisitor::new(&get_log_schema()).unwrap()
}

#[test]
fn a_new_visitor_has_seen_nothing() {
    let v = visitor();
    assert!(v.actions.is_empty());
    assert_eq!(v.previous_rows_seen, 0);
    assert_eq!(
        v.offsets,
        all_kinds()
    );
}

#[test]
fn an_empty_batch_changes_nothing_but_is_no_error() {
    let mut v = visitor();
    assert_eq!(v.visit(&Batch::new(vec![])), Ok(()));
    assert!(v.actions.is_empty());
    assert_eq!(v.previous_rows_seen, 0);
}

#[test]
fn a_row_without_any_kind_yields_no_action() {
    let mut v = visitor();
    assert_eq!(v.visit(&Batch::new(vec![blank(), blank()])), Ok(()));
    assert!(v.actions.is_empty());
    assert_eq!(v.previous_rows_seen, 2);
}

#[test]
fn an_add_is_decoded_with_all_its_fields() {
    let mut row = add_row("part-0.parquet", 120);
    row[ADD + 4] = text("{\"numRecords\":7}");
    row[ADD + 5] = text("u");
    row[ADD + 6] = text("ab^-aqEH.-t@S}K{vb[*k^");
    row[ADD + 7] = Cell::Int(4);
    row[ADD + 8] = Cell::Int(40);
    row[ADD + 9] = Cell::Long(6);
    let mut v = visitor();
    assert_eq!(v.visit(&Batch::new(vec![row])), Ok(()));
    assert_eq!(
        v.actions,
        vec![Action::Add(
            Add {
                path: "part-0.parquet".to_string(),
                partition_values: pairs(&[("day", "1")]),
                size: 120,
                modification_time: 1_700_000_000_000,
                stats: Some("{\"numRecords\":7}".to_string()),
                deletion_vector: Some(DeletionVector {
                    storage_type: "u".to_string(),
                    path_or_inline_dv: "ab^-aqEH.-t@S}K{vb[*k^".to_string(),
                    offset: Some(4),
                    size_in_bytes: 40,
                    cardinality: 6,
                }),
            },
            0
        )]
    );
}

#[test]
fn every_kind_is_decoded_from_its_own_columns() {
    let mut metadata = blank();
    metadata[METADATA] = text("table-id");
    metadata[METADATA + 1] = text("{\"type\":\"struct\"}");
    metadata[METADATA + 2] = Cell::Dict(pairs(&[("delta.appendOnly", "true")]));
    let mut protocol = protocol_row(3, 7);
    protocol[PROTOCOL + 2] = Cell::List(vec!["deletionVectors".to_string()]);
    let mut txn = blank();
    txn[TXN] = text("app");
    txn[TXN + 1] = Cell::Long(12);
    let mut remove = remove_row("old.parquet");
    remove[REMOVE + 1] = Cell::Dict(pairs(&[("day", "2")]));
    remove[REMOVE + 2] = Cell::Long(55);

    let mut v = visitor();
    assert_eq!(v.visit(&Batch::new(vec![metadata, protocol, txn, remove])), Ok(()));
    assert_eq!(
        v.actions,
        vec![
            Action::Metadata(
                Metadata {
                    id: "table-id".to_string(),
                    schema_string: "{\"type\":\"struct\"}".to_string(),
                    configuration: pairs(&[("delta.appendOnly", "true")]),
                },
                0
            ),
            Action::Protocol(
                Protocol {
                    min_reader_version: 3,
                    min_writer_version: 7,
                    reader_features: Some(vec!["deletionVectors".to_string()]),
                    writer_features: None,
                },
                1
            ),
            Action::SetTransaction(SetTransaction { app_id: "app".to_string(), version: 12 }, 2),
            Action::Remove(
                Remove {
                    path: "old.parquet".to_string(),
                    partition_values: Some(pairs(&[("day", "2")])),
                    size: Some(55),
                    deletion_timestamp: Some(1_700_000_000_500),
                    deletion_vector: None,
                },
                3
            ),
        ]
    );
}

#[test]
fn row_indices_continue_across_batches() {
    let mut v = visitor();
    v.visit(&Batch::new(vec![add_row("a", 1), blank(), add_row("b", 2)])).unwrap();
    v.visit(&Batch::new(vec![blank(), remove_row("a")])).unwrap();
    let rows: Vec<usize> = v.actions.iter().map(|a| a.row()).collect();
    assert_eq!(rows, vec![0, 2, 4]);
    assert_eq!(v.previous_rows_seen, 5);
}

#[test]
fn chunking_does_not_change_the_action_list() {
    let rows = |from: usize, to: usize| -> Vec<Vec<Cell>> {
        (from..to)
            .map(|i| match i % 4 {
                0 => add_row(&format!("file-{i}"), i as i64),
                1 => remove_row(&format!("file-{}", i / 2)),
                2 => blank(),
                _ => protocol_row(1, 2),
            })
            .collect()
    };
    let mut whole = visitor();
    whole.visit(&Batch::new(rows(0, 1000))).unwrap();

    let mut chunked = visitor();
    for chunk in 0..10 {
        chunked.visit(&Batch::new(rows(chunk * 100, (chunk + 1) * 100))).unwrap();
    }
    assert_eq!(whole.actions.len(), 750);
    assert_eq!(whole.actions, chunked.actions);
    assert_eq!(whole.previous_rows_seen, 1000);
    assert_eq!(chunked.previous_rows_seen, 1000);
}

#[test]
fn row_indices_strictly_increase_for_single_action_rows() {
    let mut v = visitor();
    v.visit(&Batch::new(vec![add_row("a", 1), remove_row("b"), protocol_row(1, 2)])).unwrap();
    v.visit(&Batch::new(vec![add_row("c", 3)])).unwrap();
    let rows: Vec<usize> = v.actions.iter().map(|a| a.row()).collect();
    assert_eq!(rows, vec![0, 1, 2, 3]);
    assert!(rows.windows(2).all(|w| w[0] < w[1]));
}

// A row that identifies itself as two kinds is malformed. The visitor is
// permissive by choice: it rejects no such row and drops neither action, but
// records both under the row's index.
#[test]
fn a_row_with_an_add_and_a_protocol_records_both() {
    let mut row = add_row("both.parquet", 9);
    row[PROTOCOL] = Cell::Int(1);
    row[PROTOCOL + 1] = Cell::Int(2);
    let mut v = visitor();
    assert_eq!(v.visit(&Batch::new(vec![blank(), row])), Ok(()));
    assert_eq!(
        v.actions,
        vec![
            Action::Add(plain_add("both.parquet", 9), 1),
            Action::Protocol(
                Protocol {
                    min_reader_version: 1,
                    min_writer_version: 2,
                    reader_features: None,
                    writer_features: None,
                },
                1
            ),
        ]
    );
}

#[test]
fn a_row_with_every_kind_records_them_in_kind_order() {
    let mut row = add_row("all.parquet", 1);
    row[REMOVE] = text("gone.parquet");
    row[METADATA] = text("id");
    row[METADATA + 1] = text("{}");
    row[METADATA + 2] = Cell::Dict(vec![]);
    row[PROTOCOL] = Cell::Int(1);
    row[PROTOCOL + 1] = Cell::Int(1);
    row[TXN] = text("app");
    row[TXN + 1] = Cell::Long(1);
    let mut v = visitor();
    v.visit(&Batch::new(vec![row])).unwrap();
    let kinds: Vec<&str> = v
        .actions
        .iter()
        .map(|a| match a {
            Action::Add(..) => "add",
            Action::Remove(..) => "remove",
            Action::Metadata(..) => "metadata",
            Action::Protocol(..) => "protocol",
            Action::SetTransaction(..) => "txn",
        })
        .collect();
    assert_eq!(kinds, vec!["add", "remove", "metadata", "protocol", "txn"]);
    assert!(v.actions.iter().all(|a| a.row() == 0));
}

#[test]
fn a_missing_mandatory_field_is_a_malformed_action() {
    let mut row = add_row("a", 1);
    row[ADD + 2] = Cell::Null;
    let mut v = visitor();
    assert_eq!(v.visit(&Batch::new(vec![row])), Err(Error::MalformedAction));

    let mut txn = blank();
    txn[TXN] = text("app");
    assert_eq!(visitor().visit(&Batch::new(vec![txn])), Err(Error::MalformedAction));

    let mut protocol = blank();
    protocol[PROTOCOL] = Cell::Int(1);
    assert_eq!(visitor().visit(&Batch::new(vec![protocol])), Err(Error::MalformedAction));
}

#[test]
fn a_value_of_another_type_is_a_schema_mismatch() {
    let mut row = add_row("a", 1);
    row[ADD + 2] = Cell::Int(1);
    assert_eq!(visitor().visit(&Batch::new(vec![row])), Err(Error::SchemaMismatch));

    let mut wrong_discriminator = blank();
    wrong_discriminator[PROTOCOL] = Cell::Long(1);
    assert_eq!(
        visitor().visit(&Batch::new(vec![wrong_discriminator])),
        Err(Error::SchemaMismatch)
    );
}

#[test]
fn a_row_that_is_too_narrow_is_a_schema_mismatch() {
    let narrow: Vec<Cell> = (0..5).map(|_| Cell::Null).collect();
    assert_eq!(visitor().visit(&Batch::new(vec![narrow])), Err(Error::SchemaMismatch));
    assert_eq!(visitor().visit(&Batch::new(vec![vec![]])), Err(Error::SchemaMismatch));
}

#[test]
fn a_failing_row_leaves_the_visitor_as_it_was() {
    let mut v = visitor();
    v.visit(&Batch::new(vec![add_row("kept", 1)])).unwrap();
    let mut bad = add_row("bad", 2);
    bad[ADD + 3] = Cell::Null;
    let outcome = v.visit(&Batch::new(vec![add_row("lost", 3), bad]));
    assert_eq!(outcome, Err(Error::MalformedAction));
    assert_eq!(v.actions, vec![Action::Add(plain_add("kept", 1), 0)]);
    assert_eq!(v.previous_rows_seen, 1);
}

#[test]
fn the_first_failure_in_kind_order_is_reported() {
    let mut row = blank();
    row[ADD] = text("a");
    row[TXN] = Cell::Bool(true);
    assert_eq!(visitor().visit(&Batch::new(vec![row])), Err(Error::MalformedAction));
}

#[test]
fn a_deletion_vector_needs_its_mandatory_fields() {
    let mut row = add_row("a", 1);
    row[ADD + 5] = text("u");
    row[ADD + 6] = text("x");
    row[ADD + 8] = Cell::Int(3);
    assert_eq!(visitor().visit(&Batch::new(vec![row])), Err(Error::MalformedAction));
}

#[test]
fn a_deletion_vector_offset_is_optional() {
    let mut row = remove_row("a");
    row[REMOVE + 4] = text("p");
    row[REMOVE + 5] = text("x");
    row[REMOVE + 7] = Cell::Int(3);
    row[REMOVE + 8] = Cell::Long(2);
    let mut v = visitor();
    v.visit(&Batch::new(vec![row])).unwrap();
    match &v.actions[0] {
        Action::Remove(remove, 0) => {
            let dv = remove.deletion_vector.as_ref().unwrap();
            assert_eq!(dv.offset, None);
            assert_eq!(dv.size_in_bytes, 3);
            assert_eq!(dv.cardinality, 2);
        }
        other => panic!("unexpected action {other:?}"),
    }
}

#[test]
fn a_kind_that_the_schema_lacks_is_not_looked_for() {
    let schema = StructType::new(vec![
        Field::new("other", DataType::Long, true),
        Field::new(
            "txn",
            DataType::Struct(vec![
                Field::new("appId", DataType::String, true),
                Field::new("version", DataType::Long, true),
            ]),
            true,
        ),
    ]);
    let mut v = LogVisitor::new(&schema).unwrap();
    assert_eq!(v.offsets.txn, 1);
    assert!(v.offsets.has_txn && !v.offsets.has_add && !v.offsets.has_protocol);
    // The absent kinds have offset 0, where another column lies. It is never
    // asked for an add's path or a protocol's version, whatever it holds.
    let rows = vec![
        vec![Cell::Long(5), text("app"), Cell::Long(3)],
        vec![text("not a path"), Cell::Null, Cell::Null],
        vec![Cell::Null, text("other"), Cell::Long(4)],
    ];
    assert_eq!(v.visit(&Batch::new(rows)), Ok(()));
    assert_eq!(
        v.actions,
        vec![
            Action::SetTransaction(SetTransaction { app_id: "app".to_string(), version: 3 }, 0),
            Action::SetTransaction(SetTransaction { app_id: "other".to_string(), version: 4 }, 2),
        ]
    );
}

#[test]
fn a_schema_of_adds_and_removes_decodes_add_rows() {
    let file_fields = |names: &[&str]| -> Vec<Field> {
        names.iter().map(|n| Field::new(n, DataType::String, true)).collect()
    };
    let leaves = ["path", "partitionValues", "size", "modificationTime", "stats"];
    let vector = ["storageType", "pathOrInlineDv", "offset", "sizeInBytes", "cardinality"];
    let mut add = file_fields(&leaves);
    add.push(Field::new("deletionVector", DataType::Struct(file_fields(&vector)), true));
    let mut remove = file_fields(&leaves[..4]);
    remove.push(Field::new("deletionVector", DataType::Struct(file_fields(&vector)), true));
    let schema = StructType::new(vec![
        Field::new("add", DataType::Struct(add), true),
        Field::new("remove", DataType::Struct(remove), true),
    ]);
    let mut v = LogVisitor::new(&schema).unwrap();
    assert_eq!((v.offsets.add, v.offsets.remove), (0, 10));
    let mut row: Vec<Cell> = (0..19).map(|_| Cell::Null).collect();
    row[0] = text("a");
    row[1] = Cell::Dict(vec![]);
    row[2] = Cell::Long(1);
    row[3] = Cell::Long(2);
    assert_eq!(v.visit(&Batch::new(vec![row])), Ok(()));
    assert_eq!(v.actions.len(), 1);
    assert!(matches!(&v.actions[0], Action::Add(a, 0) if a.path == "a"));
}

#[test]
fn visit_row_appends_to_what_is_there() {
    let offsets = all_kinds();
    let mut out = vec![Action::Add(plain_add("first", 1), 0)];
    assert_eq!(visit_row(&add_row("second", 2), &offsets, 41, &mut out), Ok(()));
    assert_eq!(
        out,
        vec![Action::Add(plain_add("first", 1), 0), Action::Add(plain_add("second", 2), 41)]
    );
}
