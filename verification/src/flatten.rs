//! Flattening of nested rows into leaf columns.
//!
//! A row read by a nested schema holds one cell for each top-level field, a
//! record cell for a record. Decoding works on leaf columns: every record is
//! replaced by the leaves of its fields, in field order, and a record that
//! is null by as many nulls as it has leaves. The layout of the flattened
//! row is fixed by the schema alone: the leaves of a field begin at the leaf
//! count of the fields in front of it.

use crate::batch::{cell_at, lemma_cells_view, row_view, Batch, Cell, CellView};
use crate::error::Error;
use crate::projection::copy_cell;
use crate::reader::{
    read_file, read_outcome, result_view, rows_view, PhysicalFile, PhysicalFileView,
};
use crate::schema::{
    field_view, fields_view, leaf_count, leaf_count_all, lemma_fields_view, lemma_leaf_count_prefix,
    lemma_leaf_count_step, offset_of, DataType,
    DataTypeView, Field, FieldView, StructType,
};
use vstd::prelude::*;

verus! {

/// A run of `count` nulls.
pub open spec fn nulls(count: nat) -> Seq<CellView> {
    Seq::new(count, |i: int| CellView::Null)
}

/// The leaves of one cell under its field. A record field takes a record
/// cell, whose cells are flattened under the record's fields, or a null,
/// which stands for a null in every leaf; a field that is no record takes
/// any cell but a record. Everything else is a schema mismatch.
pub open spec fn flat_cell(cell: CellView, field: FieldView) -> Result<Seq<CellView>, Error>
    decreases field,
{
    match field.data_type {
        DataTypeView::Struct(inner) => match cell {
            CellView::Record(cells) => flat_cells(cells, inner),
            CellView::Null => Ok(nulls(leaf_count_all(inner))),
            _ => Err(Error::SchemaMismatch),
        },
        _ => match cell {
            CellView::Record(_) => Err(Error::SchemaMismatch),
            _ => Ok(seq![cell]),
        },
    }
}

/// The leaves of the cells of a row or record under its fields: those of
/// each field's cell, in field order. A field without a cell is a schema
/// mismatch; cells beyond the last field are left out.
pub open spec fn flat_cells(cells: Seq<CellView>, fields: Seq<FieldView>) -> Result<
    Seq<CellView>,
    Error,
>
    decreases fields,
{
    if fields.len() == 0 {
        Ok(Seq::empty())
    } else {
        match flat_cells(cells, fields.drop_last()) {
            Err(e) => Err(e),
            Ok(front) => match cell_at(cells, fields.len() - 1) {
                None => Err(Error::SchemaMismatch),
                Some(cell) => match flat_cell(cell, fields.last()) {
                    Err(e) => Err(e),
                    Ok(leaves) => Ok(front + leaves),
                },
            },
        }
    }
}

/// What flattening a run of rows gives: every row flattened, or the failure
/// of the first row that fails.
pub open spec fn flat_rows(rows: Seq<Seq<CellView>>, fields: Seq<FieldView>) -> Result<
    Seq<Seq<CellView>>,
    Error,
>
    decreases rows.len(),
{
    if rows.len() == 0 {
        Ok(Seq::empty())
    } else {
        match flat_rows(rows.drop_last(), fields) {
            Err(e) => Err(e),
            Ok(front) => match flat_cells(rows.last(), fields) {
                Err(e) => Err(e),
                Ok(leaves) => Ok(front.push(leaves)),
            },
        }
    }
}

/// A cell flattens to as many leaves as its field counts.
pub proof fn lemma_flat_cell_width(cell: CellView, field: FieldView)
    requires
        flat_cell(cell, field) is Ok,
    ensures
        flat_cell(cell, field).unwrap().len() == leaf_count(field),
    decreases field,
{
    match field.data_type {
        DataTypeView::Struct(inner) => match cell {
            CellView::Record(cells) => {
                lemma_flat_cells_width(cells, inner);
            },
            _ => {},
        },
        _ => {},
    }
}

/// A row flattens to as many leaves as its schema counts: the width of a
/// flattened row is fixed by the schema alone.
pub proof fn lemma_flat_cells_width(cells: Seq<CellView>, fields: Seq<FieldView>)
    requires
        flat_cells(cells, fields) is Ok,
    ensures
        flat_cells(cells, fields).unwrap().len() == leaf_count_all(fields),
    decreases fields,
{
    if fields.len() > 0 {
        lemma_flat_cells_width(cells, fields.drop_last());
        lemma_flat_cell_width(cells[fields.len() - 1], fields.last());
    }
}

/// Every flattened row of a run has the width that the schema counts, so
/// every kind sits at the same offset in all of them, whatever file the row
/// came from and however often it is read.
pub proof fn lemma_flat_rows_width(rows: Seq<Seq<CellView>>, fields: Seq<FieldView>, i: int)
    requires
        flat_rows(rows, fields) is Ok,
        0 <= i < rows.len(),
    ensures
        flat_rows(rows, fields).unwrap().len() == rows.len(),
        flat_cells(rows[i], fields) == Ok::<_, Error>(flat_rows(rows, fields).unwrap()[i]),
        flat_rows(rows, fields).unwrap()[i].len() == leaf_count_all(fields),
    decreases rows.len(),
{
    if i < rows.len() - 1 {
        lemma_flat_rows_width(rows.drop_last(), fields, i);
        assert(rows.drop_last()[i] == rows[i]);
    } else {
        if rows.len() > 1 {
            lemma_flat_rows_width(rows.drop_last(), fields, 0);
        }
        assert(rows.last() == rows[i]);
        lemma_flat_cells_width(rows[i], fields);
    }
}

/// Flattening goes field by field: the leaves of the first `k` fields are
/// the first leaves of the row.
pub proof fn lemma_flat_cells_prefix(cells: Seq<CellView>, fields: Seq<FieldView>, k: int)
    requires
        flat_cells(cells, fields) is Ok,
        0 <= k <= fields.len(),
    ensures
        flat_cells(cells, fields.take(k)) is Ok,
        flat_cells(cells, fields.take(k)).unwrap() == flat_cells(cells, fields).unwrap().take(
            leaf_count_all(fields.take(k)) as int,
        ),
    decreases fields.len(),
{
    lemma_flat_cells_width(cells, fields);
    if k == fields.len() {
        assert(fields.take(k) =~= fields);
        assert(flat_cells(cells, fields).unwrap().take(leaf_count_all(fields) as int)
            =~= flat_cells(cells, fields).unwrap());
    } else {
        let shorter = fields.drop_last();
        assert(shorter.take(k) =~= fields.take(k));
        lemma_flat_cells_prefix(cells, shorter, k);
        lemma_flat_cells_width(cells, shorter);
        lemma_flat_cells_width(cells, fields.take(k));
        lemma_leaf_count_prefix(shorter, k);
        let whole = flat_cells(cells, fields).unwrap();
        let front = flat_cells(cells, shorter).unwrap();
        assert(whole == front + flat_cell(cells[fields.len() - 1], fields.last()).unwrap());
        assert(front.take(leaf_count_all(fields.take(k)) as int) =~= whole.take(
            leaf_count_all(fields.take(k)) as int,
        ));
    }
}

/// The leaves of a field begin at the offset that the schema gives its name:
/// in a flattened row, the leaves of the last field called by a name stand
/// at the offset computed for that name from the schema alone, one after the
/// other.
pub proof fn lemma_flat_field_at_offset(cells: Seq<CellView>, fields: Seq<FieldView>, j: int)
    requires
        flat_cells(cells, fields) is Ok,
        0 <= j < fields.len(),
        forall|k: int| j < k < fields.len() ==> (#[trigger] fields[k]).name != fields[j].name,
    ensures
        offset_of(fields, fields[j].name) == leaf_count_all(fields.take(j)),
        j < cells.len(),
        flat_cell(cells[j], fields[j]) is Ok,
        flat_cells(cells, fields).unwrap().subrange(
            offset_of(fields, fields[j].name) as int,
            (offset_of(fields, fields[j].name) + leaf_count(fields[j])) as int,
        ) == flat_cell(cells[j], fields[j]).unwrap(),
    decreases fields.len(),
{
    let shorter = fields.drop_last();
    let whole = flat_cells(cells, fields).unwrap();
    lemma_flat_cells_width(cells, shorter);
    if j == fields.len() - 1 {
        assert(fields.take(j) =~= shorter);
        lemma_flat_cell_width(cells[j], fields[j]);
        let front = flat_cells(cells, shorter).unwrap();
        let leaves = flat_cell(cells[j], fields[j]).unwrap();
        assert(whole.subrange(front.len() as int, (front.len() + leaves.len()) as int)
            =~= leaves);
    } else {
        assert(shorter[j] == fields[j]);
        assert forall|k: int| j < k < shorter.len() implies (#[trigger] shorter[k]).name
            != shorter[j].name by {
            assert(shorter[k] == fields[k]);
        }
        assert(fields.last() == fields[fields.len() - 1]);
        lemma_flat_field_at_offset(cells, shorter, j);
        assert(shorter.take(j) =~= fields.take(j));
        lemma_flat_cell_width(cells[j], fields[j]);
        lemma_leaf_count_prefix(shorter, j + 1);
        lemma_leaf_count_step(shorter, j);
        let front = flat_cells(cells, shorter).unwrap();
        let at = offset_of(fields, fields[j].name) as int;
        assert(whole == front + flat_cell(cells[fields.len() - 1], fields.last()).unwrap());
        assert(at + leaf_count(fields[j]) <= front.len());
        assert(whole.subrange(at, at + leaf_count(fields[j]) as int) =~= front.subrange(
            at,
            at + leaf_count(fields[j]) as int,
        ));
    }
}

/// Appends a null for every leaf of `field`.
fn push_nulls(field: &Field, out: &mut Vec<Cell>)
    ensures
        row_view(final(out)@) == row_view(old(out)@) + nulls(leaf_count(field@)),
    decreases *field,
{
    let ghost before = row_view(out@);
    match &field.data_type {
        DataType::Struct(inner) => {
            push_nulls_all(inner, out);
        },
        _ => {
            out.push(Cell::Null);
            assert(row_view(out@) =~= before + nulls(1));
        },
    }
}

/// Appends a null for every leaf of `fields`.
fn push_nulls_all(fields: &Vec<Field>, out: &mut Vec<Cell>)
    ensures
        row_view(final(out)@) == row_view(old(out)@) + nulls(
            leaf_count_all(fields_view(fields@)),
        ),
    decreases *fields,
{
    let ghost before = row_view(out@);
    let ghost views = fields_view(fields@);
    proof {
        lemma_fields_view(fields@);
        assert(before + nulls(0) =~= before);
        assert(views.take(0) =~= Seq::<FieldView>::empty());
    }
    let mut i: usize = 0;
    while i < fields.len()
        invariant
            i <= fields.len(),
            views == fields_view(fields@),
            views.len() == fields@.len(),
            forall|j: int| 0 <= j < fields@.len() ==> views[j] == field_view(fields@[j]),
            row_view(out@) == before + nulls(leaf_count_all(views.take(i as int))),
        decreases fields.len() - i,
    {
        proof {
            lemma_leaf_count_step(views, i as int);
            assert(decreases_to!(*fields => fields[i as int]));
        }
        let ghost so_far = leaf_count_all(views.take(i as int));
        push_nulls(&fields[i], out);
        proof {
            let more = leaf_count(views[i as int]);
            assert(before + nulls(so_far) + nulls(more) =~= before + nulls(so_far + more));
        }
        i += 1;
    }
    assert(views.take(i as int) =~= views);
}

/// Flattens one cell under its field and appends the leaves to `out`. On
/// failure `out` holds the leaves appended before the failing cell.
fn flatten_cell(cell: &Cell, field: &Field, out: &mut Vec<Cell>) -> (done: Result<(), Error>)
    ensures
        match done {
            Ok(()) => {
                &&& flat_cell(cell@, field@) is Ok
                &&& row_view(final(out)@) == row_view(old(out)@) + flat_cell(
                    cell@,
                    field@,
                ).unwrap()
            },
            Err(e) => flat_cell(cell@, field@) == Err::<Seq<CellView>, _>(e),
        },
    decreases *field,
{
    let ghost before = row_view(out@);
    match &field.data_type {
        DataType::Struct(inner) => match cell {
            Cell::Record(cells) => {
                proof {
                    lemma_cells_view(cells@);
                }
                flatten_cells(cells, inner, out)
            },
            Cell::Null => {
                push_nulls_all(inner, out);
                Ok(())
            },
            _ => Err(Error::SchemaMismatch),
        },
        _ => match cell {
            Cell::Record(_) => Err(Error::SchemaMismatch),
            _ => {
                out.push(copy_cell(cell));
                assert(row_view(out@) =~= before + seq![cell@]);
                Ok(())
            },
        },
    }
}

/// Flattens the cells of a row or record under its fields and appends the
/// leaves to `out`. On failure `out` holds the leaves appended before the
/// failing cell.
fn flatten_cells(cells: &Vec<Cell>, fields: &Vec<Field>, out: &mut Vec<Cell>) -> (done: Result<
    (),
    Error,
>)
    ensures
        match done {
            Ok(()) => {
                &&& flat_cells(row_view(cells@), fields_view(fields@)) is Ok
                &&& row_view(final(out)@) == row_view(old(out)@) + flat_cells(
                    row_view(cells@),
                    fields_view(fields@),
                ).unwrap()
            },
            Err(e) => flat_cells(row_view(cells@), fields_view(fields@)) == Err::<
                Seq<CellView>,
                _,
            >(e),
        },
    decreases *fields,
{
    let ghost before = row_view(out@);
    let ghost views = fields_view(fields@);
    let ghost row = row_view(cells@);
    proof {
        lemma_fields_view(fields@);
        assert(views.take(0) =~= Seq::<FieldView>::empty());
        assert(before + Seq::<CellView>::empty() =~= before);
    }
    let mut i: usize = 0;
    while i < fields.len()
        invariant
            i <= fields.len(),
            views == fields_view(fields@),
            views.len() == fields@.len(),
            forall|j: int| 0 <= j < fields@.len() ==> views[j] == field_view(fields@[j]),
            row == row_view(cells@),
            flat_cells(row, views.take(i as int)) is Ok,
            row_view(out@) == before + flat_cells(row, views.take(i as int)).unwrap(),
        decreases fields.len() - i,
    {
        proof {
            assert(views.take(i + 1).drop_last() =~= views.take(i as int));
            assert(views.take(i + 1).last() == fields@[i as int]@);
            assert(decreases_to!(*fields => fields[i as int]));
        }
        let ghost so_far = flat_cells(row, views.take(i as int)).unwrap();
        if i >= cells.len() {
            proof {
                lemma_flat_cells_fails(row, views, i + 1);
            }
            return Err(Error::SchemaMismatch);
        }
        assert(row[i as int] == cells@[i as int]@);
        match flatten_cell(&cells[i], &fields[i], out) {
            Ok(()) => {
                proof {
                    let leaves = flat_cell(cells@[i as int]@, fields@[i as int]@).unwrap();
                    assert(before + so_far + leaves =~= before + (so_far + leaves));
                }
            },
            Err(e) => {
                proof {
                    lemma_flat_cells_fails(row, views, i + 1);
                }
                return Err(e);
            },
        }
        i += 1;
    }
    assert(views.take(i as int) =~= views);
    Ok(())
}

/// A failure among the first fields is the failure of the whole row.
pub proof fn lemma_flat_cells_fails(cells: Seq<CellView>, fields: Seq<FieldView>, k: int)
    requires
        0 <= k <= fields.len(),
        flat_cells(cells, fields.take(k)) is Err,
    ensures
        flat_cells(cells, fields) == flat_cells(cells, fields.take(k)),
    decreases fields.len(),
{
    if k == fields.len() {
        assert(fields.take(k) =~= fields);
    } else {
        assert(fields.drop_last().take(k) =~= fields.take(k));
        lemma_flat_cells_fails(cells, fields.drop_last(), k);
    }
}

/// A failure among the first rows is the failure of the whole run.
pub proof fn lemma_flat_rows_fails(rows: Seq<Seq<CellView>>, fields: Seq<FieldView>, k: int)
    requires
        0 <= k <= rows.len(),
        flat_rows(rows.take(k), fields) is Err,
    ensures
        flat_rows(rows, fields) == flat_rows(rows.take(k), fields),
    decreases rows.len(),
{
    if k == rows.len() {
        assert(rows.take(k) =~= rows);
    } else {
        assert(rows.drop_last().take(k) =~= rows.take(k));
        lemma_flat_rows_fails(rows.drop_last(), fields, k);
    }
}

/// Flattens a row that was read by `schema` into its leaf columns. Fails
/// with a schema mismatch exactly when the row does not fit the schema.
pub fn flatten_row(row: &Vec<Cell>, schema: &StructType) -> (leaves: Result<Vec<Cell>, Error>)
    ensures
        match leaves {
            Ok(flat) => flat_cells(row_view(row@), schema@) == Ok::<_, Error>(row_view(flat@)),
            Err(e) => flat_cells(row_view(row@), schema@) == Err::<Seq<CellView>, _>(e),
        },
{
    let mut flat: Vec<Cell> = Vec::new();
    assert(row_view(flat@) =~= Seq::<CellView>::empty());
    match flatten_cells(row, &schema.fields, &mut flat) {
        Ok(()) => {
            assert(Seq::<CellView>::empty() + flat_cells(row_view(row@), schema@).unwrap()
                =~= flat_cells(row_view(row@), schema@).unwrap());
            Ok(flat)
        },
        Err(e) => Err(e),
    }
}

/// Flattens every row of a batch that was read by `schema`.
pub fn flatten_batch(batch: &Batch, schema: &StructType) -> (flat: Result<Batch, Error>)
    ensures
        result_view(flat) == flat_rows(batch@, schema@),
{
    let mut rows: Vec<Vec<Cell>> = Vec::new();
    let mut i: usize = 0;
    assert(batch@.take(0) =~= Seq::empty());
    assert(rows_view(rows@) =~= Seq::empty());
    while i < batch.rows.len()
        invariant
            i <= batch.rows@.len(),
            batch.rows@.len() == batch@.len(),
            flat_rows(batch@.take(i as int), schema@) == Ok::<_, Error>(rows_view(rows@)),
        decreases batch.rows@.len() - i,
    {
        proof {
            assert(batch@.take(i + 1).drop_last() =~= batch@.take(i as int));
            assert(batch@.take(i + 1).last() == row_view(batch.rows@[i as int]@));
        }
        match flatten_row(&batch.rows[i], schema) {
            Ok(leaves) => {
                let ghost before = rows_view(rows@);
                rows.push(leaves);
                assert(rows_view(rows@) =~= before.push(row_view(leaves@)));
            },
            Err(e) => {
                proof {
                    lemma_flat_rows_fails(batch@, schema@, i + 1);
                }
                return Err(e);
            },
        }
        i += 1;
    }
    assert(batch@.take(i as int) =~= batch@);
    let flat = Batch { rows };
    assert(flat@ =~= rows_view(flat.rows@));
    Ok(flat)
}

/// What reading a log file gives: the rows that reading the file by the
/// schema gives, each flattened into the leaf columns of the schema.
pub open spec fn log_rows(file: PhysicalFileView, schema: Seq<FieldView>) -> Result<
    Seq<Seq<CellView>>,
    Error,
> {
    match read_outcome(file, schema, None) {
        Err(e) => Err(e),
        Ok(rows) => flat_rows(rows, schema),
    }
}

/// Reads a log file by `schema` and lays its rows out in leaf columns, as
/// decoding takes them: the columns in the order of the schema, whatever
/// their order in the file, and every record flattened.
pub fn read_log_file(file: &PhysicalFile, schema: &StructType) -> (rows: Result<Batch, Error>)
    ensures
        result_view(rows) == log_rows(file@, schema@),
{
    let nested = read_file(file, schema, &None)?;
    flatten_batch(&nested, schema)
}

} // verus!
