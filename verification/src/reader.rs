//! Reading physical files through a logical schema.
//!
//! A read resolves the logical columns against the file's own schema, drops
//! the rows that fail the predicate before anything else is done with them,
//! restricts what is left to the columns that are needed, and hands the rows
//! out in logical column order.

use crate::batch::{batches_view, row_view, Batch, Cell, CellView};
use crate::error::Error;
use crate::predicate::{
    filter_view, lemma_evaluate_failure, passes, row_passes, Predicate, PredicateView,
};
use crate::projection::{
    in_reach, lemma_plan_gives_logical_row, logical_row, plan_projection, plans, prune_row,
    pruned, reorder_row, reordered, resolvable, serves, Projection,
};
use crate::schema::{FieldView, StructType};
use vstd::prelude::*;

verus! {

/// What is in a data file: the names of its columns, in the file's own
/// order, and its batches of rows.
#[derive(Debug, PartialEq, Eq)]
pub struct PhysicalFile {
    pub columns: Vec<String>,
    pub batches: Vec<Batch>,
}

/// What a [`PhysicalFile`] holds, as mathematics.
pub struct PhysicalFileView {
    pub columns: Seq<Seq<char>>,
    pub batches: Seq<Seq<Seq<CellView>>>,
}

impl View for PhysicalFile {
    type V = PhysicalFileView;

    open spec fn view(&self) -> PhysicalFileView {
        PhysicalFileView {
            columns: self.columns.deep_view(),
            batches: batches_view(self.batches@),
        }
    }
}

/// What reading a run of physical rows gives: the logical rows of the rows
/// that pass the predicate, in their order. A row of which the predicate
/// cannot be evaluated, and a passing row that lacks a needed column, fail
/// the read with a schema mismatch.
pub open spec fn read_rows(
    rows: Seq<Seq<CellView>>,
    physical: Seq<Seq<char>>,
    logical: Seq<FieldView>,
    predicate: Option<PredicateView>,
) -> Result<Seq<Seq<CellView>>, Error>
    decreases rows.len(),
{
    if rows.len() == 0 {
        Ok(Seq::empty())
    } else {
        match read_rows(rows.drop_last(), physical, logical, predicate) {
            Err(e) => Err(e),
            Ok(front) => match passes(predicate, physical, rows.last()) {
                Err(e) => Err(e),
                Ok(false) => Ok(front),
                Ok(true) => if serves(rows.last(), logical, physical) {
                    Ok(front.push(logical_row(rows.last(), logical, physical)))
                } else {
                    Err(Error::SchemaMismatch)
                },
            },
        }
    }
}

/// The rows of a sequence of batches, one batch after the other.
pub open spec fn all_rows(batches: Seq<Seq<Seq<CellView>>>) -> Seq<Seq<CellView>>
    decreases batches.len(),
{
    if batches.len() == 0 {
        Seq::empty()
    } else {
        all_rows(batches.drop_last()) + batches.last()
    }
}

/// What reading a file gives. A file that cannot serve the logical schema is
/// a schema mismatch; a file without a batch holds no data, which is an
/// error of its own; else the result is that of reading all its rows.
pub open spec fn read_outcome(
    file: PhysicalFileView,
    logical: Seq<FieldView>,
    predicate: Option<PredicateView>,
) -> Result<Seq<Seq<CellView>>, Error> {
    if !resolvable(logical, file.columns) {
        Err(Error::SchemaMismatch)
    } else if file.batches.len() == 0 {
        Err(Error::EmptyData)
    } else {
        read_rows(all_rows(file.batches), file.columns, logical, predicate)
    }
}

/// Reading fails in one way only.
pub proof fn lemma_read_rows_failure(
    rows: Seq<Seq<CellView>>,
    physical: Seq<Seq<char>>,
    logical: Seq<FieldView>,
    predicate: Option<PredicateView>,
)
    ensures
        read_rows(rows, physical, logical, predicate) matches Err(e) ==> e
            == Error::SchemaMismatch,
    decreases rows.len(),
{
    if rows.len() > 0 {
        lemma_read_rows_failure(rows.drop_last(), physical, logical, predicate);
        if let Some(p) = predicate {
            lemma_evaluate_failure(p, physical, rows.last());
        }
    }
}

/// Reading two runs of rows one after the other gives what reading the
/// joined run gives, failure included.
pub proof fn lemma_read_rows_concat(
    first: Seq<Seq<CellView>>,
    second: Seq<Seq<CellView>>,
    physical: Seq<Seq<char>>,
    logical: Seq<FieldView>,
    predicate: Option<PredicateView>,
)
    ensures
        read_rows(first + second, physical, logical, predicate) == match read_rows(
            first,
            physical,
            logical,
            predicate,
        ) {
            Err(e) => Err(e),
            Ok(a) => match read_rows(second, physical, logical, predicate) {
                Err(e) => Err(e),
                Ok(b) => Ok(a + b),
            },
        },
    decreases second.len(),
{
    if second.len() == 0 {
        assert(first + second =~= first);
        match read_rows(first, physical, logical, predicate) {
            Ok(a) => {
                assert(a + Seq::<Seq<CellView>>::empty() =~= a);
            },
            Err(_) => {},
        }
    } else {
        lemma_read_rows_concat(first, second.drop_last(), physical, logical, predicate);
        assert((first + second).drop_last() =~= first + second.drop_last());
        assert((first + second).last() == second.last());
        match read_rows(first, physical, logical, predicate) {
            Ok(a) => {
                match read_rows(second.drop_last(), physical, logical, predicate) {
                    Ok(b) => {
                        let row = logical_row(second.last(), logical, physical);
                        assert((a + b).push(row) =~= a + b.push(row));
                    },
                    Err(_) => {},
                }
            },
            Err(_) => {},
        }
    }
}

/// A failure in a prefix of the rows is the failure of the whole run.
pub proof fn lemma_read_rows_fails(
    rows: Seq<Seq<CellView>>,
    physical: Seq<Seq<char>>,
    logical: Seq<FieldView>,
    predicate: Option<PredicateView>,
    k: int,
)
    requires
        0 <= k <= rows.len(),
        read_rows(rows.take(k), physical, logical, predicate) is Err,
    ensures
        read_rows(rows, physical, logical, predicate) == read_rows(
            rows.take(k),
            physical,
            logical,
            predicate,
        ),
    decreases rows.len(),
{
    if k == rows.len() {
        assert(rows.take(k) =~= rows);
    } else {
        assert(rows.drop_last().take(k) =~= rows.take(k));
        lemma_read_rows_fails(rows.drop_last(), physical, logical, predicate, k);
    }
}

/// A read without a predicate hands out every row of the file once, in file
/// order, each as its logical row: no row is dropped, none is changed but
/// for its column order, and an absent value stays absent.
pub proof fn lemma_read_keeps_rows(
    rows: Seq<Seq<CellView>>,
    physical: Seq<Seq<char>>,
    logical: Seq<FieldView>,
)
    requires
        read_rows(rows, physical, logical, None) is Ok,
    ensures
        read_rows(rows, physical, logical, None).unwrap().len() == rows.len(),
        forall|i: int|
            0 <= i < rows.len() ==> #[trigger] read_rows(
                rows,
                physical,
                logical,
                None,
            ).unwrap()[i] == logical_row(rows[i], logical, physical),
    decreases rows.len(),
{
    if rows.len() > 0 {
        lemma_read_keeps_rows(rows.drop_last(), physical, logical);
    }
}

/// The positions of the rows that pass the predicate, in rising order.
pub open spec fn passing(
    rows: Seq<Seq<CellView>>,
    physical: Seq<Seq<char>>,
    predicate: Option<PredicateView>,
) -> Seq<int>
    decreases rows.len(),
{
    if rows.len() == 0 {
        Seq::empty()
    } else {
        let front = passing(rows.drop_last(), physical, predicate);
        if passes(predicate, physical, rows.last()) == Ok::<bool, Error>(true) {
            front.push(rows.len() - 1)
        } else {
            front
        }
    }
}

/// A read hands out the rows that pass the predicate, each once and in file
/// order: the rows handed out are the logical rows of the passing rows, and
/// a row that stands behind another in the file stands behind it in what is
/// handed out.
pub proof fn lemma_read_selects_in_order(
    rows: Seq<Seq<CellView>>,
    physical: Seq<Seq<char>>,
    logical: Seq<FieldView>,
    predicate: Option<PredicateView>,
)
    requires
        read_rows(rows, physical, logical, predicate) is Ok,
    ensures
        read_rows(rows, physical, logical, predicate).unwrap().len() == passing(
            rows,
            physical,
            predicate,
        ).len(),
        forall|i: int|
            0 <= i < passing(rows, physical, predicate).len() ==> {
                let at = #[trigger] passing(rows, physical, predicate)[i];
                &&& 0 <= at < rows.len()
                &&& passes(predicate, physical, rows[at]) == Ok::<bool, Error>(true)
                &&& read_rows(rows, physical, logical, predicate).unwrap()[i] == logical_row(
                    rows[at],
                    logical,
                    physical,
                )
            },
        forall|i: int, j: int|
            0 <= i < j < passing(rows, physical, predicate).len() ==> passing(
                rows,
                physical,
                predicate,
            )[i] < passing(rows, physical, predicate)[j],
    decreases rows.len(),
{
    if rows.len() > 0 {
        let front = rows.drop_last();
        lemma_read_selects_in_order(front, physical, logical, predicate);
        let picked = passing(rows, physical, predicate);
        let before = passing(front, physical, predicate);
        assert forall|i: int| 0 <= i < picked.len() implies {
            let at = #[trigger] picked[i];
            &&& 0 <= at < rows.len()
            &&& passes(predicate, physical, rows[at]) == Ok::<bool, Error>(true)
            &&& read_rows(rows, physical, logical, predicate).unwrap()[i] == logical_row(
                rows[at],
                logical,
                physical,
            )
        } by {
            if i < before.len() {
                assert(picked[i] == before[i]);
                assert(front[before[i]] == rows[before[i]]);
            }
        }
        assert forall|i: int, j: int| 0 <= i < j < picked.len() implies picked[i] < picked[j] by {
            assert(picked[i] == before[i]);
            if j < before.len() {
                assert(picked[j] == before[j]);
            }
        }
    }
}

/// The rows that a read hands out hold one cell for each logical column.
pub proof fn lemma_read_rows_width(
    rows: Seq<Seq<CellView>>,
    physical: Seq<Seq<char>>,
    logical: Seq<FieldView>,
    predicate: Option<PredicateView>,
    i: int,
)
    requires
        read_rows(rows, physical, logical, predicate) is Ok,
        0 <= i < read_rows(rows, physical, logical, predicate).unwrap().len(),
    ensures
        read_rows(rows, physical, logical, predicate).unwrap()[i].len() == logical.len(),
        read_rows(rows, physical, logical, predicate).unwrap().len() <= rows.len(),
    decreases rows.len(),
{
    if rows.len() > 0 {
        let front = read_rows(rows.drop_last(), physical, logical, predicate).unwrap();
        if i < front.len() {
            lemma_read_rows_width(rows.drop_last(), physical, logical, predicate, i);
        } else if front.len() > 0 {
            lemma_read_rows_width(rows.drop_last(), physical, logical, predicate, 0);
        }
    }
}

/// A failure in the first batches of a file is the failure of the whole
/// file.
pub proof fn lemma_all_rows_fails(
    batches: Seq<Seq<Seq<CellView>>>,
    physical: Seq<Seq<char>>,
    logical: Seq<FieldView>,
    predicate: Option<PredicateView>,
    k: int,
)
    requires
        0 <= k <= batches.len(),
        read_rows(all_rows(batches.take(k)), physical, logical, predicate) is Err,
    ensures
        read_rows(all_rows(batches), physical, logical, predicate) == read_rows(
            all_rows(batches.take(k)),
            physical,
            logical,
            predicate,
        ),
    decreases batches.len(),
{
    if k == batches.len() {
        assert(batches.take(k) =~= batches);
    } else {
        assert(batches.drop_last().take(k) =~= batches.take(k));
        lemma_all_rows_fails(batches.drop_last(), physical, logical, predicate, k);
        lemma_read_rows_concat(
            all_rows(batches.drop_last()),
            batches.last(),
            physical,
            logical,
            predicate,
        );
    }
}

/// The views of a sequence of rows.
pub open spec fn rows_view(rows: Seq<Vec<Cell>>) -> Seq<Seq<CellView>> {
    Seq::new(rows.len(), |i: int| row_view(rows[i]@))
}

/// Reads the rows of one batch by a plan and appends the logical rows to
/// `out`. A failure leaves `out` as it was.
fn append_rows(
    batch: &Batch,
    physical: &Vec<String>,
    logical: &StructType,
    plan: &Projection,
    predicate: &Option<Predicate>,
    out: &mut Vec<Vec<Cell>>,
) -> (done: Result<(), Error>)
    requires
        plans(plan.mask@, plan.sources@, logical@, physical.deep_view()),
    ensures
        match done {
            Ok(()) => {
                &&& read_rows(
                    batch@,
                    physical.deep_view(),
                    logical@,
                    filter_view(*predicate),
                ) is Ok
                &&& rows_view(final(out)@) == rows_view(old(out)@) + read_rows(
                    batch@,
                    physical.deep_view(),
                    logical@,
                    filter_view(*predicate),
                ).unwrap()
            },
            Err(e) => {
                &&& read_rows(batch@, physical.deep_view(), logical@, filter_view(*predicate))
                    == Err::<Seq<Seq<CellView>>, _>(e)
                &&& *final(out) == *old(out)
            },
        },
{
    let ghost names = physical.deep_view();
    let ghost fields = logical@;
    let ghost filter = filter_view(*predicate);
    let count: usize = batch.rows.len();
    let mut read: Vec<Vec<Cell>> = Vec::new();
    let mut i: usize = 0;
    assert(batch@.take(0) =~= Seq::empty());
    assert(rows_view(read@) =~= Seq::empty());
    while i < count
        invariant
            i <= count,
            count == batch.rows@.len(),
            count == batch@.len(),
            names == physical.deep_view(),
            fields == logical@,
            filter == filter_view(*predicate),
            plans(plan.mask@, plan.sources@, fields, names),
            read_rows(batch@.take(i as int), names, fields, filter) == Ok::<_, Error>(
                rows_view(read@),
            ),
        decreases count - i,
    {
        let row = &batch.rows[i];
        proof {
            assert(batch@.take(i + 1).drop_last() =~= batch@.take(i as int));
            assert(batch@.take(i + 1).last() == row_view(row@));
            lemma_plan_gives_logical_row(row_view(row@), plan.mask@, plan.sources@, fields, names);
        }
        let keep = match row_passes(predicate, physical, row) {
            Ok(keep) => keep,
            Err(e) => {
                proof {
                    lemma_read_rows_fails(batch@, names, fields, filter, i + 1);
                }
                return Err(e);
            },
        };
        if keep {
            let kept = match prune_row(row, &plan.mask) {
                Ok(cells) => cells,
                Err(e) => {
                    proof {
                        lemma_read_rows_fails(batch@, names, fields, filter, i + 1);
                    }
                    return Err(e);
                },
            };
            assert(kept@.len() == row_view(kept@).len());
            let arranged = match reorder_row(&kept, &plan.sources) {
                Ok(cells) => cells,
                Err(e) => {
                    return Err(e);
                },
            };
            let ghost rows_before = rows_view(read@);
            read.push(arranged);
            assert(rows_view(read@) =~= rows_before.push(
                logical_row(row_view(row@), fields, names),
            ));
        }
        i += 1;
    }
    assert(batch@.take(count as int) =~= batch@);
    let ghost before = rows_view(out@);
    let ghost added = rows_view(read@);
    out.append(&mut read);
    assert(rows_view(out@) =~= before + added);
    Ok(())
}

/// What a read handed back, as mathematics.
pub open spec fn result_view(read: Result<Batch, Error>) -> Result<Seq<Seq<CellView>>, Error> {
    match read {
        Ok(batch) => Ok(batch@),
        Err(e) => Err(e),
    }
}

/// Reads one batch whose columns are called `physical` as the schema
/// `logical`, keeping the rows that pass `predicate`.
pub fn read_batch(
    batch: &Batch,
    physical: &Vec<String>,
    logical: &StructType,
    predicate: &Option<Predicate>,
) -> (read: Result<Batch, Error>)
    ensures
        result_view(read) == if resolvable(logical@, physical.deep_view()) {
            read_rows(batch@, physical.deep_view(), logical@, filter_view(*predicate))
        } else {
            Err(Error::SchemaMismatch)
        },
{
    let plan = plan_projection(logical, physical)?;
    let mut rows: Vec<Vec<Cell>> = Vec::new();
    assert(rows_view(rows@) =~= Seq::empty());
    append_rows(batch, physical, logical, &plan, predicate, &mut rows)?;
    let read = Batch { rows };
    assert(read@ =~= read_rows(
        batch@,
        physical.deep_view(),
        logical@,
        filter_view(*predicate),
    ).unwrap());
    Ok(read)
}

/// Reads a file as the schema `logical`, keeping the rows that pass
/// `predicate`: all its rows in one batch, in logical column order.
pub fn read_file(
    file: &PhysicalFile,
    logical: &StructType,
    predicate: &Option<Predicate>,
) -> (read: Result<Batch, Error>)
    ensures
        result_view(read) == read_outcome(file@, logical@, filter_view(*predicate)),
{
    let ghost names = file.columns.deep_view();
    let ghost fields = logical@;
    let ghost filter = filter_view(*predicate);
    let ghost batches = batches_view(file.batches@);
    let plan = plan_projection(logical, &file.columns)?;
    let count: usize = file.batches.len();
    if count == 0 {
        return Err(Error::EmptyData);
    }
    let mut rows: Vec<Vec<Cell>> = Vec::new();
    let mut i: usize = 0;
    assert(rows_view(rows@) =~= Seq::empty());
    assert(batches.take(0) =~= Seq::empty());
    while i < count
        invariant
            i <= count,
            count == file.batches@.len(),
            names == file.columns.deep_view(),
            fields == logical@,
            batches == batches_view(file.batches@),
            batches.len() == count,
            count > 0,
            filter == filter_view(*predicate),
            resolvable(fields, names),
            plans(plan.mask@, plan.sources@, fields, names),
            read_rows(all_rows(batches.take(i as int)), names, fields, filter) == Ok::<_, Error>(
                rows_view(rows@),
            ),
        decreases count - i,
    {
        proof {
            assert(batches.take(i + 1).drop_last() =~= batches.take(i as int));
            assert(batches.take(i + 1).last() == file.batches@[i as int]@);
            lemma_read_rows_concat(
                all_rows(batches.take(i as int)),
                file.batches@[i as int]@,
                names,
                fields,
                filter,
            );
        }
        match append_rows(&file.batches[i], &file.columns, logical, &plan, predicate, &mut rows) {
            Ok(()) => {},
            Err(e) => {
                proof {
                    assert(read_rows(all_rows(batches.take(i + 1)), names, fields, filter) == Err::<
                        Seq<Seq<CellView>>,
                        _,
                    >(e));
                    lemma_all_rows_fails(batches, names, fields, filter, i + 1);
                }
                return Err(e);
            },
        }
        i += 1;
    }
    assert(batches.take(count as int) =~= batches);
    let read = Batch { rows };
    assert(read@ =~= rows_view(read.rows@));
    Ok(read)
}

/// Reads every file of `files`, each on its own: one outcome per file, in
/// the order of `files`. No files give no outcomes, which is no error.
pub fn read_files(
    files: &Vec<PhysicalFile>,
    logical: &StructType,
    predicate: &Option<Predicate>,
) -> (reads: Vec<Result<Batch, Error>>)
    ensures
        reads@.len() == files@.len(),
        forall|i: int|
            0 <= i < files@.len() ==> result_view(#[trigger] reads@[i]) == read_outcome(
                files@[i]@,
                logical@,
                filter_view(*predicate),
            ),
{
    let mut reads: Vec<Result<Batch, Error>> = Vec::new();
    let mut i: usize = 0;
    while i < files.len()
        invariant
            i <= files.len(),
            reads@.len() == i,
            forall|j: int|
                0 <= j < i ==> result_view(#[trigger] reads@[j]) == read_outcome(
                    files@[j]@,
                    logical@,
                    filter_view(*predicate),
                ),
        decreases files.len() - i,
    {
        reads.push(read_file(&files[i], logical, predicate));
        i += 1;
    }
    reads
}

/// What a physical reader hands out when the predicate and the mask are
/// pushed down to it: the rows that pass the predicate, each restricted to
/// the columns of `mask`.
pub open spec fn pushed_down(
    rows: Seq<Seq<CellView>>,
    physical: Seq<Seq<char>>,
    mask: Seq<usize>,
    predicate: Option<PredicateView>,
) -> Seq<Seq<CellView>>
    decreases rows.len(),
{
    if rows.len() == 0 {
        Seq::empty()
    } else {
        let front = pushed_down(rows.drop_last(), physical, mask, predicate);
        if passes(predicate, physical, rows.last()) == Ok::<bool, Error>(true) {
            front.push(pruned(rows.last(), mask))
        } else {
            front
        }
    }
}

/// What arranging a run of rows gives: every row in the order of `sources`.
/// A row that a source points beyond is a schema mismatch.
pub open spec fn arranged_rows(rows: Seq<Seq<CellView>>, sources: Seq<Option<usize>>) -> Result<
    Seq<Seq<CellView>>,
    Error,
>
    decreases rows.len(),
{
    if rows.len() == 0 {
        Ok(Seq::empty())
    } else {
        match arranged_rows(rows.drop_last(), sources) {
            Err(e) => Err(e),
            Ok(front) => if in_reach(sources, rows.last().len() as int) {
                Ok(front.push(reordered(rows.last(), sources)))
            } else {
                Err(Error::SchemaMismatch)
            },
        }
    }
}

/// What arranging the batches that a physical reader handed out gives: no
/// batch at all means that the file holds no data; else all rows are
/// arranged, in order.
pub open spec fn arrange_outcome(
    batches: Seq<Seq<Seq<CellView>>>,
    sources: Seq<Option<usize>>,
) -> Result<Seq<Seq<CellView>>, Error> {
    if batches.len() == 0 {
        Err(Error::EmptyData)
    } else {
        arranged_rows(all_rows(batches), sources)
    }
}

/// Arranging two runs of rows one after the other gives what arranging the
/// joined run gives, failure included.
pub proof fn lemma_arranged_rows_concat(
    first: Seq<Seq<CellView>>,
    second: Seq<Seq<CellView>>,
    sources: Seq<Option<usize>>,
)
    ensures
        arranged_rows(first + second, sources) == match arranged_rows(first, sources) {
            Err(e) => Err(e),
            Ok(a) => match arranged_rows(second, sources) {
                Err(e) => Err(e),
                Ok(b) => Ok(a + b),
            },
        },
    decreases second.len(),
{
    if second.len() == 0 {
        assert(first + second =~= first);
        match arranged_rows(first, sources) {
            Ok(a) => {
                assert(a + Seq::<Seq<CellView>>::empty() =~= a);
            },
            Err(_) => {},
        }
    } else {
        lemma_arranged_rows_concat(first, second.drop_last(), sources);
        assert((first + second).drop_last() =~= first + second.drop_last());
        assert((first + second).last() == second.last());
        match arranged_rows(first, sources) {
            Ok(a) => {
                match arranged_rows(second.drop_last(), sources) {
                    Ok(b) => {
                        let row = reordered(second.last(), sources);
                        assert((a + b).push(row) =~= a + b.push(row));
                    },
                    Err(_) => {},
                }
            },
            Err(_) => {},
        }
    }
}

/// Pushing predicate and mask down to the physical reader and arranging what
/// it hands out gives the read itself: no row that passes is lost, no row
/// that fails gets through, and the columns come out in logical order.
pub proof fn lemma_pushdown_completes_read(
    rows: Seq<Seq<CellView>>,
    physical: Seq<Seq<char>>,
    logical: Seq<FieldView>,
    predicate: Option<PredicateView>,
    mask: Seq<usize>,
    sources: Seq<Option<usize>>,
)
    requires
        plans(mask, sources, logical, physical),
        read_rows(rows, physical, logical, predicate) is Ok,
    ensures
        arranged_rows(pushed_down(rows, physical, mask, predicate), sources) == read_rows(
            rows,
            physical,
            logical,
            predicate,
        ),
    decreases rows.len(),
{
    if rows.len() > 0 {
        let front = rows.drop_last();
        let last = rows.last();
        lemma_pushdown_completes_read(front, physical, logical, predicate, mask, sources);
        lemma_plan_gives_logical_row(last, mask, sources, logical, physical);
        let handed = pushed_down(front, physical, mask, predicate);
        if passes(predicate, physical, last) == Ok::<bool, Error>(true) {
            assert(handed.push(pruned(last, mask)).drop_last() =~= handed);
            assert(pruned(last, mask).len() == mask.len());
        }
    }
}

/// Arranges the rows of batches that were read by a plan's mask in the order
/// of the logical schema, all rows in one batch. No batch at all means that
/// the file holds no data.
pub fn arrange(batches: &Vec<Batch>, plan: &Projection) -> (read: Result<Batch, Error>)
    ensures
        result_view(read) == arrange_outcome(batches_view(batches@), plan.sources@),
{
    let ghost views = batches_view(batches@);
    let count: usize = batches.len();
    if count == 0 {
        return Err(Error::EmptyData);
    }
    let mut rows: Vec<Vec<Cell>> = Vec::new();
    let mut i: usize = 0;
    assert(rows_view(rows@) =~= Seq::empty());
    assert(views.take(0) =~= Seq::empty());
    while i < count
        invariant
            i <= count,
            count > 0,
            count == batches@.len(),
            views == batches_view(batches@),
            arranged_rows(all_rows(views.take(i as int)), plan.sources@) == Ok::<_, Error>(
                rows_view(rows@),
            ),
        decreases count - i,
    {
        let batch = &batches[i];
        let ghost done = all_rows(views.take(i as int));
        proof {
            assert(views.take(i + 1).drop_last() =~= views.take(i as int));
            assert(views.take(i + 1).last() == batch@);
            assert(batch@.take(0) =~= Seq::empty());
            assert(done + batch@.take(0) =~= done);
            assert(all_rows(views.take(i + 1)) == done + batch@);
        }
        let mut j: usize = 0;
        while j < batch.rows.len()
            invariant
                j <= batch.rows@.len(),
                batch.rows@.len() == batch@.len(),
                i < count,
                count == views.len(),
                views == batches_view(batches@),
                all_rows(views.take(i + 1)) == done + batch@,
                arranged_rows(done + batch@.take(j as int), plan.sources@) == Ok::<_, Error>(
                    rows_view(rows@),
                ),
            decreases batch.rows@.len() - j,
        {
            let row = &batch.rows[j];
            proof {
                assert(batch@.take(j + 1).drop_last() =~= batch@.take(j as int));
                assert(batch@.take(j + 1).last() == row_view(row@));
                assert((done + batch@.take(j + 1)).drop_last() =~= done + batch@.take(j as int));
                assert((done + batch@.take(j + 1)).last() == row_view(row@));
                assert(row_view(row@).len() == row@.len());
            }
            match reorder_row(row, &plan.sources) {
                Ok(cells) => {
                    let ghost before = rows_view(rows@);
                    rows.push(cells);
                    assert(rows_view(rows@) =~= before.push(
                        reordered(row_view(row@), plan.sources@),
                    ));
                },
                Err(e) => {
                    proof {
                        let upto = done + batch@.take(j + 1);
                        let rest = batch@.skip(j + 1);
                        assert(arranged_rows(upto, plan.sources@) == Err::<
                            Seq<Seq<CellView>>,
                            _,
                        >(e));
                        lemma_arranged_rows_concat(upto, rest, plan.sources@);
                        assert(upto + rest =~= done + batch@);
                        lemma_arranged_rows_fails(views, plan.sources@, i + 1);
                    }
                    return Err(e);
                },
            }
            j += 1;
        }
        proof {
            assert(batch@.take(j as int) =~= batch@);
        }
        i += 1;
    }
    assert(views.take(count as int) =~= views);
    let read = Batch { rows };
    assert(read@ =~= rows_view(read.rows@));
    Ok(read)
}

/// What finishing a read gives, from the batches that the physical reader
/// handed out and from whether the file holds any row at all. A file
/// without rows holds no data, which is a failure; a file with rows of
/// which the reader handed out none, because none passed the predicate, is
/// read as no rows. Else all rows are arranged, in order.
pub open spec fn finish_outcome(
    batches: Seq<Seq<Seq<CellView>>>,
    file_has_data: bool,
    sources: Seq<Option<usize>>,
) -> Result<Seq<Seq<CellView>>, Error> {
    if batches.len() == 0 && !file_has_data {
        Err(Error::EmptyData)
    } else {
        arranged_rows(all_rows(batches), sources)
    }
}

/// Finishes the read of a file: decides whether the file held data, and
/// arranges the rows that were read by the plan's mask in the order of the
/// logical schema.
pub fn arrange_read(batches: &Vec<Batch>, file_has_data: bool, plan: &Projection) -> (read: Result<
    Batch,
    Error,
>)
    ensures
        result_view(read) == finish_outcome(batches_view(batches@), file_has_data, plan.sources@),
{
    if batches.len() == 0 {
        if file_has_data {
            let read = Batch { rows: Vec::new() };
            assert(read@ =~= Seq::<Seq<CellView>>::empty());
            Ok(read)
        } else {
            Err(Error::EmptyData)
        }
    } else {
        arrange(batches, plan)
    }
}

/// A failure in the first batches is the failure of the whole.
pub proof fn lemma_arranged_rows_fails(
    batches: Seq<Seq<Seq<CellView>>>,
    sources: Seq<Option<usize>>,
    k: int,
)
    requires
        0 <= k <= batches.len(),
        arranged_rows(all_rows(batches.take(k)), sources) is Err,
    ensures
        arranged_rows(all_rows(batches), sources) == arranged_rows(
            all_rows(batches.take(k)),
            sources,
        ),
    decreases batches.len(),
{
    if k == batches.len() {
        assert(batches.take(k) =~= batches);
    } else {
        assert(batches.drop_last().take(k) =~= batches.take(k));
        lemma_arranged_rows_fails(batches.drop_last(), sources, k);
        lemma_arranged_rows_concat(all_rows(batches.drop_last()), batches.last(), sources);
    }
}

} // verus!
