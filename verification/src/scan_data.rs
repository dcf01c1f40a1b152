//! Scan data: for each batch of log rows the rows whose add action makes a
//! file live, and the files that those rows describe.
//!
//! A batch is taken as a whole. All its rows are decoded before any of them
//! changes the reconciliation, so a row that fails leaves no trace.

use crate::actions::{actions_view, Action, ActionView};
use crate::batch::{row_view, Batch, CellView};
use crate::error::Error;
use crate::scan::{
    mentions, scan_file_of, scan_files, scan_files_view, Reconciler, ScanFile, ScanFileView,
};
use crate::schema::ActionOffsets;
use crate::visitor::{
    add_of, decode_row, decode_rows, find_add, lemma_decode_rows_fails, visit_row,
};
use vstd::prelude::*;

verus! {

/// Whether row `i` of `rows` is selected: it holds an add action, and
/// neither `history` nor a row in front of it speaks of that add's path.
pub open spec fn selects(
    history: Seq<ActionView>,
    rows: Seq<Seq<CellView>>,
    offsets: ActionOffsets,
    base: int,
    i: int,
) -> bool {
    match add_of(rows[i], offsets) {
        Ok(Some(add)) => !mentions(
            history + decode_rows(rows.take(i), offsets, base).unwrap(),
            add.path,
        ),
        _ => false,
    }
}

/// The files that the selected rows of a batch describe, in row order: one
/// for each row that is selected and holds an add action. A selected row
/// whose add action fails to decode fails the whole. Rows beyond the end of
/// the selection are not selected.
pub open spec fn selected_files(
    rows: Seq<Seq<CellView>>,
    selection: Seq<bool>,
    offsets: ActionOffsets,
) -> Result<Seq<ScanFileView>, Error>
    decreases rows.len(),
{
    if rows.len() == 0 {
        Ok(Seq::empty())
    } else {
        match selected_files(rows.drop_last(), selection, offsets) {
            Err(e) => Err(e),
            Ok(front) => if rows.len() - 1 < selection.len() && selection[rows.len() - 1] {
                match add_of(rows.last(), offsets) {
                    Err(e) => Err(e),
                    Ok(Some(add)) => Ok(front.push(scan_file_of(add))),
                    Ok(None) => Ok(front),
                }
            } else {
                Ok(front)
            },
        }
    }
}

/// A failure among the first rows is the failure of the whole batch.
pub proof fn lemma_selected_files_fails(
    rows: Seq<Seq<CellView>>,
    selection: Seq<bool>,
    offsets: ActionOffsets,
    k: int,
)
    requires
        0 <= k <= rows.len(),
        selected_files(rows.take(k), selection, offsets) is Err,
    ensures
        selected_files(rows, selection, offsets) == selected_files(
            rows.take(k),
            selection,
            offsets,
        ),
    decreases rows.len(),
{
    if k == rows.len() {
        assert(rows.take(k) =~= rows);
    } else {
        assert(rows.drop_last().take(k) =~= rows.take(k));
        lemma_selected_files_fails(rows.drop_last(), selection, offsets, k);
    }
}

/// Decodes the add actions of the selected rows of `batch` into the files
/// to scan.
pub fn visit_scan_files(
    batch: &Batch,
    selection: &Vec<bool>,
    offsets: &ActionOffsets,
) -> (files: Result<Vec<ScanFile>, Error>)
    ensures
        match files {
            Ok(found) => selected_files(batch@, selection@, *offsets) == Ok::<_, Error>(
                scan_files_view(found@),
            ),
            Err(e) => selected_files(batch@, selection@, *offsets) == Err::<
                Seq<ScanFileView>,
                _,
            >(e),
        },
{
    let mut found: Vec<ScanFile> = Vec::new();
    let count: usize = batch.rows.len();
    let mut i: usize = 0;
    assert(scan_files_view(found@) =~= Seq::empty());
    assert(batch@.take(0) =~= Seq::empty());
    while i < count
        invariant
            i <= count,
            count == batch.rows@.len(),
            count == batch@.len(),
            selected_files(batch@.take(i as int), selection@, *offsets) == Ok::<
                _,
                Error,
            >(scan_files_view(found@)),
        decreases count - i,
    {
        proof {
            assert(batch@.take(i + 1).drop_last() =~= batch@.take(i as int));
            assert(batch@.take(i + 1).last() == row_view(batch.rows@[i as int]@));
        }
        if i < selection.len() && selection[i] {
            match find_add(&batch.rows[i], offsets) {
                Ok(Some(add)) => {
                    let ghost before = scan_files_view(found@);
                    found.push(ScanFile::from_add(add));
                    assert(scan_files_view(found@) =~= before.push(scan_file_of(add@)));
                },
                Ok(None) => {},
                Err(e) => {
                    proof {
                        lemma_selected_files_fails(
                            batch@,
                            selection@,
                            *offsets,
                            i + 1,
                        );
                    }
                    return Err(e);
                },
            }
        }
        i += 1;
    }
    assert(batch@.take(count as int) =~= batch@);
    Ok(found)
}

/// The first action of a row's list is the row's add action, if the row
/// holds one, and no add action otherwise.
pub proof fn lemma_add_comes_first(row: Seq<CellView>, offsets: ActionOffsets, index: int)
    requires
        decode_row(row, offsets, index) is Ok,
    ensures
        match add_of(row, offsets) {
            Ok(Some(add)) => decode_row(row, offsets, index).unwrap().len() > 0 && decode_row(
                row,
                offsets,
                index,
            ).unwrap()[0] == ActionView::Add(add, index),
            _ => decode_row(row, offsets, index).unwrap().len() > 0 ==> !(decode_row(
                row,
                offsets,
                index,
            ).unwrap()[0] is Add),
        },
        forall|t: int|
            1 <= t < decode_row(row, offsets, index).unwrap().len() ==> !(#[trigger] decode_row(
                row,
                offsets,
                index,
            ).unwrap()[t] is Add),
{
}

impl Reconciler {
    /// Takes one batch of log rows into account and says which of its rows
    /// make a file live. `base` is the number of rows replayed before this
    /// batch. Row `i` is selected exactly if it holds an add action for a
    /// path that nothing observed before, and no row in front of it, speaks
    /// of. A row that fails to decode fails the batch, and the pass stays as
    /// it was.
    pub fn scan_data(
        &mut self,
        batch: &Batch,
        offsets: &ActionOffsets,
        base: usize,
    ) -> (selection: Result<Vec<bool>, Error>)
        requires
            old(self).wf(),
            base + batch.rows.len() <= usize::MAX,
        ensures
            final(self).wf(),
            match selection {
                Ok(picked) => {
                    &&& decode_rows(batch@, *offsets, base as int) is Ok
                    &&& final(self).history() == old(self).history() + decode_rows(
                        batch@,
                        *offsets,
                        base as int,
                    ).unwrap()
                    &&& picked@.len() == batch@.len()
                    &&& forall|i: int|
                        0 <= i < batch@.len() ==> #[trigger] picked@[i] == selects(
                            old(self).history(),
                            batch@,
                            *offsets,
                            base as int,
                            i,
                        )
                },
                Err(e) => {
                    &&& decode_rows(batch@, *offsets, base as int) == Err::<Seq<ActionView>, _>(e)
                    &&& *final(self) == *old(self)
                },
            },
    {
        let ghost start = self.history();
        let count: usize = batch.rows.len();
        let mut grouped: Vec<Vec<Action>> = Vec::new();
        let mut i: usize = 0;
        assert(batch@.take(0) =~= Seq::empty());
        while i < count
            invariant
                i <= count,
                count == batch.rows@.len(),
                count == batch@.len(),
                base + count <= usize::MAX,
                *self == *old(self),
                self.wf(),
                grouped@.len() == i,
                decode_rows(batch@.take(i as int), *offsets, base as int) is Ok,
                forall|j: int|
                    0 <= j < i ==> decode_row(batch@[j], *offsets, base + j) == Ok::<_, Error>(
                        actions_view((#[trigger] grouped@[j])@),
                    ),
            decreases count - i,
        {
            proof {
                assert(batch@.take(i + 1).drop_last() =~= batch@.take(i as int));
                assert(batch@.take(i + 1).last() == row_view(batch.rows@[i as int]@));
                assert(batch@[i as int] == row_view(batch.rows@[i as int]@));
            }
            let mut one: Vec<Action> = Vec::new();
            assert(actions_view(one@) =~= Seq::empty());
            match visit_row(&batch.rows[i], offsets, base + i, &mut one) {
                Ok(()) => {
                    assert(actions_view(one@) =~= decode_row(
                        batch@[i as int],
                        *offsets,
                        base + i,
                    ).unwrap());
                    grouped.push(one);
                },
                Err(e) => {
                    proof {
                        assert(decode_rows(batch@.take(i + 1), *offsets, base as int) == Err::<
                            Seq<ActionView>,
                            _,
                        >(e));
                        lemma_decode_rows_fails(batch@, *offsets, base as int, i + 1);
                    }
                    return Err(e);
                },
            }
            i += 1;
        }
        assert(batch@.take(count as int) =~= batch@);
        let mut picked: Vec<bool> = Vec::new();
        proof {
            assert(start + decode_rows(batch@.take(0), *offsets, base as int).unwrap() =~= start);
        }
        for one in rows: grouped
            invariant
                self.wf(),
                rows.seq() == grouped@,
                grouped@.len() == count,
                count == batch@.len(),
                start == old(self).history(),
                decode_rows(batch@, *offsets, base as int) is Ok,
                forall|j: int|
                    0 <= j < count ==> decode_row(batch@[j], *offsets, base + j) == Ok::<_, Error>(
                        actions_view((#[trigger] grouped@[j])@),
                    ),
                decode_rows(batch@.take(rows.index() as int), *offsets, base as int) is Ok,
                self.history() == start + decode_rows(
                    batch@.take(rows.index() as int),
                    *offsets,
                    base as int,
                ).unwrap(),
                picked@.len() == rows.index(),
                forall|j: int|
                    0 <= j < rows.index() ==> #[trigger] picked@[j] == selects(
                        start,
                        batch@,
                        *offsets,
                        base as int,
                        j,
                    ),
        {
            let ghost r = rows.index() as int;
            let ghost list = actions_view(one@);
            let ghost reached = self.history();
            proof {
                assert(one == grouped@[r]);
                assert(batch@.take(r + 1).drop_last() =~= batch@.take(r));
                assert(batch@.take(r + 1).last() == batch@[r]);
                assert(decode_rows(batch@.take(r + 1), *offsets, base as int).unwrap()
                    == decode_rows(batch@.take(r), *offsets, base as int).unwrap() + list);
                lemma_add_comes_first(batch@[r], *offsets, base + r);
            }
            let live = if one.len() > 0 {
                assert(list[0] == one@[0]@);
                match &one[0] {
                    Action::Add(add, _) => !self.is_decided(&add.path),
                    _ => false,
                }
            } else {
                false
            };
            assert(live == selects(start, batch@, *offsets, base as int, r));
            picked.push(live);
            proof {
                assert(list.take(0) =~= Seq::empty());
                assert(reached + list.take(0) =~= reached);
            }
            for action in steps: one
                invariant
                    self.wf(),
                    steps.seq() == one@,
                    list == actions_view(one@),
                    self.history() == reached + list.take(steps.index() as int),
            {
                let ghost t = steps.index() as int;
                proof {
                    assert(list.take(t + 1) =~= list.take(t).push(action@));
                    assert(reached + list.take(t + 1) =~= (reached + list.take(t)).push(action@));
                }
                self.observe(action);
            }
            proof {
                assert(list.take(one@.len() as int) =~= list);
                assert(reached + list =~= start + (decode_rows(
                    batch@.take(r),
                    *offsets,
                    base as int,
                ).unwrap() + list));
            }
        }
        proof {
            assert(batch@.take(count as int) =~= batch@);
        }
        Ok(picked)
    }
}

/// Actions that are no adds leave the files to scan as they are.
pub proof fn lemma_no_adds_no_files(history: Seq<ActionView>, more: Seq<ActionView>)
    requires
        forall|t: int| 0 <= t < more.len() ==> !(#[trigger] more[t] is Add),
    ensures
        scan_files(history + more) == scan_files(history),
    decreases more.len(),
{
    if more.len() == 0 {
        assert(history + more =~= history);
    } else {
        assert forall|t: int| 0 <= t < more.drop_last().len() implies !(
        #[trigger] more.drop_last()[t] is Add) by {
            assert(more.drop_last()[t] == more[t]);
        }
        lemma_no_adds_no_files(history, more.drop_last());
        assert((history + more).drop_last() =~= history + more.drop_last());
        assert((history + more).last() == more[more.len() - 1]);
    }
}

/// What the actions of one row add to the files to scan: the file of the
/// row's add action, where the row holds one for a path that `history` does
/// not speak of, and nothing otherwise.
pub proof fn lemma_row_adds_its_file(
    history: Seq<ActionView>,
    row: Seq<CellView>,
    offsets: ActionOffsets,
    index: int,
)
    requires
        decode_row(row, offsets, index) is Ok,
    ensures
        scan_files(history + decode_row(row, offsets, index).unwrap()) == match add_of(
            row,
            offsets,
        ) {
            Ok(Some(add)) => if mentions(history, add.path) {
                scan_files(history)
            } else {
                scan_files(history).push(scan_file_of(add))
            },
            _ => scan_files(history),
        },
{
    let list = decode_row(row, offsets, index).unwrap();
    lemma_add_comes_first(row, offsets, index);
    match add_of(row, offsets) {
        Ok(Some(add)) => {
            let first = history.push(list[0]);
            let rest = list.skip(1);
            assert(history + list =~= first + rest);
            assert forall|t: int| 0 <= t < rest.len() implies !(#[trigger] rest[t] is Add) by {
                assert(rest[t] == list[t + 1]);
            }
            lemma_no_adds_no_files(first, rest);
            assert(first.drop_last() =~= history);
        },
        _ => {
            assert forall|t: int| 0 <= t < list.len() implies !(#[trigger] list[t] is Add) by {}
            lemma_no_adds_no_files(history, list);
        },
    }
}

/// The rows that a batch's selection picks describe exactly the files that
/// the batch adds to the scan: decoding the selected rows gives, in order,
/// what reconciling the batch appends to the files to scan.
pub proof fn lemma_selection_gives_new_files(
    history: Seq<ActionView>,
    rows: Seq<Seq<CellView>>,
    offsets: ActionOffsets,
    base: int,
    selection: Seq<bool>,
)
    requires
        decode_rows(rows, offsets, base) is Ok,
        selection.len() >= rows.len(),
        forall|i: int|
            0 <= i < rows.len() ==> #[trigger] selection[i] == selects(
                history,
                rows,
                offsets,
                base,
                i,
            ),
    ensures
        selected_files(rows, selection, offsets) is Ok,
        scan_files(history + decode_rows(rows, offsets, base).unwrap()) == scan_files(history)
            + selected_files(rows, selection, offsets).unwrap(),
    decreases rows.len(),
{
    if rows.len() == 0 {
        assert(history + decode_rows(rows, offsets, base).unwrap() =~= history);
        assert(scan_files(history) + Seq::<ScanFileView>::empty() =~= scan_files(history));
    } else {
        let front = rows.drop_last();
        let last = rows.len() - 1;
        assert forall|i: int| 0 <= i < front.len() implies #[trigger] selection[i] == selects(
            history,
            front,
            offsets,
            base,
            i,
        ) by {
            assert(front[i] == rows[i]);
            assert(front.take(i) =~= rows.take(i));
            assert(selection[i] == selects(history, rows, offsets, base, i));
        }
        lemma_selection_gives_new_files(history, front, offsets, base, selection);
        let decoded = decode_rows(front, offsets, base).unwrap();
        let list = decode_row(rows.last(), offsets, base + last).unwrap();
        assert(history + (decoded + list) =~= (history + decoded) + list);
        lemma_row_adds_its_file(history + decoded, rows.last(), offsets, base + last);
        assert(rows.take(last) =~= front);
        assert(rows[last] == rows.last());
        assert(selection[last] == selects(history, rows, offsets, base, last));
        let files = selected_files(front, selection, offsets).unwrap();
        match add_of(rows.last(), offsets) {
            Ok(Some(add)) => {
                if !mentions(history + decoded, add.path) {
                    assert((scan_files(history) + files).push(scan_file_of(add)) =~= scan_files(
                        history,
                    ) + files.push(scan_file_of(add)));
                }
            },
            _ => {},
        }
    }
}

} // verus!
