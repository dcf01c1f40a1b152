//! Extraction of typed actions from batches of log rows.
//!
//! For every row the visitor tests the identifying column of each action kind
//! that the schema holds, in turn. A kind that the schema lacks has no
//! column and is never looked for. A row that identifies itself as several
//! kinds yields all of them, in the order add, remove, metadata, protocol,
//! transaction, under one row index: the visitor records what the row holds
//! and leaves it to the reader of its list to judge such a row.

use crate::actions::{
    actions_view, decode_add, decode_metadata, decode_protocol, decode_remove, decode_txn,
    decoded, visit_add, visit_metadata, visit_protocol, visit_remove, visit_txn, Action,
    ActionView, Add, AddView, Metadata, MetadataView, Protocol, ProtocolView, Remove, RemoveView,
    SetTransaction, SetTransactionView,
};
use crate::batch::{row_view, Batch, Cell, CellView};
use crate::error::Error;
use crate::schema::{ActionOffsets, StructType};
use vstd::prelude::*;

verus! {

/// The actions that a row encodes, each tagged with `index`: at most one of
/// each kind, in the order add, remove, metadata, protocol, transaction.
pub open spec fn row_actions(
    add: Option<AddView>,
    remove: Option<RemoveView>,
    metadata: Option<MetadataView>,
    protocol: Option<ProtocolView>,
    txn: Option<SetTransactionView>,
    index: int,
) -> Seq<ActionView> {
    let adds = match add {
        Some(a) => seq![ActionView::Add(a, index)],
        None => Seq::empty(),
    };
    let removes = match remove {
        Some(r) => seq![ActionView::Remove(r, index)],
        None => Seq::empty(),
    };
    let metadatas = match metadata {
        Some(m) => seq![ActionView::Metadata(m, index)],
        None => Seq::empty(),
    };
    let protocols = match protocol {
        Some(p) => seq![ActionView::Protocol(p, index)],
        None => Seq::empty(),
    };
    let txns = match txn {
        Some(t) => seq![ActionView::SetTransaction(t, index)],
        None => Seq::empty(),
    };
    adds + removes + metadatas + protocols + txns
}

/// The add action of a row, if the schema holds adds and the row holds one.
pub open spec fn add_of(row: Seq<CellView>, offsets: ActionOffsets) -> Result<
    Option<AddView>,
    Error,
> {
    if offsets.has_add {
        decode_add(row, offsets.add as int)
    } else {
        Ok(None)
    }
}

/// The remove action of a row, if the schema holds removes and the row
/// holds one.
pub open spec fn remove_of(row: Seq<CellView>, offsets: ActionOffsets) -> Result<
    Option<RemoveView>,
    Error,
> {
    if offsets.has_remove {
        decode_remove(row, offsets.remove as int)
    } else {
        Ok(None)
    }
}

/// The metadata action of a row, if the schema holds metadata and the row
/// holds one.
pub open spec fn metadata_of(row: Seq<CellView>, offsets: ActionOffsets) -> Result<
    Option<MetadataView>,
    Error,
> {
    if offsets.has_metadata {
        decode_metadata(row, offsets.metadata as int)
    } else {
        Ok(None)
    }
}

/// The protocol action of a row, if the schema holds protocols and the row
/// holds one.
pub open spec fn protocol_of(row: Seq<CellView>, offsets: ActionOffsets) -> Result<
    Option<ProtocolView>,
    Error,
> {
    if offsets.has_protocol {
        decode_protocol(row, offsets.protocol as int)
    } else {
        Ok(None)
    }
}

/// The transaction action of a row, if the schema holds transactions and
/// the row holds one.
pub open spec fn txn_of(row: Seq<CellView>, offsets: ActionOffsets) -> Result<
    Option<SetTransactionView>,
    Error,
> {
    if offsets.has_txn {
        decode_txn(row, offsets.txn as int)
    } else {
        Ok(None)
    }
}

/// What decoding one row gives: the actions of every kind that the schema
/// holds and whose identifying column holds a value, or the first failure
/// met when the kinds are decoded in the order add, remove, metadata,
/// protocol, transaction. A kind that the schema lacks is not looked for: it
/// yields no action and no failure.
pub open spec fn decode_row(row: Seq<CellView>, offsets: ActionOffsets, index: int) -> Result<
    Seq<ActionView>,
    Error,
> {
    match add_of(row, offsets) {
        Err(e) => Err(e),
        Ok(add) => match remove_of(row, offsets) {
            Err(e) => Err(e),
            Ok(remove) => match metadata_of(row, offsets) {
                Err(e) => Err(e),
                Ok(metadata) => match protocol_of(row, offsets) {
                    Err(e) => Err(e),
                    Ok(protocol) => match txn_of(row, offsets) {
                        Err(e) => Err(e),
                        Ok(txn) => Ok(row_actions(add, remove, metadata, protocol, txn, index)),
                    },
                },
            },
        },
    }
}

/// What decoding a run of rows gives, the first of which has row index
/// `base`: the actions of all rows in row order, or the failure of the first
/// row that fails.
pub open spec fn decode_rows(rows: Seq<Seq<CellView>>, offsets: ActionOffsets, base: int) -> Result<
    Seq<ActionView>,
    Error,
>
    decreases rows.len(),
{
    if rows.len() == 0 {
        Ok(Seq::empty())
    } else {
        match decode_rows(rows.drop_last(), offsets, base) {
            Err(e) => Err(e),
            Ok(front) => match decode_row(rows.last(), offsets, base + rows.len() - 1) {
                Err(e) => Err(e),
                Ok(back) => Ok(front + back),
            },
        }
    }
}

/// Decodes the add action of a row, if the schema holds adds.
pub fn find_add(row: &Vec<Cell>, offsets: &ActionOffsets) -> (found: Result<Option<Add>, Error>)
    ensures
        decoded(found) == add_of(row_view(row@), *offsets),
{
    if offsets.has_add {
        visit_add(row, offsets.add)
    } else {
        Ok(None)
    }
}

/// Decodes the remove action of a row, if the schema holds removes.
pub fn find_remove(row: &Vec<Cell>, offsets: &ActionOffsets) -> (found: Result<
    Option<Remove>,
    Error,
>)
    ensures
        decoded(found) == remove_of(row_view(row@), *offsets),
{
    if offsets.has_remove {
        visit_remove(row, offsets.remove)
    } else {
        Ok(None)
    }
}

/// Decodes the metadata action of a row, if the schema holds metadata.
pub fn find_metadata(row: &Vec<Cell>, offsets: &ActionOffsets) -> (found: Result<
    Option<Metadata>,
    Error,
>)
    ensures
        decoded(found) == metadata_of(row_view(row@), *offsets),
{
    if offsets.has_metadata {
        visit_metadata(row, offsets.metadata)
    } else {
        Ok(None)
    }
}

/// Decodes the protocol action of a row, if the schema holds protocols.
pub fn find_protocol(row: &Vec<Cell>, offsets: &ActionOffsets) -> (found: Result<
    Option<Protocol>,
    Error,
>)
    ensures
        decoded(found) == protocol_of(row_view(row@), *offsets),
{
    if offsets.has_protocol {
        visit_protocol(row, offsets.protocol)
    } else {
        Ok(None)
    }
}

/// Decodes the transaction action of a row, if the schema holds
/// transactions.
pub fn find_txn(row: &Vec<Cell>, offsets: &ActionOffsets) -> (found: Result<
    Option<SetTransaction>,
    Error,
>)
    ensures
        decoded(found) == txn_of(row_view(row@), *offsets),
{
    if offsets.has_txn {
        visit_txn(row, offsets.txn)
    } else {
        Ok(None)
    }
}

/// The view of an optional decoded value.
pub open spec fn found_view<T: View>(found: Option<T>) -> Option<T::V> {
    match found {
        Some(value) => Some(value@),
        None => None,
    }
}

/// Appends the actions of one row to `out`, in kind order, each under the
/// row's index.
fn push_actions(
    add: Option<Add>,
    remove: Option<Remove>,
    metadata: Option<Metadata>,
    protocol: Option<Protocol>,
    txn: Option<SetTransaction>,
    index: usize,
    out: &mut Vec<Action>,
)
    ensures
        actions_view(final(out)@) == actions_view(old(out)@) + row_actions(
            found_view(add),
            found_view(remove),
            found_view(metadata),
            found_view(protocol),
            found_view(txn),
            index as int,
        ),
{
    let ghost before = actions_view(out@);
    let ghost mut staged = Seq::<ActionView>::empty();
    if let Some(a) = add {
        proof {
            staged = staged.push(ActionView::Add(a@, index as int));
        }
        out.push(Action::Add(a, index));
    }
    assert(actions_view(out@) =~= before + staged);
    if let Some(r) = remove {
        proof {
            staged = staged.push(ActionView::Remove(r@, index as int));
        }
        out.push(Action::Remove(r, index));
    }
    assert(actions_view(out@) =~= before + staged);
    if let Some(m) = metadata {
        proof {
            staged = staged.push(ActionView::Metadata(m@, index as int));
        }
        out.push(Action::Metadata(m, index));
    }
    assert(actions_view(out@) =~= before + staged);
    if let Some(p) = protocol {
        proof {
            staged = staged.push(ActionView::Protocol(p@, index as int));
        }
        out.push(Action::Protocol(p, index));
    }
    assert(actions_view(out@) =~= before + staged);
    if let Some(t) = txn {
        proof {
            staged = staged.push(ActionView::SetTransaction(t@, index as int));
        }
        out.push(Action::SetTransaction(t, index));
    }
    assert(actions_view(out@) =~= before + staged);
    assert(staged =~= row_actions(
        found_view(add),
        found_view(remove),
        found_view(metadata),
        found_view(protocol),
        found_view(txn),
        index as int,
    ));
}

/// Decodes one row and appends its actions to `out`. A failure leaves `out`
/// as it was.
pub fn visit_row(
    row: &Vec<Cell>,
    offsets: &ActionOffsets,
    index: usize,
    out: &mut Vec<Action>,
) -> (done: Result<(), Error>)
    ensures
        match done {
            Ok(()) => {
                &&& decode_row(row_view(row@), *offsets, index as int) is Ok
                &&& actions_view(final(out)@) == actions_view(old(out)@) + decode_row(
                    row_view(row@),
                    *offsets,
                    index as int,
                ).unwrap()
            },
            Err(e) => {
                &&& decode_row(row_view(row@), *offsets, index as int) == Err::<
                    Seq<ActionView>,
                    _,
                >(e)
                &&& *final(out) == *old(out)
            },
        },
{
    let add = find_add(row, offsets)?;
    let remove = find_remove(row, offsets)?;
    let metadata = find_metadata(row, offsets)?;
    let protocol = find_protocol(row, offsets)?;
    let txn = find_txn(row, offsets)?;
    push_actions(add, remove, metadata, protocol, txn, index, out);
    Ok(())
}

/// Accumulates the actions of a replay, batch after batch.
#[derive(Debug, PartialEq, Eq)]
pub struct LogVisitor {
    /// The actions decoded so far, in row order.
    pub actions: Vec<Action>,
    /// Where each action kind begins in a row.
    pub offsets: ActionOffsets,
    /// Number of rows of all batches visited so far.
    pub previous_rows_seen: usize,
}

/// Whether the row indices of `actions` never decrease and all lie in
/// `low..high`.
pub open spec fn rows_ordered(actions: Seq<ActionView>, low: int, high: int) -> bool {
    &&& forall|i: int| 0 <= i < actions.len() ==> low <= (#[trigger] actions[i]).row() < high
    &&& forall|i: int, j: int|
        0 <= i <= j < actions.len() ==> (#[trigger] actions[i]).row() <= (
        #[trigger] actions[j]).row()
}

/// Whether the row indices of `actions` strictly increase.
pub open spec fn rows_increasing(actions: Seq<ActionView>) -> bool {
    forall|i: int, j: int|
        0 <= i < j < actions.len() ==> (#[trigger] actions[i]).row() < (
        #[trigger] actions[j]).row()
}

/// Whether every row of `rows` encodes at most one action.
pub open spec fn single_action_rows(rows: Seq<Seq<CellView>>, offsets: ActionOffsets) -> bool {
    forall|i: int|
        0 <= i < rows.len() ==> match decode_row(#[trigger] rows[i], offsets, 0) {
            Ok(found) => found.len() <= 1,
            Err(_) => true,
        }
}

impl LogVisitor {
    /// Whether the visitor's list is in row order and below its row count.
    pub open spec fn wf(&self) -> bool {
        rows_ordered(actions_view(self.actions@), 0, self.previous_rows_seen as int)
    }

    /// A visitor for rows of `schema` that has seen nothing yet. `None` where
    /// the schema has more leaf columns than a `usize` counts.
    pub fn new(schema: &StructType) -> (visitor: Option<LogVisitor>)
        ensures
            match visitor {
                Some(v) => {
                    &&& v.offsets.describes(schema@)
                    &&& v.actions@.len() == 0
                    &&& v.previous_rows_seen == 0
                    &&& v.wf()
                    &&& schema.leaf_count() <= usize::MAX
                },
                None => schema.leaf_count() > usize::MAX,
            },
    {
        match ActionOffsets::for_schema(schema) {
            Some(offsets) => Some(
                LogVisitor { actions: Vec::new(), offsets, previous_rows_seen: 0 },
            ),
            None => None,
        }
    }

    /// Decodes every row of `batch` and appends the actions found, each with
    /// the number of rows seen before its row as its row index. A failure on
    /// any row leaves the visitor as it was.
    pub fn visit(&mut self, batch: &Batch) -> (done: Result<(), Error>)
        requires
            old(self).previous_rows_seen + batch.rows.len() <= usize::MAX,
        ensures
            final(self).offsets == old(self).offsets,
            match done {
                Ok(()) => {
                    &&& decode_rows(
                        batch@,
                        old(self).offsets,
                        old(self).previous_rows_seen as int,
                    ) is Ok
                    &&& actions_view(final(self).actions@) == actions_view(old(self).actions@)
                        + decode_rows(
                        batch@,
                        old(self).offsets,
                        old(self).previous_rows_seen as int,
                    ).unwrap()
                    &&& final(self).previous_rows_seen == old(self).previous_rows_seen
                        + batch@.len()
                    &&& old(self).wf() ==> final(self).wf()
                    &&& (old(self).wf() && rows_increasing(actions_view(old(self).actions@))
                        && single_action_rows(batch@, old(self).offsets)) ==> rows_increasing(
                        actions_view(final(self).actions@),
                    )
                },
                Err(e) => {
                    &&& decode_rows(
                        batch@,
                        old(self).offsets,
                        old(self).previous_rows_seen as int,
                    ) == Err::<Seq<ActionView>, _>(e)
                    &&& *final(self) == *old(self)
                },
            },
    {
        let base: usize = self.previous_rows_seen;
        let count: usize = batch.rows.len();
        let mut found: Vec<Action> = Vec::new();
        let mut i: usize = 0;
        assert(actions_view(found@) =~= Seq::empty());
        while i < count
            invariant
                i <= count,
                *self == *old(self),
                base == self.previous_rows_seen,
                count == batch.rows@.len(),
                count == batch@.len(),
                base + count <= usize::MAX,
                decode_rows(batch@.take(i as int), self.offsets, base as int) == Ok::<_, Error>(
                    actions_view(found@),
                ),
            decreases count - i,
        {
            proof {
                assert(batch@.take(i + 1).drop_last() =~= batch@.take(i as int));
                assert(batch@.take(i + 1).last() == row_view(batch.rows@[i as int]@));
            }
            match visit_row(&batch.rows[i], &self.offsets, base + i, &mut found) {
                Ok(()) => {},
                Err(e) => {
                    proof {
                        assert(decode_rows(batch@.take(i + 1), self.offsets, base as int) == Err::<
                            Seq<ActionView>,
                            _,
                        >(e));
                        lemma_decode_rows_fails(batch@, self.offsets, base as int, i + 1);
                    }
                    return Err(e);
                },
            }
            i += 1;
        }
        proof {
            assert(batch@.take(i as int) =~= batch@);
            lemma_decode_rows_ordered(batch@, self.offsets, base as int);
        }
        let ghost before = actions_view(self.actions@);
        self.actions.append(&mut found);
        self.previous_rows_seen = base + count;
        proof {
            let added = decode_rows(batch@, self.offsets, base as int).unwrap();
            assert(actions_view(self.actions@) =~= before + added);
            if single_action_rows(batch@, self.offsets) {
                lemma_single_action_rows_increase(batch@, self.offsets, base as int);
            }
        }
        Ok(())
    }
}

/// A failure in a prefix of the rows is the failure of the whole run.
pub proof fn lemma_decode_rows_fails(
    rows: Seq<Seq<CellView>>,
    offsets: ActionOffsets,
    base: int,
    k: int,
)
    requires
        0 <= k <= rows.len(),
        decode_rows(rows.take(k), offsets, base) is Err,
    ensures
        decode_rows(rows, offsets, base) == decode_rows(rows.take(k), offsets, base),
    decreases rows.len(),
{
    if k == rows.len() {
        assert(rows.take(k) =~= rows);
    } else {
        assert(rows.drop_last().take(k) =~= rows.take(k));
        lemma_decode_rows_fails(rows.drop_last(), offsets, base, k);
    }
}

/// The actions of one row all carry the row's index.
pub proof fn lemma_decode_row_index(row: Seq<CellView>, offsets: ActionOffsets, index: int)
    requires
        decode_row(row, offsets, index) is Ok,
    ensures
        decode_row(row, offsets, index).unwrap().len() <= 5,
        forall|i: int|
            0 <= i < decode_row(row, offsets, index).unwrap().len() ==> (
            #[trigger] decode_row(row, offsets, index).unwrap()[i]).row() == index,
{
}

/// Row indices follow the rows: the actions decoded from a run of rows that
/// starts at row index `base` carry indices from `base` up to the end of the
/// run, and never decrease along the list.
pub proof fn lemma_decode_rows_ordered(rows: Seq<Seq<CellView>>, offsets: ActionOffsets, base: int)
    requires
        decode_rows(rows, offsets, base) is Ok,
    ensures
        rows_ordered(decode_rows(rows, offsets, base).unwrap(), base, base + rows.len()),
    decreases rows.len(),
{
    if rows.len() > 0 {
        lemma_decode_rows_ordered(rows.drop_last(), offsets, base);
        lemma_decode_row_index(rows.last(), offsets, base + rows.len() - 1);
    }
}

/// A kind that the schema lacks yields no action: every action of a row is
/// of a kind that the schema holds.
pub proof fn lemma_absent_kind_yields_nothing(
    row: Seq<CellView>,
    offsets: ActionOffsets,
    index: int,
    t: int,
)
    requires
        decode_row(row, offsets, index) is Ok,
        0 <= t < decode_row(row, offsets, index).unwrap().len(),
    ensures
        match decode_row(row, offsets, index).unwrap()[t] {
            ActionView::Add(_, _) => offsets.has_add,
            ActionView::Remove(_, _) => offsets.has_remove,
            ActionView::Metadata(_, _) => offsets.has_metadata,
            ActionView::Protocol(_, _) => offsets.has_protocol,
            ActionView::SetTransaction(_, _) => offsets.has_txn,
        },
{
    let add = add_of(row, offsets).unwrap();
    let remove = remove_of(row, offsets).unwrap();
    let metadata = metadata_of(row, offsets).unwrap();
    let protocol = protocol_of(row, offsets).unwrap();
    let txn = txn_of(row, offsets).unwrap();
    let n0: int = if add is Some { 1 } else { 0 };
    let n1: int = n0 + if remove is Some { 1int } else { 0int };
    let n2: int = n1 + if metadata is Some { 1int } else { 0int };
    let n3: int = n2 + if protocol is Some { 1int } else { 0int };
    let found = decode_row(row, offsets, index).unwrap();
    assert(found == row_actions(add, remove, metadata, protocol, txn, index));
    if t < n0 {
        assert(found[t] is Add);
    } else if t < n1 {
        assert(found[t] is Remove);
    } else if t < n2 {
        assert(found[t] is Metadata);
    } else if t < n3 {
        assert(found[t] is Protocol);
    } else {
        assert(found[t] is SetTransaction);
    }
}

/// How a run of rows is cut into batches does not matter: decoding two runs
/// one after the other, the second with its row indices continued from the
/// first, gives what decoding the joined run gives, failure included.
pub proof fn lemma_decode_rows_concat(
    front: Seq<Seq<CellView>>,
    back: Seq<Seq<CellView>>,
    offsets: ActionOffsets,
    base: int,
)
    ensures
        decode_rows(front + back, offsets, base) == match decode_rows(front, offsets, base) {
            Err(e) => Err(e),
            Ok(first) => match decode_rows(back, offsets, base + front.len()) {
                Err(e) => Err(e),
                Ok(second) => Ok(first + second),
            },
        },
    decreases back.len(),
{
    if back.len() == 0 {
        assert(front + back =~= front);
        match decode_rows(front, offsets, base) {
            Ok(first) => {
                assert(first + Seq::<ActionView>::empty() =~= first);
            },
            Err(_) => {},
        }
    } else {
        lemma_decode_rows_concat(front, back.drop_last(), offsets, base);
        assert((front + back).drop_last() =~= front + back.drop_last());
        assert((front + back).last() == back.last());
        match decode_rows(front, offsets, base) {
            Ok(first) => {
                match decode_rows(back.drop_last(), offsets, base + front.len()) {
                    Ok(middle) => {
                        let index = base + front.len() + back.len() - 1;
                        match decode_row(back.last(), offsets, index) {
                            Ok(last) => {
                                assert((first + middle) + last =~= first + (middle + last));
                            },
                            Err(_) => {},
                        }
                    },
                    Err(_) => {},
                }
            },
            Err(_) => {},
        }
    }
}

/// Where no row encodes more than one action, row indices strictly increase
/// along the decoded list.
pub proof fn lemma_single_action_rows_increase(
    rows: Seq<Seq<CellView>>,
    offsets: ActionOffsets,
    base: int,
)
    requires
        decode_rows(rows, offsets, base) is Ok,
        single_action_rows(rows, offsets),
    ensures
        rows_increasing(decode_rows(rows, offsets, base).unwrap()),
    decreases rows.len(),
{
    if rows.len() > 0 {
        let front = rows.drop_last();
        assert forall|i: int| 0 <= i < front.len() implies match decode_row(
            #[trigger] front[i],
            offsets,
            0,
        ) {
            Ok(found) => found.len() <= 1,
            Err(_) => true,
        } by {
            assert(front[i] == rows[i]);
        }
        lemma_single_action_rows_increase(front, offsets, base);
        lemma_decode_rows_ordered(front, offsets, base);
        let index = base + rows.len() - 1;
        lemma_decode_row_index(rows.last(), offsets, index);
        assert(rows.last() == rows[rows.len() - 1]);
        assert(decode_row(rows.last(), offsets, index).unwrap().len() == decode_row(
            rows.last(),
            offsets,
            0,
        ).unwrap().len());
    }
}

/// A row that identifies itself as several kinds loses none of them: each
/// kind that decodes to an action is in the row's list, under the row's
/// index.
pub proof fn lemma_row_keeps_every_kind(row: Seq<CellView>, offsets: ActionOffsets, index: int)
    requires
        decode_row(row, offsets, index) is Ok,
    ensures
        add_of(row, offsets) matches Ok(Some(a)) ==> decode_row(
            row,
            offsets,
            index,
        ).unwrap().contains(ActionView::Add(a, index)),
        remove_of(row, offsets) matches Ok(Some(r)) ==> decode_row(
            row,
            offsets,
            index,
        ).unwrap().contains(ActionView::Remove(r, index)),
        metadata_of(row, offsets) matches Ok(Some(m)) ==> decode_row(
            row,
            offsets,
            index,
        ).unwrap().contains(ActionView::Metadata(m, index)),
        protocol_of(row, offsets) matches Ok(Some(p)) ==> decode_row(
            row,
            offsets,
            index,
        ).unwrap().contains(ActionView::Protocol(p, index)),
        txn_of(row, offsets) matches Ok(Some(t)) ==> decode_row(
            row,
            offsets,
            index,
        ).unwrap().contains(ActionView::SetTransaction(t, index)),
        decode_row(row, offsets, index).unwrap() == row_actions(
            add_of(row, offsets).unwrap(),
            remove_of(row, offsets).unwrap(),
            metadata_of(row, offsets).unwrap(),
            protocol_of(row, offsets).unwrap(),
            txn_of(row, offsets).unwrap(),
            index,
        ),
{
    let found = decode_row(row, offsets, index).unwrap();
    let add = add_of(row, offsets).unwrap();
    let remove = remove_of(row, offsets).unwrap();
    let metadata = metadata_of(row, offsets).unwrap();
    let protocol = protocol_of(row, offsets).unwrap();
    let txn = txn_of(row, offsets).unwrap();
    assert(found == row_actions(add, remove, metadata, protocol, txn, index));
    let n0: int = if add is Some { 1 } else { 0 };
    let n1: int = n0 + if remove is Some { 1int } else { 0int };
    let n2: int = n1 + if metadata is Some { 1int } else { 0int };
    let n3: int = n2 + if protocol is Some { 1int } else { 0int };
    if let Some(a) = add {
        assert(found[0] == ActionView::Add(a, index));
    }
    if let Some(r) = remove {
        assert(found[n0] == ActionView::Remove(r, index));
    }
    if let Some(m) = metadata {
        assert(found[n1] == ActionView::Metadata(m, index));
    }
    if let Some(p) = protocol {
        assert(found[n2] == ActionView::Protocol(p, index));
    }
    if let Some(t) = txn {
        assert(found[n3] == ActionView::SetTransaction(t, index));
    }
}

} // verus!
