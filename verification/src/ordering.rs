//! Presentation order of decoded actions and of reconciled files.
//!
//! Ordering is layered above reconciliation: it arranges a finished list by
//! source row index, rising or falling, and keeps actions of one row in the
//! order in which they were decoded.

use crate::actions::{actions_view, Action, ActionView};
use crate::scan::{scan_files_view, ScanFile};
use vstd::prelude::*;

verus! {

/// Whether row `x` has to stand in front of row `y`.
pub open spec fn precedes(x: int, y: int, ascending: bool) -> bool {
    if ascending {
        x < y
    } else {
        x > y
    }
}

/// Tests whether row `x` has to stand in front of row `y`.
pub fn goes_before(x: usize, y: usize, ascending: bool) -> (before: bool)
    ensures
        before == precedes(x as int, y as int, ascending),
{
    if ascending {
        x < y
    } else {
        x > y
    }
}

/// Whether no action stands behind one that it has to precede.
pub open spec fn in_order(actions: Seq<ActionView>, ascending: bool) -> bool {
    forall|i: int, j: int|
        0 <= i < j < actions.len() ==> !precedes(
            (#[trigger] actions[j]).row(),
            (#[trigger] actions[i]).row(),
            ascending,
        )
}

/// The actions of row `row`, in the order in which they stand in `actions`.
pub open spec fn of_row(actions: Seq<ActionView>, row: int) -> Seq<ActionView>
    decreases actions.len(),
{
    if actions.len() == 0 {
        Seq::empty()
    } else {
        let front = of_row(actions.drop_last(), row);
        if actions.last().row() == row {
            front.push(actions.last())
        } else {
            front
        }
    }
}

/// The actions of a row in a joined list are those of the first part, then
/// those of the second.
pub proof fn lemma_of_row_concat(first: Seq<ActionView>, second: Seq<ActionView>, row: int)
    ensures
        of_row(first + second, row) == of_row(first, row) + of_row(second, row),
    decreases second.len(),
{
    if second.len() == 0 {
        assert(first + second =~= first);
        assert(of_row(first, row) + of_row(second, row) =~= of_row(first, row));
    } else {
        lemma_of_row_concat(first, second.drop_last(), row);
        assert((first + second).drop_last() =~= first + second.drop_last());
        assert((first + second).last() == second.last());
        if second.last().row() == row {
            assert((of_row(first, row) + of_row(second.drop_last(), row)).push(second.last())
                =~= of_row(first, row) + of_row(second.drop_last(), row).push(second.last()));
        }
    }
}

/// A list without an action of a row has nothing to show for that row.
pub proof fn lemma_of_row_absent(actions: Seq<ActionView>, row: int)
    requires
        forall|i: int| 0 <= i < actions.len() ==> (#[trigger] actions[i]).row() != row,
    ensures
        of_row(actions, row) == Seq::<ActionView>::empty(),
    decreases actions.len(),
{
    if actions.len() > 0 {
        assert forall|i: int| 0 <= i < actions.drop_last().len() implies (
        #[trigger] actions.drop_last()[i]).row() != row by {
            assert(actions[i].row() != row);
        }
        lemma_of_row_absent(actions.drop_last(), row);
        assert(actions.last() == actions[actions.len() - 1]);
    }
}

/// A list with an action of a row has something to show for that row.
pub proof fn lemma_of_row_present(actions: Seq<ActionView>, k: int)
    requires
        0 <= k < actions.len(),
    ensures
        of_row(actions, actions[k].row()).len() > 0,
    decreases actions.len(),
{
    if k < actions.len() - 1 {
        assert(actions.drop_last()[k] == actions[k]);
        lemma_of_row_present(actions.drop_last(), k);
    }
}

/// There is one stable sort only: two lists in the same order that hold,
/// for every row, the same actions of that row in the same order are the
/// same list.
pub proof fn lemma_stable_order_is_unique(
    first: Seq<ActionView>,
    second: Seq<ActionView>,
    ascending: bool,
)
    requires
        in_order(first, ascending),
        in_order(second, ascending),
        forall|row: int| of_row(first, row) == of_row(second, row),
    ensures
        first == second,
    decreases first.len(),
{
    if first.len() == 0 {
        if second.len() > 0 {
            lemma_of_row_present(second, 0);
            assert(of_row(first, second[0].row()) == of_row(second, second[0].row()));
        }
        assert(first =~= second);
    } else {
        let x = first.last();
        let r = x.row();
        lemma_of_row_present(first, first.len() - 1);
        assert(of_row(second, r) == of_row(first, r));
        if second.len() == 0 {
            assert(false);
        }
        let y = second.last();
        let q = y.row();
        lemma_of_row_present(second, second.len() - 1);
        assert(of_row(first, q) == of_row(second, q));
        if q != r {
            // Each list holds an action of the other's last row, which has to
            // stand in front of its own last action: the rows cannot differ.
            if forall|i: int| 0 <= i < first.len() ==> (#[trigger] first[i]).row() != q {
                lemma_of_row_absent(first, q);
            }
            let i = choose|i: int| 0 <= i < first.len() && (#[trigger] first[i]).row() == q;
            if forall|j: int| 0 <= j < second.len() ==> (#[trigger] second[j]).row() != r {
                lemma_of_row_absent(second, r);
            }
            let j = choose|j: int| 0 <= j < second.len() && (#[trigger] second[j]).row() == r;
            assert(!precedes(first[first.len() - 1].row(), first[i].row(), ascending));
            assert(!precedes(second[second.len() - 1].row(), second[j].row(), ascending));
            assert(false);
        }
        assert(of_row(first, r).last() == x);
        assert(of_row(second, r).last() == y);
        let shorter = first.drop_last();
        let other = second.drop_last();
        assert forall|i: int, j: int| 0 <= i < j < shorter.len() implies !precedes(
            (#[trigger] shorter[j]).row(),
            (#[trigger] shorter[i]).row(),
            ascending,
        ) by {
            assert(shorter[i] == first[i] && shorter[j] == first[j]);
        }
        assert forall|i: int, j: int| 0 <= i < j < other.len() implies !precedes(
            (#[trigger] other[j]).row(),
            (#[trigger] other[i]).row(),
            ascending,
        ) by {
            assert(other[i] == second[i] && other[j] == second[j]);
        }
        assert forall|row: int| of_row(shorter, row) == of_row(other, row) by {
            assert(of_row(first, row) == of_row(second, row));
            if row == r {
                assert(of_row(shorter, r) =~= of_row(first, r).drop_last());
                assert(of_row(other, r) =~= of_row(second, r).drop_last());
            }
        }
        lemma_stable_order_is_unique(shorter, other, ascending);
        assert(first =~= shorter.push(x));
        assert(second =~= other.push(y));
    }
}

/// Sorts actions by source row index, rising where `ascending` holds and
/// falling otherwise. The sort is stable: the result is in order, and for
/// every row it holds the actions of that row that the input holds, in the
/// input's order.
pub fn sort_actions(actions: Vec<Action>, ascending: bool) -> (sorted: Vec<Action>)
    ensures
        in_order(actions_view(sorted@), ascending),
        sorted@.len() == actions@.len(),
        forall|row: int|
            of_row(actions_view(sorted@), row) == of_row(actions_view(actions@), row),
{
    let ghost all = actions_view(actions@);
    let mut sorted: Vec<Action> = Vec::new();
    assert(actions_view(sorted@) =~= Seq::empty());
    assert(all.take(0) =~= Seq::empty());
    for action in iter: actions
        invariant
            iter.seq() == actions@,
            all == actions_view(actions@),
            sorted@.len() == iter.index(),
            in_order(actions_view(sorted@), ascending),
            forall|row: int|
                of_row(actions_view(sorted@), row) == of_row(all.take(iter.index() as int), row),
    {
        let ghost k = iter.index() as int;
        let ghost before = actions_view(sorted@);
        let row: usize = action.row();
        let mut at: usize = sorted.len();
        while at > 0 && goes_before(row, sorted[at - 1].row(), ascending)
            invariant
                at <= sorted@.len(),
                before == actions_view(sorted@),
                row == action@.row(),
                forall|j: int|
                    at <= j < before.len() ==> precedes(
                        row as int,
                        (#[trigger] before[j]).row(),
                        ascending,
                    ),
            decreases at,
        {
            at -= 1;
        }
        sorted.insert(at, action);
        proof {
            let after = actions_view(sorted@);
            let head = before.take(at as int);
            let tail = before.skip(at as int);
            assert(after =~= head.push(action@) + tail);
            assert(before =~= head + tail);
            assert(all.take(k + 1) =~= all.take(k) + seq![action@]);
            assert(at > 0 ==> !precedes(row as int, before[at - 1].row(), ascending));
            assert forall|i: int, j: int| 0 <= i < j < after.len() implies !precedes(
                (#[trigger] after[j]).row(),
                (#[trigger] after[i]).row(),
                ascending,
            ) by {
                if j < at {
                    assert(after[i] == before[i] && after[j] == before[j]);
                } else if j == at {
                    assert(after[i] == before[i]);
                    assert(!precedes(before[at - 1].row(), before[i].row(), ascending));
                } else if i < at {
                    assert(after[i] == before[i] && after[j] == before[j - 1]);
                } else if i == at {
                    assert(after[j] == before[j - 1]);
                } else {
                    assert(after[i] == before[i - 1] && after[j] == before[j - 1]);
                }
            }
            assert forall|r: int| of_row(after, r) == of_row(all.take(k + 1), r) by {
                lemma_of_row_concat(head.push(action@), tail, r);
                lemma_of_row_concat(head, seq![action@], r);
                assert(head.push(action@) =~= head + seq![action@]);
                lemma_of_row_concat(head, tail, r);
                lemma_of_row_concat(all.take(k), seq![action@], r);
                assert(seq![action@].drop_last() =~= Seq::<ActionView>::empty());
                assert(of_row(seq![action@].drop_last(), r) =~= Seq::<ActionView>::empty());
                if action@.row() == r {
                    assert forall|j: int| 0 <= j < tail.len() implies (#[trigger] tail[j]).row()
                        != r by {
                        assert(tail[j] == before[at + j]);
                    }
                    lemma_of_row_absent(tail, r);
                    assert(of_row(head, r) + of_row(seq![action@], r) + of_row(tail, r) =~= (
                    of_row(head, r) + of_row(tail, r)) + of_row(seq![action@], r));
                } else {
                    assert(of_row(seq![action@], r) =~= Seq::<ActionView>::empty());
                    assert(of_row(head, r) + of_row(seq![action@], r) + of_row(tail, r) =~= (
                    of_row(head, r) + of_row(tail, r)) + of_row(seq![action@], r));
                }
            }
        }
    }
    proof {
        assert(all.take(actions@.len() as int) =~= all);
    }
    sorted
}

/// Arranges reconciled files for presentation. Reconciliation hands its
/// files out in the order in which their adds were replayed, which is rising
/// row order: that order is kept where `ascending` holds and reversed
/// otherwise.
pub fn order_files(files: Vec<ScanFile>, ascending: bool) -> (ordered: Vec<ScanFile>)
    ensures
        scan_files_view(ordered@) == if ascending {
            scan_files_view(files@)
        } else {
            scan_files_view(files@).reverse()
        },
{
    if ascending {
        return files;
    }
    let ghost all = scan_files_view(files@);
    let mut rest = files;
    let mut ordered: Vec<ScanFile> = Vec::new();
    assert(scan_files_view(ordered@) =~= all.reverse().take(0));
    while rest.len() > 0
        invariant
            rest@.len() + ordered@.len() == all.len(),
            scan_files_view(rest@) == all.take(rest@.len() as int),
            scan_files_view(ordered@) == all.reverse().take(ordered@.len() as int),
        decreases rest@.len(),
    {
        let ghost views_before = scan_files_view(rest@);
        let ghost ordered_before = scan_files_view(ordered@);
        match rest.pop() {
            Some(file) => {
                proof {
                    assert(file@ == views_before[views_before.len() - 1]);
                    assert(scan_files_view(rest@) =~= all.take(rest@.len() as int));
                }
                ordered.push(file);
                proof {
                    assert(scan_files_view(ordered@) =~= ordered_before.push(file@));
                    assert(scan_files_view(ordered@) =~= all.reverse().take(ordered@.len() as int));
                }
            },
            None => {},
        }
    }
    assert(all.reverse().take(all.len() as int) =~= all.reverse());
    ordered
}

} // verus!
