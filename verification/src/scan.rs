//! Reconciliation of replayed actions into the set of data files to scan.
//!
//! Actions arrive in replay order, the most recent first. For every path the
//! first file action seen decides: an add makes the file live with the
//! statistics, partition values and deletion vector of that add, a remove
//! excludes it, and whatever follows for the same path is ignored. Metadata,
//! protocol and per-application transactions follow the same rule.

use crate::actions::{
    actions_view, Action, ActionView, Add, AddView, DeletionVector, DeletionVectorView, Metadata,
    MetadataView, Protocol, ProtocolView, SetTransaction, SetTransactionView, vector_view,
};
use crate::stats::Stats;
use vstd::prelude::*;

verus! {

/// Reference to the deletion vector of a scan file, if it has one. The
/// vector itself is read when the file is.
#[derive(Debug, PartialEq, Eq)]
pub struct DvInfo {
    pub deletion_vector: Option<DeletionVector>,
}

impl View for DvInfo {
    type V = Option<DeletionVectorView>;

    open spec fn view(&self) -> Option<DeletionVectorView> {
        vector_view(self.deletion_vector)
    }
}

impl DvInfo {
    /// Whether rows of the file are marked as deleted.
    pub fn has_vector(&self) -> (has: bool)
        ensures
            has == (self@ is Some),
    {
        self.deletion_vector.is_some()
    }
}

/// One data file that a scan has to read.
#[derive(Debug, PartialEq, Eq)]
pub struct ScanFile {
    pub path: String,
    pub size: i64,
    pub stats: Option<Stats>,
    pub dv_info: DvInfo,
    pub partition_values: Vec<(String, String)>,
}

/// What a [`ScanFile`] holds, as mathematics.
pub struct ScanFileView {
    pub path: Seq<char>,
    pub size: i64,
    pub stats: Option<Stats>,
    pub dv_info: Option<DeletionVectorView>,
    pub partition_values: Seq<(Seq<char>, Seq<char>)>,
}

impl View for ScanFile {
    type V = ScanFileView;

    open spec fn view(&self) -> ScanFileView {
        ScanFileView {
            path: self.path@,
            size: self.size,
            stats: self.stats,
            dv_info: self.dv_info@,
            partition_values: self.partition_values.deep_view(),
        }
    }
}

/// The views of a sequence of scan files.
pub open spec fn scan_files_view(files: Seq<ScanFile>) -> Seq<ScanFileView> {
    Seq::new(files.len(), |i: int| files[i]@)
}

/// The scan file that an add action stands for: its path, size, partition
/// values and deletion vector, with the statistics of its payload.
pub open spec fn scan_file_of(add: AddView) -> ScanFileView {
    ScanFileView {
        path: add.path,
        size: add.size,
        stats: Stats::of_payload(add.stats),
        dv_info: add.deletion_vector,
        partition_values: add.partition_values,
    }
}

impl ScanFile {
    /// Turns a live add action into the file to scan.
    pub fn from_add(add: Add) -> (file: ScanFile)
        ensures
            file@ == scan_file_of(add@),
    {
        let stats = Stats::parse(&add.stats);
        ScanFile {
            path: add.path,
            size: add.size,
            stats,
            dv_info: DvInfo { deletion_vector: add.deletion_vector },
            partition_values: add.partition_values,
        }
    }
}

/// The path that a file action speaks of.
pub open spec fn file_path(action: ActionView) -> Option<Seq<char>> {
    match action {
        ActionView::Add(add, _) => Some(add.path),
        ActionView::Remove(remove, _) => Some(remove.path),
        _ => None,
    }
}

/// Whether some action of `actions` adds or removes `path`.
pub open spec fn mentions(actions: Seq<ActionView>, path: Seq<char>) -> bool {
    exists|i: int| 0 <= i < actions.len() && file_path(#[trigger] actions[i]) == Some(path)
}

/// The add that makes `path` live: the first file action for `path` in
/// replay order, where that is an add.
pub open spec fn live_add(actions: Seq<ActionView>, path: Seq<char>) -> Option<AddView>
    decreases actions.len(),
{
    if actions.len() == 0 {
        None
    } else if mentions(actions.drop_last(), path) {
        live_add(actions.drop_last(), path)
    } else {
        match actions.last() {
            ActionView::Add(add, _) => if add.path == path {
                Some(add)
            } else {
                None
            },
            _ => None,
        }
    }
}

/// The files to scan after `actions`, in the order in which their adds were
/// seen: one for every add that is the first file action for its path.
pub open spec fn scan_files(actions: Seq<ActionView>) -> Seq<ScanFileView>
    decreases actions.len(),
{
    if actions.len() == 0 {
        Seq::empty()
    } else {
        let front = scan_files(actions.drop_last());
        match actions.last() {
            ActionView::Add(add, _) => if mentions(actions.drop_last(), add.path) {
                front
            } else {
                front.push(scan_file_of(add))
            },
            _ => front,
        }
    }
}

/// The paths decided after `actions`, in the order in which they were first
/// seen.
pub open spec fn decided_paths(actions: Seq<ActionView>) -> Seq<Seq<char>>
    decreases actions.len(),
{
    if actions.len() == 0 {
        Seq::empty()
    } else {
        let front = decided_paths(actions.drop_last());
        match file_path(actions.last()) {
            Some(path) => if mentions(actions.drop_last(), path) {
                front
            } else {
                front.push(path)
            },
            None => front,
        }
    }
}

/// The table's metadata after `actions`: that of the first metadata action.
pub open spec fn first_metadata(actions: Seq<ActionView>) -> Option<MetadataView>
    decreases actions.len(),
{
    if actions.len() == 0 {
        None
    } else {
        match first_metadata(actions.drop_last()) {
            Some(m) => Some(m),
            None => match actions.last() {
                ActionView::Metadata(m, _) => Some(m),
                _ => None,
            },
        }
    }
}

/// The table's protocol after `actions`: that of the first protocol action.
pub open spec fn first_protocol(actions: Seq<ActionView>) -> Option<ProtocolView>
    decreases actions.len(),
{
    if actions.len() == 0 {
        None
    } else {
        match first_protocol(actions.drop_last()) {
            Some(p) => Some(p),
            None => match actions.last() {
                ActionView::Protocol(p, _) => Some(p),
                _ => None,
            },
        }
    }
}

/// Whether some transaction of `txns` belongs to `app_id`.
pub open spec fn has_app(txns: Seq<SetTransactionView>, app_id: Seq<char>) -> bool {
    exists|i: int| 0 <= i < txns.len() && (#[trigger] txns[i]).app_id == app_id
}

/// The transactions after `actions`: for every application the first one
/// seen, in the order in which the applications were first seen.
pub open spec fn first_transactions(actions: Seq<ActionView>) -> Seq<SetTransactionView>
    decreases actions.len(),
{
    if actions.len() == 0 {
        Seq::empty()
    } else {
        let front = first_transactions(actions.drop_last());
        match actions.last() {
            ActionView::SetTransaction(txn, _) => if has_app(front, txn.app_id) {
                front
            } else {
                front.push(txn)
            },
            _ => front,
        }
    }
}

/// Appending an action adds its path to what the list mentions.
pub proof fn lemma_mentions_push(actions: Seq<ActionView>, action: ActionView, path: Seq<char>)
    ensures
        mentions(actions.push(action), path) == (mentions(actions, path) || file_path(action)
            == Some(path)),
{
    let longer = actions.push(action);
    if mentions(actions, path) {
        let i = choose|i: int|
            0 <= i < actions.len() && file_path(#[trigger] actions[i]) == Some(path);
        assert(longer[i] == actions[i]);
    }
    if file_path(action) == Some(path) {
        assert(longer[actions.len() as int] == action);
    }
    if mentions(longer, path) {
        let i = choose|i: int|
            0 <= i < longer.len() && file_path(#[trigger] longer[i]) == Some(path);
        if i < actions.len() {
            assert(longer[i] == actions[i]);
        }
    }
}

/// The decided paths are the paths that the actions mention, each once.
pub proof fn lemma_decided_paths(actions: Seq<ActionView>, path: Seq<char>)
    ensures
        decided_paths(actions).contains(path) == mentions(actions, path),
        decided_paths(actions).no_duplicates(),
    decreases actions.len(),
{
    if actions.len() > 0 {
        let front = actions.drop_last();
        let last = actions.last();
        assert(actions =~= front.push(last));
        lemma_decided_paths(front, path);
        lemma_mentions_push(front, last, path);
        match file_path(last) {
            Some(p) => {
                lemma_decided_paths(front, p);
                if !mentions(front, p) {
                    let longer = decided_paths(front).push(p);
                    assert(longer[decided_paths(front).len() as int] == p);
                    if decided_paths(front).contains(path) {
                        let i = choose|i: int|
                            0 <= i < decided_paths(front).len() && decided_paths(front)[i] == path;
                        assert(longer[i] == path);
                    }
                }
            },
            None => {},
        }
    }
}

/// Whether `items` holds `wanted`.
fn holds_text(items: &Vec<String>, wanted: &String) -> (found: bool)
    ensures
        found == items.deep_view().contains(wanted@),
{
    let mut i: usize = 0;
    while i < items.len()
        invariant
            i <= items.len(),
            forall|j: int| 0 <= j < i ==> items.deep_view()[j] != wanted@,
        decreases items.len() - i,
    {
        if items[i] == *wanted {
            assert(items.deep_view()[i as int] == wanted@);
            return true;
        }
        i += 1;
    }
    false
}

/// Whether some transaction of `txns` belongs to the application `app_id`.
fn holds_app(txns: &Vec<SetTransaction>, app_id: &String) -> (found: bool)
    ensures
        found == has_app(transactions_view(txns@), app_id@),
{
    let mut i: usize = 0;
    while i < txns.len()
        invariant
            i <= txns.len(),
            forall|j: int| 0 <= j < i ==> transactions_view(txns@)[j].app_id != app_id@,
        decreases txns.len() - i,
    {
        if txns[i].app_id == *app_id {
            assert(transactions_view(txns@)[i as int].app_id == app_id@);
            return true;
        }
        i += 1;
    }
    false
}

/// The views of a sequence of transactions.
pub open spec fn transactions_view(txns: Seq<SetTransaction>) -> Seq<SetTransactionView> {
    Seq::new(txns.len(), |i: int| txns[i]@)
}

/// The view of an optional metadata action.
pub open spec fn metadata_view(metadata: Option<Metadata>) -> Option<MetadataView> {
    match metadata {
        Some(m) => Some(m@),
        None => None,
    }
}

/// The view of an optional protocol action.
pub open spec fn protocol_view(protocol: Option<Protocol>) -> Option<ProtocolView> {
    match protocol {
        Some(p) => Some(p@),
        None => None,
    }
}

/// The state of one reconciliation pass: which paths are decided, which
/// files are live, and the table-level actions that won.
pub struct Reconciler {
    seen: Vec<String>,
    files: Vec<ScanFile>,
    metadata: Option<Metadata>,
    protocol: Option<Protocol>,
    transactions: Vec<SetTransaction>,
    history: Ghost<Seq<ActionView>>,
}

impl Reconciler {
    /// The actions observed so far, in the order observed.
    pub closed spec fn history(&self) -> Seq<ActionView> {
        self.history@
    }

    /// Whether the state is the reconciliation of its history.
    pub closed spec fn wf(&self) -> bool {
        &&& self.seen.deep_view() == decided_paths(self.history@)
        &&& scan_files_view(self.files@) == scan_files(self.history@)
        &&& metadata_view(self.metadata) == first_metadata(self.history@)
        &&& protocol_view(self.protocol) == first_protocol(self.history@)
        &&& transactions_view(self.transactions@) == first_transactions(self.history@)
    }

    /// A pass that has observed nothing.
    pub fn new() -> (state: Reconciler)
        ensures
            state.wf(),
            state.history() == Seq::<ActionView>::empty(),
    {
        let state = Reconciler {
            seen: Vec::new(),
            files: Vec::new(),
            metadata: None,
            protocol: None,
            transactions: Vec::new(),
            history: Ghost(Seq::empty()),
        };
        assert(state.seen.deep_view() =~= Seq::empty());
        assert(scan_files_view(state.files@) =~= Seq::empty());
        assert(transactions_view(state.transactions@) =~= Seq::empty());
        state
    }

    /// Takes the next action of the replay into account.
    pub fn observe(&mut self, action: Action)
        requires
            old(self).wf(),
        ensures
            final(self).wf(),
            final(self).history() == old(self).history().push(action@),
    {
        let ghost before = self.history@;
        let ghost after = before.push(action@);
        proof {
            assert(after.drop_last() =~= before);
            assert(after.last() == action@);
        }
        match action {
            Action::Add(add, _) => {
                proof {
                    lemma_decided_paths(before, add.path@);
                }
                if !holds_text(&self.seen, &add.path) {
                    let ghost seen_before = self.seen.deep_view();
                    let ghost files_before = scan_files_view(self.files@);
                    self.seen.push(add.path.clone());
                    self.files.push(ScanFile::from_add(add));
                    assert(self.seen.deep_view() =~= seen_before.push(add.path@));
                    assert(scan_files_view(self.files@) =~= files_before.push(
                        scan_file_of(add@),
                    ));
                }
            },
            Action::Remove(remove, _) => {
                proof {
                    lemma_decided_paths(before, remove.path@);
                }
                if !holds_text(&self.seen, &remove.path) {
                    let ghost seen_before = self.seen.deep_view();
                    self.seen.push(remove.path);
                    assert(self.seen.deep_view() =~= seen_before.push(remove.path@));
                }
            },
            Action::Metadata(metadata, _) => {
                if self.metadata.is_none() {
                    self.metadata = Some(metadata);
                }
            },
            Action::Protocol(protocol, _) => {
                if self.protocol.is_none() {
                    self.protocol = Some(protocol);
                }
            },
            Action::SetTransaction(txn, _) => {
                if !holds_app(&self.transactions, &txn.app_id) {
                    let ghost txns_before = transactions_view(self.transactions@);
                    self.transactions.push(txn);
                    assert(transactions_view(self.transactions@) =~= txns_before.push(txn@));
                }
            },
        }
        self.history = Ghost(after);
    }

    /// The files to scan, in the order in which their adds were seen.
    pub fn files(&self) -> (files: &Vec<ScanFile>)
        requires
            self.wf(),
        ensures
            scan_files_view(files@) == scan_files(self.history()),
    {
        &self.files
    }

    /// Ends the pass and hands out the files to scan.
    pub fn into_files(self) -> (files: Vec<ScanFile>)
        requires
            self.wf(),
        ensures
            scan_files_view(files@) == scan_files(self.history()),
    {
        self.files
    }

    /// The table's metadata: that of the first metadata action observed.
    pub fn metadata(&self) -> (metadata: &Option<Metadata>)
        requires
            self.wf(),
        ensures
            metadata_view(*metadata) == first_metadata(self.history()),
    {
        &self.metadata
    }

    /// The table's protocol: that of the first protocol action observed.
    pub fn protocol(&self) -> (protocol: &Option<Protocol>)
        requires
            self.wf(),
        ensures
            protocol_view(*protocol) == first_protocol(self.history()),
    {
        &self.protocol
    }

    /// For every application the first transaction observed.
    pub fn transactions(&self) -> (txns: &Vec<SetTransaction>)
        requires
            self.wf(),
        ensures
            transactions_view(txns@) == first_transactions(self.history()),
    {
        &self.transactions
    }

    /// Ends the pass and hands out the table-level actions that won: the
    /// first metadata and the first protocol action observed.
    pub fn into_table_state(self) -> (state: (Option<Metadata>, Option<Protocol>))
        requires
            self.wf(),
        ensures
            metadata_view(state.0) == first_metadata(self.history()),
            protocol_view(state.1) == first_protocol(self.history()),
    {
        (self.metadata, self.protocol)
    }

    /// Whether the fate of `path` is settled: some action observed adds or
    /// removes it.
    pub fn is_decided(&self, path: &String) -> (decided: bool)
        requires
            self.wf(),
        ensures
            decided == mentions(self.history(), path@),
    {
        proof {
            lemma_decided_paths(self.history@, path@);
        }
        holds_text(&self.seen, path)
    }
}

/// Every file to scan is the live add of its path.
pub proof fn lemma_scan_files_are_live(actions: Seq<ActionView>, k: int)
    requires
        0 <= k < scan_files(actions).len(),
    ensures
        mentions(actions, scan_files(actions)[k].path),
        live_add(actions, scan_files(actions)[k].path) matches Some(add) && scan_file_of(add)
            == scan_files(actions)[k],
    decreases actions.len(),
{
    if actions.len() > 0 {
        let front = actions.drop_last();
        let last = actions.last();
        assert(actions =~= front.push(last));
        if k < scan_files(front).len() {
            lemma_scan_files_are_live(front, k);
            lemma_mentions_push(front, last, scan_files(front)[k].path);
        } else {
            lemma_mentions_push(front, last, scan_files(actions)[k].path);
        }
    }
}

/// Every live add is among the files to scan, with what the add carries.
pub proof fn lemma_live_add_is_scanned(actions: Seq<ActionView>, path: Seq<char>)
    requires
        live_add(actions, path) is Some,
    ensures
        scan_files(actions).contains(scan_file_of(live_add(actions, path).unwrap())),
    decreases actions.len(),
{
    if actions.len() > 0 {
        let front = actions.drop_last();
        let file = scan_file_of(live_add(actions, path).unwrap());
        if mentions(front, path) {
            lemma_live_add_is_scanned(front, path);
            let k = choose|k: int| 0 <= k < scan_files(front).len() && scan_files(front)[k] == file;
            assert(scan_files(actions)[k] == file);
        } else {
            assert(scan_files(actions)[scan_files(front).len() as int] == file);
        }
    }
}

/// No path is scanned twice.
pub proof fn lemma_scan_files_distinct(actions: Seq<ActionView>, i: int, j: int)
    requires
        0 <= i < j < scan_files(actions).len(),
    ensures
        scan_files(actions)[i].path != scan_files(actions)[j].path,
    decreases actions.len(),
{
    if actions.len() > 0 {
        let front = actions.drop_last();
        if j < scan_files(front).len() {
            lemma_scan_files_distinct(front, i, j);
        } else {
            lemma_scan_files_are_live(front, i);
        }
    }
}

/// The first file action for a path decides it: where no action in front of
/// position `i` speaks of the path of the file action at `i`, the path is
/// live exactly if that action is an add, and then with that add.
pub proof fn lemma_first_action_decides(actions: Seq<ActionView>, i: int)
    requires
        0 <= i < actions.len(),
        file_path(actions[i]) is Some,
        forall|j: int| 0 <= j < i ==> file_path(#[trigger] actions[j]) != file_path(actions[i]),
    ensures
        live_add(actions, file_path(actions[i]).unwrap()) == match actions[i] {
            ActionView::Add(add, _) => Some(add),
            _ => None::<AddView>,
        },
    decreases actions.len(),
{
    let path = file_path(actions[i]).unwrap();
    let front = actions.drop_last();
    if i == actions.len() - 1 {
        if mentions(front, path) {
            let j = choose|j: int|
                0 <= j < front.len() && file_path(#[trigger] front[j]) == Some(path);
            assert(front[j] == actions[j]);
        }
    } else {
        assert(front[i] == actions[i]);
        assert forall|j: int| 0 <= j < i implies file_path(#[trigger] front[j]) != file_path(
            front[i],
        ) by {
            assert(front[j] == actions[j]);
        }
        lemma_first_action_decides(front, i);
    }
}

/// A file removed by a more recent action is excluded: where the first file
/// action for a path is a remove, no file to scan has that path.
pub proof fn lemma_removed_path_is_excluded(actions: Seq<ActionView>, i: int, k: int)
    requires
        0 <= i < actions.len(),
        actions[i] is Remove,
        forall|j: int| 0 <= j < i ==> file_path(#[trigger] actions[j]) != file_path(actions[i]),
        0 <= k < scan_files(actions).len(),
    ensures
        scan_files(actions)[k].path != file_path(actions[i]).unwrap(),
{
    lemma_first_action_decides(actions, i);
    lemma_scan_files_are_live(actions, k);
}

/// A file added and not removed since is included as added: where the first
/// file action for a path is an add, the files to scan hold that add's file,
/// with its statistics, partition values and deletion vector.
pub proof fn lemma_added_path_is_included(actions: Seq<ActionView>, i: int)
    requires
        0 <= i < actions.len(),
        actions[i] is Add,
        forall|j: int| 0 <= j < i ==> file_path(#[trigger] actions[j]) != file_path(actions[i]),
    ensures
        scan_files(actions).contains(scan_file_of(actions[i]->Add_0)),
{
    lemma_first_action_decides(actions, i);
    lemma_live_add_is_scanned(actions, file_path(actions[i]).unwrap());
}

/// The set of files to scan depends on nothing but the decision for each
/// path: two replays that make every path live with the same add, or leave
/// it out alike, give the same set of files.
pub proof fn lemma_same_decisions_same_files(first: Seq<ActionView>, second: Seq<ActionView>)
    requires
        forall|path: Seq<char>| live_add(first, path) == live_add(second, path),
    ensures
        scan_files(first).to_set() == scan_files(second).to_set(),
{
    assert forall|file: ScanFileView| scan_files(first).contains(file) == scan_files(
        second,
    ).contains(file) by {
        if scan_files(first).contains(file) {
            let k = choose|k: int| 0 <= k < scan_files(first).len() && scan_files(first)[k] == file;
            lemma_scan_files_are_live(first, k);
            lemma_live_add_is_scanned(second, file.path);
        }
        if scan_files(second).contains(file) {
            let k = choose|k: int|
                0 <= k < scan_files(second).len() && scan_files(second)[k] == file;
            lemma_scan_files_are_live(second, k);
            lemma_live_add_is_scanned(first, file.path);
        }
    }
    assert(scan_files(first).to_set() =~= scan_files(second).to_set());
}

/// Reconciling a newer and an older part of a replay apart and joining the
/// decisions gives what reconciling the whole gives, as long as the newer
/// part wins wherever both decide: the decision for a path is that of the
/// newer part where it mentions the path, else that of the older part.
pub proof fn lemma_newer_decision_wins(
    newer: Seq<ActionView>,
    older: Seq<ActionView>,
    path: Seq<char>,
)
    ensures
        mentions(newer + older, path) == (mentions(newer, path) || mentions(older, path)),
        live_add(newer + older, path) == if mentions(newer, path) {
            live_add(newer, path)
        } else {
            live_add(older, path)
        },
    decreases older.len(),
{
    if older.len() == 0 {
        assert(newer + older =~= newer);
    } else {
        let front = older.drop_last();
        let last = older.last();
        assert(older =~= front.push(last));
        assert(newer + older =~= (newer + front).push(last));
        assert((newer + older).drop_last() =~= newer + front);
        lemma_newer_decision_wins(newer, front, path);
        lemma_mentions_push(newer + front, last, path);
        lemma_mentions_push(front, last, path);
    }
}

/// Reconciles a whole replay: the files to scan after `actions`, which are in
/// replay order, the most recent first.
pub fn reconcile(actions: Vec<Action>) -> (files: Vec<ScanFile>)
    ensures
        scan_files_view(files@) == scan_files(actions_view(actions@)),
{
    let mut state = Reconciler::new();
    let ghost all = actions_view(actions@);
    for action in iter: actions
        invariant
            state.wf(),
            iter.seq() == actions@,
            all == actions_view(actions@),
            state.history() == all.take(iter.index() as int),
    {
        let ghost k = iter.index() as int;
        proof {
            assert(all.take(k + 1) =~= all.take(k).push(action@));
        }
        state.observe(action);
    }
    proof {
        assert(all.take(actions@.len() as int) =~= all);
    }
    state.into_files()
}

} // verus!
