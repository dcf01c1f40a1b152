//! The replay of a log segment, file by file.
//!
//! The replayer decides which file is read next and tags what was read with
//! whether it came from a commit. Reading is the caller's part: it asks for
//! the pending file, reads it, and hands back what it got. A file that could
//! not be read ends the replay: nothing is pending after it, and no batch of
//! a later file is ever handed out. A replay runs once, from the first file
//! of its plan to the last.

use crate::batch::{batches_view, Batch, CellView};
use crate::error::Error;
use crate::log_segment::{replay_plan, steps_view, LogSegment, ReplayStep, ReplayStepView};
use vstd::prelude::*;

verus! {

/// What reading one log file gave.
#[derive(Debug, PartialEq, Eq)]
pub enum FileRead {
    /// The file could not be opened or read.
    Unreadable,
    /// The batches of the file, in file order.
    Batches(Vec<Batch>),
}

/// Where a replay stands.
pub struct ReplayerView {
    /// The files of the replay, in the order in which they are read.
    pub plan: Seq<ReplayStepView>,
    /// Number of files read.
    pub position: nat,
    /// Whether a file could not be read.
    pub failed: bool,
}

impl ReplayerView {
    /// The file to read next: the first unread file of the plan, unless the
    /// replay has failed.
    pub open spec fn pending(self) -> Option<ReplayStepView> {
        if !self.failed && self.position < self.plan.len() {
            Some(self.plan[self.position as int])
        } else {
            None
        }
    }
}

/// One replay of a log segment.
#[derive(Debug, PartialEq, Eq)]
pub struct Replayer {
    steps: Vec<ReplayStep>,
    position: usize,
    failed: bool,
}

impl View for Replayer {
    type V = ReplayerView;

    closed spec fn view(&self) -> ReplayerView {
        ReplayerView {
            plan: steps_view(self.steps@),
            position: self.position as nat,
            failed: self.failed,
        }
    }
}

/// The batches of one file, each paired with whether the file is a commit.
pub open spec fn tagged(batches: Seq<Seq<Seq<CellView>>>, is_from_commit: bool) -> Seq<
    (Seq<Seq<CellView>>, bool),
> {
    Seq::new(batches.len(), |i: int| (batches[i], is_from_commit))
}

/// The views of a sequence of tagged batches.
pub open spec fn tagged_view(batches: Seq<(Batch, bool)>) -> Seq<(Seq<Seq<CellView>>, bool)> {
    Seq::new(batches.len(), |i: int| (batches[i].0@, batches[i].1))
}

impl Replayer {
    /// A replay of `segment` that has read nothing yet: backward, from the
    /// most recent commit to the checkpoint, or forward.
    pub fn new(segment: &LogSegment, backward: bool) -> (replayer: Replayer)
        ensures
            replayer@.plan == replay_plan(segment@, backward),
            replayer@.position == 0,
            !replayer@.failed,
    {
        Replayer { steps: segment.replay(backward), position: 0, failed: false }
    }

    /// The file to read next. None once every file has been read, and none
    /// after a file that could not be read.
    pub fn pending(&self) -> (step: Option<&ReplayStep>)
        ensures
            match step {
                Some(s) => self@.pending() == Some(s@),
                None => self@.pending() is None,
            },
    {
        if !self.failed && self.position < self.steps.len() {
            Some(&self.steps[self.position])
        } else {
            None
        }
    }

    /// Takes what reading the pending file gave. Batches are handed on, each
    /// tagged with whether the file is a commit, and the next file becomes
    /// pending. An unreadable file is the failure of the replay.
    pub fn accept(&mut self, read: FileRead) -> (batches: Result<Vec<(Batch, bool)>, Error>)
        requires
            old(self)@.pending() is Some,
        ensures
            final(self)@.plan == old(self)@.plan,
            match read {
                FileRead::Batches(given) => {
                    &&& batches matches Ok(handed)
                    &&& tagged_view(handed@) == tagged(
                        batches_view(given@),
                        old(self)@.pending().unwrap().is_from_commit,
                    )
                    &&& final(self)@.position == old(self)@.position + 1
                    &&& !final(self)@.failed
                },
                FileRead::Unreadable => {
                    &&& batches == Err::<Vec<(Batch, bool)>, _>(Error::UnreadableLog)
                    &&& final(self)@.position == old(self)@.position
                    &&& final(self)@.failed
                    &&& final(self)@.pending() is None
                },
            },
    {
        match read {
            FileRead::Unreadable => {
                self.failed = true;
                Err(Error::UnreadableLog)
            },
            FileRead::Batches(given) => {
                let total: usize = self.steps.len();
                let is_from_commit = self.steps[self.position].is_from_commit;
                let ghost views = batches_view(given@);
                let mut handed: Vec<(Batch, bool)> = Vec::new();
                assert(tagged_view(handed@) =~= tagged(views.take(0), is_from_commit));
                for batch in all: given
                    invariant
                        *self == *old(self),
                        self.position < total,
                        all.seq() == given@,
                        views == batches_view(given@),
                        tagged_view(handed@) == tagged(
                            views.take(all.index() as int),
                            is_from_commit,
                        ),
                {
                    let ghost before = tagged_view(handed@);
                    handed.push((batch, is_from_commit));
                    assert(tagged_view(handed@) =~= before.push((batch@, is_from_commit)));
                    assert(tagged_view(handed@) =~= tagged(
                        views.take(all.index() + 1),
                        is_from_commit,
                    ));
                }
                assert(views.take(given@.len() as int) =~= views);
                self.position = self.position + 1;
                Ok(handed)
            },
        }
    }
}

} // verus!
