//! Log segments and the order in which their files are replayed.
//!
//! A segment is an optional checkpoint followed by commit files. Reading the
//! files is left to the caller: the segment says in which order to read them,
//! and tags each with whether it is a commit, so that what is read can be
//! handed on in that order.

use vstd::prelude::*;

verus! {

/// One file of a log: the table version it was written at, and where it is.
#[derive(Debug, PartialEq, Eq)]
pub struct LogFile {
    pub version: u64,
    pub location: String,
}

/// What a [`LogFile`] holds, as mathematics.
pub struct LogFileView {
    pub version: u64,
    pub location: Seq<char>,
}

impl View for LogFile {
    type V = LogFileView;

    open spec fn view(&self) -> LogFileView {
        LogFileView { version: self.version, location: self.location@ }
    }
}

/// The views of a sequence of log files.
pub open spec fn log_files_view(files: Seq<LogFile>) -> Seq<LogFileView> {
    Seq::new(files.len(), |i: int| files[i]@)
}

/// The view of an optional log file.
pub open spec fn log_file_view(file: Option<LogFile>) -> Option<LogFileView> {
    match file {
        Some(f) => Some(f@),
        None => None,
    }
}

/// What a segment holds.
pub struct LogSegmentView {
    pub checkpoint: Option<LogFileView>,
    pub commits: Seq<LogFileView>,
}

/// Whether versions rise by one from each file to the next: from commit to
/// commit, and from the checkpoint, which comes first, to the first commit.
pub open spec fn contiguous(segment: LogSegmentView) -> bool {
    &&& forall|i: int|
        0 <= i < segment.commits.len() - 1 ==> (#[trigger] segment.commits[i]).version + 1
            == segment.commits[i + 1].version
    &&& (segment.checkpoint is Some && segment.commits.len() > 0)
        ==> segment.checkpoint.unwrap().version + 1 == segment.commits[0].version
}

/// The table version that a segment leads to: that of its last file, and
/// none for a segment without files.
pub open spec fn end_version_of(segment: LogSegmentView) -> Option<u64> {
    if segment.commits.len() > 0 {
        Some(segment.commits.last().version)
    } else if segment.checkpoint is Some {
        Some(segment.checkpoint.unwrap().version)
    } else {
        None
    }
}

/// One step of a replay: the file to read next.
#[derive(Debug, PartialEq, Eq)]
pub struct ReplayStep {
    pub version: u64,
    pub location: String,
    /// Whether the file is a commit; a checkpoint otherwise.
    pub is_from_commit: bool,
}

/// What a [`ReplayStep`] holds, as mathematics.
pub struct ReplayStepView {
    pub version: u64,
    pub location: Seq<char>,
    pub is_from_commit: bool,
}

impl View for ReplayStep {
    type V = ReplayStepView;

    open spec fn view(&self) -> ReplayStepView {
        ReplayStepView {
            version: self.version,
            location: self.location@,
            is_from_commit: self.is_from_commit,
        }
    }
}

/// The views of a sequence of replay steps.
pub open spec fn steps_view(steps: Seq<ReplayStep>) -> Seq<ReplayStepView> {
    Seq::new(steps.len(), |i: int| steps[i]@)
}

/// The step that reads `file`.
pub open spec fn step_for(file: LogFileView, is_from_commit: bool) -> ReplayStepView {
    ReplayStepView { version: file.version, location: file.location, is_from_commit }
}

/// The order of a replay. Backward, the commits come first, the most recent
/// first, and the checkpoint last; forward, the checkpoint comes first and
/// the commits follow, the oldest first.
pub open spec fn replay_plan(segment: LogSegmentView, backward: bool) -> Seq<ReplayStepView> {
    let commits = Seq::new(segment.commits.len(), |i: int| step_for(segment.commits[i], true));
    let checkpoint = match segment.checkpoint {
        Some(file) => seq![step_for(file, false)],
        None => Seq::empty(),
    };
    if backward {
        commits.reverse() + checkpoint
    } else {
        checkpoint + commits
    }
}

/// An ordered list of log files: a checkpoint, if any, then commits in
/// contiguous, strictly increasing version order.
#[derive(Debug, PartialEq, Eq)]
pub struct LogSegment {
    checkpoint: Option<LogFile>,
    commits: Vec<LogFile>,
}

impl View for LogSegment {
    type V = LogSegmentView;

    closed spec fn view(&self) -> LogSegmentView {
        LogSegmentView {
            checkpoint: log_file_view(self.checkpoint),
            commits: log_files_view(self.commits@),
        }
    }
}

impl LogSegment {
    #[verifier::type_invariant]
    spec fn well_formed(&self) -> bool {
        contiguous(self@)
    }

    /// The segment of the given files. `None` unless versions rise by one
    /// from each file to the next.
    pub fn try_new(checkpoint: Option<LogFile>, commits: Vec<LogFile>) -> (segment: Option<
        LogSegment,
    >)
        ensures
            match segment {
                Some(s) => {
                    &&& s@.checkpoint == log_file_view(checkpoint)
                    &&& s@.commits == log_files_view(commits@)
                    &&& contiguous(s@)
                },
                None => !contiguous(
                    LogSegmentView {
                        checkpoint: log_file_view(checkpoint),
                        commits: log_files_view(commits@),
                    },
                ),
            },
    {
        let ghost view = LogSegmentView {
            checkpoint: log_file_view(checkpoint),
            commits: log_files_view(commits@),
        };
        if commits.len() > 0 {
            if let Some(file) = &checkpoint {
                if file.version == u64::MAX || file.version + 1 != commits[0].version {
                    return None;
                }
            }
            let mut i: usize = 0;
            while i < commits.len() - 1
                invariant
                    commits.len() > 0,
                    i <= commits.len() - 1,
                    view == (LogSegmentView {
                        checkpoint: log_file_view(checkpoint),
                        commits: log_files_view(commits@),
                    }),
                    forall|j: int|
                        0 <= j < i ==> (#[trigger] view.commits[j]).version + 1 == view.commits[j
                            + 1].version,
                decreases commits.len() - i,
            {
                if commits[i].version == u64::MAX || commits[i].version + 1 != commits[i
                    + 1].version {
                    assert(view.commits[i as int].version + 1 != view.commits[i + 1].version);
                    assert(!contiguous(view));
                    return None;
                }
                i += 1;
            }
        }
        Some(LogSegment { checkpoint, commits })
    }

    /// The table version that the segment leads to: that of its last file.
    /// `None` for a segment without files.
    pub fn end_version(&self) -> (version: Option<u64>)
        ensures
            version == end_version_of(self@),
    {
        if self.commits.len() > 0 {
            Some(self.commits[self.commits.len() - 1].version)
        } else {
            match &self.checkpoint {
                Some(file) => Some(file.version),
                None => None,
            }
        }
    }

    /// The files of the segment in the order in which a replay reads them,
    /// each tagged with whether it is a commit.
    pub fn replay(&self, backward: bool) -> (steps: Vec<ReplayStep>)
        ensures
            steps_view(steps@) == replay_plan(self@, backward),
            contiguous(self@),
    {
        proof {
            use_type_invariant(self);
        }
        let mut steps: Vec<ReplayStep> = Vec::new();
        let count: usize = self.commits.len();
        if !backward {
            if let Some(file) = &self.checkpoint {
                steps.push(
                    ReplayStep {
                        version: file.version,
                        location: file.location.clone(),
                        is_from_commit: false,
                    },
                );
            }
        }
        let ghost head = steps_view(steps@);
        let ghost commits = Seq::new(
            self@.commits.len(),
            |i: int| step_for(self@.commits[i], true),
        );
        let ghost ordered = if backward {
            commits.reverse()
        } else {
            commits
        };
        let mut i: usize = 0;
        while i < count
            invariant
                i <= count,
                count == self.commits@.len(),
                count == self@.commits.len(),
                ordered.len() == count,
                commits.len() == count,
                forall|j: int| 0 <= j < count ==> commits[j] == step_for(self.commits@[j]@, true),
                ordered == if backward {
                    commits.reverse()
                } else {
                    commits
                },
                steps_view(steps@) == head + ordered.take(i as int),
            decreases count - i,
        {
            let at: usize = if backward {
                count - 1 - i
            } else {
                i
            };
            let file = &self.commits[at];
            let ghost before = steps_view(steps@);
            steps.push(
                ReplayStep {
                    version: file.version,
                    location: file.location.clone(),
                    is_from_commit: true,
                },
            );
            proof {
                assert(ordered[i as int] == commits[at as int]);
                assert(steps_view(steps@) =~= before.push(ordered[i as int]));
                assert(ordered.take(i + 1) =~= ordered.take(i as int).push(ordered[i as int]));
            }
            i += 1;
        }
        proof {
            assert(ordered.take(count as int) =~= ordered);
        }
        if backward {
            if let Some(file) = &self.checkpoint {
                let ghost before = steps_view(steps@);
                steps.push(
                    ReplayStep {
                        version: file.version,
                        location: file.location.clone(),
                        is_from_commit: false,
                    },
                );
                assert(steps_view(steps@) =~= before.push(step_for(file@, false)));
            }
        }
        assert(steps_view(steps@) =~= replay_plan(self@, backward));
        steps
    }
}

/// In a contiguous segment the version of a commit is that of any earlier
/// commit plus their distance.
pub proof fn lemma_commit_versions(segment: LogSegmentView, i: int, j: int)
    requires
        contiguous(segment),
        0 <= i <= j < segment.commits.len(),
    ensures
        segment.commits[j].version == segment.commits[i].version + (j - i),
    decreases j - i,
{
    if i < j {
        lemma_commit_versions(segment, i, j - 1);
        assert(segment.commits[j - 1].version + 1 == segment.commits[j].version);
    }
}

/// A backward replay goes back in time: versions strictly fall from step to
/// step, every commit is read before the checkpoint, and the most recent
/// commit is read first.
pub proof fn lemma_backward_plan_descends(segment: LogSegmentView)
    requires
        contiguous(segment),
    ensures
        forall|i: int, j: int|
            0 <= i < j < replay_plan(segment, true).len() ==> (#[trigger] replay_plan(
                segment,
                true,
            )[i]).version > (#[trigger] replay_plan(segment, true)[j]).version,
        forall|i: int|
            0 <= i < replay_plan(segment, true).len() ==> ((#[trigger] replay_plan(
                segment,
                true,
            )[i]).is_from_commit <==> i < segment.commits.len()),
        segment.commits.len() > 0 ==> replay_plan(segment, true)[0] == step_for(
            segment.commits.last(),
            true,
        ),
{
    let plan = replay_plan(segment, true);
    let count = segment.commits.len() as int;
    assert forall|i: int, j: int| 0 <= i < j < plan.len() implies (#[trigger] plan[i]).version > (
    #[trigger] plan[j]).version by {
        assert(plan[i] == step_for(segment.commits[count - 1 - i], true));
        if j < count {
            assert(plan[j] == step_for(segment.commits[count - 1 - j], true));
            lemma_commit_versions(segment, count - 1 - j, count - 1 - i);
        } else {
            assert(plan[j] == step_for(segment.checkpoint.unwrap(), false));
            lemma_commit_versions(segment, 0, count - 1 - i);
        }
    }
    assert forall|i: int| 0 <= i < plan.len() implies ((#[trigger] plan[i]).is_from_commit <==> i
        < count) by {
        if i < count {
            assert(plan[i] == step_for(segment.commits[count - 1 - i], true));
        } else {
            assert(plan[i] == step_for(segment.checkpoint.unwrap(), false));
        }
    }
}

/// A forward replay reads the same files as a backward replay, in the
/// opposite order.
pub proof fn lemma_forward_plan_is_reversed(segment: LogSegmentView)
    ensures
        replay_plan(segment, false) == replay_plan(segment, true).reverse(),
{
    assert(replay_plan(segment, false) =~= replay_plan(segment, true).reverse());
}

} // verus!
