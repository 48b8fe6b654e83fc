//! The copy phase. From a grouping, `copy_files` prepares one task per
//! bucket: the bucket directory under the destination root and one planned
//! copy per `New` file. The run is then driven step by step: it names the
//! next filesystem action — probe a directory, create it, copy one file —
//! and the caller reports what happened. A directory that cannot be
//! created records one failure for the bucket and silently absorbs the
//! copies that would have landed there; a failed file copy records its
//! failure and the run continues with the next file, so no failure ever
//! aborts the rest of the run.

use vstd::prelude::*;
use vstd::string::StringExecFns;
use crate::classify::{FileGroup, Grouping, ProcessedFile};

verus! {

/// The error recorded for one failed step: the destination bucket path
/// the failure concerns, and the text of the underlying cause. A failed
/// file copy, like a failed directory creation, carries the bucket path.
#[derive(Debug, PartialEq)]
pub struct CopyError {
    pub path: String,
    pub cause: String,
}

/// The ghost shape of a `CopyError`.
#[verifier::ext_equal]
pub struct CopyFault {
    pub path: Seq<char>,
    pub cause: Seq<char>,
}

impl View for CopyError {
    type V = CopyFault;

    open spec fn view(&self) -> CopyFault {
        CopyFault { path: self.path@, cause: self.cause@ }
    }
}

impl Clone for CopyError {
    fn clone(&self) -> (r: Self)
        ensures
            r == *self,
    {
        CopyError { path: self.path.clone(), cause: self.cause.clone() }
    }
}

/// The ghost shape of one outcome.
pub open spec fn outcome_view(r: Result<u64, CopyError>) -> Result<u64, CopyFault> {
    match r {
        Ok(n) => Ok(n),
        Err(e) => Err(e@),
    }
}

/// A path under a parent: the parent, a separator, the child.
pub open spec fn joined(a: Seq<char>, b: Seq<char>) -> Seq<char> {
    a + "/"@ + b
}

/// Joins a child onto a parent path.
pub fn join_path(a: &str, b: &str) -> (r: String)
    ensures
        r@ == joined(a@, b@),
{
    let mut s = String::from_str(a);
    s.append("/");
    s.append(b);
    s
}

/// One planned file copy: source path and destination path.
pub struct PlannedCopy {
    pub from: String,
    pub to: String,
}

/// The ghost shape of a planned copy.
#[verifier::ext_equal]
pub struct CopyJob {
    pub from: Seq<char>,
    pub to: Seq<char>,
}

impl View for PlannedCopy {
    type V = CopyJob;

    open spec fn view(&self) -> CopyJob {
        CopyJob { from: self.from@, to: self.to@ }
    }
}

impl Clone for PlannedCopy {
    fn clone(&self) -> (r: Self)
        ensures
            r == *self,
    {
        PlannedCopy { from: self.from.clone(), to: self.to.clone() }
    }
}

/// The task for one bucket: its directory under the destination root, and
/// the planned copies of its `New` files.
pub struct BucketTask {
    pub dir_path: String,
    pub copies: Vec<PlannedCopy>,
}

/// The ghost shape of a bucket task.
#[verifier::ext_equal]
pub struct BucketJob {
    pub dir: Seq<char>,
    pub copies: Seq<CopyJob>,
}

impl View for BucketTask {
    type V = BucketJob;

    open spec fn view(&self) -> BucketJob {
        BucketJob { dir: self.dir_path@, copies: self.copies@.map_values(|c: PlannedCopy| c@) }
    }
}

/// The copies planned for one bucket: one per `New` file, in order, each
/// from the file's source path to the bucket directory joined with the
/// file's name. `Existing` files are never copied.
pub open spec fn planned_jobs(files: Seq<ProcessedFile>, dir: Seq<char>) -> Seq<CopyJob>
    decreases files.len(),
{
    if files.len() == 0 {
        Seq::empty()
    } else {
        let pre = planned_jobs(files.drop_last(), dir);
        match files.last() {
            ProcessedFile::New(f) => pre.push(CopyJob { from: f.path@, to: joined(dir, f.name@) }),
            ProcessedFile::Existing(_) => pre,
        }
    }
}

/// The bucket jobs of a grouping against a destination root, in grouping
/// order.
pub open spec fn planned_buckets(groups: Seq<FileGroup>, target: Seq<char>) -> Seq<BucketJob>
    decreases groups.len(),
{
    if groups.len() == 0 {
        Seq::empty()
    } else {
        planned_buckets(groups.drop_last(), target).push(
            BucketJob {
                dir: joined(target, groups.last().subdir@),
                copies: planned_jobs(groups.last().files@, joined(target, groups.last().subdir@)),
            },
        )
    }
}

/// Where a run stands within the current bucket.
#[derive(Clone, Copy, PartialEq, Eq, Structural, Debug)]
pub enum RunPhase {
    CheckDir,
    MakeDir,
    CopyFiles,
}

/// The next filesystem action a run asks its caller to perform.
pub enum CopyAction {
    CheckDir { path: String },
    MakeDir { path: String },
    CopyFile { from: String, to: String },
    Done,
}

/// The ghost shape of an action.
#[verifier::ext_equal]
pub enum RunAction {
    CheckDir { path: Seq<char> },
    MakeDir { path: Seq<char> },
    CopyFile { from: Seq<char>, to: Seq<char> },
    Done,
}

impl View for CopyAction {
    type V = RunAction;

    open spec fn view(&self) -> RunAction {
        match self {
            CopyAction::CheckDir { path } => RunAction::CheckDir { path: path@ },
            CopyAction::MakeDir { path } => RunAction::MakeDir { path: path@ },
            CopyAction::CopyFile { from, to } => RunAction::CopyFile { from: from@, to: to@ },
            CopyAction::Done => RunAction::Done,
        }
    }
}

/// What the caller reports back after performing an action.
pub enum CopyEvent {
    DirChecked { is_dir: bool },
    DirCreated,
    DirCreateFailed { cause: String },
    FileCopied { bytes: u64 },
    FileCopyFailed { cause: String },
}

/// The ghost shape of an event.
#[verifier::ext_equal]
pub enum RunEvent {
    DirChecked { is_dir: bool },
    DirCreated,
    DirCreateFailed { cause: Seq<char> },
    FileCopied { bytes: u64 },
    FileCopyFailed { cause: Seq<char> },
}

impl View for CopyEvent {
    type V = RunEvent;

    open spec fn view(&self) -> RunEvent {
        match self {
            CopyEvent::DirChecked { is_dir } => RunEvent::DirChecked { is_dir: *is_dir },
            CopyEvent::DirCreated => RunEvent::DirCreated,
            CopyEvent::DirCreateFailed { cause } => RunEvent::DirCreateFailed { cause: cause@ },
            CopyEvent::FileCopied { bytes } => RunEvent::FileCopied { bytes: *bytes },
            CopyEvent::FileCopyFailed { cause } => RunEvent::FileCopyFailed { cause: cause@ },
        }
    }
}

/// The ghost state of a copy run.
#[verifier::ext_equal]
pub struct RunModel {
    pub buckets: Seq<BucketJob>,
    pub bucket: int,
    pub file: int,
    pub phase: RunPhase,
    pub results: Seq<Result<u64, CopyFault>>,
}

impl RunModel {
    /// The run has visited every bucket.
    pub open spec fn done(self) -> bool {
        self.bucket == self.buckets.len()
    }

    pub open spec fn wf(self) -> bool {
        &&& 0 <= self.bucket <= self.buckets.len()
        &&& (self.phase is CopyFiles ==> self.bucket < self.buckets.len() && 0 <= self.file
            < self.buckets[self.bucket].copies.len())
        &&& (self.phase is MakeDir ==> self.bucket < self.buckets.len())
        &&& (self.done() ==> self.phase is CheckDir)
    }

    /// The action the run asks for in its current state.
    pub open spec fn next_action(self) -> RunAction {
        if self.done() {
            RunAction::Done
        } else {
            match self.phase {
                RunPhase::CheckDir => RunAction::CheckDir { path: self.buckets[self.bucket].dir },
                RunPhase::MakeDir => RunAction::MakeDir { path: self.buckets[self.bucket].dir },
                RunPhase::CopyFiles => RunAction::CopyFile {
                    from: self.buckets[self.bucket].copies[self.file].from,
                    to: self.buckets[self.bucket].copies[self.file].to,
                },
            }
        }
    }

    /// Whether an event answers the action the run asked for.
    pub open spec fn accepts(self, ev: RunEvent) -> bool {
        !self.done() && match self.phase {
            RunPhase::CheckDir => ev is DirChecked,
            RunPhase::MakeDir => ev is DirCreated || ev is DirCreateFailed,
            RunPhase::CopyFiles => ev is FileCopied || ev is FileCopyFailed,
        }
    }

    /// The state that begins copying the current bucket's files, skipping
    /// straight to the next bucket when there are none.
    pub open spec fn enter_copies(self) -> RunModel {
        if self.buckets[self.bucket].copies.len() == 0 {
            RunModel { bucket: self.bucket + 1, file: 0, phase: RunPhase::CheckDir, ..self }
        } else {
            RunModel { file: 0, phase: RunPhase::CopyFiles, ..self }
        }
    }

    /// The state after one file copy was attempted: the outcome is
    /// recorded and the run moves to the next file, or to the next bucket
    /// when the current one is finished.
    pub open spec fn advance_file(self, outcome: Result<u64, CopyFault>) -> RunModel {
        let results = self.results.push(outcome);
        if self.file + 1 == self.buckets[self.bucket].copies.len() {
            RunModel { bucket: self.bucket + 1, file: 0, phase: RunPhase::CheckDir, results, ..self }
        } else {
            RunModel { file: self.file + 1, results, ..self }
        }
    }

    /// One step of the run. A directory found present, or created, leads
    /// to the bucket's copies; a directory that could not be created
    /// records one failure carrying the bucket path and skips every copy
    /// of that bucket; a file event records its outcome and the run moves
    /// on either way.
    pub open spec fn step(self, ev: RunEvent) -> RunModel {
        match ev {
            RunEvent::DirChecked { is_dir } => if is_dir {
                self.enter_copies()
            } else {
                RunModel { phase: RunPhase::MakeDir, ..self }
            },
            RunEvent::DirCreated => self.enter_copies(),
            RunEvent::DirCreateFailed { cause } => RunModel {
                bucket: self.bucket + 1,
                phase: RunPhase::CheckDir,
                results: self.results.push(
                    Err(CopyFault { path: self.buckets[self.bucket].dir, cause }),
                ),
                ..self
            },
            RunEvent::FileCopied { bytes } => self.advance_file(Ok(bytes)),
            RunEvent::FileCopyFailed { cause } => self.advance_file(
                Err(CopyFault { path: self.buckets[self.bucket].dir, cause }),
            ),
        }
    }
}

/// A step on an accepted event keeps the run well formed and never touches
/// the plan itself.
pub proof fn lemma_step_wf(s: RunModel, ev: RunEvent)
    requires
        s.wf(),
        s.accepts(ev),
    ensures
        s.step(ev).wf(),
        s.step(ev).buckets == s.buckets,
        s.step(ev).results.len() >= s.results.len(),
{
}

/// A failed file copy advances the run exactly as a successful one does:
/// the same position and the same next action follow either event, and
/// only the recorded outcome differs. An earlier copy failure therefore
/// never prevents a later file, in this bucket or any other, from being
/// attempted.
pub proof fn lemma_copy_failure_does_not_block(s: RunModel, bytes: u64, cause: Seq<char>)
    requires
        s.wf(),
        s.phase is CopyFiles,
    ensures
        ({
            let copied = s.step(RunEvent::FileCopied { bytes });
            let failed = s.step(RunEvent::FileCopyFailed { cause });
            &&& copied.bucket == failed.bucket
            &&& copied.file == failed.file
            &&& copied.phase == failed.phase
            &&& copied.buckets == failed.buckets
            &&& copied.next_action() == failed.next_action()
            &&& copied.results.len() == failed.results.len()
            &&& copied.results.drop_last() =~= failed.results.drop_last()
        }),
{
}

/// The run after a whole sequence of events.
pub open spec fn run_steps(s: RunModel, evs: Seq<RunEvent>) -> RunModel
    decreases evs.len(),
{
    if evs.len() == 0 {
        s
    } else {
        run_steps(s.step(evs.first()), evs.drop_first())
    }
}

/// Whether each event of the sequence answers the action pending when it
/// arrives.
pub open spec fn accepts_all(s: RunModel, evs: Seq<RunEvent>) -> bool
    decreases evs.len(),
{
    evs.len() == 0 || (s.accepts(evs.first()) && accepts_all(s.step(evs.first()), evs.drop_first()))
}

/// When no bucket has a copy to make — every file of every bucket was
/// classified `Existing` — a run never asks for a file copy, at its start
/// or after any sequence of events it accepts: executing such a plan
/// copies zero files.
pub proof fn lemma_no_new_files_no_copies(s: RunModel, evs: Seq<RunEvent>)
    requires
        s.wf(),
        accepts_all(s, evs),
        forall|j: int| 0 <= j < s.buckets.len() ==> (#[trigger] s.buckets[j]).copies.len() == 0,
    ensures
        !(s.next_action() is CopyFile),
        run_steps(s, evs).wf(),
        !(run_steps(s, evs).next_action() is CopyFile),
    decreases evs.len(),
{
    if evs.len() > 0 {
        lemma_step_wf(s, evs.first());
        lemma_no_new_files_no_copies(s.step(evs.first()), evs.drop_first());
    }
}

/// A bucket plans exactly as many copies as its plan row shows `New`
/// files: what the displayed plan promises is what a run attempts.
pub proof fn lemma_planned_jobs_match_count(files: Seq<ProcessedFile>, dir: Seq<char>)
    ensures
        planned_jobs(files, dir).len() == crate::plan::count_new(files),
    decreases files.len(),
{
    if files.len() > 0 {
        lemma_planned_jobs_match_count(files.drop_last(), dir);
    }
}

/// A plan whose grand total of `New` files is zero plans no copy in any
/// bucket: executing it, at any point of the run, copies nothing.
pub proof fn lemma_zero_new_plans_no_copies(groups: Seq<FileGroup>, target: Seq<char>)
    requires
        crate::plan::total_new(groups) == 0,
    ensures
        forall|j: int|
            0 <= j < planned_buckets(groups, target).len() ==> (#[trigger] planned_buckets(
                groups,
                target,
            )[j]).copies.len() == 0,
    decreases groups.len(),
{
    if groups.len() > 0 {
        crate::plan::lemma_total_new_bounds(groups.drop_last());
        crate::plan::lemma_count_new_bounds(groups.last().files@);
        lemma_zero_new_plans_no_copies(groups.drop_last(), target);
        lemma_planned_jobs_match_count(
            groups.last().files@,
            joined(target, groups.last().subdir@),
        );
        let all = planned_buckets(groups, target);
        let pre = planned_buckets(groups.drop_last(), target);
        assert forall|j: int| 0 <= j < all.len() implies (#[trigger] all[j]).copies.len() == 0 by {
            if j < all.len() - 1 {
                assert(all[j] == pre[j]);
            }
        }
    }
}

/// No copies are planned for a bucket whose files are all `Existing`.
pub proof fn lemma_all_existing_empty_jobs(files: Seq<ProcessedFile>, dir: Seq<char>)
    requires
        forall|i: int| 0 <= i < files.len() ==> (#[trigger] files[i]) is Existing,
    ensures
        planned_jobs(files, dir).len() == 0,
    decreases files.len(),
{
    if files.len() > 0 {
        lemma_all_existing_empty_jobs(files.drop_last(), dir);
    }
}

/// A grouping whose files are all `Existing` plans no copy in any bucket.
pub proof fn lemma_all_existing_empty_buckets(groups: Seq<FileGroup>, target: Seq<char>)
    requires
        forall|j: int, i: int|
            0 <= j < groups.len() && 0 <= i < (#[trigger] groups[j]).files@.len()
                ==> (#[trigger] groups[j].files@[i]) is Existing,
    ensures
        planned_buckets(groups, target).len() == groups.len(),
        forall|j: int|
            0 <= j < groups.len() ==> (#[trigger] planned_buckets(groups, target)[j]).copies.len()
                == 0,
    decreases groups.len(),
{
    if groups.len() > 0 {
        lemma_all_existing_empty_buckets(groups.drop_last(), target);
        lemma_all_existing_empty_jobs(
            groups.last().files@,
            joined(target, groups.last().subdir@),
        );
        let all = planned_buckets(groups, target);
        let pre = planned_buckets(groups.drop_last(), target);
        assert forall|j: int| 0 <= j < groups.len() implies (#[trigger] all[j]).copies.len()
            == 0 by {
            if j < groups.len() - 1 {
                assert(all[j] == pre[j]);
                assert(groups.drop_last()[j] == groups[j]);
            }
        }
    }
}

/// The copy run: the prepared tasks and the position the run stands at.
pub struct CopyRun {
    tasks: Vec<BucketTask>,
    bucket: usize,
    file: usize,
    phase: RunPhase,
    results: Vec<Result<u64, CopyError>>,
}

impl View for CopyRun {
    type V = RunModel;

    closed spec fn view(&self) -> RunModel {
        RunModel {
            buckets: self.tasks@.map_values(|t: BucketTask| t@),
            bucket: self.bucket as int,
            file: self.file as int,
            phase: self.phase,
            results: self.results@.map_values(|r: Result<u64, CopyError>| outcome_view(r)),
        }
    }
}

impl CopyRun {
    /// Whether every bucket has been visited.
    pub fn done(&self) -> (r: bool)
        ensures
            r == self@.done(),
    {
        self.bucket == self.tasks.len()
    }

    /// The next filesystem action to perform.
    pub fn next_action(&self) -> (r: CopyAction)
        requires
            self@.wf(),
        ensures
            r@ == self@.next_action(),
    {
        if self.bucket == self.tasks.len() {
            CopyAction::Done
        } else {
            match self.phase {
                RunPhase::CheckDir => CopyAction::CheckDir {
                    path: self.tasks[self.bucket].dir_path.clone(),
                },
                RunPhase::MakeDir => CopyAction::MakeDir {
                    path: self.tasks[self.bucket].dir_path.clone(),
                },
                RunPhase::CopyFiles => CopyAction::CopyFile {
                    from: self.tasks[self.bucket].copies[self.file].from.clone(),
                    to: self.tasks[self.bucket].copies[self.file].to.clone(),
                },
            }
        }
    }

    /// Advances the run by the reported outcome of the pending action.
    pub fn step(&mut self, ev: CopyEvent)
        requires
            old(self)@.wf(),
            old(self)@.accepts(ev@),
        ensures
            final(self)@ == old(self)@.step(ev@),
            final(self)@.wf(),
    {
        proof {
            lemma_step_wf(old(self)@, ev@);
        }
        let ghost pre = self@;
        match ev {
            CopyEvent::DirChecked { is_dir } => {
                if is_dir {
                    self.enter_copies();
                } else {
                    self.phase = RunPhase::MakeDir;
                }
            },
            CopyEvent::DirCreated => {
                self.enter_copies();
            },
            CopyEvent::DirCreateFailed { cause } => {
                proof {
                    assert(self.tasks.len() == self.tasks@.len());
                    assert(self.bucket < self.tasks@.len());
                }
                let path = self.tasks[self.bucket].dir_path.clone();
                self.results.push(Err(CopyError { path, cause }));
                self.bucket = self.bucket + 1;
                self.phase = RunPhase::CheckDir;
                proof {
                    assert(self@.results =~= pre.results.push(
                        Err(CopyFault { path: pre.buckets[pre.bucket].dir, cause: ev@->DirCreateFailed_cause }),
                    ));
                }
            },
            CopyEvent::FileCopied { bytes } => {
                self.results.push(Ok(bytes));
                proof {
                    assert(self@.results =~= pre.results.push(Ok(bytes)));
                }
                self.advance_file();
            },
            CopyEvent::FileCopyFailed { cause } => {
                let path = self.tasks[self.bucket].dir_path.clone();
                self.results.push(Err(CopyError { path, cause }));
                proof {
                    assert(self@.results =~= pre.results.push(
                        Err(CopyFault { path: pre.buckets[pre.bucket].dir, cause: ev@->FileCopyFailed_cause }),
                    ));
                }
                self.advance_file();
            },
        }
        proof {
            assert(final(self)@ =~= pre.step(ev@));
        }
    }

    fn enter_copies(&mut self)
        requires
            old(self)@.wf(),
            !old(self)@.done(),
        ensures
            final(self)@ == old(self)@.enter_copies(),
            final(self).results == old(self).results,
    {
        proof {
            assert(self.tasks.len() == self.tasks@.len());
            assert(self.bucket < self.tasks@.len());
            assert(self@.buckets[self.bucket as int] == self.tasks@[self.bucket as int]@);
        }
        if self.tasks[self.bucket].copies.len() == 0 {
            self.bucket = self.bucket + 1;
            self.file = 0;
            self.phase = RunPhase::CheckDir;
        } else {
            self.file = 0;
            self.phase = RunPhase::CopyFiles;
        }
        proof {
            assert(final(self)@ =~= old(self)@.enter_copies());
        }
    }

    fn advance_file(&mut self)
        requires
            old(self)@.phase is CopyFiles,
            old(self)@.bucket < old(self)@.buckets.len(),
            0 <= old(self)@.file < old(self)@.buckets[old(self)@.bucket].copies.len(),
        ensures
            ({
                let prev = old(self)@;
                if prev.file + 1 == prev.buckets[prev.bucket].copies.len() {
                    final(self)@ == RunModel {
                        bucket: prev.bucket + 1,
                        file: 0,
                        phase: RunPhase::CheckDir,
                        ..prev
                    }
                } else {
                    final(self)@ == RunModel { file: prev.file + 1, ..prev }
                }
            }),
    {
        proof {
            assert(self.tasks.len() == self.tasks@.len());
            assert(self.bucket < self.tasks@.len());
            assert(self@.buckets[self.bucket as int] == self.tasks@[self.bucket as int]@);
            assert(self.tasks@[self.bucket as int].copies.len() == self.tasks@[self.bucket as int].copies@.len());
            assert(self.file < self.tasks@[self.bucket as int].copies@.len());
        }
        if self.file + 1 == self.tasks[self.bucket].copies.len() {
            self.bucket = self.bucket + 1;
            self.file = 0;
            self.phase = RunPhase::CheckDir;
        } else {
            self.file = self.file + 1;
        }
        proof {
            let prev = old(self)@;
            if prev.file + 1 == prev.buckets[prev.bucket].copies.len() {
                assert(final(self)@ =~= RunModel {
                    bucket: prev.bucket + 1,
                    file: 0,
                    phase: RunPhase::CheckDir,
                    ..prev
                });
            } else {
                assert(final(self)@ =~= RunModel { file: prev.file + 1, ..prev });
            }
        }
    }

    /// The outcomes recorded so far, one per attempted file copy plus one
    /// per directory that could not be created, in run order.
    pub fn into_results(self) -> (r: Vec<Result<u64, CopyError>>)
        ensures
            r@.map_values(|x: Result<u64, CopyError>| outcome_view(x)) == self@.results,
    {
        self.results
    }
}

/// Prepares the copy phase for a grouping: one task per bucket in
/// grouping order, each carrying the bucket directory under the
/// destination root and the planned copies of the bucket's `New` files.
/// The returned run stands before the first bucket with nothing recorded.
pub fn copy_files(grouped_files: &Grouping, target_dir: &str) -> (r: CopyRun)
    ensures
        r@.wf(),
        r@.buckets == planned_buckets(grouped_files.groups@, target_dir@),
        r@.bucket == 0,
        r@.file == 0,
        r@.phase is CheckDir,
        r@.results =~= Seq::<Result<u64, CopyFault>>::empty(),
{
    let mut tasks: Vec<BucketTask> = Vec::new();
    let mut j: usize = 0;
    while j < grouped_files.groups.len()
        invariant
            j <= grouped_files.groups@.len(),
            tasks@.map_values(|t: BucketTask| t@) =~= planned_buckets(
                grouped_files.groups@.subrange(0, j as int),
                target_dir@,
            ),
        decreases grouped_files.groups@.len() - j,
    {
        let group = &grouped_files.groups[j];
        let dir_path = join_path(target_dir, group.subdir.as_str());
        let mut copies: Vec<PlannedCopy> = Vec::new();
        let mut i: usize = 0;
        while i < group.files.len()
            invariant
                i <= group.files@.len(),
                copies@.map_values(|c: PlannedCopy| c@) =~= planned_jobs(
                    group.files@.subrange(0, i as int),
                    dir_path@,
                ),
            decreases group.files@.len() - i,
        {
            proof {
                let cur = group.files@.subrange(0, i + 1 as int);
                assert(cur.drop_last() =~= group.files@.subrange(0, i as int));
                assert(cur.last() == group.files@[i as int]);
            }
            match &group.files[i] {
                ProcessedFile::New(f) => {
                    let to = join_path(dir_path.as_str(), f.name.as_str());
                    copies.push(PlannedCopy { from: f.path.clone(), to });
                    proof {
                        assert(copies@.map_values(|c: PlannedCopy| c@) =~= planned_jobs(
                            group.files@.subrange(0, i + 1 as int),
                            dir_path@,
                        ));
                    }
                },
                ProcessedFile::Existing(_) => {
                    proof {
                        assert(copies@.map_values(|c: PlannedCopy| c@) =~= planned_jobs(
                            group.files@.subrange(0, i + 1 as int),
                            dir_path@,
                        ));
                    }
                },
            }
            i = i + 1;
        }
        proof {
            assert(group.files@.subrange(0, group.files@.len() as int) =~= group.files@);
        }
        tasks.push(BucketTask { dir_path, copies });
        proof {
            let cur = grouped_files.groups@.subrange(0, j + 1 as int);
            assert(cur.drop_last() =~= grouped_files.groups@.subrange(0, j as int));
            assert(cur.last() == grouped_files.groups@[j as int]);
            assert(tasks@.map_values(|t: BucketTask| t@) =~= planned_buckets(
                cur,
                target_dir@,
            ));
        }
        j = j + 1;
    }
    proof {
        assert(grouped_files.groups@.subrange(0, grouped_files.groups@.len() as int)
            =~= grouped_files.groups@);
    }
    let run = CopyRun {
        tasks,
        bucket: 0,
        file: 0,
        phase: RunPhase::CheckDir,
        results: Vec::new(),
    };
    proof {
        assert(run@.results =~= Seq::<Result<u64, CopyFault>>::empty());
    }
    run
}

/// The bytes-copied values of the successful outcomes, in order.
pub open spec fn successes_of(results: Seq<Result<u64, CopyError>>) -> Seq<u64>
    decreases results.len(),
{
    if results.len() == 0 {
        Seq::empty()
    } else {
        let pre = successes_of(results.drop_last());
        match results.last() {
            Ok(n) => pre.push(n),
            Err(_) => pre,
        }
    }
}

/// The failures among the outcomes, in order.
pub open spec fn failures_of(results: Seq<Result<u64, CopyError>>) -> Seq<CopyError>
    decreases results.len(),
{
    if results.len() == 0 {
        Seq::empty()
    } else {
        let pre = failures_of(results.drop_last());
        match results.last() {
            Ok(_) => pre,
            Err(e) => pre.push(e),
        }
    }
}

/// The report of a finished run: the bytes copied of each success, and
/// every recorded failure, each in run order.
pub struct CopySummary {
    pub successes: Vec<u64>,
    pub failures: Vec<CopyError>,
}

/// Partitions the outcomes of a run into successes and failures, keeping
/// the order of each. Pure bookkeeping: no filesystem access.
pub fn summarize_results(results: &Vec<Result<u64, CopyError>>) -> (r: CopySummary)
    ensures
        r.successes@ == successes_of(results@),
        r.failures@ == failures_of(results@),
{
    let mut successes: Vec<u64> = Vec::new();
    let mut failures: Vec<CopyError> = Vec::new();
    let mut i: usize = 0;
    while i < results.len()
        invariant
            i <= results@.len(),
            successes@ == successes_of(results@.subrange(0, i as int)),
            failures@ == failures_of(results@.subrange(0, i as int)),
        decreases results@.len() - i,
    {
        proof {
            let cur = results@.subrange(0, i + 1 as int);
            assert(cur.drop_last() =~= results@.subrange(0, i as int));
            assert(cur.last() == results@[i as int]);
        }
        match &results[i] {
            Ok(n) => {
                successes.push(*n);
            },
            Err(e) => {
                failures.push(e.clone());
            },
        }
        i = i + 1;
    }
    proof {
        assert(results@.subrange(0, results@.len() as int) =~= results@);
    }
    CopySummary { successes, failures }
}

} // verus!
