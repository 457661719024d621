use vstd::prelude::*;
use crate::path::{destination, destination_of};
use crate::classify::{Entry, entries};
use crate::plan::{create_dir_tree, dir_tree, full_dests};

verus! {

/// One unit of work, as the contracts see it.
pub enum JobView {
    Dir(Seq<char>),
    Move(Seq<char>, Seq<char>),
}

/// One unit of work: a directory to create, or a file to bring from `from` to `to`.
pub enum Job {
    Dir { path: String },
    Move { from: String, to: String },
}

impl View for Job {
    type V = JobView;

    open spec fn view(&self) -> JobView {
        match self {
            Job::Dir { path } => JobView::Dir(path@),
            Job::Move { from, to } => JobView::Move(from@, to@),
        }
    }
}

/// What the caller is asked to do next, as the contracts see it.
pub enum ActionView {
    CreateDir(Seq<char>),
    Rename(Seq<char>, Seq<char>),
    Copy(Seq<char>, Seq<char>),
    Remove(Seq<char>),
    Finished,
    Abort,
}

/// What the caller is asked to do next. `Finished`: every job is done.
/// `Abort`: an operation failed and the run stops there.
pub enum Action {
    CreateDir { path: String },
    Rename { from: String, to: String },
    Copy { from: String, to: String },
    Remove { path: String },
    Finished,
    Abort,
}

impl View for Action {
    type V = ActionView;

    open spec fn view(&self) -> ActionView {
        match self {
            Action::CreateDir { path } => ActionView::CreateDir(path@),
            Action::Rename { from, to } => ActionView::Rename(from@, to@),
            Action::Copy { from, to } => ActionView::Copy(from@, to@),
            Action::Remove { path } => ActionView::Remove(path@),
            Action::Finished => ActionView::Finished,
            Action::Abort => ActionView::Abort,
        }
    }
}

/// How far the current file has come.
#[derive(PartialEq, Eq, Structural, Clone, Copy)]
pub enum Phase {
    /// Nothing tried yet.
    Start,
    /// Moving: the rename failed, a copy is due.
    RenameFailed,
    /// Moving: the fallback copy succeeded, the source must be removed.
    Copied,
}

pub struct TransferState {
    pub jobs: Seq<JobView>,
    pub pos: int,
    pub phase: Phase,
    pub move_files: bool,
    pub failed: bool,
}

pub open spec fn job_views(jobs: Seq<Job>) -> Seq<JobView> {
    jobs.map_values(|j: Job| j@)
}

/// The jobs of group `index`: its directories first, then its files.
pub open spec fn group_jobs(
    g: Seq<(Seq<char>, Seq<char>)>,
    output: Seq<char>,
    prefix: Seq<char>,
    index: nat,
) -> Seq<JobView> {
    dir_tree(full_dests(g, output, prefix, index)).map_values(|d: Seq<char>| JobView::Dir(d))
        + g.map_values(
        |e: (Seq<char>, Seq<char>)| JobView::Move(e.0, destination(output, prefix, index, e.1)),
    )
}

/// The jobs of every group, group after group.
pub open spec fn plan(
    groups: Seq<Seq<(Seq<char>, Seq<char>)>>,
    output: Seq<char>,
    prefix: Seq<char>,
) -> Seq<JobView>
    decreases groups.len(),
{
    if groups.len() == 0 {
        Seq::empty()
    } else {
        plan(groups.drop_last(), output, prefix) + group_jobs(
            groups.last(),
            output,
            prefix,
            (groups.len() - 1) as nat,
        )
    }
}

pub open spec fn state_wf(s: TransferState) -> bool {
    &&& 0 <= s.pos <= s.jobs.len()
    &&& s.phase != Phase::Start ==> s.pos < s.jobs.len() && s.jobs[s.pos] is Move && s.move_files
}

/// The operation asked for in state `s`.
pub open spec fn action_of(s: TransferState) -> ActionView {
    if s.failed {
        ActionView::Abort
    } else if s.pos >= s.jobs.len() {
        ActionView::Finished
    } else {
        match s.jobs[s.pos] {
            JobView::Dir(d) => ActionView::CreateDir(d),
            JobView::Move(from, to) => match s.phase {
                Phase::Start => if s.move_files {
                    ActionView::Rename(from, to)
                } else {
                    ActionView::Copy(from, to)
                },
                Phase::RenameFailed => ActionView::Copy(from, to),
                Phase::Copied => ActionView::Remove(from),
            },
        }
    }
}

/// The state after the operation asked for in `s` has succeeded (`ok`) or failed.
/// A failed rename falls back to copy then remove; any other failure stops the run.
pub open spec fn next_state(s: TransferState, ok: bool) -> TransferState {
    if s.failed || s.pos >= s.jobs.len() {
        s
    } else if !ok {
        if s.jobs[s.pos] is Move && s.phase == Phase::Start && s.move_files {
            TransferState { phase: Phase::RenameFailed, ..s }
        } else {
            TransferState { failed: true, ..s }
        }
    } else if s.phase == Phase::RenameFailed {
        TransferState { phase: Phase::Copied, ..s }
    } else {
        TransferState { pos: s.pos + 1, phase: Phase::Start, ..s }
    }
}

/// No step goes back to an earlier job.
pub proof fn law_progress_is_monotone(s: TransferState, ok: bool)
    ensures
        next_state(s, ok).pos >= s.pos,
        next_state(s, ok).jobs == s.jobs,
        next_state(s, ok).move_files == s.move_files,
{
}

/// Once an operation has failed for good, the run stays stopped.
pub proof fn law_abort_is_final(s: TransferState, ok: bool)
    requires
        s.failed,
    ensures
        next_state(s, ok) == s,
        action_of(s) == ActionView::Abort,
{
}

/// A rename that succeeds completes its file: the next step is the next job, so no
/// copy or removal is ever asked for that file.
pub proof fn law_rename_success_completes(s: TransferState)
    requires
        state_wf(s),
        action_of(s) is Rename,
    ensures
        next_state(s, true) == (TransferState { pos: s.pos + 1, phase: Phase::Start, ..s }),
        !next_state(s, true).failed,
{
}

/// A failed rename falls back to a copy of the same file and then the removal of
/// its source; the file is complete only when both succeed, and a failure of either
/// stops the run.
pub proof fn law_rename_failure_falls_back(s: TransferState, from: Seq<char>, to: Seq<char>)
    requires
        state_wf(s),
        action_of(s) == ActionView::Rename(from, to),
    ensures
        action_of(next_state(s, false)) == ActionView::Copy(from, to),
        action_of(next_state(next_state(s, false), true)) == ActionView::Remove(from),
        next_state(next_state(next_state(s, false), true), true) == (TransferState {
            pos: s.pos + 1,
            ..s
        }),
        action_of(next_state(next_state(s, false), false)) == ActionView::Abort,
        action_of(next_state(next_state(next_state(s, false), true), false)) == ActionView::Abort,
{
}

/// The state after the outcomes `answers` were reported, one after the other.
pub open spec fn after(s: TransferState, answers: Seq<bool>) -> TransferState
    decreases answers.len(),
{
    if answers.len() == 0 {
        s
    } else {
        next_state(after(s, answers.drop_last()), answers.last())
    }
}

/// The operations asked for while the outcomes `answers` were reported.
pub open spec fn trace(s: TransferState, answers: Seq<bool>) -> Seq<ActionView>
    decreases answers.len(),
{
    if answers.len() == 0 {
        Seq::empty()
    } else {
        trace(s, answers.drop_last()).push(action_of(after(s, answers.drop_last())))
    }
}

/// For `n` files: each rename fails, each fallback copy and removal succeeds.
pub open spec fn fallback_answers(n: nat) -> Seq<bool>
    decreases n,
{
    if n == 0 {
        Seq::empty()
    } else {
        fallback_answers((n - 1) as nat) + seq![false, true, true]
    }
}

/// The operations of a move whose rename fails: rename, copy, then removal of the source.
pub open spec fn fallback_ops(j: JobView) -> Seq<ActionView> {
    match j {
        JobView::Move(from, to) => seq![
            ActionView::Rename(from, to),
            ActionView::Copy(from, to),
            ActionView::Remove(from),
        ],
        JobView::Dir(d) => seq![ActionView::CreateDir(d)],
    }
}

/// The fallback operations of the `n` jobs from `pos` on, in order.
pub open spec fn fallback_trace(jobs: Seq<JobView>, pos: int, n: nat) -> Seq<ActionView>
    decreases n,
{
    if n == 0 {
        Seq::empty()
    } else {
        fallback_trace(jobs, pos, (n - 1) as nat) + fallback_ops(jobs[pos + n - 1])
    }
}

proof fn lemma_after_trace_append(s: TransferState, a: Seq<bool>, b: Seq<bool>)
    ensures
        after(s, a + b) == after(after(s, a), b),
        trace(s, a + b) == trace(s, a) + trace(after(s, a), b),
    decreases b.len(),
{
    if b.len() == 0 {
        assert(a + b =~= a);
        assert(trace(s, a) + trace(after(s, a), b) =~= trace(s, a));
    } else {
        assert((a + b).drop_last() =~= a + b.drop_last());
        lemma_after_trace_append(s, a, b.drop_last());
        assert((a + b).last() == b.last());
        assert(trace(s, a + b) =~= trace(s, a) + trace(after(s, a), b));
    }
}

/// When every rename fails and every fallback succeeds, each of `n` consecutive
/// files is renamed, copied, then removed from its source, in order, and the run
/// goes on after them without failure.
pub proof fn law_failed_renames_fall_back_for_all(s: TransferState, n: nat)
    requires
        state_wf(s),
        !s.failed,
        s.phase == Phase::Start,
        s.move_files,
        s.pos + n <= s.jobs.len(),
        forall|j: int| s.pos <= j < s.pos + n ==> s.jobs[j] is Move,
    ensures
        after(s, fallback_answers(n)) == (TransferState { pos: s.pos + n, ..s }),
        trace(s, fallback_answers(n)) == fallback_trace(s.jobs, s.pos, n),
    decreases n,
{
    if n > 0 {
        let m = (n - 1) as nat;
        law_failed_renames_fall_back_for_all(s, m);
        let step = seq![false, true, true];
        lemma_after_trace_append(s, fallback_answers(m), step);
        let t = TransferState { pos: s.pos + m, ..s };
        assert(t.jobs[t.pos] is Move);
        let (from, to) = match t.jobs[t.pos] {
            JobView::Move(f, d) => (f, d),
            JobView::Dir(_) => (Seq::empty(), Seq::empty()),
        };
        law_rename_failure_falls_back(t, from, to);
        assert(fallback_answers(n) == fallback_answers(m) + step);
        let s1 = next_state(t, false);
        let s2 = next_state(s1, true);
        let one = seq![false];
        let two = seq![false, true];
        assert(one.drop_last() =~= Seq::<bool>::empty());
        assert(after(t, Seq::<bool>::empty()) == t);
        assert(trace(t, Seq::<bool>::empty()) == Seq::<ActionView>::empty());
        assert(one.last() == false);
        assert(two.last() == true);
        assert(step.last() == true);
        assert(two.drop_last() =~= one);
        assert(step.drop_last() =~= two);
        assert(after(t, one) == s1);
        assert(after(t, two) == s2);
        assert(after(t, step) == next_state(s2, true));
        assert(trace(t, one) =~= seq![action_of(t)]);
        assert(trace(t, two) =~= seq![action_of(t), action_of(s1)]);
        assert(trace(t, step) =~= seq![action_of(t), action_of(s1), action_of(s2)]);
        assert(trace(t, step) =~= fallback_ops(s.jobs[s.pos + n - 1]));
    }
}

/// Copies or moves the files of every group into their group's folder, one
/// operation at a time: the caller performs `action()` and tells `report` whether
/// it succeeded.
pub struct Transfer {
    jobs: Vec<Job>,
    pos: usize,
    phase: Phase,
    move_files: bool,
    failed: bool,
}

impl View for Transfer {
    type V = TransferState;

    closed spec fn view(&self) -> TransferState {
        TransferState {
            jobs: job_views(self.jobs@),
            pos: self.pos as int,
            phase: self.phase,
            move_files: self.move_files,
            failed: self.failed,
        }
    }
}

impl Transfer {
    pub closed spec fn wf(&self) -> bool {
        state_wf(self@)
    }

    /// Plans the run: for each group in order, its directories, then its files.
    pub fn new(groups: &Vec<Vec<Entry>>, output_path: &String, output_prefix: &String, move_files: bool) -> (r:
        Transfer)
        requires
            groups.len() < usize::MAX,
        ensures
            r.wf(),
            r@ == (TransferState {
                jobs: plan(groups@.map_values(|g: Vec<Entry>| entries(g@)), output_path@, output_prefix@),
                pos: 0,
                phase: Phase::Start,
                move_files,
                failed: false,
            }),
    {
        let ghost all = groups@.map_values(|g: Vec<Entry>| entries(g@));
        let mut jobs: Vec<Job> = Vec::new();
        let mut i: usize = 0;
        while i < groups.len()
            invariant
                i <= groups.len(),
                groups.len() < usize::MAX,
                all == groups@.map_values(|g: Vec<Entry>| entries(g@)),
                job_views(jobs@) == plan(all.subrange(0, i as int), output_path@, output_prefix@),
            decreases groups.len() - i,
        {
            let ghost done = job_views(jobs@);
            assert(all.subrange(0, i + 1).drop_last() =~= all.subrange(0, i as int));
            let g = &groups[i];
            let ghost ge = entries(g@);
            assert(all.subrange(0, i + 1).last() == ge);
            let dirs = create_dir_tree(g, output_path, output_prefix, i);
            let ghost dv = dir_tree(full_dests(ge, output_path@, output_prefix@, i as nat));
            let mut k: usize = 0;
            while k < dirs.len()
                invariant
                    k <= dirs.len(),
                    dv.len() == dirs.len(),
                    forall|m: int| 0 <= m < dirs.len() ==> dv[m] == (#[trigger] dirs@[m])@,
                    job_views(jobs@) == done + dv.subrange(0, k as int).map_values(
                        |d: Seq<char>| JobView::Dir(d),
                    ),
                decreases dirs.len() - k,
            {
                let ghost before = jobs@;
                jobs.push(Job::Dir { path: dirs[k].clone() });
                assert(job_views(jobs@) =~= job_views(before).push(JobView::Dir(dv[k as int])));
                assert(dv.subrange(0, k + 1).map_values(|d: Seq<char>| JobView::Dir(d))
                    =~= dv.subrange(0, k as int).map_values(|d: Seq<char>| JobView::Dir(d)).push(
                    JobView::Dir(dv[k as int]),
                ));
                k += 1;
            }
            assert(dv.subrange(0, dirs.len() as int) =~= dv);
            let ghost with_dirs = job_views(jobs@);
            let mut k: usize = 0;
            while k < g.len()
                invariant
                    k <= g.len(),
                    i < usize::MAX,
                    ge == entries(g@),
                    job_views(jobs@) == with_dirs + ge.subrange(0, k as int).map_values(
                        |e: (Seq<char>, Seq<char>)|
                            JobView::Move(e.0, destination(output_path@, output_prefix@, i as nat, e.1)),
                    ),
                decreases g.len() - k,
            {
                let to = destination_of(output_path.as_str(), output_prefix.as_str(), i, g[k].dest.as_str());
                let ghost before = jobs@;
                let ghost jv = JobView::Move(
                    ge[k as int].0,
                    destination(output_path@, output_prefix@, i as nat, ge[k as int].1),
                );
                jobs.push(Job::Move { from: g[k].source.clone(), to });
                assert(job_views(jobs@) =~= job_views(before).push(jv));
                assert(ge.subrange(0, k + 1).map_values(
                    |e: (Seq<char>, Seq<char>)|
                        JobView::Move(e.0, destination(output_path@, output_prefix@, i as nat, e.1)),
                ) =~= ge.subrange(0, k as int).map_values(
                    |e: (Seq<char>, Seq<char>)|
                        JobView::Move(e.0, destination(output_path@, output_prefix@, i as nat, e.1)),
                ).push(jv));
                k += 1;
            }
            assert(ge.subrange(0, g.len() as int) =~= ge);
            assert(job_views(jobs@) =~= plan(all.subrange(0, i + 1), output_path@, output_prefix@));
            i += 1;
        }
        assert(all.subrange(0, groups.len() as int) =~= all);
        Transfer { jobs, pos: 0, phase: Phase::Start, move_files, failed: false }
    }

    /// The operation to perform now.
    pub fn action(&self) -> (a: Action)
        requires
            self.wf(),
        ensures
            a@ == action_of(self@),
    {
        if self.failed {
            Action::Abort
        } else if self.pos >= self.jobs.len() {
            Action::Finished
        } else {
            match &self.jobs[self.pos] {
                Job::Dir { path } => Action::CreateDir { path: path.clone() },
                Job::Move { from, to } => match self.phase {
                    Phase::Start => if self.move_files {
                        Action::Rename { from: from.clone(), to: to.clone() }
                    } else {
                        Action::Copy { from: from.clone(), to: to.clone() }
                    },
                    Phase::RenameFailed => Action::Copy { from: from.clone(), to: to.clone() },
                    Phase::Copied => Action::Remove { path: from.clone() },
                },
            }
        }
    }

    /// Records whether the operation last asked for succeeded.
    pub fn report(&mut self, ok: bool)
        requires
            old(self).wf(),
        ensures
            final(self).wf(),
            final(self)@ == next_state(old(self)@, ok),
    {
        if self.failed || self.pos >= self.jobs.len() {
            return;
        }
        if !ok {
            let is_move = match &self.jobs[self.pos] {
                Job::Move { .. } => true,
                Job::Dir { .. } => false,
            };
            if is_move && self.phase == Phase::Start && self.move_files {
                self.phase = Phase::RenameFailed;
            } else {
                self.failed = true;
            }
        } else if self.phase == Phase::RenameFailed {
            self.phase = Phase::Copied;
        } else {
            self.pos = self.pos + 1;
            self.phase = Phase::Start;
        }
    }
}

} // verus!
