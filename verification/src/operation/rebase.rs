//! Linear rebase as a durable state machine: each phase is saved before the
//! Git work it stands for, so an interrupted step is never taken for a
//! finished one. Git is run by the caller; the decisions are made here.
use vstd::prelude::*;
use vstd::string::StringExecFns;
use crate::error::Error;
use crate::operation::Options;
use crate::text::{is_prefix, string_views};

verus! {

pub const VERSION: u32 = 2;

#[derive(Debug)]
pub enum Phase {
    Starting,
    Ready,
    Applying,
    Applied,
    Committing { commit: String },
    Finishing,
    Aborting { head: String, branch_tip: String },
}

/// The saved progress of a rebase.
#[derive(Debug)]
pub struct State {
    pub version: u32,
    pub repository: String,
    /// The full ref of the branch being rebased.
    pub branch: String,
    pub original_head: String,
    pub upstream: String,
    /// The commits to replay, oldest first.
    pub commits: Vec<String>,
    /// How many of them are replayed.
    pub next: usize,
    /// The last replayed commit (the upstream before the first).
    pub head: String,
    pub options: Options,
    pub phase: Phase,
}

/// The phases agree with the progress: nothing replayed before the start,
/// a commit in hand while applying or committing, all replayed when finishing.
pub open spec fn progress_consistent(s: State) -> bool {
    &&& s.next <= s.commits@.len()
    &&& s.phase is Starting ==> s.next == 0
    &&& (s.phase is Applying || s.phase is Applied || s.phase is Committing) ==> s.next < s.commits@.len()
    &&& s.phase is Finishing ==> s.next == s.commits@.len()
}

/// A saved state this version can continue in this repository.
pub open spec fn state_consistent(s: State, repository: Seq<char>) -> bool {
    &&& s.version == VERSION
    &&& s.repository@ == repository
    &&& is_prefix("refs/heads/"@, s.branch@)
    &&& progress_consistent(s)
}

/// Refuses a saved state of another version or repository, or one whose
/// phase does not agree with its progress.
pub fn check_state(s: &State, repository: &str) -> (r: Result<(), Error>)
    ensures
        r == if state_consistent(*s, repository@) {
            Ok::<(), Error>(())
        } else {
            Err(Error::Usage { text: "strict-weave rebase 状态不完整或不属于当前仓库" })
        },
{
    let ok = s.version == VERSION && s.repository == String::from_str(repository) && crate::text::starts_with(
        s.branch.as_str(),
        "refs/heads/",
    ) && s.next <= s.commits.len() && match &s.phase {
        Phase::Starting => s.next == 0,
        Phase::Applying | Phase::Applied | Phase::Committing { .. } => s.next < s.commits.len(),
        Phase::Finishing => s.next == s.commits.len(),
        _ => true,
    };
    if ok {
        Ok(())
    } else {
        Err(Error::Usage { text: "strict-weave rebase 状态不完整或不属于当前仓库" })
    }
}

/// Whether HEAD, the branch tip and HEAD's attachment agree with the phase:
/// only Starting, Finishing and Aborting may have HEAD on the branch.
pub open spec fn context_ok(s: State, head: Seq<char>, branch: Option<Seq<char>>, tip: Seq<char>) -> bool {
    let (head_ok, tip_ok, attached_ok) = match s.phase {
        Phase::Starting => (
            head == s.head@ || head == s.original_head@,
            tip == s.original_head@,
            head == s.original_head@,
        ),
        Phase::Finishing => (head == s.head@, tip == s.original_head@ || tip == s.head@, tip == s.head@),
        Phase::Aborting { head: before, branch_tip: before_tip } => (
            head == before@ || head == s.original_head@,
            tip == before_tip@ || tip == s.original_head@,
            head == tip,
        ),
        Phase::Committing { commit } => (head == s.head@ || head == commit@, tip == s.original_head@, false),
        _ => (head == s.head@, tip == s.original_head@, false),
    };
    head_ok && tip_ok && match branch {
        Some(b) => attached_ok && b == s.branch@,
        None => true,
    }
}

/// A saved state that loading accepts (its own checks, then HEAD and the
/// branch as Git reports them) is of this version and repository, belongs to
/// a local branch, has progress that agrees with its phase, and a HEAD and
/// branch tip that agree with that phase.
pub proof fn law_loaded_state(
    s: State,
    repository: Seq<char>,
    head: Seq<char>,
    branch: Option<Seq<char>>,
    tip: Seq<char>,
)
    requires
        state_consistent(s, repository),
        context_ok(s, head, branch, tip),
    ensures
        s.version == VERSION,
        s.repository@ == repository,
        is_prefix("refs/heads/"@, s.branch@),
        s.next <= s.commits@.len(),
        s.phase is Starting ==> s.next == 0,
        (s.phase is Applying || s.phase is Applied || s.phase is Committing) ==> s.next < s.commits@.len(),
        s.phase is Finishing ==> s.next == s.commits@.len(),
        branch matches Some(b) ==> b == s.branch@,
        !(s.phase is Starting || s.phase is Finishing || s.phase is Aborting) ==> branch is None,
{
}

/// Refuses to go on where HEAD or the branch moved: `head` and `tip` are the
/// commits of HEAD and of the branch, `branch` the ref HEAD is attached to.
pub fn validate_context(s: &State, head: &str, branch: Option<&str>, tip: &str) -> (r: Result<(), Error>)
    ensures
        r == if context_ok(*s, head@, match branch {
            Some(b) => Some(b@),
            None => None,
        }, tip@) {
            Ok::<(), Error>(())
        } else {
            Err(Error::Usage { text: "rebase 的 HEAD 或原 branch 已变化；请恢复记录的 HEAD/branch 后重试，状态已保留" })
        },
{
    let h = String::from_str(head);
    let t = String::from_str(tip);
    let (head_ok, tip_ok, attached_ok) = match &s.phase {
        Phase::Starting => (h == s.head || h == s.original_head, t == s.original_head, h == s.original_head),
        Phase::Finishing => (h == s.head, t == s.original_head || t == s.head, t == s.head),
        Phase::Aborting { head: before, branch_tip: before_tip } => (
            h == *before || h == s.original_head,
            t == *before_tip || t == s.original_head,
            h == t,
        ),
        Phase::Committing { commit } => (h == s.head || h == *commit, t == s.original_head, false),
        _ => (h == s.head, t == s.original_head, false),
    };
    let branch_ok = match branch {
        Some(b) => attached_ok && String::from_str(b) == s.branch,
        None => true,
    };
    if head_ok && tip_ok && branch_ok {
        Ok(())
    } else {
        Err(Error::Usage { text: "rebase 的 HEAD 或原 branch 已变化；请恢复记录的 HEAD/branch 后重试，状态已保留" })
    }
}

/// The commit whose cherry-pick state may be present: the one being applied
/// (or aborted).
pub open spec fn allowed_cherry_of(s: State) -> Option<Seq<char>> {
    if (s.phase is Applying || s.phase is Aborting) && s.next < s.commits@.len() {
        Some(s.commits@[s.next as int]@)
    } else {
        None
    }
}

pub fn allowed_cherry(s: &State) -> (r: Option<String>)
    ensures
        match r {
            Some(c) => allowed_cherry_of(*s) == Some(c@),
            None => allowed_cherry_of(*s) is None,
        },
{
    match &s.phase {
        Phase::Applying | Phase::Aborting { .. } => {
            if s.next < s.commits.len() {
                Some(s.commits[s.next].clone())
            } else {
                None
            }
        },
        _ => None,
    }
}

pub open spec fn operation_name(k: int) -> &'static str {
    if k == 0 {
        "MERGE_HEAD"
    } else if k == 1 {
        "CHERRY_PICK_HEAD"
    } else if k == 2 {
        "REVERT_HEAD"
    } else if k == 3 {
        "rebase-merge"
    } else if k == 4 {
        "rebase-apply"
    } else {
        "sequencer"
    }
}

fn operation_name_of(k: usize) -> (r: &'static str)
    requires
        k < 6,
    ensures
        r == operation_name(k as int),
{
    if k == 0 {
        "MERGE_HEAD"
    } else if k == 1 {
        "CHERRY_PICK_HEAD"
    } else if k == 2 {
        "REVERT_HEAD"
    } else if k == 3 {
        "rebase-merge"
    } else if k == 4 {
        "rebase-apply"
    } else {
        "sequencer"
    }
}

/// Whether Git's own operation `k` blocks: present, and not the cherry-pick
/// of the allowed commit.
pub open spec fn blocks(k: int, present: Seq<bool>, cherry: Option<Seq<char>>, allowed: Option<Seq<char>>) -> bool {
    present[k] && !(k == 1 && allowed is Some && cherry == allowed)
}

/// Refuses while Git runs an operation of its own: `present` tells which of
/// MERGE_HEAD, CHERRY_PICK_HEAD, REVERT_HEAD, rebase-merge, rebase-apply and
/// sequencer exist; `cherry` is CHERRY_PICK_HEAD's commit. The first such
/// operation is named, unless it is the cherry-pick of `allowed`.
pub fn check_no_git_operation(present: &[bool; 6], cherry: Option<&str>, allowed: Option<&str>) -> (r: Result<
    (),
    Error,
>)
    ensures
        match r {
            Ok(()) => forall|k: int| 0 <= k < 6 ==> !blocks(k, present@, opt_str(cherry), opt_str(allowed)),
            Err(e) => exists|k: int|
                0 <= k < 6 && blocks(k, present@, opt_str(cherry), opt_str(allowed)) && e == Error::GitOperation {
                    name: operation_name(k),
                } && forall|j: int| 0 <= j < k ==> !blocks(j, present@, opt_str(cherry), opt_str(allowed)),
        },
{
    let same = match (cherry, allowed) {
        (Some(c), Some(a)) => String::from_str(c) == String::from_str(a),
        _ => false,
    };
    assert(same == (allowed is Some && opt_str(cherry) == opt_str(allowed)));
    let mut k: usize = 0;
    while k < 6
        invariant
            k <= 6,
            same == (allowed is Some && opt_str(cherry) == opt_str(allowed)),
            forall|j: int| 0 <= j < k ==> !blocks(j, present@, opt_str(cherry), opt_str(allowed)),
        decreases 6 - k,
    {
        if present[k] && !(k == 1 && same) {
            assert(blocks(k as int, present@, opt_str(cherry), opt_str(allowed)));
            return Err(Error::GitOperation { name: operation_name_of(k) });
        }
        k += 1;
    }
    Ok(())
}

pub open spec fn opt_str(o: Option<&str>) -> Option<Seq<char>> {
    match o {
        Some(s) => Some(s@),
        None => None,
    }
}

// ---------------------------------------------------------------------------
// Steps.
// ---------------------------------------------------------------------------

/// The next piece of work of a rebase.
#[derive(Debug)]
pub enum Step {
    /// Check the first step, then detach HEAD at the upstream.
    Start,
    /// Every commit is replayed; record that finishing begins.
    MarkFinishing,
    /// Analyze and apply the next commit.
    ApplyNext,
    /// Write the index as a commit on the last replayed one.
    PrepareCommit,
    /// Move HEAD to the recorded commit.
    CompleteCommit(String),
    /// Move the branch to the last replayed commit and reattach HEAD.
    Finish,
}

/// What a phase leads to; an interrupted application or a running abort
/// cannot be continued.
pub fn next_step(s: &State) -> (r: Result<Step, Error>)
    ensures
        match s.phase {
            Phase::Starting => r matches Ok(Step::Start),
            Phase::Ready => if s.next == s.commits@.len() {
                r matches Ok(Step::MarkFinishing)
            } else {
                r matches Ok(Step::ApplyNext)
            },
            Phase::Applying => r == Err::<Step, Error>(
                Error::Usage { text: "上次 rebase 应用未完整结束，不能继续提交；请使用 strict-weave rebase --abort" },
            ),
            Phase::Applied => r matches Ok(Step::PrepareCommit),
            Phase::Committing { commit } => r matches Ok(Step::CompleteCommit(c)) && c@ == commit@,
            Phase::Finishing => r matches Ok(Step::Finish),
            Phase::Aborting { .. } => r == Err::<Step, Error>(
                Error::Usage { text: "rebase 正在中止；请重试 strict-weave rebase --abort" },
            ),
        },
{
    match &s.phase {
        Phase::Starting => Ok(Step::Start),
        Phase::Ready => if s.next == s.commits.len() {
            Ok(Step::MarkFinishing)
        } else {
            Ok(Step::ApplyNext)
        },
        Phase::Applying => Err(
            Error::Usage { text: "上次 rebase 应用未完整结束，不能继续提交；请使用 strict-weave rebase --abort" },
        ),
        Phase::Applied => Ok(Step::PrepareCommit),
        Phase::Committing { commit } => Ok(Step::CompleteCommit(commit.clone())),
        Phase::Finishing => Ok(Step::Finish),
        Phase::Aborting { .. } => Err(Error::Usage { text: "rebase 正在中止；请重试 strict-weave rebase --abort" }),
    }
}

/// The first commit is checked and HEAD detached at the upstream.
pub fn mark_ready(s: &mut State)
    requires
        old(s).phase is Starting,
    ensures
        final(s).phase is Ready,
        final(s).next == old(s).next,
        final(s).commits == old(s).commits,
        final(s).head == old(s).head,
{
    s.phase = Phase::Ready;
}

/// Every commit is replayed.
pub fn mark_finishing(s: &mut State)
    requires
        old(s).phase is Ready,
        old(s).next == old(s).commits@.len(),
    ensures
        final(s).phase is Finishing,
        final(s).next == old(s).next,
        final(s).commits == old(s).commits,
        final(s).head == old(s).head,
{
    s.phase = Phase::Finishing;
}

/// The next commit's application begins.
pub fn mark_applying(s: &mut State)
    requires
        old(s).phase is Ready,
        old(s).next < old(s).commits@.len(),
    ensures
        final(s).phase is Applying,
        final(s).next == old(s).next,
        final(s).commits == old(s).commits,
        final(s).head == old(s).head,
{
    s.phase = Phase::Applying;
}

/// The next commit is applied and its outcome installed.
pub fn mark_applied(s: &mut State)
    requires
        old(s).phase is Applying,
    ensures
        final(s).phase is Applied,
        final(s).next == old(s).next,
        final(s).commits == old(s).commits,
        final(s).head == old(s).head,
{
    s.phase = Phase::Applied;
}

/// The replayed commit is written, before HEAD moves to it.
pub fn mark_committing(s: &mut State, commit: String)
    requires
        old(s).phase is Applied,
    ensures
        final(s).phase == (Phase::Committing { commit }),
        final(s).next == old(s).next,
        final(s).commits == old(s).commits,
        final(s).head == old(s).head,
{
    s.phase = Phase::Committing { commit };
}

/// HEAD is at the replayed commit: it becomes the last replayed one.
pub fn mark_committed(s: &mut State, commit: String)
    requires
        old(s).phase is Committing,
        old(s).next < old(s).commits@.len(),
    ensures
        final(s).phase is Ready,
        final(s).next == old(s).next + 1,
        final(s).commits == old(s).commits,
        final(s).head == commit,
{
    assert(s.next < s.commits.len());
    s.head = commit;
    s.next = s.next + 1;
    s.phase = Phase::Ready;
}

/// An abort begins, recording where HEAD and the branch were.
pub fn mark_aborting(s: &mut State, head: String, branch_tip: String)
    ensures
        final(s).phase == (Phase::Aborting { head, branch_tip }),
        final(s).next == old(s).next,
        final(s).commits == old(s).commits,
        final(s).head == old(s).head,
{
    s.phase = Phase::Aborting { head, branch_tip };
}

/// A phase change that the steps make.
pub open spec fn step_transition(before: State, after: State) -> bool {
    &&& after.version == before.version
    &&& after.repository == before.repository
    &&& after.branch == before.branch
    &&& after.commits == before.commits
    &&& {
        ||| (before.phase is Starting && after.phase is Ready && after.next == before.next)
        ||| (before.phase is Ready && before.next == before.commits@.len() && after.phase is Finishing && after.next
            == before.next)
        ||| (before.phase is Ready && before.next < before.commits@.len() && after.phase is Applying && after.next
            == before.next)
        ||| (before.phase is Applying && after.phase is Applied && after.next == before.next)
        ||| (before.phase is Applied && after.phase is Committing && after.next == before.next)
        ||| (before.phase is Committing && before.next < before.commits@.len() && after.phase is Ready && after.next
            == before.next + 1)
        ||| (after.phase is Aborting && after.next == before.next)
    }
}

/// Every step keeps a consistent state consistent, and never moves the
/// progress back.
pub proof fn law_steps_keep_progress(before: State, after: State)
    requires
        progress_consistent(before),
        step_transition(before, after),
    ensures
        progress_consistent(after),
        after.next >= before.next,
{
}

// ---------------------------------------------------------------------------
// Starting and continuing.
// ---------------------------------------------------------------------------

/// What a new rebase needs to do.
#[derive(Debug, Clone, Copy, PartialEq, Eq, Structural)]
pub enum Route {
    /// The branch already contains the upstream.
    UpToDate,
    /// The upstream contains the branch: a fast-forward.
    FastForward,
    /// The branch's own commits are replayed.
    Replay,
}

pub fn rebase_route(base: &str, upstream: &str, original: &str) -> (r: Route)
    ensures
        r == if base@ == upstream@ {
            Route::UpToDate
        } else if base@ == original@ {
            Route::FastForward
        } else {
            Route::Replay
        },
{
    let b = String::from_str(base);
    if b == String::from_str(upstream) {
        Route::UpToDate
    } else if b == String::from_str(original) {
        Route::FastForward
    } else {
        Route::Replay
    }
}

/// The state a new rebase saves before its first checkout.
pub fn new_state(repository: String, branch: String, original: String, upstream: String, commits: Vec<String>, options: Options) -> (r: State)
    ensures
        r.version == VERSION,
        r.repository == repository,
        r.branch == branch,
        r.original_head == original,
        r.upstream == upstream,
        r.head == upstream,
        r.commits == commits,
        r.next == 0,
        r.options == options,
        r.phase is Starting,
        progress_consistent(r),
{
    let head = upstream.clone();
    State { version: VERSION, repository, branch, original_head: original, upstream, commits, next: 0, head, options, phase: Phase::Starting }
}

/// A continuation may turn the display options on, never off.
pub fn continue_with(s: &mut State, options: Options)
    ensures
        final(s).options.zdiff3 == (old(s).options.zdiff3 || options.zdiff3),
        final(s).options.detailed == (old(s).options.detailed || options.detailed),
        final(s).phase == old(s).phase,
        final(s).next == old(s).next,
        final(s).commits == old(s).commits,
        final(s).head == old(s).head,
{
    s.options = Options { zdiff3: s.options.zdiff3 || options.zdiff3, detailed: s.options.detailed || options.detailed };
}

/// The recorded commit may only become the replay if the index still holds
/// its tree and it sits on the last replayed commit.
pub fn check_recorded_commit(index_tree: &str, commit_tree: &str, commit_parent: &str, head: &str) -> (r: Result<(), Error>)
    ensures
        r == if index_tree@ == commit_tree@ && commit_parent@ == head@ {
            Ok::<(), Error>(())
        } else {
            Err(Error::Usage { text: "提交期间 index 或保存的 commit 已变化；请恢复暂存结果后重试" })
        },
{
    if String::from_str(index_tree) == String::from_str(commit_tree) && String::from_str(commit_parent)
        == String::from_str(head) {
        Ok(())
    } else {
        Err(Error::Usage { text: "提交期间 index 或保存的 commit 已变化；请恢复暂存结果后重试" })
    }
}

// ---------------------------------------------------------------------------
// The preview of a rebase: each commit tried in turn until one conflicts.
// ---------------------------------------------------------------------------

/// One step of a rebase preview.
#[derive(Debug)]
pub struct PreviewOutcome {
    /// Whether the step conflicts: Git's trial merge did, or the strict
    /// analysis left a file conflicted.
    pub conflicted: bool,
    /// The tree the step gives, where it is clean: the next step starts there.
    pub result_tree: Option<String>,
}

/// Decides one preview step from Git's trial merge (`native_conflicted`, the
/// tree it wrote) and the number of files that the strict analysis left
/// conflicted. Only a clean step has a tree to go on from; a conflicted step
/// is the preview's last.
pub fn preview_step(native_conflicted: bool, strict_conflicts: usize, tree: String) -> (r: PreviewOutcome)
    ensures
        r.conflicted == (native_conflicted || strict_conflicts > 0),
        r.conflicted ==> r.result_tree is None,
        !r.conflicted ==> (r.result_tree matches Some(x) && x@ == tree@),
{
    let conflicted = native_conflicted || strict_conflicts > 0;
    if conflicted {
        PreviewOutcome { conflicted, result_tree: None }
    } else {
        PreviewOutcome { conflicted, result_tree: Some(tree) }
    }
}

/// The commits that a preview which stopped after `steps` steps did not
/// analyse, in order.
pub fn preview_pending(commits: &Vec<String>, steps: usize) -> (r: Vec<String>)
    requires
        steps <= commits.len(),
    ensures
        string_views(r@) == string_views(commits@).skip(steps as int),
{
    let ghost cv = string_views(commits@);
    let mut r: Vec<String> = Vec::new();
    let mut i: usize = steps;
    while i < commits.len()
        invariant
            steps <= i <= commits.len(),
            cv == string_views(commits@),
            string_views(r@) == cv.subrange(steps as int, i as int),
        decreases commits.len() - i,
    {
        let ghost before = r@;
        r.push(commits[i].clone());
        assert(string_views(r@) =~= string_views(before).push(commits@[i as int]@));
        assert(cv.subrange(steps as int, i + 1) =~= cv.subrange(steps as int, i as int).push(cv[i as int]));
        i += 1;
    }
    assert(cv.subrange(steps as int, commits.len() as int) =~= cv.skip(steps as int));
    r
}

} // verus!
