//! Command-line requests, validated into operation requests before any lock
//! is taken. Direct library callers are validated the same way.
use vstd::prelude::*;
use crate::error::Error;
use crate::workflow::merge::{self, FastForward, Finish};
use crate::workflow::{pull, rebase, stash};

verus! {

#[derive(Debug)]
pub struct MergeArgs {
    /// The commit or branch to merge; the current branch's upstream if absent.
    pub target: Option<String>,
    pub ff: bool,
    pub no_ff: bool,
    pub ff_only: bool,
    pub squash: bool,
    pub no_commit: bool,
    pub commit: bool,
    pub edit: bool,
    pub no_edit: bool,
    pub message: Option<String>,
    pub explain_reasons: bool,
    pub continue_merge: bool,
    pub abort: bool,
    pub quit: bool,
}

#[derive(Debug)]
pub struct RebaseArgs {
    pub upstream: Option<String>,
    /// The local branch to rebase; the current HEAD if absent.
    pub branch: Option<String>,
    pub onto: Option<String>,
    pub root: bool,
    pub interactive: bool,
    pub rebase_merges: bool,
    pub explain_reasons: bool,
    pub continue_rebase: bool,
    pub abort: bool,
    pub skip: bool,
    pub quit: bool,
    pub edit_todo: bool,
    pub show_current_patch: bool,
}

/// The values of `pull --rebase=...`.
#[derive(Debug, Clone, Copy, PartialEq, Eq, Structural)]
pub enum RebaseMode {
    Linear,
    Merge,
    Interactive,
    Merges,
}

#[derive(Debug)]
pub struct PullArgs {
    pub remote: Option<String>,
    /// One remote branch or ref; no refspecs and no destination updates.
    pub branch: Option<String>,
    pub rebase: Option<RebaseMode>,
    pub no_rebase: bool,
    pub ff_only: bool,
    pub no_ff: bool,
    pub squash: bool,
    pub no_commit: bool,
    pub explain_reasons: bool,
}

#[derive(Debug)]
pub struct StashArgs {
    pub action: StashAction,
}

#[derive(Debug)]
pub enum StashAction {
    Apply(StashOptions),
    Pop(StashOptions),
}

#[derive(Debug)]
pub struct StashOptions {
    /// `stash@{0}` unless given.
    pub stash: String,
    pub index: bool,
    pub explain_reasons: bool,
}

/// How many of the flags are set.
pub open spec fn count_set(flags: Seq<bool>) -> nat
    decreases flags.len(),
{
    if flags.len() == 0 {
        0
    } else {
        count_set(flags.drop_last()) + if flags.last() {
            1nat
        } else {
            0nat
        }
    }
}

/// Refuses more than one set flag of a group.
pub fn exclusive(flags: &[bool], description: &'static str) -> (r: Result<(), Error>)
    ensures
        r == if count_set(flags@) > 1 {
            Err::<(), Error>(Error::Exclusive { flags: description })
        } else {
            Ok(())
        },
{
    let mut n: usize = 0;
    let mut i: usize = 0;
    while i < flags.len()
        invariant
            i <= flags.len(),
            n == count_set(flags@.take(i as int)),
            n <= i,
        decreases flags.len() - i,
    {
        assert(flags@.take(i + 1).drop_last() =~= flags@.take(i as int));
        if flags[i] {
            n += 1;
        }
        i += 1;
    }
    assert(flags@.take(flags.len() as int) =~= flags@);
    if n > 1 {
        Err(Error::Exclusive { flags: description })
    } else {
        Ok(())
    }
}

pub open spec fn fast_forward_of(only: bool, never: bool) -> FastForward {
    if only {
        FastForward::Only
    } else if never {
        FastForward::Never
    } else {
        FastForward::Allow
    }
}

pub open spec fn finish_of(squash: bool, no_commit: bool) -> Finish {
    if squash {
        Finish::Squash
    } else if no_commit {
        Finish::NoCommit
    } else {
        Finish::Commit
    }
}

fn fast_forward(only: bool, never: bool) -> (r: FastForward)
    ensures
        r == fast_forward_of(only, never),
{
    if only {
        FastForward::Only
    } else if never {
        FastForward::Never
    } else {
        FastForward::Allow
    }
}

fn finish(squash: bool, no_commit: bool) -> (r: Finish)
    ensures
        r == finish_of(squash, no_commit),
{
    if squash {
        Finish::Squash
    } else if no_commit {
        Finish::NoCommit
    } else {
        Finish::Commit
    }
}

// ---------------------------------------------------------------------------
// merge
// ---------------------------------------------------------------------------

/// The merge request of the flags: at most one flag of each group; a
/// continue/abort/quit with no new merge flags; else a new merge.
pub open spec fn merge_request(a: MergeArgs) -> Result<merge::Request, Error> {
    if count_set(seq![a.ff, a.no_ff, a.ff_only]) > 1 {
        Err(Error::Exclusive { flags: "--ff / --no-ff / --ff-only" })
    } else if count_set(seq![a.no_commit, a.commit]) > 1 {
        Err(Error::Exclusive { flags: "--no-commit / --commit" })
    } else if count_set(seq![a.edit, a.no_edit]) > 1 {
        Err(Error::Exclusive { flags: "--edit / --no-edit" })
    } else if count_set(seq![a.continue_merge, a.abort, a.quit]) > 1 {
        Err(Error::Exclusive { flags: "--continue / --abort / --quit" })
    } else if a.squash && (a.no_ff || a.commit) {
        Err(Error::Usage { text: "--squash 不能与 --no-ff / --commit 组合" })
    } else if a.abort || a.quit || a.continue_merge {
        if a.target is Some || a.ff || a.no_ff || a.ff_only || a.squash || a.no_commit || a.commit
            || a.edit || a.no_edit || a.message is Some {
            Err(Error::Usage { text: "继续/中止操作不能同时指定新的 merge 参数" })
        } else {
            Ok(
                merge::Request::Resume(
                    if a.abort {
                        merge::Action::Abort
                    } else if a.quit {
                        merge::Action::Quit
                    } else {
                        merge::Action::Continue
                    },
                ),
            )
        }
    } else {
        Ok(
            merge::Request::Start(
                merge::Options {
                    target: a.target,
                    ff: fast_forward_of(a.ff_only, a.no_ff),
                    finish: finish_of(a.squash, a.no_commit),
                    edit: a.edit,
                    message: a.message,
                    detailed: a.explain_reasons,
                },
            ),
        )
    }
}

impl TryFrom<MergeArgs> for merge::Request {
    type Error = Error;

    fn try_from(args: MergeArgs) -> (r: Result<merge::Request, Error>) {
        let ghost a = args;
        match exclusive(&[args.ff, args.no_ff, args.ff_only], "--ff / --no-ff / --ff-only") {
            Err(e) => {
                assert(seq![args.ff, args.no_ff, args.ff_only] =~= [args.ff, args.no_ff, args.ff_only]@);
                return Err(e);
            },
            Ok(()) => {},
        }
        assert(seq![args.ff, args.no_ff, args.ff_only] =~= [args.ff, args.no_ff, args.ff_only]@);
        match exclusive(&[args.no_commit, args.commit], "--no-commit / --commit") {
            Err(e) => {
                assert(seq![args.no_commit, args.commit] =~= [args.no_commit, args.commit]@);
                return Err(e);
            },
            Ok(()) => {},
        }
        assert(seq![args.no_commit, args.commit] =~= [args.no_commit, args.commit]@);
        match exclusive(&[args.edit, args.no_edit], "--edit / --no-edit") {
            Err(e) => {
                assert(seq![args.edit, args.no_edit] =~= [args.edit, args.no_edit]@);
                return Err(e);
            },
            Ok(()) => {},
        }
        assert(seq![args.edit, args.no_edit] =~= [args.edit, args.no_edit]@);
        match exclusive(&[args.continue_merge, args.abort, args.quit], "--continue / --abort / --quit") {
            Err(e) => {
                assert(seq![args.continue_merge, args.abort, args.quit] =~= [args.continue_merge, args.abort, args.quit]@);
                return Err(e);
            },
            Ok(()) => {},
        }
        assert(seq![args.continue_merge, args.abort, args.quit] =~= [args.continue_merge, args.abort, args.quit]@);
        if args.squash && (args.no_ff || args.commit) {
            return Err(Error::Usage { text: "--squash 不能与 --no-ff / --commit 组合" });
        }
        if args.abort || args.quit || args.continue_merge {
            if args.target.is_some() || args.ff || args.no_ff || args.ff_only || args.squash || args.no_commit
                || args.commit || args.edit || args.no_edit || args.message.is_some() {
                return Err(Error::Usage { text: "继续/中止操作不能同时指定新的 merge 参数" });
            }
            let action = if args.abort {
                merge::Action::Abort
            } else if args.quit {
                merge::Action::Quit
            } else {
                merge::Action::Continue
            };
            return Ok(merge::Request::Resume(action));
        }
        Ok(
            merge::Request::Start(
                merge::Options {
                    target: args.target,
                    ff: fast_forward(args.ff_only, args.no_ff),
                    finish: finish(args.squash, args.no_commit),
                    edit: args.edit,
                    message: args.message,
                    detailed: args.explain_reasons,
                },
            ),
        )
    }
}

impl vstd::std_specs::convert::TryFromSpecImpl<MergeArgs> for merge::Request {
    open spec fn obeys_try_from_spec() -> bool {
        true
    }

    open spec fn try_from_spec(v: MergeArgs) -> Result<merge::Request, Error> {
        merge_request(v)
    }
}

// ---------------------------------------------------------------------------
// rebase
// ---------------------------------------------------------------------------

pub open spec fn rebase_action_of(a: RebaseArgs) -> rebase::Action {
    if a.continue_rebase {
        rebase::Action::Continue
    } else if a.abort {
        rebase::Action::Abort
    } else if a.skip {
        rebase::Action::Skip
    } else if a.quit {
        rebase::Action::Quit
    } else if a.edit_todo {
        rebase::Action::EditTodo
    } else {
        rebase::Action::ShowCurrentPatch
    }
}

/// The rebase request of the flags: at most one action, given alone; else
/// a new rebase, `--root` without an upstream.
pub open spec fn rebase_request(a: RebaseArgs) -> Result<rebase::Request, Error> {
    if count_set(seq![a.continue_rebase, a.abort, a.skip, a.quit, a.edit_todo, a.show_current_patch]) > 1 {
        Err(Error::Exclusive { flags: "rebase 操作" })
    } else if a.continue_rebase || a.abort || a.skip || a.quit || a.edit_todo || a.show_current_patch {
        if a.upstream is Some || a.branch is Some || a.onto is Some || a.root || a.interactive || a.rebase_merges {
            Err(Error::Usage { text: "rebase 继续/中止不能同时指定新操作参数" })
        } else {
            Ok(rebase::Request::Resume(rebase_action_of(a)))
        }
    } else if a.root && a.upstream is Some {
        Err(Error::Usage { text: "--root 不能同时指定 upstream" })
    } else {
        Ok(
            rebase::Request::Start(
                rebase::Options {
                    upstream: if a.root {
                        rebase::Upstream::Root
                    } else {
                        rebase::Upstream::Revision(a.upstream)
                    },
                    branch: a.branch,
                    onto: a.onto,
                    interactive: a.interactive,
                    rebase_merges: a.rebase_merges,
                    detailed: a.explain_reasons,
                },
            ),
        )
    }
}

impl TryFrom<RebaseArgs> for rebase::Request {
    type Error = Error;

    fn try_from(args: RebaseArgs) -> (r: Result<rebase::Request, Error>) {
        let flags = [args.continue_rebase, args.abort, args.skip, args.quit, args.edit_todo, args.show_current_patch];
        assert(seq![args.continue_rebase, args.abort, args.skip, args.quit, args.edit_todo, args.show_current_patch]
            =~= flags@);
        match exclusive(&flags, "rebase 操作") {
            Err(e) => return Err(e),
            Ok(()) => {},
        }
        let action = if args.continue_rebase {
            Some(rebase::Action::Continue)
        } else if args.abort {
            Some(rebase::Action::Abort)
        } else if args.skip {
            Some(rebase::Action::Skip)
        } else if args.quit {
            Some(rebase::Action::Quit)
        } else if args.edit_todo {
            Some(rebase::Action::EditTodo)
        } else if args.show_current_patch {
            Some(rebase::Action::ShowCurrentPatch)
        } else {
            None
        };
        if let Some(action) = action {
            if args.upstream.is_some() || args.branch.is_some() || args.onto.is_some() || args.root
                || args.interactive || args.rebase_merges {
                return Err(Error::Usage { text: "rebase 继续/中止不能同时指定新操作参数" });
            }
            return Ok(rebase::Request::Resume(action));
        }
        if args.root && args.upstream.is_some() {
            return Err(Error::Usage { text: "--root 不能同时指定 upstream" });
        }
        Ok(
            rebase::Request::Start(
                rebase::Options {
                    upstream: if args.root {
                        rebase::Upstream::Root
                    } else {
                        rebase::Upstream::Revision(args.upstream)
                    },
                    branch: args.branch,
                    onto: args.onto,
                    interactive: args.interactive,
                    rebase_merges: args.rebase_merges,
                    detailed: args.explain_reasons,
                },
            ),
        )
    }
}

impl vstd::std_specs::convert::TryFromSpecImpl<RebaseArgs> for rebase::Request {
    open spec fn obeys_try_from_spec() -> bool {
        true
    }

    open spec fn try_from_spec(v: RebaseArgs) -> Result<rebase::Request, Error> {
        rebase_request(v)
    }
}

// ---------------------------------------------------------------------------
// pull
// ---------------------------------------------------------------------------

pub open spec fn pull_mode_of(m: RebaseMode) -> pull::Mode {
    match m {
        RebaseMode::Merge => pull::Mode::Merge,
        RebaseMode::Linear => pull::Mode::Rebase,
        RebaseMode::Interactive => pull::Mode::Interactive,
        RebaseMode::Merges => pull::Mode::RebaseMerges,
    }
}

impl From<RebaseMode> for pull::Mode {
    fn from(mode: RebaseMode) -> (r: pull::Mode) {
        match mode {
            RebaseMode::Merge => pull::Mode::Merge,
            RebaseMode::Linear => pull::Mode::Rebase,
            RebaseMode::Interactive => pull::Mode::Interactive,
            RebaseMode::Merges => pull::Mode::RebaseMerges,
        }
    }
}

impl vstd::std_specs::convert::FromSpecImpl<RebaseMode> for pull::Mode {
    open spec fn obeys_from_spec() -> bool {
        true
    }

    open spec fn from_spec(v: RebaseMode) -> pull::Mode {
        pull_mode_of(v)
    }
}

/// The pull options of the flags: `--ff-only` and `--no-ff` exclusive;
/// no `--rebase` with `--no-rebase`; no `--squash` with `--no-ff`.
pub open spec fn pull_options(a: PullArgs) -> Result<pull::Options, Error> {
    if count_set(seq![a.ff_only, a.no_ff]) > 1 {
        Err(Error::Exclusive { flags: "--ff-only / --no-ff" })
    } else if a.rebase is Some && a.no_rebase {
        Err(Error::Usage { text: "--rebase 与 --no-rebase 不能组合" })
    } else if a.squash && a.no_ff {
        Err(Error::Usage { text: "--squash 与 --no-ff 不能组合" })
    } else {
        Ok(
            pull::Options {
                remote: a.remote,
                branch: a.branch,
                mode: if a.no_rebase {
                    Some(pull::Mode::Merge)
                } else {
                    match a.rebase {
                        Some(m) => Some(pull_mode_of(m)),
                        None => None,
                    }
                },
                ff: fast_forward_of(a.ff_only, a.no_ff),
                finish: finish_of(a.squash, a.no_commit),
                detailed: a.explain_reasons,
            },
        )
    }
}

impl TryFrom<PullArgs> for pull::Options {
    type Error = Error;

    fn try_from(args: PullArgs) -> (r: Result<pull::Options, Error>) {
        assert(seq![args.ff_only, args.no_ff] =~= [args.ff_only, args.no_ff]@);
        match exclusive(&[args.ff_only, args.no_ff], "--ff-only / --no-ff") {
            Err(e) => return Err(e),
            Ok(()) => {},
        }
        if args.rebase.is_some() && args.no_rebase {
            return Err(Error::Usage { text: "--rebase 与 --no-rebase 不能组合" });
        }
        if args.squash && args.no_ff {
            return Err(Error::Usage { text: "--squash 与 --no-ff 不能组合" });
        }
        let mode = if args.no_rebase {
            Some(pull::Mode::Merge)
        } else {
            match args.rebase {
                Some(m) => Some(pull::Mode::from(m)),
                None => None,
            }
        };
        Ok(
            pull::Options {
                remote: args.remote,
                branch: args.branch,
                mode,
                ff: fast_forward(args.ff_only, args.no_ff),
                finish: finish(args.squash, args.no_commit),
                detailed: args.explain_reasons,
            },
        )
    }
}

impl vstd::std_specs::convert::TryFromSpecImpl<PullArgs> for pull::Options {
    open spec fn obeys_try_from_spec() -> bool {
        true
    }

    open spec fn try_from_spec(v: PullArgs) -> Result<pull::Options, Error> {
        pull_options(v)
    }
}

// ---------------------------------------------------------------------------
// stash
// ---------------------------------------------------------------------------

pub open spec fn stash_prefix() -> Seq<char> {
    seq!['s', 't', 'a', 's', 'h', '@', '{']
}

/// `stash@{n}` with `n` one or more ASCII digits.
pub open spec fn is_stash_entry(s: Seq<char>) -> bool {
    &&& s.len() >= 9
    &&& s.take(7) == stash_prefix()
    &&& s.last() == '}'
    &&& forall|i: int| 7 <= i < s.len() - 1 ==> '0' <= #[trigger] s[i] <= '9'
}

pub fn stash_entry(s: &str) -> (r: bool)
    ensures
        r == is_stash_entry(s@),
{
    let cs = crate::text::chars_of(s);
    let n = cs.len();
    if n < 9 {
        return false;
    }
    let prefix = ['s', 't', 'a', 's', 'h', '@', '{'];
    let ghost want = stash_prefix();
    assert(prefix@ =~= want);
    let mut i: usize = 0;
    while i < 7
        invariant
            i <= 7,
            n == cs@.len(),
            cs@ == s@,
            n >= 9,
            prefix@ == want,
            want == stash_prefix(),
            forall|k: int| 0 <= k < i ==> cs@[k] == want[k],
        decreases 7 - i,
    {
        if cs[i] != prefix[i] {
            assert(s@.take(7)[i as int] != want[i as int]);
            return false;
        }
        i += 1;
    }
    assert(s@.take(7) =~= want);
    if cs[n - 1] != '}' {
        return false;
    }
    let mut j: usize = 7;
    while j < n - 1
        invariant
            7 <= j <= n - 1,
            n == cs@.len(),
            cs@ == s@,
            forall|k: int| 7 <= k < j ==> '0' <= #[trigger] cs@[k] <= '9',
        decreases n - 1 - j,
    {
        if !('0' <= cs[j] && cs[j] <= '9') {
            assert(!('0' <= s@[j as int] <= '9'));
            return false;
        }
        j += 1;
    }
    true
}

/// The stash options of the request: `pop` only names a fixed `stash@{n}`.
pub open spec fn stash_options(a: StashArgs) -> Result<stash::Options, Error> {
    let (o, action) = match a.action {
        StashAction::Apply(o) => (o, stash::Action::Apply),
        StashAction::Pop(o) => (o, stash::Action::Pop),
    };
    if action == stash::Action::Pop && !is_stash_entry(o.stash@) {
        Err(Error::Usage { text: "stash pop 请使用 stash@{n}，以便固定并校验将删除的条目" })
    } else {
        Ok(stash::Options { stash: o.stash, index: o.index, detailed: o.explain_reasons, action })
    }
}

impl TryFrom<StashArgs> for stash::Options {
    type Error = Error;

    fn try_from(args: StashArgs) -> (r: Result<stash::Options, Error>) {
        let (options, action) = match args.action {
            StashAction::Apply(options) => (options, stash::Action::Apply),
            StashAction::Pop(options) => (options, stash::Action::Pop),
        };
        if action == stash::Action::Pop && !stash_entry(options.stash.as_str()) {
            return Err(Error::Usage { text: "stash pop 请使用 stash@{n}，以便固定并校验将删除的条目" });
        }
        Ok(stash::Options { stash: options.stash, index: options.index, detailed: options.explain_reasons, action })
    }
}

impl vstd::std_specs::convert::TryFromSpecImpl<StashArgs> for stash::Options {
    open spec fn obeys_try_from_spec() -> bool {
        true
    }

    open spec fn try_from_spec(v: StashArgs) -> Result<stash::Options, Error> {
        stash_options(v)
    }
}

} // verus!
