//! The guarded rebase's own state; Git owns the sequencer state.
use vstd::prelude::*;
use vstd::string::StringExecFns;
use crate::error::Error;
use crate::text::is_prefix;

verus! {

/// What the sequencer callbacks need, saved while a guarded rebase runs.
#[derive(Debug)]
pub struct State {
    pub git_dir: String,
    /// This rebase's folder of reports, under the Git directory's strict-weave folder.
    pub directory: String,
    pub executable: String,
    /// The user's sequence editor, for an interactive rebase.
    pub editor: Option<String>,
    pub detailed: bool,
}

/// `dir` joined with a relative `name`.
pub open spec fn joined(dir: Seq<char>, name: Seq<char>) -> Seq<char> {
    if dir.len() > 0 && dir.last() == '/' {
        dir + name
    } else {
        dir + seq!['/'] + name
    }
}

pub fn join(dir: &str, name: &str) -> (r: String)
    ensures
        r@ == joined(dir@, name@),
{
    let cs = crate::text::chars_of(dir);
    let mut s = String::from_str(dir);
    if !(cs.len() > 0 && cs[cs.len() - 1] == '/') {
        crate::text::push_char(&mut s, '/');
    }
    s.append(name);
    s
}

/// Where the state is saved in a Git directory.
pub fn state_path(git_dir: &str) -> (r: String)
    ensures
        r@ == joined(git_dir@, "strict-weave/rebase.json"@),
{
    join(git_dir, "strict-weave/rebase.json")
}

/// `p` is `dir` or lies under it.
pub open spec fn within(p: Seq<char>, dir: Seq<char>) -> bool {
    p == dir || is_prefix(joined(dir, seq![]), p)
}

/// A saved state belongs to this Git directory, and its folder to this
/// tool's folder there.
pub fn check_state(state: &State, git_dir: &str) -> (r: Result<(), Error>)
    ensures
        r == if state.git_dir@ == git_dir@ && within(state.directory@, joined(git_dir@, "strict-weave"@)) {
            Ok::<(), Error>(())
        } else {
            Err(Error::Usage { text: "rebase 状态与当前仓库不匹配" })
        },
{
    let root = join(git_dir, "strict-weave");
    let under = join(root.as_str(), "");
    let inside = state.directory == root || crate::text::starts_with(state.directory.as_str(), under.as_str());
    proof {
        reveal_strlit("");
        assert(""@ =~= Seq::<char>::empty());
    }
    if state.git_dir == String::from_str(git_dir) && inside {
        Ok(())
    } else {
        Err(Error::Usage { text: "rebase 状态与当前仓库不匹配" })
    }
}

impl State {
    /// The file that names the step a guard blocked.
    pub fn blocked_path(&self) -> (r: String)
        ensures
            r@ == joined(self.directory@, "blocked"@),
    {
        join(self.directory.as_str(), "blocked")
    }

    /// The report that the merge driver reads during the current step.
    pub fn active_path(&self) -> (r: String)
        ensures
            r@ == joined(self.directory@, "active.json"@),
    {
        join(self.directory.as_str(), "active.json")
    }

    /// Whether the state is removed when a Git run ends: only where Git kept
    /// no rebase of its own. The run's result is passed on unchanged.
    pub fn finish(&self, merge_dir: bool, apply_dir: bool) -> (r: bool)
        ensures
            r == (!merge_dir && !apply_dir),
    {
        !merge_dir && !apply_dir
    }
}

} // verus!
