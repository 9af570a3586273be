//! A guarded `git pull`: fetch one remote branch, then merge or rebase.
use vstd::prelude::*;
use vstd::string::StringExecFns;
use crate::error::Error;
use crate::text::string_views;
use crate::workflow::merge::{FastForward, Finish};

verus! {

#[derive(Debug, Clone, Copy, PartialEq, Eq, Structural)]
pub enum Mode {
    Merge,
    Rebase,
    Interactive,
    RebaseMerges,
}

#[derive(Debug)]
pub struct Options {
    pub remote: Option<String>,
    pub branch: Option<String>,
    pub mode: Option<Mode>,
    pub ff: FastForward,
    pub finish: Finish,
    pub detailed: bool,
}

/// The rebase mode that the configuration gives: the branch's
/// `branch.<name>.rebase`, else `pull.rebase`, else false.
pub open spec fn configured_value(branch_value: Option<Seq<char>>, pull_value: Option<Seq<char>>) -> Seq<char> {
    match branch_value {
        Some(v) => v,
        None => match pull_value {
            Some(v) => v,
            None => "false"@,
        },
    }
}

pub open spec fn mode_of_value(v: Seq<char>) -> Option<Mode> {
    if v == "true"@ {
        Some(Mode::Rebase)
    } else if v == "false"@ {
        Some(Mode::Merge)
    } else if v == "interactive"@ {
        Some(Mode::Interactive)
    } else if v == "merges"@ {
        Some(Mode::RebaseMerges)
    } else {
        None
    }
}

pub fn configured_mode(branch_value: Option<String>, pull_value: Option<String>) -> (r: Result<Mode, Error>)
    ensures
        match mode_of_value(configured_value(crate::workflow::opt_view(branch_value), crate::workflow::opt_view(pull_value))) {
            Some(m) => r == Ok::<Mode, Error>(m),
            None => r matches Err(Error::PullRebaseValue { setting }) && setting@ == configured_value(
                crate::workflow::opt_view(branch_value),
                crate::workflow::opt_view(pull_value),
            ),
        },
{
    let value = match branch_value {
        Some(v) => v,
        None => match pull_value {
            Some(v) => v,
            None => String::from_str("false"),
        },
    };
    if value == String::from_str("true") {
        Ok(Mode::Rebase)
    } else if value == String::from_str("false") {
        Ok(Mode::Merge)
    } else if value == String::from_str("interactive") {
        Ok(Mode::Interactive)
    } else if value == String::from_str("merges") {
        Ok(Mode::RebaseMerges)
    } else {
        Err(Error::PullRebaseValue { setting: value })
    }
}

/// One remote branch or ref: no refspec, glob, second line or option.
pub open spec fn single_ref(b: Seq<char>) -> bool {
    !b.contains(':') && !b.contains('*') && !b.contains('\n') && !(b.len() > 0 && b[0] == '-')
}

pub fn check_branch(branch: &str) -> (r: Result<(), Error>)
    ensures
        r == if single_ref(branch@) {
            Ok::<(), Error>(())
        } else {
            Err(Error::Usage { text: "pull 只支持单个远端 branch/ref" })
        },
{
    let cs = crate::text::chars_of(branch);
    let mut i: usize = 0;
    while i < cs.len()
        invariant
            i <= cs.len(),
            cs@ == branch@,
            forall|k: int| 0 <= k < i ==> cs@[k] != ':' && cs@[k] != '*' && cs@[k] != '\n',
        decreases cs.len() - i,
    {
        if cs[i] == ':' || cs[i] == '*' || cs[i] == '\n' {
            assert(cs@.contains(cs@[i as int]));
            return Err(Error::Usage { text: "pull 只支持单个远端 branch/ref" });
        }
        i += 1;
    }
    if cs.len() > 0 && cs[0] == '-' {
        return Err(Error::Usage { text: "pull 只支持单个远端 branch/ref" });
    }
    Ok(())
}

/// A rebase pull cannot take merge-only options.
pub fn check_mode_options(mode: Mode, ff: FastForward, finish: Finish) -> (r: Result<(), Error>)
    ensures
        r == if mode != Mode::Merge && (ff == FastForward::Never || finish != Finish::Commit) {
            Err::<(), Error>(Error::Usage { text: "rebase 模式不能使用 merge 专用选项" })
        } else {
            Ok(())
        },
{
    if mode != Mode::Merge && (ff == FastForward::Never || finish != Finish::Commit) {
        Err(Error::Usage { text: "rebase 模式不能使用 merge 专用选项" })
    } else {
        Ok(())
    }
}

/// Whether the fetched branch is merged (else rebased onto).
pub fn merges_fetched(mode: Mode, ff: FastForward) -> (r: bool)
    ensures
        r == (mode == Mode::Merge || ff == FastForward::Only),
{
    mode == Mode::Merge || ff == FastForward::Only
}

/// The arguments of the fetch of one remote branch.
pub fn fetch_arguments(remote: &str, branch: &str) -> (r: Vec<String>)
    ensures
        string_views(r@) == seq!["fetch"@, "--no-tags"@, "--no-recurse-submodules"@, "--"@, remote@, branch@],
{
    let v = vec![
        String::from_str("fetch"),
        String::from_str("--no-tags"),
        String::from_str("--no-recurse-submodules"),
        String::from_str("--"),
        String::from_str(remote),
        String::from_str(branch),
    ];
    assert(string_views(v@) =~= seq!["fetch"@, "--no-tags"@, "--no-recurse-submodules"@, "--"@, remote@, branch@]);
    v
}

} // verus!
