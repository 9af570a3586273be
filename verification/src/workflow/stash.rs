//! A guarded `git stash apply` or `pop`.
use vstd::prelude::*;
use vstd::string::StringExecFns;
use crate::error::Error;
use crate::text::{string_views, words, words_of};

verus! {

#[derive(Debug, Clone, Copy, PartialEq, Eq, Structural)]
pub enum Action {
    Apply,
    Pop,
}

#[derive(Debug)]
pub struct Options {
    pub stash: String,
    pub index: bool,
    pub detailed: bool,
    pub action: Action,
}

/// The parents of a stash commit (`rev-list --parents -n 1`, the commit
/// itself first): its base, its index, and its untracked files if any.
pub fn stash_parents(line: &str) -> (r: Result<Vec<String>, Error>)
    ensures
        match r {
            Ok(v) => 2 <= words_of(line@).len() - 1 <= 3 && string_views(v@) == words_of(line@).skip(1),
            Err(e) => !(2 <= words_of(line@).len() - 1 <= 3) && e == Error::Usage { text: "目标不是支持的 stash commit" },
        },
{
    let w = words(line);
    if w.len() < 3 || w.len() > 4 {
        return Err(Error::Usage { text: "目标不是支持的 stash commit" });
    }
    let mut v: Vec<String> = Vec::new();
    let mut i: usize = 1;
    while i < w.len()
        invariant
            1 <= i <= w.len(),
            string_views(v@) == string_views(w@).subrange(1, i as int),
        decreases w.len() - i,
    {
        let ghost before = string_views(v@);
        v.push(w[i].clone());
        assert(string_views(v@) =~= before.push(w@[i as int]@));
        assert(string_views(w@)[i as int] == w@[i as int]@);
        i += 1;
        assert(string_views(v@) =~= string_views(w@).subrange(1, i as int));
    }
    assert(string_views(w@).subrange(1, w.len() as int) =~= string_views(w@).skip(1));
    Ok(v)
}

/// Whether the pre-analysis found anything to review: in the worktree, the
/// index, or (with `--index`) the restored index.
pub fn stash_conflicted(work: bool, index: bool, restore: bool) -> (r: bool)
    ensures
        r == (work || index || restore),
{
    work || index || restore
}

/// The arguments of the guarded `git stash apply/pop`: `pop` names the entry
/// the user gave, `apply` the commit that was analyzed.
pub fn stash_arguments(options: &Options, commit: &str) -> (r: Vec<String>)
    ensures
        string_views(r@) == seq!["stash"@, if options.action == Action::Pop {
            "pop"@
        } else {
            "apply"@
        }] + (if options.index {
            seq!["--index"@]
        } else {
            seq![]
        }) + seq![if options.action == Action::Pop {
            options.stash@
        } else {
            commit@
        }],
{
    let pop = options.action == Action::Pop;
    let mut v: Vec<String> = Vec::new();
    v.push(String::from_str("stash"));
    v.push(String::from_str(if pop { "pop" } else { "apply" }));
    if options.index {
        v.push(String::from_str("--index"));
    }
    v.push(if pop { options.stash.clone() } else { String::from_str(commit) });
    assert(string_views(v@) =~= seq!["stash"@, if options.action == Action::Pop {
        "pop"@
    } else {
        "apply"@
    }] + (if options.index {
        seq!["--index"@]
    } else {
        seq![]
    }) + seq![if options.action == Action::Pop {
        options.stash@
    } else {
        commit@
    }]);
    v
}

} // verus!
