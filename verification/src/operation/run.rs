//! The decisions of merge, cherry-pick, stash and rebase runs between their
//! Git commands: which revisions form the three trees, and what to run.
use vstd::prelude::*;
use vstd::string::StringExecFns;
use crate::error::Error;
use crate::operation::OperationKind;
use crate::text::{lines_of, string_views, words, words_of};

verus! {

/// The base of a cherry-pick: the only parent in `rev-list --parents -n 1`.
pub fn cherry_pick_base(parents: &str) -> (r: Result<String, Error>)
    ensures
        match r {
            Ok(b) => words_of(parents@).len() == 2 && b@ == words_of(parents@)[1],
            Err(e) => words_of(parents@).len() != 2 && e == Error::Usage {
                text: "cherry-pick 仅支持恰好一个 parent 的 commit",
            },
        },
{
    let w = words(parents);
    if w.len() != 2 {
        return Err(Error::Usage { text: "cherry-pick 仅支持恰好一个 parent 的 commit" });
    }
    assert(string_views(w@)[1] == w@[1]@);
    Ok(w[1].clone())
}

/// The base and index parents of a stash without untracked files.
pub fn stash_parents(parents: &str) -> (r: Result<(String, String), Error>)
    ensures
        match r {
            Ok((b, i)) => words_of(parents@).len() == 3 && b@ == words_of(parents@)[1] && i@ == words_of(parents@)[2],
            Err(e) => words_of(parents@).len() != 3 && e == Error::Usage {
                text: "当前阶段不支持包含未跟踪文件的 stash",
            },
        },
{
    let w = words(parents);
    if w.len() != 3 {
        return Err(Error::Usage { text: "当前阶段不支持包含未跟踪文件的 stash" });
    }
    assert(string_views(w@)[1] == w@[1]@ && string_views(w@)[2] == w@[2]@);
    Ok((w[1].clone(), w[2].clone()))
}

/// A stash whose index differs from its base cannot be applied here.
pub fn check_stash_index(index_tree: &str, base_tree: &str) -> (r: Result<(), Error>)
    ensures
        r == if index_tree@ == base_tree@ {
            Ok::<(), Error>(())
        } else {
            Err(Error::Usage { text: "当前阶段不支持 stash 的独立 index 修改；请使用原生 Git" })
        },
{
    if String::from_str(index_tree) == String::from_str(base_tree) {
        Ok(())
    } else {
        Err(Error::Usage { text: "当前阶段不支持 stash 的独立 index 修改；请使用原生 Git" })
    }
}

/// The merge base, where `merge-base --all` gives exactly one.
pub fn unique_base(bases: &str) -> (r: Result<String, Error>)
    ensures
        match r {
            Ok(b) => lines_of(bases@).len() == 1 && b@ == bases@,
            Err(e) => lines_of(bases@).len() != 1 && e == Error::Usage { text: "暂不支持无共同祖先或多个 merge-base" },
        },
{
    let ls = crate::text::lines(bases);
    if ls.len() != 1 {
        return Err(Error::Usage { text: "暂不支持无共同祖先或多个 merge-base" });
    }
    Ok(String::from_str(bases))
}

/// A commit to replay must have exactly one parent.
pub fn check_replay_parents(commit: &str, parents: &str) -> (r: Result<(), Error>)
    ensures
        match r {
            Ok(()) => words_of(parents@).len() == 2,
            Err(e) => words_of(parents@).len() != 2 && (e matches Error::NotSingleParent { commit: c } && c@ == commit@),
        },
{
    let w = words(parents);
    if w.len() != 2 {
        return Err(Error::NotSingleParent { commit: String::from_str(commit) });
    }
    Ok(())
}

/// What a planned merge or cherry-pick does after its plan is checked.
#[derive(Debug, Clone, Copy, PartialEq, Eq, Structural)]
pub enum Route {
    /// Already merged: nothing to do.
    Done,
    /// A fast-forward to the target.
    FastForward,
    /// Let Git apply, then install the strict outcome.
    Apply,
}

/// A merge of a target already in HEAD does nothing; one of a target that
/// contains HEAD fast-forwards; everything else is applied.
pub fn merge_route(kind: OperationKind, revisions: &[String; 3]) -> (r: Route)
    ensures
        r == if kind == OperationKind::Merge && revisions[0]@ == revisions[2]@ {
            Route::Done
        } else if kind == OperationKind::Merge && revisions[0]@ == revisions[1]@ {
            Route::FastForward
        } else {
            Route::Apply
        },
{
    if kind == OperationKind::Merge && revisions[0] == revisions[2] {
        Route::Done
    } else if kind == OperationKind::Merge && revisions[0] == revisions[1] {
        Route::FastForward
    } else {
        Route::Apply
    }
}

/// Git reached the expected state: success, or stopped with conflicts.
pub fn expected_exit(code: Option<i32>) -> (r: bool)
    ensures
        r == (code == Some(0i32) || code == Some(1i32)),
{
    match code {
        Some(c) => c == 0 || c == 1,
        None => false,
    }
}

/// The exit status of a plan-only run: 1 where the plan has conflicts.
pub fn plan_exit_code(conflicted: bool) -> (r: u8)
    ensures
        r == if conflicted {
            1u8
        } else {
            0u8
        },
{
    if conflicted {
        1
    } else {
        0
    }
}

/// What `git merge-tree --write-tree` reported: `Some(false)` for a clean
/// merge, `Some(true)` for conflicts, `None` where it failed.
pub fn merge_tree_conflicted(code: Option<i32>) -> (r: Option<bool>)
    ensures
        r == match code {
            Some(0i32) => Some(false),
            Some(1i32) => Some(true),
            _ => None::<bool>,
        },
{
    match code {
        Some(0) => Some(false),
        Some(1) => Some(true),
        _ => None,
    }
}

} // verus!
