//! A guarded rebase: Git's sequencer replays; each replay step is checked first.
use vstd::prelude::*;
use vstd::string::StringExecFns;
use crate::error::Error;
use crate::text::{string_views, words, words_of};

pub mod todo;
pub mod state;

verus! {

#[derive(Debug)]
pub enum Request {
    Start(Options),
    Resume(Action),
}

#[derive(Debug, Clone, Copy, PartialEq, Eq, Structural)]
pub enum Action {
    Continue,
    Abort,
    Skip,
    Quit,
    EditTodo,
    ShowCurrentPatch,
}

#[derive(Debug)]
pub enum Upstream {
    Root,
    Revision(Option<String>),
}

#[derive(Debug)]
pub struct Options {
    pub upstream: Upstream,
    pub branch: Option<String>,
    pub onto: Option<String>,
    pub interactive: bool,
    pub rebase_merges: bool,
    pub detailed: bool,
}

/// The sequencer settings of every guarded rebase.
pub open spec fn sequencer_settings() -> Seq<Seq<char>> {
    seq![
        "-c"@,
        "rebase.abbreviateCommands=false"@,
        "-c"@,
        "rebase.instructionFormat=%s"@,
        "-c"@,
        "rebase.autoSquash=false"@,
        "-c"@,
        "rebase.autoStash=false"@,
        "-c"@,
        "rebase.updateRefs=false"@,
        "rebase"@,
    ]
}

/// The fixed flags of a new guarded rebase: interactive (for the guards),
/// the merge backend and ort, no autostash or autosquash, failed checks
/// rescheduled, every commit replayed.
pub open spec fn start_flags() -> Seq<Seq<char>> {
    seq![
        "--interactive"@,
        "--merge"@,
        "--strategy=ort"@,
        "--no-autostash"@,
        "--no-autosquash"@,
        "--no-update-refs"@,
        "--reschedule-failed-exec"@,
        "--no-fork-point"@,
        "--reapply-cherry-picks"@,
        "--empty=keep"@,
        "--keep-empty"@,
        "--force-rebase"@,
    ]
}

fn push_all(v: &mut Vec<String>, items: &[&str])
    ensures
        string_views(final(v)@) == string_views(old(v)@) + crate::workflow::str_views(items@),
{
    let mut i: usize = 0;
    while i < items.len()
        invariant
            i <= items.len(),
            string_views(v@) == string_views(old(v)@) + crate::workflow::str_views(items@.take(i as int)),
        decreases items.len() - i,
    {
        let ghost before = string_views(v@);
        v.push(String::from_str(items[i]));
        assert(crate::workflow::str_views(items@.take(i + 1)) =~= crate::workflow::str_views(items@.take(i as int)).push(items@[i as int]@));
        assert(string_views(v@) =~= before.push(items@[i as int]@));
        i += 1;
    }
    assert(items@.take(items.len() as int) =~= items@);
}

pub fn sequencer_arguments() -> (r: Vec<String>)
    ensures
        string_views(r@) == sequencer_settings(),
{
    let mut v: Vec<String> = Vec::new();
    let items = [
        "-c",
        "rebase.abbreviateCommands=false",
        "-c",
        "rebase.instructionFormat=%s",
        "-c",
        "rebase.autoSquash=false",
        "-c",
        "rebase.autoStash=false",
        "-c",
        "rebase.updateRefs=false",
        "rebase",
    ];
    assert(string_views(v@) =~= Seq::<Seq<char>>::empty());
    push_all(&mut v, &items);
    assert(crate::workflow::str_views(items@) =~= sequencer_settings());
    v
}

/// The arguments after the sequencer settings for a new rebase: the fixed
/// flags, merges kept or not, `--onto`, `--root`, then the upstream and
/// branch.
pub open spec fn start_arguments_of(o: Options, upstream: Option<Seq<char>>, onto: Option<Seq<char>>) -> Seq<Seq<char>> {
    start_flags() + seq![if o.rebase_merges {
        "--rebase-merges"@
    } else {
        "--no-rebase-merges"@
    }] + (match onto {
        Some(x) => seq!["--onto"@, x],
        None => seq![],
    }) + (if o.upstream is Root {
        seq!["--root"@]
    } else {
        seq![]
    }) + seq!["--"@] + (match upstream {
        Some(u) => seq![u],
        None => seq![],
    }) + (match o.branch {
        Some(b) => seq![b@],
        None => seq![],
    })
}

pub fn start_arguments(options: &Options, upstream: Option<&str>, onto: Option<&str>) -> (r: Vec<String>)
    ensures
        string_views(r@) == start_arguments_of(*options, crate::operation::rebase::opt_str(upstream), crate::operation::rebase::opt_str(onto)),
{
    let mut v: Vec<String> = Vec::new();
    let items = [
        "--interactive",
        "--merge",
        "--strategy=ort",
        "--no-autostash",
        "--no-autosquash",
        "--no-update-refs",
        "--reschedule-failed-exec",
        "--no-fork-point",
        "--reapply-cherry-picks",
        "--empty=keep",
        "--keep-empty",
        "--force-rebase",
    ];
    assert(string_views(v@) =~= Seq::<Seq<char>>::empty());
    push_all(&mut v, &items);
    assert(crate::workflow::str_views(items@) =~= start_flags());
    v.push(String::from_str(if options.rebase_merges { "--rebase-merges" } else { "--no-rebase-merges" }));
    match onto {
        Some(x) => {
            v.push(String::from_str("--onto"));
            v.push(String::from_str(x));
        },
        None => {},
    }
    match options.upstream {
        Upstream::Root => {
            v.push(String::from_str("--root"));
        },
        _ => {},
    }
    v.push(String::from_str("--"));
    match upstream {
        Some(u) => {
            v.push(String::from_str(u));
        },
        None => {},
    }
    match &options.branch {
        Some(b) => {
            v.push(b.clone());
        },
        None => {},
    }
    assert(string_views(v@) =~= start_arguments_of(*options, crate::operation::rebase::opt_str(upstream), crate::operation::rebase::opt_str(onto)));
    v
}

/// The flag that hands a running rebase on to Git; a skip of a step that a
/// guard blocked becomes a continue after the step is dropped from the list.
pub open spec fn resume_flag_of(a: Action, skipping_blocked: bool) -> Seq<char> {
    match a {
        Action::Abort => "--abort"@,
        Action::Quit => "--quit"@,
        Action::EditTodo => "--edit-todo"@,
        Action::ShowCurrentPatch => "--show-current-patch"@,
        Action::Skip => if skipping_blocked {
            "--continue"@
        } else {
            "--skip"@
        },
        Action::Continue => "--continue"@,
    }
}

pub fn resume_flag(action: Action, skipping_blocked: bool) -> (r: &'static str)
    ensures
        r@ == resume_flag_of(action, skipping_blocked),
{
    match action {
        Action::Abort => "--abort",
        Action::Quit => "--quit",
        Action::EditTodo => "--edit-todo",
        Action::ShowCurrentPatch => "--show-current-patch",
        Action::Skip => if skipping_blocked {
            "--continue"
        } else {
            "--skip"
        },
        Action::Continue => "--continue",
    }
}

/// The base of a replayed pick, from `rev-list --parents -n 1` (the commit
/// itself first): its parent, or the empty tree for a root commit; a merge
/// commit cannot be picked.
pub fn pick_base(parents: &str) -> (r: Result<Option<String>, Error>)
    ensures
        match r {
            Ok(None) => words_of(parents@).len() <= 1,
            Ok(Some(p)) => words_of(parents@).len() == 2 && p@ == words_of(parents@)[1],
            Err(e) => words_of(parents@).len() > 2 && e == Error::Usage {
                text: "不能把 merge commit 当作普通 pick；请使用 --rebase-merges",
            },
        },
{
    let w = words(parents);
    if w.len() <= 1 {
        Ok(None)
    } else if w.len() == 2 {
        assert(string_views(w@)[1] == w@[1]@);
        Ok(Some(w[1].clone()))
    } else {
        Err(Error::Usage { text: "不能把 merge commit 当作普通 pick；请使用 --rebase-merges" })
    }
}

} // verus!
