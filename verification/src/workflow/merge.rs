//! A guarded `git merge`: the request and the command it runs.
use vstd::prelude::*;
use vstd::string::StringExecFns;
use crate::text::string_views;

verus! {

/// Start a new merge, or hand a running one back to Git.
#[derive(Debug)]
pub enum Request {
    Start(Options),
    Resume(Action),
}

#[derive(Debug, Clone, Copy, PartialEq, Eq, Structural)]
pub enum Action {
    Continue,
    Abort,
    Quit,
}

#[derive(Debug, Clone, Copy, PartialEq, Eq, Structural)]
pub enum FastForward {
    Allow,
    Never,
    Only,
}

#[derive(Debug, Clone, Copy, PartialEq, Eq, Structural)]
pub enum Finish {
    Commit,
    NoCommit,
    Squash,
}

#[derive(Debug)]
pub struct Options {
    pub target: Option<String>,
    pub ff: FastForward,
    pub finish: Finish,
    pub edit: bool,
    pub message: Option<String>,
    pub detailed: bool,
}

pub open spec fn resume_flag_of(a: Action) -> Seq<char> {
    match a {
        Action::Continue => "--continue"@,
        Action::Abort => "--abort"@,
        Action::Quit => "--quit"@,
    }
}

/// The flag that hands a running merge back to Git.
pub fn resume_flag(action: Action) -> (r: &'static str)
    ensures
        r@ == resume_flag_of(action),
{
    match action {
        Action::Continue => "--continue",
        Action::Abort => "--abort",
        Action::Quit => "--quit",
    }
}

pub open spec fn ff_flag(ff: FastForward) -> Seq<char> {
    match ff {
        FastForward::Only => "--ff-only"@,
        FastForward::Never => "--no-ff"@,
        FastForward::Allow => "--ff"@,
    }
}

pub open spec fn finish_flags(f: Finish) -> Seq<Seq<char>> {
    match f {
        Finish::Squash => seq!["--squash"@],
        Finish::Commit => seq!["--no-squash"@, "--commit"@],
        Finish::NoCommit => seq!["--no-squash"@, "--no-commit"@],
    }
}

/// The arguments of the guarded `git merge`: the branch's own merge options
/// cleared, no autostash, the ort strategy, the requested fast-forward,
/// finish and edit behaviour, the message, then the target.
pub open spec fn merge_arguments_of(o: Options, branch: Option<Seq<char>>, theirs: Seq<char>) -> Seq<Seq<char>> {
    let cleared = match branch {
        Some(b) => seq!["-c"@, "branch."@ + b + ".mergeOptions="@],
        None => seq![],
    };
    let message = match o.message {
        Some(m) => seq!["--message"@, m@],
        None => seq![],
    };
    cleared + seq!["-c"@, "merge.autoStash=false"@, "merge"@, "--strategy=ort"@, "--no-autostash"@]
        + seq![ff_flag(o.ff)] + finish_flags(o.finish) + seq![if o.edit {
        "--edit"@
    } else {
        "--no-edit"@
    }] + message + seq!["--"@, theirs]
}

fn push_str(v: &mut Vec<String>, s: &str)
    ensures
        string_views(final(v)@) == string_views(old(v)@).push(s@),
{
    v.push(String::from_str(s));
    assert(string_views(v@) =~= string_views(old(v)@).push(s@));
}

pub fn merge_arguments(options: &Options, branch: Option<&str>, theirs: &str) -> (r: Vec<String>)
    ensures
        string_views(r@) == merge_arguments_of(*options, match branch {
            Some(b) => Some(b@),
            None => None,
        }, theirs@),
{
    let mut v: Vec<String> = Vec::new();
    assert(string_views(v@) =~= Seq::<Seq<char>>::empty());
    match branch {
        Some(b) => {
            push_str(&mut v, "-c");
            let mut s = String::from_str("branch.");
            s.append(b);
            s.append(".mergeOptions=");
            let ghost before = string_views(v@);
            v.push(s);
            assert(string_views(v@) =~= before.push("branch."@ + b@ + ".mergeOptions="@));
        },
        None => {},
    }
    let ghost start = string_views(v@);
    push_str(&mut v, "-c");
    push_str(&mut v, "merge.autoStash=false");
    push_str(&mut v, "merge");
    push_str(&mut v, "--strategy=ort");
    push_str(&mut v, "--no-autostash");
    push_str(
        &mut v,
        match options.ff {
            FastForward::Only => "--ff-only",
            FastForward::Never => "--no-ff",
            FastForward::Allow => "--ff",
        },
    );
    match options.finish {
        Finish::Squash => {
            push_str(&mut v, "--squash");
        },
        Finish::Commit => {
            push_str(&mut v, "--no-squash");
            push_str(&mut v, "--commit");
        },
        Finish::NoCommit => {
            push_str(&mut v, "--no-squash");
            push_str(&mut v, "--no-commit");
        },
    }
    push_str(&mut v, if options.edit { "--edit" } else { "--no-edit" });
    match &options.message {
        Some(m) => {
            push_str(&mut v, "--message");
            let ghost before = string_views(v@);
            v.push(m.clone());
            assert(string_views(v@) =~= before.push(m@));
        },
        None => {},
    }
    push_str(&mut v, "--");
    push_str(&mut v, theirs);
    assert(string_views(v@) =~= merge_arguments_of(*options, match branch {
        Some(b) => Some(b@),
        None => None,
    }, theirs@));
    v
}

} // verus!
