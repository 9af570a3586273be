use strict_weave::error::Error;
use strict_weave::workflow::args::{
    MergeArgs, PullArgs, RebaseArgs, RebaseMode, StashAction, StashArgs, StashOptions,
};
use strict_weave::workflow::merge::{self, FastForward, Finish};
use strict_weave::workflow::rebase::todo::{editable, guard, guarded, instruction, skip_blocked, Instruction};
use strict_weave::workflow::rebase::{self, Upstream};
use strict_weave::workflow::{pull, shell_quote, stash};

fn merge_args() -> MergeArgs {
    MergeArgs {
        target: None,
        ff: false,
        no_ff: false,
        ff_only: false,
        squash: false,
        no_commit: false,
        commit: false,
        edit: false,
        no_edit: false,
        message: None,
        explain_reasons: false,
        continue_merge: false,
        abort: false,
        quit: false,
    }
}

fn rebase_args() -> RebaseArgs {
    RebaseArgs {
        upstream: None,
        branch: None,
        onto: None,
        root: false,
        interactive: false,
        rebase_merges: false,
        explain_reasons: false,
        continue_rebase: false,
        abort: false,
        skip: false,
        quit: false,
        edit_todo: false,
        show_current_patch: false,
    }
}

#[test]
fn merge_flags_of_one_group_are_exclusive() {
    let mut a = merge_args();
    a.ff = true;
    a.ff_only = true;
    let r: Result<merge::Request, Error> = a.try_into();
    assert!(matches!(r, Err(Error::Exclusive { flags: "--ff / --no-ff / --ff-only" })));
    assert_eq!(
        Error::Exclusive { flags: "--edit / --no-edit" }.message(),
        "互斥参数：--edit / --no-edit"
    );
}

#[test]
fn merge_squash_refuses_commit() {
    let mut a = merge_args();
    a.squash = true;
    a.commit = true;
    let r: Result<merge::Request, Error> = a.try_into();
    assert!(matches!(r, Err(Error::Usage { text: "--squash 不能与 --no-ff / --commit 组合" })));
}

#[test]
fn merge_resume_takes_no_new_flags() {
    let mut a = merge_args();
    a.abort = true;
    let r: Result<merge::Request, Error> = a.try_into();
    assert!(matches!(r, Ok(merge::Request::Resume(merge::Action::Abort))));
    let mut a = merge_args();
    a.continue_merge = true;
    a.target = Some("topic".into());
    let r: Result<merge::Request, Error> = a.try_into();
    assert!(matches!(r, Err(Error::Usage { .. })));
}

#[test]
fn merge_start_maps_flags() {
    let mut a = merge_args();
    a.ff_only = true;
    a.no_commit = true;
    a.message = Some("m".into());
    a.target = Some("topic".into());
    let r: Result<merge::Request, Error> = a.try_into();
    match r {
        Ok(merge::Request::Start(o)) => {
            assert_eq!(o.ff, FastForward::Only);
            assert_eq!(o.finish, Finish::NoCommit);
            assert_eq!(o.target.as_deref(), Some("topic"));
            assert_eq!(o.message.as_deref(), Some("m"));
            let args = merge::merge_arguments(&o, Some("main"), "abc");
            assert_eq!(
                args,
                vec![
                    "-c",
                    "branch.main.mergeOptions=",
                    "-c",
                    "merge.autoStash=false",
                    "merge",
                    "--strategy=ort",
                    "--no-autostash",
                    "--ff-only",
                    "--no-squash",
                    "--no-commit",
                    "--no-edit",
                    "--message",
                    "m",
                    "--",
                    "abc"
                ]
            );
        }
        _ => panic!("expected a new merge"),
    }
}

#[test]
fn rebase_root_refuses_upstream_and_actions_are_alone() {
    let mut a = rebase_args();
    a.root = true;
    a.upstream = Some("main".into());
    let r: Result<rebase::Request, Error> = a.try_into();
    assert!(matches!(r, Err(Error::Usage { text: "--root 不能同时指定 upstream" })));
    let mut a = rebase_args();
    a.skip = true;
    a.abort = true;
    let r: Result<rebase::Request, Error> = a.try_into();
    assert!(matches!(r, Err(Error::Exclusive { flags: "rebase 操作" })));
    let mut a = rebase_args();
    a.edit_todo = true;
    let r: Result<rebase::Request, Error> = a.try_into();
    assert!(matches!(r, Ok(rebase::Request::Resume(rebase::Action::EditTodo))));
    let mut a = rebase_args();
    a.root = true;
    let r: Result<rebase::Request, Error> = a.try_into();
    assert!(matches!(r, Ok(rebase::Request::Start(rebase::Options { upstream: Upstream::Root, .. }))));
}

#[test]
fn pull_modes_and_refusals() {
    let args = PullArgs {
        remote: None,
        branch: None,
        rebase: Some(RebaseMode::Merges),
        no_rebase: false,
        ff_only: false,
        no_ff: false,
        squash: false,
        no_commit: false,
        explain_reasons: true,
    };
    let o: pull::Options = args.try_into().unwrap();
    assert_eq!(o.mode, Some(pull::Mode::RebaseMerges));
    assert!(o.detailed);
    let args = PullArgs {
        remote: None,
        branch: None,
        rebase: Some(RebaseMode::Linear),
        no_rebase: true,
        ff_only: false,
        no_ff: false,
        squash: false,
        no_commit: false,
        explain_reasons: false,
    };
    let r: Result<pull::Options, Error> = args.try_into();
    assert!(matches!(r, Err(Error::Usage { text: "--rebase 与 --no-rebase 不能组合" })));
    assert_eq!(pull::configured_mode(None, Some("interactive".into())).unwrap(), pull::Mode::Interactive);
    assert_eq!(pull::configured_mode(None, None).unwrap(), pull::Mode::Merge);
    assert!(matches!(
        pull::configured_mode(Some("preserve".into()), None),
        Err(Error::PullRebaseValue { setting }) if setting == "preserve"
    ));
    assert!(pull::check_branch("main").is_ok());
    assert!(pull::check_branch("a:b").is_err());
    assert!(pull::check_branch("-x").is_err());
}

#[test]
fn stash_pop_needs_a_fixed_entry() {
    let pop = |s: &str| StashArgs {
        action: StashAction::Pop(StashOptions { stash: s.into(), index: false, explain_reasons: false }),
    };
    let r: Result<stash::Options, Error> = pop("stash@{12}").try_into();
    assert!(r.is_ok());
    for bad in ["stash@{}", "stash@{1x}", "main", "stash@{1"] {
        let r: Result<stash::Options, Error> = pop(bad).try_into();
        assert!(r.is_err(), "{bad}");
    }
    let apply = StashArgs {
        action: StashAction::Apply(StashOptions { stash: "main".into(), index: true, explain_reasons: false }),
    };
    let o: stash::Options = apply.try_into().unwrap();
    assert_eq!(o.action, stash::Action::Apply);
    assert_eq!(stash::stash_arguments(&o, "c0ffee"), vec!["stash", "apply", "--index", "c0ffee"]);
    assert_eq!(stash::stash_parents("s b i").unwrap(), vec!["b", "i"]);
    assert!(stash::stash_parents("s b").is_err());
}

#[test]
fn shell_quote_escapes_single_quotes() {
    assert_eq!(shell_quote("a'b"), "'a'\\''b'");
    assert_eq!(shell_quote(""), "''");
}

#[test]
fn todo_guards_replay_steps() {
    let todo = "pick abc123 one\n# comment\n\nlabel onto\n";
    let out = guarded("/bin/sw", todo).unwrap();
    assert_eq!(
        out,
        "exec '/bin/sw' rebase-check 'pick abc123 one'\npick abc123 one\n# comment\n\nlabel onto\n"
    );
    // Guarding again drops the old guards first.
    assert_eq!(guarded("/bin/sw", &out).unwrap(), out);
    assert_eq!(editable("/bin/sw", &out), "pick abc123 one\n# comment\n\nlabel onto\n");
    assert_eq!(guard("x", "pick 1"), "exec 'x' rebase-check 'pick 1'");
}

#[test]
fn todo_refuses_unsupported_steps() {
    assert!(matches!(
        guarded("x", "frobnicate 1\n"),
        Err(Error::UnsupportedTodo { command }) if command == "frobnicate"
    ));
    assert!(matches!(guarded("x", "pick nothex\n"), Err(Error::Usage { text: "rebase pick 必须使用 commit hash" })));
    assert!(matches!(instruction("merge -C abc topic"), Ok(Instruction::Merge(v)) if v == "topic"));
    assert!(matches!(instruction("pick -c abc12 x"), Ok(Instruction::Pick(v)) if v == "abc12"));
    assert!(matches!(
        instruction("merge a b"),
        Err(Error::Usage { text: "rebase merge 只支持单个目标；不支持 octopus 或自定义 merge 参数" })
    ));
    assert!(instruction("merge a # comment").is_ok());
    assert!(matches!(instruction("pick"), Err(Error::Usage { text: "rebase 指令缺少参数" })));
}

#[test]
fn skip_passes_over_the_blocked_step() {
    let line = "pick abc one";
    let todo = format!("{}\n{}\npick def two\n", guard("x", line), line);
    let rest = skip_blocked("x", &todo, line, |c: &str| Ok(c.to_string())).unwrap();
    assert_eq!(rest, "pick def two\n");
    let changed = format!("{}\npick abcdef one\nrest\n", guard("x", line));
    let rest = skip_blocked("x", &changed, line, |_c: &str| Ok("full".to_string())).unwrap();
    assert_eq!(rest, "rest\n");
    let other = format!("{}\npick abc two\n", guard("x", line));
    assert!(skip_blocked("x", &other, line, |c: &str| Ok(c.to_string())).is_err());
    assert!(skip_blocked("x", "pick abc one\n", line, |c: &str| Ok(c.to_string())).is_err());
}

use strict_weave::workflow::{check_idle, driver_setting, exit_code, merge_base};

#[test]
fn a_unique_merge_base_is_required() {
    assert_eq!(merge_base(Some("abc\n")).unwrap(), "abc");
    let refused = Error::Usage { text: "需要唯一 merge base；多 base/虚拟 base 和无共同历史暂不支持" };
    assert!(matches!(merge_base(Some("abc\ndef\n")), Err(e) if e.message() == refused.message()));
    assert!(matches!(merge_base(None), Err(e) if e.message() == refused.message()));
    assert!(matches!(merge_base(Some("")), Err(e) if e.message() == refused.message()));
}

#[test]
fn exit_codes_pass_through_or_signal() {
    assert_eq!(exit_code(Some(0)), 0);
    assert_eq!(exit_code(Some(1)), 1);
    assert_eq!(exit_code(Some(255)), 255);
    assert_eq!(exit_code(Some(256)), 129);
    assert_eq!(exit_code(Some(-1)), 129);
    assert_eq!(exit_code(None), 129);
}

#[test]
fn a_running_git_operation_is_named_first_found() {
    assert!(check_idle(&[false; 6]).is_ok());
    assert!(matches!(
        check_idle(&[false, true, false, true, false, false]),
        Err(Error::OperationRunning { name: "CHERRY_PICK_HEAD" })
    ));
    assert!(matches!(check_idle(&[false, false, false, false, false, true]), Err(Error::OperationRunning { name: "sequencer" })));
}

#[test]
fn the_driver_setting_quotes_the_executable() {
    assert_eq!(
        driver_setting("/opt/it's/sw"),
        "merge.strict-weave.driver='/opt/it'\\''s/sw' driver %O %A %B %P %L --ours-label %X --base-label %S --theirs-label %Y"
    );
}

#[test]
fn pull_modes_and_fetches() {
    assert!(pull::merges_fetched(pull::Mode::Merge, FastForward::Never));
    assert!(!pull::merges_fetched(pull::Mode::Rebase, FastForward::Allow));
    assert!(pull::check_mode_options(pull::Mode::Merge, FastForward::Never, Finish::Commit).is_ok());
    assert!(matches!(
        pull::check_mode_options(pull::Mode::Rebase, FastForward::Never, Finish::Commit),
        Err(Error::Usage { text: "rebase 模式不能使用 merge 专用选项" })
    ));
    assert_eq!(
        pull::fetch_arguments("origin", "main"),
        vec!["fetch", "--no-tags", "--no-recurse-submodules", "--", "origin", "main"]
    );
}

#[test]
fn a_replayed_commit_has_one_parent() {
    assert_eq!(rebase::pick_base("c1").unwrap(), None);
    assert_eq!(rebase::pick_base("c1 p1").unwrap(), Some("p1".to_string()));
    assert!(matches!(
        rebase::pick_base("c1 p1 p2"),
        Err(Error::Usage { text: "不能把 merge commit 当作普通 pick；请使用 --rebase-merges" })
    ));
    let args = rebase::sequencer_arguments();
    assert_eq!(args[0], "-c");
    assert_eq!(args[1], "rebase.abbreviateCommands=false");
    assert!(stash::stash_conflicted(false, false, true));
    assert!(!stash::stash_conflicted(false, false, false));
}
