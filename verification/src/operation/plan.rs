//! Analysis plans bound to a repository state, and conflict installation.
use vstd::prelude::*;
use vstd::string::StringExecFns;
use crate::analysis::global::{apply_file_analysis, applied_content, merged_moves, FileAnalysis, Report};
use crate::analysis::local::{collected_reasons, compact_of, line_views, lines_fit, merged_regions, prepared_wf, LineMerge, Prepared};
use crate::analysis::raw::opt_region_views;
use crate::error::Error;
use crate::merge::render::shown;
use crate::merge::{merge_with_style, ConflictStyle, Labels, LabelsView, Outcome};
use crate::operation::{kind_name, OperationKind, Options};
use crate::reason::order::{move_views, normalized};
use crate::reason::reason_views;

verus! {

pub const ARTIFACT_VERSION: u32 = 1;

/// A plan as saved: the operation, the repository state it was made in, and
/// the analysis of the three trees.
#[derive(Debug)]
pub struct Artifact {
    pub artifact_version: u32,
    pub operation: String,
    pub target: String,
    pub repository: String,
    pub revisions: [String; 3],
    pub head: String,
    pub index_sha256: String,
    pub report: Report,
}

pub open spec fn style_of(options: Options) -> ConflictStyle {
    if options.zdiff3 {
        ConflictStyle::Zdiff3
    } else {
        ConflictStyle::Diff3
    }
}

pub fn conflict_style(options: Options) -> (r: ConflictStyle)
    ensures
        r == style_of(options),
{
    if options.zdiff3 {
        ConflictStyle::Zdiff3
    } else {
        ConflictStyle::Diff3
    }
}

/// The marker labels of a plan: the base and ours revisions, and the label
/// of the target.
pub fn plan_labels(revisions: &[String; 3], label: &str) -> (r: Labels)
    ensures
        r@ == (LabelsView { base: revisions[0]@, ours: revisions[1]@, theirs: label@ }),
{
    Labels { base: revisions[0].clone(), ours: revisions[1].clone(), theirs: String::from_str(label) }
}

pub open spec fn same_three(a: [String; 3], b: [String; 3]) -> bool {
    a[0]@ == b[0]@ && a[1]@ == b[1]@ && a[2]@ == b[2]@
}

fn same_revisions(a: &[String; 3], b: &[String; 3]) -> (r: bool)
    ensures
        r == same_three(*a, *b),
{
    a[0] == b[0] && a[1] == b[1] && a[2] == b[2]
}

/// A report may only be applied to the trees it was made from, and only if
/// every reason and candidate in it is well formed.
pub fn check_loaded(report: &Report, trees: &[String; 3]) -> (r: Result<(), Error>)
    ensures
        !same_three(report.trees, *trees) ==> r == Err::<(), Error>(
            Error::Usage { text: "分析报告的 tree ID 与当前 Git 对象不匹配" },
        ),
        same_three(report.trees, *trees) ==> (r is Ok <==> crate::analysis::global::report_current(*report)
            && crate::analysis::global::report_structurally_valid(*report)),
        same_three(report.trees, *trees) && !crate::analysis::global::report_current(*report) ==> r == Err::<(), Error>(
            Error::ReportVersion,
        ),
        same_three(report.trees, *trees) && crate::analysis::global::report_current(*report) && r is Err ==> r
            == Err::<(), Error>(Error::InvalidReport),
{
    if !same_revisions(&report.trees, trees) {
        return Err(Error::Usage { text: "分析报告的 tree ID 与当前 Git 对象不匹配" });
    }
    report.validate()
}

/// Still the state the plan was made in: HEAD, index, repository and target
/// unchanged, checked in that order.
pub fn recheck(artifact: &Artifact, head: &str, index_sha256: &str, repository: &str, target: &str) -> (r: Result<
    (),
    Error,
>)
    ensures
        r == if artifact.head@ != head@ {
            Err::<(), Error>(Error::Usage { text: "分析期间 HEAD 已变化，拒绝执行" })
        } else if artifact.index_sha256@ != index_sha256@ {
            Err(Error::Usage { text: "分析期间 Git index 已变化，拒绝执行" })
        } else if artifact.repository@ != repository@ {
            Err(Error::Usage { text: "分析计划属于另一个仓库" })
        } else if artifact.revisions[2]@ != target@ {
            Err(Error::Usage { text: "分析计划的 target 已变化，拒绝执行" })
        } else {
            Ok(())
        },
{
    if artifact.head != String::from_str(head) {
        return Err(Error::Usage { text: "分析期间 HEAD 已变化，拒绝执行" });
    }
    if artifact.index_sha256 != String::from_str(index_sha256) {
        return Err(Error::Usage { text: "分析期间 Git index 已变化，拒绝执行" });
    }
    if artifact.repository != String::from_str(repository) {
        return Err(Error::Usage { text: "分析计划属于另一个仓库" });
    }
    if artifact.revisions[2] != String::from_str(target) {
        return Err(Error::Usage { text: "分析计划的 target 已变化，拒绝执行" });
    }
    Ok(())
}

/// A saved plan fits the operation at hand: same version, operation, target,
/// three revisions, repository, HEAD and index.
pub open spec fn artifact_accepted(
    artifact: Artifact,
    operation: OperationKind,
    target: Seq<char>,
    revisions: [String; 3],
    repository: Seq<char>,
    head: Seq<char>,
    index_sha256: Seq<char>,
) -> bool {
    &&& artifact.artifact_version == ARTIFACT_VERSION
    &&& artifact.operation@ == kind_name(operation)
    &&& artifact.target@ == target
    &&& same_three(artifact.revisions, revisions)
    &&& artifact.repository@ == repository
    &&& artifact.head@ == head
    &&& artifact.index_sha256@ == index_sha256
}

/// A plan is bound to the state it was made in: a saved plan is accepted
/// only where the operation, target, trees' revisions, repository, HEAD and
/// index are all what they were; a change to any of them refuses it.
pub proof fn law_plan_bound(
    artifact: Artifact,
    operation: OperationKind,
    target: Seq<char>,
    revisions: [String; 3],
    repository: Seq<char>,
    head: Seq<char>,
    index_sha256: Seq<char>,
)
    requires
        artifact_accepted(artifact, operation, target, revisions, repository, head, index_sha256),
    ensures
        artifact.head@ == head,
        artifact.index_sha256@ == index_sha256,
        artifact.repository@ == repository,
        artifact.target@ == target,
        forall|k: int| 0 <= k < 3 ==> #[trigger] artifact.revisions[k]@ == revisions[k]@,
        forall|h: Seq<char>| h != head ==> !artifact_accepted(artifact, operation, target, revisions, repository, h, index_sha256),
        forall|x: Seq<char>| x != index_sha256 ==> !artifact_accepted(artifact, operation, target, revisions, repository, head, x),
{
}

/// A saved plan may only be applied to the same operation, target and
/// revisions, in the same repository, HEAD and index.
pub fn check_artifact(
    artifact: &Artifact,
    operation: OperationKind,
    target: &str,
    revisions: &[String; 3],
    repository: &str,
    head: &str,
    index_sha256: &str,
) -> (r: Result<(), Error>)
    ensures
        r == if artifact.artifact_version != ARTIFACT_VERSION || artifact.operation@ != kind_name(operation)
            || artifact.target@ != target@ || !same_three(artifact.revisions, *revisions) {
            Err::<(), Error>(Error::Usage { text: "分析计划与当前操作不匹配；请重新执行 --plan" })
        } else if artifact.repository@ != repository@ || artifact.head@ != head@ || artifact.index_sha256@
            != index_sha256@ {
            Err(Error::Usage { text: "分析计划已过期；HEAD、index 或仓库路径发生变化" })
        } else {
            Ok(())
        },
        r is Ok <==> artifact_accepted(*artifact, operation, target@, *revisions, repository@, head@, index_sha256@),
{
    if artifact.artifact_version != ARTIFACT_VERSION || artifact.operation != String::from_str(operation.name())
        || artifact.target != String::from_str(target) || !same_revisions(&artifact.revisions, revisions) {
        return Err(Error::Usage { text: "分析计划与当前操作不匹配；请重新执行 --plan" });
    }
    if artifact.repository != String::from_str(repository) || artifact.head != String::from_str(head)
        || artifact.index_sha256 != String::from_str(index_sha256) {
        return Err(Error::Usage { text: "分析计划已过期；HEAD、index 或仓库路径发生变化" });
    }
    Ok(())
}

// ---------------------------------------------------------------------------
// Index stages of a conflicted path.
// ---------------------------------------------------------------------------

pub open spec fn zeros(n: nat) -> Seq<char>
    decreases n,
{
    if n == 0 {
        seq![]
    } else {
        zeros((n - 1) as nat).push('0')
    }
}

pub open spec fn stage_digit(k: int) -> char {
    if k == 0 {
        '1'
    } else if k == 1 {
        '2'
    } else {
        '3'
    }
}

/// The `update-index --index-info -z` record of one stage.
pub open spec fn stage_record(mode: Seq<char>, oid: Seq<char>, k: int, path: Seq<char>) -> Seq<char> {
    mode + seq![' '] + oid + seq![' ', stage_digit(k), '\t'] + path + seq!['\0']
}

/// The records that replace a path's stage 0 with its stages 1-3: a null
/// entry as long as `oid_len`, then each side's mode and object where the
/// path exists there.
pub open spec fn stage_text(path: Seq<char>, oid_len: nat, entries: [Option<(String, String)>; 3]) -> Seq<char> {
    let head = seq!['0', ' '] + zeros(oid_len) + seq!['\t'] + path + seq!['\0'];
    let one = |k: int|
        match entries[k] {
            Some((mode, oid)) => stage_record(mode@, oid@, k, path),
            None => seq![],
        };
    head + one(0) + one(1) + one(2)
}

fn append_chars(s: &mut String, cs: &[char])
    ensures
        final(s)@ == old(s)@ + cs@,
{
    let mut i: usize = 0;
    while i < cs.len()
        invariant
            i <= cs.len(),
            s@ == old(s)@ + cs@.take(i as int),
        decreases cs.len() - i,
    {
        crate::text::push_char(s, cs[i]);
        i += 1;
        assert(s@ =~= old(s)@ + cs@.take(i as int));
    }
    assert(cs@.take(cs.len() as int) =~= cs@);
}

fn stage_digit_char(k: usize) -> (c: char)
    requires
        k < 3,
    ensures
        c == stage_digit(k as int),
{
    if k == 0 {
        '1'
    } else if k == 1 {
        '2'
    } else {
        '3'
    }
}

/// The index records of a conflicted path.
pub fn stage_records(path: &str, oid_len: usize, entries: &[Option<(String, String)>; 3]) -> (r: String)
    ensures
        r@ == stage_text(path@, oid_len as nat, *entries),
{
    let mut s = String::new();
    append_chars(&mut s, &['0', ' ']);
    let mut i: usize = 0;
    while i < oid_len
        invariant
            i <= oid_len,
            s@ == seq!['0', ' '] + zeros(i as nat),
        decreases oid_len - i,
    {
        crate::text::push_char(&mut s, '0');
        i += 1;
        assert(s@ =~= seq!['0', ' '] + zeros(i as nat));
    }
    crate::text::push_char(&mut s, '\t');
    s.append(path);
    crate::text::push_char(&mut s, '\0');
    let ghost head = s@;
    assert(head =~= seq!['0', ' '] + zeros(oid_len as nat) + seq!['\t'] + path@ + seq!['\0']);
    let mut k: usize = 0;
    while k < 3
        invariant
            k <= 3,
            s@ == head + (if k >= 1 {
                match entries[0] {
                    Some((m, o)) => stage_record(m@, o@, 0, path@),
                    None => seq![],
                }
            } else {
                seq![]
            }) + (if k >= 2 {
                match entries[1] {
                    Some((m, o)) => stage_record(m@, o@, 1, path@),
                    None => seq![],
                }
            } else {
                seq![]
            }) + (if k >= 3 {
                match entries[2] {
                    Some((m, o)) => stage_record(m@, o@, 2, path@),
                    None => seq![],
                }
            } else {
                seq![]
            }),
        decreases 3 - k,
    {
        let ghost before = s@;
        match &entries[k] {
            Some((mode, oid)) => {
                s.append(mode.as_str());
                crate::text::push_char(&mut s, ' ');
                s.append(oid.as_str());
                crate::text::push_char(&mut s, ' ');
                crate::text::push_char(&mut s, stage_digit_char(k));
                crate::text::push_char(&mut s, '\t');
                s.append(path);
                crate::text::push_char(&mut s, '\0');
                assert(s@ =~= before + stage_record(mode@, oid@, k as int, path@));
            },
            None => {
                assert(s@ =~= before + Seq::<char>::empty());
            },
        }
        k += 1;
    }
    s
}

// ---------------------------------------------------------------------------
// One file of a plan.
// ---------------------------------------------------------------------------

/// A file's outcome in a plan: its strict merge (markers of width 7), with
/// the report's global findings for the file added.
pub fn file_outcome(
    prepared: Prepared,
    whole: LineMerge,
    lines: &Vec<Option<LineMerge>>,
    global: &FileAnalysis,
    labels: &Labels,
    style: ConflictStyle,
) -> (r: Outcome)
    requires
        lines_fit(prepared, line_views(lines@)),
        prepared_wf(prepared),
    ensures
        exists|local: Outcome|
            {
                &&& normalized(
                    collected_reasons(
                        reason_views(prepared.reasons@),
                        whole.conflict,
                        opt_region_views(prepared.regions),
                        line_views(lines@),
                    ),
                    reason_views(local.reasons@),
                )
                &&& local.content@ == shown(
                    whole.conflict,
                    prepared.weave_refused,
                    merged_regions(prepared.regions, line_views(lines@)),
                    prepared.partitions,
                    reason_views(local.reasons@),
                    whole.content@,
                    compact_of(prepared, whole.conflict, line_views(lines@), style),
                    (prepared.base@, prepared.ours@, prepared.theirs@),
                    labels@,
                    7,
                )
                &&& local.related_moves@.len() == 0
                &&& normalized(
                    reason_views(local.reasons@) + reason_views(global.reasons@),
                    reason_views(r.reasons@),
                )
                &&& move_views(r.related_moves@) == merged_moves(
                    move_views(local.related_moves@),
                    move_views(global.related_moves@),
                )
                &&& r.content@ == applied_content(
                    local.content@,
                    local.reasons@.len() > 0,
                    reason_views(r.reasons@),
                    move_views(r.related_moves@),
                    (prepared.base@, prepared.ours@, prepared.theirs@),
                    labels@,
                    7,
                )
            },
{
    let base = prepared.base.clone();
    let ours = prepared.ours.clone();
    let theirs = prepared.theirs.clone();
    let ghost pg = prepared;
    let mut outcome = merge_with_style(prepared, whole, lines, labels, 7, style);
    let ghost local = outcome;
    apply_file_analysis(&mut outcome, global, [base.as_str(), ours.as_str(), theirs.as_str()], labels, 7);
    outcome
}

} // verus!
