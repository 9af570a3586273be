//! Human-readable summaries and marker notes; no conflict decisions.
use vstd::prelude::*;
use vstd::string::StringExecFns;
use crate::merge::{safe_chars, safe_label};
use crate::text::{decimal, decimal_string, join, join_strings, string_views};
use super::{
    Change, Evidence, EvidenceView, Kind, Location, LocationView, MoveEvidence, MoveEvidenceView,
    MoveMatch, MoveMatchView, Opposite, OppositeMoveView, Reason, ReasonView, RenameComparison,
    Side, Source, Subject, SubjectView, WeaveRefusal, WeaveRefusalView, evidence_necessary,
    evidence_source, evidence_views, opposite_views, reason_views, side_opposite,
};
use super::validate::counterpart;

verus! {

pub open spec fn source_label(s: Source) -> Seq<char> {
    match s {
        Source::Git => "git"@,
        Source::Weave => "weave"@,
        Source::Analyze => "analyze"@,
    }
}

pub open spec fn kind_code(k: Kind) -> Seq<char> {
    match k {
        Kind::LineConflict => "LINE_CONFLICT"@,
        Kind::EntityConflict => "ENTITY_CONFLICT"@,
        Kind::NonEntityConflict => "UNMODELED_BOTH_CHANGED"@,
        Kind::AnalysisUnavailable => "ENTITY_ANALYSIS_UNAVAILABLE"@,
        Kind::LayoutChanged => "ENTITY_LAYOUT_CHANGED"@,
        Kind::ModifyVsMove => "GLOBAL_MODIFY_VS_MOVE"@,
    }
}

pub open spec fn side_label(s: Side) -> Seq<char> {
    match s {
        Side::Ours => "ours"@,
        Side::Theirs => "theirs"@,
    }
}

pub open spec fn change_label(c: Change) -> Seq<char> {
    match c {
        Change::Added => "added"@,
        Change::Absent => "absent"@,
        Change::Deleted => "deleted"@,
        Change::Unchanged => "unchanged"@,
        Change::Modified => "modified"@,
        Change::Renamed => "rename candidate"@,
        Change::RenameModified => "rename + modified candidate"@,
    }
}

impl Source {
    pub fn label(self) -> (r: &'static str)
        ensures
            r@ == source_label(self),
    {
        match self {
            Source::Git => "git",
            Source::Weave => "weave",
            Source::Analyze => "analyze",
        }
    }
}

impl Kind {
    pub fn code(self) -> (r: &'static str)
        ensures
            r@ == kind_code(self),
    {
        match self {
            Kind::LineConflict => "LINE_CONFLICT",
            Kind::EntityConflict => "ENTITY_CONFLICT",
            Kind::NonEntityConflict => "UNMODELED_BOTH_CHANGED",
            Kind::AnalysisUnavailable => "ENTITY_ANALYSIS_UNAVAILABLE",
            Kind::LayoutChanged => "ENTITY_LAYOUT_CHANGED",
            Kind::ModifyVsMove => "GLOBAL_MODIFY_VS_MOVE",
        }
    }
}

impl Side {
    pub fn label(self) -> (r: &'static str)
        ensures
            r@ == side_label(self),
    {
        match self {
            Side::Ours => "ours",
            Side::Theirs => "theirs",
        }
    }
}

impl Change {
    pub fn label(self) -> (r: &'static str)
        ensures
            r@ == change_label(self),
    {
        match self {
            Change::Added => "added",
            Change::Absent => "absent",
            Change::Deleted => "deleted",
            Change::Unchanged => "unchanged",
            Change::Modified => "modified",
            Change::Renamed => "rename candidate",
            Change::RenameModified => "rename + modified candidate",
        }
    }
}

pub open spec fn refusal_summary(r: WeaveRefusalView) -> Seq<char> {
    match r {
        WeaveRefusalView::BothModified => "both_modified"@,
        WeaveRefusalView::BothAdded => "both_added"@,
        WeaveRefusalView::ModifyDelete { modified_in } => "modify_delete；modified in "@
            + side_label(modified_in),
        WeaveRefusalView::RenameRename { base_name, ours_name, theirs_name } => "rename_rename；base="@
            + base_name + ", ours="@ + ours_name + ", theirs="@ + theirs_name,
        WeaveRefusalView::RenameModify { old_name, new_name, renamed_in } => "rename_modify；"@
            + side_label(renamed_in) + ": "@ + old_name + " → "@ + new_name,
    }
}

impl WeaveRefusal {
    /// The upstream refusal type, keeping direction and rename names.
    pub fn summary(&self) -> (r: String)
        ensures
            r@ == refusal_summary(self@),
    {
        match self {
            WeaveRefusal::BothModified => String::from_str("both_modified"),
            WeaveRefusal::BothAdded => String::from_str("both_added"),
            WeaveRefusal::ModifyDelete { modified_in } => {
                let mut s = String::from_str("modify_delete；modified in ");
                s.append(modified_in.label());
                s
            },
            WeaveRefusal::RenameRename { base_name, ours_name, theirs_name } => {
                let mut s = String::from_str("rename_rename；base=");
                s.append(base_name.as_str());
                s.append(", ours=");
                s.append(ours_name.as_str());
                s.append(", theirs=");
                s.append(theirs_name.as_str());
                s
            },
            WeaveRefusal::RenameModify { old_name, new_name, renamed_in } => {
                let mut s = String::from_str("rename_modify；");
                s.append(renamed_in.label());
                s.append(": ");
                s.append(old_name.as_str());
                s.append(" → ");
                s.append(new_name.as_str());
                s
            },
        }
    }
}

/// A file-level association note for a marker line.
pub open spec fn move_note(base: LocationView, target: LocationView, matched_by: MoveMatchView) -> Seq<char> {
    let action = match matched_by {
        MoveMatchView::Exact => "疑似移动"@,
        MoveMatchView::NameNormalized { .. } => "疑似重命名并移动"@,
    };
    safe_chars(
        action + " "@ + base.entity + " · "@ + base.path + ":"@ + decimal(base.line) + " → "@
            + target.entity + " · "@ + target.path + ":"@ + decimal(target.line),
    )
}

pub fn move_note_text(base: &Location, target: &Location, matched_by: &MoveMatch) -> (r: String)
    ensures
        r@ == move_note(base@, target@, matched_by@),
{
    let mut s = String::from_str(
        match matched_by {
            MoveMatch::Exact => "疑似移动",
            MoveMatch::NameNormalized { .. } => "疑似重命名并移动",
        },
    );
    s.append(" ");
    s.append(base.entity.as_str());
    s.append(" · ");
    s.append(base.path.as_str());
    s.append(":");
    s.append(decimal_string(base.line).as_str());
    s.append(" → ");
    s.append(target.entity.as_str());
    s.append(" · ");
    s.append(target.path.as_str());
    s.append(":");
    s.append(decimal_string(target.line).as_str());
    safe_label(s.as_str())
}

pub open spec fn opposite_notes(m: MoveEvidenceView) -> Seq<Seq<char>> {
    m.opposite_moves.map_values(|o: OppositeMoveView| move_note(m.base, o.target, o.matched_by))
}

impl MoveEvidence {
    /// A file-level association hint; it does not claim a specific hunk.
    pub fn marker_note(&self) -> (r: String)
        ensures
            r@ == move_note(self@.base, self@.target, self@.matched_by),
    {
        move_note_text(&self.base, &self.target, &self.matched_by)
    }

    /// The notes of this candidate's base on the other side, in order.
    pub fn opposite_marker_notes(&self) -> (r: Vec<String>)
        ensures
            string_views(r@) == opposite_notes(self@),
    {
        let ghost ms = opposite_views(self.opposite_moves@);
        let mut r: Vec<String> = Vec::new();
        let mut i: usize = 0;
        while i < self.opposite_moves.len()
            invariant
                i <= self.opposite_moves.len(),
                ms == opposite_views(self.opposite_moves@),
                r@.len() == i,
                forall|k: int| 0 <= k < i ==> #[trigger] r@[k]@ == move_note(self@.base, ms[k].target, ms[k].matched_by),
            decreases self.opposite_moves.len() - i,
        {
            let other = &self.opposite_moves[i];
            r.push(move_note_text(&self.base, &other.target, &other.matched_by));
            i += 1;
        }
        assert(string_views(r@) =~= opposite_notes(self@));
        r
    }
}

pub open spec fn opposite_text(c: MoveEvidenceView) -> Seq<char> {
    let state = match c.opposite {
        Opposite::Unchanged => "unchanged"@,
        Opposite::Modified => "modified"@,
        Opposite::Deleted => "deleted"@,
        Opposite::Unknown => "无法确认"@,
    };
    if c.opposite_moves.len() == 0 {
        state
    } else {
        state + "（"@ + side_label(side_opposite(c.side)) + "："@ + join(opposite_notes(c), "；"@)
            + "；候选数="@ + decimal(c.opposite_moves.len()) + "）"@
    }
}

pub open spec fn rename_matched_text(comparison: RenameComparison) -> Seq<char> {
    match comparison {
        RenameComparison::Text => "区域文本逐 byte 相同（含附着注释）"@,
        RenameComparison::Syntax { tokens } => "忽略 token 间空白后语法结构及有序 token 完全相同（"@
            + decimal(tokens as nat)
            + " 个 token，保留注释和字面量原文）；原文存在格式差异"@,
    }
}

/// The message of a move candidate, before the source prefix is added.
pub open spec fn move_message(c: MoveEvidenceView) -> Seq<char> {
    "MOVE_CANDIDATE："@ + side_label(c.side) + " 疑似移动 "@ + c.base.entity + " · "@ + c.base.path
        + ":"@ + decimal(c.base.line) + " → "@ + c.target.path + ":"@ + decimal(c.target.line)
        + "；源 deleted、目标 added；类型/名称/原始区域文本相同（含附着注释）；sources="@
        + decimal(c.source_count) + "，destinations="@ + decimal(c.destination_count) + "；另一侧="@
        + opposite_text(c)
}

/// The complete line of a rename-and-move candidate.
pub open spec fn rename_line(c: MoveEvidenceView) -> Seq<char> {
    match c.matched_by {
        MoveMatchView::NameNormalized {
            grammar,
            entity_type,
            old_name,
            new_name,
            old_occurrences,
            new_occurrences,
            comparison,
        } => safe_chars(
            "[analyze]：RENAME_MOVE_CANDIDATE："@ + side_label(c.side) + " 疑似重命名并移动 "@
                + entity_type + " "@ + old_name + " → "@ + new_name + " · "@ + c.base.path + ":"@
                + decimal(c.base.line) + " → "@ + c.target.path + ":"@ + decimal(c.target.line)
                + "；源 deleted、目标 added；grammar="@ + grammar + "、类型相同；按词边界替换各自名称后，"@
                + rename_matched_text(comparison) + "；替换次数="@ + decimal(old_occurrences) + "/"@
                + decimal(new_occurrences) + "；sources="@ + decimal(c.source_count)
                + "，destinations="@ + decimal(c.destination_count) + "；另一侧="@ + opposite_text(c)
                + "；仅为文本候选，未证明语义等价"@,
        ),
        MoveMatchView::Exact => Seq::empty(),
    }
}

pub open spec fn evidence_message(e: EvidenceView) -> Seq<char> {
    match e {
        EvidenceView::GitLineConflict => "Git 行级合并返回冲突"@,
        EvidenceView::RawBothChanged => "原文：ours、theirs 均相对 base 改变"@,
        EvidenceView::IdenticalEdits => "原文：ours 与 theirs 逐 byte 相同，且均不同于 base"@,
        EvidenceView::WeaveActions { ours, theirs } => "分类：ours="@ + change_label(ours)
            + ", theirs="@ + change_label(theirs),
        EvidenceView::WeaveRefusal { refusal } => "拒绝："@ + refusal_summary(refusal),
        EvidenceView::PartitionUnavailable => "原文分区不可用：语言、语法、实体边界或唯一性检查未通过"@,
        EvidenceView::WeaveUnavailable => "weave 未返回实体分类"@,
        EvidenceView::LayoutChanged => "三方实体或非实体区域序列不同"@,
        EvidenceView::MoveCandidate { candidate } => move_message(candidate),
    }
}

/// One line: the source, then the message; a rename candidate is its own line.
pub open spec fn evidence_summary(e: EvidenceView) -> Seq<char> {
    match e {
        EvidenceView::MoveCandidate { candidate } => if candidate.matched_by is NameNormalized {
            rename_line(candidate)
        } else {
            safe_chars("["@ + source_label(evidence_source(e)) + "]："@ + evidence_message(e))
        },
        _ => safe_chars("["@ + source_label(evidence_source(e)) + "]："@ + evidence_message(e)),
    }
}

fn append_decimal(s: &mut String, n: usize)
    ensures
        final(s)@ == old(s)@ + decimal(n as nat),
{
    let d = decimal_string(n);
    s.append(d.as_str());
}

fn opposite_state(c: &MoveEvidence) -> (r: String)
    ensures
        r@ == opposite_text(c@),
{
    let mut s = String::from_str(
        match c.opposite {
            Opposite::Unchanged => "unchanged",
            Opposite::Modified => "modified",
            Opposite::Deleted => "deleted",
            Opposite::Unknown => "无法确认",
        },
    );
    if c.opposite_moves.len() != 0 {
        let notes = c.opposite_marker_notes();
        let targets = join_strings(&notes, "；");
        s.append("（");
        s.append(c.opposite_side().label());
        s.append("：");
        s.append(targets.as_str());
        s.append("；候选数=");
        append_decimal(&mut s, c.opposite_moves.len());
        s.append("）");
    }
    s
}

fn rename_text(c: &MoveEvidence) -> (r: String)
    requires
        c@.matched_by is NameNormalized,
    ensures
        r@ == rename_line(c@),
{
    match &c.matched_by {
        MoveMatch::NameNormalized {
            grammar,
            entity_type,
            old_name,
            new_name,
            old_occurrences,
            new_occurrences,
            comparison,
        } => {
            let mut matched = String::new();
            match comparison {
                RenameComparison::Text => {
                    matched.append("区域文本逐 byte 相同（含附着注释）");
                },
                RenameComparison::Syntax { tokens } => {
                    matched.append("忽略 token 间空白后语法结构及有序 token 完全相同（");
                    append_decimal(&mut matched, *tokens);
                    matched.append(" 个 token，保留注释和字面量原文）；原文存在格式差异");
                },
            }
            let mut s = String::from_str("[analyze]：RENAME_MOVE_CANDIDATE：");
            s.append(c.side.label());
            s.append(" 疑似重命名并移动 ");
            s.append(entity_type.as_str());
            s.append(" ");
            s.append(old_name.as_str());
            s.append(" → ");
            s.append(new_name.as_str());
            s.append(" · ");
            s.append(c.base.path.as_str());
            s.append(":");
            append_decimal(&mut s, c.base.line);
            s.append(" → ");
            s.append(c.target.path.as_str());
            s.append(":");
            append_decimal(&mut s, c.target.line);
            s.append("；源 deleted、目标 added；grammar=");
            s.append(grammar.as_str());
            s.append("、类型相同；按词边界替换各自名称后，");
            s.append(matched.as_str());
            s.append("；替换次数=");
            append_decimal(&mut s, *old_occurrences);
            s.append("/");
            append_decimal(&mut s, *new_occurrences);
            s.append("；sources=");
            append_decimal(&mut s, c.source_count);
            s.append("，destinations=");
            append_decimal(&mut s, c.destination_count);
            s.append("；另一侧=");
            s.append(opposite_state(c).as_str());
            s.append("；仅为文本候选，未证明语义等价");
            safe_label(s.as_str())
        },
        MoveMatch::Exact => String::new(),
    }
}

fn move_text(c: &MoveEvidence) -> (r: String)
    ensures
        r@ == move_message(c@),
{
    let mut s = String::from_str("MOVE_CANDIDATE：");
    s.append(c.side.label());
    s.append(" 疑似移动 ");
    s.append(c.base.entity.as_str());
    s.append(" · ");
    s.append(c.base.path.as_str());
    s.append(":");
    append_decimal(&mut s, c.base.line);
    s.append(" → ");
    s.append(c.target.path.as_str());
    s.append(":");
    append_decimal(&mut s, c.target.line);
    s.append("；源 deleted、目标 added；类型/名称/原始区域文本相同（含附着注释）；sources=");
    append_decimal(&mut s, c.source_count);
    s.append("，destinations=");
    append_decimal(&mut s, c.destination_count);
    s.append("；另一侧=");
    s.append(opposite_state(c).as_str());
    s
}

impl Evidence {
    fn message(&self) -> (r: String)
        ensures
            r@ == evidence_message(self@),
    {
        match self {
            Evidence::GitLineConflict => String::from_str("Git 行级合并返回冲突"),
            Evidence::RawBothChanged => String::from_str("原文：ours、theirs 均相对 base 改变"),
            Evidence::IdenticalEdits => String::from_str("原文：ours 与 theirs 逐 byte 相同，且均不同于 base"),
            Evidence::WeaveActions { ours, theirs } => {
                let mut s = String::from_str("分类：ours=");
                s.append(ours.label());
                s.append(", theirs=");
                s.append(theirs.label());
                s
            },
            Evidence::WeaveRefusal { refusal } => {
                let mut s = String::from_str("拒绝：");
                s.append(refusal.summary().as_str());
                s
            },
            Evidence::PartitionUnavailable => String::from_str(
                "原文分区不可用：语言、语法、实体边界或唯一性检查未通过",
            ),
            Evidence::WeaveUnavailable => String::from_str("weave 未返回实体分类"),
            Evidence::LayoutChanged => String::from_str("三方实体或非实体区域序列不同"),
            Evidence::MoveCandidate { candidate } => move_text(candidate),
        }
    }

    /// One display line for this evidence.
    pub fn summary(&self) -> (r: String)
        ensures
            r@ == evidence_summary(self@),
    {
        if let Evidence::MoveCandidate { candidate } = self {
            if let MoveMatch::NameNormalized { .. } = &candidate.matched_by {
                return rename_text(candidate);
            }
        }
        let mut s = String::from_str("[");
        s.append(self.source().label());
        s.append("]：");
        s.append(self.message().as_str());
        safe_label(s.as_str())
    }
}

pub open spec fn prefixed(prefix: Seq<char>, lines: Seq<Seq<char>>) -> Seq<Seq<char>> {
    lines.map_values(|l: Seq<char>| prefix + l)
}

pub open spec fn counterpart_lines(c: MoveEvidenceView) -> Seq<Seq<char>> {
    c.opposite_moves.map_values(
        |o: OppositeMoveView|
            "另一侧候选 "@ + evidence_summary(
                EvidenceView::MoveCandidate { candidate: counterpart(side_opposite(c.side), c.base, o) },
            ),
    )
}

pub open spec fn method_lines(comparison: RenameComparison) -> Seq<Seq<char>> {
    match comparison {
        RenameComparison::Syntax { .. } => seq![
            "[analyze]：方法：复用 weave::binding::replace_at_word_boundaries 和 sem-core::parse_tree，比较名称归一化后的完整语法结构及 token 序列；相同才匹配，不使用模糊阈值或 hash 判等"@,
            "[analyze]：格式：只忽略语法 token 间的空白；保留节点类型、字段、顺序、嵌套及注释/字面量原文，不把缩进造成的结构变化当作格式化；不是语义等价证明"@,
        ],
        RenameComparison::Text => seq![
            "[analyze]：方法：复用 weave::binding::replace_at_word_boundaries，将各自名称替换为 __ENTITY__ 后直接比较原文；不使用相似度或 hash 判等"@,
        ],
    }
}

pub open spec fn scope_lines() -> Seq<Seq<char>> {
    seq![
        "[analyze]：范围：整段 entity 文本；替换可能涉及定义、自引用、注释及字符串，不代表只修改定义名；未检查其它文件中的调用是否更新"@,
        "[analyze]：歧义：sources 为此目标的候选来源数，destinations 为此来源的候选目标数（含同名移动）；全部保留，不选择唯一配对"@,
    ]
}

/// The summary, then (in detailed mode) each counterpart and the method notes.
pub open spec fn evidence_lines(e: EvidenceView, detailed: bool) -> Seq<Seq<char>> {
    let first = seq![evidence_summary(e)];
    match e {
        EvidenceView::MoveCandidate { candidate: c } => if detailed {
            match c.matched_by {
                MoveMatchView::NameNormalized { comparison, .. } => first + counterpart_lines(c)
                    + method_lines(comparison) + scope_lines(),
                MoveMatchView::Exact => first + counterpart_lines(c),
            }
        } else {
            first
        },
        _ => first,
    }
}

pub fn push_lines(v: &mut Vec<String>, more: Vec<String>)
    ensures
        string_views(final(v)@) == string_views(old(v)@) + string_views(more@),
{
    let ghost start = string_views(v@);
    let mut i: usize = 0;
    while i < more.len()
        invariant
            i <= more.len(),
            string_views(v@) == start + string_views(more@).take(i as int),
        decreases more.len() - i,
    {
        let ghost prev = string_views(v@);
        let item = more[i].clone();
        v.push(item);
        assert(string_views(v@) =~= prev.push(item@));
        assert(string_views(more@).take(i + 1) =~= string_views(more@).take(i as int).push(more@[i as int]@));
        assert(string_views(v@) =~= start + string_views(more@).take(i + 1));
        i += 1;
    }
    assert(string_views(more@).take(more.len() as int) =~= string_views(more@));
}

fn counterpart_evidence(c: &MoveEvidence, i: usize) -> (r: Evidence)
    requires
        i < c.opposite_moves.len(),
    ensures
        r@ == (EvidenceView::MoveCandidate {
            candidate: counterpart(side_opposite(c@.side), c@.base, c@.opposite_moves[i as int]),
        }),
{
    let other = &c.opposite_moves[i];
    let m = MoveEvidence {
        side: c.opposite_side(),
        base: c.base.copy(),
        target: other.target.copy(),
        source_count: other.source_count,
        destination_count: other.destination_count,
        opposite: Opposite::Deleted,
        matched_by: other.matched_by.copy(),
        opposite_moves: Vec::new(),
    };
    assert(m@.opposite_moves =~= Seq::<OppositeMoveView>::empty());
    Evidence::MoveCandidate { candidate: Box::new(m) }
}

impl Evidence {
    /// Detailed mode adds methods and scope; the summary already holds the
    /// candidate's direction, positions, match conditions and ambiguity.
    pub fn lines(&self, detailed: bool) -> (r: Vec<String>)
        ensures
            string_views(r@) == evidence_lines(self@, detailed),
    {
        let mut lines: Vec<String> = Vec::new();
        lines.push(self.summary());
        assert(string_views(lines@) =~= seq![evidence_summary(self@)]);
        if !detailed {
            return lines;
        }
        if let Evidence::MoveCandidate { candidate } = self {
            let ghost first = string_views(lines@);
            let ghost expected = counterpart_lines(candidate@);
            let mut i: usize = 0;
            while i < candidate.opposite_moves.len()
                invariant
                    i <= candidate.opposite_moves.len(),
                    expected == counterpart_lines(candidate@),
                    string_views(lines@) == first + expected.take(i as int),
                decreases candidate.opposite_moves.len() - i,
            {
                let mut line = String::from_str("另一侧候选 ");
                line.append(counterpart_evidence(candidate, i).summary().as_str());
                assert(line@ == expected[i as int]);
                let ghost prev = string_views(lines@);
                lines.push(line);
                assert(string_views(lines@) =~= prev.push(line@));
                assert(expected.take(i + 1) =~= expected.take(i as int).push(expected[i as int]));
                assert(string_views(lines@) =~= first + expected.take(i + 1));
                i += 1;
            }
            assert(expected.take(candidate.opposite_moves.len() as int) =~= expected);
            if let MoveMatch::NameNormalized { comparison, .. } = &candidate.matched_by {
                let ghost before = string_views(lines@);
                if let RenameComparison::Syntax { .. } = comparison {
                    lines.push(String::from_str("[analyze]：方法：复用 weave::binding::replace_at_word_boundaries 和 sem-core::parse_tree，比较名称归一化后的完整语法结构及 token 序列；相同才匹配，不使用模糊阈值或 hash 判等"));
                    lines.push(String::from_str("[analyze]：格式：只忽略语法 token 间的空白；保留节点类型、字段、顺序、嵌套及注释/字面量原文，不把缩进造成的结构变化当作格式化；不是语义等价证明"));
                } else {
                    lines.push(String::from_str("[analyze]：方法：复用 weave::binding::replace_at_word_boundaries，将各自名称替换为 __ENTITY__ 后直接比较原文；不使用相似度或 hash 判等"));
                }
                let ghost middle = string_views(lines@);
                assert(middle =~= before + method_lines(*comparison));
                lines.push(String::from_str("[analyze]：范围：整段 entity 文本；替换可能涉及定义、自引用、注释及字符串，不代表只修改定义名；未检查其它文件中的调用是否更新"));
                lines.push(String::from_str("[analyze]：歧义：sources 为此目标的候选来源数，destinations 为此来源的候选目标数（含同名移动）；全部保留，不选择唯一配对"));
                assert(string_views(lines@) =~= middle + scope_lines());
            }
        }
        lines
    }
}

pub open spec fn subject_target(s: SubjectView) -> Seq<char> {
    match s {
        SubjectView::File => Seq::empty(),
        SubjectView::Entity { entity_type, name } => entity_type + " "@ + name,
        SubjectView::Gap { label, .. } => label,
        SubjectView::Weave { name, .. } => "entity "@ + name + "（weave，身份未关联）"@,
        SubjectView::Move { base, .. } => base.entity,
    }
}

/// The first name-normalized move candidate among the evidence, if any.
pub open spec fn first_rename(ev: Seq<EvidenceView>) -> Option<(Seq<char>, Seq<char>)>
    decreases ev.len(),
{
    if ev.len() == 0 {
        None
    } else {
        match ev[0] {
            EvidenceView::MoveCandidate { candidate } => match candidate.matched_by {
                MoveMatchView::NameNormalized { old_name, new_name, .. } => Some((old_name, new_name)),
                _ => first_rename(ev.drop_first()),
            },
            _ => first_rename(ev.drop_first()),
        }
    }
}

pub open spec fn reason_body(r: ReasonView) -> Seq<char> {
    let target = subject_target(r.subject);
    match r.kind {
        Kind::LineConflict => if target.len() == 0 {
            "Git 行级冲突"@
        } else {
            "Git 行级冲突 · "@ + target
        },
        Kind::EntityConflict => if r.evidence.contains(EvidenceView::IdenticalEdits) {
            target + "：双方修改结果相同，但均不同于 base，按严格规则需人工审核"@
        } else {
            target + " 需人工审核"@
        },
        Kind::NonEntityConflict => target + "被双方修改"@,
        Kind::AnalysisUnavailable => "无法可靠分析，保留整文件冲突"@,
        Kind::LayoutChanged => "实体增删或顺序变化"@,
        Kind::ModifyVsMove => match first_rename(r.evidence) {
            Some((old_name, new_name)) => target + " 疑似重命名并移动（"@ + old_name + " → "@
                + new_name + "），与另一侧变化需共同审核"@,
            None => target + " 疑似移动与另一侧变化需共同审核"@,
        },
    }
}

pub open spec fn reason_summary(r: ReasonView) -> Seq<char> {
    safe_chars(kind_code(r.kind) + "："@ + reason_body(r))
}

fn subject_text(s: &Subject) -> (r: String)
    ensures
        r@ == subject_target(s@),
{
    match s {
        Subject::File => String::new(),
        Subject::Entity { entity_type, name } => {
            let mut t = entity_type.clone();
            t.append(" ");
            t.append(name.as_str());
            t
        },
        Subject::Gap { label, .. } => label.clone(),
        Subject::Weave { name, .. } => {
            let mut t = String::from_str("entity ");
            t.append(name.as_str());
            t.append("（weave，身份未关联）");
            t
        },
        Subject::Move { base, .. } => base.entity.clone(),
    }
}

fn has_identical_edits(v: &Vec<Evidence>) -> (r: bool)
    ensures
        r == evidence_views(v@).contains(EvidenceView::IdenticalEdits),
{
    let ghost ev = evidence_views(v@);
    let mut i: usize = 0;
    while i < v.len()
        invariant
            i <= v.len(),
            ev == evidence_views(v@),
            forall|k: int| 0 <= k < i ==> ev[k] != EvidenceView::IdenticalEdits,
        decreases v.len() - i,
    {
        if let Evidence::IdenticalEdits = &v[i] {
            assert(ev[i as int] == EvidenceView::IdenticalEdits);
            return true;
        }
        i += 1;
    }
    false
}

fn find_rename(v: &Vec<Evidence>) -> (r: Option<(String, String)>)
    ensures
        match first_rename(evidence_views(v@)) {
            Some((o, n)) => r matches Some((a, b)) && a@ == o && b@ == n,
            None => r is None,
        },
{
    let ghost ev = evidence_views(v@);
    let mut i: usize = 0;
    assert(ev.skip(0) =~= ev);
    while i < v.len()
        invariant
            i <= v.len(),
            ev == evidence_views(v@),
            first_rename(ev) == first_rename(ev.skip(i as int)),
        decreases v.len() - i,
    {
        assert(ev.skip(i as int)[0] == ev[i as int]);
        assert(ev.skip(i as int).drop_first() =~= ev.skip(i + 1));
        if let Evidence::MoveCandidate { candidate } = &v[i] {
            if let MoveMatch::NameNormalized { old_name, new_name, .. } = &candidate.matched_by {
                return Some((old_name.clone(), new_name.clone()));
            }
        }
        i += 1;
    }
    assert(ev.skip(v.len() as int).len() == 0);
    None
}

impl Reason {
    /// The parent's code and its human-readable target.
    pub fn summary(&self) -> (r: String)
        ensures
            r@ == reason_summary(self@),
    {
        let target = subject_text(&self.subject);
        let body = match self.kind {
            Kind::LineConflict => if target.as_str().is_empty() {
                String::from_str("Git 行级冲突")
            } else {
                let mut b = String::from_str("Git 行级冲突 · ");
                b.append(target.as_str());
                b
            },
            Kind::EntityConflict => {
                let mut b = target.clone();
                if has_identical_edits(&self.evidence) {
                    b.append("：双方修改结果相同，但均不同于 base，按严格规则需人工审核");
                } else {
                    b.append(" 需人工审核");
                }
                b
            },
            Kind::NonEntityConflict => {
                let mut b = target.clone();
                b.append("被双方修改");
                b
            },
            Kind::AnalysisUnavailable => String::from_str("无法可靠分析，保留整文件冲突"),
            Kind::LayoutChanged => String::from_str("实体增删或顺序变化"),
            Kind::ModifyVsMove => {
                let mut b = target.clone();
                match find_rename(&self.evidence) {
                    Some((old_name, new_name)) => {
                        b.append(" 疑似重命名并移动（");
                        b.append(old_name.as_str());
                        b.append(" → ");
                        b.append(new_name.as_str());
                        b.append("），与另一侧变化需共同审核");
                    },
                    None => {
                        b.append(" 疑似移动与另一侧变化需共同审核");
                    },
                }
                b
            },
        };
        assert(body@ == reason_body(self@));
        let mut s = String::from_str(self.kind.code());
        s.append("：");
        s.append(body.as_str());
        safe_label(s.as_str())
    }
}

pub open spec fn has_source(ev: Seq<EvidenceView>, src: Source) -> bool {
    exists|i: int| 0 <= i < ev.len() && evidence_source(#[trigger] ev[i]) == src
}

/// The distinct sources of the evidence, in the order git, weave, analyze.
pub open spec fn source_labels(ev: Seq<EvidenceView>) -> Seq<Seq<char>> {
    (if has_source(ev, Source::Git) { seq!["git"@] } else { Seq::empty() }) + (if has_source(
        ev,
        Source::Weave,
    ) {
        seq!["weave"@]
    } else {
        Seq::empty()
    }) + (if has_source(ev, Source::Analyze) { seq!["analyze"@] } else { Seq::empty() })
}

/// The indented evidence lines shown under a reason.
pub open spec fn evidence_block(ev: Seq<EvidenceView>, detailed: bool) -> Seq<Seq<char>>
    decreases ev.len(),
{
    if ev.len() == 0 {
        Seq::empty()
    } else {
        evidence_block(ev.drop_last(), detailed) + if detailed || evidence_necessary(ev.last()) {
            prefixed("  依据 "@, evidence_lines(ev.last(), detailed))
        } else {
            Seq::empty()
        }
    }
}

pub open spec fn reason_lines(r: ReasonView, detailed: bool) -> Seq<Seq<char>> {
    seq!["原因 ["@ + join(source_labels(r.evidence), " + "@) + "]："@ + reason_summary(r)]
        + evidence_block(r.evidence, detailed)
}

fn source_list(v: &Vec<Evidence>) -> (r: String)
    ensures
        r@ == join(source_labels(evidence_views(v@)), " + "@),
{
    let ghost ev = evidence_views(v@);
    let mut git = false;
    let mut weave = false;
    let mut analyze = false;
    let mut i: usize = 0;
    while i < v.len()
        invariant
            i <= v.len(),
            ev == evidence_views(v@),
            git == (exists|k: int| 0 <= k < i && evidence_source(#[trigger] ev[k]) == Source::Git),
            weave == (exists|k: int| 0 <= k < i && evidence_source(#[trigger] ev[k]) == Source::Weave),
            analyze == (exists|k: int| 0 <= k < i && evidence_source(#[trigger] ev[k]) == Source::Analyze),
        decreases v.len() - i,
    {
        let s = v[i].source();
        assert(evidence_source(ev[i as int]) == s);
        match s {
            Source::Git => { git = true; },
            Source::Weave => { weave = true; },
            Source::Analyze => { analyze = true; },
        }
        i += 1;
    }
    let mut parts: Vec<String> = Vec::new();
    if git {
        parts.push(String::from_str("git"));
    }
    if weave {
        parts.push(String::from_str("weave"));
    }
    if analyze {
        parts.push(String::from_str("analyze"));
    }
    assert(string_views(parts@) =~= source_labels(ev));
    join_strings(&parts, " + ")
}

impl Reason {
    /// Summary and detailed output share one parent/child record; folding
    /// hides evidence lines, it never deletes evidence.
    pub fn lines(&self, detailed: bool) -> (r: Vec<String>)
        ensures
            string_views(r@) == reason_lines(self@, detailed),
    {
        let mut head = String::from_str("原因 [");
        head.append(source_list(&self.evidence).as_str());
        head.append("]：");
        head.append(self.summary().as_str());
        let mut lines: Vec<String> = Vec::new();
        lines.push(head);
        let ghost first = string_views(lines@);
        assert(first =~= seq![head@]);
        let ghost ev = evidence_views(self.evidence@);
        let mut i: usize = 0;
        while i < self.evidence.len()
            invariant
                i <= self.evidence.len(),
                ev == evidence_views(self.evidence@),
                string_views(lines@) == first + evidence_block(ev.take(i as int), detailed),
            decreases self.evidence.len() - i,
        {
            let e = &self.evidence[i];
            let ghost before = string_views(lines@);
            assert(ev.take(i + 1).drop_last() =~= ev.take(i as int));
            assert(ev.take(i + 1).last() == e@);
            if detailed || e.necessary() {
                let sub = e.lines(detailed);
                let mut more: Vec<String> = Vec::new();
                let mut j: usize = 0;
                while j < sub.len()
                    invariant
                        j <= sub.len(),
                        string_views(more@) == prefixed("  依据 "@, string_views(sub@)).take(j as int),
                    decreases sub.len() - j,
                {
                    let mut line = String::from_str("  依据 ");
                    line.append(sub[j].as_str());
                    let ghost prev = string_views(more@);
                    more.push(line);
                    assert(string_views(more@) =~= prev.push(line@));
                    assert(prefixed("  依据 "@, string_views(sub@)).take(j + 1) =~= prefixed("  依据 "@, string_views(sub@)).take(j as int).push(line@));
                    j += 1;
                }
                assert(prefixed("  依据 "@, string_views(sub@)).take(sub.len() as int) =~= prefixed("  依据 "@, string_views(sub@)));
                push_lines(&mut lines, more);
                assert(string_views(lines@) =~= first + evidence_block(ev.take(i + 1), detailed));
            } else {
                assert(evidence_block(ev.take(i + 1), detailed) =~= evidence_block(ev.take(i as int), detailed));
            }
            i += 1;
        }
        assert(ev.take(self.evidence.len() as int) =~= ev);
        lines
    }
}

/// Marker lines hold only the parent summaries; the full evidence is kept in
/// reports and detailed diagnostics.
pub open spec fn reasons_summary(rs: Seq<ReasonView>) -> Seq<char> {
    join(rs.map_values(|r: ReasonView| reason_summary(r)), "; "@)
}

pub fn summaries(reasons: &[Reason]) -> (r: String)
    ensures
        r@ == reasons_summary(reasons@.map_values(|r: Reason| r@)),
{
    let mut parts: Vec<String> = Vec::new();
    let mut i: usize = 0;
    while i < reasons.len()
        invariant
            i <= reasons.len(),
            parts@.len() == i,
            forall|k: int| 0 <= k < i ==> #[trigger] parts@[k]@ == reason_summary(reasons@[k]@),
        decreases reasons.len() - i,
    {
        parts.push(reasons[i].summary());
        i += 1;
    }
    assert(string_views(parts@) =~= reasons@.map_values(|r: Reason| r@).map_values(|r: ReasonView| reason_summary(r)));
    join_strings(&parts, "; ")
}

} // verus!
