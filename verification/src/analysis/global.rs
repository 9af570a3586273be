//! Explicit three-tree analysis. Operation commands read Git objects first
//! and then apply the findings to Git's standard index and worktree state.
use vstd::prelude::*;
use vstd::string::{StringExecFns, StringSliceAdditionalSpecFns};
use crate::error::Error;
use crate::merge::conflict::{
    annotate_moves, annotate_spec, box_text, conflict_box, law_move_notes, lemma_box_has_marker, repeat,
};
use crate::merge::{has_marker_line, inputs_refusal, text_refusal, validate_text, ConflictStyle, Labels, Outcome};
use crate::analysis::local::{collected_reasons, line_views, lines_fit, prepare, prepared_exactly, prepared_from, prepared_wf, LineMerge, Prepared};
use crate::analysis::moves::{
    candidates_fit, conflict_reason, content_grammar, entities, entities_of, entity_views, final_candidates, find_candidates, line_after,
    line_numbers_fit, move_reason, ParsedFile, file_views,
    opt_entities_view, Entity, EntityView, ParsedFileView,
};
use crate::analysis::partition::{part_views, Part, ThreePartitions};
use crate::analysis::raw::opt_region_views;
use crate::reason::order::{insert_string, lemma_sorted_unique, lemma_str_order, str_compare, strs_sorted};
use crate::text::string_views;
use vstd::utf8::encode_utf8;
use crate::reason::display::{reasons_summary, summaries};
use crate::reason::order::{insert_move, move_views, moves_sorted, normalize, normalized};
use crate::reason::validate::{move_valid, reason_valid};
use crate::reason::{copy_reasons, reason_views, MoveEvidence, MoveEvidenceView, Reason, ReasonView};
use sha2::{Digest, Sha256};

verus! {

/// The report format this engine writes and reads.
pub const SCHEMA_VERSION: u32 = 5;

/// Upper bound on the text of the three snapshots together (64 MiB).
pub const MAX_TOTAL: usize = 67108864;

pub open spec fn engine_name() -> Seq<char> {
    "strict-weave-global-v9"@
}

/// One file of one snapshot.
#[derive(Debug)]
pub struct TextFile {
    pub path: String,
    pub text: String,
}

/// What a report holds for one changed path.
#[derive(Debug)]
pub struct FileAnalysis {
    /// SHA-256 (lower-case hex) of the raw bytes in base, ours and theirs;
    /// `None` where the path is absent.
    pub fingerprints: [Option<String>; 3],
    pub reasons: Vec<Reason>,
    pub related_moves: Vec<MoveEvidence>,
}

/// A report entry: a path and its analysis.
#[derive(Debug)]
pub struct ReportFile {
    pub path: String,
    pub analysis: FileAnalysis,
}

/// The findings of one three-tree analysis.
#[derive(Debug)]
pub struct Report {
    pub schema_version: u32,
    pub engine: String,
    /// Always base, ours, theirs: resolved trees, never guessed merge bases.
    pub trees: [String; 3],
    /// In path order, one entry per path.
    pub files: Vec<ReportFile>,
    pub move_candidates: Vec<MoveEvidence>,
    pub warnings: Vec<String>,
}

/// A cross-file candidate as a report lists it.
pub type MoveCandidate = MoveEvidence;

// ---------------------------------------------------------------------------
// Fingerprints.
// ---------------------------------------------------------------------------

/// What `Sha256::digest` gives for some bytes.
pub uninterp spec fn sha256(bytes: Seq<u8>) -> Seq<u8>;

/// sha2 `Sha256::digest(bytes)`: the 32-byte SHA-256 digest of the bytes.
#[verifier::external_body]
fn sha256_digest(bytes: &[u8]) -> (r: Vec<u8>)
    ensures
        r@ == sha256(bytes@),
        r@.len() == 32,
{
    Sha256::digest(bytes).to_vec()
}

pub open spec fn hex_digit(d: u8) -> char {
    if d < 10 {
        (('0' as u8) + d) as char
    } else {
        (('a' as u8) + d - 10) as char
    }
}

/// Lower-case hexadecimal, two digits per byte.
pub open spec fn hex(bytes: Seq<u8>) -> Seq<char>
    decreases bytes.len(),
{
    if bytes.len() == 0 {
        seq![]
    } else {
        hex(bytes.drop_last()) + seq![hex_digit(bytes.last() / 16), hex_digit(bytes.last() % 16)]
    }
}

fn hex_char(d: u8) -> (c: char)
    requires
        d < 16,
    ensures
        c == hex_digit(d),
{
    if d < 10 {
        ((48u8 + d) as char)
    } else {
        ((97u8 + d - 10) as char)
    }
}

/// The SHA-256 of a text's bytes in lower-case hex.
pub fn fingerprint(text: &str) -> (r: String)
    ensures
        r@ == hex(sha256(text.spec_bytes())),
{
    let digest = sha256_digest(text.as_bytes());
    let mut r = String::new();
    let mut i: usize = 0;
    while i < digest.len()
        invariant
            i <= digest.len(),
            r@ == hex(digest@.take(i as int)),
        decreases digest.len() - i,
    {
        let b = digest[i];
        crate::text::push_char(&mut r, hex_char(b / 16));
        crate::text::push_char(&mut r, hex_char(b % 16));
        assert(digest@.take(i + 1).drop_last() =~= digest@.take(i as int));
        i += 1;
    }
    assert(digest@.take(digest.len() as int) =~= digest@);
    r
}

// ---------------------------------------------------------------------------
// Reading a report back.
// ---------------------------------------------------------------------------

pub open spec fn report_current(r: Report) -> bool {
    r.schema_version == SCHEMA_VERSION && r.engine@ == engine_name()
}

/// Every reason and every candidate of the report is well formed.
pub open spec fn report_structurally_valid(r: Report) -> bool {
    &&& forall|i: int| 0 <= i < r.files@.len() ==> {
        let f = #[trigger] r.files@[i];
        &&& forall|j: int| 0 <= j < f.analysis.reasons@.len() ==> reason_valid(#[trigger] f.analysis.reasons@[j]@)
        &&& forall|j: int| 0 <= j < f.analysis.related_moves@.len() ==> move_valid(#[trigger] f.analysis.related_moves@[j]@)
    }
    &&& forall|j: int| 0 <= j < r.move_candidates@.len() ==> move_valid(#[trigger] r.move_candidates@[j]@)
}

fn reasons_valid(v: &Vec<Reason>) -> (r: bool)
    ensures
        r == forall|j: int| 0 <= j < v@.len() ==> reason_valid(#[trigger] v@[j]@),
{
    let mut j: usize = 0;
    while j < v.len()
        invariant
            j <= v.len(),
            forall|k: int| 0 <= k < j ==> reason_valid(#[trigger] v@[k]@),
        decreases v.len() - j,
    {
        if !v[j].valid() {
            return false;
        }
        j += 1;
    }
    true
}

fn moves_valid(v: &Vec<MoveEvidence>) -> (r: bool)
    ensures
        r == forall|j: int| 0 <= j < v@.len() ==> move_valid(#[trigger] v@[j]@),
{
    let mut j: usize = 0;
    while j < v.len()
        invariant
            j <= v.len(),
            forall|k: int| 0 <= k < j ==> move_valid(#[trigger] v@[k]@),
        decreases v.len() - j,
    {
        if !v[j].valid() {
            return false;
        }
        j += 1;
    }
    true
}

impl Report {
    /// Whether some file of the report has a reason.
    pub fn conflicted(&self) -> (r: bool)
        ensures
            r == exists|i: int| 0 <= i < self.files@.len() && (#[trigger] self.files@[i]).analysis.reasons@.len() > 0,
    {
        let mut i: usize = 0;
        while i < self.files.len()
            invariant
                i <= self.files.len(),
                forall|k: int| 0 <= k < i ==> (#[trigger] self.files@[k]).analysis.reasons@.len() == 0,
            decreases self.files.len() - i,
        {
            if self.files[i].analysis.reasons.len() > 0 {
                return true;
            }
            i += 1;
        }
        false
    }

    /// A report of another schema or engine is refused; so is one with an
    /// ill-formed reason or candidate.
    pub fn validate(&self) -> (r: Result<(), Error>)
        ensures
            match r {
                Ok(()) => report_current(*self) && report_structurally_valid(*self),
                Err(e) => if !report_current(*self) {
                    e == Error::ReportVersion
                } else {
                    e == Error::InvalidReport && !report_structurally_valid(*self)
                },
            },
    {
        let engine = String::from_str("strict-weave-global-v9");
        if self.schema_version != SCHEMA_VERSION || !(self.engine == engine) {
            return Err(Error::ReportVersion);
        }
        let mut i: usize = 0;
        while i < self.files.len()
            invariant
                i <= self.files.len(),
                report_current(*self),
                forall|k: int| 0 <= k < i ==> {
                    let f = #[trigger] self.files@[k];
                    &&& forall|j: int| 0 <= j < f.analysis.reasons@.len() ==> reason_valid(#[trigger] f.analysis.reasons@[j]@)
                    &&& forall|j: int| 0 <= j < f.analysis.related_moves@.len() ==> move_valid(#[trigger] f.analysis.related_moves@[j]@)
                },
            decreases self.files.len() - i,
        {
            let f = &self.files[i];
            if !reasons_valid(&f.analysis.reasons) || !moves_valid(&f.analysis.related_moves) {
                return Err(Error::InvalidReport);
            }
            i += 1;
        }
        if !moves_valid(&self.move_candidates) {
            return Err(Error::InvalidReport);
        }
        Ok(())
    }
}

/// The fingerprint a report expects for a side, checked against a text: an
/// absent path stands for an empty text.
pub open spec fn fingerprint_matches(expected: Option<String>, text: &str) -> bool {
    match expected {
        Some(e) => e@ == hex(sha256(text.spec_bytes())),
        None => text.spec_bytes().len() == 0,
    }
}

pub open spec fn path_index(files: Seq<ReportFile>, path: Seq<char>) -> int
    decreases files.len(),
{
    if files.len() == 0 {
        -1
    } else if path_index(files.drop_last(), path) >= 0 {
        path_index(files.drop_last(), path)
    } else if files.last().path@ == path {
        files.len() - 1
    } else {
        -1
    }
}

proof fn lemma_path_index(files: Seq<ReportFile>, path: Seq<char>)
    ensures
        -1 <= path_index(files, path) < files.len(),
        path_index(files, path) >= 0 ==> files[path_index(files, path)].path@ == path,
        forall|k: int|
            0 <= k < files.len() && (path_index(files, path) < 0 || k < path_index(files, path)) ==> (
            #[trigger] files[k]).path@ != path,
    decreases files.len(),
{
    if files.len() > 0 {
        lemma_path_index(files.drop_last(), path);
        assert forall|k: int|
            0 <= k < files.len() && (path_index(files, path) < 0 || k < path_index(files, path)) implies (
            #[trigger] files[k]).path@ != path by {
            if k < files.len() - 1 {
                assert(files.drop_last()[k] == files[k]);
            }
        }
    }
}

fn find_path(files: &Vec<ReportFile>, source: &str) -> (r: Option<usize>)
    ensures
        match r {
            Some(i) => path_index(files@, source@) == i,
            None => path_index(files@, source@) < 0,
        },
{
    proof {
        lemma_path_index(files@, source@);
    }
    let wanted = String::from_str(source);
    let mut i: usize = 0;
    while i < files.len()
        invariant
            i <= files.len(),
            wanted@ == source@,
            forall|k: int| 0 <= k < i ==> (#[trigger] files@[k]).path@ != source@,
        decreases files.len() - i,
    {
        proof {
            lemma_path_index(files@, source@);
        }
        if files[i].path == wanted {
            return Some(i);
        }
        i += 1;
    }
    proof {
        lemma_path_index(files@, source@);
    }
    None
}

/// The analysis of one path from a report read back, after checking the
/// report and the three raw inputs against it.
pub fn file_analysis_for(report: Report, source: &str, texts: [&str; 3]) -> (r: Result<FileAnalysis, Error>)
    ensures
        match r {
            Ok(f) => report_current(report) && report_structurally_valid(report) && path_index(
                report.files@,
                source@,
            ) >= 0 && f == report.files@[path_index(report.files@, source@)].analysis && forall|k: int|
                0 <= k < 3 ==> fingerprint_matches(#[trigger] f.fingerprints[k], texts[k]),
            Err(e) => {
                ||| !(report_current(report) && report_structurally_valid(report))
                ||| (e == Error::MissingPath && path_index(report.files@, source@) < 0)
                ||| (e matches Error::StaleInput { side } && side < 3 && !fingerprint_matches(
                    report.files@[path_index(report.files@, source@)].analysis.fingerprints[side as int],
                    texts[side as int],
                ))
            },
        },
{
    match report.validate() {
        Err(e) => return Err(e),
        Ok(()) => {},
    }
    let ghost files = report.files@;
    proof {
        lemma_path_index(files, source@);
    }
    let i = match find_path(&report.files, source) {
        Some(i) => i,
        None => return Err(Error::MissingPath),
    };
    let mut files_vec = report.files;
    let entry = files_vec.swap_remove(i);
    assert(entry == files[i as int]);
    let file = entry.analysis;
    let mut side: usize = 0;
    while side < 3
        invariant
            side <= 3,
            0 <= i < files.len(),
            files == report.files@,
            path_index(files, source@) == i,
            file == files[i as int].analysis,
            forall|k: int| 0 <= k < side ==> fingerprint_matches(#[trigger] file.fingerprints[k], texts[k]),
        decreases 3 - side,
    {
        let ok = match &file.fingerprints[side] {
            Some(expected) => *expected == fingerprint(texts[side]),
            None => texts[side].as_bytes().len() == 0,
        };
        if !ok {
            assert(!fingerprint_matches(file.fingerprints[side as int], texts[side as int]));
            return Err(Error::StaleInput { side });
        }
        side += 1;
    }
    Ok(file)
}

// ---------------------------------------------------------------------------
// Applying a file's global findings to its local outcome.
// ---------------------------------------------------------------------------

/// The ordered set of the candidates of both lists.
pub open spec fn merged_moves(a: Seq<MoveEvidenceView>, b: Seq<MoveEvidenceView>) -> Seq<MoveEvidenceView> {
    choose|s: Seq<MoveEvidenceView>| moves_sorted(s) && forall|c: MoveEvidenceView| #[trigger] s.contains(c) <==> (a.contains(c) || b.contains(c))
}

fn add_moves(set: &mut Vec<MoveEvidence>, more: &Vec<MoveEvidence>)
    requires
        moves_sorted(move_views(old(set)@)),
    ensures
        moves_sorted(move_views(final(set)@)),
        forall|c: MoveEvidenceView| #[trigger] move_views(final(set)@).contains(c) <==> (move_views(old(set)@).contains(c) || move_views(more@).contains(c)),
{
    let ghost start = move_views(set@);
    let ghost mv = move_views(more@);
    let mut i: usize = 0;
    while i < more.len()
        invariant
            i <= more.len(),
            mv == move_views(more@),
            moves_sorted(move_views(set@)),
            forall|c: MoveEvidenceView| move_views(set@).contains(c) <==> (start.contains(c) || mv.take(i as int).contains(c)),
        decreases more.len() - i,
    {
        let ghost before = move_views(set@);
        assert(mv[i as int] == more@[i as int]@);
        insert_move(set, more[i].copy());
        assert forall|c: MoveEvidenceView| move_views(set@).contains(c) <==> (start.contains(c) || mv.take(i + 1).contains(c)) by {
            assert(before.contains(c) <==> (start.contains(c) || mv.take(i as int).contains(c)));
            assert(mv.take(i + 1) =~= mv.take(i as int).push(mv[i as int]));
            if mv.take(i + 1).contains(c) && !mv.take(i as int).contains(c) {
                let k = choose|k: int| 0 <= k < i + 1 && #[trigger] mv.take(i + 1)[k] == c;
                if k < i {
                    assert(mv.take(i as int)[k] == c);
                }
            }
            if mv.take(i as int).contains(c) {
                let k = choose|k: int| 0 <= k < i && #[trigger] mv.take(i as int)[k] == c;
                assert(mv.take(i + 1)[k] == c);
            }
            if c == mv[i as int] {
                assert(mv.take(i + 1)[i as int] == c);
            }
        }
        let ghost i_old = i;
        i += 1;
        assert forall|c: MoveEvidenceView| move_views(set@).contains(c) <==> (start.contains(c) || mv.take(i as int).contains(c)) by {
            assert(move_views(set@).contains(c) <==> (start.contains(c) || mv.take(i_old + 1).contains(c)));
        }
    }
    assert(mv.take(more.len() as int) =~= mv);
}

/// The content after applying global findings: a file that only now has a
/// reason is shown as one box under every reason; a conflicted file's first
/// markers carry the file's move notes.
pub open spec fn applied_content(
    content: Seq<char>,
    was_conflicted: bool,
    reasons: Seq<ReasonView>,
    moves: Seq<MoveEvidenceView>,
    texts: (Seq<char>, Seq<char>, Seq<char>),
    labels: crate::merge::LabelsView,
    width: nat,
) -> Seq<char> {
    let boxed = if reasons.len() > 0 && !was_conflicted {
        box_text(texts.0, texts.1, texts.2, labels, width, reasons_summary(reasons))
    } else {
        content
    };
    if reasons.len() > 0 {
        annotate_spec(boxed, moves, width)
    } else {
        boxed
    }
}

/// A file that was not conflicted and gains a global reason is shown as one
/// box over its three texts under the summary of every reason, whatever
/// moves it is related to: the moves only add notes to the markers. Without
/// moves the content is that box, and it has a line that starts with the
/// ours marker.
pub proof fn law_new_reason_boxes(
    content: Seq<char>,
    reasons: Seq<ReasonView>,
    moves: Seq<MoveEvidenceView>,
    texts: (Seq<char>, Seq<char>, Seq<char>),
    labels: crate::merge::LabelsView,
    width: nat,
)
    requires
        reasons.len() > 0,
    ensures
        applied_content(content, false, reasons, moves, texts, labels, width) == annotate_spec(
            box_text(texts.0, texts.1, texts.2, labels, width, reasons_summary(reasons)),
            moves,
            width,
        ),
        applied_content(content, false, reasons, Seq::empty(), texts, labels, width) == box_text(
            texts.0,
            texts.1,
            texts.2,
            labels,
            width,
            reasons_summary(reasons),
        ),
        ({
            let c = applied_content(content, false, reasons, Seq::empty(), texts, labels, width);
            exists|i: int|
                0 <= i && i + width <= c.len() && (i == 0 || c[i - 1] == '\n') && #[trigger] c.subrange(
                    i,
                    i + width,
                ) == repeat('<', width)
        }),
{
    let bx = box_text(texts.0, texts.1, texts.2, labels, width, reasons_summary(reasons));
    law_move_notes(bx, moves, width);
    lemma_box_has_marker(texts.0, texts.1, texts.2, labels, width, reasons_summary(reasons));
    let c = applied_content(content, false, reasons, Seq::empty(), texts, labels, width);
    assert(annotate_spec(bx, Seq::empty(), width) == bx);
    assert(c == bx);
    let i = choose|i: int|
        0 <= i && i + width <= bx.len() && (i == 0 || bx[i - 1] == '\n') && #[trigger] bx.subrange(i, i + width)
            == repeat('<', width);
    assert(c.subrange(i, i + width) == repeat('<', width));
}

/// Adds a file's global reasons and related candidates to its outcome.
pub fn apply_file_analysis(
    outcome: &mut Outcome,
    global: &FileAnalysis,
    texts: [&str; 3],
    labels: &Labels,
    width: usize,
)
    ensures
        normalized(
            reason_views(old(outcome).reasons@) + reason_views(global.reasons@),
            reason_views(final(outcome).reasons@),
        ),
        move_views(final(outcome).related_moves@) == merged_moves(
            move_views(old(outcome).related_moves@),
            move_views(global.related_moves@),
        ),
        final(outcome).content@ == applied_content(
            old(outcome).content@,
            old(outcome).reasons@.len() > 0,
            reason_views(final(outcome).reasons@),
            move_views(final(outcome).related_moves@),
            (texts[0]@, texts[1]@, texts[2]@),
            labels@,
            width as nat,
        ),
{
    let already_conflicted = outcome.conflicted();
    let ghost old_reasons = reason_views(outcome.reasons@);
    let mut more = copy_reasons(&global.reasons);
    outcome.reasons.append(&mut more);
    assert(reason_views(outcome.reasons@) =~= old_reasons + reason_views(global.reasons@));
    normalize(&mut outcome.reasons);
    let mut related: Vec<MoveEvidence> = Vec::new();
    assert(move_views(related@) =~= Seq::<MoveEvidenceView>::empty());
    add_moves(&mut related, &outcome.related_moves);
    add_moves(&mut related, &global.related_moves);
    proof {
        let a = move_views(outcome.related_moves@);
        let b = move_views(global.related_moves@);
        let w = merged_moves(a, b);
        assert forall|c: MoveEvidenceView| #[trigger] move_views(related@).contains(c) <==> (a.contains(c) || b.contains(c)) by {}
        crate::reason::order::lemma_move_order();
        crate::reason::order::lemma_sorted_unique(|x: MoveEvidenceView, y: MoveEvidenceView| crate::reason::order::move_compare(x, y), move_views(related@), w);
    }
    outcome.related_moves = related;
    if outcome.reasons.len() > 0 && !already_conflicted {
        let summary = summaries(outcome.reasons.as_slice());
        outcome.content = conflict_box(texts[0], texts[1], texts[2], labels, width, summary.as_str());
    }
    if outcome.conflicted() {
        outcome.content = annotate_moves(outcome.content.as_str(), outcome.related_moves.as_slice(), width);
    }
}

// ---------------------------------------------------------------------------
// Before Git's line merges: checking the snapshots and preparing each
// changed path.
// ---------------------------------------------------------------------------

/// A snapshot: its files, in path order, each path once.
pub type TreeSnapshot = Vec<TextFile>;

pub open spec fn paths_ordered(s: Seq<TextFile>) -> bool {
    forall|i: int, j: int| 0 <= i < j < s.len() ==> str_compare((#[trigger] s[i]).path@, (#[trigger] s[j]).path@) < 0
}

/// The files of the three snapshots, one after another.
pub open spec fn all_files(snaps: [TreeSnapshot; 3]) -> Seq<TextFile> {
    snaps[0]@ + snaps[1]@ + snaps[2]@
}

/// The first refusal among the files from `k` on, with `total` bytes read
/// before: an empty path, a text refused on its own, or a running total over
/// the limit.
pub open spec fn file_refusal(all: Seq<TextFile>, k: int, total: int) -> Option<Error>
    decreases all.len() - k,
{
    if k < 0 || k >= all.len() {
        None
    } else {
        let f = all[k];
        let bytes = encode_utf8(f.text@);
        if f.path@.len() == 0 {
            Some(Error::EmptyPath)
        } else if text_refusal(bytes) is Some {
            Some(Error::InFile { path: f.path, cause: Box::new(text_refusal(bytes)->0) })
        } else if total + bytes.len() > MAX_TOTAL {
            Some(Error::TotalTooLarge)
        } else {
            file_refusal(all, k + 1, total + bytes.len())
        }
    }
}

/// The text of a path in a snapshot.
pub open spec fn text_at(snap: Seq<TextFile>, path: Seq<char>) -> Option<Seq<char>> {
    if exists|i: int| 0 <= i < snap.len() && (#[trigger] snap[i]).path@ == path {
        Some(snap[choose|i: int| 0 <= i < snap.len() && (#[trigger] snap[i]).path@ == path].text@)
    } else {
        None
    }
}

pub open spec fn in_some_snapshot(snaps: [TreeSnapshot; 3], path: Seq<char>) -> bool {
    exists|k: int, i: int| 0 <= k < 3 && 0 <= i < snaps[k]@.len() && (#[trigger] snaps[k]@[i]).path@ == path
}

/// The path differs between the three snapshots (presence counts).
pub open spec fn changed_path(snaps: [TreeSnapshot; 3], path: Seq<char>) -> bool {
    !(text_at(snaps[0]@, path) == text_at(snaps[1]@, path) && text_at(snaps[0]@, path) == text_at(snaps[2]@, path))
}

/// The changed paths, in order.
pub open spec fn planned_paths(snaps: [TreeSnapshot; 3]) -> Seq<Seq<char>> {
    choose|s: Seq<Seq<char>>| strs_sorted(s) && forall|p: Seq<char>| #[trigger] s.contains(p) <==> (in_some_snapshot(snaps, p) && changed_path(snaps, p))
}

pub open spec fn content_of(t: Option<Seq<char>>) -> Seq<char> {
    match t {
        Some(x) => x,
        None => seq![],
    }
}

/// One changed path: its text in each snapshot and its prepared analysis.
#[derive(Debug)]
pub struct PlannedFile {
    pub path: String,
    pub texts: [Option<String>; 3],
    pub prepared: Prepared,
}

/// Every changed path of three snapshots, prepared for Git's line merges.
#[derive(Debug)]
pub struct AnalysisPlan {
    pub trees: [String; 3],
    pub files: Vec<PlannedFile>,
}

pub open spec fn opt_string_view(o: Option<String>) -> Option<Seq<char>> {
    match o {
        Some(s) => Some(s@),
        None => None,
    }
}

/// A planned file is what `prepare` gives for the path's three texts (an
/// absent path reads as empty), with the labels and width of the report.
pub open spec fn planned_from(f: PlannedFile, snaps: [TreeSnapshot; 3]) -> bool {
    &&& forall|k: int| 0 <= k < 3 ==> opt_string_view(#[trigger] f.texts[k]) == text_at(snaps[k]@, f.path@)
    &&& prepared_exactly(
        f.prepared,
        content_of(text_at(snaps[0]@, f.path@)),
        content_of(text_at(snaps[1]@, f.path@)),
        content_of(text_at(snaps[2]@, f.path@)),
        f.path@,
        ConflictStyle::Diff3,
    )
}

pub open spec fn offset_of(snaps: [TreeSnapshot; 3], s: int) -> int {
    if s <= 0 {
        0
    } else if s == 1 {
        snaps[0]@.len() as int
    } else if s == 2 {
        (snaps[0]@.len() + snaps[1]@.len()) as int
    } else {
        (snaps[0]@.len() + snaps[1]@.len() + snaps[2]@.len()) as int
    }
}

proof fn lemma_all_files(snaps: [TreeSnapshot; 3], s: int, m: int)
    requires
        0 <= s < 3,
        0 <= m < snaps[s]@.len(),
    ensures
        offset_of(snaps, s) + m < all_files(snaps).len(),
        all_files(snaps)[offset_of(snaps, s) + m] == snaps[s]@[m],
        offset_of(snaps, s + 1) == offset_of(snaps, s) + snaps[s]@.len(),
{
    let a = snaps[0]@;
    let b = snaps[1]@;
    let c = snaps[2]@;
    assert(all_files(snaps) == a + b + c);
    if s == 0 {
        assert((a + b + c)[m] == a[m]);
    } else if s == 1 {
        assert((a + b + c)[a.len() + m] == b[m]);
    } else {
        assert((a + b + c)[a.len() + b.len() + m] == c[m]);
    }
}

fn check_files(snapshots: &[TreeSnapshot; 3]) -> (r: Result<(), Error>)
    ensures
        match file_refusal(all_files(*snapshots), 0, 0) {
            Some(e) => r matches Err(f) && f == e,
            None => r is Ok,
        },
{
    let ghost all = all_files(*snapshots);
    let mut total: usize = 0;
    let mut s: usize = 0;
    while s < 3
        invariant
            s <= 3,
            all == all_files(*snapshots),
            total <= MAX_TOTAL,
            file_refusal(all, 0, 0) == file_refusal(all, offset_of(*snapshots, s as int), total as int),
        decreases 3 - s,
    {
        let snap = &snapshots[s];
        let mut i: usize = 0;
        while i < snap.len()
            invariant
                s < 3,
                i <= snap.len(),
                *snap == snapshots[s as int],
                all == all_files(*snapshots),
                total <= MAX_TOTAL,
                file_refusal(all, 0, 0) == file_refusal(all, offset_of(*snapshots, s as int) + i, total as int),
            decreases snap.len() - i,
        {
            let f = &snap[i];
            proof {
                lemma_all_files(*snapshots, s as int, i as int);
            }
            let ghost k = offset_of(*snapshots, s as int) + i;
            assert(all[k] == *f);
            let bytes = f.text.as_str().as_bytes();
            assert(bytes@ == encode_utf8(f.text@));
            if f.path.as_str().is_empty() {
                return Err(Error::EmptyPath);
            }
            match validate_text(bytes) {
                Err(e) => {
                    return Err(Error::InFile { path: f.path.clone(), cause: Box::new(e) });
                },
                Ok(_) => {},
            }
            if bytes.len() > MAX_TOTAL - total {
                return Err(Error::TotalTooLarge);
            }
            total = total + bytes.len();
            i += 1;
        }
        proof {
            if snap@.len() > 0 {
                lemma_all_files(*snapshots, s as int, 0);
            } else {
                assert(offset_of(*snapshots, s + 1) == offset_of(*snapshots, s as int));
            }
        }
        s += 1;
    }
    assert(offset_of(*snapshots, 3) == all.len());
    Ok(())
}

fn text_in(snap: &TreeSnapshot, path: &String) -> (r: Option<String>)
    requires
        paths_ordered(snap@),
    ensures
        opt_string_view(r) == text_at(snap@, path@),
{
    let mut i: usize = 0;
    while i < snap.len()
        invariant
            i <= snap.len(),
            paths_ordered(snap@),
            forall|k: int| 0 <= k < i ==> (#[trigger] snap@[k]).path@ != path@,
        decreases snap.len() - i,
    {
        if snap[i].path == *path {
            proof {
                let c = choose|k: int| 0 <= k < snap@.len() && (#[trigger] snap@[k]).path@ == path@;
                if c != i {
                    crate::reason::order::lemma_str_order();
                    if c > i {
                        assert(str_compare(snap@[i as int].path@, snap@[c].path@) < 0);
                        crate::reason::order::lemma_str(path@, path@, path@);
                    }
                }
            }
            return Some(snap[i].text.clone());
        }
        i += 1;
    }
    None
}

fn same_text_opt(a: &Option<String>, b: &Option<String>) -> (r: bool)
    ensures
        r == (opt_string_view(*a) == opt_string_view(*b)),
{
    match (a, b) {
        (None, None) => true,
        (Some(x), Some(y)) => *x == *y,
        _ => false,
    }
}

fn content_string(t: &Option<String>) -> (r: String)
    ensures
        r@ == content_of(opt_string_view(*t)),
{
    match t {
        Some(x) => x.clone(),
        None => String::new(),
    }
}

fn all_paths(snapshots: &[TreeSnapshot; 3]) -> (r: Vec<String>)
    ensures
        strs_sorted(string_views(r@)),
        forall|p: Seq<char>| #[trigger] string_views(r@).contains(p) <==> in_some_snapshot(*snapshots, p),
{
    let mut r: Vec<String> = Vec::new();
    assert(string_views(r@) =~= Seq::<Seq<char>>::empty());
    let mut s: usize = 0;
    while s < 3
        invariant
            s <= 3,
            strs_sorted(string_views(r@)),
            forall|p: Seq<char>| string_views(r@).contains(p) <==> exists|k: int, i: int|
                0 <= k < s && 0 <= i < snapshots[k]@.len() && (#[trigger] snapshots[k]@[i]).path@ == p,
        decreases 3 - s,
    {
        let snap = &snapshots[s];
        let mut i: usize = 0;
        while i < snap.len()
            invariant
                s < 3,
                i <= snap.len(),
                *snap == snapshots[s as int],
                strs_sorted(string_views(r@)),
                forall|p: Seq<char>| string_views(r@).contains(p) <==> (exists|k: int, j: int|
                    0 <= k < s && 0 <= j < snapshots[k]@.len() && (#[trigger] snapshots[k]@[j]).path@ == p)
                    || exists|j: int| 0 <= j < i && (#[trigger] snap@[j]).path@ == p,
            decreases snap.len() - i,
        {
            let ghost before = string_views(r@);
            insert_string(&mut r, snap[i].path.clone());
            assert forall|p: Seq<char>| string_views(r@).contains(p) <==> (exists|k: int, j: int|
                0 <= k < s && 0 <= j < snapshots[k]@.len() && (#[trigger] snapshots[k]@[j]).path@ == p)
                || exists|j: int| 0 <= j < i + 1 && (#[trigger] snap@[j]).path@ == p by {
                if p == snap@[i as int].path@ {
                    assert(exists|j: int| 0 <= j < i + 1 && (#[trigger] snap@[j]).path@ == p);
                }
                if exists|j: int| 0 <= j < i + 1 && (#[trigger] snap@[j]).path@ == p {
                    let j = choose|j: int| 0 <= j < i + 1 && (#[trigger] snap@[j]).path@ == p;
                    if j < i {
                        assert(exists|j: int| 0 <= j < i && (#[trigger] snap@[j]).path@ == p);
                    }
                }
            }
            let ghost i_old = i;
            i += 1;
            assert forall|p: Seq<char>| string_views(r@).contains(p) <==> (exists|k: int, j: int|
                0 <= k < s && 0 <= j < snapshots[k]@.len() && (#[trigger] snapshots[k]@[j]).path@ == p)
                || exists|j: int| 0 <= j < i && (#[trigger] snap@[j]).path@ == p by {
                assert(string_views(r@).contains(p) <==> (exists|k: int, j: int|
                    0 <= k < s && 0 <= j < snapshots[k]@.len() && (#[trigger] snapshots[k]@[j]).path@ == p)
                    || exists|j: int| 0 <= j < i_old + 1 && (#[trigger] snap@[j]).path@ == p);
            }
        }
        assert forall|p: Seq<char>| string_views(r@).contains(p) <==> exists|k: int, j: int|
            0 <= k < s + 1 && 0 <= j < snapshots[k]@.len() && (#[trigger] snapshots[k]@[j]).path@ == p by {
            assert(string_views(r@).contains(p) <==> (exists|k: int, j: int|
                0 <= k < s && 0 <= j < snapshots[k]@.len() && (#[trigger] snapshots[k]@[j]).path@ == p)
                || exists|j: int| 0 <= j < snap@.len() && (#[trigger] snap@[j]).path@ == p);
            if exists|k: int, j: int| 0 <= k < s + 1 && 0 <= j < snapshots[k]@.len() && (#[trigger] snapshots[k]@[j]).path@ == p {
                let (k, j) = choose|k: int, j: int| 0 <= k < s + 1 && 0 <= j < snapshots[k]@.len() && (#[trigger] snapshots[k]@[j]).path@ == p;
                if k == s {
                    assert(snap@[j].path@ == p);
                }
            }
            if exists|j: int| 0 <= j < snap@.len() && (#[trigger] snap@[j]).path@ == p {
                let j = choose|j: int| 0 <= j < snap@.len() && (#[trigger] snap@[j]).path@ == p;
                assert(snapshots[s as int]@[j].path@ == p);
            }
        }
        let ghost s_old = s;
        s += 1;
        assert forall|p: Seq<char>| string_views(r@).contains(p) <==> exists|k: int, j: int|
            0 <= k < s && 0 <= j < snapshots[k]@.len() && (#[trigger] snapshots[k]@[j]).path@ == p by {
            assert(string_views(r@).contains(p) <==> exists|k: int, j: int|
                0 <= k < s_old + 1 && 0 <= j < snapshots[k]@.len() && (#[trigger] snapshots[k]@[j]).path@ == p);
        }
    }
    r
}

/// Why one text of a three-way input is refused, if it is.
pub open spec fn chars_refusal(s: Seq<char>) -> Option<Error> {
    match text_refusal(encode_utf8(s)) {
        Some(e) => Some(e),
        None => if has_marker_line(s) {
            Some(Error::ExistingMarker)
        } else {
            None
        },
    }
}

/// Why three texts are refused as a merge input, checked in order.
pub open spec fn texts_refusal(b: Seq<char>, o: Seq<char>, t: Seq<char>) -> Option<Error> {
    if chars_refusal(b) is Some {
        chars_refusal(b)
    } else if chars_refusal(o) is Some {
        chars_refusal(o)
    } else {
        chars_refusal(t)
    }
}

pub open spec fn path_refusal(snaps: [TreeSnapshot; 3], p: Seq<char>) -> Option<Error> {
    texts_refusal(
        content_of(text_at(snaps[0]@, p)),
        content_of(text_at(snaps[1]@, p)),
        content_of(text_at(snaps[2]@, p)),
    )
}

/// The paths of `ps` that changed, in order.
pub open spec fn changed_among(snaps: [TreeSnapshot; 3], ps: Seq<Seq<char>>) -> Seq<Seq<char>>
    decreases ps.len(),
{
    if ps.len() == 0 {
        seq![]
    } else if changed_path(snaps, ps.last()) {
        changed_among(snaps, ps.drop_last()).push(ps.last())
    } else {
        changed_among(snaps, ps.drop_last())
    }
}

proof fn lemma_changed_among(snaps: [TreeSnapshot; 3], ps: Seq<Seq<char>>)
    requires
        strs_sorted(ps),
    ensures
        strs_sorted(changed_among(snaps, ps)),
        forall|p: Seq<char>| #[trigger] changed_among(snaps, ps).contains(p) <==> (ps.contains(p) && changed_path(snaps, p)),
    decreases ps.len(),
{
    if ps.len() > 0 {
        let init = ps.drop_last();
        assert(strs_sorted(init)) by {
            assert forall|i: int, j: int| 0 <= i < j < init.len() implies str_compare(#[trigger] init[i], #[trigger] init[j]) < 0 by {
                assert(init[i] == ps[i] && init[j] == ps[j]);
            }
        }
        lemma_changed_among(snaps, init);
        let c = changed_among(snaps, init);
        if changed_path(snaps, ps.last()) {
            let n = c.push(ps.last());
            assert(strs_sorted(n)) by {
                assert forall|i: int, j: int| 0 <= i < j < n.len() implies str_compare(#[trigger] n[i], #[trigger] n[j]) < 0 by {
                    if j == n.len() - 1 {
                        assert(c.contains(n[i]));
                        let k = choose|k: int| 0 <= k < init.len() && init[k] == n[i];
                        assert(ps[k] == n[i]);
                        assert(str_compare(ps[k], ps[ps.len() - 1]) < 0);
                    } else {
                        assert(n[i] == c[i] && n[j] == c[j]);
                    }
                }
            }
        }
        assert forall|p: Seq<char>| #[trigger] changed_among(snaps, ps).contains(p) <==> (ps.contains(p) && changed_path(snaps, p)) by {
            if ps.contains(p) {
                let k = choose|k: int| 0 <= k < ps.len() && ps[k] == p;
                if k < ps.len() - 1 {
                    assert(init[k] == p);
                }
            }
            if init.contains(p) {
                let k = choose|k: int| 0 <= k < init.len() && init[k] == p;
                assert(ps[k] == p);
            }
            if changed_path(snaps, ps.last()) {
                let n = c.push(ps.last());
                if n.contains(p) {
                    let k = choose|k: int| 0 <= k < n.len() && n[k] == p;
                    if k < c.len() {
                        assert(c[k] == p);
                    }
                }
                if c.contains(p) {
                    let k = choose|k: int| 0 <= k < c.len() && c[k] == p;
                    assert(n[k] == p);
                }
                if p == ps.last() {
                    assert(n[c.len() as int] == p);
                }
            }
        }
    }
}

pub open spec fn plan_paths(files: Seq<PlannedFile>) -> Seq<Seq<char>> {
    files.map_values(|f: PlannedFile| f.path@)
}

/// Checks the snapshots, then prepares every changed path in path order for
/// Git's line merges (diff3, the default labels, markers of width 7).
pub fn plan_analysis(snapshots: &[TreeSnapshot; 3], trees: [String; 3]) -> (r: Result<AnalysisPlan, Error>)
    requires
        forall|k: int| 0 <= k < 3 ==> paths_ordered(#[trigger] snapshots[k]@),
    ensures
        match r {
            Ok(plan) => {
                &&& file_refusal(all_files(*snapshots), 0, 0) is None
                &&& plan.trees == trees
                &&& plan_paths(plan.files@) == planned_paths(*snapshots)
                &&& forall|i: int| 0 <= i < plan.files@.len() ==> planned_from(#[trigger] plan.files@[i], *snapshots)
            },
            Err(e) => match file_refusal(all_files(*snapshots), 0, 0) {
                Some(x) => e == x,
                None => e matches Error::InFile { path, cause } && planned_paths(*snapshots).contains(path@)
                    && path_refusal(*snapshots, path@) == Some(*cause),
            },
        },
{
    match check_files(snapshots) {
        Err(e) => return Err(e),
        Ok(()) => {},
    }
    let paths = all_paths(snapshots);
    let ghost pv = string_views(paths@);
    proof {
        lemma_changed_among(*snapshots, pv);
    }
    let mut files: Vec<PlannedFile> = Vec::new();
    let mut i: usize = 0;
    assert(pv.take(0) =~= Seq::<Seq<char>>::empty());
    assert(plan_paths(files@) =~= Seq::<Seq<char>>::empty());
    while i < paths.len()
        invariant
            i <= paths.len(),
            pv == string_views(paths@),
            strs_sorted(pv),
            forall|p: Seq<char>| #[trigger] pv.contains(p) <==> in_some_snapshot(*snapshots, p),
            forall|k: int| 0 <= k < 3 ==> paths_ordered(#[trigger] snapshots[k]@),
            file_refusal(all_files(*snapshots), 0, 0) is None,
            plan_paths(files@) == changed_among(*snapshots, pv.take(i as int)),
            forall|j: int| 0 <= j < files@.len() ==> planned_from(#[trigger] files@[j], *snapshots),
        decreases paths.len() - i,
    {
        let p = &paths[i];
        assert(pv[i as int] == p@);
        assert(pv.take(i + 1).drop_last() =~= pv.take(i as int));
        let t0 = text_in(&snapshots[0], p);
        let t1 = text_in(&snapshots[1], p);
        let t2 = text_in(&snapshots[2], p);
        if !(same_text_opt(&t0, &t1) && same_text_opt(&t0, &t2)) {
            let c0 = content_string(&t0);
            let c1 = content_string(&t1);
            let c2 = content_string(&t2);
            match prepare(c0.as_str(), c1.as_str(), c2.as_str(), p.as_str(), 7, ConflictStyle::Diff3) {
                Err(e) => {
                    proof {
                        lemma_changed_among(*snapshots, pv);
                        assert(pv.contains(p@));
                        assert(changed_among(*snapshots, pv).contains(p@));
                        let w = planned_paths(*snapshots);
                        lemma_str_order();
                        lemma_sorted_unique(|x: Seq<char>, y: Seq<char>| str_compare(x, y), changed_among(*snapshots, pv), w);
                    }
                    return Err(Error::InFile { path: p.clone(), cause: Box::new(e) });
                },
                Ok(prepared) => {
                    let ghost before = files@;
                    files.push(PlannedFile { path: p.clone(), texts: [t0, t1, t2], prepared });
                    assert(plan_paths(files@) =~= plan_paths(before).push(p@));
                    assert forall|j: int| 0 <= j < files@.len() implies planned_from(#[trigger] files@[j], *snapshots) by {
                        if j < before.len() {
                            assert(files@[j] == before[j]);
                        }
                    }
                },
            }
        }
        i += 1;
    }
    assert(pv.take(paths.len() as int) =~= pv);
    proof {
        let w = planned_paths(*snapshots);
        lemma_str_order();
        lemma_sorted_unique(|x: Seq<char>, y: Seq<char>| str_compare(x, y), changed_among(*snapshots, pv), w);
    }
    Ok(AnalysisPlan { trees, files })
}

// ---------------------------------------------------------------------------
// After Git's line merges: the report.
// ---------------------------------------------------------------------------

/// Git's line merges for one planned file: the whole file, and each aligned
/// region that needs one.
#[derive(Debug)]
pub struct FileLines {
    pub whole: LineMerge,
    pub regions: Vec<Option<LineMerge>>,
}

/// The line merges fit the plan: one entry per planned file, each with what
/// its prepared analysis asks for.
pub open spec fn plan_fits(plan: AnalysisPlan, lines: Seq<FileLines>) -> bool {
    &&& lines.len() == plan.files@.len()
    &&& forall|i: int|
        0 <= i < lines.len() ==> prepared_wf(#[trigger] plan.files@[i].prepared) && lines_fit(
            plan.files@[i].prepared,
            line_views(lines[i].regions@),
        )
}

pub open spec fn side_parts(p: ThreePartitions, k: int) -> Option<Vec<Part>> {
    if k == 0 {
        p.0
    } else if k == 1 {
        p.1
    } else {
        p.2
    }
}

pub open spec fn side_name(k: int) -> Seq<char> {
    if k == 0 {
        "base"@
    } else if k == 1 {
        "ours"@
    } else {
        "theirs"@
    }
}

/// The entities of one side: none where the path is absent on that side,
/// unknown where its partition (or its line numbering) is unavailable.
pub open spec fn side_entities(path: Seq<char>, text: Option<Seq<char>>, parts: Option<Vec<Part>>) -> Option<
    Seq<EntityView>,
> {
    match text {
        None => Some(seq![]),
        Some(t) => match parts {
            None => None,
            Some(ps) => if line_after(part_views(ps@)) <= usize::MAX {
                Some(entities_of(path, content_grammar(t, path), part_views(ps@)))
            } else {
                None
            },
        },
    }
}

pub open spec fn planned_entities(f: PlannedFile, k: int) -> Option<Seq<EntityView>> {
    side_entities(f.path@, opt_string_view(f.texts[k]), side_parts(f.prepared.partitions, k))
}

pub open spec fn planned_parse(f: PlannedFile) -> ParsedFileView {
    ParsedFileView {
        path: f.path@,
        base: planned_entities(f, 0),
        ours: planned_entities(f, 1),
        theirs: planned_entities(f, 2),
    }
}

pub open spec fn plan_parses(files: Seq<PlannedFile>) -> Seq<ParsedFileView> {
    files.map_values(|f: PlannedFile| planned_parse(f))
}

pub open spec fn warning_text(k: int, path: Seq<char>) -> Seq<char> {
    "ENTITY_ANALYSIS_UNAVAILABLE："@ + side_name(k) + ":"@ + path + "；移动关联不完整，单文件严格检查仍执行"@
}

/// A warning of the plan: a side of a planned file whose entities are unknown.
pub open spec fn plan_warning(files: Seq<PlannedFile>, w: Seq<char>) -> bool {
    exists|i: int, k: int|
        0 <= i < files.len() && 0 <= k < 3 && (#[trigger] planned_entities(files[i], k)) is None && w
            == warning_text(k, files[i].path@)
}

pub open spec fn touches(c: MoveEvidenceView, path: Seq<char>) -> bool {
    c.base.path == path || c.target.path == path
}

/// The reasons that the candidates touching `path` give it, in order.
pub open spec fn move_reasons_for(cs: Seq<MoveEvidenceView>, path: Seq<char>) -> Seq<ReasonView>
    decreases cs.len(),
{
    if cs.len() == 0 {
        seq![]
    } else {
        let before = move_reasons_for(cs.drop_last(), path);
        if touches(cs.last(), path) && move_reason(cs.last()) is Some {
            before.push(move_reason(cs.last())->0)
        } else {
            before
        }
    }
}

pub open spec fn fingerprint_of(t: Option<String>) -> Option<Seq<char>> {
    match t {
        Some(s) => Some(hex(sha256(encode_utf8(s@)))),
        None => None,
    }
}

/// A report entry for a planned file and its line merges: the fingerprints of
/// the three texts; the local reasons with those of every candidate touching
/// the path, normalized; the touching candidates as an ordered set.
pub open spec fn file_reported(rf: ReportFile, f: PlannedFile, l: FileLines, cands: Seq<MoveEvidenceView>) -> bool {
    &&& rf.path@ == f.path@
    &&& forall|k: int| 0 <= k < 3 ==> opt_string_view(#[trigger] rf.analysis.fingerprints[k]) == fingerprint_of(f.texts[k])
    &&& normalized(
        collected_reasons(
            reason_views(f.prepared.reasons@),
            l.whole.conflict,
            opt_region_views(f.prepared.regions),
            line_views(l.regions@),
        ) + move_reasons_for(cands, f.path@),
        reason_views(rf.analysis.reasons@),
    )
    &&& moves_sorted(move_views(rf.analysis.related_moves@))
    &&& forall|c: MoveEvidenceView| #[trigger] move_views(rf.analysis.related_moves@).contains(c) <==> (cands.contains(c) && touches(c, f.path@))
}

/// The report of a plan and its line merges.
pub open spec fn report_of(plan: AnalysisPlan, lines: Seq<FileLines>, report: Report) -> bool {
    let cands = move_views(report.move_candidates@);
    &&& report.schema_version == SCHEMA_VERSION
    &&& report.engine@ == engine_name()
    &&& report.trees == plan.trees
    &&& cands == final_candidates(plan_parses(plan.files@))
    &&& report.files@.len() == plan.files@.len()
    &&& forall|i: int| 0 <= i < report.files@.len() ==> file_reported(#[trigger] report.files@[i], plan.files@[i], lines[i], cands)
    &&& strs_sorted(string_views(report.warnings@))
    &&& forall|w: Seq<char>| #[trigger] string_views(report.warnings@).contains(w) <==> plan_warning(plan.files@, w)
}

fn reversed<T>(v: Vec<T>) -> (r: Vec<T>)
    ensures
        r@.len() == v@.len(),
        forall|j: int| 0 <= j < v@.len() ==> #[trigger] r@[j] == v@[v@.len() - 1 - j],
{
    let ghost orig = v@;
    let mut v = v;
    let mut r: Vec<T> = Vec::new();
    while v.len() > 0
        invariant
            v@.len() + r@.len() == orig.len(),
            v@ == orig.take(v@.len() as int),
            forall|j: int| 0 <= j < r@.len() ==> #[trigger] r@[j] == orig[orig.len() - 1 - j],
        decreases v.len(),
    {
        let ghost n = v@.len();
        let x = v.pop().unwrap();
        assert(x == orig[n - 1]);
        r.push(x);
        assert(v@ =~= orig.take(v@.len() as int));
    }
    r
}

fn fingerprint_opt(t: &Option<String>) -> (r: Option<String>)
    ensures
        opt_string_view(r) == fingerprint_of(*t),
{
    match t {
        Some(s) => Some(fingerprint(s.as_str())),
        None => None,
    }
}

fn side_name_string(k: usize) -> (r: String)
    requires
        k < 3,
    ensures
        r@ == side_name(k as int),
{
    if k == 0 {
        String::from_str("base")
    } else if k == 1 {
        String::from_str("ours")
    } else {
        String::from_str("theirs")
    }
}

fn warning_string(k: usize, path: &String) -> (r: String)
    requires
        k < 3,
    ensures
        r@ == warning_text(k as int, path@),
{
    let head = String::from_str("ENTITY_ANALYSIS_UNAVAILABLE：");
    let name = side_name_string(k);
    let colon = String::from_str(":");
    let tail = String::from_str("；移动关联不完整，单文件严格检查仍执行");
    let a = crate::text::concat(head.as_str(), name.as_str());
    let b = crate::text::concat(a.as_str(), colon.as_str());
    let c = crate::text::concat(b.as_str(), path.as_str());
    crate::text::concat(c.as_str(), tail.as_str())
}

/// The entities of one side of a planned file.
fn parse_side(path: &String, text: &Option<String>, parts: &Option<Vec<Part>>) -> (r: Option<Vec<Entity>>)
    ensures
        opt_entities_view(r) == side_entities(path@, opt_string_view(*text), *parts),
{
    match text {
        None => {
            let v: Vec<Entity> = Vec::new();
            assert(entity_views(v@) =~= Seq::<EntityView>::empty());
            Some(v)
        },
        Some(t) => match parts {
            None => None,
            Some(ps) => {
                if line_numbers_fit(ps) {
                    Some(entities(path.as_str(), t.as_str(), ps))
                } else {
                    None
                }
            },
        },
    }
}

/// Adds the reasons of the candidates touching `path` and normalizes; returns
/// those candidates as an ordered set.
fn add_candidate_findings(reasons: &mut Vec<Reason>, candidates: &Vec<MoveEvidence>, path: &String) -> (related: Vec<
    MoveEvidence,
>)
    ensures
        normalized(
            reason_views(old(reasons)@) + move_reasons_for(move_views(candidates@), path@),
            reason_views(final(reasons)@),
        ),
        moves_sorted(move_views(related@)),
        forall|c: MoveEvidenceView| #[trigger] move_views(related@).contains(c) <==> (move_views(candidates@).contains(c)
            && touches(c, path@)),
{
    let ghost cv = move_views(candidates@);
    let mut more: Vec<Reason> = Vec::new();
    let mut related: Vec<MoveEvidence> = Vec::new();
    assert(reason_views(more@) =~= move_reasons_for(cv.take(0), path@));
    assert(move_views(related@) =~= Seq::<MoveEvidenceView>::empty());
    let mut i: usize = 0;
    while i < candidates.len()
        invariant
            i <= candidates.len(),
            cv == move_views(candidates@),
            reason_views(more@) == move_reasons_for(cv.take(i as int), path@),
            moves_sorted(move_views(related@)),
            forall|c: MoveEvidenceView| #[trigger] move_views(related@).contains(c) <==> (cv.take(i as int).contains(c)
                && touches(c, path@)),
        decreases candidates.len() - i,
    {
        let c = &candidates[i];
        assert(cv[i as int] == c@);
        assert(cv.take(i + 1).drop_last() =~= cv.take(i as int));
        assert(cv.take(i + 1).last() == c@);
        let ghost before = move_views(related@);
        if c.base.path == *path || c.target.path == *path {
            insert_move(&mut related, c.copy());
            let ghost mb = reason_views(more@);
            match conflict_reason(c) {
                Some(r) => {
                    more.push(r);
                    assert(reason_views(more@) =~= mb.push(r@));
                },
                None => {},
            }
        }
        assert forall|x: MoveEvidenceView| #[trigger] move_views(related@).contains(x) <==> (cv.take(i + 1).contains(x)
            && touches(x, path@)) by {
            if cv.take(i + 1).contains(x) && !cv.take(i as int).contains(x) {
                let k = choose|k: int| 0 <= k < i + 1 && #[trigger] cv.take(i + 1)[k] == x;
                if k < i {
                    assert(cv.take(i as int)[k] == x);
                }
            }
            if cv.take(i as int).contains(x) {
                let k = choose|k: int| 0 <= k < i && #[trigger] cv.take(i as int)[k] == x;
                assert(cv.take(i + 1)[k] == x);
            }
            if x == c@ {
                assert(cv.take(i + 1)[i as int] == x);
            }
        }
        let ghost i_old = i;
        i += 1;
        assert forall|x: MoveEvidenceView| #[trigger] move_views(related@).contains(x) <==> (cv.take(i as int).contains(x)
            && touches(x, path@)) by {
            assert(move_views(related@).contains(x) <==> (cv.take(i_old + 1).contains(x) && touches(x, path@)));
        }
    }
    assert(cv.take(candidates.len() as int) =~= cv);
    let ghost start = reason_views(reasons@);
    reasons.append(&mut more);
    assert(reason_views(reasons@) =~= start + move_reasons_for(cv, path@));
    normalize(reasons);
    related
}

/// The warnings of one planned file.
pub open spec fn file_warning(f: PlannedFile, w: Seq<char>) -> bool {
    exists|k: int| 0 <= k < 3 && (#[trigger] planned_entities(f, k)) is None && w == warning_text(k, f.path@)
}

/// A report entry before the candidates are known.
pub open spec fn entry_started(rf: ReportFile, f: PlannedFile, l: FileLines) -> bool {
    &&& rf.path@ == f.path@
    &&& forall|k: int| 0 <= k < 3 ==> opt_string_view(#[trigger] rf.analysis.fingerprints[k]) == fingerprint_of(f.texts[k])
    &&& normalized(
        collected_reasons(
            reason_views(f.prepared.reasons@),
            l.whole.conflict,
            opt_region_views(f.prepared.regions),
            line_views(l.regions@),
        ),
        reason_views(rf.analysis.reasons@),
    )
}

/// A report entry with the findings of the candidates added.
pub open spec fn entry_finished(done: ReportFile, started: ReportFile, cands: Seq<MoveEvidenceView>) -> bool {
    &&& done.path@ == started.path@
    &&& done.analysis.fingerprints == started.analysis.fingerprints
    &&& normalized(
        reason_views(started.analysis.reasons@) + move_reasons_for(cands, started.path@),
        reason_views(done.analysis.reasons@),
    )
    &&& moves_sorted(move_views(done.analysis.related_moves@))
    &&& forall|c: MoveEvidenceView| #[trigger] move_views(done.analysis.related_moves@).contains(c) <==> (cands.contains(c)
        && touches(c, started.path@))
}

fn add_warning(warnings: &mut Vec<String>, parsed: &Option<Vec<Entity>>, k: usize, path: &String)
    requires
        k < 3,
        strs_sorted(string_views(old(warnings)@)),
    ensures
        strs_sorted(string_views(final(warnings)@)),
        forall|w: Seq<char>| #[trigger] string_views(final(warnings)@).contains(w) <==> (string_views(old(warnings)@).contains(w)
            || (parsed is None && w == warning_text(k as int, path@))),
{
    if parsed.is_none() {
        insert_string(warnings, warning_string(k, path));
    }
}

/// One planned file's local analysis, fingerprints, entities and warnings.
fn analyze_file(f: PlannedFile, l: FileLines, warnings: &mut Vec<String>) -> (r: (ReportFile, ParsedFile))
    requires
        prepared_wf(f.prepared),
        lines_fit(f.prepared, line_views(l.regions@)),
        strs_sorted(string_views(old(warnings)@)),
    ensures
        entry_started(r.0, f, l),
        r.1@ == planned_parse(f),
        strs_sorted(string_views(final(warnings)@)),
        forall|w: Seq<char>| #[trigger] string_views(final(warnings)@).contains(w) <==> (string_views(old(warnings)@).contains(w)
            || file_warning(f, w)),
{
    let ghost fg = f;
    let ghost lg = l;
    let ghost start = string_views(warnings@);
    let PlannedFile { path, texts, prepared } = f;
    let FileLines { whole, regions } = l;
    let local = crate::analysis::local::analyze(prepared, whole, &regions, ConflictStyle::Diff3);
    let fingerprints = [fingerprint_opt(&texts[0]), fingerprint_opt(&texts[1]), fingerprint_opt(&texts[2])];
    let base = parse_side(&path, &texts[0], &local.partitions.0);
    let ours = parse_side(&path, &texts[1], &local.partitions.1);
    let theirs = parse_side(&path, &texts[2], &local.partitions.2);
    assert(opt_entities_view(base) == planned_entities(fg, 0));
    assert(opt_entities_view(ours) == planned_entities(fg, 1));
    assert(opt_entities_view(theirs) == planned_entities(fg, 2));
    add_warning(warnings, &base, 0, &path);
    add_warning(warnings, &ours, 1, &path);
    add_warning(warnings, &theirs, 2, &path);
    assert forall|w: Seq<char>| #[trigger] string_views(warnings@).contains(w) <==> (start.contains(w) || file_warning(fg, w)) by {
        if file_warning(fg, w) {
            let k = choose|k: int| 0 <= k < 3 && (#[trigger] planned_entities(fg, k)) is None && w == warning_text(k, fg.path@);
            assert(k == 0 || k == 1 || k == 2);
        }
        if base is None && w == warning_text(0, path@) {
            assert(planned_entities(fg, 0) is None);
        }
        if ours is None && w == warning_text(1, path@) {
            assert(planned_entities(fg, 1) is None);
        }
        if theirs is None && w == warning_text(2, path@) {
            assert(planned_entities(fg, 2) is None);
        }
    }
    let parsed = ParsedFile { path: path.clone(), base, ours, theirs };
    let entry = ReportFile {
        path,
        analysis: FileAnalysis { fingerprints, reasons: local.reasons, related_moves: Vec::new() },
    };
    assert forall|k: int| 0 <= k < 3 implies opt_string_view(#[trigger] entry.analysis.fingerprints[k]) == fingerprint_of(fg.texts[k]) by {
        assert(k == 0 || k == 1 || k == 2);
    }
    (entry, parsed)
}

/// Every planned file's local analysis, fingerprints, entities and warnings.
fn analyze_files(files: Vec<PlannedFile>, lines: Vec<FileLines>) -> (r: (Vec<ReportFile>, Vec<ParsedFile>, Vec<String>))
    requires
        lines@.len() == files@.len(),
        forall|i: int|
            0 <= i < files@.len() ==> prepared_wf(#[trigger] files@[i].prepared) && lines_fit(
                files@[i].prepared,
                line_views(lines@[i].regions@),
            ),
    ensures
        r.0@.len() == files@.len(),
        forall|i: int| 0 <= i < files@.len() ==> entry_started(#[trigger] r.0@[i], files@[i], lines@[i]),
        file_views(r.1@) == plan_parses(files@),
        strs_sorted(string_views(r.2@)),
        forall|w: Seq<char>| #[trigger] string_views(r.2@).contains(w) <==> plan_warning(files@, w),
{
    let ghost fs = files@;
    let ghost ls = lines@;
    let n = files.len();
    let mut rf = reversed(files);
    let mut rl = reversed(lines);
    let mut entries: Vec<ReportFile> = Vec::new();
    let mut parsed: Vec<ParsedFile> = Vec::new();
    let mut warnings: Vec<String> = Vec::new();
    assert(string_views(warnings@) =~= Seq::<Seq<char>>::empty());
    let mut i: usize = 0;
    while i < n
        invariant
            n == fs.len(),
            ls.len() == n,
            i <= n,
            rf@.len() == n - i,
            rl@.len() == n - i,
            forall|j: int| 0 <= j < rf@.len() ==> #[trigger] rf@[j] == fs[n - 1 - j],
            forall|j: int| 0 <= j < rl@.len() ==> #[trigger] rl@[j] == ls[n - 1 - j],
            forall|j: int|
                0 <= j < n ==> prepared_wf(#[trigger] fs[j].prepared) && lines_fit(fs[j].prepared, line_views(ls[j].regions@)),
            entries@.len() == i,
            forall|j: int| 0 <= j < i ==> entry_started(#[trigger] entries@[j], fs[j], ls[j]),
            file_views(parsed@) == plan_parses(fs.take(i as int)),
            strs_sorted(string_views(warnings@)),
            forall|w: Seq<char>| #[trigger] string_views(warnings@).contains(w) <==> plan_warning(fs.take(i as int), w),
        decreases n - i,
    {
        let ghost k = rf@.len() - 1;
        assert(rf@[k] == fs[i as int]);
        assert(rl@[k] == ls[i as int]);
        let f = rf.pop().unwrap();
        let l = rl.pop().unwrap();
        let ghost before_w = string_views(warnings@);
        let ghost before_p = parsed@;
        let (entry, p) = analyze_file(f, l, &mut warnings);
        entries.push(entry);
        parsed.push(p);
        assert(file_views(parsed@) =~= file_views(before_p).push(parsed@[i as int]@));
        assert(fs.take(i + 1) =~= fs.take(i as int).push(fs[i as int]));
        assert(plan_parses(fs.take(i + 1)) =~= plan_parses(fs.take(i as int)).push(planned_parse(fs[i as int])));
        assert forall|w: Seq<char>| #[trigger] string_views(warnings@).contains(w) <==> plan_warning(fs.take(i + 1), w) by {
            let t0 = fs.take(i as int);
            let t1 = fs.take(i + 1);
            if plan_warning(t1, w) {
                let (a, b) = choose|a: int, b: int|
                    0 <= a < t1.len() && 0 <= b < 3 && (#[trigger] planned_entities(t1[a], b)) is None && w
                        == warning_text(b, t1[a].path@);
                if a < i {
                    assert(t0[a] == t1[a]);
                    assert(planned_entities(t0[a], b) is None);
                } else {
                    assert(t1[a] == fs[i as int]);
                    assert(planned_entities(fs[i as int], b) is None);
                }
            }
            if plan_warning(t0, w) {
                let (a, b) = choose|a: int, b: int|
                    0 <= a < t0.len() && 0 <= b < 3 && (#[trigger] planned_entities(t0[a], b)) is None && w
                        == warning_text(b, t0[a].path@);
                assert(t1[a] == t0[a]);
                assert(planned_entities(t1[a], b) is None);
            }
            if file_warning(fs[i as int], w) {
                let b = choose|b: int| 0 <= b < 3 && (#[trigger] planned_entities(fs[i as int], b)) is None && w
                    == warning_text(b, fs[i as int].path@);
                assert(t1[i as int] == fs[i as int]);
                assert(planned_entities(t1[i as int], b) is None);
            }
        }
        let ghost i_old = i;
        i += 1;
        assert forall|w: Seq<char>| #[trigger] string_views(warnings@).contains(w) <==> plan_warning(fs.take(i as int), w) by {
            assert(string_views(warnings@).contains(w) <==> plan_warning(fs.take(i_old + 1), w));
        }
    }
    assert(fs.take(n as int) =~= fs);
    (entries, parsed, warnings)
}

/// Adds every candidate's findings to the entries it touches.
fn finish_files(entries: Vec<ReportFile>, candidates: &Vec<MoveEvidence>) -> (r: Vec<ReportFile>)
    ensures
        r@.len() == entries@.len(),
        forall|i: int| 0 <= i < entries@.len() ==> entry_finished(#[trigger] r@[i], entries@[i], move_views(candidates@)),
{
    let ghost es = entries@;
    let n = entries.len();
    let mut rest = reversed(entries);
    let mut done: Vec<ReportFile> = Vec::new();
    let mut i: usize = 0;
    while i < n
        invariant
            n == es.len(),
            i <= n,
            rest@.len() == n - i,
            forall|j: int| 0 <= j < rest@.len() ==> #[trigger] rest@[j] == es[n - 1 - j],
            done@.len() == i,
            forall|j: int| 0 <= j < i ==> entry_finished(#[trigger] done@[j], es[j], move_views(candidates@)),
        decreases n - i,
    {
        let ghost k = rest@.len() - 1;
        assert(rest@[k] == es[i as int]);
        let e = rest.pop().unwrap();
        let ReportFile { path, analysis } = e;
        let FileAnalysis { fingerprints, reasons, related_moves: _ } = analysis;
        let mut reasons = reasons;
        let related = add_candidate_findings(&mut reasons, candidates, &path);
        done.push(ReportFile { path, analysis: FileAnalysis { fingerprints, reasons, related_moves: related } });
        i += 1;
    }
    done
}

/// The report of a plan, given Git's line merges for each planned file:
/// each file's local reasons, the cross-file candidates and what they add to
/// the files they touch, and a warning for each side whose entities are
/// unknown.
pub fn analyze(plan: AnalysisPlan, lines: Vec<FileLines>) -> (r: Result<Report, Error>)
    requires
        plan_fits(plan, lines@),
    ensures
        match r {
            Ok(report) => report_of(plan, lines@, report),
            Err(e) => e == Error::TooManyCandidates,
        },
        r is Ok <==> candidates_fit(plan_parses(plan.files@)),
{
    let ghost pg = plan;
    let ghost ls = lines@;
    let AnalysisPlan { trees, files } = plan;
    let (entries, parsed, warnings) = analyze_files(files, lines);
    let candidates = match find_candidates(&parsed) {
        Ok(c) => c,
        Err(e) => return Err(e),
    };
    let ghost es = entries@;
    let ghost cands = move_views(candidates@);
    let done = finish_files(entries, &candidates);
    proof {
        assert forall|i: int| 0 <= i < done@.len() implies file_reported(#[trigger] done@[i], pg.files@[i], ls[i], cands) by {
            let f = pg.files@[i];
            let l = ls[i];
            assert(entry_started(es[i], f, l));
            assert(entry_finished(done@[i], es[i], cands));
            crate::reason::order::law_normalize_extend(
                collected_reasons(
                    reason_views(f.prepared.reasons@),
                    l.whole.conflict,
                    opt_region_views(f.prepared.regions),
                    line_views(l.regions@),
                ),
                reason_views(es[i].analysis.reasons@),
                move_reasons_for(cands, f.path@),
                reason_views(done@[i].analysis.reasons@),
            );
            assert forall|k: int| 0 <= k < 3 implies opt_string_view(#[trigger] done@[i].analysis.fingerprints[k]) == fingerprint_of(f.texts[k]) by {
                assert(opt_string_view(es[i].analysis.fingerprints[k]) == fingerprint_of(f.texts[k]));
            }
        }
    }
    Ok(
        Report {
            schema_version: SCHEMA_VERSION,
            engine: String::from_str("strict-weave-global-v9"),
            trees,
            files: done,
            move_candidates: candidates,
            warnings,
        },
    )
}

impl AnalysisPlan {
    /// Whether `lines` fits the plan: one entry per planned file, with what
    /// its prepared analysis asks for.
    pub fn accepts(&self, lines: &Vec<FileLines>) -> (r: bool)
        ensures
            r == plan_fits(*self, lines@),
    {
        if lines.len() != self.files.len() {
            return false;
        }
        let mut i: usize = 0;
        while i < lines.len()
            invariant
                i <= lines.len(),
                lines@.len() == self.files@.len(),
                forall|j: int|
                    0 <= j < i ==> prepared_wf(#[trigger] self.files@[j].prepared) && lines_fit(
                        self.files@[j].prepared,
                        line_views(lines@[j].regions@),
                    ),
            decreases lines.len() - i,
        {
            if !(self.files[i].prepared.is_well_formed() && self.files[i].prepared.accepts(&lines[i].regions)) {
                return false;
            }
            i += 1;
        }
        true
    }
}

// ---------------------------------------------------------------------------
// Laws.
// ---------------------------------------------------------------------------

/// Applying a report never withdraws a finding: every kind and subject of
/// the outcome's reasons and of the report's reasons for the file is still
/// there, with all of its evidence.
pub proof fn law_global_reasons_kept(
    local: Seq<ReasonView>,
    global: Seq<ReasonView>,
    out: Seq<ReasonView>,
    r: ReasonView,
    x: crate::reason::EvidenceView,
)
    requires
        normalized(local + global, out),
        local.contains(r) || global.contains(r),
        r.evidence.contains(x),
    ensures
        exists|i: int|
            0 <= i < out.len() && out[i].kind == r.kind && out[i].subject == r.subject && #[trigger] out[i].evidence.contains(
                x,
            ),
{
    let all = local + global;
    let j = if local.contains(r) {
        let j = choose|j: int| 0 <= j < local.len() && local[j] == r;
        assert(all[j] == r);
        j
    } else {
        let j = choose|j: int| 0 <= j < global.len() && global[j] == r;
        assert(all[j + local.len()] == r);
        j + local.len()
    };
    assert(crate::reason::order::has_key(all, r.kind, r.subject));
    assert(crate::reason::order::grouped_evidence(all, r.kind, r.subject, x));
    let i = choose|i: int| 0 <= i < out.len() && out[i].kind == r.kind && #[trigger] out[i].subject == r.subject;
    assert(out[i].evidence.contains(x));
}

/// A report tells an absent path from an empty file: the fingerprint of an
/// absent side is none, that of an empty file is the digest of no bytes.
pub proof fn law_absent_differs_from_empty(empty: String)
    requires
        empty@.len() == 0,
    ensures
        fingerprint_of(None) is None,
        fingerprint_of(Some(empty)) == Some(hex(sha256(seq![]))),
{
    assert(encode_utf8(empty@) =~= Seq::<u8>::empty()) by {
        assert(empty@ =~= Seq::<char>::empty());
    }
}

} // verus!
