//! Single-file driver entry: validate the input, analyze, then render.
use vstd::prelude::*;
use vstd::string::{StringExecFns, StringSliceAdditionalSpecFns};
use vstd::utf8::{decode_utf8, valid_utf8};
use crate::error::Error;
use crate::reason::{MoveEvidence, Reason};
use crate::text::push_char;
use crate::analysis::local::{
    analyze, collected_reasons, compact_of, line_views, lines_fit, merged_regions, prepared_wf,
    LineMerge, Prepared,
};
use crate::analysis::raw::opt_region_views;
use crate::reason::order::normalized;
use crate::reason::reason_views;
use crate::merge::render::{render, shown};

pub mod conflict;
pub mod render;

pub use conflict::conflict_box;

verus! {

/// Per-file size limit of the strict analysis.
pub const MAX_BYTES: usize = 1_000_000;

#[derive(Clone, Copy, Debug, PartialEq, Eq, Structural)]
pub enum ConflictStyle {
    Diff3,
    Zdiff3,
}

impl Default for ConflictStyle {
    fn default() -> (r: Self)
        ensures
            r == ConflictStyle::Diff3,
    {
        ConflictStyle::Diff3
    }
}

#[derive(Debug)]
pub struct Labels {
    pub ours: String,
    pub base: String,
    pub theirs: String,
}

pub struct LabelsView {
    pub ours: Seq<char>,
    pub base: Seq<char>,
    pub theirs: Seq<char>,
}

impl View for Labels {
    type V = LabelsView;

    open spec fn view(&self) -> LabelsView {
        LabelsView { ours: self.ours@, base: self.base@, theirs: self.theirs@ }
    }
}

pub open spec fn marker_label(side: Seq<char>, label: Seq<char>) -> Seq<char> {
    "⎇ "@ + side + ": "@ + safe_chars(label)
}

fn marker(side: &str, label: &String) -> (r: String)
    ensures
        r@ == marker_label(side@, label@),
{
    let mut s = String::from_str("⎇ ");
    s.append(side);
    s.append(": ");
    s.append(safe_label(label.as_str()).as_str());
    s
}

impl Labels {
    pub fn copy(&self) -> (r: Labels)
        ensures
            r@ == self@,
    {
        Labels { ours: self.ours.clone(), base: self.base.clone(), theirs: self.theirs.clone() }
    }

    /// Text after the `<` marker run: the side and its sanitized label.
    pub fn ours_marker(&self) -> (r: String)
        ensures
            r@ == marker_label("ours"@, self.ours@),
    {
        marker("ours", &self.ours)
    }

    pub fn base_marker(&self) -> (r: String)
        ensures
            r@ == marker_label("base"@, self.base@),
    {
        marker("base", &self.base)
    }

    pub fn theirs_marker(&self) -> (r: String)
        ensures
            r@ == marker_label("theirs"@, self.theirs@),
    {
        marker("theirs", &self.theirs)
    }
}

impl Default for Labels {
    fn default() -> (r: Self)
        ensures
            r@.ours == "来源未识别"@,
            r@.base == "来源未识别"@,
            r@.theirs == "来源未识别"@,
    {
        Labels {
            ours: String::from_str("来源未识别"),
            base: String::from_str("来源未识别"),
            theirs: String::from_str("来源未识别"),
        }
    }
}

#[derive(Debug)]
pub struct Outcome {
    pub content: String,
    pub reasons: Vec<Reason>,
    /// Non-blocking cross-file associations; a candidate is not a conflict.
    pub related_moves: Vec<MoveEvidence>,
}

impl Outcome {
    pub fn conflicted(&self) -> (r: bool)
        ensures
            r == (self.reasons@.len() > 0),
    {
        self.reasons.len() != 0
    }
}

/// Control codes (general category Cc), the class `char::is_control` tests.
pub open spec fn spec_is_control(c: char) -> bool {
    let u = c as u32;
    u <= 0x1f || (0x7f <= u && u <= 0x9f)
}

/// Every control code replaced by a space, so that a label stays on one line.
pub open spec fn safe_chars(s: Seq<char>) -> Seq<char> {
    s.map_values(|c: char| if spec_is_control(c) { ' ' } else { c })
}

// Prevent multiline labels from becoming source text or terminal control sequences.
pub fn safe_label(value: &str) -> (r: String)
    ensures
        r@ == safe_chars(value@),
{
    let mut r = String::new();
    for c in it: value.chars()
        invariant
            r@ == safe_chars(it.seq().take(it.index() as int)),
    {
        let u = c as u32;
        let d = if u <= 0x1f || (0x7f <= u && u <= 0x9f) {
            ' '
        } else {
            c
        };
        proof {
            let done = it.seq().take(it.index() as int);
            let next = it.seq().take(it.index() + 1);
            assert(next =~= done.push(c));
            assert(safe_chars(next) =~= safe_chars(done).push(d));
        }
        push_char(&mut r, d);
    }
    r
}

/// Decoding per `std::str::from_utf8`: `None` exactly when the bytes are not
/// UTF-8, else the decoded characters.
#[verifier::external_body]
pub(crate) fn decode_text(bytes: &[u8]) -> (r: Option<String>)
    ensures
        r is Some <==> valid_utf8(bytes@),
        r matches Some(s) ==> s@ == decode_utf8(bytes@),
{
    std::str::from_utf8(bytes).ok().map(|s| s.to_string())
}

/// Why a byte string is refused as a text input, checked in this order.
pub open spec fn text_refusal(bytes: Seq<u8>) -> Option<Error> {
    if bytes.len() > MAX_BYTES {
        Some(Error::TooLarge)
    } else if bytes.contains(0u8) {
        Some(Error::Binary)
    } else if !valid_utf8(bytes) {
        Some(Error::NotUtf8)
    } else {
        None
    }
}

fn has_nul(bytes: &[u8]) -> (r: bool)
    ensures
        r == bytes@.contains(0u8),
{
    let mut i: usize = 0;
    while i < bytes.len()
        invariant
            i <= bytes.len(),
            forall|k: int| 0 <= k < i ==> bytes@[k] != 0u8,
        decreases bytes.len() - i,
    {
        if bytes[i] == 0 {
            assert(bytes@[i as int] == 0u8);
            return true;
        }
        i += 1;
    }
    false
}

/// Accept only bounded, NUL-free UTF-8 text.
pub fn validate_text(bytes: &[u8]) -> (r: Result<String, Error>)
    ensures
        match text_refusal(bytes@) {
            Some(e) => r matches Err(f) && f == e,
            None => r matches Ok(s) && s@ == decode_utf8(bytes@),
        },
{
    if bytes.len() > MAX_BYTES {
        return Err(Error::TooLarge);
    }
    if has_nul(bytes) {
        return Err(Error::Binary);
    }
    match decode_text(bytes) {
        Some(s) => Ok(s),
        None => Err(Error::NotUtf8),
    }
}

pub open spec fn marker_prefix(k: int) -> Seq<char> {
    if k == 0 {
        "<<<<<<<"@
    } else if k == 1 {
        "|||||||"@
    } else if k == 2 {
        "======="@
    } else {
        ">>>>>>>"@
    }
}

/// Some line of the text begins with one of the four marker prefixes.
pub open spec fn has_marker_line(s: Seq<char>) -> bool {
    exists|i: int, k: int|
        #![trigger s.subrange(i, i + 7), marker_prefix(k)]
        0 <= i && i + 7 <= s.len() && 0 <= k < 4 && (i == 0 || s[i - 1] == '\n') && s.subrange(
            i,
            i + 7,
        ) == marker_prefix(k)
}

/// The refusal for one text of a three-way input, if any.
pub open spec fn input_refusal(text: &str) -> Option<Error> {
    match text_refusal(text.spec_bytes()) {
        Some(e) => Some(e),
        None => if has_marker_line(text@) {
            Some(Error::ExistingMarker)
        } else {
            None
        },
    }
}

pub open spec fn inputs_refusal(texts: [&str; 3], width: usize) -> Option<Error> {
    if !(7 <= width <= 100) {
        Some(Error::MarkerSize)
    } else if input_refusal(texts[0]) is Some {
        input_refusal(texts[0])
    } else if input_refusal(texts[1]) is Some {
        input_refusal(texts[1])
    } else {
        input_refusal(texts[2])
    }
}

fn same_run(v: &Vec<char>, i: usize, c: char) -> (r: bool)
    requires
        i + 7 <= v.len(),
    ensures
        r == (v@.subrange(i as int, i + 7) == seq![c, c, c, c, c, c, c]),
{
    let ok = v[i] == c && v[i + 1] == c && v[i + 2] == c && v[i + 3] == c && v[i + 4] == c && v[i
        + 5] == c && v[i + 6] == c;
    proof {
        if ok {
            assert(v@.subrange(i as int, i + 7) =~= seq![c, c, c, c, c, c, c]);
        } else {
            if v@.subrange(i as int, i + 7) == seq![c, c, c, c, c, c, c] {
                assert(v@.subrange(i as int, i + 7)[0] == c);
                assert(v@.subrange(i as int, i + 7)[1] == c);
                assert(v@.subrange(i as int, i + 7)[2] == c);
                assert(v@.subrange(i as int, i + 7)[3] == c);
                assert(v@.subrange(i as int, i + 7)[4] == c);
                assert(v@.subrange(i as int, i + 7)[5] == c);
                assert(v@.subrange(i as int, i + 7)[6] == c);
            }
        }
    }
    ok
}

proof fn lemma_marker_prefixes()
    ensures
        marker_prefix(0) == seq!['<', '<', '<', '<', '<', '<', '<'],
        marker_prefix(1) == seq!['|', '|', '|', '|', '|', '|', '|'],
        marker_prefix(2) == seq!['=', '=', '=', '=', '=', '=', '='],
        marker_prefix(3) == seq!['>', '>', '>', '>', '>', '>', '>'],
{
    reveal_strlit("<<<<<<<");
    reveal_strlit("|||||||");
    reveal_strlit("=======");
    reveal_strlit(">>>>>>>");
    assert(marker_prefix(0) =~= seq!['<', '<', '<', '<', '<', '<', '<']);
    assert(marker_prefix(1) =~= seq!['|', '|', '|', '|', '|', '|', '|']);
    assert(marker_prefix(2) =~= seq!['=', '=', '=', '=', '=', '=', '=']);
    assert(marker_prefix(3) =~= seq!['>', '>', '>', '>', '>', '>', '>']);
}

/// Refuse rather than nest an already conflicted input; this deliberately
/// also rejects source text quoting marker lines.
fn marker_line(text: &str) -> (r: bool)
    ensures
        r == has_marker_line(text@),
{
    let v = crate::text::chars_of(text);
    proof {
        lemma_marker_prefixes();
    }
    let mut i: usize = 0;
    while i < v.len()
        invariant
            i <= v.len(),
            v@ == text@,
            forall|j: int, k: int|
                #![trigger v@.subrange(j, j + 7), marker_prefix(k)]
                0 <= j < i && j + 7 <= v@.len() && 0 <= k < 4 && (j == 0 || v@[j - 1] == '\n')
                    ==> v@.subrange(j, j + 7) != marker_prefix(k),
        decreases v.len() - i,
    {
        proof {
            lemma_marker_prefixes();
        }
        if (i == 0 || v[i - 1] == '\n') && v.len() >= 7 && i <= v.len() - 7 {
            let found = if same_run(&v, i, '<') {
                assert(v@.subrange(i as int, i + 7) == marker_prefix(0));
                true
            } else if same_run(&v, i, '|') {
                assert(v@.subrange(i as int, i + 7) == marker_prefix(1));
                true
            } else if same_run(&v, i, '=') {
                assert(v@.subrange(i as int, i + 7) == marker_prefix(2));
                true
            } else if same_run(&v, i, '>') {
                assert(v@.subrange(i as int, i + 7) == marker_prefix(3));
                true
            } else {
                false
            };
            if found {
                return true;
            }
        }
        i += 1;
    }
    false
}

/// Bounded size, text encoding and no existing markers, for all three inputs.
/// A text that a merge may take: at most `MAX_BYTES` bytes, no NUL byte,
/// UTF-8, and no line that starts like a conflict marker.
pub open spec fn acceptable_text(text: &str) -> bool {
    &&& text.spec_bytes().len() <= MAX_BYTES
    &&& !text.spec_bytes().contains(0u8)
    &&& valid_utf8(text.spec_bytes())
    &&& !has_marker_line(text@)
}

/// Merge inputs are accepted exactly when the marker width is within
/// 7..=100 and each of the three texts (base, ours and theirs alike) is
/// acceptable; a refused input names the first failing check.
pub proof fn law_inputs_checked(texts: [&str; 3], width: usize)
    ensures
        inputs_refusal(texts, width) is None <==> (7 <= width <= 100 && forall|k: int|
            0 <= k < 3 ==> acceptable_text(#[trigger] texts[k])),
        !acceptable_text(texts[2]) ==> inputs_refusal(texts, width) is Some,
        !acceptable_text(texts[1]) ==> inputs_refusal(texts, width) is Some,
        !acceptable_text(texts[0]) ==> inputs_refusal(texts, width) is Some,
{
    assert(forall|k: int| 0 <= k < 3 ==> (acceptable_text(#[trigger] texts[k]) <==> input_refusal(texts[k]) is None));
}

pub fn validate_inputs(texts: [&str; 3], width: usize) -> (r: Result<(), Error>)
    ensures
        match inputs_refusal(texts, width) {
            Some(e) => r matches Err(f) && f == e,
            None => r is Ok,
        },
        r is Ok ==> 7 <= width <= 100 && acceptable_text(texts[0]) && acceptable_text(texts[1])
            && acceptable_text(texts[2]),
{
    proof {
        law_inputs_checked(texts, width);
    }
    if !(7 <= width && width <= 100) {
        return Err(Error::MarkerSize);
    }
    let mut i: usize = 0;
    while i < 3
        invariant
            0 <= i <= 3,
            7 <= width <= 100,
            forall|k: int| 0 <= k < i ==> input_refusal(#[trigger] texts[k]) is None,
        decreases 3 - i,
    {
        let text = texts[i];
        match validate_text(text.as_bytes()) {
            Err(e) => {
                return Err(e);
            },
            Ok(_) => {},
        }
        if marker_line(text) {
            return Err(Error::ExistingMarker);
        }
        i += 1;
    }
    Ok(())
}

/// Completes the analysis of a prepared file with Git's line merges (`whole`
/// of the whole file, `lines` of the regions that `prepare` left without a
/// strict reason) and renders it in the chosen style. All conflict analysis
/// is complete before a display is chosen.
pub fn merge_with_style(
    prepared: Prepared,
    whole: LineMerge,
    lines: &Vec<Option<LineMerge>>,
    labels: &Labels,
    width: usize,
    style: ConflictStyle,
) -> (r: Outcome)
    requires
        lines_fit(prepared, line_views(lines@)),
        prepared_wf(prepared),
    ensures
        normalized(
            collected_reasons(
                reason_views(prepared.reasons@),
                whole.conflict,
                opt_region_views(prepared.regions),
                line_views(lines@),
            ),
            reason_views(r.reasons@),
        ),
        r.content@ == shown(
            whole.conflict,
            prepared.weave_refused,
            merged_regions(prepared.regions, line_views(lines@)),
            prepared.partitions,
            reason_views(r.reasons@),
            whole.content@,
            compact_of(prepared, whole.conflict, line_views(lines@), style),
            (prepared.base@, prepared.ours@, prepared.theirs@),
            labels@,
            width as nat,
        ),
        r.related_moves@.len() == 0,
        merged_as(prepared, whole, lines@, *labels, width as nat, style, r),
{
    let base = prepared.base.clone();
    let ours = prepared.ours.clone();
    let theirs = prepared.theirs.clone();
    let analysis = analyze(prepared, whole, lines, style);
    let content = render(&analysis, [base.as_str(), ours.as_str(), theirs.as_str()], labels, width);
    Outcome { content, reasons: analysis.reasons, related_moves: Vec::new() }
}

/// `merge_with_style` in the diff3 style.
pub fn merge(
    prepared: Prepared,
    whole: LineMerge,
    lines: &Vec<Option<LineMerge>>,
    labels: &Labels,
    width: usize,
) -> (r: Outcome)
    requires
        lines_fit(prepared, line_views(lines@)),
        prepared_wf(prepared),
    ensures
        normalized(
            collected_reasons(
                reason_views(prepared.reasons@),
                whole.conflict,
                opt_region_views(prepared.regions),
                line_views(lines@),
            ),
            reason_views(r.reasons@),
        ),
        r.content@ == shown(
            whole.conflict,
            prepared.weave_refused,
            merged_regions(prepared.regions, line_views(lines@)),
            prepared.partitions,
            reason_views(r.reasons@),
            whole.content@,
            compact_of(prepared, whole.conflict, line_views(lines@), ConflictStyle::Diff3),
            (prepared.base@, prepared.ours@, prepared.theirs@),
            labels@,
            width as nat,
        ),
        r.related_moves@.len() == 0,
        merged_as(prepared, whole, lines@, *labels, width as nat, ConflictStyle::Diff3, r),
{
    merge_with_style(prepared, whole, lines, labels, width, ConflictStyle::Diff3)
}

/// What the strict merge of a file gives in a style: the normalized reasons
/// of the prepared analysis and Git's line merges, the content shown for
/// them, and no related moves.
pub open spec fn merged_as(
    prepared: Prepared,
    whole: LineMerge,
    lines: Seq<Option<LineMerge>>,
    labels: Labels,
    width: nat,
    style: ConflictStyle,
    r: Outcome,
) -> bool {
    &&& normalized(
        collected_reasons(
            reason_views(prepared.reasons@),
            whole.conflict,
            opt_region_views(prepared.regions),
            line_views(lines),
        ),
        reason_views(r.reasons@),
    )
    &&& r.content@ == shown(
        whole.conflict,
        prepared.weave_refused,
        merged_regions(prepared.regions, line_views(lines)),
        prepared.partitions,
        reason_views(r.reasons@),
        whole.content@,
        compact_of(prepared, whole.conflict, line_views(lines), style),
        (prepared.base@, prepared.ours@, prepared.theirs@),
        labels@,
        width,
    )
    &&& r.related_moves@.len() == 0
}

/// The strict merge has one outcome for its inputs: `merge` and
/// `merge_with_style` in the diff3 style give the same reasons, content and
/// (no) related moves.
pub proof fn law_merge_is_diff3(
    prepared: Prepared,
    whole: LineMerge,
    lines: Seq<Option<LineMerge>>,
    labels: Labels,
    width: nat,
    r1: Outcome,
    r2: Outcome,
)
    requires
        merged_as(prepared, whole, lines, labels, width, ConflictStyle::Diff3, r1),
        merged_as(prepared, whole, lines, labels, width, ConflictStyle::Diff3, r2),
    ensures
        reason_views(r1.reasons@) == reason_views(r2.reasons@),
        r1.content@ == r2.content@,
        r1.related_moves@ == r2.related_moves@,
{
    let input = collected_reasons(
        reason_views(prepared.reasons@),
        whole.conflict,
        opt_region_views(prepared.regions),
        line_views(lines),
    );
    crate::reason::order::law_normalize_order_independent(
        input,
        input,
        reason_views(r1.reasons@),
        reason_views(r2.reasons@),
    );
    assert(r1.related_moves@ =~= r2.related_moves@);
}

} // verus!
