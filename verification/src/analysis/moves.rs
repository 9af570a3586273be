//! Cross-file move and rename candidates: first by identical text, then by
//! text with the entity's own name normalized, within one grammar and type.
//! Matching only reads the three snapshots.
use vstd::prelude::*;
use vstd::string::StringExecFns;
use crate::analysis::partition::{Part, PartView, part_views};
use crate::analysis::syntax::{atom_views, normalized_syntax, opt_syntax_view, Atom, AtomView, Syntax};
use crate::reason::order::{
    insert_move, insert_opposite_move, lemma_move_order, lemma_opposite_move_order, lemma_sorted_unique,
    move_compare, move_views, moves_sorted, opposite_move_compare, opposite_views_of, opposites_sorted,
};
use crate::error::Error;
use crate::reason::{
    EvidenceView, Evidence, Kind, OppositeMove, OppositeMoveView, Reason, ReasonView, Subject, SubjectView,
};
use crate::reason::{
    side_opposite, Location, LocationView, MoveEvidence, MoveEvidenceView, MoveMatch, MoveMatchView,
    Opposite, RenameComparison, Side,
};
use crate::analysis::syntax::text_atoms;
use crate::text::chars_of;
use sem_core::parser::plugins::code::language_config_for_content;
use weave_core::binding::replace_at_word_boundaries;

verus! {

/// Upper bound on the candidates of one report; a report is never truncated.
pub const MAX_CANDIDATES: usize = 10000;

/// The stand-in for an entity's own name in name-normalized text.
pub open spec fn sentinel() -> Seq<char> {
    "__ENTITY__"@
}

/// One entity of one file version, with what matching reads.
#[derive(Debug)]
pub struct Entity {
    pub key: String,
    pub name: String,
    pub entity_type: String,
    pub grammar: Option<String>,
    pub location: Location,
    pub text: String,
    /// The text with the entity's own name normalized, and how often it occurs.
    pub normalized: Option<(String, usize)>,
    /// The syntax key of the normalized text.
    pub syntax: Option<Syntax>,
}

pub struct EntityView {
    pub key: Seq<char>,
    pub name: Seq<char>,
    pub entity_type: Seq<char>,
    pub grammar: Option<Seq<char>>,
    pub location: LocationView,
    pub text: Seq<char>,
    pub normalized: Option<(Seq<char>, nat)>,
    pub syntax: Option<Seq<AtomView>>,
}

pub open spec fn opt_text_view(o: Option<String>) -> Option<Seq<char>> {
    match o {
        Some(s) => Some(s@),
        None => None,
    }
}

pub open spec fn opt_normalized_view(o: Option<(String, usize)>) -> Option<(Seq<char>, nat)> {
    match o {
        Some((s, n)) => Some((s@, n as nat)),
        None => None,
    }
}

impl View for Entity {
    type V = EntityView;

    open spec fn view(&self) -> EntityView {
        EntityView {
            key: self.key@,
            name: self.name@,
            entity_type: self.entity_type@,
            grammar: opt_text_view(self.grammar),
            location: self.location@,
            text: self.text@,
            normalized: opt_normalized_view(self.normalized),
            syntax: opt_syntax_view(self.syntax),
        }
    }
}

pub open spec fn entity_views(s: Seq<Entity>) -> Seq<EntityView> {
    s.map_values(|e: Entity| e@)
}

// ---------------------------------------------------------------------------
// Calls into the grammar registry and weave's word-boundary replacement.
// ---------------------------------------------------------------------------

/// What `language_config_for_content(text, path)` identifies, by its `id`.
pub uninterp spec fn content_grammar(text: Seq<char>, path: Seq<char>) -> Option<Seq<char>>;

/// sem-core `code::language_config_for_content(text, path)`: the id of the
/// grammar for the file, if any (a function of the text and path).
#[verifier::external_body]
fn grammar_of(text: &str, path: &str) -> (r: Option<String>)
    ensures
        opt_text_view(r) == content_grammar(text@, path@),
{
    language_config_for_content(text, path).map(|config| config.id.to_string())
}

/// What `replace_at_word_boundaries(content, needle, replacement)` gives.
pub uninterp spec fn word_replaced(content: Seq<char>, needle: Seq<char>, replacement: Seq<char>) -> Seq<char>;

/// weave-core `binding::replace_at_word_boundaries`: `content` with each
/// occurrence of `needle` that stands at identifier boundaries replaced. Its
/// source returns `content` unchanged for an empty needle.
#[verifier::external_body]
fn replace_words(content: &str, needle: &str, replacement: &str) -> (r: String)
    ensures
        r@ == word_replaced(content@, needle@, replacement@),
        needle@.len() == 0 ==> r@ == content@,
{
    replace_at_word_boundaries(content, needle, replacement)
}

// ---------------------------------------------------------------------------
// Name normalization.
// ---------------------------------------------------------------------------

pub open spec fn occurs_at(s: Seq<char>, p: Seq<char>, i: int) -> bool {
    0 <= i && i + p.len() <= s.len() && s.subrange(i, i + p.len()) == p
}

/// Non-overlapping occurrences of `p` in `s` from position `i`, leftmost first.
pub open spec fn count_from(s: Seq<char>, p: Seq<char>, i: int) -> nat
    decreases s.len() - i,
{
    if p.len() == 0 || i < 0 || i + p.len() > s.len() {
        0
    } else if occurs_at(s, p, i) {
        1 + count_from(s, p, i + p.len())
    } else {
        count_from(s, p, i + 1)
    }
}

pub open spec fn contains_text(s: Seq<char>, p: Seq<char>) -> bool {
    exists|i: int| #[trigger] occurs_at(s, p, i)
}

/// The text with the entity's name normalized and the count of normalized
/// occurrences; none for an empty name, a text already holding the stand-in
/// (it would forge a match), or a text without the name.
pub open spec fn name_normalized(text: Seq<char>, name: Seq<char>) -> Option<(Seq<char>, nat)> {
    if name.len() == 0 || contains_text(text, sentinel()) {
        None
    } else {
        let replaced = word_replaced(text, name, sentinel());
        let n = count_from(replaced, sentinel(), 0);
        if n > 0 {
            Some((replaced, n))
        } else {
            None
        }
    }
}

fn matches_at(s: &Vec<char>, p: &Vec<char>, i: usize) -> (r: bool)
    requires
        i + p@.len() <= s@.len(),
    ensures
        r == occurs_at(s@, p@, i as int),
{
    let mut j: usize = 0;
    while j < p.len()
        invariant
            j <= p.len(),
            i + p@.len() <= s@.len(),
            forall|k: int| 0 <= k < j ==> s@[i + k] == p@[k],
        decreases p.len() - j,
    {
        assert(i + j < s.len());
        if s[i + j] != p[j] {
            assert(s@.subrange(i as int, i + p@.len())[j as int] != p@[j as int]);
            return false;
        }
        j += 1;
    }
    assert(s@.subrange(i as int, i + p@.len()) =~= p@);
    true
}

proof fn lemma_count_none(s: Seq<char>, p: Seq<char>, i: int)
    requires
        p.len() > 0,
        0 <= i,
        forall|k: int| i <= k ==> !occurs_at(s, p, k),
    ensures
        count_from(s, p, i) == 0,
    decreases s.len() - i,
{
    if i + p.len() <= s.len() {
        lemma_count_none(s, p, i + 1);
    }
}

proof fn lemma_count_some(s: Seq<char>, p: Seq<char>, i: int)
    requires
        p.len() > 0,
        0 <= i,
        exists|k: int| i <= k && #[trigger] occurs_at(s, p, k),
    ensures
        count_from(s, p, i) > 0,
    decreases s.len() - i,
{
    if occurs_at(s, p, i) {
    } else {
        let k = choose|k: int| i <= k && #[trigger] occurs_at(s, p, k);
        lemma_count_some(s, p, i + 1);
    }
}

/// Non-overlapping occurrences of `p` in `s`, leftmost first.
fn count_occurrences(s: &Vec<char>, p: &Vec<char>) -> (r: usize)
    requires
        p@.len() > 0,
    ensures
        r == count_from(s@, p@, 0),
{
    let mut n: usize = 0;
    let mut i: usize = 0;
    while p.len() <= s.len() - i
        invariant
            p@.len() > 0,
            i <= s.len(),
            n <= i,
            n + count_from(s@, p@, i as int) == count_from(s@, p@, 0),
        decreases s.len() - i,
    {
        if matches_at(s, p, i) {
            n += 1;
            i += p.len();
        } else {
            i += 1;
        }
    }
    n
}

fn has_text(s: &Vec<char>, p: &Vec<char>) -> (r: bool)
    requires
        p@.len() > 0,
    ensures
        r == contains_text(s@, p@),
{
    let mut i: usize = 0;
    while p.len() <= s.len() - i
        invariant
            p@.len() > 0,
            i <= s.len(),
            forall|k: int| 0 <= k < i ==> !occurs_at(s@, p@, k),
        decreases s.len() - i,
    {
        if matches_at(s, p, i) {
            return true;
        }
        i += 1;
    }
    assert forall|k: int| !occurs_at(s@, p@, k) by {
        if k >= i {
            assert(k + p@.len() > s@.len());
        }
    }
    false
}

/// The entity's text with its own name normalized, and how often it occurs.
pub fn normalized(text: &String, name: &String) -> (r: Option<(String, usize)>)
    ensures
        opt_normalized_view(r) == name_normalized(text@, name@),
{
    let stand_in = String::from_str("__ENTITY__");
    proof {
        reveal_strlit("__ENTITY__");
    }
    let p = chars_of(stand_in.as_str());
    assert(p@ == sentinel());
    if name.as_str().is_empty() || has_text(&chars_of(text.as_str()), &p) {
        return None;
    }
    let replaced = replace_words(text.as_str(), name.as_str(), stand_in.as_str());
    let occurrences = count_occurrences(&chars_of(replaced.as_str()), &p);
    if occurrences > 0 {
        Some((replaced, occurrences))
    } else {
        None
    }
}

// ---------------------------------------------------------------------------
// The entities of one file version.
// ---------------------------------------------------------------------------

pub open spec fn newline_count(s: Seq<char>) -> nat
    decreases s.len(),
{
    if s.len() == 0 {
        0
    } else {
        newline_count(s.drop_last()) + if s.last() == '\n' {
            1nat
        } else {
            0nat
        }
    }
}

/// The line on which the part after `parts` starts (1-based).
pub open spec fn line_after(parts: Seq<PartView>) -> nat
    decreases parts.len(),
{
    if parts.len() == 0 {
        1
    } else {
        line_after(parts.drop_last()) + newline_count(parts.last().text)
    }
}

/// The entity that an entity part stands for, starting on `line`.
pub open spec fn entity_view_of(path: Seq<char>, grammar: Option<Seq<char>>, p: PartView, line: nat) -> EntityView {
    let normalized = name_normalized(p.text, p.name);
    EntityView {
        key: p.key,
        name: p.name,
        entity_type: p.entity_type,
        grammar,
        location: LocationView { path, entity: p.label, line },
        text: p.text,
        normalized,
        syntax: match (grammar, normalized) {
            (Some(_), Some((text, _))) => crate::analysis::syntax::syntax_of(
                vstd::utf8::encode_utf8(text),
                crate::analysis::syntax::syntax_events(path, text),
            ),
            _ => None,
        },
    }
}

/// The entities of a partition, in order.
pub open spec fn entities_of(path: Seq<char>, grammar: Option<Seq<char>>, parts: Seq<PartView>) -> Seq<
    EntityView,
>
    decreases parts.len(),
{
    if parts.len() == 0 {
        seq![]
    } else {
        let before = entities_of(path, grammar, parts.drop_last());
        if parts.last().entity {
            before.push(entity_view_of(path, grammar, parts.last(), line_after(parts.drop_last())))
        } else {
            before
        }
    }
}

fn count_newlines(s: &String) -> (r: usize)
    ensures
        r == newline_count(s@),
{
    let cs = chars_of(s.as_str());
    let mut n: usize = 0;
    let mut i: usize = 0;
    while i < cs.len()
        invariant
            i <= cs.len(),
            cs@ == s@,
            n == newline_count(cs@.take(i as int)),
            n <= i,
        decreases cs.len() - i,
    {
        assert(cs@.take(i + 1).drop_last() =~= cs@.take(i as int));
        if cs[i] == '\n' {
            n += 1;
        }
        i += 1;
    }
    assert(cs@.take(cs.len() as int) =~= cs@);
    n
}

proof fn lemma_line_after_grows(parts: Seq<PartView>, k: int)
    requires
        0 <= k <= parts.len(),
    ensures
        line_after(parts.take(k)) <= line_after(parts),
    decreases parts.len() - k,
{
    if k < parts.len() {
        lemma_line_after_grows(parts, k + 1);
        assert(parts.take(k + 1).drop_last() =~= parts.take(k));
    } else {
        assert(parts.take(k) =~= parts);
    }
}

/// Whether the line numbers of `parts` fit a `usize`.
pub fn line_numbers_fit(parts: &Vec<Part>) -> (r: bool)
    ensures
        r == (line_after(part_views(parts@)) <= usize::MAX),
{
    let ghost pv = part_views(parts@);
    let mut line: usize = 1;
    let mut i: usize = 0;
    while i < parts.len()
        invariant
            i <= parts.len(),
            pv == part_views(parts@),
            line == line_after(pv.take(i as int)),
        decreases parts.len() - i,
    {
        assert(pv[i as int] == parts@[i as int]@);
        assert(pv.take(i + 1).drop_last() =~= pv.take(i as int));
        let n = count_newlines(&parts[i].text);
        match line.checked_add(n) {
            Some(next) => {
                line = next;
            },
            None => {
                proof {
                    lemma_line_after_grows(pv, i + 1);
                }
                return false;
            },
        }
        i += 1;
    }
    assert(pv.take(parts.len() as int) =~= pv);
    true
}

/// The entities of one version of `path`, with their start lines and match keys.
pub fn entities(path: &str, text: &str, parts: &Vec<Part>) -> (r: Vec<Entity>)
    requires
        line_after(part_views(parts@)) <= usize::MAX,
    ensures
        entity_views(r@) == entities_of(path@, content_grammar(text@, path@), part_views(parts@)),
{
    let grammar = grammar_of(text, path);
    let ghost g = opt_text_view(grammar);
    let ghost pv = part_views(parts@);
    let mut result: Vec<Entity> = Vec::new();
    let mut line: usize = 1;
    let mut i: usize = 0;
    while i < parts.len()
        invariant
            i <= parts.len(),
            pv == part_views(parts@),
            g == opt_text_view(grammar),
            line_after(pv) <= usize::MAX,
            line == line_after(pv.take(i as int)),
            entity_views(result@) == entities_of(path@, g, pv.take(i as int)),
        decreases parts.len() - i,
    {
        let part = &parts[i];
        assert(pv[i as int] == part@);
        assert(pv.take(i + 1).drop_last() =~= pv.take(i as int));
        assert(pv.take(i + 1).last() == part@);
        proof {
            lemma_line_after_grows(pv, i + 1);
        }
        let next = line + count_newlines(&part.text);
        if part.entity {
            let normalized_text = normalized(&part.text, &part.name);
            let syntax = match (&grammar, &normalized_text) {
                (Some(_), Some((text, _))) => normalized_syntax(path, text.as_str()),
                _ => None,
            };
            let grammar_copy = match &grammar {
                Some(g) => Some(g.clone()),
                None => None,
            };
            let ghost before = result@;
            result.push(
                Entity {
                    key: part.key.clone(),
                    name: part.name.clone(),
                    entity_type: part.entity_type.clone(),
                    grammar: grammar_copy,
                    location: Location { path: String::from_str(path), entity: part.label.clone(), line },
                    text: part.text.clone(),
                    normalized: normalized_text,
                    syntax,
                },
            );
            assert(entity_views(result@) =~= entity_views(before).push(
                entity_view_of(path@, g, part@, line as nat),
            ));
        }
        line = next;
        i += 1;
    }
    assert(pv.take(parts.len() as int) =~= pv);
    result
}

// ---------------------------------------------------------------------------
// Candidates: an entity deleted from one file and added to another, on one
// side, with identical text or identical name-normalized text.
// ---------------------------------------------------------------------------

/// One path of the three snapshots: its entities in each version (`None`
/// where that version's partition is unavailable; an absent path has none).
#[derive(Debug)]
pub struct ParsedFile {
    pub path: String,
    pub base: Option<Vec<Entity>>,
    pub ours: Option<Vec<Entity>>,
    pub theirs: Option<Vec<Entity>>,
}

pub struct ParsedFileView {
    pub path: Seq<char>,
    pub base: Option<Seq<EntityView>>,
    pub ours: Option<Seq<EntityView>>,
    pub theirs: Option<Seq<EntityView>>,
}

pub open spec fn opt_entities_view(o: Option<Vec<Entity>>) -> Option<Seq<EntityView>> {
    match o {
        Some(v) => Some(entity_views(v@)),
        None => None,
    }
}

impl View for ParsedFile {
    type V = ParsedFileView;

    open spec fn view(&self) -> ParsedFileView {
        ParsedFileView {
            path: self.path@,
            base: opt_entities_view(self.base),
            ours: opt_entities_view(self.ours),
            theirs: opt_entities_view(self.theirs),
        }
    }
}

pub open spec fn file_views(s: Seq<ParsedFile>) -> Seq<ParsedFileView> {
    s.map_values(|f: ParsedFile| f@)
}

pub open spec fn version(f: ParsedFileView, side: Side) -> Option<Seq<EntityView>> {
    match side {
        Side::Ours => f.ours,
        Side::Theirs => f.theirs,
    }
}

pub open spec fn key_in(es: Seq<EntityView>, key: Seq<char>) -> bool {
    exists|i: int| 0 <= i < es.len() && (#[trigger] es[i]).key == key
}

/// Entity `j` of file `i`'s base is gone from that file on `side`.
pub open spec fn is_deleted(files: Seq<ParsedFileView>, side: Side, i: int, j: int) -> bool {
    &&& 0 <= i < files.len()
    &&& files[i].base matches Some(b)
    &&& version(files[i], side) matches Some(c)
    &&& 0 <= j < b.len()
    &&& !key_in(c, b[j].key)
}

/// Entity `j` of file `i` on `side` is new to that file.
pub open spec fn is_added(files: Seq<ParsedFileView>, side: Side, i: int, j: int) -> bool {
    &&& 0 <= i < files.len()
    &&& files[i].base matches Some(b)
    &&& version(files[i], side) matches Some(c)
    &&& 0 <= j < c.len()
    &&& !key_in(b, c[j].key)
}

/// The position of the first entity with this key, or -1.
pub open spec fn key_index(es: Seq<EntityView>, key: Seq<char>) -> int
    decreases es.len(),
{
    if es.len() == 0 {
        -1
    } else if key_index(es.drop_last(), key) >= 0 {
        key_index(es.drop_last(), key)
    } else if es.last().key == key {
        es.len() - 1
    } else {
        -1
    }
}

/// What became of a moved entity's source on the other side.
pub open spec fn opposite_of(f: ParsedFileView, side: Side, d: EntityView) -> Opposite {
    match version(f, side_opposite(side)) {
        None => Opposite::Unknown,
        Some(es) => {
            let x = key_index(es, d.key);
            if x < 0 {
                Opposite::Deleted
            } else if es[x].text == d.text {
                Opposite::Unchanged
            } else {
                Opposite::Modified
            }
        },
    }
}

pub open spec fn candidate_view(
    f: ParsedFileView,
    side: Side,
    d: EntityView,
    a: EntityView,
    matched_by: MoveMatchView,
) -> MoveEvidenceView {
    MoveEvidenceView {
        side,
        base: d.location,
        target: a.location,
        source_count: 1,
        destination_count: 1,
        opposite: opposite_of(f, side, d),
        matched_by,
        opposite_moves: seq![],
    }
}

pub open spec fn deleted_entity(files: Seq<ParsedFileView>, i: int, j: int) -> EntityView {
    files[i].base->0[j]
}

pub open spec fn added_entity(files: Seq<ParsedFileView>, side: Side, k: int, l: int) -> EntityView {
    version(files[k], side)->0[l]
}

/// Same key and text, in another file.
pub open spec fn exact_candidate(files: Seq<ParsedFileView>, side: Side, i: int, j: int, k: int, l: int) -> Option<
    MoveEvidenceView,
> {
    let d = deleted_entity(files, i, j);
    let a = added_entity(files, side, k, l);
    if d.location.path != a.location.path && d.key == a.key && d.text == a.text {
        Some(candidate_view(files[i], side, d, a, MoveMatchView::Exact))
    } else {
        None
    }
}

/// Another name in another file, with one grammar and type, and the same
/// name-normalized text; failing that, the same syntax of it.
pub open spec fn rename_candidate(files: Seq<ParsedFileView>, side: Side, i: int, j: int, k: int, l: int) -> Option<
    MoveEvidenceView,
> {
    let d = deleted_entity(files, i, j);
    let a = added_entity(files, side, k, l);
    if d.location.path == a.location.path || d.name == a.name || d.entity_type != a.entity_type {
        None
    } else {
        match (d.grammar, a.grammar, d.normalized, a.normalized) {
            (Some(g), Some(h), Some((dn, dc)), Some((an, ac))) => {
                let matched = |comparison: RenameComparison|
                    MoveMatchView::NameNormalized {
                        grammar: g,
                        entity_type: d.entity_type,
                        old_name: d.name,
                        new_name: a.name,
                        old_occurrences: dc,
                        new_occurrences: ac,
                        comparison,
                    };
                if g != h {
                    None
                } else if dn == an {
                    Some(candidate_view(files[i], side, d, a, matched(RenameComparison::Text)))
                } else if d.syntax is Some && d.syntax == a.syntax {
                    Some(
                        candidate_view(
                            files[i],
                            side,
                            d,
                            a,
                            matched(RenameComparison::Syntax { tokens: text_atoms(d.syntax->0) as usize }),
                        ),
                    )
                } else {
                    None
                }
            },
            _ => None,
        }
    }
}

pub open spec fn candidate_at(files: Seq<ParsedFileView>, side: Side, i: int, j: int, k: int, l: int, c: MoveEvidenceView) -> bool {
    exact_candidate(files, side, i, j, k, l) == Some(c) || rename_candidate(files, side, i, j, k, l) == Some(c)
}

/// The candidates of one side, before their counts and links.
pub open spec fn side_candidate(files: Seq<ParsedFileView>, side: Side, c: MoveEvidenceView) -> bool {
    exists|i: int, j: int, k: int, l: int|
        is_deleted(files, side, i, j) && is_added(files, side, k, l) && #[trigger] candidate_at(
            files,
            side,
            i,
            j,
            k,
            l,
            c,
        )
}

pub open spec fn raw_candidate(files: Seq<ParsedFileView>, c: MoveEvidenceView) -> bool {
    side_candidate(files, Side::Ours, c) || side_candidate(files, Side::Theirs, c)
}

pub open spec fn has_pos(s: Seq<(usize, usize)>, i: int, j: int) -> bool {
    exists|k: int| 0 <= k < s.len() && (#[trigger] s[k]).0 == i && s[k].1 == j
}

pub(crate) fn version_of(f: &ParsedFile, side: Side) -> (r: &Option<Vec<Entity>>)
    ensures
        opt_entities_view(*r) == version(f@, side),
{
    match side {
        Side::Ours => &f.ours,
        Side::Theirs => &f.theirs,
    }
}

pub(crate) fn key_present(es: &Vec<Entity>, key: &String) -> (r: bool)
    ensures
        r == key_in(entity_views(es@), key@),
{
    let ghost ev = entity_views(es@);
    let mut i: usize = 0;
    while i < es.len()
        invariant
            i <= es.len(),
            ev == entity_views(es@),
            forall|k: int| 0 <= k < i ==> (#[trigger] ev[k]).key != key@,
        decreases es.len() - i,
    {
        assert(ev[i as int] == es@[i as int]@);
        if es[i].key == *key {
            return true;
        }
        i += 1;
    }
    false
}

/// The positions of the entities deleted (or, with `deleted` false, added)
/// on `side`, file by file.
fn changed_positions(files: &Vec<ParsedFile>, side: Side, deleted: bool) -> (r: Vec<(usize, usize)>)
    ensures
        forall|i: int, j: int|
            has_pos(r@, i, j) <==> if deleted {
                is_deleted(file_views(files@), side, i, j)
            } else {
                is_added(file_views(files@), side, i, j)
            },
{
    let ghost fv = file_views(files@);
    let mut r: Vec<(usize, usize)> = Vec::new();
    let mut i: usize = 0;
    while i < files.len()
        invariant
            i <= files.len(),
            fv == file_views(files@),
            forall|x: int, y: int|
                has_pos(r@, x, y) <==> (x < i && if deleted {
                    is_deleted(fv, side, x, y)
                } else {
                    is_added(fv, side, x, y)
                }),
        decreases files.len() - i,
    {
        assert(fv[i as int] == files@[i as int]@);
        let f = &files[i];
        match (&f.base, version_of(f, side)) {
            (Some(b), Some(c)) => {
                let (from, other) = if deleted {
                    (b, c)
                } else {
                    (c, b)
                };
                let mut j: usize = 0;
                while j < from.len()
                    invariant
                        j <= from.len(),
                        i < files.len(),
                        fv == file_views(files@),
                        fv[i as int] == files@[i as int]@,
                        files@[i as int].base == Some(*b),
                        opt_entities_view(Some(*c)) == version(fv[i as int], side),
                        deleted ==> (*from == *b && *other == *c),
                        !deleted ==> (*from == *c && *other == *b),
                        forall|x: int, y: int|
                            has_pos(r@, x, y) <==> ((x < i || (x == i && y < j)) && if deleted {
                                is_deleted(fv, side, x, y)
                            } else {
                                is_added(fv, side, x, y)
                            }),
                    decreases from.len() - j,
                {
                    assert(entity_views(from@)[j as int] == from@[j as int]@);
                    let ghost before = r@;
                    let present = key_present(other, &from[j].key);
                    proof {
                        if deleted {
                            assert(fv[i as int].base == Some(entity_views(b@)));
                            assert(entity_views(b@)[j as int] == b@[j as int]@);
                            assert(is_deleted(fv, side, i as int, j as int) == !present);
                        } else {
                            assert(fv[i as int].base == Some(entity_views(b@)));
                            assert(entity_views(c@)[j as int] == c@[j as int]@);
                            assert(is_added(fv, side, i as int, j as int) == !present);
                        }
                    }
                    if !present {
                        r.push((i, j));
                        assert forall|x: int, y: int| has_pos(r@, x, y) <==> (has_pos(before, x, y) || (x == i && y == j)) by {
                            if has_pos(r@, x, y) {
                                let k = choose|k: int| 0 <= k < r@.len() && (#[trigger] r@[k]).0 == x && r@[k].1 == y;
                                if k < before.len() {
                                    assert(before[k] == r@[k]);
                                }
                            }
                            if has_pos(before, x, y) {
                                let k = choose|k: int| 0 <= k < before.len() && (#[trigger] before[k]).0 == x && before[k].1 == y;
                                assert(r@[k] == before[k]);
                            }
                            if x == i && y == j {
                                assert(r@[before.len() as int] == (i, j));
                            }
                        }
                    }
                    assert forall|x: int, y: int|
                        has_pos(r@, x, y) <==> ((x < i || (x == i && y < j + 1)) && if deleted {
                            is_deleted(fv, side, x, y)
                        } else {
                            is_added(fv, side, x, y)
                        }) by {
                        assert(has_pos(before, x, y) <==> ((x < i || (x == i && y < j)) && if deleted {
                            is_deleted(fv, side, x, y)
                        } else {
                            is_added(fv, side, x, y)
                        }));
                        if present {
                            assert(r@ == before);
                        } else {
                            assert(has_pos(r@, x, y) <==> (has_pos(before, x, y) || (x == i && y == j)));
                        }
                        if x == i && y == j {
                            if deleted {
                                assert(is_deleted(fv, side, x, y) == !present);
                            } else {
                                assert(is_added(fv, side, x, y) == !present);
                            }
                        }
                    }
                    j += 1;
                }
            },
            _ => {},
        }
        i += 1;
    }
    r
}

proof fn lemma_key_index(es: Seq<EntityView>, key: Seq<char>)
    ensures
        -1 <= key_index(es, key) < es.len(),
        key_index(es, key) >= 0 ==> es[key_index(es, key)].key == key,
        forall|k: int|
            0 <= k < es.len() && (key_index(es, key) < 0 || k < key_index(es, key)) ==> (#[trigger] es[k]).key
                != key,
    decreases es.len(),
{
    if es.len() > 0 {
        lemma_key_index(es.drop_last(), key);
        assert forall|k: int|
            0 <= k < es.len() && (key_index(es, key) < 0 || k < key_index(es, key)) implies (#[trigger] es[k]).key
                != key by {
            if k < es.len() - 1 {
                assert(es.drop_last()[k] == es[k]);
            }
        }
    }
}

fn first_with_key(es: &Vec<Entity>, key: &String) -> (r: Option<usize>)
    ensures
        match r {
            Some(x) => key_index(entity_views(es@), key@) == x,
            None => key_index(entity_views(es@), key@) < 0,
        },
{
    let ghost ev = entity_views(es@);
    proof {
        lemma_key_index(ev, key@);
    }
    let mut x: usize = 0;
    while x < es.len()
        invariant
            x <= es.len(),
            ev == entity_views(es@),
            forall|k: int| 0 <= k < x ==> (#[trigger] ev[k]).key != key@,
        decreases es.len() - x,
    {
        proof {
            lemma_key_index(ev, key@);
        }
        assert(ev[x as int] == es@[x as int]@);
        if es[x].key == *key {
            return Some(x);
        }
        x += 1;
    }
    proof {
        lemma_key_index(ev, key@);
    }
    None
}

fn opposite_state(f: &ParsedFile, side: Side, d: &Entity) -> (r: Opposite)
    ensures
        r == opposite_of(f@, side, d@),
{
    let other = match side {
        Side::Ours => Side::Theirs,
        Side::Theirs => Side::Ours,
    };
    match version_of(f, other) {
        None => Opposite::Unknown,
        Some(es) => match first_with_key(es, &d.key) {
            Some(x) => {
                proof {
                    lemma_key_index(entity_views(es@), d.key@);
                }
                assert(entity_views(es@)[x as int] == es@[x as int]@);
                if es[x].text == d.text {
                    Opposite::Unchanged
                } else {
                    Opposite::Modified
                }
            },
            None => Opposite::Deleted,
        },
    }
}

fn same_bytes(a: &Vec<u8>, b: &Vec<u8>) -> (r: bool)
    ensures
        r == (a@ == b@),
{
    if a.len() != b.len() {
        return false;
    }
    let mut i: usize = 0;
    while i < a.len()
        invariant
            i <= a.len(),
            a.len() == b.len(),
            forall|k: int| 0 <= k < i ==> a@[k] == b@[k],
        decreases a.len() - i,
    {
        if a[i] != b[i] {
            return false;
        }
        i += 1;
    }
    assert(a@ =~= b@);
    true
}

fn same_atom(a: &Atom, b: &Atom) -> (r: bool)
    ensures
        r == (a@ == b@),
{
    match (a, b) {
        (Atom::Open { kind: k1, field: f1, named: n1 }, Atom::Open { kind: k2, field: f2, named: n2 }) => {
            let fields = match (f1, f2) {
                (Some(x), Some(y)) => *x == *y,
                (None, None) => true,
                _ => false,
            };
            *k1 == *k2 && fields && *n1 == *n2
        },
        (Atom::Text(x), Atom::Text(y)) => same_bytes(x, y),
        (Atom::Close, Atom::Close) => true,
        _ => false,
    }
}

fn same_syntax(a: &Syntax, b: &Syntax) -> (r: bool)
    ensures
        r == (atom_views(a.atoms@) == atom_views(b.atoms@)),
{
    let ghost av = atom_views(a.atoms@);
    let ghost bv = atom_views(b.atoms@);
    if a.atoms.len() != b.atoms.len() {
        assert(av.len() != bv.len());
        return false;
    }
    let mut i: usize = 0;
    while i < a.atoms.len()
        invariant
            i <= a.atoms.len(),
            a.atoms.len() == b.atoms.len(),
            av == atom_views(a.atoms@),
            bv == atom_views(b.atoms@),
            forall|k: int| 0 <= k < i ==> av[k] == bv[k],
        decreases a.atoms.len() - i,
    {
        assert(av[i as int] == a.atoms@[i as int]@ && bv[i as int] == b.atoms@[i as int]@);
        if !same_atom(&a.atoms[i], &b.atoms[i]) {
            return false;
        }
        i += 1;
    }
    assert(av =~= bv);
    true
}

fn candidate_of(f: &ParsedFile, side: Side, d: &Entity, a: &Entity, matched_by: MoveMatch) -> (r: MoveEvidence)
    ensures
        r@ == candidate_view(f@, side, d@, a@, matched_by@),
{
    let r = MoveEvidence {
        side,
        base: d.location.copy(),
        target: a.location.copy(),
        source_count: 1,
        destination_count: 1,
        opposite: opposite_state(f, side, d),
        matched_by,
        opposite_moves: Vec::new(),
    };
    assert(r@.opposite_moves =~= Seq::<crate::reason::OppositeMoveView>::empty());
    r
}

/// The exact and the rename candidate of one deleted and one added entity.
fn candidates_of(files: &Vec<ParsedFile>, side: Side, i: usize, j: usize, k: usize, l: usize) -> (r: (
    Option<MoveEvidence>,
    Option<MoveEvidence>,
))
    requires
        is_deleted(file_views(files@), side, i as int, j as int),
        is_added(file_views(files@), side, k as int, l as int),
    ensures
        opt_move_view(r.0) == exact_candidate(file_views(files@), side, i as int, j as int, k as int, l as int),
        opt_move_view(r.1) == rename_candidate(file_views(files@), side, i as int, j as int, k as int, l as int),
{
    let ghost fv = file_views(files@);
    assert(fv[i as int] == files@[i as int]@ && fv[k as int] == files@[k as int]@);
    let f = &files[i];
    let d = match &f.base {
        Some(b) => &b[j],
        None => {
            assert(false);
            return (None, None);
        },
    };
    let a = match version_of(&files[k], side) {
        Some(c) => &c[l],
        None => {
            assert(false);
            return (None, None);
        },
    };
    proof {
        assert(deleted_entity(fv, i as int, j as int) == d@);
        assert(added_entity(fv, side, k as int, l as int) == a@);
    }
    let different_paths = !(d.location.path == a.location.path);
    let exact = if different_paths && d.key == a.key && d.text == a.text {
        Some(candidate_of(f, side, d, a, MoveMatch::Exact))
    } else {
        None
    };
    if !different_paths || d.name == a.name || !(d.entity_type == a.entity_type) {
        return (exact, None);
    }
    let rename = match (&d.grammar, &a.grammar, &d.normalized, &a.normalized) {
        (Some(g), Some(h), Some((dn, dc)), Some((an, ac))) => {
            if !(*g == *h) {
                None
            } else {
                let comparison = if *dn == *an {
                    Some(RenameComparison::Text)
                } else {
                    match (&d.syntax, &a.syntax) {
                        (Some(x), Some(y)) => if same_syntax(x, y) {
                            Some(RenameComparison::Syntax { tokens: x.token_count() })
                        } else {
                            None
                        },
                        _ => None,
                    }
                };
                match comparison {
                    Some(comparison) => Some(
                        candidate_of(
                            f,
                            side,
                            d,
                            a,
                            MoveMatch::NameNormalized {
                                grammar: g.clone(),
                                entity_type: d.entity_type.clone(),
                                old_name: d.name.clone(),
                                new_name: a.name.clone(),
                                old_occurrences: *dc,
                                new_occurrences: *ac,
                                comparison,
                            },
                        ),
                    ),
                    None => None,
                }
            }
        },
        _ => None,
    };
    (exact, rename)
}

pub open spec fn opt_move_view(o: Option<MoveEvidence>) -> Option<MoveEvidenceView> {
    match o {
        Some(m) => Some(m@),
        None => None,
    }
}

/// The candidates of the pairs before (`x`, `y`) of deleted and added positions.
pub open spec fn side_upto(
    files: Seq<ParsedFileView>,
    side: Side,
    dels: Seq<(usize, usize)>,
    adds: Seq<(usize, usize)>,
    x: int,
    y: int,
    c: MoveEvidenceView,
) -> bool {
    exists|p: int, q: int|
        0 <= p < dels.len() && 0 <= q < adds.len() && (p < x || (p == x && q < y)) && #[trigger] candidate_at(
            files,
            side,
            dels[p].0 as int,
            dels[p].1 as int,
            adds[q].0 as int,
            adds[q].1 as int,
            c,
        )
}

proof fn lemma_side_all(
    files: Seq<ParsedFileView>,
    side: Side,
    dels: Seq<(usize, usize)>,
    adds: Seq<(usize, usize)>,
)
    requires
        forall|i: int, j: int| has_pos(dels, i, j) <==> is_deleted(files, side, i, j),
        forall|i: int, j: int| has_pos(adds, i, j) <==> is_added(files, side, i, j),
    ensures
        forall|c: MoveEvidenceView|
            side_upto(files, side, dels, adds, dels.len() as int, 0, c) <==> side_candidate(files, side, c),
{
    assert forall|c: MoveEvidenceView|
        side_upto(files, side, dels, adds, dels.len() as int, 0, c) <==> side_candidate(files, side, c) by {
        if side_upto(files, side, dels, adds, dels.len() as int, 0, c) {
            let (p, q) = choose|p: int, q: int|
                0 <= p < dels.len() && 0 <= q < adds.len() && (p < dels.len() || (p == dels.len() && q < 0))
                    && #[trigger] candidate_at(
                    files,
                    side,
                    dels[p].0 as int,
                    dels[p].1 as int,
                    adds[q].0 as int,
                    adds[q].1 as int,
                    c,
                );
            assert(has_pos(dels, dels[p].0 as int, dels[p].1 as int));
            assert(has_pos(adds, adds[q].0 as int, adds[q].1 as int));
        }
        if side_candidate(files, side, c) {
            let (i, j, k, l) = choose|i: int, j: int, k: int, l: int|
                is_deleted(files, side, i, j) && is_added(files, side, k, l) && #[trigger] candidate_at(
                    files,
                    side,
                    i,
                    j,
                    k,
                    l,
                    c,
                );
            assert(has_pos(dels, i, j));
            assert(has_pos(adds, k, l));
            let p = choose|p: int| 0 <= p < dels.len() && (#[trigger] dels[p]).0 == i && dels[p].1 == j;
            let q = choose|q: int| 0 <= q < adds.len() && (#[trigger] adds[q]).0 == k && adds[q].1 == l;
            assert(candidate_at(files, side, dels[p].0 as int, dels[p].1 as int, adds[q].0 as int, adds[q].1 as int, c));
        }
    }
}

#[verifier::spinoff_prover]
fn add_side(files: &Vec<ParsedFile>, side: Side, set: &mut Vec<MoveEvidence>)
    requires
        moves_sorted(move_views(old(set)@)),
    ensures
        moves_sorted(move_views(final(set)@)),
        forall|c: MoveEvidenceView|
            move_views(final(set)@).contains(c) <==> (move_views(old(set)@).contains(c) || side_candidate(
                file_views(files@),
                side,
                c,
            )),
{
    let ghost fv = file_views(files@);
    let ghost start = move_views(set@);
    let dels = changed_positions(files, side, true);
    let adds = changed_positions(files, side, false);
    let mut p: usize = 0;
    while p < dels.len()
        invariant
            p <= dels.len(),
            fv == file_views(files@),
            forall|i: int, j: int| has_pos(dels@, i, j) <==> is_deleted(fv, side, i, j),
            forall|i: int, j: int| has_pos(adds@, i, j) <==> is_added(fv, side, i, j),
            moves_sorted(move_views(set@)),
            forall|c: MoveEvidenceView|
                move_views(set@).contains(c) <==> (start.contains(c) || side_upto(fv, side, dels@, adds@, p as int, 0, c)),
        decreases dels.len() - p,
    {
        let (i, j) = dels[p];
        assert(has_pos(dels@, i as int, j as int));
        let mut q: usize = 0;
        while q < adds.len()
            invariant
                p < dels.len(),
                q <= adds.len(),
                (i, j) == dels@[p as int],
                is_deleted(fv, side, i as int, j as int),
                fv == file_views(files@),
                forall|i: int, j: int| has_pos(adds@, i, j) <==> is_added(fv, side, i, j),
                moves_sorted(move_views(set@)),
                forall|c: MoveEvidenceView|
                    move_views(set@).contains(c) <==> (start.contains(c) || side_upto(fv, side, dels@, adds@, p as int, q as int, c)),
            decreases adds.len() - q,
        {
            let (k, l) = adds[q];
            assert(has_pos(adds@, k as int, l as int));
            let ghost before = move_views(set@);
            let (exact, rename) = candidates_of(files, side, i, j, k, l);
            let ghost ev = opt_move_view(exact);
            let ghost rv = opt_move_view(rename);
            assert(ev == exact_candidate(fv, side, i as int, j as int, k as int, l as int));
            assert(rv == rename_candidate(fv, side, i as int, j as int, k as int, l as int));
            match exact {
                Some(m) => insert_move(set, m),
                None => {},
            }
            let ghost mid = move_views(set@);
            assert(forall|c: MoveEvidenceView| mid.contains(c) <==> (before.contains(c) || ev == Some(c)));
            match rename {
                Some(m) => insert_move(set, m),
                None => {},
            }
            assert(forall|c: MoveEvidenceView| move_views(set@).contains(c) <==> (mid.contains(c) || rv == Some(c)));
            assert forall|c: MoveEvidenceView|
                move_views(set@).contains(c) <==> (start.contains(c) || side_upto(fv, side, dels@, adds@, p as int, q + 1, c)) by {
                assert(candidate_at(fv, side, i as int, j as int, k as int, l as int, c) == (exact_candidate(fv, side, i as int, j as int, k as int, l as int) == Some(c) || rename_candidate(fv, side, i as int, j as int, k as int, l as int) == Some(c)));
                assert(candidate_at(fv, side, i as int, j as int, k as int, l as int, c) <==> (ev == Some(c) || rv == Some(c)));
                assert(before.contains(c) <==> (start.contains(c) || side_upto(fv, side, dels@, adds@, p as int, q as int, c)));
                assert(mid.contains(c) <==> (before.contains(c) || ev == Some(c)));
                assert(move_views(set@).contains(c) <==> (mid.contains(c) || rv == Some(c)));
                assert((k, l) == adds@[q as int]);
                if side_upto(fv, side, dels@, adds@, p as int, q + 1, c) && !side_upto(fv, side, dels@, adds@, p as int, q as int, c) {
                    let (x, y) = choose|x: int, y: int|
                        0 <= x < dels@.len() && 0 <= y < adds@.len() && (x < p || (x == p && y < q + 1)) && #[trigger] candidate_at(
                            fv,
                            side,
                            dels@[x].0 as int,
                            dels@[x].1 as int,
                            adds@[y].0 as int,
                            adds@[y].1 as int,
                            c,
                        );
                    assert(x == p && y == q);
                }
                if candidate_at(fv, side, i as int, j as int, k as int, l as int, c) {
                    assert(candidate_at(fv, side, dels@[p as int].0 as int, dels@[p as int].1 as int, adds@[q as int].0 as int, adds@[q as int].1 as int, c));
                    assert(side_upto(fv, side, dels@, adds@, p as int, q + 1, c));
                }
                if side_upto(fv, side, dels@, adds@, p as int, q as int, c) {
                    let (x, y) = choose|x: int, y: int|
                        0 <= x < dels@.len() && 0 <= y < adds@.len() && (x < p || (x == p && y < q)) && #[trigger] candidate_at(
                            fv,
                            side,
                            dels@[x].0 as int,
                            dels@[x].1 as int,
                            adds@[y].0 as int,
                            adds@[y].1 as int,
                            c,
                        );
                    assert(side_upto(fv, side, dels@, adds@, p as int, q + 1, c));
                }
            }
            assert(forall|c: MoveEvidenceView|
                move_views(set@).contains(c) <==> (start.contains(c) || side_upto(fv, side, dels@, adds@, p as int, q + 1, c)));
            let ghost q_old = q;
            q += 1;
            assert(q as int == q_old + 1);
            assert forall|c: MoveEvidenceView|
                move_views(set@).contains(c) <==> (start.contains(c) || side_upto(fv, side, dels@, adds@, p as int, q as int, c)) by {
                assert(move_views(set@).contains(c) <==> (start.contains(c) || side_upto(fv, side, dels@, adds@, p as int, q_old + 1, c)));
            }
        }
        assert forall|c: MoveEvidenceView|
            side_upto(fv, side, dels@, adds@, p as int, adds@.len() as int, c) <==> side_upto(fv, side, dels@, adds@, p + 1, 0, c) by {
            if side_upto(fv, side, dels@, adds@, p as int, adds@.len() as int, c) {
                let (x, y) = choose|x: int, y: int|
                    0 <= x < dels@.len() && 0 <= y < adds@.len() && (x < p || (x == p && y < adds@.len())) && #[trigger] candidate_at(
                        fv,
                        side,
                        dels@[x].0 as int,
                        dels@[x].1 as int,
                        adds@[y].0 as int,
                        adds@[y].1 as int,
                        c,
                    );
                assert(side_upto(fv, side, dels@, adds@, p + 1, 0, c));
            }
            if side_upto(fv, side, dels@, adds@, p + 1, 0, c) {
                let (x, y) = choose|x: int, y: int|
                    0 <= x < dels@.len() && 0 <= y < adds@.len() && (x < p + 1 || (x == p + 1 && y < 0)) && #[trigger] candidate_at(
                        fv,
                        side,
                        dels@[x].0 as int,
                        dels@[x].1 as int,
                        adds@[y].0 as int,
                        adds@[y].1 as int,
                        c,
                    );
                assert(side_upto(fv, side, dels@, adds@, p as int, adds@.len() as int, c));
            }
        }
        assert(q == adds@.len());
        assert forall|c: MoveEvidenceView|
            move_views(set@).contains(c) <==> (start.contains(c) || side_upto(fv, side, dels@, adds@, p + 1, 0, c)) by {
            assert(move_views(set@).contains(c) <==> (start.contains(c) || side_upto(fv, side, dels@, adds@, p as int, q as int, c)));
            assert(side_upto(fv, side, dels@, adds@, p as int, adds@.len() as int, c) <==> side_upto(fv, side, dels@, adds@, p + 1, 0, c));
        }
        let ghost p_old = p;
        p += 1;
        assert forall|c: MoveEvidenceView|
            move_views(set@).contains(c) <==> (start.contains(c) || side_upto(fv, side, dels@, adds@, p as int, 0, c)) by {
            assert(move_views(set@).contains(c) <==> (start.contains(c) || side_upto(fv, side, dels@, adds@, p_old + 1, 0, c)));
        }
    }
    proof {
        lemma_side_all(fv, side, dels@, adds@);
    }
    assert forall|c: MoveEvidenceView|
        move_views(set@).contains(c) <==> (start.contains(c) || side_candidate(fv, side, c)) by {
        assert(move_views(set@).contains(c) <==> (start.contains(c) || side_upto(fv, side, dels@, adds@, p as int, 0, c)));
        assert(p == dels@.len());
        assert(side_upto(fv, side, dels@, adds@, dels@.len() as int, 0, c) <==> side_candidate(fv, side, c));
    }
}

// ---------------------------------------------------------------------------
// Counts and links over the ordered set of candidates.
// ---------------------------------------------------------------------------

/// How many candidates of `side` have this target (its possible sources).
pub open spec fn count_target(s: Seq<MoveEvidenceView>, side: Side, target: LocationView) -> nat
    decreases s.len(),
{
    if s.len() == 0 {
        0
    } else {
        count_target(s.drop_last(), side, target) + if s.last().side == side && s.last().target == target {
            1nat
        } else {
            0nat
        }
    }
}

/// How many candidates of `side` have this source (its possible destinations).
pub open spec fn count_base(s: Seq<MoveEvidenceView>, side: Side, base: LocationView) -> nat
    decreases s.len(),
{
    if s.len() == 0 {
        0
    } else {
        count_base(s.drop_last(), side, base) + if s.last().side == side && s.last().base == base {
            1nat
        } else {
            0nat
        }
    }
}

pub open spec fn counterpart_of(s: Seq<MoveEvidenceView>, x: MoveEvidenceView) -> OppositeMoveView {
    OppositeMoveView {
        target: x.target,
        matched_by: x.matched_by,
        source_count: count_target(s, x.side, x.target),
        destination_count: count_base(s, x.side, x.base),
    }
}

/// A candidate of the other side for the same base entity.
pub open spec fn is_link(s: Seq<MoveEvidenceView>, c: MoveEvidenceView, o: OppositeMoveView) -> bool {
    exists|j: int|
        0 <= j < s.len() && s[j].side == side_opposite(c.side) && s[j].base == c.base && o
            == counterpart_of(s, #[trigger] s[j])
}

/// The ordered set of a candidate's counterparts on the other side.
pub open spec fn links_of(s: Seq<MoveEvidenceView>, c: MoveEvidenceView) -> Seq<OppositeMoveView> {
    choose|l: Seq<OppositeMoveView>| opposites_sorted(l) && forall|o: OppositeMoveView| #[trigger] l.contains(o) <==> is_link(s, c, o)
}

pub open spec fn finished(s: Seq<MoveEvidenceView>, c: MoveEvidenceView) -> MoveEvidenceView {
    MoveEvidenceView {
        side: c.side,
        base: c.base,
        target: c.target,
        source_count: count_target(s, c.side, c.target),
        destination_count: count_base(s, c.side, c.base),
        opposite: c.opposite,
        matched_by: c.matched_by,
        opposite_moves: links_of(s, c),
    }
}

/// The candidates of both sides as one ordered set.
pub open spec fn sorted_raw(files: Seq<ParsedFileView>) -> Seq<MoveEvidenceView> {
    choose|s: Seq<MoveEvidenceView>| moves_sorted(s) && forall|c: MoveEvidenceView| #[trigger] s.contains(c) <==> raw_candidate(files, c)
}

/// Every candidate with its counts and its links, in order.
pub open spec fn final_candidates(files: Seq<ParsedFileView>) -> Seq<MoveEvidenceView> {
    let s = sorted_raw(files);
    s.map_values(|c: MoveEvidenceView| finished(s, c))
}

/// The number of links of the first `k` candidates.
pub open spec fn links_upto(s: Seq<MoveEvidenceView>, k: int) -> nat
    decreases k,
{
    if k <= 0 {
        0
    } else {
        links_upto(s, k - 1) + links_of(s, s[k - 1]).len()
    }
}

proof fn lemma_links_grow(s: Seq<MoveEvidenceView>, i: int, j: int)
    requires
        0 <= i <= j,
    ensures
        links_upto(s, i) <= links_upto(s, j),
    decreases j - i,
{
    if i < j {
        lemma_links_grow(s, i, j - 1);
    }
}

/// Whether the candidate report fits the limit: every bucket of the walk,
/// and then the counterparts that the candidates list, together.
pub open spec fn candidates_fit(files: Seq<ParsedFileView>) -> bool {
    super::buckets::buckets_fit(files) && links_upto(sorted_raw(files), sorted_raw(files).len() as int)
        <= MAX_CANDIDATES
}

fn count_in(v: &Vec<MoveEvidence>, side: Side, loc: &Location, by_target: bool) -> (r: usize)
    ensures
        r == if by_target {
            count_target(move_views(v@), side, loc@)
        } else {
            count_base(move_views(v@), side, loc@)
        },
{
    let ghost mv = move_views(v@);
    let mut n: usize = 0;
    let mut i: usize = 0;
    while i < v.len()
        invariant
            i <= v.len(),
            mv == move_views(v@),
            n <= i,
            n == if by_target {
                count_target(mv.take(i as int), side, loc@)
            } else {
                count_base(mv.take(i as int), side, loc@)
            },
        decreases v.len() - i,
    {
        assert(mv.take(i + 1).drop_last() =~= mv.take(i as int));
        assert(mv[i as int] == v@[i as int]@);
        let same = if by_target {
            v[i].target.same(loc)
        } else {
            v[i].base.same(loc)
        };
        if v[i].side == side && same {
            n += 1;
        }
        i += 1;
    }
    assert(mv.take(v.len() as int) =~= mv);
    n
}

// ---------------------------------------------------------------------------
// The shared limit. A bucket's potential pairs are checked before any is
// added, so the limit can be more cautious than the final count; a report
// is never silently cut short.
// ---------------------------------------------------------------------------

/// Whether `sources` by `targets` more pairs fit beside `existing` ones.
pub fn check_bucket_limit(sources: usize, targets: usize, existing: usize) -> (r: Result<(), Error>)
    requires
        existing <= MAX_CANDIDATES,
    ensures
        r is Ok <==> sources * targets + existing <= MAX_CANDIDATES,
        r matches Err(e) ==> e == Error::TooManyCandidates,
{
    let room = MAX_CANDIDATES - existing;
    if targets == 0 {
        assert(sources * targets == 0) by (nonlinear_arith)
            requires
                targets == 0,
        ;
        return Ok(());
    }
    let most = room / targets;
    if sources > most {
        assert(sources * targets > room) by (nonlinear_arith)
            requires
                sources > most,
                most == room / targets,
                targets > 0,
        ;
        Err(Error::TooManyCandidates)
    } else {
        assert(sources * targets <= room) by (nonlinear_arith)
            requires
                sources <= most,
                most == room / targets,
                targets > 0,
        ;
        Ok(())
    }
}

// ---------------------------------------------------------------------------
// The whole candidate report.
// ---------------------------------------------------------------------------

pub open spec fn counts_of(mv: Seq<MoveEvidenceView>, counts: Seq<(usize, usize)>) -> bool {
    counts.len() == mv.len() && forall|j: int|
        0 <= j < mv.len() ==> (#[trigger] counts[j]).0 == count_target(mv, mv[j].side, mv[j].target)
            && counts[j].1 == count_base(mv, mv[j].side, mv[j].base)
}

fn links_for(v: &Vec<MoveEvidence>, counts: &Vec<(usize, usize)>, c: usize) -> (r: Vec<OppositeMove>)
    requires
        c < v.len(),
        counts_of(move_views(v@), counts@),
    ensures
        opposite_views_of(r@) == links_of(move_views(v@), move_views(v@)[c as int]),
{
    let ghost mv = move_views(v@);
    let ghost cv = mv[c as int];
    assert(cv == v@[c as int]@);
    let other = v[c].opposite_side();
    let mut r: Vec<OppositeMove> = Vec::new();
    let mut j: usize = 0;
    assert(opposites_sorted(opposite_views_of(r@)));
    while j < v.len()
        invariant
            j <= v.len(),
            c < v.len(),
            mv == move_views(v@),
            cv == mv[c as int],
            other == side_opposite(cv.side),
            counts_of(mv, counts@),
            opposites_sorted(opposite_views_of(r@)),
            forall|o: OppositeMoveView|
                opposite_views_of(r@).contains(o) <==> exists|k: int|
                    0 <= k < j && mv[k].side == side_opposite(cv.side) && mv[k].base == cv.base && o
                        == counterpart_of(mv, #[trigger] mv[k]),
        decreases v.len() - j,
    {
        assert(mv[j as int] == v@[j as int]@);
        let ghost before = opposite_views_of(r@);
        let linked = v[j].side == other && v[j].base.same(&v[c].base);
        if linked {
            let o = OppositeMove {
                target: v[j].target.copy(),
                matched_by: v[j].matched_by.copy(),
                source_count: counts[j].0,
                destination_count: counts[j].1,
            };
            assert(o@ == counterpart_of(mv, mv[j as int]));
            insert_opposite_move(&mut r, o);
        }
        assert forall|o: OppositeMoveView|
            opposite_views_of(r@).contains(o) <==> exists|k: int|
                0 <= k < j + 1 && mv[k].side == side_opposite(cv.side) && mv[k].base == cv.base && o
                    == counterpart_of(mv, #[trigger] mv[k]) by {
            assert(before.contains(o) <==> exists|k: int|
                0 <= k < j && mv[k].side == side_opposite(cv.side) && mv[k].base == cv.base && o
                    == counterpart_of(mv, #[trigger] mv[k]));
            if linked {
                assert(opposite_views_of(r@).contains(o) <==> (before.contains(o) || o == counterpart_of(mv, mv[j as int])));
            } else {
                assert(opposite_views_of(r@) == before);
            }
            if exists|k: int|
                0 <= k < j + 1 && mv[k].side == side_opposite(cv.side) && mv[k].base == cv.base && o
                    == counterpart_of(mv, #[trigger] mv[k]) {
                let k = choose|k: int|
                    0 <= k < j + 1 && mv[k].side == side_opposite(cv.side) && mv[k].base == cv.base && o
                        == counterpart_of(mv, #[trigger] mv[k]);
                if k < j {
                    assert(before.contains(o));
                }
            }
        }
        j += 1;
    }
    proof {
        let l = opposite_views_of(r@);
        assert forall|o: OppositeMoveView| #[trigger] l.contains(o) <==> is_link(mv, cv, o) by {
            assert(l.contains(o) <==> exists|k: int|
                0 <= k < j && mv[k].side == side_opposite(cv.side) && mv[k].base == cv.base && o
                    == counterpart_of(mv, #[trigger] mv[k]));
        }
        let w = links_of(mv, cv);
        lemma_opposite_move_order();
        lemma_sorted_unique(|x: OppositeMoveView, y: OppositeMoveView| opposite_move_compare(x, y), l, w);
    }
    r
}

/// All cross-file candidates: each pair of an entity deleted from one file
/// and one added to another on the same side, matched by identical text or
/// by name-normalized text (or its syntax) in one grammar and type, in order
/// and without repeats, with the number of possible sources and destinations
/// and the other side's candidates for the same base entity. Over the limit
/// the whole report is refused, never truncated.
pub fn find_candidates(files: &Vec<ParsedFile>) -> (r: Result<Vec<MoveEvidence>, Error>)
    ensures
        match r {
            Ok(v) => move_views(v@) == final_candidates(file_views(files@)),
            Err(e) => e == Error::TooManyCandidates,
        },
        r is Ok <==> candidates_fit(file_views(files@)),
{
    let ghost fv = file_views(files@);
    super::buckets::bucket_limits(files)?;
    let mut set: Vec<MoveEvidence> = Vec::new();
    assert(move_views(set@) =~= Seq::<MoveEvidenceView>::empty());
    assert(moves_sorted(move_views(set@)));
    add_side(files, Side::Ours, &mut set);
    add_side(files, Side::Theirs, &mut set);
    let ghost mv = move_views(set@);
    proof {
        assert forall|c: MoveEvidenceView| #[trigger] mv.contains(c) <==> raw_candidate(fv, c) by {}
        let w = sorted_raw(fv);
        lemma_move_order();
        lemma_sorted_unique(|x: MoveEvidenceView, y: MoveEvidenceView| move_compare(x, y), mv, w);
    }
    let mut counts: Vec<(usize, usize)> = Vec::new();
    let mut i: usize = 0;
    while i < set.len()
        invariant
            i <= set.len(),
            mv == move_views(set@),
            counts@.len() == i,
            forall|j: int|
                0 <= j < i ==> (#[trigger] counts@[j]).0 == count_target(mv, mv[j].side, mv[j].target)
                    && counts@[j].1 == count_base(mv, mv[j].side, mv[j].base),
        decreases set.len() - i,
    {
        assert(mv[i as int] == set@[i as int]@);
        let t = count_in(&set, set[i].side, &set[i].target, true);
        let b = count_in(&set, set[i].side, &set[i].base, false);
        counts.push((t, b));
        i += 1;
    }
    let mut out: Vec<MoveEvidence> = Vec::new();
    let mut linked: usize = 0;
    let mut k: usize = 0;
    while k < set.len()
        invariant
            k <= set.len(),
            mv == move_views(set@),
            mv == sorted_raw(fv),
            fv == file_views(files@),
            counts_of(mv, counts@),
            linked == links_upto(mv, k as int),
            linked <= MAX_CANDIDATES,
            move_views(out@) == mv.take(k as int).map_values(|c: MoveEvidenceView| finished(mv, c)),
        decreases set.len() - k,
    {
        let links = links_for(&set, &counts, k);
        assert(opposite_views_of(links@).len() == links@.len());
        if check_bucket_limit(1, links.len(), linked).is_err() {
            proof {
                assert(links_upto(mv, k + 1) == links_upto(mv, k as int) + links_of(mv, mv[k as int]).len());
                assert(links_upto(mv, k + 1) > MAX_CANDIDATES);
                lemma_links_grow(mv, k + 1, mv.len() as int);
                assert(!candidates_fit(fv));
            }
            return Err(Error::TooManyCandidates);
        }
        let c = &set[k];
        assert(mv[k as int] == c@);
        let m = MoveEvidence {
            side: c.side,
            base: c.base.copy(),
            target: c.target.copy(),
            source_count: counts[k].0,
            destination_count: counts[k].1,
            opposite: c.opposite,
            matched_by: c.matched_by.copy(),
            opposite_moves: links,
        };
        linked = linked + m.opposite_moves.len();
        let ghost before = out@;
        out.push(m);
        assert(move_views(out@) =~= move_views(before).push(finished(mv, mv[k as int])));
        assert(mv.take(k + 1).map_values(|c: MoveEvidenceView| finished(mv, c)) =~= mv.take(k as int).map_values(
            |c: MoveEvidenceView| finished(mv, c),
        ).push(finished(mv, mv[k as int])));
        k += 1;
    }
    Ok(out)
}

/// The reason a candidate gives: none for a pure move; when the other side
/// changed, deleted or cannot show the source unchanged, source and target
/// must be reviewed together.
pub open spec fn move_reason(c: MoveEvidenceView) -> Option<ReasonView> {
    if c.opposite != Opposite::Unchanged {
        Some(
            ReasonView {
                kind: Kind::ModifyVsMove,
                subject: SubjectView::Move { side: c.side, base: c.base, target: c.target },
                evidence: seq![EvidenceView::MoveCandidate { candidate: c }],
            },
        )
    } else {
        None
    }
}

/// A move asks for review exactly when the other side did not leave the
/// source unchanged (it modified or deleted it, or its state is unknown):
/// then the reason is a MODIFY_VS_MOVE over the move's side, source and
/// target, with the candidate as its one piece of evidence.
pub proof fn law_move_reason(c: MoveEvidenceView)
    ensures
        (move_reason(c) is Some) == (c.opposite != Opposite::Unchanged),
        c.opposite == Opposite::Modified ==> (move_reason(c) is Some),
        c.opposite == Opposite::Deleted ==> (move_reason(c) is Some),
        c.opposite == Opposite::Unknown ==> (move_reason(c) is Some),
        move_reason(c) matches Some(r) ==> (r.kind == Kind::ModifyVsMove && r.subject == (SubjectView::Move {
            side: c.side,
            base: c.base,
            target: c.target,
        }) && r.evidence == seq![EvidenceView::MoveCandidate { candidate: c }]),
{
}

pub fn conflict_reason(candidate: &MoveEvidence) -> (r: Option<Reason>)
    ensures
        match r {
            Some(x) => move_reason(candidate@) == Some(x@),
            None => move_reason(candidate@) is None,
        },
        (r is Some) == (candidate.opposite != Opposite::Unchanged),
        r matches Some(x) ==> (x.kind == Kind::ModifyVsMove),
{
    proof {
        law_move_reason(candidate@);
    }
    if candidate.opposite == Opposite::Unchanged {
        return None;
    }
    Some(
        Reason::new(
            Kind::ModifyVsMove,
            Subject::Move {
                side: candidate.side,
                base: candidate.base.copy(),
                target: candidate.target.copy(),
            },
            Evidence::MoveCandidate { candidate: Box::new(candidate.copy()) },
        ),
    )
}

} // verus!
