//! Partitions of one file version into its top-level entities and the gaps
//! between them. A partition is only used when it gives back every input
//! character; this module never produces a conflict reason itself.
use vstd::prelude::*;
use vstd::string::StringExecFns;
use crate::reason::{Subject, SubjectView};
use crate::text::{push_char, chars_of, decimal, decimal_string, is_white_space, lines, lines_of, spec_is_white_space};
use sem_core::model::entity::SemanticEntity;
use weave_core::region::{extract_regions, FileRegion};

verus! {

/// Identity and 1-based line span of an entity found by a grammar.
pub struct EntitySpan {
    pub name: String,
    pub entity_type: String,
    pub start_line: usize,
    pub end_line: usize,
}

pub struct EntitySpanView {
    pub name: Seq<char>,
    pub entity_type: Seq<char>,
    pub start_line: nat,
    pub end_line: nat,
}

impl View for EntitySpan {
    type V = EntitySpanView;

    open spec fn view(&self) -> EntitySpanView {
        EntitySpanView {
            name: self.name@,
            entity_type: self.entity_type@,
            start_line: self.start_line as nat,
            end_line: self.end_line as nat,
        }
    }
}

pub open spec fn span_views(s: Seq<EntitySpan>) -> Seq<EntitySpanView> {
    s.map_values(|e: EntitySpan| e@)
}

/// One region of a file: an entity's text, or the text between entities.
pub enum RegionText {
    Entity { name: String, entity_type: String, content: String },
    Gap { content: String },
}

pub enum RegionTextView {
    Entity { name: Seq<char>, entity_type: Seq<char>, content: Seq<char> },
    Gap { content: Seq<char> },
}

impl View for RegionText {
    type V = RegionTextView;

    open spec fn view(&self) -> RegionTextView {
        match self {
            RegionText::Entity { name, entity_type, content } => RegionTextView::Entity {
                name: name@,
                entity_type: entity_type@,
                content: content@,
            },
            RegionText::Gap { content } => RegionTextView::Gap { content: content@ },
        }
    }
}

pub open spec fn region_views(s: Seq<RegionText>) -> Seq<RegionTextView> {
    s.map_values(|r: RegionText| r@)
}

/// One part of a reliable partition: a top-level entity or a gap.
#[derive(Debug)]
pub struct Part {
    pub key: String,
    pub name: String,
    pub entity_type: String,
    pub label: String,
    pub text: String,
    pub entity: bool,
}

pub struct PartView {
    pub key: Seq<char>,
    pub name: Seq<char>,
    pub entity_type: Seq<char>,
    pub label: Seq<char>,
    pub text: Seq<char>,
    pub entity: bool,
}

impl View for Part {
    type V = PartView;

    open spec fn view(&self) -> PartView {
        PartView {
            key: self.key@,
            name: self.name@,
            entity_type: self.entity_type@,
            label: self.label@,
            text: self.text@,
            entity: self.entity,
        }
    }
}

pub open spec fn part_views(s: Seq<Part>) -> Seq<PartView> {
    s.map_values(|p: Part| p@)
}

pub open spec fn opt_part_views(o: Option<Vec<Part>>) -> Option<Seq<PartView>> {
    match o {
        Some(v) => Some(part_views(v@)),
        None => None,
    }
}

/// The partitions of base, ours and theirs; `None` where one is unreliable.
pub type ThreePartitions = (Option<Vec<Part>>, Option<Vec<Part>>, Option<Vec<Part>>);

// ---------------------------------------------------------------------------
// Calls into the grammar registry and the region splitter.
// ---------------------------------------------------------------------------

pub open spec fn opt_parse_view(o: Option<(Vec<EntitySpan>, Option<bool>)>) -> Option<
    (Seq<EntitySpanView>, Option<bool>),
> {
    match o {
        Some((v, e)) => Some((span_views(v@), e)),
        None => None,
    }
}

/// What sem-core's grammar for `path` finds in `text`.
pub uninterp spec fn entity_parse(path: Seq<char>, text: Seq<char>) -> Option<
    (Seq<EntitySpanView>, Option<bool>),
>;

/// sem-core: `create_default_registry().get_explicit_plugin(path)` picks the
/// grammar for the path; its `extract_entities_with_tree(text, path)` finds the
/// entities. `None` when no grammar claims the path; otherwise each entity's
/// name, type and line span, and for the syntax tree, when the grammar made
/// one, whether its root `has_error()`. sem-core keeps this extraction
/// deterministic and pure per file, so the result is a function of the path
/// and the text (the name `entity_parse`); nothing more is claimed of it.
#[verifier::external_body]
fn parse_entities(path: &str, text: &str) -> (r: Option<(Vec<EntitySpan>, Option<bool>)>)
    ensures
        opt_parse_view(r) == entity_parse(path@, text@),
{
    let registry = sem_core::parser::plugins::create_default_registry();
    let plugin = registry.get_explicit_plugin(path)?;
    let (entities, tree) = plugin.extract_entities_with_tree(text, path);
    let spans = entities.into_iter().map(|e| EntitySpan {
        name: e.name,
        entity_type: e.entity_type,
        start_line: e.start_line,
        end_line: e.end_line,
    }).collect();
    Some((spans, tree.map(|t| t.root_node().has_error())))
}

/// What `weave_core::region::extract_regions` gives for a text and entities.
pub uninterp spec fn file_regions(content: Seq<char>, entities: Seq<EntitySpanView>) -> Seq<
    RegionTextView,
>;

/// weave-core `region::extract_regions(content, entities)`: the ordered entity
/// and gap regions. It reads the line before each entity's start, so no
/// entity may start two or more lines past the text's last line. It reads only each entity's name, type and line span, so
/// the other fields are left empty; its result is a function of those values
/// (the name `file_regions`).
#[verifier::external_body]
fn extract_file_regions(content: &str, spans: &Vec<EntitySpan>) -> (r: Vec<RegionText>)
    requires
        forall|i: int|
            0 <= i < spans@.len() ==> (#[trigger] spans@[i]).start_line <= lines_of(content@).len() + 1,
    ensures
        region_views(r@) == file_regions(content@, span_views(spans@)),
{
    let entities: Vec<SemanticEntity> = spans.iter().map(|s| SemanticEntity {
        id: String::new(), file_path: String::new(), entity_type: s.entity_type.clone(),
        name: s.name.clone(), parent_id: None, content: String::new(),
        content_hash: String::new(), structural_hash: None, kappa: None,
        start_line: s.start_line, end_line: s.end_line, start_byte: None, end_byte: None,
        metadata: None }).collect();
    extract_regions(content, &entities).into_iter().map(|r| match r {
        FileRegion::Entity(e) => RegionText::Entity { name: e.entity_name, entity_type: e.entity_type, content: e.content },
        FileRegion::Interstitial(g) => RegionText::Gap { content: g.content },
    }).collect()
}

// ---------------------------------------------------------------------------
// Top-level entities: sorted by start, longer first; nested ones are covered
// by their container, partial overlaps and duplicated spans are refused.
// ---------------------------------------------------------------------------

/// Sort key order: earlier start first, and for one start the longer span.
pub open spec fn key_le(a: (int, int, int), b: (int, int, int)) -> bool {
    a.0 < b.0 || (a.0 == b.0 && a.1 >= b.1)
}

/// Stable insertion: after every element whose key is not greater.
pub open spec fn insert_by_key(s: Seq<(int, int, int)>, x: (int, int, int)) -> Seq<(int, int, int)>
    decreases s.len(),
{
    if s.len() == 0 {
        seq![x]
    } else if key_le(s.last(), x) {
        s.push(x)
    } else {
        insert_by_key(s.drop_last(), x).push(s.last())
    }
}

/// Stable sort by key.
pub open spec fn sort_by_key(s: Seq<(int, int, int)>) -> Seq<(int, int, int)>
    decreases s.len(),
{
    if s.len() == 0 {
        s
    } else {
        insert_by_key(sort_by_key(s.drop_last()), s.last())
    }
}

/// (start line, end line, position) of each entity.
pub open spec fn keyed(spans: Seq<EntitySpanView>) -> Seq<(int, int, int)> {
    Seq::new(spans.len(), |i: int| (spans[i].start_line as int, spans[i].end_line as int, i))
}

/// Over the sorted entities: keep one that starts after the last kept span,
/// skip one nested in it, refuse one that overlaps it partially or repeats it.
pub open spec fn scan_top(s: Seq<(int, int, int)>, i: int, end: int, kept: Seq<(int, int, int)>) -> Option<
    Seq<(int, int, int)>,
>
    decreases s.len() - i,
{
    if i < 0 || i >= s.len() {
        Some(kept)
    } else if s[i].0 > end {
        scan_top(s, i + 1, s[i].1, kept.push(s[i]))
    } else if s[i].1 > end || (kept.len() > 0 && kept.last().0 == s[i].0 && kept.last().1
        == s[i].1) {
        None
    } else {
        scan_top(s, i + 1, end, kept)
    }
}

pub open spec fn top_entities(spans: Seq<EntitySpanView>) -> Option<Seq<EntitySpanView>> {
    match scan_top(sort_by_key(keyed(spans)), 0, 0, seq![]) {
        Some(k) => Some(k.map_values(|t: (int, int, int)| spans[t.2])),
        None => None,
    }
}

proof fn lemma_insert_at(s: Seq<(int, int, int)>, x: (int, int, int), p: int)
    requires
        0 <= p <= s.len(),
        forall|k: int| p <= k < s.len() ==> !key_le(#[trigger] s[k], x),
        p == 0 || key_le(s[p - 1], x),
    ensures
        insert_by_key(s, x) == s.insert(p, x),
    decreases s.len(),
{
    if s.len() == 0 {
        assert(s.insert(p, x) =~= seq![x]);
    } else if p == s.len() {
        assert(s.insert(p, x) =~= s.push(x));
    } else {
        assert(!key_le(s[s.len() - 1], x));
        lemma_insert_at(s.drop_last(), x, p);
        assert(s.drop_last().insert(p, x).push(s.last()) =~= s.insert(p, x));
    }
}

fn key_le_exec(a: (usize, usize, usize), b: (usize, usize, usize)) -> (r: bool)
    ensures
        r == key_le((a.0 as int, a.1 as int, a.2 as int), (b.0 as int, b.1 as int, b.2 as int)),
{
    a.0 < b.0 || (a.0 == b.0 && a.1 >= b.1)
}

pub open spec fn key_views(v: Seq<(usize, usize, usize)>) -> Seq<(int, int, int)> {
    v.map_values(|t: (usize, usize, usize)| (t.0 as int, t.1 as int, t.2 as int))
}

fn sorted_keys(spans: &Vec<EntitySpan>) -> (r: Vec<(usize, usize, usize)>)
    ensures
        key_views(r@) == sort_by_key(keyed(span_views(spans@))),
{
    let ghost all = keyed(span_views(spans@));
    let mut keys: Vec<(usize, usize, usize)> = Vec::new();
    let mut j: usize = 0;
    while j < spans.len()
        invariant
            j <= spans.len(),
            all == keyed(span_views(spans@)),
            key_views(keys@) == sort_by_key(all.take(j as int)),
        decreases spans.len() - j,
    {
        let x = (spans[j].start_line, spans[j].end_line, j);
        let ghost xv = (x.0 as int, x.1 as int, x.2 as int);
        assert(all[j as int] == xv);
        let mut p = keys.len();
        while p > 0 && !key_le_exec(keys[p - 1], x)
            invariant
                p <= keys.len(),
                xv == (x.0 as int, x.1 as int, x.2 as int),
                forall|k: int| p <= k < keys.len() ==> !key_le(#[trigger] key_views(keys@)[k], xv),
            decreases p,
        {
            p -= 1;
        }
        proof {
            lemma_insert_at(key_views(keys@), xv, p as int);
            assert(all.take(j + 1).drop_last() =~= all.take(j as int));
        }
        let ghost before = keys@;
        keys.insert(p, x);
        assert(key_views(keys@) =~= key_views(before).insert(p as int, xv));
        j += 1;
    }
    assert(all.take(spans.len() as int) =~= all);
    keys
}

pub open spec fn all_below(s: Seq<(int, int, int)>, n: int) -> bool {
    forall|k: int| 0 <= k < s.len() ==> 0 <= (#[trigger] s[k]).2 < n
}

proof fn lemma_insert_below(s: Seq<(int, int, int)>, x: (int, int, int), n: int)
    requires
        all_below(s, n),
        0 <= x.2 < n,
    ensures
        all_below(insert_by_key(s, x), n),
        insert_by_key(s, x).len() == s.len() + 1,
    decreases s.len(),
{
    if s.len() > 0 && !key_le(s.last(), x) {
        lemma_insert_below(s.drop_last(), x, n);
    }
}

proof fn lemma_sort_below(s: Seq<(int, int, int)>, n: int)
    requires
        all_below(s, n),
    ensures
        all_below(sort_by_key(s), n),
        sort_by_key(s).len() == s.len(),
    decreases s.len(),
{
    if s.len() > 0 {
        lemma_sort_below(s.drop_last(), n);
        lemma_insert_below(sort_by_key(s.drop_last()), s.last(), n);
    }
}

fn copy_span(e: &EntitySpan) -> (r: EntitySpan)
    ensures
        r@ == e@,
{
    EntitySpan {
        name: e.name.clone(),
        entity_type: e.entity_type.clone(),
        start_line: e.start_line,
        end_line: e.end_line,
    }
}

/// The top-level entities, in order; `None` on a partial overlap or when two
/// top-level entities share one span.
pub fn select_top(spans: &Vec<EntitySpan>) -> (r: Option<Vec<EntitySpan>>)
    ensures
        match r {
            Some(v) => top_entities(span_views(spans@)) == Some(span_views(v@)),
            None => top_entities(span_views(spans@)) is None,
        },
{
    let keys = sorted_keys(spans);
    let ghost sv = span_views(spans@);
    let ghost s = key_views(keys@);
    proof {
        assert(all_below(keyed(sv), spans.len() as int));
        lemma_sort_below(keyed(sv), spans.len() as int);
    }
    let mut kept: Vec<(usize, usize, usize)> = Vec::new();
    let mut end: usize = 0;
    let mut i: usize = 0;
    assert(key_views(kept@) =~= seq![]);
    while i < keys.len()
        invariant
            i <= keys.len(),
            s == key_views(keys@),
            s == sort_by_key(keyed(sv)),
            sv == span_views(spans@),
            all_below(s, spans.len() as int),
            all_below(key_views(kept@), spans.len() as int),
            scan_top(s, 0, 0, seq![]) == scan_top(s, i as int, end as int, key_views(kept@)),
        decreases keys.len() - i,
    {
        let e = keys[i];
        assert(s[i as int] == (e.0 as int, e.1 as int, e.2 as int));
        if e.0 > end {
            let ghost before = kept@;
            kept.push(e);
            assert(key_views(kept@) =~= key_views(before).push(s[i as int]));
            end = e.1;
        } else if e.1 > end || (kept.len() > 0 && kept[kept.len() - 1].0 == e.0 && kept[kept.len()
            - 1].1 == e.1) {
            assert(kept.len() > 0 ==> key_views(kept@).last() == (kept[kept.len() - 1].0 as int, kept[kept.len() - 1].1 as int, kept[kept.len() - 1].2 as int));
            assert(scan_top(s, i as int, end as int, key_views(kept@)) is None);
            return None;
        }
        i += 1;
    }
    let ghost kv = key_views(kept@);
    let mut out: Vec<EntitySpan> = Vec::new();
    let mut k: usize = 0;
    while k < kept.len()
        invariant
            k <= kept.len(),
            kv == key_views(kept@),
            sv == span_views(spans@),
            all_below(kv, spans.len() as int),
            span_views(out@) == kv.take(k as int).map_values(|t: (int, int, int)| sv[t.2]),
        decreases kept.len() - k,
    {
        assert(0 <= kv[k as int].2 < spans.len());
        let ghost before = out@;
        out.push(copy_span(&spans[kept[k].2]));
        assert(kv.take(k + 1) =~= kv.take(k as int).push(kv[k as int]));
        assert(span_views(out@) =~= span_views(before).push(sv[kv[k as int].2]));
        k += 1;
    }
    assert(kv.take(kept.len() as int) =~= kv);
    Some(out)
}

// ---------------------------------------------------------------------------
// Parts from regions: keys, the losslessness check and positional labels.
// ---------------------------------------------------------------------------

pub open spec fn raw_part(i: int, r: RegionTextView) -> PartView {
    match r {
        RegionTextView::Entity { name, entity_type, content } => PartView {
            key: entity_type + ":"@ + name,
            name,
            entity_type,
            label: entity_type + " "@ + name,
            text: content,
            entity: true,
        },
        RegionTextView::Gap { content } => PartView {
            key: "gap:"@ + decimal(i as nat),
            name: Seq::empty(),
            entity_type: Seq::empty(),
            label: "非实体文本"@,
            text: content,
            entity: false,
        },
    }
}

pub open spec fn raw_parts(rs: Seq<RegionTextView>) -> Seq<PartView> {
    Seq::new(rs.len(), |i: int| raw_part(i, rs[i]))
}

/// No two entity parts share a key.
pub open spec fn entity_keys_unique(ps: Seq<PartView>) -> bool {
    forall|i: int, j: int|
        0 <= i < j < ps.len() && (#[trigger] ps[i]).entity && (#[trigger] ps[j]).entity ==> ps[i].key
            != ps[j].key
}

/// The texts of the parts, one after another.
pub open spec fn joined(ps: Seq<PartView>) -> Seq<char>
    decreases ps.len(),
{
    if ps.len() == 0 {
        Seq::empty()
    } else {
        joined(ps.drop_last()) + ps.last().text
    }
}

/// A gap is described by its entity neighbours, never by its own text.
pub open spec fn gap_label(ps: Seq<PartView>, i: int) -> Seq<char> {
    let before = i > 0 && ps[i - 1].entity;
    let after = i + 1 < ps.len() && ps[i + 1].entity;
    if !before && after {
        "文件开头、"@ + ps[i + 1].label + " 之前的非实体区域"@
    } else if before && !after {
        "文件末尾、"@ + ps[i - 1].label + " 之后的非实体区域"@
    } else if before && after {
        ps[i - 1].label + " 与 "@ + ps[i + 1].label + " 之间的非实体区域"@
    } else {
        "文件中的非实体区域"@
    }
}

pub open spec fn relabelled(p: PartView, label: Seq<char>) -> PartView {
    PartView {
        key: p.key,
        name: p.name,
        entity_type: p.entity_type,
        label,
        text: p.text,
        entity: p.entity,
    }
}

pub open spec fn labelled(ps: Seq<PartView>) -> Seq<PartView> {
    Seq::new(
        ps.len(),
        |i: int|
            if ps[i].entity {
                ps[i]
            } else {
                relabelled(ps[i], gap_label(ps, i))
            },
    )
}

/// The partition that the regions of `text` give, if it is reliable.
pub open spec fn partition_of(text: Seq<char>, rs: Seq<RegionTextView>) -> Option<Seq<PartView>> {
    let ps = raw_parts(rs);
    if entity_keys_unique(ps) && joined(ps) == text {
        Some(labelled(ps))
    } else {
        None
    }
}

fn raw_part_exec(i: usize, r: &RegionText) -> (p: Part)
    ensures
        p@ == raw_part(i as int, r@),
{
    match r {
        RegionText::Entity { name, entity_type, content } => {
            let mut key = entity_type.clone();
            key.append(":");
            key.append(name.as_str());
            let mut label = entity_type.clone();
            label.append(" ");
            label.append(name.as_str());
            Part {
                key,
                name: name.clone(),
                entity_type: entity_type.clone(),
                label,
                text: content.clone(),
                entity: true,
            }
        },
        RegionText::Gap { content } => {
            let mut key = String::from_str("gap:");
            key.append(decimal_string(i).as_str());
            Part {
                key,
                name: String::new(),
                entity_type: String::new(),
                label: String::from_str("非实体文本"),
                text: content.clone(),
                entity: false,
            }
        },
    }
}

fn gap_label_exec(parts: &Vec<Part>, i: usize) -> (r: String)
    requires
        i < parts.len(),
    ensures
        r@ == gap_label(part_views(parts@), i as int),
{
    let before = i > 0 && parts[i - 1].entity;
    let after = i + 1 < parts.len() && parts[i + 1].entity;
    if !before && after {
        let mut s = String::from_str("文件开头、");
        s.append(parts[i + 1].label.as_str());
        s.append(" 之前的非实体区域");
        s
    } else if before && !after {
        let mut s = String::from_str("文件末尾、");
        s.append(parts[i - 1].label.as_str());
        s.append(" 之后的非实体区域");
        s
    } else if before && after {
        let mut s = parts[i - 1].label.clone();
        s.append(" 与 ");
        s.append(parts[i + 1].label.as_str());
        s.append(" 之间的非实体区域");
        s
    } else {
        String::from_str("文件中的非实体区域")
    }
}

proof fn lemma_unique_step(ps: Seq<PartView>, i: int)
    requires
        0 <= i < ps.len(),
    ensures
        entity_keys_unique(ps.take(i + 1)) == (entity_keys_unique(ps.take(i)) && !(ps[i].entity
            && exists|k: int| 0 <= k < i && (#[trigger] ps[k]).entity && ps[k].key == ps[i].key)),
{
    let a = ps.take(i);
    let b = ps.take(i + 1);
    if entity_keys_unique(b) {
        assert forall|x: int, y: int|
            0 <= x < y < a.len() && (#[trigger] a[x]).entity && (#[trigger] a[y]).entity implies a[x].key
                != a[y].key by {
            assert(b[x] == a[x] && b[y] == a[y]);
        }
        if ps[i].entity {
            assert forall|k: int| 0 <= k < i && (#[trigger] ps[k]).entity implies ps[k].key != ps[i].key by {
                assert(b[k] == ps[k] && b[i] == ps[i]);
            }
        }
    }
}

/// The parts that `regions` give for `text`: `None` when two entity parts
/// share a key or when the regions do not give back `text` exactly.
pub fn parts_from_regions(text: &str, regions: &Vec<RegionText>) -> (r: Option<Vec<Part>>)
    ensures
        opt_part_views(r) == partition_of(text@, region_views(regions@)),
{
    let ghost rs = region_views(regions@);
    let ghost raw = raw_parts(rs);
    let mut parts: Vec<Part> = Vec::new();
    let mut all = String::new();
    let mut unique = true;
    let mut i: usize = 0;
    while i < regions.len()
        invariant
            i <= regions.len(),
            rs == region_views(regions@),
            raw == raw_parts(rs),
            part_views(parts@) == raw.take(i as int),
            all@ == joined(raw.take(i as int)),
            unique == entity_keys_unique(raw.take(i as int)),
        decreases regions.len() - i,
    {
        let part = raw_part_exec(i, &regions[i]);
        assert(part@ == raw[i as int]);
        let mut dup = false;
        let mut k: usize = 0;
        while k < parts.len()
            invariant
                k <= parts.len(),
                part_views(parts@) == raw.take(i as int),
                i < raw.len(),
                part@ == raw[i as int],
                dup == exists|m: int| 0 <= m < k && (#[trigger] raw[m]).entity && raw[m].key == part@.key,
            decreases parts.len() - k,
        {
            assert(part_views(parts@).len() == parts.len());
            assert(raw.take(i as int)[k as int] == raw[k as int]);
            assert(part_views(parts@)[k as int] == parts@[k as int]@);
            if parts[k].entity && parts[k].key == part.key {
                dup = true;
            }
            k += 1;
        }
        proof {
            lemma_unique_step(raw, i as int);
            assert(raw.take(i + 1).drop_last() =~= raw.take(i as int));
        }
        unique = unique && !(part.entity && dup);
        all.append(part.text.as_str());
        let ghost before = parts@;
        parts.push(part);
        assert(part_views(parts@) =~= part_views(before).push(raw[i as int]));
        assert(raw.take(i + 1) =~= raw.take(i as int).push(raw[i as int]));
        i += 1;
    }
    assert(raw.take(regions.len() as int) =~= raw);
    let whole = String::from_str(text);
    if !unique || !(all == whole) {
        return None;
    }
    let ghost pv = part_views(parts@);
    let mut out: Vec<Part> = Vec::new();
    let mut j: usize = 0;
    while j < parts.len()
        invariant
            j <= parts.len(),
            pv == part_views(parts@),
            part_views(out@) == labelled(pv).take(j as int),
        decreases parts.len() - j,
    {
        let p = &parts[j];
        let label = if p.entity {
            p.label.clone()
        } else {
            gap_label_exec(&parts, j)
        };
        let ghost before = out@;
        out.push(
            Part {
                key: p.key.clone(),
                name: p.name.clone(),
                entity_type: p.entity_type.clone(),
                label,
                text: p.text.clone(),
                entity: p.entity,
            },
        );
        assert(part_views(out@) =~= part_views(before).push(labelled(pv)[j as int]));
        assert(labelled(pv).take(j + 1) =~= labelled(pv).take(j as int).push(labelled(pv)[j as int]));
        j += 1;
    }
    assert(labelled(pv).take(parts.len() as int) =~= labelled(pv));
    Some(out)
}

// ---------------------------------------------------------------------------
// The partition of one file version.
// ---------------------------------------------------------------------------

/// Every character is Unicode white space (what `str::trim` removes).
pub open spec fn is_blank(s: Seq<char>) -> bool {
    forall|i: int| 0 <= i < s.len() ==> spec_is_white_space(#[trigger] s[i])
}

fn blank(text: &str) -> (r: bool)
    ensures
        r == is_blank(text@),
{
    let cs = chars_of(text);
    let mut i: usize = 0;
    while i < cs.len()
        invariant
            i <= cs.len(),
            cs@ == text@,
            forall|k: int| 0 <= k < i ==> spec_is_white_space(#[trigger] cs@[k]),
        decreases cs.len() - i,
    {
        if !is_white_space(cs[i]) {
            return false;
        }
        i += 1;
    }
    true
}

/// Every span starts on a line of `text`.
pub open spec fn spans_in_text(spans: Seq<EntitySpanView>, text: Seq<char>) -> bool {
    forall|i: int| 0 <= i < spans.len() ==> #[trigger] spans[i].start_line <= lines_of(text).len()
}

/// Whether every span starts on a line of `text`.
fn starts_in_text(spans: &Vec<EntitySpan>, text: &str) -> (r: bool)
    ensures
        r == spans_in_text(span_views(spans@), text@),
{
    let line_count = lines(text).len();
    let mut i: usize = 0;
    while i < spans.len()
        invariant
            i <= spans.len(),
            line_count == lines_of(text@).len(),
            forall|k: int| 0 <= k < i ==> (#[trigger] spans@[k]).start_line <= line_count,
        decreases spans.len() - i,
    {
        if spans[i].start_line > line_count {
            assert(span_views(spans@)[i as int].start_line > lines_of(text@).len());
            return false;
        }
        i += 1;
    }
    assert forall|k: int| 0 <= k < span_views(spans@).len() implies #[trigger] span_views(spans@)[k].start_line
        <= lines_of(text@).len() by {
        assert(span_views(spans@)[k] == spans@[k]@);
    }
    true
}

/// The partition that a parse of `text` gives: none where no grammar claims
/// the path, where a text with more than white space parsed with an error or
/// without entities, where entities partly overlap, where a top-level entity
/// starts past the text's last line, or where the parts do not give back
/// every character.
pub open spec fn partition_from(text: Seq<char>, parsed: Option<(Seq<EntitySpanView>, Option<bool>)>) -> Option<
    Seq<PartView>,
> {
    match parsed {
        None => None,
        Some((found, tree_error)) => if !is_blank(text) && !(tree_error == Some(false) && found.len() > 0) {
            None
        } else {
            match top_entities(found) {
                Some(top) => if spans_in_text(top, text) {
                    partition_of(text, file_regions(text, top))
                } else {
                    None
                },
                None => None,
            }
        },
    }
}

/// The partition of `text` into top-level entities and gaps, when the grammar
/// for `path` parses it without error and the parts give back every
/// character. A text of white space alone needs no entity.
pub fn partition(path: &str, text: &str) -> (r: Option<Vec<Part>>)
    ensures
        opt_part_views(r) == partition_from(text@, entity_parse(path@, text@)),
{
    let parsed = parse_entities(path, text);
    partition_parsed(text, parsed)
}

/// The partition of `text`, given what the grammar found in it.
pub fn partition_parsed(text: &str, parsed: Option<(Vec<EntitySpan>, Option<bool>)>) -> (r: Option<Vec<Part>>)
    ensures
        opt_part_views(r) == partition_from(text@, opt_parse_view(parsed)),
{
    let (entities, tree_error) = match parsed {
        Some(found) => found,
        None => return None,
    };
    if !blank(text) {
        match tree_error {
            Some(false) => {
                if entities.len() == 0 {
                    return None;
                }
            },
            _ => return None,
        }
    }
    let top = match select_top(&entities) {
        Some(top) => top,
        None => return None,
    };
    if !starts_in_text(&top, text) {
        return None;
    }
    assert forall|i: int| 0 <= i < top@.len() implies (#[trigger] top@[i]).start_line <= lines_of(text@).len() + 1 by {
        assert(span_views(top@)[i] == top@[i]@);
        assert(span_views(top@)[i].start_line <= lines_of(text@).len());
    }
    let regions = extract_file_regions(text, &top);
    parts_from_regions(text, &regions)
}

pub open spec fn part_subject(p: PartView) -> SubjectView {
    if p.entity {
        SubjectView::Entity { entity_type: p.entity_type, name: p.name }
    } else {
        SubjectView::Gap { key: p.key, label: p.label }
    }
}

impl Part {
    pub fn copy(&self) -> (r: Part)
        ensures
            r@ == self@,
    {
        Part {
            key: self.key.clone(),
            name: self.name.clone(),
            entity_type: self.entity_type.clone(),
            label: self.label.clone(),
            text: self.text.clone(),
            entity: self.entity,
        }
    }

    /// The subject a reason about this part applies to.
    pub fn subject(&self) -> (r: Subject)
        ensures
            r@ == part_subject(self@),
    {
        if self.entity {
            Subject::Entity { entity_type: self.entity_type.clone(), name: self.name.clone() }
        } else {
            Subject::Gap { key: self.key.clone(), label: self.label.clone() }
        }
    }
}

pub open spec fn part_keys(ps: Seq<PartView>) -> Seq<Seq<char>> {
    ps.map_values(|p: PartView| p.key)
}

/// Whether two partitions have the same parts in the same order.
pub fn same_keys(x: &[Part], y: &[Part]) -> (r: bool)
    ensures
        r == (part_keys(part_views(x@)) == part_keys(part_views(y@))),
{
    if x.len() != y.len() {
        assert(part_keys(part_views(x@)).len() != part_keys(part_views(y@)).len());
        return false;
    }
    let mut i: usize = 0;
    while i < x.len()
        invariant
            i <= x.len(),
            x.len() == y.len(),
            forall|k: int| 0 <= k < i ==> (#[trigger] x@[k]).key@ == y@[k].key@,
        decreases x.len() - i,
    {
        if !(x[i].key == y[i].key) {
            assert(part_keys(part_views(x@))[i as int] != part_keys(part_views(y@))[i as int]);
            return false;
        }
        i += 1;
    }
    assert(part_keys(part_views(x@)) =~= part_keys(part_views(y@)));
    true
}

pub open spec fn type_filter(et: Option<&str>) -> Option<Seq<char>> {
    match et {
        Some(t) => Some(t@),
        None => None,
    }
}

/// The entity parts of one version with the given name (and type, if given).
pub open spec fn named_matches(v: Seq<PartView>, name: Seq<char>, et: Option<Seq<char>>) -> Seq<
    PartView,
>
    decreases v.len(),
{
    if v.len() == 0 {
        Seq::empty()
    } else {
        let rest = named_matches(v.drop_last(), name, et);
        let p = v.last();
        if p.entity && p.name == name && (et matches Some(t) ==> p.entity_type == t) {
            rest.push(p)
        } else {
            rest
        }
    }
}

pub open spec fn part_subjects(ps: Seq<PartView>) -> Seq<SubjectView> {
    ps.map_values(|p: PartView| part_subject(p))
}

pub open spec fn subject_views(s: Seq<Subject>) -> Seq<SubjectView> {
    s.map_values(|x: Subject| x@)
}

/// A public name binds to a subject only when no version holds it twice and
/// every version that holds it agrees on one subject.
pub open spec fn bound_subject(
    b: Seq<PartView>,
    o: Seq<PartView>,
    t: Seq<PartView>,
    name: Seq<char>,
    et: Option<Seq<char>>,
) -> Option<SubjectView> {
    let mb = named_matches(b, name, et);
    let mo = named_matches(o, name, et);
    let mt = named_matches(t, name, et);
    let found = part_subjects(mb) + part_subjects(mo) + part_subjects(mt);
    if mb.len() > 1 || mo.len() > 1 || mt.len() > 1 {
        None
    } else if found.len() > 0 && (forall|i: int| 0 <= i < found.len() ==> #[trigger] found[i] == found[0]) {
        Some(found[0])
    } else {
        None
    }
}

pub open spec fn local_subject_of(parts: ThreePartitions, name: Seq<char>, et: Option<Seq<char>>) -> Option<
    SubjectView,
> {
    match parts {
        (Some(b), Some(o), Some(t)) => bound_subject(part_views(b@), part_views(o@), part_views(t@), name, et),
        _ => None,
    }
}

pub open spec fn opt_subject_view(s: Option<Subject>) -> Option<SubjectView> {
    match s {
        Some(x) => Some(x@),
        None => None,
    }
}

pub open spec fn opt_string_view(s: Option<String>) -> Option<Seq<char>> {
    match s {
        Some(t) => Some(t@),
        None => None,
    }
}

fn matches_in(v: &Vec<Part>, name: &String, et: &Option<String>) -> (r: Vec<Subject>)
    ensures
        subject_views(r@) == part_subjects(named_matches(part_views(v@), name@, opt_string_view(*et))),
{
    let ghost etv = opt_string_view(*et);
    let ghost pv = part_views(v@);
    let mut r: Vec<Subject> = Vec::new();
    let mut i: usize = 0;
    while i < v.len()
        invariant
            i <= v.len(),
            pv == part_views(v@),
            etv == opt_string_view(*et),
            subject_views(r@) == part_subjects(named_matches(pv.take(i as int), name@, etv)),
        decreases v.len() - i,
    {
        let p = &v[i];
        let type_ok = match et {
            Some(t) => p.entity_type == *t,
            None => true,
        };
        assert(pv.take(i + 1).drop_last() =~= pv.take(i as int));
        assert(pv.take(i + 1).last() == p@);
        if p.entity && p.name == *name && type_ok {
            let ghost before = r@;
            r.push(p.subject());
            assert(subject_views(r@) =~= subject_views(before).push(part_subject(p@)));
            assert(part_subjects(named_matches(pv.take(i + 1), name@, etv)) =~= part_subjects(
                named_matches(pv.take(i as int), name@, etv),
            ).push(part_subject(p@)));
        }
        i += 1;
    }
    assert(pv.take(v.len() as int) =~= pv);
    r
}

/// The subject that weave's public name `name` (of type `entity_type`, when
/// given) denotes locally: only when all three partitions are reliable, no
/// version holds two such entities, and those found agree on one subject.
pub fn local_subject(parts: &ThreePartitions, name: &str, entity_type: Option<&str>) -> (r: Option<
    Subject,
>)
    ensures
        opt_subject_view(r) == local_subject_of(*parts, name@, type_filter(entity_type)),
{
    let (b, o, t) = match parts {
        (Some(b), Some(o), Some(t)) => (b, o, t),
        _ => return None,
    };
    let wanted = String::from_str(name);
    let et: Option<String> = match entity_type {
        Some(t) => Some(String::from_str(t)),
        None => None,
    };
    let ghost etv = type_filter(entity_type);
    assert(etv == opt_string_view(et));
    let mut found = matches_in(b, &wanted, &et);
    let mut mo = matches_in(o, &wanted, &et);
    let mut mt = matches_in(t, &wanted, &et);
    let ghost sb = named_matches(part_views(b@), name@, etv);
    let ghost so = named_matches(part_views(o@), name@, etv);
    let ghost st = named_matches(part_views(t@), name@, etv);
    assert(found@.len() == sb.len() && mo@.len() == so.len() && mt@.len() == st.len()) by {
        assert(subject_views(found@).len() == found@.len());
        assert(subject_views(mo@).len() == mo@.len());
        assert(subject_views(mt@).len() == mt@.len());
    }
    if found.len() > 1 || mo.len() > 1 || mt.len() > 1 {
        return None;
    }
    let ghost fs = part_subjects(sb) + part_subjects(so) + part_subjects(st);
    let ghost (v0, v1, v2) = (found@, mo@, mt@);
    found.append(&mut mo);
    found.append(&mut mt);
    assert(subject_views(found@) =~= fs) by {
        assert(found@ == v0 + v1 + v2);
        assert(subject_views(v0 + v1 + v2) =~= subject_views(v0) + subject_views(v1) + subject_views(v2));
    }
    assert(subject_views(found@).len() == found.len());
    if found.len() == 0 {
        assert(fs.len() == 0);
        return None;
    }
    assert(local_subject_of(*parts, name@, type_filter(entity_type)) == (if (forall|k: int|
        0 <= k < fs.len() ==> #[trigger] fs[k] == fs[0]) {
        Some(fs[0])
    } else {
        None
    }));
    let mut i: usize = 1;
    while i < found.len()
        invariant
            1 <= i <= found.len(),
            subject_views(found@) == fs,
            forall|k: int| 0 <= k < i ==> #[trigger] fs[k] == fs[0],
            local_subject_of(*parts, name@, type_filter(entity_type)) == (if (forall|k: int|
                0 <= k < fs.len() ==> #[trigger] fs[k] == fs[0]) {
                Some(fs[0])
            } else {
                None
            }),
        decreases found.len() - i,
    {
        assert(found@[i as int]@ == fs[i as int]);
        assert(found@[0]@ == fs[0]);
        if !found[i].same(&found[0]) {
            return None;
        }
        i += 1;
    }
    assert(found@[0]@ == fs[0]);
    Some(found[0].copy())
}

// ---------------------------------------------------------------------------
// Appends of distinct new entities, the one layout change shown compactly.
// ---------------------------------------------------------------------------

/// The keys of the entity parts, in order.
pub open spec fn entity_keys(ps: Seq<PartView>) -> Seq<Seq<char>>
    decreases ps.len(),
{
    if ps.len() == 0 {
        Seq::empty()
    } else if ps.last().entity {
        entity_keys(ps.drop_last()).push(ps.last().key)
    } else {
        entity_keys(ps.drop_last())
    }
}

/// The new entity keys of an appended tail: `None` when the tail holds text
/// outside entities other than white space, repeats an entity of the base, or
/// adds no entity at all.
pub open spec fn added_keys(base: Seq<PartView>, tail: Seq<PartView>) -> Option<Seq<Seq<char>>> {
    let known = entity_keys(base);
    if exists|i: int|
        0 <= i < tail.len() && ((!(#[trigger] tail[i]).entity && !is_blank(tail[i].text)) || (
        tail[i].entity && known.contains(tail[i].key))) {
        None
    } else if entity_keys(tail).len() == 0 {
        None
    } else {
        Some(entity_keys(tail))
    }
}

pub open spec fn disjoint_keys(a: Seq<Seq<char>>, b: Seq<Seq<char>>) -> bool {
    forall|i: int, j: int| 0 <= i < a.len() && 0 <= j < b.len() ==> #[trigger] a[i] != #[trigger] b[j]
}

/// Both sides only appended new entities (and white space) to an unchanged
/// base, and no entity was appended by both.
pub open spec fn appends_distinct(
    base: Option<Seq<PartView>>,
    ours_tail: Option<Seq<PartView>>,
    theirs_tail: Option<Seq<PartView>>,
) -> bool {
    match (base, ours_tail, theirs_tail) {
        (Some(b), Some(o), Some(t)) => match (added_keys(b, o), added_keys(b, t)) {
            (Some(ko), Some(kt)) => disjoint_keys(ko, kt),
            _ => false,
        },
        _ => false,
    }
}

fn entity_keys_of(ps: &Vec<Part>) -> (r: Vec<String>)
    ensures
        r@.map_values(|k: String| k@) == entity_keys(part_views(ps@)),
{
    let ghost pv = part_views(ps@);
    let mut r: Vec<String> = Vec::new();
    let mut i: usize = 0;
    while i < ps.len()
        invariant
            i <= ps.len(),
            pv == part_views(ps@),
            r@.map_values(|k: String| k@) == entity_keys(pv.take(i as int)),
        decreases ps.len() - i,
    {
        assert(pv.take(i + 1).drop_last() =~= pv.take(i as int));
        assert(pv.take(i + 1).last() == ps@[i as int]@);
        if ps[i].entity {
            let ghost before = r@;
            r.push(ps[i].key.clone());
            assert(r@.map_values(|k: String| k@) =~= before.map_values(|k: String| k@).push(
                ps@[i as int].key@,
            ));
        }
        i += 1;
    }
    assert(pv.take(ps.len() as int) =~= pv);
    r
}

fn contains_key(keys: &Vec<String>, key: &String) -> (r: bool)
    ensures
        r == keys@.map_values(|k: String| k@).contains(key@),
{
    let ghost kv = keys@.map_values(|k: String| k@);
    let mut i: usize = 0;
    while i < keys.len()
        invariant
            i <= keys.len(),
            kv == keys@.map_values(|k: String| k@),
            forall|m: int| 0 <= m < i ==> kv[m] != key@,
        decreases keys.len() - i,
    {
        if keys[i] == *key {
            assert(kv[i as int] == key@);
            return true;
        }
        i += 1;
    }
    false
}

fn added_keys_of(base: &Vec<Part>, tail: &Vec<Part>) -> (r: Option<Vec<String>>)
    ensures
        match r {
            Some(k) => added_keys(part_views(base@), part_views(tail@)) == Some(
                k@.map_values(|k: String| k@),
            ),
            None => added_keys(part_views(base@), part_views(tail@)) is None,
        },
{
    let known = entity_keys_of(base);
    let ghost tv = part_views(tail@);
    let mut i: usize = 0;
    while i < tail.len()
        invariant
            i <= tail.len(),
            tv == part_views(tail@),
            known@.map_values(|k: String| k@) == entity_keys(part_views(base@)),
            forall|m: int|
                0 <= m < i ==> !((!(#[trigger] tv[m]).entity && !is_blank(tv[m].text)) || (
                tv[m].entity && entity_keys(part_views(base@)).contains(tv[m].key))),
        decreases tail.len() - i,
    {
        let p = &tail[i];
        assert(tv[i as int] == p@);
        if (!p.entity && !blank(p.text.as_str())) || (p.entity && contains_key(&known, &p.key)) {
            return None;
        }
        i += 1;
    }
    let keys = entity_keys_of(tail);
    if keys.len() == 0 {
        assert(keys@.map_values(|k: String| k@).len() == 0);
        return None;
    }
    Some(keys)
}

fn keys_disjoint(a: &Vec<String>, b: &Vec<String>) -> (r: bool)
    ensures
        r == disjoint_keys(a@.map_values(|k: String| k@), b@.map_values(|k: String| k@)),
{
    let ghost av = a@.map_values(|k: String| k@);
    let ghost bv = b@.map_values(|k: String| k@);
    let mut i: usize = 0;
    while i < a.len()
        invariant
            i <= a.len(),
            av == a@.map_values(|k: String| k@),
            bv == b@.map_values(|k: String| k@),
            forall|x: int, y: int| 0 <= x < i && 0 <= y < bv.len() ==> #[trigger] av[x] != #[trigger] bv[y],
        decreases a.len() - i,
    {
        if contains_key(b, &a[i]) {
            assert(av[i as int] == a@[i as int]@);
            return false;
        }
        assert(av[i as int] == a@[i as int]@);
        i += 1;
    }
    true
}

/// Whether both appended tails hold only distinct new entities (exact over
/// the partitions of base and of the two appended tails).
pub fn appends_are_distinct(
    base: &Option<Vec<Part>>,
    ours_tail: &Option<Vec<Part>>,
    theirs_tail: &Option<Vec<Part>>,
) -> (r: bool)
    ensures
        r == appends_distinct(opt_part_views(*base), opt_part_views(*ours_tail), opt_part_views(*theirs_tail)),
{
    match (base, ours_tail, theirs_tail) {
        (Some(b), Some(o), Some(t)) => match (added_keys_of(b, o), added_keys_of(b, t)) {
            (Some(ko), Some(kt)) => keys_disjoint(&ko, &kt),
            _ => false,
        },
        _ => false,
    }
}

/// The rest of `text` after `prefix`, when `text` starts with it.
pub fn strip_prefix(text: &str, prefix: &str) -> (r: Option<String>)
    ensures
        match r {
            Some(t) => prefix@.is_prefix_of(text@) && t@ == text@.skip(prefix@.len() as int),
            None => !prefix@.is_prefix_of(text@),
        },
{
    let t = chars_of(text);
    let p = chars_of(prefix);
    if p.len() > t.len() {
        return None;
    }
    let mut i: usize = 0;
    while i < p.len()
        invariant
            i <= p.len() <= t.len(),
            t@ == text@,
            p@ == prefix@,
            forall|k: int| 0 <= k < i ==> t@[k] == p@[k],
        decreases p.len() - i,
    {
        if t[i] != p[i] {
            return None;
        }
        i += 1;
    }
    assert(prefix@.is_prefix_of(text@)) by {
        assert(text@.subrange(0, prefix@.len() as int) =~= prefix@);
    }
    let mut rest = String::new();
    let mut j = p.len();
    while j < t.len()
        invariant
            p.len() <= j <= t.len(),
            t@ == text@,
            rest@ == t@.subrange(p.len() as int, j as int),
        decreases t.len() - j,
    {
        push_char(&mut rest, t[j]);
        assert(t@.subrange(p.len() as int, j + 1) =~= t@.subrange(p.len() as int, j as int).push(t@[j as int]));
        j += 1;
    }
    assert(t@.subrange(p.len() as int, t.len() as int) =~= text@.skip(prefix@.len() as int));
    Some(rest)
}

/// Whether both sides keep every base character and append only distinct
/// new entities, over the grammar's partitions of base and of each tail.
pub open spec fn entity_appends(base: Seq<char>, ours: Seq<char>, theirs: Seq<char>, path: Seq<char>) -> bool {
    &&& partition_from(base, entity_parse(path, base)) is Some
    &&& base.is_prefix_of(ours)
    &&& base.is_prefix_of(theirs)
    &&& appends_distinct(
        partition_from(base, entity_parse(path, base)),
        partition_from(ours.skip(base.len() as int), entity_parse(path, ours.skip(base.len() as int))),
        partition_from(theirs.skip(base.len() as int), entity_parse(path, theirs.skip(base.len() as int))),
    )
}

/// Only this layout change may use Git's compact output: every base character
/// is unchanged and both sides appended distinct new entities.
pub fn distinct_entity_appends(base: &str, ours: &str, theirs: &str, path: &str) -> (r: bool)
    ensures
        r == entity_appends(base@, ours@, theirs@, path@),
        r ==> base@.is_prefix_of(ours@) && base@.is_prefix_of(theirs@),
{
    let base_parts = partition(path, base);
    if base_parts.is_none() {
        return false;
    }
    let ours_tail = match strip_prefix(ours, base) {
        Some(tail) => partition(path, tail.as_str()),
        None => return false,
    };
    let theirs_tail = match strip_prefix(theirs, base) {
        Some(tail) => partition(path, tail.as_str()),
        None => return false,
    };
    appends_are_distinct(&base_parts, &ours_tail, &theirs_tail)
}

} // verus!
