//! Formatting-insensitive candidate keys, never a merge or a proof of semantic
//! equivalence. The grammar's syntax tree is kept whole: structure, field
//! names, token order, comments and literal bytes; only white space between
//! syntax nodes is ignored.
use vstd::prelude::*;
use vstd::string::StringSliceAdditionalSpecFns;
use sem_core::parser::plugins::code::{language_config_for_content, parse_tree};

verus! {

/// One step of a pre-order walk over a syntax tree: entering a node (with
/// its facts) or leaving the node entered last.
#[derive(Debug)]
pub enum NodeEvent {
    Enter {
        kind: String,
        field: Option<String>,
        named: bool,
        missing: bool,
        error: bool,
        start: usize,
        end: usize,
        children: usize,
    },
    Leave,
}

pub enum NodeEventView {
    Enter {
        kind: Seq<char>,
        field: Option<Seq<char>>,
        named: bool,
        missing: bool,
        error: bool,
        start: nat,
        end: nat,
        children: nat,
    },
    Leave,
}

pub open spec fn opt_str_view(o: Option<String>) -> Option<Seq<char>> {
    match o {
        Some(s) => Some(s@),
        None => None,
    }
}

impl View for NodeEvent {
    type V = NodeEventView;

    open spec fn view(&self) -> NodeEventView {
        match self {
            NodeEvent::Enter { kind, field, named, missing, error, start, end, children } =>
                NodeEventView::Enter {
                kind: kind@,
                field: opt_str_view(*field),
                named: *named,
                missing: *missing,
                error: *error,
                start: *start as nat,
                end: *end as nat,
                children: *children as nat,
            },
            NodeEvent::Leave => NodeEventView::Leave,
        }
    }
}

pub open spec fn event_views(s: Seq<NodeEvent>) -> Seq<NodeEventView> {
    s.map_values(|e: NodeEvent| e@)
}

pub open spec fn opt_events_view(o: Option<(bool, Vec<NodeEvent>)>) -> Option<(bool, Seq<NodeEventView>)> {
    match o {
        Some((has_error, v)) => Some((has_error, event_views(v@))),
        None => None,
    }
}

/// The walk that `parse_events` gives for a path and a text.
pub uninterp spec fn syntax_events(path: Seq<char>, text: Seq<char>) -> Option<(bool, Seq<NodeEventView>)>;

/// sem-core `parse_tree(language_config_for_content(text, path)?, text)`,
/// walked in pre-order with tree-sitter's cursor (`goto_first_child`, then
/// `goto_next_sibling`, else `goto_parent`): each node's kind, field name,
/// `is_named`, `is_missing`, `is_error`, byte span and child count, and at the
/// end whether the root `has_error()`. `None` when no grammar or parse is
/// available. A function of the path and text (the name `syntax_events`).
#[verifier::external_body]
fn parse_events(path: &str, text: &str) -> (r: Option<(bool, Vec<NodeEvent>)>)
    ensures
        opt_events_view(r) == syntax_events(path@, text@),
{
    let tree = parse_tree(language_config_for_content(text, path)?, text)?;
    let (mut cursor, mut events) = (tree.walk(), Vec::new());
    loop {
        let n = cursor.node();
        events.push(NodeEvent::Enter { kind: n.kind().into(), field: cursor.field_name().map(Into::into),
            named: n.is_named(), missing: n.is_missing(), error: n.is_error(),
            start: n.start_byte(), end: n.end_byte(), children: n.child_count() });
        if cursor.goto_first_child() { continue; }
        loop {
            events.push(NodeEvent::Leave);
            if cursor.goto_next_sibling() { break; }
            if !cursor.goto_parent() { return Some((tree.root_node().has_error(), events)); }
        }
    }
}

/// One element of the normalized representation.
#[derive(Debug)]
pub enum Atom {
    Open { kind: String, field: Option<String>, named: bool },
    Text(Vec<u8>),
    Close,
}

pub enum AtomView {
    Open { kind: Seq<char>, field: Option<Seq<char>>, named: bool },
    Text(Seq<u8>),
    Close,
}

impl View for Atom {
    type V = AtomView;

    open spec fn view(&self) -> AtomView {
        match self {
            Atom::Open { kind, field, named } => AtomView::Open {
                kind: kind@,
                field: opt_str_view(*field),
                named: *named,
            },
            Atom::Text(bytes) => AtomView::Text(bytes@),
            Atom::Close => AtomView::Close,
        }
    }
}

pub open spec fn atom_views(s: Seq<Atom>) -> Seq<AtomView> {
    s.map_values(|a: Atom| a@)
}

/// The full ordered representation of a syntax tree; compared directly,
/// never by a hash.
#[derive(Debug)]
pub struct Syntax {
    pub atoms: Vec<Atom>,
}

pub open spec fn text_atoms(s: Seq<AtomView>) -> nat
    decreases s.len(),
{
    if s.len() == 0 {
        0
    } else {
        text_atoms(s.drop_last()) + if s.last() is Text {
            1nat
        } else {
            0nat
        }
    }
}

impl Syntax {
    /// The number of token texts.
    pub fn token_count(&self) -> (r: usize)
        ensures
            r == text_atoms(atom_views(self.atoms@)),
    {
        let ghost av = atom_views(self.atoms@);
        let mut n: usize = 0;
        let mut i: usize = 0;
        while i < self.atoms.len()
            invariant
                i <= self.atoms.len(),
                av == atom_views(self.atoms@),
                n == text_atoms(av.take(i as int)),
                n <= i,
            decreases self.atoms.len() - i,
        {
            assert(av.take(i + 1).drop_last() =~= av.take(i as int));
            assert(av[i as int] == self.atoms@[i as int]@);
            if let Atom::Text(_) = &self.atoms[i] {
                n += 1;
            }
            i += 1;
        }
        assert(av.take(self.atoms.len() as int) =~= av);
        n
    }
}

// ---------------------------------------------------------------------------
// The walk: literal and comment nodes stay whole; other nodes are entered.
// ---------------------------------------------------------------------------

pub open spec fn ascii_white(b: u8) -> bool {
    b == 0x20 || b == 0x09 || b == 0x0a || b == 0x0c || b == 0x0d
}

/// The bytes `from..to` are all ASCII white space.
pub open spec fn white_between(bytes: Seq<u8>, from: int, to: int) -> bool {
    forall|k: int| from <= k < to ==> ascii_white(#[trigger] bytes[k])
}

pub open spec fn contains_seq(s: Seq<char>, p: Seq<char>) -> bool {
    exists|i: int| 0 <= i && i + p.len() <= s.len() && #[trigger] s.subrange(i, i + p.len()) == p
}

/// Literal and comment subtrees stay whole, with any white space inside.
pub open spec fn is_opaque(kind: Seq<char>) -> bool {
    contains_seq(kind, "string"@) || contains_seq(kind, "char"@) || contains_seq(kind, "comment"@)
        || contains_seq(kind, "regex"@) || contains_seq(kind, "template"@) || contains_seq(
        kind,
        "text"@,
    )
}

/// The state after some events: nodes still open inside a literal subtree
/// (0 when outside one), bytes covered so far, atoms, and whether it failed.
pub struct Walk {
    pub skip: nat,
    pub covered: int,
    pub atoms: Seq<AtomView>,
    pub failed: bool,
}

pub open spec fn walk_step(bytes: Seq<u8>, w: Walk, e: NodeEventView) -> Walk {
    if w.failed {
        w
    } else {
        match e {
            NodeEventView::Enter { kind, field, named, missing, error, start, end, children } => {
                if w.skip > 0 {
                    Walk { skip: w.skip + 1, ..w }
                } else if missing || error {
                    Walk { failed: true, ..w }
                } else {
                    let atoms = w.atoms.push(AtomView::Open { kind, field, named });
                    if !is_opaque(kind) && children > 0 {
                        Walk { atoms, ..w }
                    } else if start < w.covered || end < start || end > bytes.len()
                        || !white_between(bytes, w.covered, start as int) {
                        Walk { failed: true, ..w }
                    } else {
                        Walk {
                            skip: if children > 0 {
                                1
                            } else {
                                0
                            },
                            covered: end as int,
                            atoms: atoms.push(AtomView::Text(bytes.subrange(start as int, end as int))),
                            failed: false,
                        }
                    }
                }
            },
            NodeEventView::Leave => {
                if w.skip > 1 {
                    Walk { skip: (w.skip - 1) as nat, ..w }
                } else {
                    Walk { skip: 0, atoms: w.atoms.push(AtomView::Close), ..w }
                }
            },
        }
    }
}

pub open spec fn walk_events(bytes: Seq<u8>, evs: Seq<NodeEventView>) -> Walk
    decreases evs.len(),
{
    if evs.len() == 0 {
        Walk { skip: 0, covered: 0, atoms: seq![], failed: false }
    } else {
        walk_step(bytes, walk_events(bytes, evs.drop_last()), evs.last())
    }
}

/// The syntax key of a walk: none when the tree holds an error, a node is
/// missing or in error, or a byte the grammar did not cover is not white space.
pub open spec fn syntax_of(bytes: Seq<u8>, events: Option<(bool, Seq<NodeEventView>)>) -> Option<Seq<AtomView>> {
    match events {
        None => None,
        Some((has_error, evs)) => {
            let w = walk_events(bytes, evs);
            if has_error || w.failed || !white_between(bytes, w.covered, bytes.len() as int) {
                None
            } else {
                Some(w.atoms)
            }
        },
    }
}

pub open spec fn opt_syntax_view(s: Option<Syntax>) -> Option<Seq<AtomView>> {
    match s {
        Some(x) => Some(atom_views(x.atoms@)),
        None => None,
    }
}

fn contains_str(s: &str, p: &str) -> (r: bool)
    ensures
        r == contains_seq(s@, p@),
{
    let sc = crate::text::chars_of(s);
    let pc = crate::text::chars_of(p);
    if pc.len() > sc.len() {
        return false;
    }
    let mut i: usize = 0;
    while i <= sc.len() - pc.len()
        invariant
            sc@ == s@,
            pc@ == p@,
            pc.len() <= sc.len(),
            i <= sc.len() - pc.len() + 1,
            forall|k: int| 0 <= k < i ==> #[trigger] s@.subrange(k, k + p@.len()) != p@,
        decreases sc.len() - i,
    {
        let mut j: usize = 0;
        while j < pc.len() && sc[i + j] == pc[j]
            invariant
                j <= pc.len(),
                i + pc.len() <= sc.len(),
                forall|k: int| 0 <= k < j ==> sc@[i + k] == pc@[k],
            decreases pc.len() - j,
        {
            j += 1;
        }
        if j == pc.len() {
            assert(s@.subrange(i as int, i + p@.len()) =~= p@);
            return true;
        }
        assert(s@.subrange(i as int, i + p@.len())[j as int] != p@[j as int]);
        if i == sc.len() - pc.len() {
            return false;
        }
        i += 1;
    }
    false
}

fn opaque(kind: &String) -> (r: bool)
    ensures
        r == is_opaque(kind@),
{
    let k = kind.as_str();
    contains_str(k, "string") || contains_str(k, "char") || contains_str(k, "comment")
        || contains_str(k, "regex") || contains_str(k, "template") || contains_str(k, "text")
}

fn white_range(bytes: &[u8], from: usize, to: usize) -> (r: bool)
    requires
        to <= bytes@.len(),
    ensures
        r == white_between(bytes@, from as int, to as int),
{
    if from >= to {
        return true;
    }
    let mut k = from;
    while k < to
        invariant
            from <= k <= to,
            to <= bytes@.len(),
            forall|m: int| from <= m < k ==> ascii_white(#[trigger] bytes@[m]),
        decreases to - k,
    {
        let b = bytes[k];
        if !(b == 0x20 || b == 0x09 || b == 0x0a || b == 0x0c || b == 0x0d) {
            return false;
        }
        k += 1;
    }
    true
}

fn byte_range(bytes: &[u8], from: usize, to: usize) -> (r: Vec<u8>)
    requires
        from <= to <= bytes@.len(),
    ensures
        r@ == bytes@.subrange(from as int, to as int),
{
    let mut r: Vec<u8> = Vec::new();
    let mut k = from;
    while k < to
        invariant
            from <= k <= to,
            to <= bytes@.len(),
            r@ == bytes@.subrange(from as int, k as int),
        decreases to - k,
    {
        r.push(bytes[k]);
        assert(bytes@.subrange(from as int, k + 1) =~= bytes@.subrange(from as int, k as int).push(bytes@[k as int]));
        k += 1;
    }
    r
}

fn copy_field(f: &Option<String>) -> (r: Option<String>)
    ensures
        opt_str_view(r) == opt_str_view(*f),
{
    match f {
        Some(s) => Some(s.clone()),
        None => None,
    }
}

/// The syntax key of a given walk over `text` (exact over the walk).
pub fn syntax_from_events(text: &str, events: &Option<(bool, Vec<NodeEvent>)>) -> (r: Option<Syntax>)
    ensures
        opt_syntax_view(r) == syntax_of(text.spec_bytes(), opt_events_view(*events)),
{
    let (has_error, evs) = match events {
        None => return None,
        Some((has_error, evs)) => (*has_error, evs),
    };
    let bytes = text.as_bytes();
    let ghost ev = event_views(evs@);
    let mut skip: usize = 0;
    let mut covered: usize = 0;
    let mut atoms: Vec<Atom> = Vec::new();
    let mut failed = false;
    let mut i: usize = 0;
    assert(ev.take(0) =~= Seq::<NodeEventView>::empty());
    assert(atom_views(atoms@) =~= Seq::<AtomView>::empty());
    while i < evs.len()
        invariant
            i <= evs.len(),
            ev == event_views(evs@),
            bytes@ == text.spec_bytes(),
            skip <= i,
            covered <= bytes@.len(),
            walk_events(bytes@, ev.take(i as int)) == (Walk {
                skip: skip as nat,
                covered: covered as int,
                atoms: atom_views(atoms@),
                failed,
            }),
        decreases evs.len() - i,
    {
        assert(ev.take(i + 1).drop_last() =~= ev.take(i as int));
        assert(ev[i as int] == evs@[i as int]@);
        if !failed {
            match &evs[i] {
                NodeEvent::Enter { kind, field, named, missing, error, start, end, children } => {
                    if skip > 0 {
                        skip += 1;
                    } else if *missing || *error {
                        failed = true;
                    } else {
                        let ghost before = atoms@;
                        atoms.push(Atom::Open { kind: kind.clone(), field: copy_field(field), named: *named });
                        assert(atom_views(atoms@) =~= atom_views(before).push(
                            AtomView::Open { kind: kind@, field: opt_str_view(*field), named: *named },
                        ));
                        if opaque(kind) || *children == 0 {
                            if *start < covered || *end < *start || *end > bytes.len()
                                || !white_range(bytes, covered, *start) {
                                failed = true;
                                atoms.pop();
                                assert(atom_views(atoms@) =~= atom_views(before));
                            } else {
                                let ghost mid = atoms@;
                                atoms.push(Atom::Text(byte_range(bytes, *start, *end)));
                                assert(atom_views(atoms@) =~= atom_views(mid).push(
                                    AtomView::Text(bytes@.subrange(*start as int, *end as int)),
                                ));
                                skip = if *children > 0 {
                                    1
                                } else {
                                    0
                                };
                                covered = *end;
                            }
                        }
                    }
                },
                NodeEvent::Leave => {
                    if skip > 1 {
                        skip -= 1;
                    } else {
                        skip = 0;
                        let ghost before = atoms@;
                        atoms.push(Atom::Close);
                        assert(atom_views(atoms@) =~= atom_views(before).push(AtomView::Close));
                    }
                },
            }
        }
        i += 1;
    }
    assert(ev.take(evs.len() as int) =~= ev);
    if has_error || failed || !white_range(bytes, covered, bytes.len()) {
        return None;
    }
    Some(Syntax { atoms })
}

/// The syntax key of `text` as the grammar of `path` parses it. A text that
/// cannot be parsed cleanly gets none.
pub fn normalized_syntax(path: &str, text: &str) -> (r: Option<Syntax>)
    ensures
        opt_syntax_view(r) == syntax_of(text.spec_bytes(), syntax_events(path@, text@)),
{
    let events = parse_events(path, text);
    syntax_from_events(text, &events)
}

} // verus!
