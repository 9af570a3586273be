//! The shared limit on move candidates. The candidate walk fills buckets in
//! a fixed order (per side: the exact buckets, then the rename buckets) and,
//! before each bucket, checks that all of its pairs would still fit; a report
//! over the limit is refused, never truncated.
use vstd::prelude::*;
use crate::error::Error;
use crate::reason::Side;
use crate::reason::order::{
    compare_str, int_compare, lemma_insert_ordered, lemma_seq_order, lemma_sorted_unique,
    lemma_str, order_facts, seq_compare, sorted_by, str_compare, then_compare, total_order,
};
use super::moves::{
    check_bucket_limit, key_in, opt_text_view, version, Entity, EntityView, ParsedFile,
    ParsedFileView, MAX_CANDIDATES,
};
use super::syntax::{atom_views, Atom, AtomView, Syntax};

verus! {

// ---------------------------------------------------------------------------
// The order of bucket keys.
// ---------------------------------------------------------------------------

pub open spec fn byte_compare(a: u8, b: u8) -> int {
    int_compare(a as int, b as int)
}

pub open spec fn bytes_compare(a: Seq<u8>, b: Seq<u8>) -> int {
    seq_compare(|x: u8, y: u8| byte_compare(x, y), a, b)
}

/// `false` before `true`.
pub open spec fn flag_compare(a: bool, b: bool) -> int {
    int_compare(
        if a {
            1
        } else {
            0
        },
        if b {
            1
        } else {
            0
        },
    )
}

/// `None` first, then the strings in order.
pub open spec fn opt_str_compare(a: Option<Seq<char>>, b: Option<Seq<char>>) -> int {
    match (a, b) {
        (None, None) => 0,
        (None, Some(_)) => -1,
        (Some(_), None) => 1,
        (Some(x), Some(y)) => str_compare(x, y),
    }
}

pub open spec fn atom_rank(a: AtomView) -> int {
    match a {
        AtomView::Open { .. } => 0,
        AtomView::Text(_) => 1,
        AtomView::Close => 2,
    }
}

/// Variants in declaration order, then fields in declaration order.
pub open spec fn atom_compare(a: AtomView, b: AtomView) -> int {
    match (a, b) {
        (
            AtomView::Open { kind: k1, field: f1, named: n1 },
            AtomView::Open { kind: k2, field: f2, named: n2 },
        ) => then_compare(
            str_compare(k1, k2),
            then_compare(opt_str_compare(f1, f2), flag_compare(n1, n2)),
        ),
        (AtomView::Text(x), AtomView::Text(y)) => bytes_compare(x, y),
        _ => int_compare(atom_rank(a), atom_rank(b)),
    }
}

pub open spec fn syntax_compare(a: Seq<AtomView>, b: Seq<AtomView>) -> int {
    seq_compare(|x: AtomView, y: AtomView| atom_compare(x, y), a, b)
}

proof fn lemma_byte_order()
    ensures
        total_order(|x: u8, y: u8| byte_compare(x, y)),
{
}

proof fn lemma_bytes(a: Seq<u8>, b: Seq<u8>, d: Seq<u8>)
    ensures
        order_facts(bytes_compare(a, b), bytes_compare(b, a), bytes_compare(b, d), bytes_compare(a, d), a == b),
{
    lemma_byte_order();
    lemma_seq_order(|x: u8, y: u8| byte_compare(x, y));
    let c = |x: Seq<u8>, y: Seq<u8>| seq_compare(|p: u8, q: u8| byte_compare(p, q), x, y);
    assert(c(a, b) == -c(b, a));
    assert(c(a, b) == 0 <==> a == b);
    assert(-1 <= c(a, b) <= 1);
    assert(c(a, b) < 0 && c(b, d) < 0 ==> c(a, d) < 0);
}

proof fn lemma_opt_str(a: Option<Seq<char>>, b: Option<Seq<char>>, d: Option<Seq<char>>)
    ensures
        order_facts(
            opt_str_compare(a, b),
            opt_str_compare(b, a),
            opt_str_compare(b, d),
            opt_str_compare(a, d),
            a == b,
        ),
{
    if let (Some(x), Some(y)) = (a, b) {
        lemma_str(x, y, x);
        if let Some(z) = d {
            lemma_str(x, y, z);
        }
    }
}

proof fn lemma_atom(a: AtomView, b: AtomView, d: AtomView)
    ensures
        order_facts(atom_compare(a, b), atom_compare(b, a), atom_compare(b, d), atom_compare(a, d), a == b),
{
    match (a, b, d) {
        (
            AtomView::Open { kind: k1, field: f1, named: n1 },
            AtomView::Open { kind: k2, field: f2, named: n2 },
            AtomView::Open { kind: k3, field: f3, named: n3 },
        ) => {
            lemma_str(k1, k2, k3);
            lemma_str(k2, k1, k3);
            lemma_str(k2, k3, k1);
            lemma_opt_str(f1, f2, f3);
            lemma_opt_str(f2, f1, f3);
            lemma_opt_str(f2, f3, f1);
        },
        (AtomView::Open { kind: k1, field: f1, named: n1 }, AtomView::Open { kind: k2, field: f2, named: n2 }, _) => {
            lemma_str(k1, k2, k1);
            lemma_opt_str(f1, f2, f1);
        },
        (AtomView::Text(x), AtomView::Text(y), AtomView::Text(z)) => {
            lemma_bytes(x, y, z);
        },
        (AtomView::Text(x), AtomView::Text(y), _) => {
            lemma_bytes(x, y, x);
        },
        _ => {},
    }
}

proof fn lemma_atom_order()
    ensures
        total_order(|x: AtomView, y: AtomView| atom_compare(x, y)),
{
    let c = |x: AtomView, y: AtomView| atom_compare(x, y);
    assert forall|a: AtomView, b: AtomView| #[trigger] c(a, b) == -c(b, a) by {
        lemma_atom(a, b, b);
    }
    assert forall|a: AtomView, b: AtomView| #[trigger] c(a, b) == 0 <==> a == b by {
        lemma_atom(a, b, b);
    }
    assert forall|a: AtomView, b: AtomView| -1 <= #[trigger] c(a, b) <= 1 by {
        lemma_atom(a, b, b);
    }
    assert forall|a: AtomView, b: AtomView, d: AtomView|
        #![trigger c(a, b), c(b, d)]
        c(a, b) < 0 && c(b, d) < 0 implies c(a, d) < 0 by {
        lemma_atom(a, b, d);
    }
}

proof fn lemma_syntax(a: Seq<AtomView>, b: Seq<AtomView>, d: Seq<AtomView>)
    ensures
        order_facts(syntax_compare(a, b), syntax_compare(b, a), syntax_compare(b, d), syntax_compare(a, d), a == b),
{
    lemma_atom_order();
    lemma_seq_order(|x: AtomView, y: AtomView| atom_compare(x, y));
    let c = |x: Seq<AtomView>, y: Seq<AtomView>| seq_compare(|p: AtomView, q: AtomView| atom_compare(p, q), x, y);
    assert(c(a, b) == -c(b, a));
    assert(c(a, b) == 0 <==> a == b);
    assert(-1 <= c(a, b) <= 1);
    assert(c(a, b) < 0 && c(b, d) < 0 ==> c(a, d) < 0);
}

/// What keys a bucket: for an exact bucket the entity key and text; for a
/// rename bucket the grammar, the type, and the name-normalized text or
/// (with `syntax`) its syntax.
pub struct BucketKey {
    pub first: Seq<char>,
    pub second: Seq<char>,
    pub syntax: bool,
    pub text: Seq<char>,
    pub atoms: Seq<AtomView>,
}

/// Field by field; within a grammar and type, text buckets come before
/// syntax buckets.
pub open spec fn bucket_compare(a: BucketKey, b: BucketKey) -> int {
    then_compare(
        str_compare(a.first, b.first),
        then_compare(
            str_compare(a.second, b.second),
            then_compare(
                flag_compare(a.syntax, b.syntax),
                then_compare(str_compare(a.text, b.text), syntax_compare(a.atoms, b.atoms)),
            ),
        ),
    )
}

proof fn lemma_bucket(a: BucketKey, b: BucketKey, d: BucketKey)
    ensures
        order_facts(bucket_compare(a, b), bucket_compare(b, a), bucket_compare(b, d), bucket_compare(a, d), a == b),
{
    lemma_str(a.first, b.first, d.first);
    lemma_str(b.first, a.first, d.first);
    lemma_str(b.first, d.first, a.first);
    lemma_str(a.second, b.second, d.second);
    lemma_str(b.second, a.second, d.second);
    lemma_str(b.second, d.second, a.second);
    lemma_str(a.text, b.text, d.text);
    lemma_str(b.text, a.text, d.text);
    lemma_str(b.text, d.text, a.text);
    lemma_syntax(a.atoms, b.atoms, d.atoms);
    lemma_syntax(b.atoms, a.atoms, d.atoms);
    lemma_syntax(b.atoms, d.atoms, a.atoms);
}

pub proof fn lemma_bucket_order()
    ensures
        total_order(|x: BucketKey, y: BucketKey| bucket_compare(x, y)),
{
    let c = |x: BucketKey, y: BucketKey| bucket_compare(x, y);
    assert forall|a: BucketKey, b: BucketKey| #[trigger] c(a, b) == -c(b, a) by {
        lemma_bucket(a, b, b);
    }
    assert forall|a: BucketKey, b: BucketKey| #[trigger] c(a, b) == 0 <==> a == b by {
        lemma_bucket(a, b, b);
    }
    assert forall|a: BucketKey, b: BucketKey| -1 <= #[trigger] c(a, b) <= 1 by {
        lemma_bucket(a, b, b);
    }
    assert forall|a: BucketKey, b: BucketKey, d: BucketKey|
        #![trigger c(a, b), c(b, d)]
        c(a, b) < 0 && c(b, d) < 0 implies c(a, d) < 0 by {
        lemma_bucket(a, b, d);
    }
}

// ---------------------------------------------------------------------------
// Comparing in executable code.
// ---------------------------------------------------------------------------

fn compare_bytes(a: &Vec<u8>, b: &Vec<u8>) -> (r: i8)
    ensures
        r as int == bytes_compare(a@, b@),
{
    let ghost c = |x: u8, y: u8| byte_compare(x, y);
    let mut i: usize = 0;
    assert(a@.skip(0) =~= a@);
    assert(b@.skip(0) =~= b@);
    while i < a.len() && i < b.len()
        invariant
            i <= a.len(),
            i <= b.len(),
            c == (|x: u8, y: u8| byte_compare(x, y)),
            bytes_compare(a@, b@) == bytes_compare(a@.skip(i as int), b@.skip(i as int)),
        decreases a.len() - i,
    {
        let ghost sa = a@.skip(i as int);
        let ghost sb = b@.skip(i as int);
        assert(sa[0] == a@[i as int] && sb[0] == b@[i as int]);
        assert(bytes_compare(sa, sb) == then_compare(c(sa[0], sb[0]), bytes_compare(sa.drop_first(), sb.drop_first())));
        if a[i] < b[i] {
            return -1;
        }
        if a[i] > b[i] {
            return 1;
        }
        assert(sa.drop_first() =~= a@.skip(i + 1));
        assert(sb.drop_first() =~= b@.skip(i + 1));
        i += 1;
    }
    if i < a.len() {
        assert(a@.skip(i as int).len() > 0 && b@.skip(i as int).len() == 0);
        1
    } else if i < b.len() {
        assert(a@.skip(i as int).len() == 0 && b@.skip(i as int).len() > 0);
        -1
    } else {
        assert(a@.skip(i as int).len() == 0 && b@.skip(i as int).len() == 0);
        0
    }
}

fn compare_opt_str(a: &Option<String>, b: &Option<String>) -> (r: i8)
    ensures
        r as int == opt_str_compare(opt_text_view(*a), opt_text_view(*b)),
{
    match (a, b) {
        (None, None) => 0,
        (None, Some(_)) => -1,
        (Some(_), None) => 1,
        (Some(x), Some(y)) => compare_str(x.as_str(), y.as_str()),
    }
}

fn compare_flag(a: bool, b: bool) -> (r: i8)
    ensures
        r as int == flag_compare(a, b),
{
    if a == b {
        0
    } else if !a {
        -1
    } else {
        1
    }
}

fn atom_rank_of(a: &Atom) -> (r: u8)
    ensures
        r as int == atom_rank(a@),
{
    match a {
        Atom::Open { .. } => 0,
        Atom::Text(_) => 1,
        Atom::Close => 2,
    }
}

fn compare_atom(a: &Atom, b: &Atom) -> (r: i8)
    ensures
        r as int == atom_compare(a@, b@),
{
    match (a, b) {
        (Atom::Open { kind: k1, field: f1, named: n1 }, Atom::Open { kind: k2, field: f2, named: n2 }) => {
            let c = compare_str(k1.as_str(), k2.as_str());
            if c != 0 {
                return c;
            }
            let c = compare_opt_str(f1, f2);
            if c != 0 {
                return c;
            }
            compare_flag(*n1, *n2)
        },
        (Atom::Text(x), Atom::Text(y)) => compare_bytes(x, y),
        _ => {
            let x = atom_rank_of(a);
            let y = atom_rank_of(b);
            if x < y {
                -1
            } else if x > y {
                1
            } else {
                0
            }
        },
    }
}

fn compare_syntax(a: &Syntax, b: &Syntax) -> (r: i8)
    ensures
        r as int == syntax_compare(atom_views(a.atoms@), atom_views(b.atoms@)),
{
    let ghost av = atom_views(a.atoms@);
    let ghost bv = atom_views(b.atoms@);
    let ghost c = |x: AtomView, y: AtomView| atom_compare(x, y);
    let mut i: usize = 0;
    assert(av.skip(0) =~= av);
    assert(bv.skip(0) =~= bv);
    while i < a.atoms.len() && i < b.atoms.len()
        invariant
            i <= a.atoms.len(),
            i <= b.atoms.len(),
            av == atom_views(a.atoms@),
            bv == atom_views(b.atoms@),
            c == (|x: AtomView, y: AtomView| atom_compare(x, y)),
            syntax_compare(av, bv) == syntax_compare(av.skip(i as int), bv.skip(i as int)),
        decreases a.atoms.len() - i,
    {
        let ghost sa = av.skip(i as int);
        let ghost sb = bv.skip(i as int);
        assert(sa[0] == a.atoms@[i as int]@ && sb[0] == b.atoms@[i as int]@);
        assert(syntax_compare(sa, sb) == then_compare(c(sa[0], sb[0]), syntax_compare(sa.drop_first(), sb.drop_first())));
        let x = compare_atom(&a.atoms[i], &b.atoms[i]);
        if x != 0 {
            return x;
        }
        assert(sa.drop_first() =~= av.skip(i + 1));
        assert(sb.drop_first() =~= bv.skip(i + 1));
        i += 1;
    }
    if i < a.atoms.len() {
        assert(av.skip(i as int).len() > 0 && bv.skip(i as int).len() == 0);
        1
    } else if i < b.atoms.len() {
        assert(av.skip(i as int).len() == 0 && bv.skip(i as int).len() > 0);
        -1
    } else {
        assert(av.skip(i as int).len() == 0 && bv.skip(i as int).len() == 0);
        0
    }
}

// ---------------------------------------------------------------------------
// The buckets of entities.
// ---------------------------------------------------------------------------

/// Kind 2: the exact buckets; kind 0: renames by name-normalized text;
/// kind 1: renames by the syntax of that text.
pub open spec fn in_bucket(e: EntityView, kind: u8) -> bool {
    kind == 2 || (e.grammar is Some && e.normalized is Some && (kind == 0 || e.syntax is Some))
}

pub open spec fn bucket_key(e: EntityView, kind: u8) -> BucketKey {
    if kind == 2 {
        BucketKey { first: e.key, second: e.text, syntax: false, text: seq![], atoms: seq![] }
    } else if kind == 0 {
        BucketKey {
            first: e.grammar->0,
            second: e.entity_type,
            syntax: false,
            text: (e.normalized->0).0,
            atoms: seq![],
        }
    } else {
        BucketKey {
            first: e.grammar->0,
            second: e.entity_type,
            syntax: true,
            text: seq![],
            atoms: e.syntax->0,
        }
    }
}

fn in_bucket_exec(e: &Entity, kind: u8) -> (r: bool)
    requires
        kind <= 2,
    ensures
        r == in_bucket(e@, kind),
{
    if kind == 2 {
        true
    } else if kind == 0 {
        e.grammar.is_some() && e.normalized.is_some()
    } else {
        e.grammar.is_some() && e.normalized.is_some() && e.syntax.is_some()
    }
}

fn compare_keys(x: &Entity, kx: u8, y: &Entity, ky: u8) -> (r: i8)
    requires
        kx <= 2,
        ky <= 2,
        (kx == 2) == (ky == 2),
        in_bucket(x@, kx),
        in_bucket(y@, ky),
    ensures
        r as int == bucket_compare(bucket_key(x@, kx), bucket_key(y@, ky)),
{
    let ghost ex: Seq<char> = seq![];
    let ghost ea: Seq<AtomView> = seq![];
    assert(str_compare(ex, ex) == 0);
    assert(syntax_compare(ea, ea) == 0);
    if kx == 2 {
        let c = compare_str(x.key.as_str(), y.key.as_str());
        if c != 0 {
            return c;
        }
        return compare_str(x.text.as_str(), y.text.as_str());
    }
    let c = compare_opt_str(&x.grammar, &y.grammar);
    if c != 0 {
        return c;
    }
    let c = compare_str(x.entity_type.as_str(), y.entity_type.as_str());
    if c != 0 {
        return c;
    }
    let c = compare_flag(kx == 1, ky == 1);
    if c != 0 {
        return c;
    }
    if kx == 0 {
        match (&x.normalized, &y.normalized) {
            (Some((a, _)), Some((b, _))) => compare_str(a.as_str(), b.as_str()),
            _ => 0,
        }
    } else {
        match (&x.syntax, &y.syntax) {
            (Some(a), Some(b)) => compare_syntax(a, b),
            _ => 0,
        }
    }
}

/// The entities of one file missing from `other`, by key.
pub open spec fn missing_from(es: Seq<EntityView>, other: Seq<EntityView>) -> Seq<EntityView>
    decreases es.len(),
{
    if es.len() == 0 {
        seq![]
    } else if key_in(other, es.last().key) {
        missing_from(es.drop_last(), other)
    } else {
        missing_from(es.drop_last(), other).push(es.last())
    }
}

/// The entities of one path deleted on `side` (or, with `deleted` false,
/// added there); none where either version is unavailable.
pub open spec fn file_changes(f: ParsedFileView, side: Side, deleted: bool) -> Seq<EntityView> {
    match (f.base, version(f, side)) {
        (Some(b), Some(c)) => if deleted {
            missing_from(b, c)
        } else {
            missing_from(c, b)
        },
        _ => seq![],
    }
}

/// The deleted (or added) entities of one side, path by path.
pub open spec fn changes(files: Seq<ParsedFileView>, side: Side, deleted: bool) -> Seq<EntityView>
    decreases files.len(),
{
    if files.len() == 0 {
        seq![]
    } else {
        changes(files.drop_last(), side, deleted) + file_changes(files.last(), side, deleted)
    }
}

pub open spec fn ref_views(v: Seq<&Entity>) -> Seq<EntityView> {
    v.map_values(|e: &Entity| e@)
}

fn changed_entities<'a>(files: &'a Vec<ParsedFile>, side: Side, deleted: bool) -> (r: Vec<&'a Entity>)
    ensures
        ref_views(r@) == changes(super::moves::file_views(files@), side, deleted),
{
    let ghost fv = super::moves::file_views(files@);
    let mut r: Vec<&Entity> = Vec::new();
    let mut i: usize = 0;
    assert(fv.take(0) =~= Seq::<ParsedFileView>::empty());
    assert(ref_views(r@) =~= Seq::<EntityView>::empty());
    while i < files.len()
        invariant
            i <= files.len(),
            fv == super::moves::file_views(files@),
            ref_views(r@) == changes(fv.take(i as int), side, deleted),
        decreases files.len() - i,
    {
        assert(fv.take(i + 1).drop_last() =~= fv.take(i as int));
        assert(fv.take(i + 1).last() == files@[i as int]@);
        let ghost before = ref_views(r@);
        let f = &files[i];
        match (&f.base, super::moves::version_of(f, side)) {
            (Some(b), Some(c)) => {
                let (from, other) = if deleted {
                    (b, c)
                } else {
                    (c, b)
                };
                let ghost ov = super::moves::entity_views(other@);
                let ghost frv = super::moves::entity_views(from@);
                let mut j: usize = 0;
                assert(frv.take(0) =~= Seq::<EntityView>::empty());
                assert(before + missing_from(frv.take(0), ov) =~= before);
                while j < from.len()
                    invariant
                        j <= from.len(),
                        ov == super::moves::entity_views(other@),
                        frv == super::moves::entity_views(from@),
                        ref_views(r@) == before + missing_from(frv.take(j as int), ov),
                    decreases from.len() - j,
                {
                    assert(frv.take(j + 1).drop_last() =~= frv.take(j as int));
                    assert(frv.take(j + 1).last() == from@[j as int]@);
                    if !super::moves::key_present(other, &from[j].key) {
                        let ghost rv = r@;
                        r.push(&from[j]);
                        assert(ref_views(r@) =~= ref_views(rv).push(from@[j as int]@));
                    }
                    j += 1;
                }
                assert(frv.take(from.len() as int) =~= frv);
            },
            _ => {
                assert(before + file_changes(fv[i as int], side, deleted) =~= before);
            },
        }
        i += 1;
    }
    assert(fv.take(files.len() as int) =~= fv);
    r
}

// ---------------------------------------------------------------------------
// One bucket.
// ---------------------------------------------------------------------------

/// The kind of bucket a key names.
pub open spec fn key_kind(k: BucketKey, exact: bool) -> u8 {
    if exact {
        2
    } else if k.syntax {
        1
    } else {
        0
    }
}

pub open spec fn member(e: EntityView, k: BucketKey, exact: bool) -> bool {
    in_bucket(e, key_kind(k, exact)) && bucket_key(e, key_kind(k, exact)) == k
}

/// The entities of a bucket, in order.
pub open spec fn members(es: Seq<EntityView>, k: BucketKey, exact: bool) -> Seq<EntityView>
    decreases es.len(),
{
    if es.len() == 0 {
        seq![]
    } else if member(es.last(), k, exact) {
        members(es.drop_last(), k, exact).push(es.last())
    } else {
        members(es.drop_last(), k, exact)
    }
}

/// A pair of one bucket that gives a candidate: in another file; for a
/// rename also under another name; and for a syntax match only where the
/// texts differ, since a text match already gave that pair.
pub open spec fn pair_ok(d: EntityView, a: EntityView, kind: u8) -> bool {
    d.location.path != a.location.path && (kind == 2 || (d.name != a.name && (kind == 0 || match (
        d.normalized,
        a.normalized,
    ) {
        (Some((x, _)), Some((y, _))) => x != y,
        _ => true,
    })))
}

pub open spec fn row_count(d: EntityView, ts: Seq<EntityView>, kind: u8) -> nat
    decreases ts.len(),
{
    if ts.len() == 0 {
        0
    } else {
        row_count(d, ts.drop_last(), kind) + if pair_ok(d, ts.last(), kind) {
            1nat
        } else {
            0nat
        }
    }
}

/// How many candidates a bucket gives.
pub open spec fn pair_count(ss: Seq<EntityView>, ts: Seq<EntityView>, kind: u8) -> nat
    decreases ss.len(),
{
    if ss.len() == 0 {
        0
    } else {
        pair_count(ss.drop_last(), ts, kind) + row_count(ss.last(), ts, kind)
    }
}

proof fn lemma_row_bound(d: EntityView, ts: Seq<EntityView>, kind: u8)
    ensures
        row_count(d, ts, kind) <= ts.len(),
    decreases ts.len(),
{
    if ts.len() > 0 {
        lemma_row_bound(d, ts.drop_last(), kind);
    }
}

proof fn lemma_pair_bound(ss: Seq<EntityView>, ts: Seq<EntityView>, kind: u8)
    ensures
        pair_count(ss, ts, kind) <= ss.len() * ts.len(),
    decreases ss.len(),
{
    if ss.len() > 0 {
        lemma_pair_bound(ss.drop_last(), ts, kind);
        lemma_row_bound(ss.last(), ts, kind);
        let n = ss.len() as int;
        let t = ts.len() as int;
        assert((n - 1) * t + t == n * t) by (nonlinear_arith);
    }
}

fn pair_ok_exec(d: &Entity, a: &Entity, kind: u8) -> (r: bool)
    ensures
        r == pair_ok(d@, a@, kind),
{
    if d.location.path == a.location.path {
        return false;
    }
    if kind == 2 {
        return true;
    }
    if d.name == a.name {
        return false;
    }
    if kind == 0 {
        return true;
    }
    match (&d.normalized, &a.normalized) {
        (Some((x, _)), Some((y, _))) => !(*x == *y),
        _ => true,
    }
}

/// The members of one bucket among `es`.
fn bucket_members<'a>(es: &Vec<&'a Entity>, key: &Entity, kind: u8) -> (r: Vec<&'a Entity>)
    requires
        kind <= 2,
        in_bucket(key@, kind),
    ensures
        ref_views(r@) == members(ref_views(es@), bucket_key(key@, kind), kind == 2),
{
    let ghost k = bucket_key(key@, kind);
    let ghost ev = ref_views(es@);
    assert(key_kind(k, kind == 2) == kind);
    let mut r: Vec<&Entity> = Vec::new();
    let mut i: usize = 0;
    assert(ev.take(0) =~= Seq::<EntityView>::empty());
    assert(ref_views(r@) =~= Seq::<EntityView>::empty());
    while i < es.len()
        invariant
            i <= es.len(),
            kind <= 2,
            in_bucket(key@, kind),
            k == bucket_key(key@, kind),
            key_kind(k, kind == 2) == kind,
            ev == ref_views(es@),
            ref_views(r@) == members(ev.take(i as int), k, kind == 2),
        decreases es.len() - i,
    {
        assert(ev.take(i + 1).drop_last() =~= ev.take(i as int));
        assert(ev.take(i + 1).last() == es@[i as int]@);
        let e = es[i];
        if in_bucket_exec(e, kind) {
            let c = compare_keys(e, kind, key, kind);
            proof {
                lemma_bucket(bucket_key(e@, kind), k, k);
            }
            if c == 0 {
                let ghost rv = r@;
                r.push(e);
                assert(ref_views(r@) =~= ref_views(rv).push(e@));
            }
        }
        i += 1;
    }
    assert(ev.take(es.len() as int) =~= ev);
    r
}

/// Checks one bucket against the shared limit and counts its candidates.
fn bucket_limit(dels: &Vec<&Entity>, adds: &Vec<&Entity>, key: &Entity, kind: u8, pushed: &mut usize) -> (r:
    Result<(), Error>)
    requires
        kind <= 2,
        in_bucket(key@, kind),
        *old(pushed) <= MAX_CANDIDATES,
    ensures
        ({
            let k = bucket_key(key@, kind);
            let s = members(ref_views(dels@), k, kind == 2);
            let t = members(ref_views(adds@), k, kind == 2);
            &&& r is Ok <==> s.len() * t.len() + *old(pushed) <= MAX_CANDIDATES
            &&& r is Ok ==> *final(pushed) == *old(pushed) + pair_count(s, t, kind)
        }),
        *final(pushed) <= MAX_CANDIDATES,
        r matches Err(e) ==> e == Error::TooManyCandidates,
{
    let sources = bucket_members(dels, key, kind);
    let targets = bucket_members(adds, key, kind);
    let ghost sv = ref_views(sources@);
    let ghost tv = ref_views(targets@);
    check_bucket_limit(sources.len(), targets.len(), *pushed)?;
    let room = MAX_CANDIDATES - *pushed;
    let mut count: usize = 0;
    let mut x: usize = 0;
    assert(sv.take(0) =~= Seq::<EntityView>::empty());
    while x < sources.len()
        invariant
            sources.len() * targets.len() <= room,
            room + *pushed == MAX_CANDIDATES,
            x <= sources.len(),
            sv == ref_views(sources@),
            tv == ref_views(targets@),
            count == pair_count(sv.take(x as int), tv, kind),
        decreases sources.len() - x,
    {
        let mut y: usize = 0;
        let mut row: usize = 0;
        assert(tv.take(0) =~= Seq::<EntityView>::empty());
        assert(sv[x as int] == sources@[x as int]@);
        while y < targets.len()
            invariant
                x < sources.len(),
                y <= targets.len(),
                sv == ref_views(sources@),
                tv == ref_views(targets@),
                row == row_count(sv[x as int], tv.take(y as int), kind),
                row <= y,
            decreases targets.len() - y,
        {
            assert(tv.take(y + 1).drop_last() =~= tv.take(y as int));
            assert(tv.take(y + 1).last() == targets@[y as int]@);
            if pair_ok_exec(sources[x], targets[y], kind) {
                row += 1;
            }
            y += 1;
        }
        assert(tv.take(targets.len() as int) =~= tv);
        assert(sv.take(x + 1).drop_last() =~= sv.take(x as int));
        assert(sv.take(x + 1).last() == sv[x as int]);
        proof {
            lemma_pair_bound(sv.take(x + 1), tv, kind);
            let n = (x + 1) as int;
            let s = sources.len() as int;
            let t = targets.len() as int;
            assert(n * t <= s * t) by (nonlinear_arith)
                requires
                    n <= s,
                    0 <= t,
            ;
        }
        count = count + row;
        x += 1;
    }
    assert(sv.take(sources.len() as int) =~= sv);
    proof {
        lemma_pair_bound(sv, tv, kind);
    }
    *pushed = *pushed + count;
    Ok(())
}

// ---------------------------------------------------------------------------
// The walk over the buckets.
// ---------------------------------------------------------------------------

/// Whether some entity of `es` falls in the bucket `k`.
pub open spec fn walk_key(es: Seq<EntityView>, k: BucketKey, exact: bool) -> bool {
    exists|i: int| 0 <= i < es.len() && member(#[trigger] es[i], k, exact)
}

/// The buckets in walk order: each bucket of `es` once, in key order.
pub open spec fn is_walk(w: Seq<BucketKey>, es: Seq<EntityView>, exact: bool) -> bool {
    &&& sorted_by(|x: BucketKey, y: BucketKey| bucket_compare(x, y), w)
    &&& forall|k: BucketKey| w.contains(k) <==> walk_key(es, k, exact)
}

/// The exact (or rename) buckets of `es`, in the order the walk visits them.
pub open spec fn walk(es: Seq<EntityView>, exact: bool) -> Seq<BucketKey> {
    choose|w: Seq<BucketKey>| is_walk(w, es, exact)
}

/// The shared count after the buckets of `w`, or `None` where one of them
/// would not fit beside the candidates counted before it.
pub open spec fn walk_from(
    w: Seq<BucketKey>,
    dels: Seq<EntityView>,
    adds: Seq<EntityView>,
    exact: bool,
    pushed: nat,
) -> Option<nat>
    decreases w.len(),
{
    if w.len() == 0 {
        Some(pushed)
    } else {
        let k = w[0];
        let s = members(dels, k, exact);
        let t = members(adds, k, exact);
        if s.len() * t.len() + pushed > MAX_CANDIDATES {
            None
        } else {
            walk_from(w.drop_first(), dels, adds, exact, pushed + pair_count(s, t, key_kind(k, exact)))
        }
    }
}

/// One side: its exact buckets, then its rename buckets.
pub open spec fn side_walk(files: Seq<ParsedFileView>, side: Side, pushed: nat) -> Option<nat> {
    let dels = changes(files, side, true);
    let adds = changes(files, side, false);
    match walk_from(walk(dels + adds, true), dels, adds, true, pushed) {
        Some(p) => walk_from(walk(dels + adds, false), dels, adds, false, p),
        None => None,
    }
}

/// Whether every bucket of both sides fits the shared limit.
pub open spec fn buckets_fit(files: Seq<ParsedFileView>) -> bool {
    match side_walk(files, Side::Ours, 0) {
        Some(p) => side_walk(files, Side::Theirs, p) is Some,
        None => false,
    }
}

pub open spec fn key_views(v: Seq<(&Entity, u8)>) -> Seq<BucketKey> {
    v.map_values(|p: (&Entity, u8)| bucket_key(p.0@, p.1))
}

pub open spec fn keys_ok(v: Seq<(&Entity, u8)>, exact: bool) -> bool {
    forall|i: int|
        0 <= i < v.len() ==> (#[trigger] v[i]).1 <= 2 && in_bucket(v[i].0@, v[i].1) && (v[i].1 == 2)
            == exact
}

/// Adds the bucket of `e` where it is missing, keeping the keys in order.
fn add_key<'a>(keys: &mut Vec<(&'a Entity, u8)>, e: &'a Entity, kind: u8)
    requires
        kind <= 2,
        in_bucket(e@, kind),
        keys_ok(old(keys)@, kind == 2),
        sorted_by(|x: BucketKey, y: BucketKey| bucket_compare(x, y), key_views(old(keys)@)),
    ensures
        keys_ok(final(keys)@, kind == 2),
        sorted_by(|x: BucketKey, y: BucketKey| bucket_compare(x, y), key_views(final(keys)@)),
        forall|k: BucketKey|
            key_views(final(keys)@).contains(k) <==> (key_views(old(keys)@).contains(k) || k == bucket_key(
                e@,
                kind,
            )),
{
    let ghost old_view = key_views(keys@);
    let ghost c = |x: BucketKey, y: BucketKey| bucket_compare(x, y);
    let ghost m = bucket_key(e@, kind);
    proof {
        lemma_bucket_order();
    }
    let mut p: usize = 0;
    while p < keys.len() && compare_keys(keys[p].0, keys[p].1, e, kind) < 0
        invariant
            p <= keys.len(),
            kind <= 2,
            in_bucket(e@, kind),
            keys@ == old(keys)@,
            keys_ok(keys@, kind == 2),
            old_view == key_views(keys@),
            m == bucket_key(e@, kind),
            c == (|x: BucketKey, y: BucketKey| bucket_compare(x, y)),
            total_order(c),
            forall|k: int| 0 <= k < p ==> c(#[trigger] old_view[k], m) < 0,
        decreases keys.len() - p,
    {
        assert(old_view[p as int] == bucket_key(keys@[p as int].0@, keys@[p as int].1));
        p += 1;
    }
    if p < keys.len() {
        assert(old_view[p as int] == bucket_key(keys@[p as int].0@, keys@[p as int].1));
        assert(keys_ok(keys@, kind == 2));
        proof {
            lemma_bucket(old_view[p as int], m, m);
        }
        if compare_keys(keys[p].0, keys[p].1, e, kind) == 0 {
            assert(old_view[p as int] == m);
            assert(old_view.contains(m));
            return;
        }
        assert(c(m, old_view[p as int]) < 0);
    }
    proof {
        lemma_insert_ordered(c, old_view, p as int, m);
    }
    keys.insert(p, (e, kind));
    assert(key_views(keys@) =~= old_view.insert(p as int, m));
    assert forall|i: int| 0 <= i < keys@.len() implies (#[trigger] keys@[i]).1 <= 2 && in_bucket(
        keys@[i].0@,
        keys@[i].1,
    ) && (keys@[i].1 == 2) == (kind == 2) by {
        if i < p {
            assert(keys@[i] == old(keys)@[i]);
        } else if i > p {
            assert(keys@[i] == old(keys)@[i - 1]);
        }
    }
    assert forall|k: BucketKey| #[trigger] key_views(keys@).contains(k) <==> (old_view.contains(k) || k == m) by {
        assert(old_view.insert(p as int, m).contains(k) <==> (old_view.contains(k) || k == m));
    }
}

proof fn lemma_member(e: EntityView, k: BucketKey, exact: bool)
    ensures
        exact ==> (member(e, k, exact) <==> k == bucket_key(e, 2)),
        !exact ==> (member(e, k, exact) <==> ((in_bucket(e, 0) && k == bucket_key(e, 0)) || (in_bucket(e, 1)
            && k == bucket_key(e, 1)))),
{
}

/// Adds the buckets of each entity of `list`.
fn add_keys<'a>(keys: &mut Vec<(&'a Entity, u8)>, list: &Vec<&'a Entity>, exact: bool)
    requires
        keys_ok(old(keys)@, exact),
        sorted_by(|x: BucketKey, y: BucketKey| bucket_compare(x, y), key_views(old(keys)@)),
    ensures
        keys_ok(final(keys)@, exact),
        sorted_by(|x: BucketKey, y: BucketKey| bucket_compare(x, y), key_views(final(keys)@)),
        forall|k: BucketKey|
            key_views(final(keys)@).contains(k) <==> (key_views(old(keys)@).contains(k) || walk_key(
                ref_views(list@),
                k,
                exact,
            )),
{
    let ghost lv = ref_views(list@);
    let ghost start = key_views(keys@);
    let mut i: usize = 0;
    while i < list.len()
        invariant
            i <= list.len(),
            lv == ref_views(list@),
            start == key_views(old(keys)@),
            keys_ok(keys@, exact),
            sorted_by(|x: BucketKey, y: BucketKey| bucket_compare(x, y), key_views(keys@)),
            forall|k: BucketKey|
                #[trigger] key_views(keys@).contains(k) <==> (start.contains(k) || walk_key(
                    lv.take(i as int),
                    k,
                    exact,
                )),
        decreases list.len() - i,
    {
        let e = list[i];
        assert(lv[i as int] == e@);
        let ghost before = key_views(keys@);
        if exact {
            add_key(keys, e, 2);
        } else {
            if in_bucket_exec(e, 0) {
                add_key(keys, e, 0);
            }
            if in_bucket_exec(e, 1) {
                add_key(keys, e, 1);
            }
        }
        proof {
            let t0 = lv.take(i as int);
            let t1 = lv.take(i + 1);
            assert forall|k: BucketKey| #[trigger] walk_key(t1, k, exact) <==> (walk_key(t0, k, exact) || member(e@, k, exact)) by {
                if walk_key(t1, k, exact) {
                    let j = choose|j: int| 0 <= j < t1.len() && member(#[trigger] t1[j], k, exact);
                    if j < i {
                        assert(t0[j] == t1[j]);
                    }
                }
                if walk_key(t0, k, exact) {
                    let j = choose|j: int| 0 <= j < t0.len() && member(#[trigger] t0[j], k, exact);
                    assert(t1[j] == t0[j]);
                }
                if member(e@, k, exact) {
                    assert(t1[i as int] == e@);
                }
            }
            assert forall|k: BucketKey| #[trigger] key_views(keys@).contains(k) <==> (start.contains(k) || walk_key(t1, k, exact)) by {
                lemma_member(e@, k, exact);
                assert(before.contains(k) <==> (start.contains(k) || walk_key(t0, k, exact)));
                assert(key_views(keys@).contains(k) <==> (before.contains(k) || member(e@, k, exact)));
            }
        }
        i += 1;
    }
    assert(lv.take(list.len() as int) =~= lv);
}

proof fn lemma_walk_key_concat(a: Seq<EntityView>, b: Seq<EntityView>, k: BucketKey, exact: bool)
    ensures
        walk_key(a + b, k, exact) <==> (walk_key(a, k, exact) || walk_key(b, k, exact)),
{
    let ab = a + b;
    if walk_key(ab, k, exact) {
        let j = choose|j: int| 0 <= j < ab.len() && member(#[trigger] ab[j], k, exact);
        if j < a.len() {
            assert(ab[j] == a[j]);
        } else {
            assert(ab[j] == b[j - a.len()]);
        }
    }
    if walk_key(a, k, exact) {
        let j = choose|j: int| 0 <= j < a.len() && member(#[trigger] a[j], k, exact);
        assert(ab[j] == a[j]);
    }
    if walk_key(b, k, exact) {
        let j = choose|j: int| 0 <= j < b.len() && member(#[trigger] b[j], k, exact);
        assert(ab[j + a.len()] == b[j]);
    }
}

/// The buckets of the deleted and added entities, in walk order.
fn walk_keys<'a>(dels: &Vec<&'a Entity>, adds: &Vec<&'a Entity>, exact: bool) -> (r: Vec<(&'a Entity, u8)>)
    ensures
        keys_ok(r@, exact),
        key_views(r@) == walk(ref_views(dels@) + ref_views(adds@), exact),
{
    let mut keys: Vec<(&Entity, u8)> = Vec::new();
    assert(key_views(keys@) =~= Seq::<BucketKey>::empty());
    add_keys(&mut keys, dels, exact);
    add_keys(&mut keys, adds, exact);
    proof {
        let es = ref_views(dels@) + ref_views(adds@);
        let w = key_views(keys@);
        assert forall|k: BucketKey| w.contains(k) <==> walk_key(es, k, exact) by {
            lemma_walk_key_concat(ref_views(dels@), ref_views(adds@), k, exact);
        }
        assert(is_walk(w, es, exact));
        let w2 = walk(es, exact);
        assert(is_walk(w2, es, exact));
        lemma_bucket_order();
        assert forall|k: BucketKey| w.contains(k) <==> w2.contains(k) by {}
        lemma_sorted_unique(|x: BucketKey, y: BucketKey| bucket_compare(x, y), w, w2);
    }
    keys
}

/// Checks the exact (or rename) buckets of one side in walk order.
fn walk_limits(dels: &Vec<&Entity>, adds: &Vec<&Entity>, exact: bool, pushed: &mut usize) -> (r: Result<
    (),
    Error,
>)
    requires
        *old(pushed) <= MAX_CANDIDATES,
    ensures
        ({
            let dv = ref_views(dels@);
            let av = ref_views(adds@);
            let total = walk_from(walk(dv + av, exact), dv, av, exact, *old(pushed) as nat);
            &&& r is Ok <==> total is Some
            &&& r is Ok ==> total == Some(*final(pushed) as nat)
        }),
        *final(pushed) <= MAX_CANDIDATES,
        r matches Err(e) ==> e == Error::TooManyCandidates,
{
    let ghost dv = ref_views(dels@);
    let ghost av = ref_views(adds@);
    let keys = walk_keys(dels, adds, exact);
    let ghost w = key_views(keys@);
    let ghost total = walk_from(w, dv, av, exact, *pushed as nat);
    assert(w == walk(dv + av, exact));
    assert(total == walk_from(walk(dv + av, exact), dv, av, exact, *old(pushed) as nat));
    let mut b: usize = 0;
    assert(w.skip(0) =~= w);
    while b < keys.len()
        invariant
            b <= keys.len(),
            *pushed <= MAX_CANDIDATES,
            keys_ok(keys@, exact),
            w == key_views(keys@),
            dv == ref_views(dels@),
            av == ref_views(adds@),
            total == walk_from(w.skip(b as int), dv, av, exact, *pushed as nat),
            total == walk_from(walk(dv + av, exact), dv, av, exact, *old(pushed) as nat),
        decreases keys.len() - b,
    {
        let (k, kind) = keys[b];
        assert(keys@[b as int] == (k, kind));
        assert(w.skip(b as int)[0] == bucket_key(k@, kind));
        assert(w.skip(b as int).drop_first() =~= w.skip(b + 1));
        assert(key_kind(bucket_key(k@, kind), exact) == kind);
        assert(exact == (kind == 2));
        match bucket_limit(dels, adds, k, kind, pushed) {
            Ok(()) => {},
            Err(e) => {
                assert(total is None);
                return Err(e);
            },
        }
        b += 1;
    }
    Ok(())
}

/// Every check of the shared limit that the candidate walk makes, in its
/// order: per side, the exact buckets, then the rename buckets.
pub fn bucket_limits(files: &Vec<ParsedFile>) -> (r: Result<(), Error>)
    ensures
        r is Ok <==> buckets_fit(super::moves::file_views(files@)),
        r matches Err(e) ==> e == Error::TooManyCandidates,
{
    let ghost fv = super::moves::file_views(files@);
    let mut pushed: usize = 0;
    let od = changed_entities(files, Side::Ours, true);
    let oa = changed_entities(files, Side::Ours, false);
    walk_limits(&od, &oa, true, &mut pushed)?;
    walk_limits(&od, &oa, false, &mut pushed)?;
    let td = changed_entities(files, Side::Theirs, true);
    let ta = changed_entities(files, Side::Theirs, false);
    walk_limits(&td, &ta, true, &mut pushed)?;
    walk_limits(&td, &ta, false, &mut pushed)?;
    Ok(())
}

} // verus!
