//! Rendering for conflicts required by strict rules, independent of Git's
//! line merger. Only byte-identical boundary lines leave the box; rendering
//! never decides whether a conflict exists.
use vstd::prelude::*;
use vstd::string::StringExecFns;
use crate::text::{chars_of, push_char, same_chars};
use super::{safe_chars, safe_label, marker_label, Labels, LabelsView};
use crate::reason::display::{move_note, opposite_notes};
use crate::reason::order::{insert_string, lemma_sorted_unique, lemma_str_order, str_compare, strs_sorted};
use crate::reason::{side_opposite, MoveEvidence, MoveEvidenceView, Side};
use crate::text::{join, join_strings, string_views};
use crate::analysis::moves::newline_count;

verus! {

/// The first index from `i` at which the three texts differ or one ends.
pub open spec fn common_from(b: Seq<char>, o: Seq<char>, t: Seq<char>, i: int) -> int
    decreases b.len() - i,
{
    if i < 0 {
        0
    } else if i >= b.len() || i >= o.len() || i >= t.len() || b[i] != o[i] || b[i] != t[i] {
        i
    } else {
        common_from(b, o, t, i + 1)
    }
}

/// The greatest line start at or before `n`.
pub open spec fn line_back(s: Seq<char>, n: int) -> int
    decreases n,
{
    if n <= 0 {
        0
    } else if s[n - 1] == '\n' {
        n
    } else {
        line_back(s, n - 1)
    }
}

/// The length from `k` of the common suffix of three texts.
pub open spec fn common_tail_from(b: Seq<char>, o: Seq<char>, t: Seq<char>, k: int) -> int
    decreases b.len() - k,
{
    if k < 0 {
        0
    } else if k >= b.len() || k >= o.len() || k >= t.len() || b[b.len() - 1 - k] != o[o.len() - 1
        - k] || b[b.len() - 1 - k] != t[t.len() - 1 - k] {
        k
    } else {
        common_tail_from(b, o, t, k + 1)
    }
}

/// A suffix of length `s` starts a line of `x`.
pub open spec fn starts_line(x: Seq<char>, s: int) -> bool {
    s == x.len() || x[x.len() - s - 1] == '\n'
}

/// The longest suffix length at or below `s` that starts a line in all three.
pub open spec fn tail_back(b: Seq<char>, o: Seq<char>, t: Seq<char>, s: int) -> int
    decreases s,
{
    if s <= 0 {
        0
    } else if starts_line(b, s) && starts_line(o, s) && starts_line(t, s) {
        s
    } else {
        tail_back(b, o, t, s - 1)
    }
}

pub open spec fn all_same(b: Seq<char>, o: Seq<char>, t: Seq<char>) -> bool {
    b == o && b == t
}

/// Length of the shared leading whole lines (each ending in a newline).
pub open spec fn context_prefix_len(b: Seq<char>, o: Seq<char>, t: Seq<char>) -> int {
    if all_same(b, o, t) {
        0
    } else {
        line_back(b, common_from(b, o, t, 0))
    }
}

/// Length of the shared trailing whole lines after the shared prefix.
pub open spec fn context_suffix_len(b: Seq<char>, o: Seq<char>, t: Seq<char>) -> int {
    if all_same(b, o, t) {
        0
    } else {
        let p = context_prefix_len(b, o, t);
        let (x, y, z) = (b.skip(p), o.skip(p), t.skip(p));
        tail_back(x, y, z, common_tail_from(x, y, z, 0))
    }
}

/// The part of `x` between the shared context lines.
pub open spec fn middle(x: Seq<char>, b: Seq<char>, o: Seq<char>, t: Seq<char>) -> Seq<char> {
    x.subrange(context_prefix_len(b, o, t), x.len() - context_suffix_len(b, o, t))
}

proof fn lemma_common_from(b: Seq<char>, o: Seq<char>, t: Seq<char>, i: int)
    requires
        0 <= i <= b.len(),
        i <= o.len(),
        i <= t.len(),
        forall|k: int| 0 <= k < i ==> b[k] == o[k] && b[k] == t[k],
    ensures
        i <= common_from(b, o, t, i) <= b.len(),
        common_from(b, o, t, i) <= o.len(),
        common_from(b, o, t, i) <= t.len(),
        forall|k: int| 0 <= k < common_from(b, o, t, i) ==> b[k] == o[k] && b[k] == t[k],
    decreases b.len() - i,
{
    if !(i >= b.len() || i >= o.len() || i >= t.len() || b[i] != o[i] || b[i] != t[i]) {
        lemma_common_from(b, o, t, i + 1);
    }
}

proof fn lemma_line_back(s: Seq<char>, n: int)
    requires
        0 <= n <= s.len(),
    ensures
        0 <= line_back(s, n) <= n,
    decreases n,
{
    if n > 0 && s[n - 1] != '\n' {
        lemma_line_back(s, n - 1);
    }
}

pub open spec fn tail_eq(b: Seq<char>, o: Seq<char>, t: Seq<char>, j: int) -> bool {
    b[b.len() - 1 - j] == o[o.len() - 1 - j] && b[b.len() - 1 - j] == t[t.len() - 1 - j]
}

proof fn lemma_common_tail(b: Seq<char>, o: Seq<char>, t: Seq<char>, k: int)
    requires
        0 <= k <= b.len(),
        k <= o.len(),
        k <= t.len(),
        forall|j: int| 0 <= j < k ==> #[trigger] tail_eq(b, o, t, j),
    ensures
        k <= common_tail_from(b, o, t, k) <= b.len(),
        common_tail_from(b, o, t, k) <= o.len(),
        common_tail_from(b, o, t, k) <= t.len(),
        forall|j: int| 0 <= j < common_tail_from(b, o, t, k) ==> #[trigger] tail_eq(b, o, t, j),
    decreases b.len() - k,
{
    if !(k >= b.len() || k >= o.len() || k >= t.len() || b[b.len() - 1 - k] != o[o.len() - 1 - k] || b[b.len() - 1 - k] != t[t.len() - 1 - k]) {
        lemma_common_tail(b, o, t, k + 1);
    }
}

proof fn lemma_tail_back(b: Seq<char>, o: Seq<char>, t: Seq<char>, s: int)
    requires
        0 <= s,
    ensures
        0 <= tail_back(b, o, t, s) <= s,
    decreases s,
{
    if s > 0 && !(starts_line(b, s) && starts_line(o, s) && starts_line(t, s)) {
        lemma_tail_back(b, o, t, s - 1);
    }
}

/// The shared context splits every text into prefix, middle and suffix, and
/// the prefix and suffix are the same in all three.
pub proof fn lemma_context(b: Seq<char>, o: Seq<char>, t: Seq<char>)
    ensures
        0 <= context_prefix_len(b, o, t),
        0 <= context_suffix_len(b, o, t),
        context_prefix_len(b, o, t) + context_suffix_len(b, o, t) <= b.len(),
        context_prefix_len(b, o, t) + context_suffix_len(b, o, t) <= o.len(),
        context_prefix_len(b, o, t) + context_suffix_len(b, o, t) <= t.len(),
        b.take(context_prefix_len(b, o, t)) == o.take(context_prefix_len(b, o, t)),
        b.take(context_prefix_len(b, o, t)) == t.take(context_prefix_len(b, o, t)),
        b.skip(b.len() - context_suffix_len(b, o, t)) == o.skip(o.len() - context_suffix_len(b, o, t)),
        b.skip(b.len() - context_suffix_len(b, o, t)) == t.skip(t.len() - context_suffix_len(b, o, t)),
{
    if !all_same(b, o, t) {
        lemma_common_from(b, o, t, 0);
        let n = common_from(b, o, t, 0);
        lemma_line_back(b, n);
        let p = context_prefix_len(b, o, t);
        assert(b.take(p) =~= o.take(p));
        assert(b.take(p) =~= t.take(p));
        let (x, y, z) = (b.skip(p), o.skip(p), t.skip(p));
        lemma_common_tail(x, y, z, 0);
        let m = common_tail_from(x, y, z, 0);
        lemma_tail_back(x, y, z, m);
        let s = context_suffix_len(b, o, t);
        assert(b.skip(b.len() - s) =~= o.skip(o.len() - s)) by {
            assert forall|j: int| 0 <= j < s implies #[trigger] b.skip(b.len() - s)[j] == o.skip(o.len() - s)[j] by {
                let q = s - 1 - j;
                assert(tail_eq(x, y, z, q));
            }
        }
        assert(b.skip(b.len() - s) =~= t.skip(t.len() - s)) by {
            assert forall|j: int| 0 <= j < s implies #[trigger] b.skip(b.len() - s)[j] == t.skip(t.len() - s)[j] by {
                let q = s - 1 - j;
                assert(tail_eq(x, y, z, q));
            }
        }
    } else {
        assert(b.skip(b.len() - 0) =~= o.skip(o.len() - 0));
        assert(b.skip(b.len() - 0) =~= t.skip(t.len() - 0));
    }
}

/// Each text is the shared prefix, its own middle, then the shared suffix.
pub proof fn law_context_reassembles(b: Seq<char>, o: Seq<char>, t: Seq<char>)
    ensures
        b.take(context_prefix_len(b, o, t)) + middle(b, b, o, t) + b.skip(b.len() - context_suffix_len(b, o, t)) == b,
        b.take(context_prefix_len(b, o, t)) + middle(o, b, o, t) + b.skip(b.len() - context_suffix_len(b, o, t)) == o,
        b.take(context_prefix_len(b, o, t)) + middle(t, b, o, t) + b.skip(b.len() - context_suffix_len(b, o, t)) == t,
{
    lemma_context(b, o, t);
    let p = context_prefix_len(b, o, t);
    let s = context_suffix_len(b, o, t);
    assert(b.take(p) + middle(b, b, o, t) + b.skip(b.len() - s) =~= b);
    assert(o.take(p) + middle(o, b, o, t) + o.skip(o.len() - s) =~= o);
    assert(t.take(p) + middle(t, b, o, t) + t.skip(t.len() - s) =~= t);
}

proof fn lemma_line_back_ends_line(s: Seq<char>, n: int)
    requires
        0 <= n <= s.len(),
    ensures
        line_back(s, n) == 0 || s[line_back(s, n) - 1] == '\n',
    decreases n,
{
    if n > 0 && s[n - 1] != '\n' {
        lemma_line_back_ends_line(s, n - 1);
    }
}

/// The shared prefix is whole lines: it is empty or ends with a line feed.
/// Three equal texts share no context: each is all middle.
pub proof fn law_context_lines(b: Seq<char>, o: Seq<char>, t: Seq<char>)
    ensures
        context_prefix_len(b, o, t) == 0 || b[context_prefix_len(b, o, t) - 1] == '\n',
        all_same(b, o, t) ==> context_prefix_len(b, o, t) == 0 && context_suffix_len(b, o, t) == 0
            && middle(b, b, o, t) == b && middle(o, b, o, t) == o && middle(t, b, o, t) == t,
{
    if !all_same(b, o, t) {
        lemma_common_from(b, o, t, 0);
        lemma_line_back_ends_line(b, common_from(b, o, t, 0));
    } else {
        assert(middle(b, b, o, t) =~= b);
        assert(middle(o, b, o, t) =~= o);
        assert(middle(t, b, o, t) =~= t);
    }
}

proof fn lemma_common_tail_reaches(b: Seq<char>, o: Seq<char>, t: Seq<char>, k: int, s: int)
    requires
        0 <= k <= s,
        s <= b.len(),
        s <= o.len(),
        s <= t.len(),
        forall|j: int| 0 <= j < s ==> #[trigger] tail_eq(b, o, t, j),
    ensures
        common_tail_from(b, o, t, k) >= s,
    decreases s - k,
{
    if k < s {
        assert(tail_eq(b, o, t, k));
        lemma_common_tail_reaches(b, o, t, k + 1, s);
    } else {
        lemma_common_tail(b, o, t, k);
    }
}

proof fn lemma_tail_back_reaches(b: Seq<char>, o: Seq<char>, t: Seq<char>, m: int, s: int)
    requires
        0 <= s <= m,
        starts_line(b, s),
        starts_line(o, s),
        starts_line(t, s),
    ensures
        tail_back(b, o, t, m) >= s,
    decreases m,
{
    if m > 0 && !(starts_line(b, m) && starts_line(o, m) && starts_line(t, m)) {
        lemma_tail_back_reaches(b, o, t, m - 1, s);
    }
}

/// The shared trailing context is as long as it can be: any run of whole
/// lines that base, ours and theirs all end with, after the shared prefix,
/// is no longer than the context kept outside the box.
pub proof fn law_context_suffix_maximal(b: Seq<char>, o: Seq<char>, t: Seq<char>, s: int)
    ensures
        ({
            let p = context_prefix_len(b, o, t);
            (!all_same(b, o, t) && 0 <= s && p + s <= b.len() && p + s <= o.len() && p + s <= t.len()
                && b.skip(b.len() - s) == o.skip(o.len() - s) && b.skip(b.len() - s) == t.skip(t.len() - s)
                && (p + s == b.len() || b[b.len() - s - 1] == '\n') && (p + s == o.len() || o[o.len() - s
                - 1] == '\n') && (p + s == t.len() || t[t.len() - s - 1] == '\n')) ==> s <= context_suffix_len(
                b,
                o,
                t,
            )
        }),
{
    let p = context_prefix_len(b, o, t);
    if !all_same(b, o, t) && 0 <= s && p + s <= b.len() && p + s <= o.len() && p + s <= t.len() && b.skip(
        b.len() - s,
    ) == o.skip(o.len() - s) && b.skip(b.len() - s) == t.skip(t.len() - s) && (p + s == b.len() || b[b.len()
        - s - 1] == '\n') && (p + s == o.len() || o[o.len() - s - 1] == '\n') && (p + s == t.len() || t[t.len()
        - s - 1] == '\n') {
        lemma_context(b, o, t);
        lemma_common_from(b, o, t, 0);
        lemma_line_back(b, common_from(b, o, t, 0));
        let (x, y, z) = (b.skip(p), o.skip(p), t.skip(p));
        assert forall|j: int| 0 <= j < s implies #[trigger] tail_eq(x, y, z, j) by {
            assert(x[x.len() - 1 - j] == b[b.len() - 1 - j]);
            assert(y[y.len() - 1 - j] == o[o.len() - 1 - j]);
            assert(z[z.len() - 1 - j] == t[t.len() - 1 - j]);
            assert(b.skip(b.len() - s)[s - 1 - j] == b[b.len() - 1 - j]);
            assert(o.skip(o.len() - s)[s - 1 - j] == o[o.len() - 1 - j]);
            assert(t.skip(t.len() - s)[s - 1 - j] == t[t.len() - 1 - j]);
        }
        lemma_common_tail_reaches(x, y, z, 0, s);
        let m = common_tail_from(x, y, z, 0);
        if s < x.len() {
            assert(x[x.len() - s - 1] == b[b.len() - s - 1]);
        }
        if s < y.len() {
            assert(y[y.len() - s - 1] == o[o.len() - s - 1]);
        }
        if s < z.len() {
            assert(z[z.len() - s - 1] == t[t.len() - s - 1]);
        }
        lemma_tail_back_reaches(x, y, z, m, s);
    }
}

fn common_len(b: &Vec<char>, o: &Vec<char>, t: &Vec<char>) -> (r: usize)
    ensures
        r as int == common_from(b@, o@, t@, 0),
{
    let mut i: usize = 0;
    while i < b.len() && i < o.len() && i < t.len() && b[i] == o[i] && b[i] == t[i]
        invariant
            0 <= i <= b.len(),
            common_from(b@, o@, t@, 0) == common_from(b@, o@, t@, i as int),
        decreases b.len() - i,
    {
        i += 1;
    }
    i
}

fn line_start_before(b: &Vec<char>, n: usize) -> (r: usize)
    requires
        n <= b.len(),
    ensures
        r as int == line_back(b@, n as int),
{
    let mut p: usize = n;
    while p > 0 && b[p - 1] != '\n'
        invariant
            p <= n,
            n <= b.len(),
            line_back(b@, n as int) == line_back(b@, p as int),
        decreases p,
    {
        p -= 1;
    }
    p
}

fn common_tail_len(b: &Vec<char>, o: &Vec<char>, t: &Vec<char>, p: usize) -> (r: usize)
    requires
        p <= b.len(),
        p <= o.len(),
        p <= t.len(),
    ensures
        r as int == common_tail_from(b@.skip(p as int), o@.skip(p as int), t@.skip(p as int), 0),
        r <= b.len() - p,
        r <= o.len() - p,
        r <= t.len() - p,
{
    let ghost (x, y, z) = (b@.skip(p as int), o@.skip(p as int), t@.skip(p as int));
    let (bl, ol, tl) = (b.len() - p, o.len() - p, t.len() - p);
    let mut k: usize = 0;
    while k < bl && k < ol && k < tl && b[b.len() - 1 - k] == o[o.len() - 1 - k] && b[b.len() - 1
        - k] == t[t.len() - 1 - k]
        invariant
            x == b@.skip(p as int),
            y == o@.skip(p as int),
            z == t@.skip(p as int),
            bl == b.len() - p,
            ol == o.len() - p,
            tl == t.len() - p,
            p <= b.len(),
            p <= o.len(),
            p <= t.len(),
            k <= bl,
            k <= ol,
            k <= tl,
            common_tail_from(x, y, z, 0) == common_tail_from(x, y, z, k as int),
        decreases bl - k,
    {
        assert(x[bl - 1 - k] == b@[b.len() - 1 - k]);
        assert(y[ol - 1 - k] == o@[o.len() - 1 - k]);
        assert(z[tl - 1 - k] == t@[t.len() - 1 - k]);
        k += 1;
    }
    proof {
        if k < bl && k < ol && k < tl {
            assert(x[bl - 1 - k] == b@[b.len() - 1 - k]);
            assert(y[ol - 1 - k] == o@[o.len() - 1 - k]);
            assert(z[tl - 1 - k] == t@[t.len() - 1 - k]);
        }
    }
    k
}

fn tail_start(b: &Vec<char>, o: &Vec<char>, t: &Vec<char>, p: usize, k: usize) -> (r: usize)
    requires
        p <= b.len(),
        p <= o.len(),
        p <= t.len(),
        k <= b.len() - p,
        k <= o.len() - p,
        k <= t.len() - p,
    ensures
        r as int == tail_back(b@.skip(p as int), o@.skip(p as int), t@.skip(p as int), k as int),
{
    let ghost (x, y, z) = (b@.skip(p as int), o@.skip(p as int), t@.skip(p as int));
    let (bl, ol, tl) = (b.len() - p, o.len() - p, t.len() - p);
    let mut s: usize = k;
    while s > 0 && !((s == bl || b[b.len() - s - 1] == '\n') && (s == ol || o[o.len() - s - 1]
        == '\n') && (s == tl || t[t.len() - s - 1] == '\n'))
        invariant
            x == b@.skip(p as int),
            y == o@.skip(p as int),
            z == t@.skip(p as int),
            bl == b.len() - p,
            ol == o.len() - p,
            tl == t.len() - p,
            s <= k,
            k <= bl,
            k <= ol,
            k <= tl,
            tail_back(x, y, z, k as int) == tail_back(x, y, z, s as int),
        decreases s,
    {
        proof {
            if s < bl {
                assert(x[bl - s - 1] == b@[b.len() - s - 1]);
            }
            if s < ol {
                assert(y[ol - s - 1] == o@[o.len() - s - 1]);
            }
            if s < tl {
                assert(z[tl - s - 1] == t@[t.len() - s - 1]);
            }
        }
        s -= 1;
    }
    proof {
        if s > 0 {
            if s < bl {
                assert(x[bl - s - 1] == b@[b.len() - s - 1]);
            }
            if s < ol {
                assert(y[ol - s - 1] == o@[o.len() - s - 1]);
            }
            if s < tl {
                assert(z[tl - s - 1] == t@[t.len() - s - 1]);
            }
        }
    }
    s
}

/// The shared whole lines around three texts: (prefix length, suffix length).
pub fn trim_context(b: &Vec<char>, o: &Vec<char>, t: &Vec<char>) -> (r: (usize, usize))
    ensures
        r.0 as int == context_prefix_len(b@, o@, t@),
        r.1 as int == context_suffix_len(b@, o@, t@),
        r.0 + r.1 <= b@.len() && r.0 + r.1 <= o@.len() && r.0 + r.1 <= t@.len(),
        r.0 == 0 || b@[r.0 - 1] == '\n',
        all_same(b@, o@, t@) ==> r.0 == 0 && r.1 == 0,
{
    proof {
        lemma_context(b@, o@, t@);
        law_context_lines(b@, o@, t@);
    }
    if same_chars(b, o) && same_chars(b, t) {
        return (0, 0);
    }
    let n = common_len(b, o, t);
    proof {
        lemma_common_from(b@, o@, t@, 0);
    }
    let p = line_start_before(b, n);
    proof {
        lemma_line_back(b@, n as int);
    }
    let k = common_tail_len(b, o, t, p);
    let s = tail_start(b, o, t, p, k);
    (p, s)
}

pub open spec fn repeat(c: char, n: nat) -> Seq<char> {
    Seq::new(n, |i: int| c)
}

/// A box section always ends with a newline unless it is empty.
pub open spec fn section(t: Seq<char>) -> Seq<char> {
    if t.len() == 0 || t.last() == '\n' {
        t
    } else {
        t.push('\n')
    }
}

/// A labelled diff3-style box around the differing middle of three texts.
pub open spec fn box_text(
    b: Seq<char>,
    o: Seq<char>,
    t: Seq<char>,
    labels: LabelsView,
    width: nat,
    reason: Seq<char>,
) -> Seq<char> {
    let p = context_prefix_len(b, o, t);
    let s = context_suffix_len(b, o, t);
    b.take(p) + repeat('<', width) + " "@ + marker_label("ours"@, labels.ours) + " | "@
        + safe_chars(reason) + "\n"@ + section(middle(o, b, o, t)) + repeat('|', width) + " "@
        + marker_label("base"@, labels.base) + "\n"@ + section(middle(b, b, o, t)) + repeat(
        '=',
        width,
    ) + "\n"@ + section(middle(t, b, o, t)) + repeat('>', width) + " "@ + marker_label(
        "theirs"@,
        labels.theirs,
    ) + "\n"@ + b.skip(b.len() - s)
}

/// Text made of whole lines, then a marker run: the run starts a line.
proof fn lemma_marker_after(pre: Seq<char>, width: nat, rest: Seq<char>)
    requires
        pre.len() == 0 || pre.last() == '\n',
    ensures
        ({
            let c = pre + repeat('<', width) + rest;
            &&& pre.len() + width <= c.len()
            &&& (pre.len() == 0 || c[pre.len() - 1] == '\n')
            &&& c.subrange(pre.len() as int, (pre.len() + width) as int) == repeat('<', width)
        }),
{
    let c = pre + repeat('<', width) + rest;
    assert(c.subrange(pre.len() as int, (pre.len() + width) as int) =~= repeat('<', width));
    if pre.len() > 0 {
        assert(c[pre.len() - 1] == pre.last());
    }
}

/// A conflict box has a line that starts with the ours marker.
#[verifier::spinoff_prover]
#[verifier::rlimit(100)]
pub proof fn lemma_box_has_marker(
    b: Seq<char>,
    o: Seq<char>,
    t: Seq<char>,
    labels: LabelsView,
    width: nat,
    reason: Seq<char>,
)
    ensures
        ({
            let c = box_text(b, o, t, labels, width, reason);
            exists|i: int|
                0 <= i && i + width <= c.len() && (i == 0 || c[i - 1] == '\n') && #[trigger] c.subrange(
                    i,
                    i + width,
                ) == repeat('<', width)
        }),
{
    let p = context_prefix_len(b, o, t);
    let s = context_suffix_len(b, o, t);
    assert(0 <= p <= b.len() && (p == 0 || b[p - 1] == '\n')) by {
        lemma_context(b, o, t);
        law_context_lines(b, o, t);
    }
    let pre = b.take(p);
    assert(pre.len() == 0 || pre.last() == '\n');
    let rest = " "@ + marker_label("ours"@, labels.ours) + " | "@ + safe_chars(reason) + "\n"@ + section(
        middle(o, b, o, t),
    ) + repeat('|', width) + " "@ + marker_label("base"@, labels.base) + "\n"@ + section(
        middle(b, b, o, t),
    ) + repeat('=', width) + "\n"@ + section(middle(t, b, o, t)) + repeat('>', width) + " "@
        + marker_label("theirs"@, labels.theirs) + "\n"@ + b.skip(b.len() - s);
    lemma_marker_after(pre, width, rest);
    let c = box_text(b, o, t, labels, width, reason);
    assert(c =~= pre + repeat('<', width) + rest);
    assert(c.subrange(p, p + width) == repeat('<', width));
}

fn append_range(s: &mut String, v: &Vec<char>, from: usize, to: usize)
    requires
        from <= to <= v.len(),
    ensures
        final(s)@ == old(s)@ + v@.subrange(from as int, to as int),
{
    let mut i = from;
    while i < to
        invariant
            from <= i <= to,
            to <= v.len(),
            s@ == old(s)@ + v@.subrange(from as int, i as int),
        decreases to - i,
    {
        push_char(s, v[i]);
        assert(v@.subrange(from as int, i + 1) =~= v@.subrange(from as int, i as int).push(v@[i as int]));
        i += 1;
    }
}

fn append_section(s: &mut String, v: &Vec<char>, from: usize, to: usize)
    requires
        from <= to <= v.len(),
    ensures
        final(s)@ == old(s)@ + section(v@.subrange(from as int, to as int)),
{
    append_range(s, v, from, to);
    if from < to && v[to - 1] != '\n' {
        push_char(s, '\n');
    }
}

fn append_repeat(s: &mut String, c: char, n: usize)
    ensures
        final(s)@ == old(s)@ + repeat(c, n as nat),
{
    let mut i: usize = 0;
    while i < n
        invariant
            i <= n,
            s@ == old(s)@ + repeat(c, i as nat),
        decreases n - i,
    {
        push_char(s, c);
        assert(repeat(c, (i + 1) as nat) =~= repeat(c, i as nat).push(c));
        i += 1;
    }
}

/// Wrap the differing middle of three texts in labelled diff3 markers.
///
/// Common prefix/suffix lines appear once outside the box. Line terminators
/// take part in equality, so CRLF and missing final newlines are kept. Equal
/// changed sides still conflict against base. When all three texts are
/// identical the full box is kept: an outside reason may still require review.
pub fn conflict_box(
    base: &str,
    ours: &str,
    theirs: &str,
    labels: &Labels,
    width: usize,
    reason: &str,
) -> (r: String)
    ensures
        r@ == box_text(base@, ours@, theirs@, labels@, width as nat, reason@),
{
    let b = chars_of(base);
    let o = chars_of(ours);
    let t = chars_of(theirs);
    let (p, s) = trim_context(&b, &o, &t);
    proof {
        lemma_context(b@, o@, t@);
    }
    let mut r = String::new();
    append_range(&mut r, &b, 0, p);
    assert(b@.subrange(0, p as int) =~= b@.take(p as int));
    append_repeat(&mut r, '<', width);
    r.append(" ");
    r.append(labels.ours_marker().as_str());
    r.append(" | ");
    r.append(safe_label(reason).as_str());
    r.append("\n");
    append_section(&mut r, &o, p, o.len() - s);
    append_repeat(&mut r, '|', width);
    r.append(" ");
    r.append(labels.base_marker().as_str());
    r.append("\n");
    append_section(&mut r, &b, p, b.len() - s);
    append_repeat(&mut r, '=', width);
    r.append("\n");
    append_section(&mut r, &t, p, t.len() - s);
    append_repeat(&mut r, '>', width);
    r.append(" ");
    r.append(labels.theirs_marker().as_str());
    r.append("\n");
    append_range(&mut r, &b, b.len() - s, b.len());
    assert(b@.subrange(b.len() - s, b.len() as int) =~= b@.skip(b.len() - s));
    r
}

// ---------------------------------------------------------------------------
// File-level move notes on the first marker of each side.
// ---------------------------------------------------------------------------

/// A note that a side's marker carries: a candidate of that side, or a
/// counterpart of a candidate of the other side.
pub open spec fn side_note(cs: Seq<MoveEvidenceView>, side: Side, n: Seq<char>) -> bool {
    exists|i: int| 0 <= i < cs.len() && note_of(#[trigger] cs[i], side, n)
}

pub open spec fn note_of(c: MoveEvidenceView, side: Side, n: Seq<char>) -> bool {
    (c.side == side && n == move_note(c.base, c.target, c.matched_by)) || (side_opposite(c.side) == side
        && opposite_notes(c).contains(n))
}

proof fn lemma_side_note_step(cs: Seq<MoveEvidenceView>, i: int, side: Side, n: Seq<char>)
    requires
        0 <= i < cs.len(),
    ensures
        side_note(cs.take(i + 1), side, n) <==> (side_note(cs.take(i), side, n) || note_of(cs[i], side, n)),
{
    let t = cs.take(i + 1);
    let u = cs.take(i);
    if side_note(t, side, n) {
        let x = choose|x: int| 0 <= x < t.len() && note_of(#[trigger] t[x], side, n);
        if x < i {
            assert(u[x] == t[x]);
        }
    }
    if side_note(u, side, n) {
        let x = choose|x: int| 0 <= x < u.len() && note_of(#[trigger] u[x], side, n);
        assert(t[x] == u[x]);
    }
    if note_of(cs[i], side, n) {
        assert(t[i] == cs[i]);
    }
}


/// The notes of one side as an ordered set.
pub open spec fn sorted_notes(cs: Seq<MoveEvidenceView>, side: Side) -> Seq<Seq<char>> {
    choose|s: Seq<Seq<char>>| strs_sorted(s) && forall|n: Seq<char>| #[trigger] s.contains(n) <==> side_note(cs, side, n)
}

/// What a side's first marker line gains: nothing without notes.
pub open spec fn note_suffix(cs: Seq<MoveEvidenceView>, side: Side) -> Seq<char> {
    let s = sorted_notes(cs, side);
    if s.len() == 0 {
        seq![]
    } else {
        " | 文件关联 [analyze]："@ + join(s, "；"@)
    }
}

pub open spec fn marker_start(c: char, width: nat) -> Seq<char> {
    repeat(c, width) + " ⎇ "@
}

/// The length of the first line of `s`, with its newline.
pub open spec fn line_len(s: Seq<char>) -> int
    decreases s.len(),
{
    if s.len() == 0 {
        0
    } else if s[0] == '\n' {
        1
    } else {
        1 + line_len(s.drop_first())
    }
}

#[verifier::opaque]
pub open spec fn starts_with(s: Seq<char>, p: Seq<char>) -> bool {
    p.len() <= s.len() && s.subrange(0, p.len() as int) == p
}

#[verifier::opaque]
pub open spec fn ends_with(s: Seq<char>, p: Seq<char>) -> bool {
    p.len() <= s.len() && s.subrange(s.len() - p.len(), s.len() as int) == p
}

/// Line by line: each line is kept, and the first one starting with a side's
/// marker gains that side's suffix unless it already ends with it. A CRLF
/// ending stays after the suffix.
#[verifier::opaque]
pub open spec fn annotated(
    s: Seq<char>,
    ours_prefix: Seq<char>,
    theirs_prefix: Seq<char>,
    ours_suffix: Seq<char>,
    theirs_suffix: Seq<char>,
    seen_ours: bool,
    seen_theirs: bool,
) -> Seq<char>
    decreases s.len(),
{
    if s.len() == 0 {
        seq![]
    } else {
        let n = line_len(s);
        let line = s.take(n);
        let has_nl = line.len() > 0 && line.last() == '\n';
        let body0 = if has_nl {
            line.drop_last()
        } else {
            line
        };
        let crlf = has_nl && body0.len() > 0 && body0.last() == '\r';
        let body = if crlf {
            body0.drop_last()
        } else {
            body0
        };
        let ending = if crlf {
            "\r\n"@
        } else if has_nl {
            "\n"@
        } else {
            seq![]
        };
        let hit_ours = !seen_ours && starts_with(body, ours_prefix);
        let hit_theirs = !seen_theirs && starts_with(body, theirs_prefix);
        let add_ours = if hit_ours && !ends_with(body, ours_suffix) {
            ours_suffix
        } else {
            seq![]
        };
        let add_theirs = if hit_theirs && !ends_with(body, theirs_suffix) {
            theirs_suffix
        } else {
            seq![]
        };
        if 0 < n <= s.len() {
            body + add_ours + add_theirs + ending + annotated(
                s.skip(n),
                ours_prefix,
                theirs_prefix,
                ours_suffix,
                theirs_suffix,
                seen_ours || hit_ours,
                seen_theirs || hit_theirs,
            )
        } else {
            seq![]
        }
    }
}

pub open spec fn annotate_spec(content: Seq<char>, cs: Seq<MoveEvidenceView>, width: nat) -> Seq<char> {
    annotated(
        content,
        marker_start('<', width),
        marker_start('>', width),
        note_suffix(cs, Side::Ours),
        note_suffix(cs, Side::Theirs),
        false,
        false,
    )
}

proof fn lemma_line_len(s: Seq<char>)
    ensures
        0 <= line_len(s) <= s.len(),
        s.len() > 0 ==> line_len(s) > 0,
        forall|k: int| 0 <= k < line_len(s) - 1 ==> s[k] != '\n',
        line_len(s) > 0 ==> (s[line_len(s) - 1] == '\n' || line_len(s) == s.len()),
    decreases s.len(),
{
    if s.len() > 0 && s[0] != '\n' {
        lemma_line_len(s.drop_first());
        assert forall|k: int| 0 <= k < line_len(s) - 1 implies s[k] != '\n' by {
            if k > 0 {
                assert(s[k] == s.drop_first()[k - 1]);
            }
        }
    }
}

fn notes_of(cs: &[MoveEvidence], side: Side) -> (r: Vec<String>)
    ensures
        string_views(r@) == sorted_notes(cs@.map_values(|c: MoveEvidence| c@), side),
{
    let ghost cv = cs@.map_values(|c: MoveEvidence| c@);
    let mut r: Vec<String> = Vec::new();
    assert(string_views(r@) =~= Seq::<Seq<char>>::empty());
    let mut i: usize = 0;
    while i < cs.len()
        invariant
            i <= cs.len(),
            cv == cs@.map_values(|c: MoveEvidence| c@),
            strs_sorted(string_views(r@)),
            forall|n: Seq<char>| string_views(r@).contains(n) <==> side_note(cv.take(i as int), side, n),
        decreases cs.len() - i,
    {
        let c = &cs[i];
        assert(cv[i as int] == c@);
        let ghost before = string_views(r@);
        if c.side == side {
            insert_string(&mut r, c.marker_note());
        }
        let ghost mid = string_views(r@);
        assert(forall|n: Seq<char>| mid.contains(n) <==> (before.contains(n) || (c.side == side && n == move_note(c@.base, c@.target, c@.matched_by))));
        if c.opposite_side() == side {
            let notes = c.opposite_marker_notes();
            let ghost sv = string_views(notes@);
            let mut k: usize = 0;
            assert(sv.take(0) =~= Seq::<Seq<char>>::empty());
            while k < notes.len()
                invariant
                    k <= notes.len(),
                    sv == string_views(notes@),
                    strs_sorted(string_views(r@)),
                    sv == opposite_notes(c@),
                    forall|n: Seq<char>| string_views(r@).contains(n) <==> (mid.contains(n) || sv.take(k as int).contains(n)),
                decreases notes.len() - k,
            {
                let ghost b2 = string_views(r@);
                assert(sv[k as int] == notes@[k as int]@);
                insert_string(&mut r, notes[k].clone());
                assert forall|n: Seq<char>| string_views(r@).contains(n) <==> (mid.contains(n) || sv.take(k + 1).contains(n)) by {
                    assert(sv.take(k + 1) =~= sv.take(k as int).push(sv[k as int]));
                    assert(b2.contains(n) <==> (mid.contains(n) || sv.take(k as int).contains(n)));
                    assert(string_views(r@).contains(n) <==> (b2.contains(n) || n == sv[k as int]));
                    if sv.take(k + 1).contains(n) && !sv.take(k as int).contains(n) {
                        let y = choose|y: int| 0 <= y < k + 1 && #[trigger] sv.take(k + 1)[y] == n;
                        if y < k {
                            assert(sv.take(k as int)[y] == n);
                        }
                    }
                    if sv.take(k as int).contains(n) {
                        let y = choose|y: int| 0 <= y < k && #[trigger] sv.take(k as int)[y] == n;
                        assert(sv.take(k + 1)[y] == n);
                    }
                    if n == sv[k as int] {
                        assert(sv.take(k + 1)[k as int] == n);
                    }
                }
                let ghost k_old = k;
                k += 1;
                assert forall|n: Seq<char>| string_views(r@).contains(n) <==> (mid.contains(n) || sv.take(k as int).contains(n)) by {
                    assert(string_views(r@).contains(n) <==> (mid.contains(n) || sv.take(k_old + 1).contains(n)));
                }
            }
            assert(sv.take(notes.len() as int) =~= sv);
        }
        assert forall|n: Seq<char>| string_views(r@).contains(n) <==> side_note(cv.take(i + 1), side, n) by {
            lemma_side_note_step(cv, i as int, side, n);
            assert(before.contains(n) <==> side_note(cv.take(i as int), side, n));
        }
        let ghost i_old = i;
        i += 1;
        assert forall|n: Seq<char>| string_views(r@).contains(n) <==> side_note(cv.take(i as int), side, n) by {
            assert(string_views(r@).contains(n) <==> side_note(cv.take(i_old + 1), side, n));
        }
    }
    assert(cv.take(cs.len() as int) =~= cv);
    proof {
        let w = sorted_notes(cv, side);
        lemma_str_order();
        lemma_sorted_unique(|x: Seq<char>, y: Seq<char>| str_compare(x, y), string_views(r@), w);
    }
    r
}

proof fn lemma_line_len_is(s: Seq<char>, m: int)
    requires
        0 < m <= s.len(),
        forall|k: int| 0 <= k < m - 1 ==> s[k] != '\n',
        s[m - 1] == '\n' || m == s.len(),
    ensures
        line_len(s) == m,
{
    lemma_line_len(s);
    let l = line_len(s);
    if l < m {
        assert(s[l - 1] != '\n');
        assert(l == s.len());
    } else if l > m {
        assert(s[m - 1] != '\n');
    }
}

fn range_is(cs: &Vec<char>, from: usize, to: usize, p: &Vec<char>, at_start: bool) -> (r: bool)
    requires
        from <= to <= cs@.len(),
    ensures
        r == if at_start {
            starts_with(cs@.subrange(from as int, to as int), p@)
        } else {
            ends_with(cs@.subrange(from as int, to as int), p@)
        },
{
    reveal(starts_with);
    reveal(ends_with);
    let ghost body = cs@.subrange(from as int, to as int);
    if p.len() > to - from {
        return false;
    }
    let start = if at_start {
        from
    } else {
        to - p.len()
    };
    let mut k: usize = 0;
    while k < p.len()
        invariant
            k <= p.len(),
            body == cs@.subrange(from as int, to as int),
            p.len() <= to - from,
            from <= start,
            start + p.len() <= to,
            to <= cs@.len(),
            at_start ==> start == from,
            !at_start ==> start == to - p.len(),
            forall|m: int| 0 <= m < k ==> cs@[start + m] == p@[m],
        decreases p.len() - k,
    {
        if cs[start + k] != p[k] {
            proof {
                reveal(starts_with);
                reveal(ends_with);
                if at_start {
                    assert(body.subrange(0, p@.len() as int)[k as int] == cs@[start + k]);
                } else {
                    assert(body.subrange(body.len() - p@.len(), body.len() as int)[k as int] == cs@[start + k]);
                }
            }
            return false;
        }
        k += 1;
    }
    proof {
        reveal(starts_with);
        reveal(ends_with);
        if at_start {
            assert(body.subrange(0, p@.len() as int) =~= p@);
        } else {
            assert(body.subrange(body.len() - p@.len(), body.len() as int) =~= p@);
        }
    }
    true
}

fn append_chars(r: &mut String, cs: &Vec<char>)
    ensures
        final(r)@ == old(r)@ + cs@,
{
    let mut k: usize = 0;
    while k < cs.len()
        invariant
            k <= cs.len(),
            r@ == old(r)@ + cs@.take(k as int),
        decreases cs.len() - k,
    {
        push_char(r, cs[k]);
        assert(cs@.take(k + 1) =~= cs@.take(k as int).push(cs@[k as int]));
        k += 1;
    }
    assert(cs@.take(cs.len() as int) =~= cs@);
}

fn suffix_text(notes: &Vec<String>) -> (r: String)
    ensures
        r@ == if string_views(notes@).len() == 0 {
            seq![]
        } else {
            " | 文件关联 [analyze]："@ + join(string_views(notes@), "；"@)
        },
{
    if notes.len() == 0 {
        assert(string_views(notes@).len() == 0);
        return String::new();
    }
    let mut s = String::from_str(" | 文件关联 [analyze]：");
    s.append(join_strings(notes, "；").as_str());
    s
}

fn marker_chars(c: char, width: usize) -> (r: Vec<char>)
    ensures
        r@ == marker_start(c, width as nat),
{
    let mut s = String::new();
    append_repeat(&mut s, c, width);
    s.append(" ⎇ ");
    chars_of(s.as_str())
}

/// What one line gives: its body, the suffixes it gains and its ending, and
/// whether each side's marker has been met.
#[verifier::opaque]
pub open spec fn line_out(
    body: Seq<char>,
    has_nl: bool,
    crlf: bool,
    op: Seq<char>,
    tp: Seq<char>,
    os: Seq<char>,
    ts: Seq<char>,
    so: bool,
    st: bool,
) -> (Seq<char>, bool, bool) {
    let hit_ours = !so && starts_with(body, op);
    let hit_theirs = !st && starts_with(body, tp);
    (
        body + (if hit_ours && !ends_with(body, os) {
            os
        } else {
            seq![]
        }) + (if hit_theirs && !ends_with(body, ts) {
            ts
        } else {
            seq![]
        }) + (if crlf {
            "\r\n"@
        } else if has_nl {
            "\n"@
        } else {
            seq![]
        }),
        so || hit_ours,
        st || hit_theirs,
    )
}

/// One step of `annotated`: the first line of `s`, split into its body of
/// `body_len` characters and its ending.
proof fn lemma_annotate_line(
    s: Seq<char>,
    n: int,
    body_len: int,
    has_nl: bool,
    crlf: bool,
    op: Seq<char>,
    tp: Seq<char>,
    os: Seq<char>,
    ts: Seq<char>,
    so: bool,
    st: bool,
)
    requires
        0 < n <= s.len(),
        line_len(s) == n,
        has_nl == (s[n - 1] == '\n'),
        crlf == (has_nl && n >= 2 && s[n - 2] == '\r'),
        body_len == n - (if has_nl { 1int } else { 0int }) - (if crlf { 1int } else { 0int }),
    ensures
        annotated(s, op, tp, os, ts, so, st) == line_out(s.take(body_len), has_nl, crlf, op, tp, os, ts, so, st).0
            + annotated(
            s.skip(n),
            op,
            tp,
            os,
            ts,
            line_out(s.take(body_len), has_nl, crlf, op, tp, os, ts, so, st).1,
            line_out(s.take(body_len), has_nl, crlf, op, tp, os, ts, so, st).2,
        ),
{
    reveal(annotated);
    reveal(line_out);
    let line = s.take(n);
    assert(line.len() > 0 && line.last() == s[n - 1]);
    let body0 = if has_nl { line.drop_last() } else { line };
    if crlf {
        assert(body0.last() == s[n - 2]);
        assert(body0.drop_last() =~= s.take(body_len));
    } else if has_nl {
        assert(body0 =~= s.take(body_len));
        if body0.len() > 0 {
            assert(body0.last() == s[n - 2]);
        }
    } else {
        assert(body0 =~= s.take(body_len));
    }
}

fn line_bounds(cs: &Vec<char>, i: usize) -> (r: (usize, usize, bool, bool))
    requires
        i < cs@.len(),
    ensures
        i < r.0 <= cs@.len(),
        line_len(cs@.skip(i as int)) == r.0 - i,
        r.2 == (cs@[r.0 - 1] == '\n'),
        r.3 == (r.2 && r.0 - i >= 2 && cs@[r.0 - 2] == '\r'),
        r.1 == r.0 - (if r.2 { 1int } else { 0int }) - (if r.3 { 1int } else { 0int }),
{
    let ghost rest = cs@.skip(i as int);
    let mut e = i;
    while e < cs.len() && cs[e] != '\n'
        invariant
            i <= e <= cs.len(),
            forall|k: int| i <= k < e ==> cs@[k] != '\n',
        decreases cs.len() - e,
    {
        e += 1;
    }
    let end = if e < cs.len() {
        e + 1
    } else {
        e
    };
    proof {
        assert forall|k: int| 0 <= k < end - i - 1 implies rest[k] != '\n' by {
            assert(rest[k] == cs@[i + k]);
        }
        assert(rest[end - i - 1] == cs@[end - 1]);
        lemma_line_len_is(rest, end - i);
    }
    let has_nl = e < cs.len();
    let crlf = has_nl && end - i >= 2 && cs[end - 2] == '\r';
    let body_end = if crlf {
        end - 2
    } else if has_nl {
        end - 1
    } else {
        end
    };
    (end, body_end, has_nl, crlf)
}

proof fn lemma_line_step(
    cs: Seq<char>,
    i: int,
    end: int,
    body_end: int,
    has_nl: bool,
    crlf: bool,
    op: Seq<char>,
    tp: Seq<char>,
    os: Seq<char>,
    ts: Seq<char>,
    so: bool,
    st: bool,
)
    requires
        0 <= i < end <= cs.len(),
        line_len(cs.skip(i)) == end - i,
        has_nl == (cs[end - 1] == '\n'),
        crlf == (has_nl && end - i >= 2 && cs[end - 2] == '\r'),
        body_end == end - (if has_nl { 1int } else { 0int }) - (if crlf { 1int } else { 0int }),
    ensures
        annotated(cs.skip(i), op, tp, os, ts, so, st) == line_out(cs.subrange(i, body_end), has_nl, crlf, op, tp, os, ts, so, st).0
            + annotated(
            cs.skip(end),
            op,
            tp,
            os,
            ts,
            line_out(cs.subrange(i, body_end), has_nl, crlf, op, tp, os, ts, so, st).1,
            line_out(cs.subrange(i, body_end), has_nl, crlf, op, tp, os, ts, so, st).2,
        ),
{
    let rest = cs.skip(i);
    let n = end - i;
    assert(rest[n - 1] == cs[end - 1]);
    if n >= 2 {
        assert(rest[n - 2] == cs[end - 2]);
    }
    lemma_annotate_line(rest, n, body_end - i, has_nl, crlf, op, tp, os, ts, so, st);
    assert(rest.take(body_end - i) =~= cs.subrange(i, body_end));
    assert(rest.skip(n) =~= cs.skip(end));
}

fn emit_line(
    result: &mut String,
    cs: &Vec<char>,
    i: usize,
    body_end: usize,
    ours_suffix: &Vec<char>,
    theirs_suffix: &Vec<char>,
    add_ours: bool,
    add_theirs: bool,
    crlf: bool,
    has_nl: bool,
)
    requires
        i <= body_end <= cs@.len(),
    ensures
        final(result)@ == old(result)@ + cs@.subrange(i as int, body_end as int) + (if add_ours {
            ours_suffix@
        } else {
            Seq::<char>::empty()
        }) + (if add_theirs {
            theirs_suffix@
        } else {
            Seq::<char>::empty()
        }) + (if crlf {
            "\r\n"@
        } else if has_nl {
            "\n"@
        } else {
            Seq::<char>::empty()
        }),
{
    let ghost before = result@;
    append_range(result, cs, i, body_end);
    let ghost a = result@;
    if add_ours {
        append_chars(result, ours_suffix);
    }
    let ghost b = result@;
    if add_theirs {
        append_chars(result, theirs_suffix);
    }
    let ghost c = result@;
    if crlf {
        result.append("\r\n");
    } else if has_nl {
        result.append("\n");
    }
    proof {
        let body = cs@.subrange(i as int, body_end as int);
        let ending = if crlf { "\r\n"@ } else if has_nl { "\n"@ } else { Seq::<char>::empty() };
        let a1 = if add_ours { ours_suffix@ } else { Seq::<char>::empty() };
        let a2 = if add_theirs { theirs_suffix@ } else { Seq::<char>::empty() };
        assert(a == before + body);
        assert(b =~= a + a1);
        assert(c =~= b + a2);
        assert(result@ =~= c + ending);
        assert(result@ =~= before + body + a1 + a2 + ending);
    }
}

#[verifier::spinoff_prover]
#[verifier::rlimit(40)]
fn annotate_line(
    cs: &Vec<char>,
    i: usize,
    ours_prefix: &Vec<char>,
    theirs_prefix: &Vec<char>,
    ours_suffix: &Vec<char>,
    theirs_suffix: &Vec<char>,
    seen_ours: bool,
    seen_theirs: bool,
    result: &mut String,
) -> (r: (usize, bool, bool))
    requires
        i < cs@.len(),
    ensures
        i < r.0 <= cs@.len(),
        final(result)@ + annotated(cs@.skip(r.0 as int), ours_prefix@, theirs_prefix@, ours_suffix@, theirs_suffix@, r.1, r.2)
            == old(result)@ + annotated(cs@.skip(i as int), ours_prefix@, theirs_prefix@, ours_suffix@, theirs_suffix@, seen_ours, seen_theirs),
{
    let ghost (op, tp, os, ts) = (ours_prefix@, theirs_prefix@, ours_suffix@, theirs_suffix@);
    let ghost rest = cs@.skip(i as int);
    let (end, body_end, has_nl, crlf) = line_bounds(cs, i);
    proof {
        lemma_line_step(cs@, i as int, end as int, body_end as int, has_nl, crlf, op, tp, os, ts, seen_ours, seen_theirs);
    }
    let hit_ours = !seen_ours && range_is(cs, i, body_end, ours_prefix, true);
    let hit_theirs = !seen_theirs && range_is(cs, i, body_end, theirs_prefix, true);
    let add_ours = hit_ours && !range_is(cs, i, body_end, ours_suffix, false);
    let add_theirs = hit_theirs && !range_is(cs, i, body_end, theirs_suffix, false);
    emit_line(result, cs, i, body_end, ours_suffix, theirs_suffix, add_ours, add_theirs, crlf, has_nl);
    proof {
        let body = cs@.subrange(i as int, body_end as int);
        let ending = if crlf { "\r\n"@ } else if has_nl { "\n"@ } else { Seq::<char>::empty() };
        let a1 = if add_ours { os } else { Seq::<char>::empty() };
        let a2 = if add_theirs { ts } else { Seq::<char>::empty() };
        let out = line_out(body, has_nl, crlf, op, tp, os, ts, seen_ours, seen_theirs);
        assert(out == (body + a1 + a2 + ending, seen_ours || hit_ours, seen_theirs || hit_theirs)) by {
            reveal(line_out);
        }
        let tail = annotated(cs@.skip(end as int), op, tp, os, ts, out.1, out.2);
        assert(annotated(rest, op, tp, os, ts, seen_ours, seen_theirs) == out.0 + tail);
        assert(result@ == old(result)@ + out.0);
        assert(result@ + tail =~= old(result)@ + (out.0 + tail));
    }
    (end, seen_ours || hit_ours, seen_theirs || hit_theirs)
}

// ---------------------------------------------------------------------------
// Laws of the move notes.
// ---------------------------------------------------------------------------

pub open spec fn line_ending(has_nl: bool, crlf: bool) -> Seq<char> {
    if crlf {
        "\r\n"@
    } else if has_nl {
        "\n"@
    } else {
        seq![]
    }
}

/// The first line of a text that is not empty: its length with its ending,
/// whether it ends with a line feed, whether that ending is CRLF, and the
/// length of its body.
proof fn lemma_first_line(s: Seq<char>) -> (r: (int, bool, bool, int))
    requires
        s.len() > 0,
    ensures
        0 < r.0 <= s.len(),
        line_len(s) == r.0,
        r.1 == (s[r.0 - 1] == '\n'),
        r.2 == (r.1 && r.0 >= 2 && s[r.0 - 2] == '\r'),
        r.3 == r.0 - (if r.1 { 1int } else { 0int }) - (if r.2 { 1int } else { 0int }),
        0 <= r.3,
        !r.1 ==> r.0 == s.len() && r.3 > 0,
        !s.take(r.3).contains('\n'),
        r.1 && !r.2 && r.3 > 0 ==> s[r.3 - 1] != '\r',
        s.take(r.0) == s.take(r.3) + line_ending(r.1, r.2),
{
    lemma_line_len(s);
    let n = line_len(s);
    let nl = s[n - 1] == '\n';
    let cr = nl && n >= 2 && s[n - 2] == '\r';
    let bl = n - (if nl { 1int } else { 0int }) - (if cr { 1int } else { 0int });
    reveal_strlit("\r\n");
    reveal_strlit("\n");
    assert(!s.take(bl).contains('\n')) by {
        if s.take(bl).contains('\n') {
            let k = choose|k: int| 0 <= k < s.take(bl).len() && s.take(bl)[k] == '\n';
            assert(s[k] == '\n');
        }
    }
    if cr {
        assert(s.take(n) =~= s.take(bl) + "\r\n"@);
    } else if nl {
        assert(s.take(n) =~= s.take(bl) + "\n"@);
    } else {
        assert(s.take(n) =~= s.take(bl) + Seq::<char>::empty());
    }
    (n, nl, cr, bl)
}

/// Without notes, annotating changes nothing.
proof fn lemma_annotated_plain(s: Seq<char>, op: Seq<char>, tp: Seq<char>, so: bool, st: bool)
    ensures
        annotated(s, op, tp, Seq::<char>::empty(), Seq::<char>::empty(), so, st) == s,
    decreases s.len(),
{
    let e = Seq::<char>::empty();
    if s.len() == 0 {
        reveal(annotated);
    } else {
        let (n, nl, cr, bl) = lemma_first_line(s);
        lemma_annotate_line(s, n, bl, nl, cr, op, tp, e, e, so, st);
        let body = s.take(bl);
        let lo = line_out(body, nl, cr, op, tp, e, e, so, st);
        reveal(line_out);
        reveal(ends_with);
        assert(body.subrange(body.len() as int, body.len() as int) =~= e);
        assert(ends_with(body, e));
        assert(lo.0 =~= body + line_ending(nl, cr));
        lemma_annotated_plain(s.skip(n), op, tp, lo.1, lo.2);
        assert(s.take(n) + s.skip(n) =~= s);
    }
}

/// A note that can be appended to a line: no line feed, no final `\r`.
pub open spec fn plain_suffix(x: Seq<char>) -> bool {
    !x.contains('\n') && (x.len() == 0 || x.last() != '\r')
}

/// No line starts with both markers.
pub open spec fn distinct_markers(op: Seq<char>, tp: Seq<char>) -> bool {
    op.len() > 0 && tp.len() > 0 && op[0] != tp[0]
}

proof fn lemma_concat_no_newline(a: Seq<char>, b: Seq<char>)
    requires
        !a.contains('\n'),
        !b.contains('\n'),
    ensures
        !(a + b).contains('\n'),
{
    if (a + b).contains('\n') {
        let k = choose|k: int| 0 <= k < (a + b).len() && (a + b)[k] == '\n';
        if k < a.len() {
            assert(a.contains(a[k]));
        } else {
            assert(b.contains(b[k - a.len()]));
        }
    }
}

proof fn lemma_starts_extend(body: Seq<char>, x: Seq<char>, p: Seq<char>)
    requires
        starts_with(body, p),
    ensures
        starts_with(body + x, p),
{
    reveal(starts_with);
    assert((body + x).subrange(0, p.len() as int) =~= body.subrange(0, p.len() as int));
}

proof fn lemma_starts_first(b: Seq<char>, p: Seq<char>)
    requires
        starts_with(b, p),
        p.len() > 0,
    ensures
        b.len() > 0 && b[0] == p[0],
{
    reveal(starts_with);
    assert(b.subrange(0, p.len() as int)[0] == b[0]);
}

proof fn lemma_ends_added(body: Seq<char>, x: Seq<char>)
    ensures
        ends_with(body + x, x),
{
    reveal(ends_with);
    assert((body + x).subrange((body + x).len() - x.len(), (body + x).len() as int) =~= x);
}

/// Annotating an annotated text changes nothing more.
proof fn lemma_annotated_twice(
    s: Seq<char>,
    op: Seq<char>,
    tp: Seq<char>,
    os: Seq<char>,
    ts: Seq<char>,
    so: bool,
    st: bool,
)
    requires
        plain_suffix(os),
        plain_suffix(ts),
        distinct_markers(op, tp),
    ensures
        annotated(annotated(s, op, tp, os, ts, so, st), op, tp, os, ts, so, st) == annotated(s, op, tp, os, ts, so, st),
    decreases s.len(),
{
    if s.len() == 0 {
        reveal(annotated);
        return;
    }
    let (n, nl, cr, bl) = lemma_first_line(s);
    let body = s.take(bl);
    lemma_annotate_line(s, n, bl, nl, cr, op, tp, os, ts, so, st);
    let lo = line_out(body, nl, cr, op, tp, os, ts, so, st);
    let hit_o = !so && starts_with(body, op);
    let hit_t = !st && starts_with(body, tp);
    let ao = if hit_o && !ends_with(body, os) { os } else { Seq::<char>::empty() };
    let at = if hit_t && !ends_with(body, ts) { ts } else { Seq::<char>::empty() };
    let b2 = body + ao + at;
    let e = line_ending(nl, cr);
    reveal(line_out);
    assert(lo.0 == b2 + e);
    assert(lo.1 == (so || hit_o) && lo.2 == (st || hit_t));
    let rest = annotated(s.skip(n), op, tp, os, ts, lo.1, lo.2);
    let out = annotated(s, op, tp, os, ts, so, st);
    assert(out == b2 + e + rest);
    // Both markers cannot start one line.
    if hit_o && hit_t {
        lemma_starts_first(body, op);
        lemma_starts_first(body, tp);
    }
    // The annotated line holds no line feed and keeps its ending.
    assert(!Seq::<char>::empty().contains('\n'));
    lemma_concat_no_newline(body, ao);
    lemma_concat_no_newline(body + ao, at);
    assert(b2.len() >= bl);
    if !nl {
        assert(s.skip(n).len() == 0);
        reveal(annotated);
        assert(rest.len() == 0);
    }
    reveal_strlit("\r\n");
    reveal_strlit("\n");
    let n2: int = (b2.len() + e.len()) as int;
    assert(out.take(n2) =~= b2 + e);
    assert(out.skip(n2) =~= rest);
    assert(out.take(b2.len() as int) =~= b2);
    assert forall|k: int| 0 <= k < n2 - 1 implies out[k] != '\n' by {
        if k < b2.len() {
            assert(out[k] == b2[k]);
            assert(b2.contains(b2[k]));
        } else {
            assert(cr);
            assert(out[k] == '\r');
        }
    }
    if nl {
        assert(out[n2 - 1] == '\n');
    } else {
        assert(n2 == out.len());
    }
    lemma_line_len_is(out, n2);
    assert((out[n2 - 1] == '\n') == nl);
    if nl && !cr && b2.len() > 0 {
        assert(out[n2 - 2] == b2.last());
        if at.len() > 0 {
            assert(b2.last() == ts.last());
        } else if ao.len() > 0 {
            assert(b2.last() == os.last());
        } else {
            assert(b2.last() == s[bl - 1]);
        }
    }
    if cr {
        assert(out[n2 - 2] == '\r');
    }
    let cr2 = nl && n2 >= 2 && out[n2 - 2] == '\r';
    assert(cr2 == cr);
    lemma_annotate_line(out, n2, b2.len() as int, nl, cr, op, tp, os, ts, so, st);
    // The second pass finds the same marker lines and adds nothing.
    if hit_o {
        lemma_starts_extend(body, ao + at, op);
        assert(body + ao + at =~= body + (ao + at));
        lemma_starts_first(body, op);
        if ao.len() > 0 {
            lemma_ends_added(body, os);
        }
    } else if hit_t {
        lemma_starts_extend(body, ao + at, tp);
        assert(body + ao + at =~= body + (ao + at));
        lemma_starts_first(body, tp);
        if at.len() > 0 {
            lemma_ends_added(body, ts);
        }
    }
    if !so && starts_with(b2, op) && !hit_o {
        lemma_starts_first(b2, op);
        if hit_t {
            lemma_starts_first(body, tp);
            assert(b2[0] == body[0]);
        }
    }
    if !st && starts_with(b2, tp) && !hit_t {
        lemma_starts_first(b2, tp);
        if hit_o {
            lemma_starts_first(body, op);
            assert(b2[0] == body[0]);
        }
    }
    let lo2 = line_out(b2, nl, cr, op, tp, os, ts, so, st);
    assert(lo2.1 == lo.1 && lo2.2 == lo.2);
    assert(lo2.0 =~= b2 + e);
    lemma_annotated_twice(s.skip(n), op, tp, os, ts, lo.1, lo.2);
}

proof fn lemma_count_concat(a: Seq<char>, b: Seq<char>)
    ensures
        newline_count(a + b) == newline_count(a) + newline_count(b),
    decreases b.len(),
{
    if b.len() > 0 {
        assert((a + b).drop_last() =~= a + b.drop_last());
        lemma_count_concat(a, b.drop_last());
    } else {
        assert(a + b =~= a);
    }
}

proof fn lemma_count_none(a: Seq<char>)
    requires
        !a.contains('\n'),
    ensures
        newline_count(a) == 0,
    decreases a.len(),
{
    if a.len() > 0 {
        assert(a.contains(a[a.len() - 1]));
        assert(!a.drop_last().contains('\n')) by {
            if a.drop_last().contains('\n') {
                let k = choose|k: int| 0 <= k < a.drop_last().len() && a.drop_last()[k] == '\n';
                assert(a[k] == '\n');
            }
        }
        lemma_count_none(a.drop_last());
    }
}

/// Annotating keeps every line feed: each line keeps its one ending and the
/// notes it gains hold none.
proof fn lemma_annotated_lines(
    s: Seq<char>,
    op: Seq<char>,
    tp: Seq<char>,
    os: Seq<char>,
    ts: Seq<char>,
    so: bool,
    st: bool,
)
    requires
        !os.contains('\n'),
        !ts.contains('\n'),
    ensures
        newline_count(annotated(s, op, tp, os, ts, so, st)) == newline_count(s),
    decreases s.len(),
{
    if s.len() == 0 {
        reveal(annotated);
        return;
    }
    let (n, nl, cr, bl) = lemma_first_line(s);
    let body = s.take(bl);
    lemma_annotate_line(s, n, bl, nl, cr, op, tp, os, ts, so, st);
    let lo = line_out(body, nl, cr, op, tp, os, ts, so, st);
    let hit_o = !so && starts_with(body, op);
    let hit_t = !st && starts_with(body, tp);
    let ao = if hit_o && !ends_with(body, os) { os } else { Seq::<char>::empty() };
    let at = if hit_t && !ends_with(body, ts) { ts } else { Seq::<char>::empty() };
    let b2 = body + ao + at;
    let e = line_ending(nl, cr);
    reveal(line_out);
    assert(lo.0 == b2 + e);
    assert(!Seq::<char>::empty().contains('\n'));
    lemma_concat_no_newline(body, ao);
    lemma_concat_no_newline(body + ao, at);
    lemma_count_none(b2);
    lemma_count_none(body);
    let rest = annotated(s.skip(n), op, tp, os, ts, lo.1, lo.2);
    lemma_annotated_lines(s.skip(n), op, tp, os, ts, lo.1, lo.2);
    lemma_count_concat(b2, e);
    lemma_count_concat(b2 + e, rest);
    lemma_count_concat(body, e);
    lemma_count_concat(body + e, s.skip(n));
    assert(s =~= body + e + s.skip(n)) by {
        assert(s.take(n) + s.skip(n) =~= s);
    }
}

/// Whether a text ends inside a line: it is not empty and does not end with
/// a line feed.
pub open spec fn open_tail(s: Seq<char>) -> nat {
    if s.len() > 0 && s.last() != '\n' {
        1
    } else {
        0
    }
}

proof fn lemma_count_front(s: Seq<char>)
    requires
        s.len() > 0,
    ensures
        newline_count(s) == (if s[0] == '\n' { 1nat } else { 0nat }) + newline_count(s.skip(1)),
{
    let h = seq![s[0]];
    assert(s =~= h + s.skip(1));
    lemma_count_concat(h, s.skip(1));
    assert(h.drop_last() =~= Seq::<char>::empty());
    assert(newline_count(h.drop_last()) == 0);
    assert(h.last() == s[0]);
    assert(newline_count(h) == if s[0] == '\n' { 1nat } else { 0nat });
}

proof fn lemma_lines_from_len(s: Seq<char>, cur: Seq<char>, acc: Seq<Seq<char>>)
    ensures
        crate::text::lines_from(s, cur, acc).len() == acc.len() + newline_count(s) + if s.len() == 0 {
            if cur.len() > 0 { 1nat } else { 0nat }
        } else {
            open_tail(s)
        },
    decreases s.len(),
{
    if s.len() > 0 {
        lemma_count_front(s);
        let r = s.skip(1);
        if s[0] == '\n' {
            lemma_lines_from_len(r, seq![], acc.push(crate::text::strip_cr(cur)));
        } else {
            lemma_lines_from_len(r, cur.push(s[0]), acc);
        }
        if r.len() > 0 {
            assert(r.last() == s.last());
        }
    }
}

/// `str::lines` counts each line feed, and one more for a last line without one.
pub proof fn lemma_lines_count(s: Seq<char>)
    ensures
        crate::text::lines_of(s).len() == newline_count(s) + open_tail(s),
{
    lemma_lines_from_len(s, seq![], seq![]);
}

/// Annotating keeps whether the text ends inside a line.
proof fn lemma_annotated_tail(
    s: Seq<char>,
    op: Seq<char>,
    tp: Seq<char>,
    os: Seq<char>,
    ts: Seq<char>,
    so: bool,
    st: bool,
)
    requires
        !os.contains('\n'),
        !ts.contains('\n'),
    ensures
        open_tail(annotated(s, op, tp, os, ts, so, st)) == open_tail(s),
        annotated(s, op, tp, os, ts, so, st).len() == 0 <==> s.len() == 0,
    decreases s.len(),
{
    if s.len() == 0 {
        reveal(annotated);
        return;
    }
    let (n, nl, cr, bl) = lemma_first_line(s);
    let body = s.take(bl);
    lemma_annotate_line(s, n, bl, nl, cr, op, tp, os, ts, so, st);
    let lo = line_out(body, nl, cr, op, tp, os, ts, so, st);
    let hit_o = !so && starts_with(body, op);
    let hit_t = !st && starts_with(body, tp);
    let ao = if hit_o && !ends_with(body, os) { os } else { Seq::<char>::empty() };
    let at = if hit_t && !ends_with(body, ts) { ts } else { Seq::<char>::empty() };
    let b2 = body + ao + at;
    let e = line_ending(nl, cr);
    reveal(line_out);
    assert(lo.0 == b2 + e);
    assert(!Seq::<char>::empty().contains('\n'));
    lemma_concat_no_newline(body, ao);
    lemma_concat_no_newline(body + ao, at);
    let rest = annotated(s.skip(n), op, tp, os, ts, lo.1, lo.2);
    lemma_annotated_tail(s.skip(n), op, tp, os, ts, lo.1, lo.2);
    let out = b2 + e + rest;
    reveal_strlit("\r\n");
    reveal_strlit("\n");
    if s.skip(n).len() > 0 {
        assert(out.last() == rest.last());
        assert(s.last() == s.skip(n).last());
    } else {
        assert(rest.len() == 0);
        assert(out =~= b2 + e);
        assert(s.last() == s[n - 1]);
        if nl {
            assert(out.last() == '\n');
        } else {
            assert(b2.len() > 0);
            assert(out.last() == b2.last());
            assert(b2.contains(b2.last()));
            assert(s[n - 1] == body[bl - 1]);
        }
    }
}

/// A side's marker is noted only for the moves that concern that side: a
/// candidate's own note for its own side, and the counterparts it lists for
/// the other side. So where no candidate is of `side` and none lists a
/// counterpart, the marker of `side` gains nothing.
pub proof fn law_notes_follow_sides(cs: Seq<MoveEvidenceView>, side: Side)
    ensures
        (forall|i: int| 0 <= i < cs.len() ==> (#[trigger] cs[i]).side != side && cs[i].opposite_moves.len() == 0)
            ==> note_suffix(cs, side) == Seq::<char>::empty(),
        forall|n: Seq<char>|
            #[trigger] side_note(cs, side, n) ==> exists|i: int|
                0 <= i < cs.len() && ((#[trigger] cs[i].side == side && n == move_note(
                    cs[i].base,
                    cs[i].target,
                    cs[i].matched_by,
                )) || (cs[i].side != side && exists|j: int|
                    0 <= j < cs[i].opposite_moves.len() && n == move_note(
                        cs[i].base,
                        #[trigger] cs[i].opposite_moves[j].target,
                        cs[i].opposite_moves[j].matched_by,
                    ))),
{
    assert forall|n: Seq<char>| #[trigger] side_note(cs, side, n) implies exists|i: int|
        0 <= i < cs.len() && ((#[trigger] cs[i].side == side && n == move_note(
            cs[i].base,
            cs[i].target,
            cs[i].matched_by,
        )) || (cs[i].side != side && exists|j: int|
            0 <= j < cs[i].opposite_moves.len() && n == move_note(
                cs[i].base,
                #[trigger] cs[i].opposite_moves[j].target,
                cs[i].opposite_moves[j].matched_by,
            ))) by {
        let i = choose|i: int| 0 <= i < cs.len() && note_of(#[trigger] cs[i], side, n);
        let c = cs[i];
        if !(c.side == side && n == move_note(c.base, c.target, c.matched_by)) {
            assert(side_opposite(c.side) == side && opposite_notes(c).contains(n));
            let j = choose|j: int| 0 <= j < opposite_notes(c).len() && opposite_notes(c)[j] == n;
            assert(c.side != side) by {
                if c.side == side {
                    assert(side_opposite(c.side) != c.side);
                }
            }
            assert(n == move_note(c.base, c.opposite_moves[j].target, c.opposite_moves[j].matched_by));
        }
    }
    if forall|i: int| 0 <= i < cs.len() ==> (#[trigger] cs[i]).side != side && cs[i].opposite_moves.len() == 0 {
        let empty: Seq<Seq<char>> = Seq::empty();
        assert(strs_sorted(empty));
        assert forall|n: Seq<char>| !side_note(cs, side, n) by {
            if side_note(cs, side, n) {
                let i = choose|i: int| 0 <= i < cs.len() && note_of(#[trigger] cs[i], side, n);
                assert(opposite_notes(cs[i]).len() == 0);
            }
        }
        assert(forall|n: Seq<char>| #[trigger] empty.contains(n) <==> side_note(cs, side, n));
        let s = sorted_notes(cs, side);
        if s.len() > 0 {
            assert(s.contains(s[0]));
        }
    }
}

/// The laws of the move notes: without candidates the content is unchanged;
/// noting keeps every line feed and so every line; and noting a noted text again changes
/// nothing, where markers have a width and no note holds a line feed or ends
/// with `\r`.
pub proof fn law_move_notes(content: Seq<char>, cs: Seq<MoveEvidenceView>, width: nat)
    ensures
        annotate_spec(content, Seq::empty(), width) == content,
        (!note_suffix(cs, Side::Ours).contains('\n') && !note_suffix(cs, Side::Theirs).contains('\n'))
            ==> newline_count(annotate_spec(content, cs, width)) == newline_count(content)
            && crate::text::lines_of(annotate_spec(content, cs, width)).len() == crate::text::lines_of(content).len(),
        (width > 0 && plain_suffix(note_suffix(cs, Side::Ours)) && plain_suffix(note_suffix(cs, Side::Theirs)))
            ==> annotated(
            annotate_spec(content, cs, width),
            marker_start('<', width),
            marker_start('>', width),
            note_suffix(cs, Side::Ours),
            note_suffix(cs, Side::Theirs),
            false,
            false,
        ) == annotate_spec(content, cs, width),
{
    let none = Seq::<MoveEvidenceView>::empty();
    let empty: Seq<Seq<char>> = Seq::empty();
    assert(strs_sorted(empty));
    assert forall|side: Side| #[trigger] note_suffix(none, side) == Seq::<char>::empty() by {
        assert(forall|n: Seq<char>| !side_note(none, side, n));
        assert(forall|n: Seq<char>| #[trigger] empty.contains(n) <==> side_note(none, side, n));
        let s = sorted_notes(none, side);
        if s.len() > 0 {
            assert(s.contains(s[0]));
        }
    }
    lemma_annotated_plain(content, marker_start('<', width), marker_start('>', width), false, false);
    if !note_suffix(cs, Side::Ours).contains('\n') && !note_suffix(cs, Side::Theirs).contains('\n') {
        lemma_annotated_lines(
            content,
            marker_start('<', width),
            marker_start('>', width),
            note_suffix(cs, Side::Ours),
            note_suffix(cs, Side::Theirs),
            false,
            false,
        );
        lemma_annotated_tail(
            content,
            marker_start('<', width),
            marker_start('>', width),
            note_suffix(cs, Side::Ours),
            note_suffix(cs, Side::Theirs),
            false,
            false,
        );
        lemma_lines_count(content);
        lemma_lines_count(annotate_spec(content, cs, width));
    }
    if width > 0 && plain_suffix(note_suffix(cs, Side::Ours)) && plain_suffix(note_suffix(cs, Side::Theirs)) {
        assert(marker_start('<', width)[0] == '<');
        assert(marker_start('>', width)[0] == '>');
        lemma_annotated_twice(
            content,
            marker_start('<', width),
            marker_start('>', width),
            note_suffix(cs, Side::Ours),
            note_suffix(cs, Side::Theirs),
            false,
            false,
        );
    }
}

/// Appends the file-level move notes to the first marker line of each side
/// that the notes concern. Source text, hunk boundaries and reasons stay as
/// they are; a line that already ends with its note is not noted twice.
pub fn annotate_moves(content: &str, candidates: &[MoveEvidence], width: usize) -> (r: String)
    ensures
        r@ == annotate_spec(content@, candidates@.map_values(|c: MoveEvidence| c@), width as nat),
{
    let ours_suffix = chars_of(suffix_text(&notes_of(candidates, Side::Ours)).as_str());
    let theirs_suffix = chars_of(suffix_text(&notes_of(candidates, Side::Theirs)).as_str());
    let ours_prefix = marker_chars('<', width);
    let theirs_prefix = marker_chars('>', width);
    let ghost (op, tp, os, ts) = (ours_prefix@, theirs_prefix@, ours_suffix@, theirs_suffix@);
    let cs = chars_of(content);
    let mut result = String::new();
    let mut seen_ours = false;
    let mut seen_theirs = false;
    let mut i: usize = 0;
    assert(cs@.skip(0) =~= cs@);
    while i < cs.len()
        invariant
            i <= cs.len(),
            cs@ == content@,
            op == ours_prefix@ && tp == theirs_prefix@ && os == ours_suffix@ && ts == theirs_suffix@,
            result@ + annotated(cs@.skip(i as int), op, tp, os, ts, seen_ours, seen_theirs) == annotated(
                cs@,
                op,
                tp,
                os,
                ts,
                false,
                false,
            ),
        decreases cs.len() - i,
    {
        let (next, so, st) = annotate_line(&cs, i, &ours_prefix, &theirs_prefix, &ours_suffix, &theirs_suffix, seen_ours, seen_theirs, &mut result);
        seen_ours = so;
        seen_theirs = st;
        i = next;
    }
    assert(annotated(cs@.skip(i as int), op, tp, os, ts, seen_ours, seen_theirs) == Seq::<char>::empty()) by {
        reveal(annotated);
    }
    assert(result@ + Seq::<char>::empty() =~= result@);
    result
}

} // verus!
