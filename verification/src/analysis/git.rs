//! Read-only Git tree inputs: the listing of a tree, and which of its
//! entries a text snapshot can hold. Git is run by the caller.
use vstd::prelude::*;
use vstd::string::StringExecFns;
use vstd::utf8::{decode_utf8, valid_utf8};
use crate::analysis::global::MAX_TOTAL;
use crate::error::Error;
use crate::merge::MAX_BYTES;
use crate::operation::subset::{byte_views, fields, fields_of};
use crate::text::{string_views, words, words_of};

verus! {

/// A blob of a tree: its mode and object id.
#[derive(Debug)]
pub struct Entry {
    pub mode: String,
    pub oid: String,
}

/// The first tab of a row, if any.
pub open spec fn tab_at(row: Seq<char>, i: int) -> bool {
    0 <= i < row.len() && row[i] == '\t' && forall|j: int| 0 <= j < i ==> row[j] != '\t'
}

/// One row of `ls-tree -z`: `mode type oid<TAB>path`.
pub enum RowView {
    Entry { path: Seq<char>, mode: Seq<char>, oid: Seq<char> },
    NotUtf8,
    NoTab,
    BadMeta,
}

pub open spec fn row_of(bytes: Seq<u8>) -> RowView {
    if !valid_utf8(bytes) {
        RowView::NotUtf8
    } else {
        let row = decode_utf8(bytes);
        if exists|i: int| tab_at(row, i) {
            let i = choose|i: int| tab_at(row, i);
            let meta = words_of(row.take(i));
            if meta.len() != 3 {
                RowView::BadMeta
            } else {
                RowView::Entry { path: row.skip(i + 1), mode: meta[0], oid: meta[2] }
            }
        } else {
            RowView::NoTab
        }
    }
}

/// The first row from `k` on that does not parse.
pub open spec fn bad_row_from(rows: Seq<Seq<u8>>, k: int) -> Option<RowView>
    decreases rows.len() - k,
{
    if k < 0 || k >= rows.len() {
        None
    } else if row_of(rows[k]) is Entry {
        bad_row_from(rows, k + 1)
    } else {
        Some(row_of(rows[k]))
    }
}

pub open spec fn row_error(r: RowView) -> Error {
    match r {
        RowView::NotUtf8 => Error::Usage { text: "初版不支持非 UTF-8 路径" },
        RowView::NoTab => Error::Usage { text: "无效的 ls-tree 输出" },
        _ => Error::Usage { text: "无效的 ls-tree 元数据" },
    }
}

fn parse_row(bytes: &[u8]) -> (r: Result<(String, Entry), Error>)
    ensures
        match row_of(bytes@) {
            RowView::Entry { path, mode, oid } => r matches Ok((p, e)) && p@ == path && e.mode@ == mode && e.oid@
                == oid,
            other => r == Err::<(String, Entry), Error>(row_error(other)),
        },
{
    let text = match crate::merge::decode_text(bytes) {
        Some(t) => t,
        None => return Err(Error::Usage { text: "初版不支持非 UTF-8 路径" }),
    };
    let cs = crate::text::chars_of(text.as_str());
    let ghost row = cs@;
    let mut i: usize = 0;
    while i < cs.len() && cs[i] != '\t'
        invariant
            i <= cs.len(),
            forall|j: int| 0 <= j < i ==> cs@[j] != '\t',
        decreases cs.len() - i,
    {
        i += 1;
    }
    if i == cs.len() {
        assert(forall|k: int| !tab_at(row, k));
        return Err(Error::Usage { text: "无效的 ls-tree 输出" });
    }
    assert(tab_at(row, i as int));
    assert forall|k: int| tab_at(row, k) implies k == i by {
        if k < i {
            assert(row[k] != '\t');
        }
        if k > i {
            assert(row[i as int] == '\t');
        }
    }
    let mut meta: Vec<char> = Vec::new();
    let mut k: usize = 0;
    while k < i
        invariant
            k <= i < cs.len(),
            meta@ == cs@.take(k as int),
        decreases i - k,
    {
        meta.push(cs[k]);
        k += 1;
        assert(meta@ =~= cs@.take(k as int));
    }
    let mut path: Vec<char> = Vec::new();
    let mut m: usize = i + 1;
    while m < cs.len()
        invariant
            i + 1 <= m <= cs.len(),
            path@ == cs@.subrange(i + 1, m as int),
        decreases cs.len() - m,
    {
        path.push(cs[m]);
        m += 1;
        assert(path@ =~= cs@.subrange(i + 1, m as int));
    }
    assert(path@ =~= row.skip(i + 1));
    let meta_text = crate::text::string_of(meta.as_slice());
    let fs = words(meta_text.as_str());
    if fs.len() != 3 {
        return Err(Error::Usage { text: "无效的 ls-tree 元数据" });
    }
    assert(string_views(fs@)[0] == fs@[0]@ && string_views(fs@)[2] == fs@[2]@);
    Ok((crate::text::string_of(path.as_slice()), Entry { mode: fs[0].clone(), oid: fs[2].clone() }))
}

pub open spec fn entry_views(v: Seq<(String, Entry)>) -> Seq<(Seq<char>, Seq<char>, Seq<char>)> {
    v.map_values(|e: (String, Entry)| (e.0@, e.1.mode@, e.1.oid@))
}

pub open spec fn row_entry(r: RowView) -> (Seq<char>, Seq<char>, Seq<char>) {
    match r {
        RowView::Entry { path, mode, oid } => (path, mode, oid),
        _ => (seq![], seq![], seq![]),
    }
}

/// The entries of `ls-tree --full-tree -r -z` output, in its order; the
/// first row that does not parse is refused.
pub fn parse_tree_listing(listing: &[u8]) -> (r: Result<Vec<(String, Entry)>, Error>)
    ensures
        match bad_row_from(fields_of(listing@), 0) {
            Some(bad) => r == Err::<Vec<(String, Entry)>, Error>(row_error(bad)),
            None => r matches Ok(v) && entry_views(v@) == fields_of(listing@).map_values(
                |b: Seq<u8>| row_entry(row_of(b)),
            ),
        },
{
    let rows = fields(listing);
    let ghost rv = byte_views(rows@);
    let mut out: Vec<(String, Entry)> = Vec::new();
    let mut k: usize = 0;
    while k < rows.len()
        invariant
            k <= rows.len(),
            rv == byte_views(rows@),
            rv == fields_of(listing@),
            bad_row_from(rv, 0) == bad_row_from(rv, k as int),
            entry_views(out@) == rv.take(k as int).map_values(|b: Seq<u8>| row_entry(row_of(b))),
        decreases rows.len() - k,
    {
        assert(rv[k as int] == rows@[k as int]@);
        let ghost before = out@;
        match parse_row(rows[k].as_slice()) {
            Err(e) => return Err(e),
            Ok(entry) => {
                out.push(entry);
                assert(entry_views(out@) =~= rv.take(k + 1).map_values(|b: Seq<u8>| row_entry(row_of(b)))) by {
                    assert(rv.take(k + 1) =~= rv.take(k as int).push(rv[k as int]));
                    assert(entry_views(out@) =~= entry_views(before).push(row_entry(row_of(rv[k as int]))));
                }
            },
        }
        k += 1;
    }
    assert(rv.take(rows.len() as int) =~= rv);
    Ok(out)
}

/// The mode and object of `path` among the entries: the last entry for it,
/// as a map filled in order holds.
pub fn blob_oid(entries: &Vec<(String, Entry)>, path: &str) -> (r: Option<(String, String)>)
    ensures
        match r {
            Some((m, o)) => exists|i: int|
                0 <= i < entries@.len() && entries@[i].0@ == path@ && m@ == entries@[i].1.mode@ && o@
                    == entries@[i].1.oid@ && forall|j: int| i < j < entries@.len() ==> entries@[j].0@ != path@,
            None => forall|i: int| 0 <= i < entries@.len() ==> entries@[i].0@ != path@,
        },
{
    let p = String::from_str(path);
    let mut i: usize = entries.len();
    while i > 0
        invariant
            i <= entries.len(),
            p@ == path@,
            forall|j: int| i <= j < entries@.len() ==> entries@[j].0@ != path@,
        decreases i,
    {
        i -= 1;
        if entries[i].0 == p {
            return Some((entries[i].1.mode.clone(), entries[i].1.oid.clone()));
        }
    }
    None
}

// ---------------------------------------------------------------------------
// What a text snapshot admits.
// ---------------------------------------------------------------------------

pub open spec fn regular_mode(mode: Seq<char>) -> bool {
    mode == "100644"@ || mode == "100755"@
}

/// Only regular files are analyzed; symlinks and submodules are refused.
pub fn check_mode(path: &String, mode: &String) -> (r: Result<(), Error>)
    ensures
        regular_mode(mode@) ==> r is Ok,
        !regular_mode(mode@) ==> (r matches Err(Error::UnsupportedMode { path: p }) && p@ == path@),
{
    if *mode == String::from_str("100644") || *mode == String::from_str("100755") {
        Ok(())
    } else {
        Err(Error::UnsupportedMode { path: path.clone() })
    }
}

pub open spec fn digit_value(c: char) -> nat {
    (c as u32 - '0' as u32) as nat
}

pub open spec fn is_digit(c: char) -> bool {
    '0' <= c <= '9'
}

/// The value of a run of decimal digits.
pub open spec fn digits_value(s: Seq<char>) -> nat
    decreases s.len(),
{
    if s.len() == 0 {
        0
    } else {
        digits_value(s.drop_last()) * 10 + digit_value(s.last())
    }
}

pub open spec fn all_digits(d: Seq<char>) -> bool {
    forall|i: int| 0 <= i < d.len() ==> is_digit(#[trigger] d[i])
}

/// The digits of a `usize` literal: an optional `+`, then one or more digits.
pub open spec fn unsigned_digits(s: Seq<char>) -> Option<Seq<char>> {
    let d = if s.len() > 0 && s[0] == '+' {
        s.skip(1)
    } else {
        s
    };
    if d.len() > 0 && all_digits(d) {
        Some(d)
    } else {
        None
    }
}

/// `str::parse::<usize>`, with its reasons for a refusal.
pub open spec fn parsed_size(s: Seq<char>) -> Result<nat, &'static str> {
    if s.len() == 0 {
        Err("cannot parse integer from empty string")
    } else {
        match unsigned_digits(s) {
            None => Err("invalid digit found in string"),
            Some(d) => if digits_value(d) <= usize::MAX {
                Ok(digits_value(d))
            } else {
                Err("number too large to fit in target type")
            },
        }
    }
}

/// Parses a size as `str::parse::<usize>` does.
pub fn parse_size(s: &str) -> (r: Result<usize, Error>)
    ensures
        match parsed_size(s@) {
            Ok(n) => r == Ok::<usize, Error>(n as usize),
            Err(reason) => r == Err::<usize, Error>(Error::ParseInt { reason }),
        },
{
    let cs = crate::text::chars_of(s);
    if cs.len() == 0 {
        return Err(Error::ParseInt { reason: "cannot parse integer from empty string" });
    }
    let start: usize = if cs[0] == '+' {
        1
    } else {
        0
    };
    let ghost d = if cs@[0] == '+' {
        cs@.skip(1)
    } else {
        cs@
    };
    assert(d =~= cs@.skip(start as int));
    if start == cs.len() {
        return Err(Error::ParseInt { reason: "invalid digit found in string" });
    }
    let mut i: usize = start;
    while i < cs.len()
        invariant
            start <= i <= cs.len(),
            cs@ == s@,
            cs@.len() > 0,
            start <= 1,
            (start == 1) == (cs@[0] == '+'),
            d == cs@.skip(start as int),
            forall|k: int| 0 <= k < i - start ==> is_digit(#[trigger] d[k]),
        decreases cs.len() - i,
    {
        if !('0' <= cs[i] && cs[i] <= '9') {
            assert(d[i - start] == cs@[i as int]);
            assert(!is_digit(d[i - start]));
            assert(!all_digits(d));
            return Err(Error::ParseInt { reason: "invalid digit found in string" });
        }
        i += 1;
    }
    let mut n: usize = 0;
    let mut j: usize = start;
    while j < cs.len()
        invariant
            start <= j <= cs.len(),
            start < cs@.len(),
            cs@ == s@,
            cs@.len() > 0,
            start <= 1,
            (start == 1) == (cs@[0] == '+'),
            d == cs@.skip(start as int),
            forall|k: int| 0 <= k < d.len() ==> is_digit(#[trigger] d[k]),
            n == digits_value(d.take(j - start)),
        decreases cs.len() - j,
    {
        assert(d.take(j - start + 1).drop_last() =~= d.take(j - start));
        assert(is_digit(d[j - start]));
        assert(d[j - start] == cs@[j as int]);
        let v = (cs[j] as u32 - '0' as u32) as usize;
        assert(v == digit_value(cs@[j as int]));
        proof {
            lemma_digits_grow(d, j - start + 1);
            assert(d.take(j - start + 1 - 1) == d.take(j - start));
            assert(all_digits(d));
            if start == 0 {
                assert(cs@.skip(0) =~= cs@);
            }
            assert(unsigned_digits(s@) == Some(d));
        }
        match n.checked_mul(10) {
            None => {
                return Err(Error::ParseInt { reason: "number too large to fit in target type" });
            },
            Some(t) => match t.checked_add(v) {
                None => {
                    return Err(Error::ParseInt { reason: "number too large to fit in target type" });
                },
                Some(u) => {
                    n = u;
                },
            },
        }
        j += 1;
    }
    assert(d.take(d.len() as int) =~= d);
    Ok(n)
}

proof fn lemma_digits_grow(d: Seq<char>, k: int)
    requires
        0 < k <= d.len(),
        forall|i: int| 0 <= i < d.len() ==> is_digit(#[trigger] d[i]),
    ensures
        digits_value(d.take(k)) <= digits_value(d),
        digits_value(d.take(k)) == digits_value(d.take(k - 1)) * 10 + digit_value(d[k - 1]),
    decreases d.len() - k,
{
    assert(d.take(k).drop_last() =~= d.take(k - 1));
    if k < d.len() {
        lemma_digits_grow(d, k + 1);
        assert(digits_value(d.take(k + 1)) == digits_value(d.take(k)) * 10 + digit_value(d[k]));
    } else {
        assert(d.take(k) =~= d);
    }
}

/// Admits one blob of a snapshot: its size (`cat-file -s` output, trimmed)
/// within the per-file limit, and the running total within the snapshot
/// limit. Gives the new total.
pub fn admit_size(path: &String, size_text: &str, total: usize) -> (r: Result<usize, Error>)
    ensures
        match parsed_size(crate::text::trim(size_text@)) {
            Err(reason) => r == Err::<usize, Error>(Error::ParseInt { reason }),
            Ok(size) => if total + size > usize::MAX {
                r == Err::<usize, Error>(Error::Usage { text: "分析输入大小溢出" })
            } else if size > MAX_BYTES || total + size > MAX_TOTAL {
                r matches Err(Error::SnapshotTooLarge { path: p }) && p@ == path@
            } else {
                r == Ok::<usize, Error>((total + size) as usize)
            },
        },
{
    let t = crate::text::trimmed(size_text);
    let size = match parse_size(t.as_str()) {
        Ok(n) => n,
        Err(e) => return Err(e),
    };
    let sum = match total.checked_add(size) {
        Some(v) => v,
        None => return Err(Error::Usage { text: "分析输入大小溢出" }),
    };
    if size > MAX_BYTES || sum > MAX_TOTAL {
        return Err(Error::SnapshotTooLarge { path: path.clone() });
    }
    Ok(sum)
}

} // verus!
