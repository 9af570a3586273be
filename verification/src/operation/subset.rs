//! What the analysis supports: no renames, no file/directory layout changes,
//! no attribute or setting that changes the merge inputs. Git's answers are
//! read by the caller; the decisions are made here.
use vstd::prelude::*;
use vstd::string::{StringExecFns, StringSliceAdditionalSpecFns};
use crate::error::Error;
use crate::text::string_views;

verus! {

/// The non-empty NUL-separated fields of `s` after `acc` and the partial `cur`.
pub open spec fn fields_from(s: Seq<u8>, cur: Seq<u8>, acc: Seq<Seq<u8>>) -> Seq<Seq<u8>>
    decreases s.len(),
{
    if s.len() == 0 {
        if cur.len() == 0 {
            acc
        } else {
            acc.push(cur)
        }
    } else if s[0] == 0 {
        if cur.len() == 0 {
            fields_from(s.skip(1), cur, acc)
        } else {
            fields_from(s.skip(1), seq![], acc.push(cur))
        }
    } else {
        fields_from(s.skip(1), cur.push(s[0]), acc)
    }
}

/// The non-empty fields of NUL-terminated (`-z`) Git output.
pub open spec fn fields_of(s: Seq<u8>) -> Seq<Seq<u8>> {
    fields_from(s, seq![], seq![])
}

pub open spec fn byte_views(v: Seq<Vec<u8>>) -> Seq<Seq<u8>> {
    v.map_values(|b: Vec<u8>| b@)
}

pub fn fields(s: &[u8]) -> (r: Vec<Vec<u8>>)
    ensures
        byte_views(r@) == fields_of(s@),
{
    let mut acc: Vec<Vec<u8>> = Vec::new();
    let mut cur: Vec<u8> = Vec::new();
    let mut i: usize = 0;
    assert(s@.skip(0) =~= s@);
    assert(byte_views(acc@) =~= Seq::<Seq<u8>>::empty());
    while i < s.len()
        invariant
            i <= s.len(),
            fields_from(s@.skip(i as int), cur@, byte_views(acc@)) == fields_of(s@),
        decreases s.len() - i,
    {
        assert(s@.skip(i as int).skip(1) =~= s@.skip(i + 1));
        assert(s@.skip(i as int)[0] == s@[i as int]);
        if s[i] == 0 {
            if cur.len() > 0 {
                let ghost before = byte_views(acc@);
                let ghost c = cur@;
                acc.push(cur);
                assert(byte_views(acc@) =~= before.push(c));
                cur = Vec::new();
                assert(cur@ =~= Seq::<u8>::empty());
            }
        } else {
            cur.push(s[i]);
        }
        i += 1;
    }
    assert(s@.skip(s.len() as int) =~= Seq::<u8>::empty());
    if cur.len() > 0 {
        let ghost before = byte_views(acc@);
        let ghost c = cur@;
        acc.push(cur);
        assert(byte_views(acc@) =~= before.push(c));
    }
    acc
}

// ---------------------------------------------------------------------------
// Renames.
// ---------------------------------------------------------------------------

/// Whether a status field from `i` on (stepping over each status's path)
/// reports a rename.
pub open spec fn rename_from(fs: Seq<Seq<u8>>, i: int) -> bool
    decreases fs.len() + 2 - i,
{
    if i < 0 || i >= fs.len() {
        false
    } else if fs[i].len() > 0 && fs[i][0] == 82u8 {
        true
    } else {
        rename_from(fs, i + 2)
    }
}

/// Whether `git diff-tree --name-status -z -M` output reports a rename.
pub open spec fn has_rename(status: Seq<u8>) -> bool {
    rename_from(fields_of(status), 0)
}

pub fn reports_rename(status: &[u8]) -> (r: bool)
    ensures
        r == has_rename(status@),
{
    let fs = fields(status);
    let ghost fv = byte_views(fs@);
    let mut i: usize = 0;
    while i < fs.len()
        invariant
            fv == byte_views(fs@),
            fv == fields_of(status@),
            rename_from(fv, 0) == rename_from(fv, i as int),
        decreases fs.len() - i,
    {
        assert(fv[i as int] == fs@[i as int]@);
        if fs[i].len() > 0 && fs[i][0] == 82u8 {
            return true;
        }
        if fs.len() - i < 2 {
            assert(!rename_from(fv, i + 2));
            return false;
        }
        i += 2;
    }
    false
}

// ---------------------------------------------------------------------------
// File/directory layout.
// ---------------------------------------------------------------------------

/// `a` names a directory above `p`: a leading part of `p` ending before a
/// `/`, or the empty path above every other relative path.
pub open spec fn is_ancestor(a: Seq<char>, p: Seq<char>) -> bool {
    (a.len() == 0 && p.len() > 0) || (a.len() < p.len() && p[a.len() as int] == '/' && p.take(
        a.len() as int,
    ) == a)
}

pub open spec fn has_ancestor_in(paths: Seq<Seq<char>>, p: Seq<char>) -> bool {
    exists|j: int| 0 <= j < paths.len() && is_ancestor(#[trigger] paths[j], p)
}

/// The first path with a directory among the paths.
#[verifier::opaque]
pub open spec fn layout_conflict(paths: Seq<Seq<char>>) -> Option<int> {
    if exists|i: int| 0 <= i < paths.len() && has_ancestor_in(paths, #[trigger] paths[i]) {
        Some(
            choose|i: int|
                0 <= i < paths.len() && has_ancestor_in(paths, #[trigger] paths[i]) && forall|k: int|
                    0 <= k < i ==> !has_ancestor_in(paths, #[trigger] paths[k]),
        )
    } else {
        None
    }
}

pub open spec fn char_views(v: Seq<Vec<char>>) -> Seq<Seq<char>> {
    v.map_values(|x: Vec<char>| x@)
}

fn ancestor_among(paths: &Vec<Vec<char>>, p: &Vec<char>) -> (r: bool)
    ensures
        r == has_ancestor_in(char_views(paths@), p@),
{
    let ghost cv = char_views(paths@);
    let mut j: usize = 0;
    while j < paths.len()
        invariant
            j <= paths.len(),
            cv == char_views(paths@),
            forall|k: int| 0 <= k < j ==> !is_ancestor(#[trigger] cv[k], p@),
        decreases paths.len() - j,
    {
        let a = &paths[j];
        assert(cv[j as int] == a@);
        if a.len() == 0 && p.len() > 0 {
            assert(is_ancestor(cv[j as int], p@));
            return true;
        }
        if a.len() < p.len() && p[a.len()] == '/' {
            let mut k: usize = 0;
            let mut same = true;
            while k < a.len()
                invariant
                    k <= a.len() < p.len(),
                    same == forall|m: int| 0 <= m < k ==> p@[m] == a@[m],
                decreases a.len() - k,
            {
                if p[k] != a[k] {
                    same = false;
                }
                k += 1;
            }
            if same {
                assert(p@.take(a.len() as int) =~= a@);
                assert(is_ancestor(cv[j as int], p@));
                return true;
            }
            assert(!is_ancestor(a@, p@)) by {
                let m = choose|m: int| 0 <= m < a.len() && p@[m] != a@[m];
                assert(p@.take(a.len() as int)[m] != a@[m]);
            }
        }
        j += 1;
    }
    assert forall|k: int| 0 <= k < cv.len() implies !is_ancestor(#[trigger] cv[k], p@) by {}
    false
}

/// The first path that is also under another path's directory, if any.
pub fn find_layout_conflict(paths: &Vec<String>) -> (r: Option<usize>)
    ensures
        match layout_conflict(string_views(paths@)) {
            Some(i) => r matches Some(j) && j == i,
            None => r is None,
        },
        r matches Some(i) ==> i < paths@.len(),
{
    let ghost pv = string_views(paths@);
    let mut cs: Vec<Vec<char>> = Vec::new();
    let mut i: usize = 0;
    while i < paths.len()
        invariant
            i <= paths.len(),
            pv == string_views(paths@),
            cs@.len() == i,
            forall|k: int| 0 <= k < i ==> #[trigger] cs@[k]@ == pv[k],
        decreases paths.len() - i,
    {
        cs.push(crate::text::chars_of(paths[i].as_str()));
        i += 1;
    }
    assert(char_views(cs@) =~= pv);
    let mut i: usize = 0;
    while i < cs.len()
        invariant
            i <= cs.len(),
            char_views(cs@) == pv,
            pv == string_views(paths@),
            forall|k: int| 0 <= k < i ==> !has_ancestor_in(pv, #[trigger] pv[k]),
        decreases cs.len() - i,
    {
        assert(pv[i as int] == cs@[i as int]@);
        if ancestor_among(&cs, &cs[i]) {
            proof {
                lemma_first_conflict(pv, i as int);
            }
            return Some(i);
        }
        i += 1;
    }
    proof {
        reveal(layout_conflict);
    }
    None
}

proof fn lemma_first_conflict(pv: Seq<Seq<char>>, i: int)
    requires
        0 <= i < pv.len(),
        has_ancestor_in(pv, pv[i]),
        forall|k: int| 0 <= k < i ==> !has_ancestor_in(pv, #[trigger] pv[k]),
    ensures
        layout_conflict(pv) == Some(i),
{
    reveal(layout_conflict);
    let w = choose|w: int|
        0 <= w < pv.len() && has_ancestor_in(pv, #[trigger] pv[w]) && forall|k: int|
            0 <= k < w ==> !has_ancestor_in(pv, #[trigger] pv[k]);
    assert(w == i) by {
        if w < i {
            assert(!has_ancestor_in(pv, pv[w]));
        }
        if w > i {
            assert(!has_ancestor_in(pv, pv[i]));
        }
    }
}

// ---------------------------------------------------------------------------
// Attributes and settings.
// ---------------------------------------------------------------------------

/// An attribute value that leaves Git's merge inputs as they are stored.
pub open spec fn attribute_allowed(name: Seq<u8>, value: Seq<u8>) -> bool {
    value == "unspecified".spec_bytes() || (value == "unset".spec_bytes() && name != "merge".spec_bytes()) || (
    name == "merge".spec_bytes() && (value == "set".spec_bytes() || value == "text".spec_bytes()))
}

pub enum AttributeProblem {
    /// The output ends inside a record.
    Incomplete,
    /// A path, attribute and value that change the merge inputs.
    Refused(Seq<u8>, Seq<u8>, Seq<u8>),
}

/// The first problem among the `check-attr -z` records from field `k` on.
pub open spec fn attribute_problem_from(fs: Seq<Seq<u8>>, k: int) -> Option<AttributeProblem>
    decreases fs.len() + 3 - k,
{
    if k < 0 || k >= fs.len() {
        None
    } else if fs.len() - k < 3 {
        Some(AttributeProblem::Incomplete)
    } else if !attribute_allowed(fs[k + 1], fs[k + 2]) {
        Some(AttributeProblem::Refused(fs[k], fs[k + 1], fs[k + 2]))
    } else {
        attribute_problem_from(fs, k + 3)
    }
}

fn same_bytes(a: &[u8], b: &[u8]) -> (r: bool)
    ensures
        r == (a@ == b@),
{
    if a.len() != b.len() {
        return false;
    }
    let mut i: usize = 0;
    while i < a.len()
        invariant
            i <= a.len(),
            a.len() == b.len(),
            forall|k: int| 0 <= k < i ==> a@[k] == b@[k],
        decreases a.len() - i,
    {
        if a[i] != b[i] {
            return false;
        }
        i += 1;
    }
    assert(a@ =~= b@);
    true
}

fn allowed(name: &[u8], value: &[u8]) -> (r: bool)
    ensures
        r == attribute_allowed(name@, value@),
{
    same_bytes(value, "unspecified".as_bytes()) || (same_bytes(value, "unset".as_bytes()) && !same_bytes(
        name,
        "merge".as_bytes(),
    )) || (same_bytes(name, "merge".as_bytes()) && (same_bytes(value, "set".as_bytes()) || same_bytes(
        value,
        "text".as_bytes(),
    )))
}

fn copy_bytes(b: &Vec<u8>) -> (r: Vec<u8>)
    ensures
        r@ == b@,
{
    let mut r: Vec<u8> = Vec::new();
    let mut i: usize = 0;
    while i < b.len()
        invariant
            i <= b.len(),
            r@ == b@.take(i as int),
        decreases b.len() - i,
    {
        r.push(b[i]);
        i += 1;
        assert(r@ =~= b@.take(i as int));
    }
    assert(b@.take(b.len() as int) =~= b@);
    r
}

/// Refuses `git check-attr -z --stdin` output that is cut short or holds an
/// attribute that changes the merge inputs.
pub fn check_attributes(output: &[u8]) -> (r: Result<(), Error>)
    ensures
        match attribute_problem_from(fields_of(output@), 0) {
            None => r is Ok,
            Some(AttributeProblem::Incomplete) => r == Err::<(), Error>(Error::IncompleteAttributes),
            Some(AttributeProblem::Refused(p, n, v)) => r matches Err(Error::UnsupportedAttribute { file, attribute, value })
                && file@ == p && attribute@ == n && value@ == v,
        },
{
    let fs = fields(output);
    let ghost fv = byte_views(fs@);
    let mut k: usize = 0;
    while k < fs.len()
        invariant
            fv == byte_views(fs@),
            fv == fields_of(output@),
            k <= fs.len() + 2,
            attribute_problem_from(fv, 0) == attribute_problem_from(fv, k as int),
        decreases fs.len() + 3 - k,
    {
        if fs.len() - k < 3 {
            return Err(Error::IncompleteAttributes);
        }
        assert(fv[k + 1] == fs@[k + 1]@ && fv[k + 2] == fs@[k + 2]@ && fv[k as int] == fs@[k as int]@);
        if !allowed(fs[k + 1].as_slice(), fs[k + 2].as_slice()) {
            return Err(
                Error::UnsupportedAttribute {
                    file: copy_bytes(&fs[k]),
                    attribute: copy_bytes(&fs[k + 1]),
                    value: copy_bytes(&fs[k + 2]),
                },
            );
        }
        k += 3;
    }
    Ok(())
}

pub enum SubsetProblem {
    Rename,
    /// The index of the path in conflict with a directory.
    Layout(int),
    Attribute(AttributeProblem),
    AutoCrlf,
    Sparse,
}

/// The first problem among the attribute outputs from `j` on.
pub open spec fn attributes_problem(attrs: Seq<Seq<u8>>, j: int) -> Option<AttributeProblem>
    decreases attrs.len() - j,
{
    if j < 0 || j >= attrs.len() {
        None
    } else {
        match attribute_problem_from(fields_of(attrs[j]), 0) {
            Some(p) => Some(p),
            None => attributes_problem(attrs, j + 1),
        }
    }
}

/// What the analysis cannot support, checked in this order: a rename on
/// either side, a file/directory layout conflict, an attribute that changes
/// the inputs, `core.autocrlf` other than false, a sparse checkout.
pub open spec fn subset_problem(
    diffs: Seq<Seq<u8>>,
    paths: Seq<Seq<char>>,
    attrs: Seq<Seq<u8>>,
    autocrlf: Option<Seq<char>>,
    sparse: Option<Seq<char>>,
) -> Option<SubsetProblem> {
    if exists|j: int| 0 <= j < diffs.len() && has_rename(#[trigger] diffs[j]) {
        Some(SubsetProblem::Rename)
    } else if layout_conflict(paths) is Some {
        Some(SubsetProblem::Layout(layout_conflict(paths)->0))
    } else if attributes_problem(attrs, 0) is Some {
        Some(SubsetProblem::Attribute(attributes_problem(attrs, 0)->0))
    } else if autocrlf matches Some(v) && v != "false"@ {
        Some(SubsetProblem::AutoCrlf)
    } else if sparse matches Some(v) && v == "true"@ {
        Some(SubsetProblem::Sparse)
    } else {
        None
    }
}

pub open spec fn opt_views(o: Option<String>) -> Option<Seq<char>> {
    match o {
        Some(s) => Some(s@),
        None => None,
    }
}

/// Checks the paths of a planned operation against Git's answers: the
/// `diff-tree --name-status -z -M` output of each side against the base, the
/// sorted changed paths, each `check-attr -z` output, and the values of
/// `core.autocrlf` and `core.sparseCheckout` where they are set.
pub fn check_subset(
    diffs: &Vec<Vec<u8>>,
    paths: &Vec<String>,
    attributes: &Vec<Vec<u8>>,
    autocrlf: &Option<String>,
    sparse: &Option<String>,
) -> (r: Result<(), Error>)
    ensures
        match subset_problem(
            byte_views(diffs@),
            string_views(paths@),
            byte_views(attributes@),
            opt_views(*autocrlf),
            opt_views(*sparse),
        ) {
            None => r is Ok,
            Some(SubsetProblem::Rename) => r == Err::<(), Error>(Error::Rename),
            Some(SubsetProblem::Layout(i)) => r == Err::<(), Error>(Error::LayoutConflict { path: paths@[i] }),
            Some(SubsetProblem::Attribute(AttributeProblem::Incomplete)) => r == Err::<(), Error>(
                Error::IncompleteAttributes,
            ),
            Some(SubsetProblem::Attribute(AttributeProblem::Refused(p, n, v))) => r matches Err(
                Error::UnsupportedAttribute { file, attribute, value },
            ) && file@ == p && attribute@ == n && value@ == v,
            Some(SubsetProblem::AutoCrlf) => r == Err::<(), Error>(
                Error::Usage { text: "暂不支持 core.autocrlf；需要原文三方输入" },
            ),
            Some(SubsetProblem::Sparse) => r == Err::<(), Error>(Error::Usage { text: "暂不支持 sparse checkout" }),
        },
{
    let ghost dv = byte_views(diffs@);
    let mut j: usize = 0;
    while j < diffs.len()
        invariant
            j <= diffs.len(),
            dv == byte_views(diffs@),
            forall|k: int| 0 <= k < j ==> !has_rename(#[trigger] dv[k]),
        decreases diffs.len() - j,
    {
        assert(dv[j as int] == diffs@[j as int]@);
        if reports_rename(diffs[j].as_slice()) {
            return Err(Error::Rename);
        }
        j += 1;
    }
    assert(!(exists|k: int| 0 <= k < dv.len() && has_rename(#[trigger] dv[k])));
    match find_layout_conflict(paths) {
        Some(i) => {
            let path = paths[i].clone();
            assert(path == paths@[i as int]);
            assert(layout_conflict(string_views(paths@)) == Some(i as int));
            return Err(Error::LayoutConflict { path });
        },
        None => {},
    }
    let ghost av = byte_views(attributes@);
    let mut j: usize = 0;
    while j < attributes.len()
        invariant
            j <= attributes.len(),
            av == byte_views(attributes@),
            dv == byte_views(diffs@),
            !(exists|k: int| 0 <= k < dv.len() && has_rename(#[trigger] dv[k])),
            layout_conflict(string_views(paths@)) is None,
            attributes_problem(av, 0) == attributes_problem(av, j as int),
        decreases attributes.len() - j,
    {
        assert(av[j as int] == attributes@[j as int]@);
        match check_attributes(attributes[j].as_slice()) {
            Err(e) => return Err(e),
            Ok(()) => {},
        }
        j += 1;
    }
    match autocrlf {
        Some(v) => {
            let f = String::from_str("false");
            if *v != f {
                return Err(Error::Usage { text: "暂不支持 core.autocrlf；需要原文三方输入" });
            }
        },
        None => {},
    }
    match sparse {
        Some(v) => {
            let t = String::from_str("true");
            if *v == t {
                return Err(Error::Usage { text: "暂不支持 sparse checkout" });
            }
        },
        None => {},
    }
    Ok(())
}

} // verus!
