//! Git orchestration around the analysis: validated requests and the
//! decisions between Git commands. Ambiguous contexts are refused; Git owns
//! commits, index conflicts and rollback.
use vstd::prelude::*;
use vstd::string::StringExecFns;
use crate::error::Error;
use crate::text::{lines_of, string_views};

pub mod args;
pub mod merge;
pub mod pull;
pub mod rebase;
pub mod stash;

verus! {

/// `v` with each `'` written as `'\''`.
pub open spec fn quote_escaped(v: Seq<char>) -> Seq<char>
    decreases v.len(),
{
    if v.len() == 0 {
        seq![]
    } else {
        quote_escaped(v.drop_last()) + if v.last() == '\'' {
            seq!['\'', '\\', '\'', '\'']
        } else {
            seq![v.last()]
        }
    }
}

/// `v` as one single-quoted shell word.
pub open spec fn shell_quoted(v: Seq<char>) -> Seq<char> {
    seq!['\''] + quote_escaped(v) + seq!['\'']
}

pub fn shell_quote(value: &str) -> (r: String)
    ensures
        r@ == shell_quoted(value@),
{
    let cs = crate::text::chars_of(value);
    let mut out: Vec<char> = Vec::new();
    out.push('\'');
    let mut i: usize = 0;
    while i < cs.len()
        invariant
            i <= cs.len(),
            cs@ == value@,
            out@ == seq!['\''] + quote_escaped(cs@.take(i as int)),
        decreases cs.len() - i,
    {
        assert(cs@.take(i + 1).drop_last() =~= cs@.take(i as int));
        if cs[i] == '\'' {
            out.push('\'');
            out.push('\\');
            out.push('\'');
            out.push('\'');
        } else {
            out.push(cs[i]);
        }
        i += 1;
        assert(out@ =~= seq!['\''] + quote_escaped(cs@.take(i as int)));
    }
    out.push('\'');
    assert(cs@.take(cs.len() as int) =~= cs@);
    assert(out@ =~= shell_quoted(value@));
    crate::text::string_of(out.as_slice())
}

/// The views of some string slices.
pub open spec fn str_views(v: Seq<&str>) -> Seq<Seq<char>> {
    v.map_values(|x: &str| x@)
}

/// Whether `word` is one of `options`.
pub fn is_one_of(word: &str, options: &[&str]) -> (r: bool)
    ensures
        r == str_views(options@).contains(word@),
{
    let w = String::from_str(word);
    let mut i: usize = 0;
    while i < options.len()
        invariant
            i <= options.len(),
            w@ == word@,
            forall|k: int| 0 <= k < i ==> options@[k]@ != word@,
        decreases options.len() - i,
    {
        let o = String::from_str(options[i]);
        if o == w {
            assert(str_views(options@)[i as int] == word@);
            return true;
        }
        i += 1;
    }
    assert forall|k: int| 0 <= k < str_views(options@).len() implies str_views(options@)[k] != word@ by {
        assert(str_views(options@)[k] == options@[k]@);
    }
    false
}

pub open spec fn opt_view(o: Option<String>) -> Option<Seq<char>> {
    match o {
        Some(s) => Some(s@),
        None => None,
    }
}

/// The merge base, where `merge-base --all` (absent when there is none)
/// gives exactly one line.
pub fn merge_base(bases: Option<&str>) -> (r: Result<String, Error>)
    ensures
        match bases {
            Some(b) => if lines_of(b@).len() == 1 {
                r matches Ok(x) && x@ == lines_of(b@)[0]
            } else {
                r == Err::<String, Error>(Error::Usage {
                    text: "需要唯一 merge base；多 base/虚拟 base 和无共同历史暂不支持",
                })
            },
            None => r == Err::<String, Error>(Error::Usage {
                text: "需要唯一 merge base；多 base/虚拟 base 和无共同历史暂不支持",
            }),
        },
{
    match bases {
        Some(b) => {
            let ls = crate::text::lines(b);
            if ls.len() == 1 {
                assert(string_views(ls@)[0] == ls@[0]@);
                Ok(ls[0].clone())
            } else {
                Err(Error::Usage { text: "需要唯一 merge base；多 base/虚拟 base 和无共同历史暂不支持" })
            }
        },
        None => {
            assert(lines_of(Seq::<char>::empty()).len() == 0);
            Err(Error::Usage { text: "需要唯一 merge base；多 base/虚拟 base 和无共同历史暂不支持" })
        },
    }
}

/// A process status as an exit code: its own where it fits, else 129.
pub fn exit_code(code: Option<i32>) -> (r: u8)
    ensures
        r == match code {
            Some(c) => if 0 <= c <= 255 {
                c as u8
            } else {
                129u8
            },
            None => 129u8,
        },
{
    match code {
        Some(c) => if 0 <= c && c <= 255 {
            c as u8
        } else {
            129
        },
        None => 129,
    }
}

pub open spec fn running_name(k: int) -> &'static str {
    if k == 0 {
        "MERGE_HEAD"
    } else if k == 1 {
        "CHERRY_PICK_HEAD"
    } else if k == 2 {
        "REVERT_HEAD"
    } else if k == 3 {
        "rebase-merge"
    } else if k == 4 {
        "rebase-apply"
    } else {
        "sequencer"
    }
}

/// Refuses while Git runs an operation of its own: `present` tells which of
/// MERGE_HEAD, CHERRY_PICK_HEAD, REVERT_HEAD, rebase-merge, rebase-apply and
/// sequencer exist in the Git directory; the first one is named.
pub fn check_idle(present: &[bool; 6]) -> (r: Result<(), Error>)
    ensures
        match r {
            Ok(()) => forall|k: int| 0 <= k < 6 ==> !present@[k],
            Err(e) => exists|k: int|
                0 <= k < 6 && present@[k] && e == Error::OperationRunning { name: running_name(k) } && forall|j: int|
                    0 <= j < k ==> !present@[j],
        },
{
    let mut k: usize = 0;
    while k < 6
        invariant
            k <= 6,
            forall|j: int| 0 <= j < k ==> !present@[j],
        decreases 6 - k,
    {
        if present[k] {
            let name = if k == 0 {
                "MERGE_HEAD"
            } else if k == 1 {
                "CHERRY_PICK_HEAD"
            } else if k == 2 {
                "REVERT_HEAD"
            } else if k == 3 {
                "rebase-merge"
            } else if k == 4 {
                "rebase-apply"
            } else {
                "sequencer"
            };
            assert(name == running_name(k as int));
            return Err(Error::OperationRunning { name });
        }
        k += 1;
    }
    Ok(())
}

/// The configuration that names this executable as the strict merge driver.
pub open spec fn driver_config(executable: Seq<char>) -> Seq<char> {
    "merge.strict-weave.driver="@ + shell_quoted(executable)
        + " driver %O %A %B %P %L --ours-label %X --base-label %S --theirs-label %Y"@
}

pub fn driver_setting(executable: &str) -> (r: String)
    ensures
        r@ == driver_config(executable@),
{
    let mut s = String::from_str("merge.strict-weave.driver=");
    let q = shell_quote(executable);
    s.append(q.as_str());
    s.append(" driver %O %A %B %P %L --ours-label %X --base-label %S --theirs-label %Y");
    s
}

} // verus!
