//! Todo lists: guards before each replay step, validated instruction shapes,
//! and the step that a skip passes over. Commit lookups are the caller's.
use vstd::prelude::*;
use vstd::string::StringExecFns;
use crate::error::Error;
use crate::text::{
    is_prefix, lemma_lines_from_no_newline, lemma_lines_of_unlines, lemma_trim_twice,
    lemma_trim_visible, lines, lines_of, plain_line, starts_with, string_views, trim, trimmed,
    unlines, words, words_of,
};
use crate::workflow::{is_one_of, quote_escaped, shell_quote, shell_quoted, str_views};

verus! {

pub open spec fn guard_prefix(executable: Seq<char>) -> Seq<char> {
    "exec "@ + shell_quoted(executable) + " rebase-check "@
}

/// The guard line that checks `instruction` before Git replays it.
pub open spec fn guard_text(executable: Seq<char>, instruction: Seq<char>) -> Seq<char> {
    guard_prefix(executable) + shell_quoted(instruction)
}

fn prefix_string(executable: &str) -> (r: String)
    ensures
        r@ == guard_prefix(executable@),
{
    let mut s = String::from_str("exec ");
    let q = shell_quote(executable);
    s.append(q.as_str());
    s.append(" rebase-check ");
    s
}

pub fn guard(executable: &str, instruction: &str) -> (r: String)
    ensures
        r@ == guard_text(executable@, instruction@),
{
    let mut s = prefix_string(executable);
    let q = shell_quote(instruction);
    s.append(q.as_str());
    s
}

pub open spec fn replay_commands() -> Seq<Seq<char>> {
    str_views(seq!["pick", "p", "reword", "r", "edit", "e", "squash", "s", "fixup", "f", "merge", "m"])
}

pub open spec fn other_commands() -> Seq<Seq<char>> {
    str_views(
        seq!["label", "l", "reset", "t", "break", "b", "exec", "x", "drop", "d", "update-ref", "u", "noop"],
    )
}

fn is_replay(command: &str) -> (r: bool)
    ensures
        r == replay_commands().contains(command@),
{
    let names = ["pick", "p", "reword", "r", "edit", "e", "squash", "s", "fixup", "f", "merge", "m"];
    assert(names@ =~= seq!["pick", "p", "reword", "r", "edit", "e", "squash", "s", "fixup", "f", "merge", "m"]);
    is_one_of(command, &names)
}

fn is_other(command: &str) -> (r: bool)
    ensures
        r == other_commands().contains(command@),
{
    let names = ["label", "l", "reset", "t", "break", "b", "exec", "x", "drop", "d", "update-ref", "u", "noop"];
    assert(names@ =~= seq!["label", "l", "reset", "t", "break", "b", "exec", "x", "drop", "d", "update-ref", "u", "noop"]);
    is_one_of(command, &names)
}

/// A replay step of a todo list.
#[derive(Debug)]
pub enum Instruction {
    /// Replays a commit, named by its hash.
    Pick(String),
    /// Recreates a merge with the named label or commit.
    Merge(String),
}

pub open spec fn is_hex(c: char) -> bool {
    ('0' <= c <= '9') || ('a' <= c <= 'f') || ('A' <= c <= 'F')
}

pub open spec fn all_hex_chars(s: Seq<char>) -> bool {
    forall|i: int| 0 <= i < s.len() ==> is_hex(#[trigger] s[i])
}

pub open spec fn starts_with_char(s: Seq<char>, c: char) -> bool {
    s.len() > 0 && s[0] == c
}

/// The step a todo line replays: `(is a merge, its commit or label)`. A
/// pick names a commit hash; a merge names one target and at most a comment.
pub open spec fn instruction_of(line: Seq<char>) -> Result<(bool, Seq<char>), Error> {
    let w = words_of(line);
    if w.len() == 0 {
        Err(Error::Usage { text: "空 rebase 指令" })
    } else if w.len() < 2 {
        Err(Error::Usage { text: "rebase 指令缺少参数" })
    } else {
        let merge = w[0] == "merge"@ || w[0] == "m"@;
        let flagged = w[1] == "-C"@ || w[1] == "-c"@;
        if flagged && w.len() < 3 {
            Err(Error::Usage { text: "缺少原 commit" })
        } else if flagged && merge && w.len() < 4 {
            Err(Error::Usage { text: "缺少 merge 目标" })
        } else {
            let value = if flagged {
                if merge {
                    w[3]
                } else {
                    w[2]
                }
            } else {
                w[1]
            };
            let next: int = if flagged {
                if merge {
                    4
                } else {
                    3
                }
            } else {
                2
            };
            if merge {
                if starts_with_char(value, '-') || starts_with_char(value, '#') || (w.len() > next
                    && !starts_with_char(w[next], '#')) {
                    Err(Error::Usage { text: "rebase merge 只支持单个目标；不支持 octopus 或自定义 merge 参数" })
                } else {
                    Ok((true, value))
                }
            } else if value.len() == 0 || !all_hex_chars(value) {
                Err(Error::Usage { text: "rebase pick 必须使用 commit hash" })
            } else {
                Ok((false, value))
            }
        }
    }
}

fn all_hex(s: &String) -> (r: bool)
    ensures
        r == all_hex_chars(s@),
{
    let cs = crate::text::chars_of(s.as_str());
    let mut i: usize = 0;
    while i < cs.len()
        invariant
            i <= cs.len(),
            cs@ == s@,
            forall|k: int| 0 <= k < i ==> is_hex(#[trigger] cs@[k]),
        decreases cs.len() - i,
    {
        let c = cs[i];
        if !(('0' <= c && c <= '9') || ('a' <= c && c <= 'f') || ('A' <= c && c <= 'F')) {
            assert(!is_hex(s@[i as int]));
            return false;
        }
        i += 1;
    }
    true
}

fn first_is(s: &String, c: char) -> (r: bool)
    ensures
        r == starts_with_char(s@, c),
{
    let cs = crate::text::chars_of(s.as_str());
    cs.len() > 0 && cs[0] == c
}

fn same(s: &String, lit: &str) -> (r: bool)
    ensures
        r == (s@ == lit@),
{
    let l = String::from_str(lit);
    *s == l
}

/// The step that a todo line replays.
pub fn instruction(line: &str) -> (r: Result<Instruction, Error>)
    ensures
        match instruction_of(line@) {
            Ok((merge, value)) => r matches Ok(i) && match i {
                Instruction::Merge(v) => merge && v@ == value,
                Instruction::Pick(v) => !merge && v@ == value,
            },
            Err(e) => r == Err::<Instruction, Error>(e),
        },
{
    let w = words(line);
    let ghost wv = string_views(w@);
    if w.len() == 0 {
        return Err(Error::Usage { text: "空 rebase 指令" });
    }
    if w.len() < 2 {
        return Err(Error::Usage { text: "rebase 指令缺少参数" });
    }
    assert(wv[0] == w@[0]@ && wv[1] == w@[1]@);
    let merge = same(&w[0], "merge") || same(&w[0], "m");
    let flagged = same(&w[1], "-C") || same(&w[1], "-c");
    if flagged && w.len() < 3 {
        return Err(Error::Usage { text: "缺少原 commit" });
    }
    if flagged && merge && w.len() < 4 {
        return Err(Error::Usage { text: "缺少 merge 目标" });
    }
    let next: usize = if flagged {
        if merge {
            4
        } else {
            3
        }
    } else {
        2
    };
    let value = &w[next - 1];
    assert(value@ == wv[next - 1]);
    if merge {
        let extra = w.len() > next && !first_is(&w[next], '#');
        if w.len() > next {
            assert(wv[next as int] == w@[next as int]@);
        }
        if first_is(value, '-') || first_is(value, '#') || extra {
            return Err(Error::Usage { text: "rebase merge 只支持单个目标；不支持 octopus 或自定义 merge 参数" });
        }
        Ok(Instruction::Merge(value.clone()))
    } else {
        if crate::text::chars_of(value.as_str()).len() == 0 || !all_hex(value) {
            return Err(Error::Usage { text: "rebase pick 必须使用 commit hash" });
        }
        Ok(Instruction::Pick(value.clone()))
    }
}

// ---------------------------------------------------------------------------
// Guarding a todo list.
// ---------------------------------------------------------------------------

/// The outcome of guarding a todo list.
pub enum TodoOutcome {
    /// The guarded text.
    Text(Seq<char>),
    /// A replay step with an unsupported shape.
    Refused(Error),
    /// An instruction the guarded rebase does not support.
    Unsupported(Seq<char>),
}

pub open spec fn first_word(line: Seq<char>) -> Seq<char> {
    if words_of(line).len() > 0 {
        words_of(line)[0]
    } else {
        seq![]
    }
}

/// Each line trimmed; old guards dropped; a guard before each replay step,
/// whose shape must be supported; comments, blank lines and the other
/// sequencer commands kept; anything else refused.
pub open spec fn guarded_lines(e: Seq<char>, ls: Seq<Seq<char>>) -> TodoOutcome
    decreases ls.len(),
{
    if ls.len() == 0 {
        TodoOutcome::Text(seq![])
    } else {
        match guarded_lines(e, ls.drop_last()) {
            TodoOutcome::Text(out) => {
                let line = trim(ls.last());
                let command = first_word(line);
                if is_prefix(guard_prefix(e), line) {
                    TodoOutcome::Text(out)
                } else if replay_commands().contains(command) {
                    match instruction_of(line) {
                        Err(x) => TodoOutcome::Refused(x),
                        Ok(_) => TodoOutcome::Text(out + guard_text(e, line) + seq!['\n'] + line + seq!['\n']),
                    }
                } else if line.len() > 0 && !starts_with_char(line, '#') && !other_commands().contains(command) {
                    TodoOutcome::Unsupported(command)
                } else {
                    TodoOutcome::Text(out + line + seq!['\n'])
                }
            },
            other => other,
        }
    }
}

proof fn lemma_guarded_stops(e: Seq<char>, ls: Seq<Seq<char>>, i: int)
    requires
        0 <= i <= ls.len(),
        !(guarded_lines(e, ls.take(i)) is Text),
    ensures
        guarded_lines(e, ls) == guarded_lines(e, ls.take(i)),
    decreases ls.len() - i,
{
    if i < ls.len() {
        assert(ls.take(i + 1).drop_last() =~= ls.take(i));
        lemma_guarded_stops(e, ls, i + 1);
    } else {
        assert(ls.take(i) =~= ls);
    }
}

proof fn lemma_hash_prefix(line: Seq<char>)
    ensures
        is_prefix("#"@, line) == starts_with_char(line, '#'),
{
    reveal_strlit("#");
    assert("#"@ =~= seq!['#']);
    if line.len() > 0 {
        assert(line.take(1) =~= seq![line[0]]);
        assert(line.take(1)[0] == line[0]);
        assert("#"@[0] == '#');
    }
}

fn push_newline(s: &mut String)
    ensures
        final(s)@ == old(s)@ + seq!['\n'],
{
    crate::text::push_char(s, '\n');
    assert(s@ =~= old(s)@ + seq!['\n']);
}

/// A todo list with a guard before each replay step.
pub fn guarded(executable: &str, todo: &str) -> (r: Result<String, Error>)
    ensures
        match guarded_lines(executable@, lines_of(todo@)) {
            TodoOutcome::Text(t) => r matches Ok(s) && s@ == t,
            TodoOutcome::Refused(x) => r == Err::<String, Error>(x),
            TodoOutcome::Unsupported(c) => r matches Err(Error::UnsupportedTodo { command }) && command@ == c,
        },
{
    let prefix = prefix_string(executable);
    let ls = lines(todo);
    let ghost lv = string_views(ls@);
    let mut result = String::new();
    let mut i: usize = 0;
    assert(lv.take(0) =~= Seq::<Seq<char>>::empty());
    while i < ls.len()
        invariant
            i <= ls.len(),
            lv == string_views(ls@),
            lv == lines_of(todo@),
            prefix@ == guard_prefix(executable@),
            guarded_lines(executable@, lv.take(i as int)) == TodoOutcome::Text(result@),
        decreases ls.len() - i,
    {
        assert(lv.take(i + 1).drop_last() =~= lv.take(i as int));
        assert(lv.take(i + 1).last() == ls@[i as int]@);
        let line = trimmed(ls[i].as_str());
        let ws = words(line.as_str());
        let command = if ws.len() > 0 {
            ws[0].clone()
        } else {
            String::new()
        };
        assert(command@ == first_word(line@)) by {
            if ws@.len() > 0 {
                assert(string_views(ws@)[0] == ws@[0]@);
            }
        }
        if starts_with(line.as_str(), prefix.as_str()) {
        } else if is_replay(command.as_str()) {
            match instruction(line.as_str()) {
                Err(e) => {
                    proof {
                        lemma_guarded_stops(executable@, lv, i + 1);
                    }
                    return Err(e);
                },
                Ok(_) => {},
            }
            let g = guard(executable, line.as_str());
            result.append(g.as_str());
            push_newline(&mut result);
            result.append(line.as_str());
            push_newline(&mut result);
        } else if crate::text::chars_of(line.as_str()).len() > 0 && !starts_with(line.as_str(), "#")
            && !is_other(command.as_str()) {
            proof {
                lemma_hash_prefix(line@);
                lemma_guarded_stops(executable@, lv, i + 1);
            }
            return Err(Error::UnsupportedTodo { command });
        } else {
            proof {
                lemma_hash_prefix(line@);
            }
            result.append(line.as_str());
            push_newline(&mut result);
        }
        i += 1;
    }
    assert(lv.take(ls.len() as int) =~= lv);
    Ok(result)
}

// ---------------------------------------------------------------------------
// Guarding twice.
// ---------------------------------------------------------------------------

proof fn lemma_concat_one_line(a: Seq<char>, b: Seq<char>)
    requires
        !a.contains('\n'),
        !b.contains('\n'),
    ensures
        !(a + b).contains('\n'),
{
    if (a + b).contains('\n') {
        let k = choose|k: int| 0 <= k < (a + b).len() && (a + b)[k] == '\n';
        if k < a.len() {
            assert(a.contains(a[k]));
        } else {
            assert(b.contains(b[k - a.len()]));
        }
    }
}

proof fn lemma_part_one_line(s: Seq<char>, a: int, b: int)
    requires
        !s.contains('\n'),
        0 <= a <= b <= s.len(),
    ensures
        !s.subrange(a, b).contains('\n'),
{
    if s.subrange(a, b).contains('\n') {
        let k = choose|k: int| 0 <= k < s.subrange(a, b).len() && s.subrange(a, b)[k] == '\n';
        assert(s.contains(s[a + k]));
    }
}

proof fn lemma_escaped_one_line(v: Seq<char>)
    requires
        !v.contains('\n'),
    ensures
        !quote_escaped(v).contains('\n'),
    decreases v.len(),
{
    if v.len() > 0 {
        lemma_part_one_line(v, 0, v.len() - 1);
        assert(v.subrange(0, v.len() - 1) =~= v.drop_last());
        lemma_escaped_one_line(v.drop_last());
        assert(v.contains(v[v.len() - 1]));
        let tail = if v.last() == '\'' {
            seq!['\'', '\\', '\'', '\'']
        } else {
            seq![v.last()]
        };
        if tail.contains('\n') {
            let k = choose|k: int| 0 <= k < tail.len() && tail[k] == '\n';
            assert(tail[k] != '\n');
        }
        lemma_concat_one_line(quote_escaped(v.drop_last()), tail);
    }
}

proof fn lemma_quoted_one_line(v: Seq<char>)
    requires
        !v.contains('\n'),
    ensures
        !shell_quoted(v).contains('\n'),
        shell_quoted(v).last() == '\'',
{
    let q = seq!['\''];
    assert(!q.contains('\n')) by {
        if q.contains('\n') {
            let k = choose|k: int| 0 <= k < q.len() && q[k] == '\n';
        }
    }
    lemma_escaped_one_line(v);
    lemma_concat_one_line(q, quote_escaped(v));
    lemma_concat_one_line(q + quote_escaped(v), q);
}

/// A guard line is one line of text that starts and ends with a visible
/// character, and it begins with the guard prefix.
proof fn lemma_guard_shape(e: Seq<char>, line: Seq<char>)
    requires
        !e.contains('\n'),
        !line.contains('\n'),
    ensures
        !guard_text(e, line).contains('\n'),
        plain_line(guard_text(e, line)),
        trim(guard_text(e, line)) == guard_text(e, line),
        is_prefix(guard_prefix(e), guard_text(e, line)),
{
    reveal_strlit("exec ");
    reveal_strlit(" rebase-check ");
    let head = "exec "@;
    let mid = " rebase-check "@;
    assert(!head.contains('\n')) by {
        if head.contains('\n') {
            let k = choose|k: int| 0 <= k < head.len() && head[k] == '\n';
        }
    }
    assert(!mid.contains('\n')) by {
        if mid.contains('\n') {
            let k = choose|k: int| 0 <= k < mid.len() && mid[k] == '\n';
        }
    }
    lemma_quoted_one_line(e);
    lemma_quoted_one_line(line);
    lemma_concat_one_line(head, shell_quoted(e));
    lemma_concat_one_line(head + shell_quoted(e), mid);
    let p = guard_prefix(e);
    let g = guard_text(e, line);
    lemma_concat_one_line(p, shell_quoted(line));
    assert(g.take(p.len() as int) =~= p);
    assert(g[0] == 'e');
    assert(g.last() == '\'');
    lemma_trim_visible(g);
}

/// The lines that guarding writes, one per line of its output.
pub open spec fn guarded_emitted(e: Seq<char>, ls: Seq<Seq<char>>) -> Seq<Seq<char>>
    decreases ls.len(),
{
    if ls.len() == 0 {
        seq![]
    } else {
        let prev = guarded_emitted(e, ls.drop_last());
        let line = trim(ls.last());
        if is_prefix(guard_prefix(e), line) {
            prev
        } else if replay_commands().contains(first_word(line)) {
            prev.push(guard_text(e, line)).push(line)
        } else {
            prev.push(line)
        }
    }
}

#[verifier::spinoff_prover]
#[verifier::rlimit(40)]
proof fn lemma_guarded_emitted(e: Seq<char>, ls: Seq<Seq<char>>)
    requires
        !e.contains('\n'),
        forall|i: int| 0 <= i < ls.len() ==> !(#[trigger] ls[i]).contains('\n'),
        guarded_lines(e, ls) is Text,
    ensures
        guarded_lines(e, ls) == TodoOutcome::Text(unlines(guarded_emitted(e, ls))),
        forall|i: int|
            0 <= i < guarded_emitted(e, ls).len() ==> plain_line(
                #[trigger] guarded_emitted(e, ls)[i],
            ),
        guarded_lines(e, guarded_emitted(e, ls)) == guarded_lines(e, ls),
    decreases ls.len(),
{
    if ls.len() > 0 {
        let prev_ls = ls.drop_last();
        assert forall|i: int| 0 <= i < prev_ls.len() implies !(#[trigger] prev_ls[i]).contains('\n') by {
            assert(prev_ls[i] == ls[i]);
        }
        lemma_guarded_emitted(e, prev_ls);
        let m = guarded_emitted(e, prev_ls);
        let out = unlines(m);
        let raw = ls.last();
        assert(!raw.contains('\n')) by {
            assert(raw == ls[ls.len() - 1]);
        }
        let line = trim(raw);
        lemma_trim_twice(raw);
        let (a, b) = choose|a: int, b: int| 0 <= a <= b <= raw.len() && trim(raw) == raw.subrange(a, b);
        lemma_part_one_line(raw, a, b);
        assert(plain_line(line));
        let command = first_word(line);
        if is_prefix(guard_prefix(e), line) {
        } else if replay_commands().contains(command) {
            let g = guard_text(e, line);
            lemma_guard_shape(e, line);
            let m1 = m.push(g);
            let m2 = m1.push(line);
            assert(m1.drop_last() =~= m);
            assert(m2.drop_last() =~= m1);
            assert(guarded_lines(e, m1) == TodoOutcome::Text(out));
            assert(guarded_lines(e, m2) == TodoOutcome::Text(out + g + seq!['\n'] + line + seq!['\n']));
            assert(unlines(m1) == out + g + seq!['\n']);
            assert(unlines(m2) =~= out + g + seq!['\n'] + line + seq!['\n']);
            assert forall|i: int| 0 <= i < m2.len() implies plain_line(#[trigger] m2[i]) by {
                if i < m.len() {
                    assert(m2[i] == m[i]);
                }
            }
        } else {
            let m1 = m.push(line);
            assert(m1.drop_last() =~= m);
            assert(guarded_lines(e, m1) == TodoOutcome::Text(out + line + seq!['\n']));
            assert forall|i: int| 0 <= i < m1.len() implies plain_line(#[trigger] m1[i]) by {
                if i < m.len() {
                    assert(m1[i] == m[i]);
                }
            }
        }
    }
}

/// Guarding a todo list that guarding wrote gives it back unchanged: the
/// guards are dropped and written again, every other line stays as it is.
/// (An executable path with a line feed would split its own guard line.)
pub proof fn law_guarding_twice(executable: Seq<char>, todo: Seq<char>)
    requires
        !executable.contains('\n'),
        guarded_lines(executable, lines_of(todo)) is Text,
    ensures
        guarded_lines(executable, lines_of(todo)) matches TodoOutcome::Text(out)
            && guarded_lines(executable, lines_of(out)) == TodoOutcome::Text(out),
{
    let ls = lines_of(todo);
    assert(!Seq::<char>::empty().contains('\n'));
    lemma_lines_from_no_newline(todo, seq![], seq![]);
    lemma_guarded_emitted(executable, ls);
    let m = guarded_emitted(executable, ls);
    lemma_lines_of_unlines(m);
}

/// The lines that are not guards.
pub open spec fn kept_lines(e: Seq<char>, ls: Seq<Seq<char>>) -> Seq<Seq<char>>
    decreases ls.len(),
{
    if ls.len() == 0 {
        seq![]
    } else if is_prefix(guard_prefix(e), trim(ls.last())) {
        kept_lines(e, ls.drop_last())
    } else {
        kept_lines(e, ls.drop_last()).push(ls.last())
    }
}

/// A todo list as the user edits it: without guards, one line each.
pub open spec fn editable_text(e: Seq<char>, text: Seq<char>) -> Seq<char> {
    crate::text::join(kept_lines(e, lines_of(text)), seq!['\n']) + seq!['\n']
}

pub fn editable(executable: &str, text: &str) -> (r: String)
    ensures
        r@ == editable_text(executable@, text@),
{
    let prefix = prefix_string(executable);
    let ls = lines(text);
    let ghost lv = string_views(ls@);
    let mut kept: Vec<String> = Vec::new();
    let mut i: usize = 0;
    assert(lv.take(0) =~= Seq::<Seq<char>>::empty());
    assert(string_views(kept@) =~= Seq::<Seq<char>>::empty());
    while i < ls.len()
        invariant
            i <= ls.len(),
            lv == string_views(ls@),
            prefix@ == guard_prefix(executable@),
            string_views(kept@) == kept_lines(executable@, lv.take(i as int)),
        decreases ls.len() - i,
    {
        assert(lv.take(i + 1).drop_last() =~= lv.take(i as int));
        assert(lv.take(i + 1).last() == ls@[i as int]@);
        let t = trimmed(ls[i].as_str());
        if !starts_with(t.as_str(), prefix.as_str()) {
            let ghost before = string_views(kept@);
            kept.push(ls[i].clone());
            assert(string_views(kept@) =~= before.push(ls@[i as int]@));
        }
        i += 1;
    }
    assert(lv.take(ls.len() as int) =~= lv);
    let mut r = crate::text::join_strings(&kept, "\n");
    push_newline(&mut r);
    proof {
        reveal_strlit("\n");
        assert("\n"@ =~= seq!['\n']);
    }
    r
}

// ---------------------------------------------------------------------------
// Skipping a blocked step.
// ---------------------------------------------------------------------------

pub open spec fn newline_at(s: Seq<char>, i: int) -> bool {
    0 <= i < s.len() && s[i] == '\n' && forall|j: int| 0 <= j < i ==> s[j] != '\n'
}

/// The step after a blocked step's guard, and the rest of the list: only
/// where the list (leading whitespace aside) still starts with that guard.
pub open spec fn blocked_split(e: Seq<char>, todo: Seq<char>, line: Seq<char>) -> Option<(Seq<char>, Seq<char>)> {
    let prefix = guard_text(e, line) + seq!['\n'];
    let t = crate::text::trim_start(todo);
    if is_prefix(prefix, t) {
        let rest = t.skip(prefix.len() as int);
        if exists|i: int| newline_at(rest, i) {
            let i = choose|i: int| newline_at(rest, i);
            Some((rest.take(i), rest.skip(i + 1)))
        } else {
            None
        }
    } else {
        None
    }
}

/// Which word of a valid step names a commit: the one after `-C`/`-c`, else
/// a pick's argument; a merge without `-C`/`-c` names a label.
pub open spec fn commit_field(w: Seq<Seq<char>>) -> Option<int> {
    if w[1] == "-C"@ || w[1] == "-c"@ {
        Some(2)
    } else if w[0] == "merge"@ || w[0] == "m"@ {
        None
    } else {
        Some(1)
    }
}

/// Two valid steps with as many words, equal wherever neither names a commit.
pub open spec fn same_shape(a: Seq<char>, b: Seq<char>) -> bool {
    let wa = words_of(a);
    let wb = words_of(b);
    &&& instruction_of(a) is Ok
    &&& instruction_of(b) is Ok
    &&& wa.len() == wb.len()
    &&& forall|k: int|
        0 <= k < wa.len() && commit_field(wa) != Some(k) && commit_field(wb) != Some(k) ==> #[trigger] wa[k] == wb[k]
}

pub const LIST_CHANGED: &'static str = "待办列表已变化，无法确认要跳过的步骤；请使用 --edit-todo 或 --abort";

/// The todo list after a blocked step's guard and the step: found only where
/// the list still starts with both. A step whose text Git rewrote must have
/// the same shape, with its commit resolving to the same one.
fn split_blocked(executable: &str, todo: &str, line: &str) -> (r: Option<(String, String)>)
    ensures
        match blocked_split(executable@, todo@, line@) {
            Some((a, b)) => r matches Some(p) && p.0@ == a && p.1@ == b,
            None => r is None,
        },
{
    let mut prefix = guard(executable, line);
    push_newline(&mut prefix);
    let ghost pv = prefix@;
    let t = crate::text::trimmed_start(crate::text::chars_of(todo).as_slice());
    let ps = crate::text::chars_of(prefix.as_str());
    if ps.len() > t.len() {
        return None;
    }
    let mut i: usize = 0;
    while i < ps.len()
        invariant
            i <= ps.len() <= t.len(),
            t@ == crate::text::trim_start(todo@),
            ps@ == guard_text(executable@, line@) + seq!['\n'],
            forall|k: int| 0 <= k < i ==> t@[k] == ps@[k],
        decreases ps.len() - i,
    {
        if t[i] != ps[i] {
            assert(t@.take(ps.len() as int)[i as int] != ps@[i as int]);
            return None;
        }
        i += 1;
    }
    assert(t@.take(ps.len() as int) =~= ps@);
    let ghost rest = t@.skip(ps.len() as int);
    let mut j: usize = ps.len();
    while j < t.len() && t[j] != '\n'
        invariant
            ps.len() <= j <= t.len(),
            rest == t@.skip(ps.len() as int),
            forall|k: int| ps.len() <= k < j ==> t@[k] != '\n',
        decreases t.len() - j,
    {
        j += 1;
    }
    if j == t.len() {
        assert forall|n: int| !newline_at(rest, n) by {
            if 0 <= n < rest.len() {
                assert(rest[n] == t@[n + ps.len()]);
            }
        }
        return None;
    }
    let n = j - ps.len();
    assert(newline_at(rest, n as int)) by {
        assert forall|k: int| 0 <= k < n implies rest[k] != '\n' by {
            assert(rest[k] == t@[k + ps.len()]);
        }
    }
    assert forall|m: int| newline_at(rest, m) implies m == n by {
        if m < n {
            assert(rest[m] == t@[m + ps.len()]);
        }
        if m > n {
            assert(rest[n as int] == '\n');
        }
    }
    let mut actual: Vec<char> = Vec::new();
    let mut k: usize = ps.len();
    while k < j
        invariant
            ps.len() <= k <= j < t.len(),
            actual@ == t@.subrange(ps.len() as int, k as int),
        decreases j - k,
    {
        actual.push(t[k]);
        k += 1;
        assert(actual@ =~= t@.subrange(ps.len() as int, k as int));
    }
    let mut remaining: Vec<char> = Vec::new();
    let mut m: usize = j + 1;
    while m < t.len()
        invariant
            j + 1 <= m <= t.len(),
            remaining@ == t@.subrange(j + 1, m as int),
        decreases t.len() - m,
    {
        remaining.push(t[m]);
        m += 1;
        assert(remaining@ =~= t@.subrange(j + 1, m as int));
    }
    assert(actual@ =~= rest.take(n as int));
    assert(remaining@ =~= rest.skip(n + 1));
    Some((crate::text::string_of(actual.as_slice()), crate::text::string_of(remaining.as_slice())))
}

fn commit_index(w: &Vec<String>) -> (r: Option<usize>)
    requires
        w@.len() >= 2,
    ensures
        match commit_field(string_views(w@)) {
            Some(k) => r == Some(k as usize),
            None => r is None,
        },
{
    assert(string_views(w@)[0] == w@[0]@ && string_views(w@)[1] == w@[1]@);
    if same(&w[1], "-C") || same(&w[1], "-c") {
        Some(2)
    } else if same(&w[0], "merge") || same(&w[0], "m") {
        None
    } else {
        Some(1)
    }
}

proof fn lemma_valid_words(line: Seq<char>)
    requires
        instruction_of(line) is Ok,
    ensures
        words_of(line).len() >= 2,
        commit_field(words_of(line)) matches Some(k) ==> k < words_of(line).len(),
{
}

/// `word` is a commit name that `resolve` answered with `commit`.
pub open spec fn resolves_to<F: Fn(&str) -> Result<String, Error>>(
    resolve: F,
    word: Seq<char>,
    commit: Seq<char>,
) -> bool {
    exists|x: &str, v: String|
        x@ == word && v@ == commit && #[trigger] resolve.ensures((x,), Ok::<String, Error>(v))
}

/// `v` is the words `w` of a step with its commit word resolved by `resolve`.
pub open spec fn resolved_words<F: Fn(&str) -> Result<String, Error>>(
    resolve: F,
    w: Seq<Seq<char>>,
    v: Seq<Seq<char>>,
) -> bool {
    &&& v.len() == w.len()
    &&& forall|k: int|
        0 <= k < v.len() ==> if commit_field(w) == Some(k) {
            resolves_to(resolve, w[k], #[trigger] v[k])
        } else {
            v[k] == w[k]
        }
}

/// A step's words with its commit word resolved.
fn canonical<F: Fn(&str) -> Result<String, Error>>(text: &str, resolve_commit: &F) -> (r: Result<Vec<String>, Error>)
    requires
        forall|x: &str| resolve_commit.requires((x,)),
    ensures
        instruction_of(text@) matches Err(x) ==> r == Err::<Vec<String>, Error>(x),
        r is Ok ==> instruction_of(text@) is Ok,
        r matches Ok(v) ==> v@.len() == words_of(text@).len() && forall|k: int|
            0 <= k < v@.len() && commit_field(words_of(text@)) != Some(k) ==> #[trigger] v@[k]@ == words_of(text@)[k],
        r matches Ok(v) ==> resolved_words(*resolve_commit, words_of(text@), string_views(v@)),
{
    match instruction(text) {
        Err(e) => return Err(e),
        Ok(_) => {},
    }
    proof {
        lemma_valid_words(text@);
    }
    let mut fields = words(text);
    let ghost wv = string_views(fields@);
    match commit_index(&fields) {
        None => {
            assert forall|k: int| 0 <= k < fields@.len() && commit_field(words_of(text@)) != Some(k) implies #[trigger] fields@[k]@ == words_of(text@)[k] by {
                assert(wv[k] == fields@[k]@);
            }
            assert(string_views(fields@) =~= words_of(text@));
            Ok(fields)
        },
        Some(index) => {
            let name = fields[index].as_str();
            let answer = resolve_commit(name);
            let resolved = match answer {
                Ok(v) => v,
                Err(e) => return Err(e),
            };
            let ghost before = fields@;
            proof {
                assert(name@ == wv[index as int]);
                assert(resolve_commit.ensures((name,), Ok::<String, Error>(resolved)));
                assert(resolves_to(*resolve_commit, wv[index as int], resolved@));
            }
            let ghost rv = resolved@;
            fields.set(index, resolved);
            assert forall|k: int| 0 <= k < fields@.len() && commit_field(words_of(text@)) != Some(k) implies #[trigger] fields@[k]@ == words_of(text@)[k] by {
                assert(fields@[k] == before[k]);
                assert(wv[k] == before[k]@);
            }
            assert forall|k: int| 0 <= k < string_views(fields@).len() implies if commit_field(words_of(text@)) == Some(k) {
                resolves_to(*resolve_commit, words_of(text@)[k], #[trigger] string_views(fields@)[k])
            } else {
                string_views(fields@)[k] == words_of(text@)[k]
            } by {
                assert(string_views(fields@)[k] == fields@[k]@);
                if k == index {
                    assert(fields@[k]@ == rv);
                } else {
                    assert(fields@[k] == before[k]);
                    assert(wv[k] == before[k]@);
                }
            }
            Ok(fields)
        },
    }
}

fn same_strings(a: &Vec<String>, b: &Vec<String>) -> (r: bool)
    ensures
        r == (string_views(a@) == string_views(b@)),
{
    if a.len() != b.len() {
        assert(string_views(a@).len() != string_views(b@).len());
        return false;
    }
    let mut i: usize = 0;
    while i < a.len()
        invariant
            i <= a.len(),
            a.len() == b.len(),
            forall|k: int| 0 <= k < i ==> a@[k]@ == b@[k]@,
        decreases a.len() - i,
    {
        if a[i] != b[i] {
            assert(string_views(a@)[i as int] != string_views(b@)[i as int]);
            return false;
        }
        i += 1;
    }
    assert(string_views(a@) =~= string_views(b@)) by {
        assert forall|k: int| 0 <= k < a@.len() implies string_views(a@)[k] == string_views(b@)[k] by {
            assert(a@[k]@ == b@[k]@);
        }
    }
    true
}

/// The todo list after the blocked step: where the list still starts with
/// the step's guard and the step (or a step Git rewrote to the same shape and
/// the same commit), the rest of the list; else a refusal.
pub fn skip_blocked<F: Fn(&str) -> Result<String, Error>>(
    executable: &str,
    todo: &str,
    line: &str,
    resolve_commit: F,
) -> (r: Result<String, Error>)
    requires
        forall|x: &str| resolve_commit.requires((x,)),
    ensures
        match blocked_split(executable@, todo@, line@) {
            None => r == Err::<String, Error>(Error::Usage { text: LIST_CHANGED }),
            Some((a, b)) => {
                &&& a == line@ ==> match r {
                    Ok(s) => s@ == b,
                    Err(_) => false,
                }
                &&& match instruction_of(line@) {
                    Err(x) => a != line@ ==> r == Err::<String, Error>(x),
                    Ok(_) => true,
                }
                &&& match r {
                    Ok(s) => s@ == b && (a == line@ || same_shape(line@, a)),
                    Err(_) => true,
                }
                &&& (r is Ok && a != line@) ==> exists|v: Seq<Seq<char>>|
                    resolved_words(resolve_commit, words_of(line@), v) && resolved_words(
                        resolve_commit,
                        words_of(a),
                        v,
                    )
            },
        },
{
    let (actual, remaining) = match split_blocked(executable, todo, line) {
        None => return Err(Error::Usage { text: LIST_CHANGED }),
        Some(p) => p,
    };
    let l = String::from_str(line);
    if actual != l {
        let expected = canonical(line, &resolve_commit)?;
        let found = canonical(actual.as_str(), &resolve_commit)?;
        if !same_strings(&expected, &found) {
            return Err(Error::Usage { text: LIST_CHANGED });
        }
        proof {
            let wa = words_of(line@);
            let wb = words_of(actual@);
            lemma_valid_words(line@);
            lemma_valid_words(actual@);
            assert(string_views(expected@) == string_views(found@));
            assert(string_views(expected@).len() == expected@.len());
            assert(string_views(found@).len() == found@.len());
            assert(expected@.len() == found@.len());
            assert forall|k: int| 0 <= k < wa.len() && commit_field(wa) != Some(k) && commit_field(wb) != Some(k) implies #[trigger] wa[k] == wb[k] by {
                assert(string_views(expected@)[k] == expected@[k]@);
                assert(string_views(found@)[k] == found@[k]@);
                assert(expected@[k]@ == wa[k]);
                assert(found@[k]@ == wb[k]);
            }
            assert(resolved_words(resolve_commit, wa, string_views(expected@)));
            assert(resolved_words(resolve_commit, wb, string_views(found@)));
        }
    }
    Ok(remaining)
}

} // verus!
