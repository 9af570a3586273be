//! Character-sequence helpers shared by the analysis and rendering code.
use vstd::prelude::*;
use vstd::string::StringExecFns;

verus! {

/// The decimal spelling of a natural number, most significant digit first.
pub open spec fn decimal(n: nat) -> Seq<char>
    decreases n,
{
    if n < 10 {
        seq![digit_char(n)]
    } else {
        decimal(n / 10).push(digit_char(n % 10))
    }
}

pub open spec fn digit_char(d: nat) -> char {
    if d == 0 { '0' } else if d == 1 { '1' } else if d == 2 { '2' } else if d == 3 { '3' }
    else if d == 4 { '4' } else if d == 5 { '5' } else if d == 6 { '6' } else if d == 7 { '7' }
    else if d == 8 { '8' } else { '9' }
}

fn digit(d: usize) -> (c: char)
    requires d < 10,
    ensures c == digit_char(d as nat),
{
    if d == 0 { '0' } else if d == 1 { '1' } else if d == 2 { '2' } else if d == 3 { '3' }
    else if d == 4 { '4' } else if d == 5 { '5' } else if d == 6 { '6' } else if d == 7 { '7' }
    else if d == 8 { '8' } else { '9' }
}

/// Appends one character; `String::push` has no specification in vstd.
#[verifier::external_body]
pub fn push_char(s: &mut String, c: char)
    ensures
        final(s)@ == old(s)@.push(c),
{
    s.push(c)
}

/// Decimal rendering of a count or line number.
pub fn decimal_string(n: usize) -> (s: String)
    ensures
        s@ == decimal(n as nat),
    decreases n,
{
    if n < 10 {
        let mut s = String::new();
        push_char(&mut s, digit(n));
        s
    } else {
        let mut s = decimal_string(n / 10);
        push_char(&mut s, digit(n % 10));
        s
    }
}

/// The characters of a string slice, in order.
pub fn chars_of(s: &str) -> (v: Vec<char>)
    ensures
        v@ == s@,
{
    let mut v: Vec<char> = Vec::new();
    for c in it: s.chars()
        invariant
            v@ == it.seq().take(it.index() as int),
    {
        v.push(c);
    }
    v
}

/// A string holding exactly the given characters.
pub fn string_of(v: &[char]) -> (s: String)
    ensures
        s@ == v@,
{
    let mut s = String::new();
    let mut i: usize = 0;
    while i < v.len()
        invariant
            i <= v.len(),
            s@ == v@.take(i as int),
        decreases v.len() - i,
    {
        push_char(&mut s, v[i]);
        i += 1;
        assert(v@.take(i as int) == v@.take((i - 1) as int).push(v@[i - 1]));
    }
    assert(v@.take(v.len() as int) == v@);
    s
}

pub fn concat(a: &str, b: &str) -> (s: String)
    ensures
        s@ == a@ + b@,
{
    let mut s = String::from_str(a);
    s.append(b);
    s
}

/// Unicode `White_Space`, the property that `char::is_whitespace` tests.
pub open spec fn spec_is_white_space(c: char) -> bool {
    let u = c as u32;
    (0x9 <= u <= 0xd) || u == 0x20 || u == 0x85 || u == 0xa0 || u == 0x1680 || (0x2000 <= u
        <= 0x200a) || u == 0x2028 || u == 0x2029 || u == 0x202f || u == 0x205f || u == 0x3000
}

pub fn is_white_space(c: char) -> (r: bool)
    ensures
        r == spec_is_white_space(c),
{
    let u = c as u32;
    (0x9 <= u && u <= 0xd) || u == 0x20 || u == 0x85 || u == 0xa0 || u == 0x1680 || (0x2000 <= u
        && u <= 0x200a) || u == 0x2028 || u == 0x2029 || u == 0x202f || u == 0x205f || u == 0x3000
}

/// The parts separated by `sep`.
pub open spec fn join(parts: Seq<Seq<char>>, sep: Seq<char>) -> Seq<char>
    decreases parts.len(),
{
    if parts.len() == 0 {
        Seq::empty()
    } else if parts.len() == 1 {
        parts[0]
    } else {
        join(parts.drop_last(), sep) + sep + parts.last()
    }
}

pub open spec fn string_views(v: Seq<String>) -> Seq<Seq<char>> {
    v.map_values(|s: String| s@)
}

pub fn join_strings(parts: &Vec<String>, sep: &str) -> (r: String)
    ensures
        r@ == join(string_views(parts@), sep@),
{
    let ghost ps = string_views(parts@);
    if parts.len() == 0 {
        return String::new();
    }
    let mut r = parts[0].clone();
    assert(ps.take(1).drop_last() =~= Seq::<Seq<char>>::empty());
    let mut i: usize = 1;
    while i < parts.len()
        invariant
            1 <= i <= parts.len(),
            ps == string_views(parts@),
            r@ == join(ps.take(i as int), sep@),
        decreases parts.len() - i,
    {
        r.append(sep);
        r.append(parts[i].as_str());
        assert(ps.take(i + 1).drop_last() =~= ps.take(i as int));
        i += 1;
    }
    assert(ps.take(parts.len() as int) =~= ps);
    r
}

pub fn same_chars(a: &Vec<char>, b: &Vec<char>) -> (r: bool)
    ensures
        r == (a@ == b@),
{
    if a.len() != b.len() {
        return false;
    }
    let mut i: usize = 0;
    while i < a.len()
        invariant
            i <= a.len(),
            a.len() == b.len(),
            forall|k: int| 0 <= k < i ==> a@[k] == b@[k],
        decreases a.len() - i,
    {
        if a[i] != b[i] {
            return false;
        }
        i += 1;
    }
    assert(a@ =~= b@);
    true
}

// ---------------------------------------------------------------------------
// Lines, words, trimming and prefixes, as `str` defines them.
// ---------------------------------------------------------------------------

pub open spec fn is_prefix(p: Seq<char>, s: Seq<char>) -> bool {
    p.len() <= s.len() && s.take(p.len() as int) == p
}

pub open spec fn strip_cr(line: Seq<char>) -> Seq<char> {
    if line.len() > 0 && line.last() == '\r' {
        line.drop_last()
    } else {
        line
    }
}

/// The lines of `s` after the collected `acc` and the partial line `cur`.
pub open spec fn lines_from(s: Seq<char>, cur: Seq<char>, acc: Seq<Seq<char>>) -> Seq<Seq<char>>
    decreases s.len(),
{
    if s.len() == 0 {
        if cur.len() == 0 {
            acc
        } else {
            acc.push(cur)
        }
    } else if s[0] == '\n' {
        lines_from(s.skip(1), seq![], acc.push(strip_cr(cur)))
    } else {
        lines_from(s.skip(1), cur.push(s[0]), acc)
    }
}

/// `str::lines`: split at each `\n`, a `\r\n` ending losing its `\r`, with no
/// empty line after a final line ending.
pub open spec fn lines_of(s: Seq<char>) -> Seq<Seq<char>> {
    lines_from(s, seq![], seq![])
}

/// The words of `s` after the collected `acc` and the partial word `cur`.
pub open spec fn words_from(s: Seq<char>, cur: Seq<char>, acc: Seq<Seq<char>>) -> Seq<Seq<char>>
    decreases s.len(),
{
    if s.len() == 0 {
        if cur.len() == 0 {
            acc
        } else {
            acc.push(cur)
        }
    } else if spec_is_white_space(s[0]) {
        if cur.len() == 0 {
            words_from(s.skip(1), cur, acc)
        } else {
            words_from(s.skip(1), seq![], acc.push(cur))
        }
    } else {
        words_from(s.skip(1), cur.push(s[0]), acc)
    }
}

/// `str::split_whitespace`: the maximal runs of non-whitespace characters.
pub open spec fn words_of(s: Seq<char>) -> Seq<Seq<char>> {
    words_from(s, seq![], seq![])
}

pub open spec fn trim_start(s: Seq<char>) -> Seq<char>
    decreases s.len(),
{
    if s.len() > 0 && spec_is_white_space(s[0]) {
        trim_start(s.skip(1))
    } else {
        s
    }
}

pub open spec fn trim_end(s: Seq<char>) -> Seq<char>
    decreases s.len(),
{
    if s.len() > 0 && spec_is_white_space(s.last()) {
        trim_end(s.drop_last())
    } else {
        s
    }
}

/// `str::trim`.
pub open spec fn trim(s: Seq<char>) -> Seq<char> {
    trim_end(trim_start(s))
}

/// The lines of a text.
pub fn lines(s: &str) -> (r: Vec<String>)
    ensures
        string_views(r@) == lines_of(s@),
{
    let cs = chars_of(s);
    let mut acc: Vec<String> = Vec::new();
    let mut cur: Vec<char> = Vec::new();
    let mut i: usize = 0;
    assert(cs@.skip(0) =~= cs@);
    assert(string_views(acc@) =~= Seq::<Seq<char>>::empty());
    while i < cs.len()
        invariant
            i <= cs.len(),
            cs@ == s@,
            lines_from(cs@.skip(i as int), cur@, string_views(acc@)) == lines_of(s@),
        decreases cs.len() - i,
    {
        assert(cs@.skip(i as int).skip(1) =~= cs@.skip(i + 1));
        assert(cs@.skip(i as int)[0] == cs@[i as int]);
        if cs[i] == '\n' {
            let ghost before = string_views(acc@);
            let line = if cur.len() > 0 && cur[cur.len() - 1] == '\r' {
                let mut c = cur;
                c.pop();
                c
            } else {
                cur
            };
            assert(line@ == strip_cr(cur@)) by {
                if cur@.len() > 0 && cur@.last() == '\r' {
                    assert(line@ =~= cur@.drop_last());
                }
            }
            acc.push(string_of(line.as_slice()));
            assert(string_views(acc@) =~= before.push(strip_cr(cur@)));
            cur = Vec::new();
            assert(cur@ =~= Seq::<char>::empty());
        } else {
            cur.push(cs[i]);
        }
        i += 1;
    }
    assert(cs@.skip(cs.len() as int) =~= Seq::<char>::empty());
    if cur.len() > 0 {
        let ghost before = string_views(acc@);
        acc.push(string_of(cur.as_slice()));
        assert(string_views(acc@) =~= before.push(cur@));
    }
    acc
}

/// The whitespace-separated words of a text.
pub fn words(s: &str) -> (r: Vec<String>)
    ensures
        string_views(r@) == words_of(s@),
{
    let cs = chars_of(s);
    let mut acc: Vec<String> = Vec::new();
    let mut cur: Vec<char> = Vec::new();
    let mut i: usize = 0;
    assert(cs@.skip(0) =~= cs@);
    assert(string_views(acc@) =~= Seq::<Seq<char>>::empty());
    while i < cs.len()
        invariant
            i <= cs.len(),
            cs@ == s@,
            words_from(cs@.skip(i as int), cur@, string_views(acc@)) == words_of(s@),
        decreases cs.len() - i,
    {
        assert(cs@.skip(i as int).skip(1) =~= cs@.skip(i + 1));
        assert(cs@.skip(i as int)[0] == cs@[i as int]);
        if is_white_space(cs[i]) {
            if cur.len() > 0 {
                let ghost before = string_views(acc@);
                acc.push(string_of(cur.as_slice()));
                assert(string_views(acc@) =~= before.push(cur@));
                cur = Vec::new();
                assert(cur@ =~= Seq::<char>::empty());
            }
        } else {
            cur.push(cs[i]);
        }
        i += 1;
    }
    assert(cs@.skip(cs.len() as int) =~= Seq::<char>::empty());
    if cur.len() > 0 {
        let ghost before = string_views(acc@);
        acc.push(string_of(cur.as_slice()));
        assert(string_views(acc@) =~= before.push(cur@));
    }
    acc
}

proof fn lemma_trim_start_skip(s: Seq<char>, i: int)
    requires
        0 <= i <= s.len(),
        forall|k: int| 0 <= k < i ==> spec_is_white_space(#[trigger] s[k]),
    ensures
        trim_start(s) == trim_start(s.skip(i)),
    decreases i,
{
    if i > 0 {
        assert(s.skip(1).skip(i - 1) =~= s.skip(i));
        assert forall|k: int| 0 <= k < i - 1 implies spec_is_white_space(#[trigger] s.skip(1)[k]) by {
            assert(s.skip(1)[k] == s[k + 1]);
        }
        lemma_trim_start_skip(s.skip(1), i - 1);
        assert(spec_is_white_space(s[0]));
    } else {
        assert(s.skip(0) =~= s);
    }
}

proof fn lemma_trim_end_take(s: Seq<char>, j: int)
    requires
        0 <= j <= s.len(),
        forall|k: int| j <= k < s.len() ==> spec_is_white_space(#[trigger] s[k]),
    ensures
        trim_end(s) == trim_end(s.take(j)),
    decreases s.len() - j,
{
    if j < s.len() {
        assert(s.drop_last().take(j) =~= s.take(j));
        assert forall|k: int| j <= k < s.drop_last().len() implies spec_is_white_space(#[trigger] s.drop_last()[k]) by {
            assert(s.drop_last()[k] == s[k]);
        }
        lemma_trim_end_take(s.drop_last(), j);
        assert(spec_is_white_space(s.last()));
    } else {
        assert(s.take(j) =~= s);
    }
}

/// The characters of `s` without leading whitespace.
pub fn trimmed_start(s: &[char]) -> (r: Vec<char>)
    ensures
        r@ == trim_start(s@),
{
    let mut i: usize = 0;
    while i < s.len() && is_white_space(s[i])
        invariant
            i <= s.len(),
            forall|k: int| 0 <= k < i ==> spec_is_white_space(#[trigger] s@[k]),
        decreases s.len() - i,
    {
        i += 1;
    }
    proof {
        lemma_trim_start_skip(s@, i as int);
        if i < s.len() {
            assert(s@.skip(i as int)[0] == s@[i as int]);
        }
    }
    let mut r: Vec<char> = Vec::new();
    let mut k: usize = i;
    while k < s.len()
        invariant
            i <= k <= s.len(),
            r@ == s@.subrange(i as int, k as int),
        decreases s.len() - k,
    {
        r.push(s[k]);
        k += 1;
        assert(r@ =~= s@.subrange(i as int, k as int));
    }
    assert(s@.subrange(i as int, s.len() as int) =~= s@.skip(i as int));
    r
}

/// The characters of `s` without leading or trailing whitespace.
pub fn trimmed(s: &str) -> (r: String)
    ensures
        r@ == trim(s@),
{
    let cs = chars_of(s);
    let t = trimmed_start(cs.as_slice());
    let mut j: usize = t.len();
    while j > 0 && is_white_space(t[j - 1])
        invariant
            j <= t.len(),
            forall|k: int| j <= k < t@.len() ==> spec_is_white_space(#[trigger] t@[k]),
        decreases j,
    {
        j -= 1;
    }
    proof {
        lemma_trim_end_take(t@, j as int);
        if j > 0 {
            assert(t@.take(j as int).last() == t@[j - 1]);
        }
    }
    let mut r: Vec<char> = Vec::new();
    let mut k: usize = 0;
    while k < j
        invariant
            k <= j <= t.len(),
            r@ == t@.take(k as int),
        decreases j - k,
    {
        r.push(t[k]);
        k += 1;
        assert(r@ =~= t@.take(k as int));
    }
    string_of(r.as_slice())
}

/// Whether `p` is a prefix of `s`.
pub fn starts_with(s: &str, p: &str) -> (r: bool)
    ensures
        r == is_prefix(p@, s@),
{
    let cs = chars_of(s);
    let ps = chars_of(p);
    if ps.len() > cs.len() {
        return false;
    }
    let mut i: usize = 0;
    while i < ps.len()
        invariant
            i <= ps.len() <= cs.len(),
            cs@ == s@,
            ps@ == p@,
            forall|k: int| 0 <= k < i ==> cs@[k] == ps@[k],
        decreases ps.len() - i,
    {
        if cs[i] != ps[i] {
            assert(cs@.take(ps.len() as int)[i as int] != ps@[i as int]);
            return false;
        }
        i += 1;
    }
    assert(cs@.take(ps.len() as int) =~= ps@);
    true
}

// ---------------------------------------------------------------------------
// Lines written back as text.
// ---------------------------------------------------------------------------

/// Each line followed by a line feed.
pub open spec fn unlines(ls: Seq<Seq<char>>) -> Seq<char>
    decreases ls.len(),
{
    if ls.len() == 0 {
        seq![]
    } else {
        unlines(ls.drop_last()) + ls.last() + seq!['\n']
    }
}

/// A line as `str::lines` gives it back: no line feed, no trailing `\r`.
pub open spec fn plain_line(l: Seq<char>) -> bool {
    !l.contains('\n') && !(l.len() > 0 && l.last() == '\r')
}

/// Reading past a text that ends with a line feed leaves no partial line.
pub proof fn lemma_lines_from_split(a: Seq<char>, b: Seq<char>, cur: Seq<char>, acc: Seq<Seq<char>>)
    requires
        a.len() > 0,
        a.last() == '\n',
    ensures
        lines_from(a + b, cur, acc) == lines_from(b, seq![], lines_from(a, cur, acc)),
    decreases a.len(),
{
    assert((a + b).skip(1) =~= a.skip(1) + b);
    assert((a + b)[0] == a[0]);
    if a.len() == 1 {
        assert(a.skip(1) =~= Seq::<char>::empty());
        assert(a.skip(1) + b =~= b);
        assert(a[0] == '\n');
        assert(lines_from(a.skip(1), seq![], acc.push(strip_cr(cur))) == acc.push(strip_cr(cur)));
    } else {
        let rest = a.skip(1);
        assert(rest.last() == a.last());
        if a[0] == '\n' {
            lemma_lines_from_split(rest, b, seq![], acc.push(strip_cr(cur)));
        } else {
            lemma_lines_from_split(rest, b, cur.push(a[0]), acc);
        }
    }
}

/// A line without a line feed, then a line feed: one more line.
pub proof fn lemma_lines_from_line(x: Seq<char>, cur: Seq<char>, acc: Seq<Seq<char>>)
    requires
        !x.contains('\n'),
    ensures
        lines_from(x + seq!['\n'], cur, acc) == acc.push(strip_cr(cur + x)),
    decreases x.len(),
{
    let s = x + seq!['\n'];
    assert(s.len() > 0);
    if x.len() == 0 {
        assert(s =~= seq!['\n']);
        assert(s[0] == '\n');
        assert(s.skip(1) =~= Seq::<char>::empty());
        assert(cur + x =~= cur);
        let next = acc.push(strip_cr(cur));
        assert(lines_from(s.skip(1), seq![], next) == next);
        assert(lines_from(s, cur, acc) == lines_from(s.skip(1), seq![], next));
    } else {
        assert(s[0] == x[0]);
        assert(x[0] != '\n') by {
            if x[0] == '\n' {
                assert(x.contains(x[0]));
            }
        }
        assert(s.skip(1) =~= x.skip(1) + seq!['\n']);
        assert(!x.skip(1).contains('\n')) by {
            if x.skip(1).contains('\n') {
                let k = choose|k: int| 0 <= k < x.skip(1).len() && x.skip(1)[k] == '\n';
                assert(x[k + 1] == '\n');
                assert(x.contains(x[k + 1]));
            }
        }
        lemma_lines_from_line(x.skip(1), cur.push(x[0]), acc);
        assert(lines_from(s, cur, acc) == lines_from(s.skip(1), cur.push(x[0]), acc));
        assert(cur.push(x[0]) + x.skip(1) =~= cur + x);
    }
}

/// Lines written back with a line feed each read back as the same lines.
pub proof fn lemma_lines_of_unlines(ls: Seq<Seq<char>>)
    requires
        forall|i: int| 0 <= i < ls.len() ==> plain_line(#[trigger] ls[i]),
    ensures
        lines_of(unlines(ls)) == ls,
    decreases ls.len(),
{
    if ls.len() > 0 {
        let prev = ls.drop_last();
        assert forall|i: int| 0 <= i < prev.len() implies plain_line(#[trigger] prev[i]) by {
            assert(prev[i] == ls[i]);
        }
        lemma_lines_of_unlines(prev);
        let x = ls.last();
        assert(plain_line(ls[ls.len() - 1]));
        let piece = x + seq!['\n'];
        assert(unlines(ls) =~= unlines(prev) + piece);
        lemma_lines_from_line(x, seq![], lines_of(unlines(prev)));
        assert(Seq::<char>::empty() + x =~= x);
        assert(strip_cr(x) == x);
        if unlines(prev).len() > 0 {
            assert(unlines(prev).last() == '\n') by {
                assert(unlines(prev) =~= unlines(prev.drop_last()) + prev.last() + seq!['\n']);
            }
            lemma_lines_from_split(unlines(prev), piece, seq![], seq![]);
        } else {
            assert(unlines(prev) + piece =~= piece);
            assert(lines_of(unlines(prev)) == lines_from(Seq::<char>::empty(), seq![], seq![]));
        }
        assert(prev.push(x) =~= ls);
    } else {
        assert(lines_of(Seq::<char>::empty()) == Seq::<Seq<char>>::empty());
    }
}

/// `str::lines` never gives a line feed or a trailing `\r`... except a final
/// line without a line feed, which keeps its `\r`.
pub proof fn lemma_lines_from_no_newline(s: Seq<char>, cur: Seq<char>, acc: Seq<Seq<char>>)
    requires
        !cur.contains('\n'),
        forall|i: int| 0 <= i < acc.len() ==> !(#[trigger] acc[i]).contains('\n'),
    ensures
        forall|i: int| 0 <= i < lines_from(s, cur, acc).len() ==> !(#[trigger] lines_from(s, cur, acc)[i]).contains('\n'),
    decreases s.len(),
{
    if s.len() == 0 {
        if cur.len() > 0 {
            assert forall|i: int| 0 <= i < acc.push(cur).len() implies !(#[trigger] acc.push(cur)[i]).contains('\n') by {
                if i < acc.len() {
                    assert(acc.push(cur)[i] == acc[i]);
                }
            }
            assert(lines_from(s, cur, acc) == acc.push(cur));
        } else {
            assert(lines_from(s, cur, acc) == acc);
        }
    } else if s[0] == '\n' {
        let c = strip_cr(cur);
        assert(!c.contains('\n')) by {
            if c.contains('\n') {
                let k = choose|k: int| 0 <= k < c.len() && c[k] == '\n';
                assert(cur[k] == '\n');
                assert(cur.contains(cur[k]));
            }
        }
        assert forall|i: int| 0 <= i < acc.push(c).len() implies !(#[trigger] acc.push(c)[i]).contains('\n') by {
            if i < acc.len() {
                assert(acc.push(c)[i] == acc[i]);
            }
        }
        assert(!Seq::<char>::empty().contains('\n'));
        lemma_lines_from_no_newline(s.skip(1), seq![], acc.push(c));
        assert(lines_from(s, cur, acc) == lines_from(s.skip(1), seq![], acc.push(c)));
    } else {
        assert(!cur.push(s[0]).contains('\n')) by {
            if cur.push(s[0]).contains('\n') {
                let k = choose|k: int| 0 <= k < cur.push(s[0]).len() && cur.push(s[0])[k] == '\n';
                if k < cur.len() {
                    assert(cur.contains(cur[k]));
                }
            }
        }
        lemma_lines_from_no_newline(s.skip(1), cur.push(s[0]), acc);
        assert(lines_from(s, cur, acc) == lines_from(s.skip(1), cur.push(s[0]), acc));
    }
}

proof fn lemma_trim_start_keeps(s: Seq<char>)
    ensures
        trim_start(s).len() == 0 || !spec_is_white_space(trim_start(s)[0]),
        exists|k: int| 0 <= k <= s.len() && trim_start(s) == s.skip(k),
    decreases s.len(),
{
    if s.len() > 0 && spec_is_white_space(s[0]) {
        lemma_trim_start_keeps(s.skip(1));
        let k = choose|k: int| 0 <= k <= s.skip(1).len() && trim_start(s.skip(1)) == s.skip(1).skip(k);
        assert(s.skip(1).skip(k) =~= s.skip(k + 1));
    } else {
        assert(s.skip(0) =~= s);
    }
}

proof fn lemma_trim_end_keeps(s: Seq<char>)
    ensures
        trim_end(s).len() == 0 || !spec_is_white_space(trim_end(s).last()),
        exists|k: int| 0 <= k <= s.len() && trim_end(s) == s.take(k),
    decreases s.len(),
{
    if s.len() > 0 && spec_is_white_space(s.last()) {
        lemma_trim_end_keeps(s.drop_last());
        let k = choose|k: int| 0 <= k <= s.drop_last().len() && trim_end(s.drop_last()) == s.drop_last().take(k);
        assert(s.drop_last().take(k) =~= s.take(k));
    } else {
        assert(s.take(s.len() as int) =~= s);
    }
}

/// Text that starts and ends with a visible character is its own trim.
pub proof fn lemma_trim_visible(s: Seq<char>)
    requires
        s.len() > 0,
        !spec_is_white_space(s[0]),
        !spec_is_white_space(s.last()),
    ensures
        trim(s) == s,
{
}

/// Trimming twice is trimming once; a trimmed line has no trailing `\r`.
pub proof fn lemma_trim_twice(s: Seq<char>)
    ensures
        trim(trim(s)) == trim(s),
        trim(s).len() > 0 ==> trim(s).last() != '\r',
        exists|a: int, b: int| 0 <= a <= b <= s.len() && trim(s) == s.subrange(a, b),
{
    let t = trim_start(s);
    lemma_trim_start_keeps(s);
    lemma_trim_end_keeps(t);
    let u = trim_end(t);
    let a = choose|k: int| 0 <= k <= s.len() && t == s.skip(k);
    let b = choose|k: int| 0 <= k <= t.len() && u == t.take(k);
    assert(u =~= s.subrange(a, a + b));
    if u.len() > 0 {
        assert(u[0] == t[0]);
        assert(!spec_is_white_space(u[0]));
        assert(trim_start(u) == u);
        assert(!spec_is_white_space(u.last()));
        assert(trim_end(u) == u);
        assert(spec_is_white_space('\r'));
    } else {
        assert(trim_start(u) == u);
        assert(trim_end(u) == u);
    }
}

} // verus!
