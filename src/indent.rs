//! Re-indenting a multi-line snippet of text.

use vstd::prelude::*;

use crate::text::chars_of;
use crate::text::is_white;
use crate::text::is_white_char;
use crate::text::string_of;
use crate::text::sub_chars;

verus! {

pub open spec fn trim_start(s: Seq<char>) -> Seq<char>
    decreases s.len(),
{
    if s.len() > 0 && is_white(s[0]) {
        trim_start(s.drop_first())
    } else {
        s
    }
}

pub open spec fn trim_end(s: Seq<char>) -> Seq<char>
    decreases s.len(),
{
    if s.len() > 0 && is_white(s.last()) {
        trim_end(s.drop_last())
    } else {
        s
    }
}

/// The lines of `s`, split at each newline; there is always at least one.
pub open spec fn split_lines(s: Seq<char>) -> Seq<Seq<char>>
    decreases s.len(),
{
    if s.len() == 0 {
        seq![Seq::empty()]
    } else if s.last() == '\n' {
        split_lines(s.drop_last()).push(Seq::empty())
    } else {
        let l = split_lines(s.drop_last());
        l.update(l.len() - 1, l.last().push(s.last()))
    }
}

/// The lines joined by newlines.
pub open spec fn join_lines(ls: Seq<Seq<char>>) -> Seq<char>
    decreases ls.len(),
{
    if ls.len() == 0 {
        Seq::empty()
    } else if ls.len() == 1 {
        ls[0]
    } else {
        join_lines(ls.drop_last()) + seq!['\n'] + ls.last()
    }
}

pub open spec fn spaces(n: nat) -> Seq<char> {
    Seq::new(n, |i: int| ' ')
}

pub open spec fn abs_i8(d: i8) -> nat {
    if d >= 0 {
        d as nat
    } else {
        (-d) as nat
    }
}

/// One line re-indented by `delta` spaces: the first line, when not
/// empty, loses its leading white space; with a non-negative delta every
/// other non-empty line gains the spaces; with a negative one each line
/// loses them, or all its leading white space when it does not start with
/// them. Trailing white space goes.
pub open spec fn reindent_line(delta: i8, idx: int, s: Seq<char>) -> Seq<char> {
    let n = abs_i8(delta);
    trim_end(
        if idx == 0 && s.len() > 0 {
            trim_start(s)
        } else if delta >= 0 {
            if s.len() > 0 {
                spaces(n) + s
            } else {
                s
            }
        } else if s.len() >= n && s.subrange(0, n as int) == spaces(n) {
            s.subrange(n as int, s.len() as int)
        } else {
            trim_start(s)
        },
    )
}

/// Text re-indented by `delta` spaces; text of one line only loses its
/// leading white space.
pub open spec fn change_indent_spec(delta: i8, s: Seq<char>) -> Seq<char> {
    if s.contains('\n') {
        join_lines(split_lines(s).map(|i: int, l: Seq<char>| reindent_line(delta, i, l)))
    } else {
        trim_start(s)
    }
}

proof fn lemma_trim_start_at(s: Seq<char>, j: int)
    requires
        0 <= j <= s.len(),
        forall|k: int| 0 <= k < j ==> is_white(#[trigger] s[k]),
        j == s.len() || !is_white(s[j]),
    ensures
        trim_start(s) == s.subrange(j, s.len() as int),
    decreases j,
{
    if j == 0 {
        assert(s.subrange(0, s.len() as int) =~= s);
    } else {
        lemma_trim_start_at(s.drop_first(), j - 1);
        assert(s.drop_first().subrange(j - 1, s.len() - 1) =~= s.subrange(j, s.len() as int));
    }
}

proof fn lemma_trim_end_at(s: Seq<char>, j: int)
    requires
        0 <= j <= s.len(),
        forall|k: int| j <= k < s.len() ==> is_white(#[trigger] s[k]),
        j == 0 || !is_white(s[j - 1]),
    ensures
        trim_end(s) == s.subrange(0, j),
    decreases s.len() - j,
{
    if j == s.len() {
        assert(s.subrange(0, s.len() as int) =~= s);
    } else {
        lemma_trim_end_at(s.drop_last(), j);
        assert(s.drop_last().subrange(0, j) =~= s.subrange(0, j));
    }
}

fn trim_start_chars(s: &[char]) -> (r: Vec<char>)
    ensures
        r@ == trim_start(s@),
{
    let mut j: usize = 0;
    while j < s.len() && is_white_char(s[j])
        invariant
            j <= s@.len(),
            forall|k: int| 0 <= k < j ==> is_white(#[trigger] s@[k]),
        decreases s@.len() - j,
    {
        j = j + 1;
    }
    proof {
        lemma_trim_start_at(s@, j as int);
    }
    sub_chars(s, j, s.len())
}

fn trim_end_chars(s: &[char]) -> (r: Vec<char>)
    ensures
        r@ == trim_end(s@),
{
    let mut j: usize = s.len();
    while j > 0 && is_white_char(s[j - 1])
        invariant
            j <= s@.len(),
            forall|k: int| j <= k < s@.len() ==> is_white(#[trigger] s@[k]),
        decreases j,
    {
        j = j - 1;
    }
    proof {
        lemma_trim_end_at(s@, j as int);
    }
    sub_chars(s, 0, j)
}

fn starts_with_spaces(s: &[char], n: usize) -> (r: bool)
    ensures
        r == (s@.len() >= n && s@.subrange(0, n as int) == spaces(n as nat)),
{
    if s.len() < n {
        return false;
    }
    let mut k: usize = 0;
    while k < n
        invariant
            n <= s@.len(),
            k <= n,
            forall|m: int| 0 <= m < k ==> s@[m] == ' ',
        decreases n - k,
    {
        if s[k] != ' ' {
            assert(s@.subrange(0, n as int)[k as int] != spaces(n as nat)[k as int]);
            return false;
        }
        k = k + 1;
    }
    assert(s@.subrange(0, n as int) =~= spaces(n as nat));
    true
}

fn reindent(delta: i8, idx: usize, s: &[char]) -> (r: Vec<char>)
    requires
        delta > i8::MIN,
    ensures
        r@ == reindent_line(delta, idx as int, s@),
{
    let n: usize = if delta >= 0 {
        delta as usize
    } else {
        (-delta) as usize
    };
    let line: Vec<char> = if idx == 0 && s.len() > 0 {
        trim_start_chars(s)
    } else if delta >= 0 {
        if s.len() > 0 {
            let mut v: Vec<char> = Vec::new();
            let mut k: usize = 0;
            while k < n
                invariant
                    k <= n,
                    v@ == spaces(k as nat),
                decreases n - k,
            {
                v.push(' ');
                assert(v@ =~= spaces((k + 1) as nat));
                k = k + 1;
            }
            let mut j: usize = 0;
            while j < s.len()
                invariant
                    j <= s@.len(),
                    v@ == spaces(n as nat) + s@.subrange(0, j as int),
                decreases s@.len() - j,
            {
                v.push(s[j]);
                assert(v@ =~= spaces(n as nat) + s@.subrange(0, j + 1));
                j = j + 1;
            }
            assert(s@.subrange(0, s@.len() as int) =~= s@);
            v
        } else {
            sub_chars(s, 0, s.len())
        }
    } else if starts_with_spaces(s, n) {
        sub_chars(s, n, s.len())
    } else {
        trim_start_chars(s)
    };
    proof {
        if !(idx == 0 && s@.len() > 0) && delta >= 0 && s@.len() == 0 {
            assert(line@ =~= s@);
        }
    }
    trim_end_chars(line.as_slice())
}

pub open spec fn line_views(ls: Seq<Vec<char>>) -> Seq<Seq<char>> {
    ls.map_values(|l: Vec<char>| l@)
}

/// The lines of `s`.
fn split_lines_of(s: &[char]) -> (r: Vec<Vec<char>>)
    ensures
        line_views(r@) == split_lines(s@),
        r@.len() >= 1,
{
    let mut lines: Vec<Vec<char>> = Vec::new();
    let mut cur: Vec<char> = Vec::new();
    let mut i: usize = 0;
    assert(split_lines(s@.subrange(0, 0)) =~= seq![Seq::<char>::empty()]);
    while i < s.len()
        invariant
            i <= s@.len(),
            split_lines(s@.subrange(0, i as int)).len() == lines@.len() + 1,
            forall|k: int|
                0 <= k < lines@.len() ==> #[trigger] lines@[k]@ == split_lines(
                    s@.subrange(0, i as int),
                )[k],
            cur@ == split_lines(s@.subrange(0, i as int)).last(),
        decreases s@.len() - i,
    {
        let ghost prev = s@.subrange(0, i as int);
        let ghost next = s@.subrange(0, i + 1);
        assert(next.drop_last() =~= prev);
        assert(next.last() == s@[i as int]);
        if s[i] == '\n' {
            lines.push(cur);
            cur = Vec::new();
        } else {
            cur.push(s[i]);
        }
        i = i + 1;
    }
    assert(s@.subrange(0, s@.len() as int) =~= s@);
    lines.push(cur);
    assert(line_views(lines@) =~= split_lines(s@));
    lines
}

/// Re-indents `str` by `delta_indent` spaces (removes them when negative).
pub fn change_indent(delta_indent: i8, str: String) -> (r: String)
    requires
        delta_indent > i8::MIN,
    ensures
        r@ == change_indent_spec(delta_indent, str@),
{
    let cs = chars_of(str.as_str());
    let mut has_newline = false;
    let mut i: usize = 0;
    while i < cs.len()
        invariant
            i <= cs@.len(),
            has_newline == (exists|k: int| 0 <= k < i && cs@[k] == '\n'),
        decreases cs@.len() - i,
    {
        if cs[i] == '\n' {
            has_newline = true;
        }
        i = i + 1;
    }
    if !has_newline {
        assert(!cs@.contains('\n'));
        let t = trim_start_chars(cs.as_slice());
        return string_of(t.as_slice());
    }
    assert(cs@.contains('\n'));
    let lines = split_lines_of(cs.as_slice());
    let ghost mapped = split_lines(cs@).map(|i: int, l: Seq<char>| reindent_line(delta_indent, i, l));
    let mut out: Vec<char> = Vec::new();
    let mut k: usize = 0;
    while k < lines.len()
        invariant
            k <= lines@.len(),
            line_views(lines@) == split_lines(cs@),
            mapped == split_lines(cs@).map(|i: int, l: Seq<char>| reindent_line(delta_indent, i, l)),
            delta_indent > i8::MIN,
            out@ == join_lines(mapped.subrange(0, k as int)),
        decreases lines@.len() - k,
    {
        assert(lines@[k as int]@ == split_lines(cs@)[k as int]);
        let line = reindent(delta_indent, k, lines[k].as_slice());
        let ghost before = out@;
        if k > 0 {
            out.push('\n');
        }
        let mut j: usize = 0;
        let ghost base = out@;
        while j < line.len()
            invariant
                j <= line@.len(),
                out@ == base + line@.subrange(0, j as int),
            decreases line@.len() - j,
        {
            out.push(line[j]);
            assert(out@ =~= base + line@.subrange(0, j + 1));
            j = j + 1;
        }
        assert(line@.subrange(0, line@.len() as int) =~= line@);
        assert(mapped.subrange(0, k + 1).drop_last() =~= mapped.subrange(0, k as int));
        assert(mapped.subrange(0, k + 1).last() == mapped[k as int]);
        assert(mapped[k as int] == line@);
        if k == 0 {
            assert(out@ =~= join_lines(mapped.subrange(0, 1)));
        } else {
            assert(out@ =~= join_lines(mapped.subrange(0, k + 1)));
        }
        k = k + 1;
    }
    assert(mapped.subrange(0, lines@.len() as int) =~= mapped);
    string_of(out.as_slice())
}

} // verus!
