//! Suppression of diagnostics by an `% elp:ignore CODE` comment on the line
//! above them.

use vstd::prelude::*;

use crate::code::code_from_string;
use crate::code::DiagnosticCode;
use crate::text::is_white;
use crate::text::is_white_char;
use crate::text::chars_of;
use crate::text::string_of;
use crate::text::sub_chars;

verus! {

/// The marker that opens an ignore comment.
pub open spec fn ignore_marker() -> Seq<char> {
    seq!['%', ' ', 'e', 'l', 'p', ':', 'i', 'g', 'n', 'o', 'r', 'e']
}

pub open spec fn occurs_at(h: Seq<char>, n: Seq<char>, i: int) -> bool {
    0 <= i && i + n.len() <= h.len() && h.subrange(i, i + n.len()) == n
}

/// `i` is the first position where `n` occurs in `h`.
pub open spec fn is_first_occurrence(h: Seq<char>, n: Seq<char>, i: int) -> bool {
    occurs_at(h, n, i) && forall|j: int| 0 <= j < i ==> !occurs_at(h, n, j)
}

/// `t[a..b]` is a maximal run of non-white characters.
pub open spec fn is_word(t: Seq<char>, a: int, b: int) -> bool {
    &&& 0 <= a < b <= t.len()
    &&& forall|k: int| a <= k < b ==> !is_white(#[trigger] t[k])
    &&& (a == 0 || is_white(t[a - 1]))
    &&& (b == t.len() || is_white(t[b]))
}

/// Some white-space separated word of `t` names `code`.
pub open spec fn has_word_naming(t: Seq<char>, code: DiagnosticCode) -> bool {
    exists|a: int, b: int| is_word(t, a, b) && #[trigger] code_from_string(t.subrange(a, b)) == Some(
        code@,
    )
}

/// The comment holds the ignore marker, and a word from its first
/// occurrence on names `code`.
pub open spec fn ignores(comment: Seq<char>, code: DiagnosticCode) -> bool {
    exists|i: int|
        is_first_occurrence(comment, ignore_marker(), i) && #[trigger] has_word_naming(
            comment.subrange(i, comment.len() as int),
            code,
        )
}

/// The first position of `n` in `h`.
pub fn find(h: &[char], n: &[char]) -> (r: Option<usize>)
    ensures
        match r {
            Some(i) => is_first_occurrence(h@, n@, i as int),
            None => forall|j: int| 0 <= j ==> !#[trigger] occurs_at(h@, n@, j),
        },
{
    if n.len() > h.len() {
        return None;
    }
    let mut i: usize = 0;
    while i <= h.len() - n.len()
        invariant
            n.len() <= h.len(),
            forall|j: int| 0 <= j < i ==> !#[trigger] occurs_at(h@, n@, j),
        decreases h.len() - i,
    {
        let mut k: usize = 0;
        let mut same = true;
        while k < n.len()
            invariant
                i + n.len() <= h.len(),
                k <= n.len(),
                same == (forall|m: int| 0 <= m < k ==> h@[i + m] == n@[m]),
            decreases n.len() - k,
        {
            if h[i + k] != n[k] {
                same = false;
            }
            k = k + 1;
        }
        if same {
            assert(h@.subrange(i as int, i + n.len()) =~= n@);
            return Some(i);
        } else {
            assert(!occurs_at(h@, n@, i as int)) by {
                if occurs_at(h@, n@, i as int) {
                    assert forall|m: int| 0 <= m < n.len() implies h@[i + m] == n@[m] by {
                        assert(h@.subrange(i as int, i + n.len())[m] == h@[i + m]);
                    }
                }
            }
        }
        i = i + 1;
    }
    None
}

/// Whether a white-space separated word of `t` names `code`.
fn some_word_names(t: &[char], code: &DiagnosticCode) -> (r: bool)
    ensures
        r == has_word_naming(t@, *code),
{
    let n = t.len();
    let mut i: usize = 0;
    while i < n
        invariant
            n == t@.len(),
            i <= n,
            forall|a: int, b: int|
                is_word(t@, a, b) && a < i ==> code_from_string(t@.subrange(a, b)) != Some(code@),
            0 < i < n && !is_white(t@[i as int]) ==> is_white(t@[i - 1]),
        decreases n - i,
    {
        if is_white_char(t[i]) {
            i = i + 1;
            proof {
                assert forall|a: int, b: int|
                    is_word(t@, a, b) && a < i implies code_from_string(t@.subrange(a, b)) != Some(
                    code@,
                ) by {
                    if a == i - 1 {
                        assert(!is_white(t@[a]));
                    }
                }
            }
        } else {
            let start = i;
            let mut j: usize = i;
            while j < n && !is_white_char(t[j])
                invariant
                    n == t@.len(),
                    start <= j <= n,
                    forall|k: int| start <= k < j ==> !is_white(#[trigger] t@[k]),
                decreases n - j,
            {
                j = j + 1;
            }
            assert(is_word(t@, start as int, j as int));
            let word = string_of(sub_chars(t, start, j).as_slice());
            match DiagnosticCode::from_str(word.as_str()) {
                Ok(c) => {
                    if c == *code {
                        assert(word@ =~= t@.subrange(start as int, j as int));
                        return true;
                    }
                },
                Err(_) => {},
            }
            proof {
                assert(word@ =~= t@.subrange(start as int, j as int));
                assert forall|a: int, b: int|
                    is_word(t@, a, b) && a < j implies code_from_string(t@.subrange(a, b)) != Some(
                    code@,
                ) by {
                    if a >= start {
                        if a > start {
                            assert(!is_white(t@[a - 1]));
                        }
                        assert(a == start);
                        if b < j {
                            assert(!is_white(t@[b]));
                        }
                        if b > j {
                            assert(!is_white(t@[j as int]));
                        }
                        assert(b == j);
                    }
                }
            }
            i = j;
        }
    }
    false
}

/// Whether `comment` holds the ignore marker followed by a word that names
/// `code`, by its short form or its label.
pub fn comment_contains_ignore_code(comment: &str, code: &DiagnosticCode) -> (r: bool)
    ensures
        r == ignores(comment@, *code),
{
    let cs = chars_of(comment);
    let marker = ['%', ' ', 'e', 'l', 'p', ':', 'i', 'g', 'n', 'o', 'r', 'e'];
    assert(marker@ =~= ignore_marker());
    match find(&cs, &marker) {
        Some(start) => {
            let rest = sub_chars(&cs, start, cs.len());
            let r = some_word_names(&rest, code);
            proof {
                if !r {
                    assert forall|i: int|
                        is_first_occurrence(comment@, ignore_marker(), i) implies !#[trigger] has_word_naming(
                        comment@.subrange(i, comment@.len() as int),
                        *code,
                    ) by {
                        if i < start {
                            assert(!occurs_at(comment@, ignore_marker(), i));
                        }
                        if i > start {
                            assert(!occurs_at(comment@, ignore_marker(), start as int));
                        }
                    }
                }
            }
            r
        },
        None => {
            assert forall|i: int|
                is_first_occurrence(comment@, ignore_marker(), i) implies !#[trigger] has_word_naming(
                comment@.subrange(i, comment@.len() as int),
                *code,
            ) by {
                assert(!occurs_at(comment@, ignore_marker(), i));
            }
            false
        },
    }
}

} // verus!
