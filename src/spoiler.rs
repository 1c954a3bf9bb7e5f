//! The fenced block `::: spoiler label` ... `:::`, whose fences may nest.
use crate::text::{char_vec, is_space, is_space_char, join_spaced, join_words, split_words, words_of};
use vstd::prelude::*;

verus! {

/// A recognized fenced block: the label shown for it.
pub struct BlockSpoiler {
    pub visible_text: String,
}

/// `s` without the whitespace at its end.
pub open spec fn trim_end(s: Seq<char>) -> Seq<char>
    decreases s.len(),
{
    if s.len() > 0 && is_space_char(s.last()) {
        trim_end(s.drop_last())
    } else {
        s
    }
}

/// The fence mark `:::`.
pub open spec fn fence_mark() -> Seq<char> {
    seq![':', ':', ':']
}

/// The keyword after the opening fence mark.
pub open spec fn fence_keyword() -> Seq<char> {
    seq!['s', 'p', 'o', 'i', 'l', 'e', 'r']
}

/// A closing fence line: `:::` and then only whitespace.
pub open spec fn is_fence_close(line: Seq<char>) -> bool {
    trim_end(line) == fence_mark()
}

/// The first position at or after `i` that does not hold a space.
pub open spec fn skip_spaces(s: Seq<char>, i: int) -> int
    decreases s.len() - i,
{
    if 0 <= i < s.len() && s[i] == ' ' {
        skip_spaces(s, i + 1)
    } else {
        i
    }
}

/// Where the label of an opening fence line `t` (already trimmed at its end)
/// begins: after `:::`, one or more spaces, the keyword and one or more spaces.
pub open spec fn label_start(t: Seq<char>) -> int {
    skip_spaces(t, skip_spaces(t, 3) + 7)
}

/// Whether `t` (already trimmed at its end) is an opening fence line:
/// `:::`, spaces, the keyword, spaces, then a label of one or more tokens of
/// non-whitespace characters separated by spaces.
pub open spec fn is_fence_open_trimmed(t: Seq<char>) -> bool {
    let a = skip_spaces(t, 3);
    let b = label_start(t);
    &&& t.len() >= 3
    &&& t.subrange(0, 3) == fence_mark()
    &&& a > 3
    &&& a + 7 <= t.len()
    &&& t.subrange(a, a + 7) == fence_keyword()
    &&& b > a + 7
    &&& b < t.len()
    &&& forall|k: int| b <= k < t.len() ==> t[k] == ' ' || !is_space_char(#[trigger] t[k])
}

/// The label of `line` if it is an opening fence line: its tokens joined by
/// single spaces.
pub open spec fn spoiler_label(line: Seq<char>) -> Option<Seq<char>> {
    let t = trim_end(line);
    if is_fence_open_trimmed(t) {
        Some(join_spaced(words_of(t.subrange(label_start(t), t.len() as int))))
    } else {
        None
    }
}

/// The nesting depth of fences opened at line `from` or later and still open
/// before line `i`.
pub open spec fn fence_depth(ls: Seq<Seq<char>>, from: int, i: int) -> int
    decreases i - from,
{
    if i <= from {
        0
    } else {
        let d = fence_depth(ls, from, i - 1);
        if is_fence_close(ls[i - 1]) {
            d - 1
        } else if spoiler_label(ls[i - 1]) is Some {
            d + 1
        } else {
            d
        }
    }
}

/// Line `i` closes the fence whose content begins at line `from`.
pub open spec fn closes_fence(ls: Seq<Seq<char>>, from: int, i: int) -> bool {
    is_fence_close(ls[i]) && fence_depth(ls, from, i) == 0
}

/// The views of the lines.
pub open spec fn line_views(lines: Seq<String>) -> Seq<Seq<char>> {
    lines.map_values(|l: String| l@)
}

/// The length of `s` once the whitespace at its end is dropped.
fn trim_end_len(s: &Vec<char>) -> (n: usize)
    ensures
        n <= s@.len(),
        trim_end(s@) == s@.subrange(0, n as int),
{
    let mut n: usize = s.len();
    proof {
        assert(s@.subrange(0, n as int) =~= s@);
    }
    while n > 0 && is_space(s[n - 1])
        invariant
            n <= s@.len(),
            trim_end(s@) == trim_end(s@.subrange(0, n as int)),
        decreases n,
    {
        proof {
            assert(s@.subrange(0, n as int).drop_last() =~= s@.subrange(0, n - 1));
        }
        n = n - 1;
    }
    n
}

/// Whether `line` is a closing fence line.
pub fn is_close_line(line: &str) -> (r: bool)
    ensures
        r == is_fence_close(line@),
{
    let chars = char_vec(line);
    let n = trim_end_len(&chars);
    let r = n == 3 && chars[0] == ':' && chars[1] == ':' && chars[2] == ':';
    proof {
        if r {
            assert(chars@.subrange(0, 3) =~= fence_mark());
        } else if n != 3 {
            assert(trim_end(line@).len() != fence_mark().len());
        } else {
            assert(chars@.subrange(0, 3)[0] == chars@[0]);
            assert(chars@.subrange(0, 3)[1] == chars@[1]);
            assert(chars@.subrange(0, 3)[2] == chars@[2]);
        }
    }
    r
}

/// The position of the first character at or after `i` in `s[..end]` that is
/// not a space.
fn skip_spaces_exec(s: &Vec<char>, i: usize, end: usize) -> (r: usize)
    requires
        i <= end <= s@.len(),
    ensures
        r == skip_spaces(s@.subrange(0, end as int), i as int),
        i <= r <= end,
{
    let ghost t = s@.subrange(0, end as int);
    let mut k: usize = i;
    while k < end && s[k] == ' '
        invariant
            i <= k <= end <= s@.len(),
            t == s@.subrange(0, end as int),
            skip_spaces(t, i as int) == skip_spaces(t, k as int),
        decreases end - k,
    {
        proof {
            assert(t[k as int] == s@[k as int]);
        }
        k = k + 1;
    }
    k
}

/// The label of `line` if it is an opening fence line, the tokens after the
/// keyword joined by single spaces; `None` if it is not one.
pub fn parse_spoiler_open(line: &str) -> (r: Option<String>)
    ensures
        match r {
            Some(label) => spoiler_label(line@) == Some(label@),
            None => spoiler_label(line@) is None,
        },
{
    let chars = char_vec(line);
    let end = trim_end_len(&chars);
    let ghost t = chars@.subrange(0, end as int);
    if end < 3 || chars[0] != ':' || chars[1] != ':' || chars[2] != ':' {
        proof {
            if t.len() >= 3 && t.subrange(0, 3) == fence_mark() {
                assert(t.subrange(0, 3)[0] == t[0]);
                assert(t.subrange(0, 3)[1] == t[1]);
                assert(t.subrange(0, 3)[2] == t[2]);
            }
        }
        return None;
    }
    let a = skip_spaces_exec(&chars, 3, end);
    if a == 3 || end - a < 7 {
        return None;
    }
    if !(chars[a] == 's' && chars[a + 1] == 'p' && chars[a + 2] == 'o' && chars[a + 3] == 'i'
        && chars[a + 4] == 'l' && chars[a + 5] == 'e' && chars[a + 6] == 'r') {
        proof {
            let kw = t.subrange(a as int, a + 7);
            if kw == fence_keyword() {
                assert(kw[0] == t[a as int]);
                assert(kw[1] == t[a + 1]);
                assert(kw[2] == t[a + 2]);
                assert(kw[3] == t[a + 3]);
                assert(kw[4] == t[a + 4]);
                assert(kw[5] == t[a + 5]);
                assert(kw[6] == t[a + 6]);
            }
        }
        return None;
    }
    let b = skip_spaces_exec(&chars, a + 7, end);
    if b == a + 7 || b == end {
        return None;
    }
    let mut k: usize = b;
    while k < end
        invariant
            b <= k <= end <= chars@.len(),
            t == chars@.subrange(0, end as int),
            chars@ == line@,
            trim_end(line@) == t,
            b == label_start(t),
            forall|j: int| b <= j < k ==> t[j] == ' ' || !is_space_char(#[trigger] t[j]),
        decreases end - k,
    {
        if chars[k] != ' ' && is_space(chars[k]) {
            proof {
                assert(t[k as int] == chars@[k as int]);
                assert(!is_fence_open_trimmed(t));
            }
            return None;
        }
        k = k + 1;
    }
    proof {
        assert(t.subrange(0, 3) =~= fence_mark());
        assert(t.subrange(a as int, a + 7) =~= fence_keyword());
        assert(chars@.subrange(b as int, end as int) =~= t.subrange(b as int, t.len() as int));
    }
    let words = split_words(&chars, b, end);
    Some(join_words(&words))
}

/// The line in `from..last` that closes the fence whose content begins at
/// line `from`. A line that opens a fence before it raises the depth, and a
/// closing line at a positive depth belongs to such a nested fence.
pub fn find_fence_close(lines: &Vec<String>, from: usize, last: usize) -> (r: Option<usize>)
    requires
        from <= last <= lines@.len(),
    ensures
        match r {
            Some(i) => {
                &&& from <= i < last
                &&& closes_fence(line_views(lines@), from as int, i as int)
                &&& forall|j: int|
                    from <= j < i ==> !#[trigger] closes_fence(line_views(lines@), from as int, j)
            },
            None => forall|j: int|
                from <= j < last ==> !#[trigger] closes_fence(line_views(lines@), from as int, j),
        },
{
    let ghost ls = line_views(lines@);
    let mut depth: usize = 0;
    let mut i: usize = from;
    while i < last
        invariant
            from <= i <= last <= lines@.len(),
            ls == line_views(lines@),
            depth == fence_depth(ls, from as int, i as int),
            depth <= i - from,
            forall|j: int| from <= j < i ==> !#[trigger] closes_fence(ls, from as int, j),
        decreases last - i,
    {
        let line = lines[i].as_str();
        assert(ls[i as int] == line@);
        if is_close_line(line) {
            if depth == 0 {
                return Some(i);
            }
            depth = depth - 1;
        } else if parse_spoiler_open(line).is_some() {
            depth = depth + 1;
        }
        i = i + 1;
    }
    None
}

/// Scans a fenced block whose opening line is `lines[line]` and which may
/// reach up to line `line_max - 1`. On a match, gives the label and the
/// number of lines the block takes, both fence lines included; `None` where
/// the line opens no fence or no line closes it.
pub fn scan_spoiler(lines: &Vec<String>, line: usize, line_max: usize) -> (r: Option<
    (BlockSpoiler, usize),
>)
    requires
        line < line_max <= lines@.len(),
    ensures
        match r {
            Some((block, n)) => {
                &&& spoiler_label(line_views(lines@)[line as int]) == Some(block.visible_text@)
                &&& 2 <= n
                &&& line + n <= line_max
                &&& closes_fence(line_views(lines@), line + 1, line + n - 1)
                &&& forall|j: int|
                    line + 1 <= j < line + n - 1 ==> !#[trigger] closes_fence(
                        line_views(lines@),
                        line + 1,
                        j,
                    )
            },
            None => spoiler_label(line_views(lines@)[line as int]) is None || forall|j: int|
                line + 1 <= j < line_max ==> !#[trigger] closes_fence(
                    line_views(lines@),
                    line + 1,
                    j,
                ),
        },
{
    assert(line_views(lines@)[line as int] == lines@[line as int]@);
    let visible_text = match parse_spoiler_open(lines[line].as_str()) {
        Some(label) => label,
        None => {
            return None;
        },
    };
    let close = match find_fence_close(lines, line + 1, line_max) {
        Some(close) => close,
        None => {
            return None;
        },
    };
    Some((BlockSpoiler { visible_text }, close - line + 1))
}

} // verus!
