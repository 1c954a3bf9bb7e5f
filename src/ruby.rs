//! The inline span `{base|annotation}`: a base text with an annotation
//! attached to it, where `|` and `}` lose their meaning after a backslash.
use crate::text::{char_vec, normalized, prepare_text, string_of};
use vstd::prelude::*;

verus! {

/// A recognized span: its two fields, normalized.
pub struct Ruby {
    pub base_text: String,
    pub ruby_text: String,
}

/// The character that opens a span.
pub const OPEN_MARKER: char = '{';

/// The character between the two fields.
pub const SEPARATOR: char = '|';

/// The character that closes a span.
pub const TERMINATOR: char = '}';

/// Whether `s[i]` is an occurrence of `c` that counts, for a scan that begins
/// at `from`: the character there is `c` and no backslash stands right before
/// it within the scan. A backslash itself never counts.
pub open spec fn breaks_at(s: Seq<char>, from: int, i: int, c: char) -> bool {
    s[i] == c && c != '\\' && (i == from || s[i - 1] != '\\')
}

/// `i` is the first position in `from..end` where `c` counts.
pub open spec fn is_first_break(s: Seq<char>, from: int, end: int, c: char, i: int) -> bool {
    &&& from <= i < end
    &&& breaks_at(s, from, i, c)
    &&& forall|j: int| from <= j < i ==> !#[trigger] breaks_at(s, from, j, c)
}

/// A span opens at `start` in `s[..end]`, with its separator at `sep` and its
/// terminator at `term`: the first separator that counts comes before any
/// terminator that counts, and `term` is the first terminator that counts
/// after it.
pub open spec fn span_delims(s: Seq<char>, start: int, end: int, sep: int, term: int) -> bool {
    &&& 0 <= start < end <= s.len()
    &&& s[start] == OPEN_MARKER
    &&& is_first_break(s, start + 1, end, SEPARATOR, sep)
    &&& forall|j: int| start + 1 <= j < sep ==> !#[trigger] breaks_at(s, start + 1, j, TERMINATOR)
    &&& is_first_break(s, sep + 1, end, TERMINATOR, term)
}

/// A span has one place for its separator and one for its terminator, so the
/// fields that `scan_ruby` gives are determined by the input.
pub proof fn lemma_span_delims_unique(
    s: Seq<char>,
    start: int,
    end: int,
    sep1: int,
    term1: int,
    sep2: int,
    term2: int,
)
    requires
        span_delims(s, start, end, sep1, term1),
        span_delims(s, start, end, sep2, term2),
    ensures
        sep1 == sep2,
        term1 == term2,
{
    if sep1 < sep2 {
        assert(breaks_at(s, start + 1, sep1, SEPARATOR));
    } else if sep2 < sep1 {
        assert(breaks_at(s, start + 1, sep2, SEPARATOR));
    }
    if term1 < term2 {
        assert(breaks_at(s, sep1 + 1, term1, TERMINATOR));
    } else if term2 < term1 {
        assert(breaks_at(s, sep1 + 1, term2, TERMINATOR));
    }
}

/// The first position in `from..end` where `break_char` stands unescaped.
///
/// A backslash escapes the character after it; it is never a match itself.
pub fn find_text_end_index(text: &Vec<char>, from: usize, end: usize, break_char: char) -> (r:
    Option<usize>)
    requires
        from <= end <= text@.len(),
    ensures
        match r {
            Some(i) => is_first_break(text@, from as int, end as int, break_char, i as int),
            None => forall|j: int|
                from <= j < end ==> !#[trigger] breaks_at(text@, from as int, j, break_char),
        },
{
    let mut prev_char_escaped = false;
    let mut i: usize = from;
    while i < end
        invariant
            from <= i <= end <= text@.len(),
            prev_char_escaped == (i > from && text@[i - 1] == '\\'),
            forall|j: int| from <= j < i ==> !#[trigger] breaks_at(text@, from as int, j, break_char),
        decreases end - i,
    {
        let c = text[i];
        if c == '\\' {
            prev_char_escaped = true;
        } else {
            if c == break_char && !prev_char_escaped {
                return Some(i);
            }
            prev_char_escaped = false;
        }
        i = i + 1;
    }
    None
}

/// Scans a span that opens at `pos` in `src[..pos_max]` (positions count
/// characters). On a match, gives the normalized fields and the number of
/// characters the span takes, both delimiters included; gives `None` where
/// no span opens there.
pub fn scan_ruby(src: &str, pos: usize, pos_max: usize) -> (r: Option<(Ruby, usize)>)
    requires
        pos <= pos_max <= src@.len(),
    ensures
        match r {
            Some((ruby, n)) => exists|sep: int, term: int|
                {
                    &&& #[trigger] span_delims(src@, pos as int, pos_max as int, sep, term)
                    &&& ruby.base_text@ == normalized(src@.subrange(pos + 1, sep))
                    &&& ruby.ruby_text@ == normalized(src@.subrange(sep + 1, term))
                    &&& n == term - pos + 1
                },
            None => forall|sep: int, term: int|
                !#[trigger] span_delims(src@, pos as int, pos_max as int, sep, term),
        },
{
    if pos >= pos_max {
        return None;
    }
    let chars = char_vec(src);
    if chars[pos] != OPEN_MARKER {
        return None;
    }
    let sep = match find_text_end_index(&chars, pos + 1, pos_max, SEPARATOR) {
        Some(sep) => sep,
        None => {
            proof {
                assert forall|sep: int, term: int|
                    !#[trigger] span_delims(src@, pos as int, pos_max as int, sep, term) by {
                    if span_delims(src@, pos as int, pos_max as int, sep, term) {
                        assert(breaks_at(src@, pos + 1, sep, SEPARATOR));
                    }
                }
            }
            return None;
        },
    };
    if let Some(early) = find_text_end_index(&chars, pos + 1, sep, TERMINATOR) {
        proof {
            assert forall|sep2: int, term: int|
                !#[trigger] span_delims(src@, pos as int, pos_max as int, sep2, term) by {
                if span_delims(src@, pos as int, pos_max as int, sep2, term) {
                    if sep2 < sep {
                        assert(breaks_at(src@, pos + 1, sep2, SEPARATOR));
                    } else if sep < sep2 {
                        assert(breaks_at(src@, pos + 1, sep as int, SEPARATOR));
                    }
                    assert(breaks_at(src@, pos + 1, early as int, TERMINATOR));
                }
            }
        }
        return None;
    }
    let term = match find_text_end_index(&chars, sep + 1, pos_max, TERMINATOR) {
        Some(term) => term,
        None => {
            proof {
                assert forall|sep2: int, term: int|
                    !#[trigger] span_delims(src@, pos as int, pos_max as int, sep2, term) by {
                    if span_delims(src@, pos as int, pos_max as int, sep2, term) {
                        if sep2 < sep {
                            assert(breaks_at(src@, pos + 1, sep2, SEPARATOR));
                        } else if sep < sep2 {
                            assert(breaks_at(src@, pos + 1, sep as int, SEPARATOR));
                        }
                        assert(breaks_at(src@, sep + 1, term, TERMINATOR));
                    }
                }
            }
            return None;
        },
    };
    let base_chars = slice_vec(&chars, pos + 1, sep);
    let ruby_chars = slice_vec(&chars, sep + 1, term);
    let base_text = prepare_text(string_of(&base_chars).as_str());
    let ruby_text = prepare_text(string_of(&ruby_chars).as_str());
    proof {
        assert(span_delims(src@, pos as int, pos_max as int, sep as int, term as int));
    }
    Some((Ruby { base_text, ruby_text }, term - pos + 1))
}

/// The characters `v[from..to]`.
fn slice_vec(v: &Vec<char>, from: usize, to: usize) -> (r: Vec<char>)
    requires
        from <= to <= v@.len(),
    ensures
        r@ == v@.subrange(from as int, to as int),
{
    let mut out: Vec<char> = Vec::new();
    let mut i: usize = from;
    while i < to
        invariant
            from <= i <= to <= v@.len(),
            out@ == v@.subrange(from as int, i as int),
        decreases to - i,
    {
        out.push(v[i]);
        proof {
            assert(out@ =~= v@.subrange(from as int, i + 1));
        }
        i = i + 1;
    }
    out
}

} // verus!
