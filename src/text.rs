//! Whitespace classification, word splitting and the normalization of
//! captured text.
use itertools::Itertools;
use vstd::prelude::*;

verus! {

/// The Unicode `White_Space` property: the characters that
/// `char::is_whitespace` accepts.
pub open spec fn is_space_char(c: char) -> bool {
    let u = c as u32;
    (0x9 <= u <= 0xd) || u == 0x20 || u == 0x85 || u == 0xa0 || u == 0x1680 || (0x2000 <= u
        <= 0x200a) || u == 0x2028 || u == 0x2029 || u == 0x202f || u == 0x205f || u == 0x3000
}

/// Whether `c` is a whitespace character.
pub fn is_space(c: char) -> (r: bool)
    ensures
        r == is_space_char(c),
{
    let u = c as u32;
    (0x9 <= u && u <= 0xd) || u == 0x20 || u == 0x85 || u == 0xa0 || u == 0x1680 || (0x2000 <= u
        && u <= 0x200a) || u == 0x2028 || u == 0x2029 || u == 0x202f || u == 0x205f || u == 0x3000
}

/// Relies on `str::chars`: the characters of `s`, in order.
#[verifier::external_body]
pub(crate) fn char_vec(s: &str) -> (r: Vec<char>)
    ensures
        r@ == s@,
{
    s.chars().collect()
}

/// Relies on `String`'s `FromIterator<&char>`: a string of exactly these characters.
#[verifier::external_body]
pub(crate) fn string_of(v: &Vec<char>) -> (r: String)
    ensures
        r@ == v@,
{
    v.iter().collect()
}

/// The views of a sequence of strings.
pub open spec fn string_views(v: Seq<String>) -> Seq<Seq<char>> {
    v.map_values(|w: String| w@)
}

/// One character of input read by the word splitter: `st.0` holds the words
/// completed so far, `st.1` the word being read.
pub open spec fn split_step(st: (Seq<Seq<char>>, Seq<char>), c: char) -> (
    Seq<Seq<char>>,
    Seq<char>,
) {
    if is_space_char(c) {
        if st.1.len() > 0 {
            (st.0.push(st.1), Seq::empty())
        } else {
            st
        }
    } else {
        (st.0, st.1.push(c))
    }
}

/// The splitter's state after reading all of `s`, from state `st`.
pub open spec fn split_from(st: (Seq<Seq<char>>, Seq<char>), s: Seq<char>) -> (
    Seq<Seq<char>>,
    Seq<char>,
)
    decreases s.len(),
{
    if s.len() == 0 {
        st
    } else {
        split_from(split_step(st, s[0]), s.drop_first())
    }
}

/// The maximal runs of non-whitespace characters of `s`, in order.
pub open spec fn words_of(s: Seq<char>) -> Seq<Seq<char>> {
    let st = split_from((Seq::empty(), Seq::empty()), s);
    if st.1.len() > 0 {
        st.0.push(st.1)
    } else {
        st.0
    }
}

/// The words of `ws` in order, with one space between each two.
pub open spec fn join_spaced(ws: Seq<Seq<char>>) -> Seq<char>
    decreases ws.len(),
{
    if ws.len() == 0 {
        Seq::empty()
    } else if ws.len() == 1 {
        ws[0]
    } else {
        ws[0] + seq![' '] + join_spaced(ws.drop_first())
    }
}

/// `s` without its backslashes.
pub open spec fn strip_backslashes(s: Seq<char>) -> Seq<char> {
    s.filter(|c: char| c != '\\')
}

/// Normalized text: whitespace runs collapsed to one space, no whitespace at
/// either end, and then every backslash removed.
pub open spec fn normalized(s: Seq<char>) -> Seq<char> {
    strip_backslashes(join_spaced(words_of(s)))
}

/// The words of `s[from..to]`, each as a string of its own.
pub fn split_words(s: &Vec<char>, from: usize, to: usize) -> (r: Vec<String>)
    requires
        from <= to <= s@.len(),
    ensures
        string_views(r@) == words_of(s@.subrange(from as int, to as int)),
{
    let mut words: Vec<String> = Vec::new();
    let mut cur: Vec<char> = Vec::new();
    let mut i: usize = from;
    proof {
        assert(string_views(words@) =~= Seq::<Seq<char>>::empty());
        assert(s@.subrange(from as int, to as int) =~= s@.subrange(i as int, to as int));
    }
    while i < to
        invariant
            from <= i <= to <= s@.len(),
            split_from((Seq::empty(), Seq::empty()), s@.subrange(from as int, to as int))
                == split_from((string_views(words@), cur@), s@.subrange(i as int, to as int)),
        decreases to - i,
    {
        let c = s[i];
        let ghost rest = s@.subrange(i as int, to as int);
        proof {
            assert(rest.drop_first() =~= s@.subrange(i + 1, to as int));
            assert(rest[0] == c);
        }
        if is_space(c) {
            if cur.len() > 0 {
                let w = string_of(&cur);
                let ghost before = words@;
                words.push(w);
                proof {
                    assert(string_views(words@) =~= string_views(before).push(cur@));
                }
                cur = Vec::new();
                proof {
                    assert(cur@ =~= Seq::<char>::empty());
                }
            }
        } else {
            cur.push(c);
        }
        i = i + 1;
    }
    proof {
        assert(s@.subrange(i as int, to as int) =~= Seq::<char>::empty());
    }
    if cur.len() > 0 {
        let w = string_of(&cur);
        let ghost before = words@;
        words.push(w);
        proof {
            assert(string_views(words@) =~= string_views(before).push(cur@));
        }
    }
    words
}

/// Relies on itertools' `Itertools::intersperse`: the words in order, with
/// the separator `" "` between each two.
#[verifier::external_body]
pub(crate) fn join_words(words: &Vec<String>) -> (r: String)
    ensures
        r@ == join_spaced(string_views(words@)),
{
    Itertools::intersperse(words.iter().map(|w| w.as_str()), " ").collect()
}

/// The characters of `s` without its backslashes.
pub fn remove_backslashes(s: &Vec<char>) -> (r: Vec<char>)
    ensures
        r@ == strip_backslashes(s@),
{
    let mut out: Vec<char> = Vec::new();
    let mut i: usize = 0;
    while i < s.len()
        invariant
            i <= s@.len(),
            out@ == strip_backslashes(s@.subrange(0, i as int)),
        decreases s@.len() - i,
    {
        proof {
            reveal(Seq::filter);
            let next = s@.subrange(0, i + 1);
            assert(next.drop_last() =~= s@.subrange(0, i as int));
            assert(next.last() == s@[i as int]);
            assert(strip_backslashes(next) == if s@[i as int] != '\\' {
                strip_backslashes(s@.subrange(0, i as int)).push(s@[i as int])
            } else {
                strip_backslashes(s@.subrange(0, i as int))
            });
        }
        if s[i] != '\\' {
            out.push(s[i]);
        }
        i = i + 1;
    }
    proof {
        assert(s@.subrange(0, i as int) =~= s@);
    }
    out
}

/// Normalizes captured text: collapses each run of whitespace to a single
/// space, drops whitespace at either end, then removes every backslash.
pub fn prepare_text(text: &str) -> (r: String)
    ensures
        r@ == normalized(text@),
{
    let chars = char_vec(text);
    let words = split_words(&chars, 0, chars.len());
    proof {
        assert(chars@.subrange(0, chars@.len() as int) =~= text@);
    }
    let joined = join_words(&words);
    let joined_chars = char_vec(joined.as_str());
    let stripped = remove_backslashes(&joined_chars);
    string_of(&stripped)
}

/// No character of `w` is whitespace.
pub open spec fn no_spaces(w: Seq<char>) -> bool {
    forall|k: int| 0 <= k < w.len() ==> !is_space_char(#[trigger] w[k])
}

/// Every element of `ws` is a word: nonempty, with no whitespace.
pub open spec fn all_words(ws: Seq<Seq<char>>) -> bool {
    forall|i: int| 0 <= i < ws.len() ==> #[trigger] ws[i].len() > 0 && no_spaces(ws[i])
}

/// Each word of `ws` without its backslashes.
pub open spec fn strip_each(ws: Seq<Seq<char>>) -> Seq<Seq<char>> {
    ws.map_values(|w: Seq<char>| strip_backslashes(w))
}

proof fn lemma_split_concat(st: (Seq<Seq<char>>, Seq<char>), a: Seq<char>, b: Seq<char>)
    ensures
        split_from(st, a + b) == split_from(split_from(st, a), b),
    decreases a.len(),
{
    if a.len() > 0 {
        assert((a + b).drop_first() =~= a.drop_first() + b);
        assert((a + b)[0] == a[0]);
        lemma_split_concat(split_step(st, a[0]), a.drop_first(), b);
    } else {
        assert(a + b =~= b);
    }
}

proof fn lemma_split_word(acc: Seq<Seq<char>>, cur: Seq<char>, w: Seq<char>)
    requires
        no_spaces(w),
    ensures
        split_from((acc, cur), w) == (acc, cur + w),
    decreases w.len(),
{
    if w.len() == 0 {
        assert(cur + w =~= cur);
    } else {
        assert(!is_space_char(w[0]));
        assert forall|k: int| 0 <= k < w.drop_first().len() implies !is_space_char(
            #[trigger] w.drop_first()[k],
        ) by {
            assert(w.drop_first()[k] == w[k + 1]);
        }
        lemma_split_word(acc, cur.push(w[0]), w.drop_first());
        assert(cur.push(w[0]) + w.drop_first() =~= cur + w);
    }
}

proof fn lemma_split_join(acc: Seq<Seq<char>>, ws: Seq<Seq<char>>)
    requires
        ws.len() >= 1,
        all_words(ws),
    ensures
        split_from((acc, Seq::empty()), join_spaced(ws)) == (acc + ws.drop_last(), ws.last()),
    decreases ws.len(),
{
    let empty = Seq::<char>::empty();
    assert(ws[0].len() > 0 && no_spaces(ws[0]));
    lemma_split_word(acc, empty, ws[0]);
    assert(empty + ws[0] =~= ws[0]);
    if ws.len() == 1 {
        assert(acc + ws.drop_last() =~= acc);
    } else {
        let w = ws[0];
        let rest = ws.drop_first();
        let space = seq![' '];
        lemma_split_concat((acc, empty), w + space, join_spaced(rest));
        lemma_split_concat((acc, empty), w, space);
        assert(space.drop_first() =~= empty);
        assert(is_space_char(' '));
        assert(space[0] == ' ');
        assert(split_step((acc, w), ' ') == (acc.push(w), empty));
        assert(split_from((acc.push(w), empty), empty) == (acc.push(w), empty));
        assert(split_from((acc, w), space) == (acc.push(w), empty));
        assert forall|i: int| 0 <= i < rest.len() implies #[trigger] rest[i].len() > 0 && no_spaces(
            rest[i],
        ) by {
            assert(rest[i] == ws[i + 1]);
        }
        lemma_split_join(acc.push(w), rest);
        assert(acc.push(w) + rest.drop_last() =~= acc + ws.drop_last());
    }
}

proof fn lemma_words_of_join(ws: Seq<Seq<char>>)
    requires
        all_words(ws),
    ensures
        words_of(join_spaced(ws)) == ws,
{
    if ws.len() > 0 {
        lemma_split_join(Seq::empty(), ws);
        assert(ws.last().len() > 0);
        assert(Seq::<Seq<char>>::empty() + ws.drop_last() =~= ws.drop_last());
        assert(ws.drop_last().push(ws.last()) =~= ws);
    } else {
        assert(words_of(Seq::empty()) =~= ws);
    }
}

proof fn lemma_split_keeps_words(st: (Seq<Seq<char>>, Seq<char>), s: Seq<char>)
    requires
        all_words(st.0),
        no_spaces(st.1),
    ensures
        all_words(split_from(st, s).0),
        no_spaces(split_from(st, s).1),
    decreases s.len(),
{
    if s.len() > 0 {
        let c = s[0];
        let next = split_step(st, c);
        if is_space_char(c) {
            if st.1.len() > 0 {
                assert forall|i: int| 0 <= i < next.0.len() implies #[trigger] next.0[i].len() > 0
                    && no_spaces(next.0[i]) by {
                    if i < st.0.len() {
                        assert(next.0[i] == st.0[i]);
                    }
                }
            }
        } else {
            assert forall|k: int| 0 <= k < next.1.len() implies !is_space_char(
                #[trigger] next.1[k],
            ) by {
                if k < st.1.len() {
                    assert(next.1[k] == st.1[k]);
                }
            }
        }
        lemma_split_keeps_words(next, s.drop_first());
    }
}

proof fn lemma_words_of_words(s: Seq<char>)
    ensures
        all_words(words_of(s)),
{
    let st = split_from((Seq::empty(), Seq::empty()), s);
    lemma_split_keeps_words((Seq::empty(), Seq::empty()), s);
    if st.1.len() > 0 {
        let ws = st.0.push(st.1);
        assert forall|i: int| 0 <= i < ws.len() implies #[trigger] ws[i].len() > 0 && no_spaces(
            ws[i],
        ) by {
            if i < st.0.len() {
                assert(ws[i] == st.0[i]);
            }
        }
    }
}

proof fn lemma_strip_facts(w: Seq<char>)
    ensures
        forall|k: int|
            0 <= k < strip_backslashes(w).len() ==> #[trigger] strip_backslashes(w)[k] != '\\',
        no_spaces(w) ==> no_spaces(strip_backslashes(w)),
        (forall|k: int| 0 <= k < w.len() ==> #[trigger] w[k] != '\\') ==> strip_backslashes(w)
            == w,
    decreases w.len(),
{
    reveal(Seq::filter);
    if w.len() > 0 {
        let init = w.drop_last();
        lemma_strip_facts(init);
        if no_spaces(w) {
            assert forall|k: int| 0 <= k < init.len() implies !is_space_char(#[trigger] init[k]) by {
                assert(init[k] == w[k]);
            }
        }
        if forall|k: int| 0 <= k < w.len() ==> #[trigger] w[k] != '\\' {
            assert forall|k: int| 0 <= k < init.len() implies #[trigger] init[k] != '\\' by {
                assert(init[k] == w[k]);
            }
            assert(w[w.len() - 1] != '\\');
            assert(init.push(w.last()) =~= w);
        }
        if no_spaces(w) {
            assert(!is_space_char(w[w.len() - 1]));
        }
    }
}

proof fn lemma_strip_join(ws: Seq<Seq<char>>)
    ensures
        strip_backslashes(join_spaced(ws)) == join_spaced(strip_each(ws)),
    decreases ws.len(),
{
    reveal(Seq::filter);
    if ws.len() == 1 {
        assert(strip_each(ws)[0] == strip_backslashes(ws[0]));
    } else if ws.len() > 1 {
        let space = seq![' '];
        let rest = ws.drop_first();
        let pred = |c: char| c != '\\';
        Seq::filter_distributes_over_add(ws[0] + space, join_spaced(rest), pred);
        Seq::filter_distributes_over_add(ws[0], space, pred);
        assert(space.drop_last() =~= Seq::<char>::empty());
        assert(strip_backslashes(space) =~= space);
        lemma_strip_join(rest);
        assert(strip_each(rest) =~= strip_each(ws).drop_first());
        assert(strip_each(ws)[0] == strip_backslashes(ws[0]));
    }
}

/// Normalizing normalized text changes nothing, for every text but one with
/// two or more words of which one is made of backslashes only: that word
/// leaves an empty place between spaces behind, which a second pass closes.
pub proof fn lemma_normalized_idempotent(s: Seq<char>)
    requires
        words_of(s).len() <= 1 || forall|i: int|
            0 <= i < words_of(s).len() ==> #[trigger] strip_backslashes(words_of(s)[i]).len() > 0,
    ensures
        normalized(normalized(s)) == normalized(s),
{
    reveal(Seq::filter);
    let ws = words_of(s);
    let stripped = strip_each(ws);
    lemma_words_of_words(s);
    lemma_strip_join(ws);
    let t = normalized(s);
    assert(t == join_spaced(stripped));
    assert forall|i: int| 0 <= i < stripped.len() implies no_spaces(#[trigger] stripped[i])
        && forall|k: int| 0 <= k < stripped[i].len() ==> #[trigger] stripped[i][k] != '\\' by {
        assert(ws[i].len() > 0 && no_spaces(ws[i]));
        lemma_strip_facts(ws[i]);
    }
    if t.len() == 0 {
        assert(words_of(t) =~= Seq::<Seq<char>>::empty());
        assert(normalized(t) =~= t);
    } else {
        let vs = if ws.len() <= 1 {
            seq![t]
        } else {
            stripped
        };
        if ws.len() <= 1 {
            assert(ws.len() == 1);
            assert(t == stripped[0]);
        }
        assert(all_words(vs));
        lemma_words_of_join(vs);
        assert(join_spaced(vs) == t);
        lemma_strip_join(vs);
        assert forall|i: int| 0 <= i < vs.len() implies #[trigger] strip_each(vs)[i] == vs[i] by {
            lemma_strip_facts(vs[i]);
        }
        assert(strip_each(vs) =~= vs);
    }
}

} // verus!
