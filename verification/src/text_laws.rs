//! What trimming, splitting, lines and words keep of a text.
use crate::text::{
    blank, clean_lines, first_place, index_of_char, joined, lemma_first_from, lemma_index_of_char,
    lines_of, lowered, occurs_at, split_first, split_on, trim_back, trim_front, trimmed, white,
    word_end, words_from, words_of,
};
use vstd::prelude::*;

verus! {

/// Whether `out` is what is left of `s` when characters with `p` are taken off both
/// ends, as many as there are.
pub open spec fn taken_off(s: Seq<char>, out: Seq<char>, p: spec_fn(char) -> bool) -> bool {
    exists|lo: int, hi: int|
        0 <= lo <= hi <= s.len() && out == #[trigger] s.subrange(lo, hi) && (forall|i: int|
            (0 <= i < lo || hi <= i < s.len()) ==> p(#[trigger] s[i])) && (lo < hi ==> !p(s[lo])
            && !p(s[hi - 1]))
}

proof fn lemma_trim_front(s: Seq<char>) -> (lo: int)
    ensures
        0 <= lo <= s.len(),
        trim_front(s) == s.skip(lo),
        forall|i: int| 0 <= i < lo ==> white(#[trigger] s[i]),
        lo < s.len() ==> !white(s[lo]),
    decreases s.len(),
{
    if s.len() > 0 && white(s[0]) {
        let n = lemma_trim_front(s.skip(1));
        assert(s.skip(1).skip(n) =~= s.skip(n + 1));
        assert forall|i: int| 0 <= i < n + 1 implies white(#[trigger] s[i]) by {
            if i > 0 {
                assert(s.skip(1)[i - 1] == s[i]);
            }
        }
        n + 1
    } else {
        assert(s.skip(0) =~= s);
        0
    }
}

proof fn lemma_trim_back(s: Seq<char>) -> (hi: int)
    ensures
        0 <= hi <= s.len(),
        trim_back(s) == s.take(hi),
        forall|i: int| hi <= i < s.len() ==> white(#[trigger] s[i]),
        hi > 0 ==> !white(s[hi - 1]),
    decreases s.len(),
{
    if s.len() > 0 && white(s.last()) {
        let n = lemma_trim_back(s.drop_last());
        assert(s.drop_last().take(n) =~= s.take(n));
        assert forall|i: int| n <= i < s.len() implies white(#[trigger] s[i]) by {
            if i < s.len() - 1 {
                assert(s.drop_last()[i] == s[i]);
            }
        }
        n
    } else {
        assert(s.take(s.len() as int) =~= s);
        s.len() as int
    }
}

/// Trimming takes the white space off both ends, all of it and nothing else. A text
/// is blank exactly where it is white space throughout.
pub proof fn trimming_takes_the_white_space_off(s: Seq<char>)
    ensures
        taken_off(s, trimmed(s), |c: char| white(c)),
        blank(s) == forall|i: int| 0 <= i < s.len() ==> white(#[trigger] s[i]),
{
    let lo = lemma_trim_front(s);
    let front = s.skip(lo);
    let n = lemma_trim_back(front);
    let hi = lo + n;
    assert(trimmed(s) =~= s.subrange(lo, hi));
    assert forall|i: int| (0 <= i < lo || hi <= i < s.len()) implies white(#[trigger] s[i]) by {
        if i >= hi {
            assert(front[i - lo] == s[i]);
        }
    }
    if lo < hi {
        assert(front[n - 1] == s[hi - 1]);
        assert(front[0] == s[lo]);
    }
}

/// Putting the separators back gives the text, and no part holds one.
pub proof fn joining_undoes_splitting(s: Seq<char>, c: char)
    ensures
        joined(split_on(s, c), seq![c]) == s,
        split_on(s, c).len() > 0,
        forall|i: int, k: int|
            0 <= i < split_on(s, c).len() && 0 <= k < split_on(s, c)[i].len() ==> #[trigger] split_on(
                s,
                c,
            )[i][k] != c,
    decreases s.len(),
{
    lemma_index_of_char(s, c);
    let n = index_of_char(s, c);
    let parts = split_on(s, c);
    if n < s.len() {
        let rest = s.skip(n + 1);
        joining_undoes_splitting(rest, c);
        let tail = split_on(rest, c);
        assert(parts =~= seq![s.take(n)] + tail);
        lemma_joined_first(s.take(n), tail, seq![c]);
        assert(s =~= s.take(n) + seq![c] + rest);
        assert forall|i: int, k: int| 0 <= i < parts.len() && 0 <= k < parts[i].len() implies
            #[trigger] parts[i][k] != c by {
            if i > 0 {
                assert(parts[i] == tail[i - 1]);
                assert(tail[i - 1][k] != c);
            } else {
                assert(parts[i] == s.take(n));
            }
        }
    } else {
        assert(parts =~= seq![s]);
    }
}

/// Texts behind a first one are joined behind it.
pub proof fn lemma_joined_first(first: Seq<char>, tail: Seq<Seq<char>>, sep: Seq<char>)
    requires
        tail.len() > 0,
    ensures
        joined(seq![first] + tail, sep) == first + sep + joined(tail, sep),
    decreases tail.len(),
{
    let all = seq![first] + tail;
    assert(all.drop_last() =~= seq![first] + tail.drop_last());
    assert(all.last() == tail.last());
    if tail.len() > 1 {
        lemma_joined_first(first, tail.drop_last(), sep);
        let mid = joined(tail.drop_last(), sep);
        assert(first + sep + mid + sep + tail.last() =~= first + sep + (mid + sep + tail.last()));
    } else {
        assert(tail.drop_last() =~= Seq::empty());
        assert(all.drop_last() =~= seq![first]);
        assert(joined(all.drop_last(), sep) == first);
    }
}

/// The parts around the first `p` make up the text with it, and before it there is
/// none; there are none exactly where the text holds no `p`.
pub proof fn a_text_is_split_at_the_first_place(s: Seq<char>, p: Seq<char>)
    ensures
        match split_first(s, p) {
            Some((a, b)) => s == a + p + b && forall|i: int|
                0 <= i < a.len() ==> !#[trigger] occurs_at(s, p, i),
            None => forall|i: int| !#[trigger] occurs_at(s, p, i),
        },
{
    lemma_first_from(s, p, 0);
    match first_place(s, p) {
        Some(i) => {
            assert(occurs_at(s, p, i));
            assert(s =~= s.take(i) + s.subrange(i, i + p.len()) + s.skip(i + p.len()));
        },
        None => {},
    }
}

/// A field before a separator that it does not hold is what is split off.
pub proof fn a_field_is_what_precedes_the_separator(a: Seq<char>, c: char, b: Seq<char>)
    requires
        !a.contains(c),
    ensures
        split_first(a + seq![c] + b, seq![c]) == Some((a, b)),
{
    let s = a + seq![c] + b;
    let p = seq![c];
    lemma_first_from(s, p, 0);
    assert(s.subrange(a.len() as int, a.len() as int + 1) =~= p);
    assert(occurs_at(s, p, a.len() as int));
    match first_place(s, p) {
        Some(i) => {
            assert(s.subrange(i, i + 1)[0] == s[i]);
            if i < a.len() {
                assert(a[i] == c);
                assert(a.contains(c));
            }
            assert(i == a.len());
            assert(s.take(i) =~= a);
            assert(s.skip(i + 1) =~= b);
        },
        None => {},
    }
}

/// The lines of a text hold no line feed, and with line feeds between them, and one
/// more behind them where the text has one at its end, they are the text.
pub proof fn lines_make_up_the_text(s: Seq<char>)
    ensures
        ({
            let body = joined(lines_of(s), seq!['\n']);
            if s.len() == 0 || s.last() == '\n' {
                s.len() == 0 && lines_of(s).len() == 0 || s == body + seq!['\n']
            } else {
                s == body
            }
        }),
        forall|i: int, k: int|
            0 <= i < lines_of(s).len() && 0 <= k < lines_of(s)[i].len() ==> #[trigger] lines_of(
                s,
            )[i][k] != '\n',
        clean_lines(s).len() == lines_of(s).len(),
        forall|i: int|
            0 <= i < lines_of(s).len() ==> #[trigger] lines_of(s)[i] == clean_lines(s)[i] || lines_of(
                s,
            )[i] == clean_lines(s)[i] + seq!['\r'],
{
    joining_undoes_splitting(s, '\n');
    let parts = split_on(s, '\n');
    let sep = seq!['\n'];
    assert(forall|i: int|
        0 <= i < lines_of(s).len() ==> #[trigger] lines_of(s)[i] == parts[i]);
    if parts.last().len() == 0 {
        if parts.len() > 1 {
            assert(joined(parts, sep) =~= joined(parts.drop_last(), sep) + sep);
            assert(s.last() == '\n');
        } else {
            assert(s =~= Seq::empty());
        }
    } else {
        if parts.len() > 1 {
            assert(s == joined(parts.drop_last(), sep) + sep + parts.last());
        }
        assert(s.last() == parts.last().last());
        assert(parts[parts.len() - 1][parts.last().len() - 1] != '\n');
    }
    assert forall|i: int| 0 <= i < lines_of(s).len() implies #[trigger] lines_of(s)[i]
        == clean_lines(s)[i] || lines_of(s)[i] == clean_lines(s)[i] + seq!['\r'] by {
        let l = lines_of(s)[i];
        if l.len() > 0 && l.last() == '\r' {
            assert(l =~= l.drop_last() + seq!['\r']);
        }
    }
}

/// Where a word of the text starts.
pub open spec fn word_starts(s: Seq<char>, i: int) -> bool {
    0 <= i < s.len() && !white(s[i]) && (i == 0 || white(s[i - 1]))
}

/// How many words start at or after `i`.
pub open spec fn words_started(s: Seq<char>, i: int) -> nat
    decreases s.len() - i,
{
    if i >= s.len() {
        0
    } else if word_starts(s, i) {
        1 + words_started(s, i + 1)
    } else {
        words_started(s, i + 1)
    }
}

proof fn lemma_no_start_within(s: Seq<char>, i: int, j: int)
    requires
        0 < i <= j <= s.len(),
        forall|k: int| i - 1 <= k < j ==> !white(#[trigger] s[k]),
    ensures
        words_started(s, i) == words_started(s, j),
    decreases j - i,
{
    if i < j {
        assert(!white(s[i - 1]));
        assert(!white(s[i]));
        lemma_no_start_within(s, i + 1, j);
    }
}

proof fn lemma_word_end_is(s: Seq<char>, i: int)
    requires
        0 <= i <= s.len(),
    ensures
        i <= word_end(s, i) <= s.len(),
        forall|k: int| i <= k < word_end(s, i) ==> !white(#[trigger] s[k]),
        word_end(s, i) < s.len() ==> white(s[word_end(s, i)]),
    decreases s.len() - i,
{
    if i < s.len() && !white(s[i]) {
        lemma_word_end_is(s, i + 1);
    }
}

proof fn lemma_words_from(s: Seq<char>, i: int)
    requires
        0 <= i <= s.len(),
        0 < i < s.len() ==> white(s[i - 1]) || white(s[i]),
    ensures
        words_from(s, i).len() == words_started(s, i),
        forall|w: int|
            0 <= w < words_from(s, i).len() ==> (#[trigger] words_from(s, i)[w]).len() > 0,
        forall|w: int, k: int|
            0 <= w < words_from(s, i).len() && 0 <= k < words_from(s, i)[w].len() ==> !white(
                #[trigger] words_from(s, i)[w][k],
            ),
    decreases s.len() - i,
{
    if i < s.len() {
        if white(s[i]) {
            lemma_words_from(s, i + 1);
        } else {
            lemma_word_end_is(s, i);
            let j = word_end(s, i);
            assert(word_starts(s, i));
            assert(j > i);
            lemma_no_start_within(s, i + 1, j);
            lemma_words_from(s, j);
            let rest = words_from(s, j);
            let all = words_from(s, i);
            assert(all =~= seq![s.subrange(i, j)] + rest);
            assert forall|w: int| 0 <= w < all.len() implies (#[trigger] all[w]).len() > 0 by {
                if w > 0 {
                    assert(all[w] == rest[w - 1]);
                }
            }
            assert forall|w: int, k: int| 0 <= w < all.len() && 0 <= k < all[w].len() implies
                !white(#[trigger] all[w][k]) by {
                if w > 0 {
                    assert(all[w] == rest[w - 1]);
                    assert(!white(rest[w - 1][k]));
                } else {
                    assert(all[w][k] == s[i + k]);
                }
            }
        }
    }
}

/// There are as many words as starts of one; none is empty or holds white space.
pub proof fn words_stand_between_white_space(s: Seq<char>)
    ensures
        words_of(s).len() == words_started(s, 0),
        forall|w: int| 0 <= w < words_of(s).len() ==> (#[trigger] words_of(s)[w]).len() > 0,
        forall|w: int, k: int|
            0 <= w < words_of(s).len() && 0 <= k < words_of(s)[w].len() ==> !white(
                #[trigger] words_of(s)[w][k],
            ),
{
    lemma_words_from(s, 0);
}

/// Small letters stand for the capitals, each in its place, and all else stays.
pub proof fn capitals_become_small_letters(s: Seq<char>, i: int)
    requires
        0 <= i < s.len(),
    ensures
        lowered(s).len() == s.len(),
        65 <= s[i] as int <= 90 ==> lowered(s)[i] as int == s[i] as int + 32,
        !(65 <= s[i] as int <= 90) ==> lowered(s)[i] == s[i],
{
}

} // verus!
