//! What small letters change in a text, and what they leave.
use crate::paths::{
    components, extension_of, file_name_of, is_current_part, is_parent_part, lemma_spans,
    separator_from, span_text, spans,
};
use crate::text::{
    index_of_char, last_place, last_upto, lemma_index_of_char, lemma_index_of_char_is, lower,
    lower_ascii, lowered, occurs_at, replaced, split_on, trim_back, trim_front, trimmed, upper,
    upper_ascii, white,
};
use vstd::prelude::*;

verus! {

/// A character that is no ASCII letter.
pub open spec fn caseless(c: char) -> bool {
    !upper_ascii(c) && !lower_ascii(c)
}

pub proof fn lemma_lower_keeps(c: char, x: char)
    requires
        caseless(x),
    ensures
        (lower(c) == x) == (c == x),
        upper_ascii(c) ==> lower_ascii(lower(c)),
        lower(lower(c)) == lower(c),
        upper(lower(c)) == upper(c),
        (upper(c) == x) == (c == x),
        lower(upper(c)) == lower(c),
{
}

pub proof fn lemma_lower_white(c: char)
    ensures
        white(lower(c)) == white(c),
{
}

pub proof fn lemma_lowered_twice(s: Seq<char>)
    ensures
        lowered(lowered(s)) == lowered(s),
{
    assert forall|k: int| 0 <= k < s.len() implies lower(lower(s[k])) == lower(s[k]) by {
        lemma_lower_keeps(s[k], ' ');
    }
    assert(lowered(lowered(s)) =~= lowered(s));
}

/// The text with its ASCII letters as capitals.
pub open spec fn raised(s: Seq<char>) -> Seq<char> {
    s.map_values(|c: char| upper(c))
}

pub proof fn lemma_lowered_raised(s: Seq<char>)
    ensures
        lowered(raised(s)) == lowered(s),
{
    assert forall|k: int| 0 <= k < s.len() implies lower(upper(s[k])) == lower(s[k]) by {
        lemma_lower_keeps(s[k], ' ');
    }
    assert(lowered(raised(s)) =~= lowered(s));
}

proof fn lemma_trim_front_lowered(s: Seq<char>)
    ensures
        trim_front(lowered(s)) == lowered(trim_front(s)),
    decreases s.len(),
{
    if s.len() > 0 {
        lemma_lower_white(s[0]);
        if white(s[0]) {
            lemma_trim_front_lowered(s.skip(1));
            assert(lowered(s).skip(1) =~= lowered(s.skip(1)));
        }
    }
}

proof fn lemma_trim_back_lowered(s: Seq<char>)
    ensures
        trim_back(lowered(s)) == lowered(trim_back(s)),
    decreases s.len(),
{
    if s.len() > 0 {
        lemma_lower_white(s.last());
        if white(s.last()) {
            lemma_trim_back_lowered(s.drop_last());
            assert(lowered(s).drop_last() =~= lowered(s.drop_last()));
        }
    }
}

pub proof fn lemma_trimmed_lowered(s: Seq<char>)
    ensures
        trimmed(lowered(s)) == lowered(trimmed(s)),
{
    lemma_trim_front_lowered(s);
    lemma_trim_back_lowered(trim_front(s));
    lemma_trim_back_lowered(s);
    lemma_trim_front_lowered(trim_back(s));
}

pub proof fn lemma_replaced_lowered(s: Seq<char>, from: char, to: char)
    requires
        caseless(from),
        caseless(to),
    ensures
        replaced(lowered(s), from, to) == lowered(replaced(s, from, to)),
{
    assert forall|k: int| 0 <= k < s.len() implies replaced(lowered(s), from, to)[k] == lowered(
        replaced(s, from, to),
    )[k] by {
        lemma_lower_keeps(s[k], from);
        lemma_lower_keeps(to, to);
    }
    assert(replaced(lowered(s), from, to) =~= lowered(replaced(s, from, to)));
}

pub open spec fn all_lowered(parts: Seq<Seq<char>>) -> Seq<Seq<char>> {
    parts.map_values(|p: Seq<char>| lowered(p))
}

pub proof fn lemma_split_lowered(s: Seq<char>, c: char)
    requires
        caseless(c),
    ensures
        split_on(lowered(s), c) == all_lowered(split_on(s, c)),
    decreases s.len(),
{
    let t = lowered(s);
    let i = index_of_char(s, c);
    lemma_index_of_char(s, c);
    assert forall|k: int| 0 <= k < i implies t[k] != c by {
        lemma_lower_keeps(s[k], c);
    }
    if i < s.len() {
        lemma_lower_keeps(s[i], c);
    }
    lemma_index_of_char_is(t, c, i);
    if i < s.len() {
        lemma_split_lowered(s.skip(i + 1), c);
        assert(t.skip(i + 1) =~= lowered(s.skip(i + 1)));
        assert(t.take(i) =~= lowered(s.take(i)));
        assert(split_on(t, c) =~= all_lowered(split_on(s, c)));
    } else {
        assert(split_on(t, c) =~= all_lowered(split_on(s, c)));
    }
}

proof fn lemma_separator_lowered(s: Seq<char>, i: int)
    requires
        0 <= i,
    ensures
        separator_from(lowered(s), i) == separator_from(s, i),
    decreases s.len() - i,
{
    if i < s.len() {
        lemma_lower_keeps(s[i], '/');
        lemma_separator_lowered(s, i + 1);
    }
}

proof fn lemma_spans_lowered(s: Seq<char>, i: int)
    requires
        0 <= i,
    ensures
        spans(lowered(s), i) == spans(s, i),
    decreases s.len() + 1 - i,
{
    if i < s.len() {
        lemma_separator_lowered(s, i);
        let j = separator_from(s, i);
        if !(j < i || j > s.len()) {
            lemma_lower_keeps(s[i], '.');
            lemma_spans_lowered(s, j + 1);
        }
    }
}

proof fn lemma_dots_lowered(c: Seq<char>)
    ensures
        is_parent_part(lowered(c)) == is_parent_part(c),
        is_current_part(lowered(c)) == is_current_part(c),
{
    let t = lowered(c);
    assert(is_parent_part(c) == (c.len() == 2 && c[0] == '.' && c[1] == '.')) by {
        if c.len() == 2 && c[0] == '.' && c[1] == '.' {
            assert(c =~= seq!['.', '.']);
        }
    }
    assert(is_parent_part(t) == (t.len() == 2 && t[0] == '.' && t[1] == '.')) by {
        if t.len() == 2 && t[0] == '.' && t[1] == '.' {
            assert(t =~= seq!['.', '.']);
        }
    }
    assert(is_current_part(c) == (c.len() == 1 && c[0] == '.')) by {
        if c.len() == 1 && c[0] == '.' {
            assert(c =~= seq!['.']);
        }
    }
    assert(is_current_part(t) == (t.len() == 1 && t[0] == '.')) by {
        if t.len() == 1 && t[0] == '.' {
            assert(t =~= seq!['.']);
        }
    }
    if c.len() > 0 {
        lemma_lower_keeps(c[0], '.');
    }
    if c.len() > 1 {
        lemma_lower_keeps(c[1], '.');
    }
}

pub open spec fn opt_lowered(o: Option<Seq<char>>) -> Option<Seq<char>> {
    match o {
        Some(t) => Some(lowered(t)),
        None => None,
    }
}

pub proof fn lemma_file_name_lowered(s: Seq<char>)
    ensures
        file_name_of(lowered(s)) == opt_lowered(file_name_of(s)),
{
    lemma_spans_lowered(s, 0);
    lemma_spans(s, 0);
    let sp = spans(s, 0);
    if sp.len() > 0 {
        let p = sp.last();
        assert(sp[sp.len() - 1] == p);
        let c = span_text(s, p);
        assert(components(s).last() == c);
        assert(components(lowered(s)).last() == span_text(lowered(s), p));
        assert(span_text(lowered(s), p) =~= lowered(c));
        lemma_dots_lowered(c);
    }
}

proof fn lemma_last_upto_lowered(s: Seq<char>, c: char, i: int)
    requires
        caseless(c),
    ensures
        last_upto(lowered(s), seq![c], i) == last_upto(s, seq![c], i),
        last_upto(s, seq![c], i) matches Some(j) ==> 0 <= j < s.len(),
    decreases i + 1,
{
    if 0 <= i {
        lemma_last_upto_lowered(s, c, i - 1);
        if i < s.len() {
            lemma_lower_keeps(s[i], c);
            let t = lowered(s);
            assert(occurs_at(t, seq![c], i) == occurs_at(s, seq![c], i)) by {
                assert(t.subrange(i, i + 1) =~= seq![t[i]]);
                assert(s.subrange(i, i + 1) =~= seq![s[i]]);
                assert(seq![t[i]][0] == t[i] && seq![s[i]][0] == s[i] && seq![c][0] == c);
            }
        }
    }
}

pub proof fn lemma_extension_lowered(s: Seq<char>)
    ensures
        extension_of(lowered(s)) == opt_lowered(extension_of(s)),
{
    lemma_file_name_lowered(s);
    match file_name_of(s) {
        Some(f) => {
            lemma_last_upto_lowered(f, '.', f.len() - 1);
            lemma_last_upto_lowered(f, '.', f.len() as int);
            match last_place(f, seq!['.']) {
                Some(i) => {
                    assert(lowered(f).skip(i + 1) =~= lowered(f.skip(i + 1)));
                },
                None => {},
            }
        },
        None => {},
    }
}

} // verus!
