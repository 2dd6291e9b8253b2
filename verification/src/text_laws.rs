//! What trimming, splitting and folding case do to a text, told by how the text was
//! put together.

use vstd::prelude::*;
use crate::text::{
    outcome, strings, texts, ascii_lowered, enclosed, find, is_space, split_all, split_at_first,
    trimmed, trimmed_end, trimmed_start, word_len, words_of,
};

verus! {

/// A text does not hold a character.
pub open spec fn lacks(s: Seq<char>, c: char) -> bool {
    forall|i: int| 0 <= i < s.len() ==> #[trigger] s[i] != c
}

/// A text is nothing but white space.
pub open spec fn is_blank(s: Seq<char>) -> bool {
    forall|i: int| 0 <= i < s.len() ==> is_space(#[trigger] s[i])
}

/// A text holds no white space.
pub open spec fn is_solid(s: Seq<char>) -> bool {
    forall|i: int| 0 <= i < s.len() ==> !is_space(#[trigger] s[i])
}

/// A text has no white space at either end.
pub open spec fn has_solid_ends(s: Seq<char>) -> bool {
    s.len() > 0 ==> !is_space(s[0]) && !is_space(s[s.len() - 1])
}

/// White space is what Unicode counts as such: the ASCII controls from tab to
/// carriage return, the space, and the spaces beyond ASCII.
pub proof fn law_white_space(c: char)
    ensures
        is_space(c) <==> c == '\t' || c == '\n' || c == '\x0b' || c == '\x0c' || c == '\r' || c
            == ' ' || c == '\u{85}' || c == '\u{a0}' || c == '\u{1680}' || ('\u{2000}' <= c
            && c <= '\u{200a}') || c == '\u{2028}' || c == '\u{2029}' || c == '\u{202f}' || c
            == '\u{205f}' || c == '\u{3000}',
{
}

/// Leading white space is skipped.
proof fn lemma_start_trimmed(a: Seq<char>, s: Seq<char>)
    requires
        is_blank(a),
    ensures
        trimmed_start(a + s) == trimmed_start(s),
    decreases a.len(),
{
    let t = a + s;
    if a.len() > 0 {
        let b = a.drop_first();
        assert(forall|i: int| 0 <= i < b.len() ==> b[i] == a[i + 1]);
        lemma_start_trimmed(b, s);
        assert(t.drop_first() =~= b + s);
        assert(is_space(a[0]));
    } else {
        assert(t =~= s);
    }
}

/// Trailing white space is skipped.
proof fn lemma_end_trimmed(s: Seq<char>, b: Seq<char>)
    requires
        is_blank(b),
    ensures
        trimmed_end(s + b) == trimmed_end(s),
    decreases b.len(),
{
    let t = s + b;
    if b.len() > 0 {
        let a = b.drop_last();
        assert(forall|i: int| 0 <= i < a.len() ==> a[i] == b[i]);
        lemma_end_trimmed(s, a);
        assert(t.drop_last() =~= s + a);
        assert(is_space(b[b.len() - 1]));
    } else {
        assert(t =~= s);
    }
}

/// Trimming takes away exactly the white space around a text.
pub proof fn law_trimming_takes_the_surroundings(a: Seq<char>, s: Seq<char>, b: Seq<char>)
    requires
        is_blank(a),
        is_blank(b),
        has_solid_ends(s),
    ensures
        trimmed(a + s + b) == s,
{
    assert(a + s + b =~= a + (s + b));
    lemma_start_trimmed(a, s + b);
    if s.len() == 0 {
        assert(s + b =~= b + s);
        lemma_start_trimmed(b, s);
        assert(trimmed_start(s) == s);
    } else {
        assert((s + b)[0] == s[0]);
        lemma_end_trimmed(s, b);
    }
}

/// Every text is what trimming leaves of it, with white space around.
pub proof fn law_trimming_only_takes_white_space(s: Seq<char>) -> (place: (int, int))
    ensures
        0 <= place.0 <= place.1 <= s.len(),
        trimmed(s) == s.subrange(place.0, place.1),
        is_blank(s.subrange(0, place.0)),
        is_blank(s.subrange(place.1, s.len() as int)),
        has_solid_ends(trimmed(s)),
{
    let (a, m, b) = lemma_parts(s);
    law_trimming_takes_the_surroundings(a, m, b);
    let (i, j) = (a.len() as int, a.len() + m.len());
    assert(s.subrange(i, j as int) =~= m);
    assert(s.subrange(0, i) =~= a);
    assert(s.subrange(j as int, s.len() as int) =~= b);
    (i, j as int)
}

/// White space, a text with solid ends, and white space again make up every text.
pub proof fn lemma_parts(s: Seq<char>) -> (parts: (Seq<char>, Seq<char>, Seq<char>))
    ensures
        s == parts.0 + parts.1 + parts.2,
        is_blank(parts.0),
        has_solid_ends(parts.1),
        is_blank(parts.2),
    decreases s.len(),
{
    let empty = Seq::<char>::empty();
    if s.len() == 0 {
        assert(s =~= empty + empty + empty);
        (empty, empty, empty)
    } else if is_space(s[0]) {
        let (a, m, b) = lemma_parts(s.drop_first());
        let c = seq![s[0]] + a;
        assert(s =~= seq![s[0]] + s.drop_first());
        assert(s =~= c + m + b);
        assert(forall|i: int| 0 < i < c.len() ==> c[i] == a[i - 1]);
        (c, m, b)
    } else if is_space(s.last()) {
        let (a, m, b) = lemma_parts(s.drop_last());
        let c = b.push(s.last());
        assert(s =~= s.drop_last().push(s.last()));
        assert(s =~= a + m + c);
        (a, m, c)
    } else {
        assert(s =~= empty + s + empty);
        (empty, s, empty)
    }
}

/// A character is found at its first place.
proof fn lemma_find(a: Seq<char>, b: Seq<char>, c: char)
    requires
        lacks(a, c),
        b.len() == 0 || b[0] == c,
    ensures
        find(a + b, c) == a.len(),
    decreases a.len(),
{
    let s = a + b;
    if a.len() > 0 {
        let t = a.drop_first();
        assert(forall|i: int| 0 <= i < t.len() ==> t[i] == a[i + 1]);
        lemma_find(t, b, c);
        assert(s.drop_first() =~= t + b);
        assert(s[0] == a[0]);
    } else {
        assert(s =~= b);
    }
}

/// A text is split at the first separator; one without a separator is not split.
pub proof fn law_split_at_the_first(before: Seq<char>, c: char, after: Seq<char>)
    requires
        lacks(before, c),
    ensures
        split_at_first(before + seq![c] + after, c) == Some((before, after)),
        split_at_first(before, c) is None,
{
    let tail = seq![c] + after;
    let s = before + tail;
    assert(before + seq![c] + after =~= s);
    lemma_find(before, tail, c);
    assert(s.take(before.len() as int) =~= before);
    assert(s.skip(before.len() as int + 1) =~= after);
    lemma_find(before, Seq::empty(), c);
    assert(before + Seq::empty() =~= before);
}

/// Splitting at every separator takes off what stands before the first, and splits
/// the rest; a text without a separator is one piece.
pub proof fn law_split_at_every(piece: Seq<char>, c: char, rest: Seq<char>)
    requires
        lacks(piece, c),
    ensures
        split_all(piece + seq![c] + rest, c) == seq![piece] + split_all(rest, c),
        split_all(piece, c) == seq![piece],
{
    let tail = seq![c] + rest;
    let s = piece + tail;
    assert(piece + seq![c] + rest =~= s);
    lemma_find(piece, tail, c);
    assert(s.take(piece.len() as int) =~= piece);
    assert(s.skip(piece.len() as int + 1) =~= rest);
    lemma_find(piece, Seq::empty(), c);
    assert(piece + Seq::empty() =~= piece);
}

/// A text that is enclosed is what stands between the two characters.
pub proof fn law_enclosed(s: Seq<char>, inner: Seq<char>, open: char, close: char)
    ensures
        enclosed(seq![open] + inner + seq![close], open, close) == Some(inner),
        enclosed(s, open, close) == Some(inner) ==> s == seq![open] + inner + seq![close],
{
    let t = seq![open] + inner + seq![close];
    assert(t.subrange(1, t.len() - 1) =~= inner);
    if enclosed(s, open, close) == Some(inner) {
        assert(s =~= t);
    }
}

/// The length of a word in front of white space.
proof fn lemma_word_len(w: Seq<char>, rest: Seq<char>)
    requires
        is_solid(w),
        rest.len() == 0 || is_space(rest[0]),
    ensures
        word_len(w + rest) == w.len(),
    decreases w.len(),
{
    let s = w + rest;
    if w.len() > 0 {
        let t = w.drop_first();
        assert(forall|i: int| 0 <= i < t.len() ==> t[i] == w[i + 1]);
        lemma_word_len(t, rest);
        assert(s.drop_first() =~= t + rest);
        assert(!is_space(w[0]));
    } else {
        assert(s =~= rest);
    }
}

/// White space in front of words makes no difference.
pub proof fn law_blanks_are_no_words(blank: Seq<char>, rest: Seq<char>)
    requires
        is_blank(blank),
    ensures
        words_of(blank + rest) == words_of(rest),
        words_of(blank) == Seq::<Seq<char>>::empty(),
    decreases blank.len(),
{
    let s = blank + rest;
    if blank.len() > 0 {
        let b = blank.drop_first();
        assert(forall|i: int| 0 <= i < b.len() ==> b[i] == blank[i + 1]);
        law_blanks_are_no_words(b, rest);
        assert(s.drop_first() =~= b + rest);
        assert(is_space(blank[0]));
    } else {
        assert(s =~= rest);
    }
}

/// The first word of a text reaches to the first white space, and the other words
/// are those of the rest.
pub proof fn law_first_word(word: Seq<char>, blank: char, rest: Seq<char>)
    requires
        word.len() > 0,
        is_solid(word),
        is_space(blank),
    ensures
        words_of(word + seq![blank] + rest) == seq![word] + words_of(rest),
        words_of(word) == seq![word],
{
    let tail = seq![blank] + rest;
    let s = word + tail;
    assert(word + seq![blank] + rest =~= s);
    lemma_word_len(word, tail);
    assert(s[0] == word[0]);
    assert(s.take(word.len() as int) =~= word);
    assert(s.skip(word.len() as int) =~= tail);
    assert(is_blank(seq![blank]));
    law_blanks_are_no_words(seq![blank], rest);
    lemma_word_len(word, Seq::empty());
    assert(word + Seq::empty() =~= word);
    assert(word.take(word.len() as int) =~= word);
    assert(word.skip(word.len() as int).len() == 0);
    assert(words_of(word.skip(word.len() as int)) =~= Seq::empty());
    assert(seq![word] + Seq::<Seq<char>>::empty() =~= seq![word]);
}

/// Folding case takes every ASCII capital letter to the small letter at the same
/// place of the alphabet, and leaves every other character alone.
pub proof fn law_folding_case(s: Seq<char>, i: int, n: int)
    requires
        0 <= i < s.len(),
        0 <= n < 26,
    ensures
        ascii_lowered(s).len() == s.len(),
        s[i] as int == 'A' as int + n ==> ascii_lowered(s)[i] as int == 'a' as int + n,
        !('A' <= s[i] && s[i] <= 'Z') ==> ascii_lowered(s)[i] == s[i],
{
}

/// Results and lists of texts are spoken of by their contents, one for one.
pub proof fn law_contents<T>(
    value: T,
    error: String,
    list: Seq<&str>,
    owned: Seq<String>,
    i: int,
)
    ensures
        outcome(Ok::<T, String>(value)) == Ok::<T, Seq<char>>(value),
        outcome(Err::<T, String>(error)) == Err::<T, Seq<char>>(error@),
        texts(list).len() == list.len(),
        0 <= i < list.len() ==> texts(list)[i] == list[i]@,
        strings(owned).len() == owned.len(),
        0 <= i < owned.len() ==> strings(owned)[i] == owned[i]@,
{
}

} // verus!
