//! Text as a sequence of characters: trimming, splitting, folding case.

use vstd::prelude::*;
use vstd::string::*;

verus! {

/// Unicode white space, as `char::is_whitespace` sees it.
pub open spec fn is_space(c: char) -> bool {
    let n = c as u32;
    ||| 0x9 <= n <= 0xd
    ||| n == 0x20
    ||| n == 0x85
    ||| n == 0xa0
    ||| n == 0x1680
    ||| 0x2000 <= n <= 0x200a
    ||| n == 0x2028
    ||| n == 0x2029
    ||| n == 0x202f
    ||| n == 0x205f
    ||| n == 0x3000
}

/// Tells whether a character is white space.
pub fn is_whitespace(c: char) -> (r: bool)
    ensures
        r == is_space(c),
{
    let n: u32 = c as u32;
    (0x9 <= n && n <= 0xd) || n == 0x20 || n == 0x85 || n == 0xa0 || n == 0x1680 || (0x2000 <= n
        && n <= 0x200a) || n == 0x2028 || n == 0x2029 || n == 0x202f || n == 0x205f || n == 0x3000
}

/// `s` without leading white space.
pub open spec fn trimmed_start(s: Seq<char>) -> Seq<char>
    decreases s.len(),
{
    if s.len() > 0 && is_space(s[0]) {
        trimmed_start(s.drop_first())
    } else {
        s
    }
}

/// `s` without trailing white space.
pub open spec fn trimmed_end(s: Seq<char>) -> Seq<char>
    decreases s.len(),
{
    if s.len() > 0 && is_space(s.last()) {
        trimmed_end(s.drop_last())
    } else {
        s
    }
}

/// `s` without white space at either end.
pub open spec fn trimmed(s: Seq<char>) -> Seq<char> {
    trimmed_end(trimmed_start(s))
}

/// The number of characters before the first `c`, or all of them.
pub open spec fn find(s: Seq<char>, c: char) -> int
    decreases s.len(),
{
    if s.len() == 0 || s[0] == c {
        0
    } else {
        1 + find(s.drop_first(), c)
    }
}

/// The text before and after the first `c`.
pub open spec fn split_at_first(s: Seq<char>, c: char) -> Option<(Seq<char>, Seq<char>)> {
    if find(s, c) < s.len() {
        Some((s.take(find(s, c)), s.skip(find(s, c) + 1)))
    } else {
        None
    }
}

/// The pieces of `s` between the occurrences of `c`.
pub open spec fn split_all(s: Seq<char>, c: char) -> Seq<Seq<char>>
    decreases s.len(),
{
    if 0 <= find(s, c) < s.len() {
        seq![s.take(find(s, c))] + split_all(s.skip(find(s, c) + 1), c)
    } else {
        seq![s]
    }
}

/// The length of the run of characters that are not white space at the start of `s`.
pub open spec fn word_len(s: Seq<char>) -> int
    decreases s.len(),
{
    if s.len() == 0 || is_space(s[0]) {
        0
    } else {
        1 + word_len(s.drop_first())
    }
}

/// The runs of characters of `s` that are not white space.
pub open spec fn words_of(s: Seq<char>) -> Seq<Seq<char>>
    decreases s.len(),
{
    if s.len() == 0 {
        Seq::empty()
    } else if is_space(s[0]) {
        words_of(s.drop_first())
    } else if 0 < word_len(s) <= s.len() {
        seq![s.take(word_len(s))] + words_of(s.skip(word_len(s)))
    } else {
        Seq::empty()
    }
}

/// `s` between an opening and a closing character.
pub open spec fn enclosed(s: Seq<char>, open: char, close: char) -> Option<Seq<char>> {
    if s.len() >= 2 && s[0] == open && s.last() == close {
        Some(s.subrange(1, s.len() - 1))
    } else {
        None
    }
}

/// An ASCII capital letter as a small letter; other characters unchanged.
pub open spec fn ascii_lower(c: char) -> char {
    if 'A' <= c <= 'Z' {
        (c as u32 + 32) as char
    } else {
        c
    }
}

/// `s` with ASCII letters in lower case.
pub open spec fn ascii_lowered(s: Seq<char>) -> Seq<char> {
    s.map_values(|c: char| ascii_lower(c))
}

/// `String::push` puts the character behind those that the text has. The library
/// relies on this without a proof of its own.
pub assume_specification[ String::push ](s: &mut String, c: char)
    ensures
        final(s)@ == old(s)@.push(c),
;

/// The characters of a text.
pub fn chars_of(s: &str) -> (v: Vec<char>)
    ensures
        v@ == s@,
{
    let mut v: Vec<char> = Vec::new();
    for c in it: s.chars()
        invariant
            v@ == it.seq().take(it.index()),
            it.seq() == s@,
    {
        v.push(c);
    }
    v
}

/// Tells whether two texts are the same.
pub fn same_text(a: &str, b: &str) -> (r: bool)
    ensures
        r == (a@ == b@),
{
    a.to_owned() == b.to_owned()
}

/// The index of the first `c`, or the number of characters.
pub proof fn lemma_find_bounds(s: Seq<char>, c: char)
    ensures
        0 <= find(s, c) <= s.len(),
    decreases s.len(),
{
    if s.len() > 0 && s[0] != c {
        lemma_find_bounds(s.drop_first(), c);
    }
}

/// Splitting leaves at least one piece.
pub proof fn lemma_split_not_empty(s: Seq<char>, c: char)
    ensures
        split_all(s, c).len() >= 1,
{
}

/// A text that starts with a character that is not white space starts with a word.
pub proof fn lemma_word_len_bounds(s: Seq<char>)
    ensures
        0 <= word_len(s) <= s.len(),
        s.len() > 0 && !is_space(s[0]) ==> word_len(s) > 0,
    decreases s.len(),
{
    if s.len() > 0 && !is_space(s[0]) {
        lemma_word_len_bounds(s.drop_first());
    }
}

/// Returns the text without white space at either end.
pub fn trim(s: &str) -> (r: &str)
    ensures
        r@ == trimmed(s@),
{
    let v: Vec<char> = chars_of(s);
    let mut from: usize = 0;
    assert(s@.skip(0) =~= s@);
    while from < v.len() && is_whitespace(v[from])
        invariant
            v@ == s@,
            from <= v.len(),
            trimmed_start(s@) == trimmed_start(s@.skip(from as int)),
        decreases v.len() - from,
    {
        assert(s@.skip(from as int).drop_first() =~= s@.skip(from + 1));
        from = from + 1;
    }
    let ghost rest = s@.skip(from as int);
    let mut to: usize = v.len();
    assert(rest.take(to - from) =~= rest);
    while from < to && is_whitespace(v[to - 1])
        invariant
            v@ == s@,
            from <= to <= v.len(),
            rest == s@.skip(from as int),
            trimmed_end(rest) == trimmed_end(rest.take(to - from)),
        decreases to,
    {
        assert(rest.take(to - from).drop_last() =~= rest.take(to - from - 1));
        to = to - 1;
    }
    assert(s@.subrange(from as int, to as int) =~= rest.take(to - from));
    s.substring_char(from, to)
}

/// Returns the number of characters before the first `c`, or all of them.
fn find_char(v: &Vec<char>, c: char) -> (i: usize)
    ensures
        i == find(v@, c),
        i <= v.len(),
{
    let mut i: usize = 0;
    assert(v@.skip(0) =~= v@);
    while i < v.len() && v[i] != c
        invariant
            i <= v.len(),
            find(v@, c) == i + find(v@.skip(i as int), c),
        decreases v.len() - i,
    {
        assert(v@.skip(i as int).drop_first() =~= v@.skip(i + 1));
        i = i + 1;
    }
    i
}

/// Splits a text at the first `c`.
pub fn split_once(s: &str, c: char) -> (r: Option<(&str, &str)>)
    ensures
        match r {
            Some((before, after)) => split_at_first(s@, c) == Some((before@, after@)),
            None => split_at_first(s@, c) is None,
        },
{
    let v: Vec<char> = chars_of(s);
    let i: usize = find_char(&v, c);
    if i < v.len() {
        let before: &str = s.substring_char(0, i);
        let after: &str = s.substring_char(i + 1, v.len());
        assert(before@ =~= s@.take(i as int));
        assert(after@ =~= s@.skip(i + 1));
        Some((before, after))
    } else {
        None
    }
}

/// The contents of a list of texts.
pub open spec fn texts(list: Seq<&str>) -> Seq<Seq<char>> {
    list.map_values(|t: &str| t@)
}

/// The contents of a list of owned texts.
pub open spec fn strings(list: Seq<String>) -> Seq<Seq<char>> {
    list.map_values(|s: String| s@)
}

/// Splits a text at every `c`.
pub fn split<'a>(s: &'a str, c: char) -> (pieces: Vec<&'a str>)
    ensures
        texts(pieces@) == split_all(s@, c),
        pieces.len() >= 1,
{
    let mut pieces: Vec<&'a str> = Vec::new();
    let mut rest: &'a str = s;
    assert(texts(pieces@) + split_all(s@, c) =~= split_all(s@, c));
    loop
        invariant
            split_all(s@, c) == texts(pieces@) + split_all(rest@, c),
        decreases rest@.len(),
    {
        proof {
            lemma_find_bounds(rest@, c);
        }
        match split_once(rest, c) {
            Some((before, after)) => {
                let ghost done = texts(pieces@);
                pieces.push(before);
                assert(texts(pieces@) =~= done.push(before@));
                assert(done.push(before@) + split_all(after@, c) =~= done + (seq![before@]
                    + split_all(after@, c)));
                rest = after;
            },
            None => {
                let ghost done = texts(pieces@);
                pieces.push(rest);
                assert(texts(pieces@) =~= done + seq![rest@]);
                return pieces;
            },
        }
    }
}

/// Returns the words of a text: its runs of characters that are not white space.
pub fn words<'a>(s: &'a str) -> (list: Vec<&'a str>)
    ensures
        texts(list@) == words_of(s@),
{
    let v: Vec<char> = chars_of(s);
    let mut list: Vec<&'a str> = Vec::new();
    let mut i: usize = 0;
    assert(s@.skip(0) =~= s@);
    assert(texts(list@) + words_of(s@) =~= words_of(s@));
    while i < v.len()
        invariant
            v@ == s@,
            i <= v.len(),
            words_of(s@) == texts(list@) + words_of(s@.skip(i as int)),
        decreases v.len() - i,
    {
        let ghost rest = s@.skip(i as int);
        if is_whitespace(v[i]) {
            assert(rest.drop_first() =~= s@.skip(i + 1));
            i = i + 1;
        } else {
            proof {
                lemma_word_len_bounds(rest);
            }
            let mut j: usize = i;
            assert(rest.skip(0) =~= rest);
            while j < v.len() && !is_whitespace(v[j])
                invariant
                    v@ == s@,
                    i <= j <= v.len(),
                    rest == s@.skip(i as int),
                    word_len(rest) == (j - i) + word_len(rest.skip(j - i)),
                decreases v.len() - j,
            {
                assert(rest.skip(j - i).drop_first() =~= rest.skip(j - i + 1));
                j = j + 1;
            }
            let word: &'a str = s.substring_char(i, j);
            assert(word@ =~= rest.take(word_len(rest)));
            assert(rest.skip(word_len(rest)) =~= s@.skip(j as int));
            let ghost done = texts(list@);
            list.push(word);
            assert(texts(list@) =~= done.push(word@));
            assert(done.push(word@) + words_of(s@.skip(j as int)) =~= done + (seq![word@]
                + words_of(s@.skip(j as int))));
            i = j;
        }
    }
    assert(texts(list@) + words_of(s@.skip(i as int)) =~= texts(list@));
    list
}

/// Returns the text between an opening and a closing character.
pub fn strip_enclosing(s: &str, open: char, close: char) -> (r: Option<&str>)
    ensures
        match r {
            Some(inner) => enclosed(s@, open, close) == Some(inner@),
            None => enclosed(s@, open, close) is None,
        },
{
    let v: Vec<char> = chars_of(s);
    let n: usize = v.len();
    if n >= 2 && v[0] == open && v[n - 1] == close {
        Some(s.substring_char(1, n - 1))
    } else {
        None
    }
}

/// Returns the text with ASCII letters in lower case.
pub fn to_ascii_lowercase(s: &str) -> (r: String)
    ensures
        r@ == ascii_lowered(s@),
{
    let v: Vec<char> = chars_of(s);
    let mut r: String = String::new();
    let mut i: usize = 0;
    while i < v.len()
        invariant
            v@ == s@,
            i <= v.len(),
            r@ == ascii_lowered(s@.take(i as int)),
        decreases v.len() - i,
    {
        r.push(ascii_lower_char(v[i]));
        assert(ascii_lowered(s@.take(i + 1)) =~= ascii_lowered(s@.take(i as int)).push(
            ascii_lower(s@[i as int]),
        ));
        i = i + 1;
    }
    assert(s@.take(i as int) =~= s@);
    r
}

/// A result with the contents of its error message.
pub open spec fn outcome<T>(result: Result<T, String>) -> Result<T, Seq<char>> {
    match result {
        Ok(value) => Ok(value),
        Err(error) => Err(error@),
    }
}

/// Returns `before`, the text and a closing quotation mark.
pub fn quoted(before: &str, text: &str) -> (r: String)
    ensures
        r@ == before@ + text@ + "'"@,
{
    let mut r: String = before.to_owned();
    r.append(text);
    r.append("'");
    r
}

/// Returns an ASCII capital letter as a small letter, and other characters unchanged.
pub fn ascii_lower_char(c: char) -> (r: char)
    ensures
        r == ascii_lower(c),
{
    if 'A' <= c && c <= 'Z' {
        ((c as u8) + 32) as char
    } else {
        c
    }
}

} // verus!
