//! Configuration files that differ only in how they are written load alike.

use vstd::prelude::*;
use crate::config::{
    compacted, filter_value, first_missing, initial_reading, line_content, loaded, marker_kind,
    read_content, required_settings, read_lines, variant_value, Reading,
};
use crate::config_laws::{law_cuda_tile_size_is_an_alias, lemma_none_missing};
use crate::number::{i8_value, integer_value, is_digit};
use crate::text::{
    ascii_lower, ascii_lowered, enclosed, find, is_space, lemma_find_bounds, lemma_word_len_bounds,
    split_all, split_at_first, trimmed, word_len, words_of,
};

verus! {

/// The contents of lines that are not blank, in order.
pub open spec fn kept_contents(lines: Seq<Seq<char>>) -> Seq<Seq<char>> {
    lines.map_values(|line: Seq<char>| line_content(line)).filter(
        |content: Seq<char>| content.len() > 0,
    )
}

/// The contents of the lines of a file that are not blank, in order.
pub open spec fn contents_of(text: Seq<char>) -> Seq<Seq<char>> {
    kept_contents(split_all(text, '\n'))
}

/// Two lines give the same value to the same setting, whose name may be spelled in
/// two ways.
pub open spec fn same_setting(s: Seq<char>, t: Seq<char>) -> bool {
    match (split_at_first(s, '='), split_at_first(t, '=')) {
        (Some((key, value)), Some((other_key, other_value))) => {
            &&& compacted(key) == compacted(other_key)
            &&& trimmed(value) == trimmed(other_value)
            &&& enclosed(s, '[', ']') is None
            &&& enclosed(t, '[', ']') is None
        },
        _ => false,
    }
}

/// Two lines open the same section, whose name may be spelled in two ways.
pub open spec fn same_section(s: Seq<char>, t: Seq<char>) -> bool {
    match (enclosed(s, '[', ']'), enclosed(t, '[', ']')) {
        (Some(name), Some(other_name)) => compacted(name) == compacted(other_name),
        _ => false,
    }
}

/// Two lines mean the same.
pub open spec fn alike(s: Seq<char>, t: Seq<char>) -> bool {
    s == t || same_setting(s, t) || same_section(s, t)
}

/// The state after lines with the given contents, if all of them are good.
pub open spec fn state_after(path: Seq<char>, contents: Seq<Seq<char>>) -> Option<Reading>
    decreases contents.len(),
{
    if contents.len() == 0 {
        Some(initial_reading(path))
    } else {
        match state_after(path, contents.drop_last()) {
            None => None,
            Some(state) => match read_content(state, contents.last()) {
                Ok(next) => Some(next),
                Err(_) => None,
            },
        }
    }
}

/// Blank lines leave no trace in the state.
pub proof fn lemma_state_after_lines(path: Seq<char>, lines: Seq<Seq<char>>, n: int)
    requires
        0 <= n <= lines.len(),
    ensures
        state_after(path, kept_contents(lines.take(n))) == (match read_lines(path, lines, n) {
            Ok(state) => Some(state),
            Err(_) => None,
        }),
    decreases n,
{
    reveal(Seq::filter);
    let content = |line: Seq<char>| line_content(line);
    let keep = |c: Seq<char>| c.len() > 0;
    let mapped = lines.take(n).map_values(content);
    if n == 0 {
        assert(mapped.filter(keep).len() == 0);
    } else {
        lemma_state_after_lines(path, lines, n - 1);
        let line = lines[n - 1];
        assert(mapped.drop_last() =~= lines.take(n - 1).map_values(content));
        assert(mapped.last() == line_content(line));
        let before = kept_contents(lines.take(n - 1));
        let after = kept_contents(lines.take(n));
        if line_content(line).len() > 0 {
            assert(after == before.push(line_content(line)));
            assert(after.drop_last() =~= before);
        } else {
            assert(after == before);
        }
    }
}

/// A character that was found is there.
pub proof fn lemma_found(s: Seq<char>, c: char)
    requires
        find(s, c) < s.len(),
    ensures
        0 <= find(s, c),
        s[find(s, c)] == c,
    decreases s.len(),
{
    lemma_find_bounds(s, c);
    if s[0] != c {
        lemma_found(s.drop_first(), c);
    }
}

/// A character that is not white space stands in some word.
proof fn lemma_in_a_word(s: Seq<char>, q: int) -> (place: (int, int))
    requires
        0 <= q < s.len(),
        !is_space(s[q]),
    ensures
        0 <= place.0 < words_of(s).len(),
        0 <= place.1 < words_of(s)[place.0].len(),
        words_of(s)[place.0][place.1] == s[q],
    decreases s.len(),
{
    if is_space(s[0]) {
        lemma_in_a_word(s.drop_first(), q - 1)
    } else {
        lemma_word_len_bounds(s);
        let n = word_len(s);
        if q < n {
            assert(words_of(s)[0] == s.take(n));
            (0, q)
        } else {
            let (j, k) = lemma_in_a_word(s.skip(n), q - n);
            assert(words_of(s)[j + 1] == words_of(s.skip(n))[j]);
            (j + 1, k)
        }
    }
}

/// An integer holds digits and signs only.
proof fn lemma_integer_characters(s: Seq<char>, signed: bool, k: int)
    requires
        integer_value(s, signed) is Some,
        0 <= k < s.len(),
    ensures
        is_digit(s[k]) || s[k] == '+' || s[k] == '-',
{
    let digits = if s[0] == '+' || (signed && s[0] == '-') { s.drop_first() } else { s };
    if digits.len() == s.len() {
        assert(is_digit(digits[k]));
    } else if k > 0 {
        assert(is_digit(digits[k - 1]));
    }
}

/// No marker of a filter row holds an equals sign.
proof fn lemma_marker_characters(marker: Seq<char>, k: int)
    requires
        marker_kind(marker) is Some,
        0 <= k < marker.len(),
    ensures
        marker[k] != '=',
{
    reveal_strlit("normal");
    reveal_strlit("false");
    reveal_strlit("0");
    reveal_strlit("side");
    reveal_strlit("true");
    reveal_strlit("1");
    reveal_strlit("netherrack-up");
    reveal_strlit("netherrack-down");
    reveal_strlit("netherrack-north");
    reveal_strlit("netherrack-south");
    reveal_strlit("netherrack-east");
    reveal_strlit("netherrack-west");
}

/// A good filter row holds no equals sign.
pub proof fn lemma_rows_hold_no_equals_sign(s: Seq<char>)
    requires
        filter_value(s) is Ok,
    ensures
        split_at_first(s, '=') is None,
{
    if split_at_first(s, '=') is Some {
        lemma_found(s, '=');
        lemma_found(s, '|');
        let q = find(s, '=');
        let p = find(s, '|');
        let (left, right) = split_at_first(s, '|')->Some_0;
        if q < p {
            assert(left[q] == '=');
            let (j, k) = lemma_in_a_word(left, q);
            let word = words_of(left)[j];
            assert(i8_value(word) is Some);
            lemma_integer_characters(word, true, k);
        } else {
            assert(right[q - p - 1] == '=');
            let (j, k) = lemma_in_a_word(right, q - p - 1);
            let list = words_of(right);
            assert(variant_value(list) is Ok);
            if j == 0 {
                lemma_integer_characters(list[0], false, k);
            } else {
                assert(j == 1);
                let marker = ascii_lowered(list[1]);
                assert(marker[k] == ascii_lower('='));
                lemma_marker_characters(marker, k);
            }
        }
    }
}

/// Lines that mean the same have the same effect.
proof fn lemma_alike_lines(state: Reading, s: Seq<char>, t: Seq<char>)
    requires
        alike(s, t),
        read_content(state, s) is Ok,
    ensures
        read_content(state, t) == read_content(state, s),
{
    if s != t && same_setting(s, t) {
        if state.section == "filter"@ {
            lemma_rows_hold_no_equals_sign(s);
        }
    }
}

/// Lists of lines that mean the same lead to the same state.
proof fn lemma_alike_contents(path: Seq<char>, a: Seq<Seq<char>>, b: Seq<Seq<char>>)
    requires
        a.len() == b.len(),
        forall|i: int| 0 <= i < a.len() ==> alike(#[trigger] a[i], b[i]),
        state_after(path, a) is Some,
    ensures
        state_after(path, b) == state_after(path, a),
    decreases a.len(),
{
    if a.len() > 0 {
        let (c, d) = (a.drop_last(), b.drop_last());
        assert forall|i: int| 0 <= i < c.len() implies alike(#[trigger] c[i], d[i]) by {
            assert(alike(a[i], b[i]));
        }
        lemma_alike_contents(path, c, d);
        assert(alike(a[a.len() - 1], b[a.len() - 1]));
        lemma_alike_lines(state_after(path, c)->Some_0, a.last(), b.last());
    }
}

/// A file that loads gives the same settings however it is written: blank lines and
/// comments can come and go, white space can surround a line or a value, and the
/// names of settings and sections can be spelled with other separators and in
/// letters of another case.
pub proof fn law_respelled_files_load_alike(path: Seq<char>, a: Seq<char>, b: Seq<char>)
    requires
        loaded(path, a) is Ok,
        contents_of(a).len() == contents_of(b).len(),
        forall|i: int|
            0 <= i < contents_of(a).len() ==> alike(#[trigger] contents_of(a)[i], contents_of(b)[i]),
    ensures
        loaded(path, b) == loaded(path, a),
{
    let (x, y) = (split_all(a, '\n'), split_all(b, '\n'));
    lemma_state_after_lines(path, x, x.len() as int);
    lemma_state_after_lines(path, y, y.len() as int);
    assert(x.take(x.len() as int) =~= x);
    assert(y.take(y.len() as int) =~= y);
    lemma_alike_contents(path, contents_of(a), contents_of(b));
}

/// A blank line, or one that holds only a comment, can be inserted anywhere in a
/// file that loads.
pub proof fn law_blank_lines_can_be_inserted(
    path: Seq<char>,
    a: Seq<char>,
    b: Seq<char>,
    k: int,
    line: Seq<char>,
)
    requires
        loaded(path, a) is Ok,
        0 <= k <= split_all(a, '\n').len(),
        line_content(line).len() == 0,
        split_all(b, '\n') == split_all(a, '\n').insert(k, line),
    ensures
        loaded(path, b) == loaded(path, a),
{
    let content = |l: Seq<char>| line_content(l);
    let keep = |c: Seq<char>| c.len() > 0;
    let x = split_all(a, '\n');
    let (before, after) = (x.take(k).map_values(content), x.skip(k).map_values(content));
    let blank = seq![line_content(line)];
    assert(x.map_values(content) =~= before + after);
    assert(x.insert(k, line).map_values(content) =~= before + blank + after);
    Seq::filter_distributes_over_add(before, after, keep);
    Seq::filter_distributes_over_add(before + blank, after, keep);
    Seq::filter_distributes_over_add(before, blank, keep);
    assert(blank.filter(keep) =~= Seq::empty()) by {
        reveal_with_fuel(Seq::filter, 2);
        assert(blank.drop_last() =~= Seq::empty());
        assert(!keep(blank.last()));
    }
    assert(contents_of(b) =~= contents_of(a));
    law_respelled_files_load_alike(path, a, b);
}

/// A file that reads without an error gives a value to the setting with a compact
/// name.
pub open spec fn sets(path: Seq<char>, text: Seq<char>, name: Seq<char>) -> bool {
    let lines = split_all(text, '\n');
    read_lines(path, lines, lines.len() as int) matches Ok(state) && state.seen.contains(name)
}

/// Two names of one setting: the current and the legacy name of the GPU tile size.
pub open spec fn tile_size_names(from: Seq<char>, to: Seq<char>) -> bool {
    ||| from == "gputilesize"@ && to == "cudatilesize"@
    ||| from == "cudatilesize"@ && to == "gputilesize"@
}

/// Two lines give the same value to two settings with the given compact names.
pub open spec fn renamed(s: Seq<char>, t: Seq<char>, from: Seq<char>, to: Seq<char>) -> bool {
    match (split_at_first(s, '='), split_at_first(t, '=')) {
        (Some((key, value)), Some((other_key, other_value))) => {
            &&& compacted(key) == from
            &&& compacted(other_key) == to
            &&& trimmed(value) == trimmed(other_value)
            &&& enclosed(s, '[', ']') is None
            &&& enclosed(t, '[', ']') is None
        },
        _ => false,
    }
}

/// Two states differ at most in the name under which one setting was given.
spec fn same_but_for_a_name(a: Reading, b: Reading, from: Seq<char>, to: Seq<char>) -> bool {
    &&& a.section == b.section
    &&& a.settings == b.settings
    &&& a.seen.len() == b.seen.len()
    &&& forall|i: int|
        0 <= i < a.seen.len() ==> #[trigger] b.seen[i] == a.seen[i] || (a.seen[i] == from
            && b.seen[i] == to)
}

/// One line keeps states together that differ in a name.
proof fn lemma_renamed_line(
    a: Reading,
    b: Reading,
    s: Seq<char>,
    t: Seq<char>,
    from: Seq<char>,
    to: Seq<char>,
)
    requires
        tile_size_names(from, to),
        same_but_for_a_name(a, b, from, to),
        alike(s, t) || renamed(s, t, from, to),
        read_content(a, s) is Ok,
        !read_content(a, s)->Ok_0.seen.contains(to),
    ensures
        read_content(b, t) is Ok,
        same_but_for_a_name(read_content(a, s)->Ok_0, read_content(b, t)->Ok_0, from, to),
{
    let next = read_content(a, s)->Ok_0;
    assert(forall|i: int| 0 <= i < a.seen.len() ==> a.seen[i] == next.seen[i]);
    if alike(s, t) {
        lemma_alike_lines(a, s, t);
    }
    match split_at_first(t, '=') {
        Some((key, value)) if t.len() > 0 && enclosed(t, '[', ']') is None => {
            if a.section == "filter"@ {
                lemma_rows_hold_no_equals_sign(s);
                assert(s == t);
            } else {
                let own = compacted(split_at_first(s, '=')->Some_0.0);
                let name = compacted(key);
                assert(next.seen.last() == own);
                assert(next.seen[a.seen.len() as int] == own);
                if b.seen.contains(name) {
                    let i = choose|i: int| 0 <= i < b.seen.len() && b.seen[i] == name;
                    assert(a.seen.contains(a.seen[i]));
                    assert(next.seen.contains(next.seen[i]));
                    assert(next.seen.contains(own));
                }
                law_cuda_tile_size_is_an_alias(a.settings, key, trimmed(value));
            }
        },
        _ => {},
    }
}

/// Lists of lines that differ in a name lead to states that differ in that name.
proof fn lemma_renamed_contents(
    path: Seq<char>,
    a: Seq<Seq<char>>,
    b: Seq<Seq<char>>,
    from: Seq<char>,
    to: Seq<char>,
)
    requires
        tile_size_names(from, to),
        a.len() == b.len(),
        forall|i: int|
            0 <= i < a.len() ==> alike(#[trigger] a[i], b[i]) || renamed(a[i], b[i], from, to),
        state_after(path, a) is Some,
        !state_after(path, a)->Some_0.seen.contains(to),
    ensures
        state_after(path, b) is Some,
        same_but_for_a_name(state_after(path, a)->Some_0, state_after(path, b)->Some_0, from, to),
    decreases a.len(),
{
    if a.len() > 0 {
        let (c, d) = (a.drop_last(), b.drop_last());
        assert forall|i: int| 0 <= i < c.len() implies alike(#[trigger] c[i], d[i]) || renamed(
            c[i],
            d[i],
            from,
            to,
        ) by {
            assert(alike(a[i], b[i]) || renamed(a[i], b[i], from, to));
        }
        let before = state_after(path, c)->Some_0;
        let after = state_after(path, a)->Some_0;
        assert(after == read_content(before, a.last())->Ok_0);
        if before.seen.contains(to) {
            let i = choose|i: int| 0 <= i < before.seen.len() && before.seen[i] == to;
            assert(after.seen[i] == to);
        }
        lemma_renamed_contents(path, c, d, from, to);
        let k = a.len() - 1;
        assert(alike(a[k], b[k]) || renamed(a[k], b[k], from, to));
        lemma_renamed_line(
            before,
            state_after(path, d)->Some_0,
            a.last(),
            b.last(),
            from,
            to,
        );
    }
}

/// Neither name of the GPU tile size is the name of a required setting.
proof fn lemma_tile_size_not_required(i: int)
    requires
        0 <= i < required_settings().len(),
    ensures
        required_settings()[i] != "gputilesize"@,
        required_settings()[i] != "cudatilesize"@,
{
    reveal_strlit("gputilesize");
    reveal_strlit("cudatilesize");
    reveal_strlit("algorithm");
    reveal_strlit("xrange");
    reveal_strlit("yrange");
    reveal_strlit("zrange");
    reveal_strlit("errortolerance");
    assert("gputilesize"@.len() == 11 && "cudatilesize"@.len() == 12);
    assert("algorithm"@.len() == 9 && "errortolerance"@.len() == 14);
    assert("xrange"@.len() == 6 && "yrange"@.len() == 6 && "zrange"@.len() == 6);
}

/// Nothing is missing where all names were seen.
pub proof fn lemma_all_seen(required: Seq<Seq<char>>, seen: Seq<Seq<char>>)
    requires
        forall|i: int| 0 <= i < required.len() ==> seen.contains(#[trigger] required[i]),
    ensures
        first_missing(required, seen) is None,
    decreases required.len(),
{
    if required.len() > 0 {
        let rest = required.drop_first();
        assert(seen.contains(required[0]));
        assert forall|i: int| 0 <= i < rest.len() implies seen.contains(#[trigger] rest[i]) by {
            assert(seen.contains(required[i + 1]));
        }
        lemma_all_seen(rest, seen);
    }
}

/// The legacy name of the GPU tile size can stand in a file in place of the current
/// one, and the other way round: a file that loads and does not give both gives the
/// same settings under either name.
pub proof fn law_either_tile_size_name_loads_alike(
    path: Seq<char>,
    a: Seq<char>,
    b: Seq<char>,
    from: Seq<char>,
    to: Seq<char>,
)
    requires
        loaded(path, a) is Ok,
        tile_size_names(from, to),
        !sets(path, a, to),
        contents_of(a).len() == contents_of(b).len(),
        forall|i: int|
            0 <= i < contents_of(a).len() ==> alike(#[trigger] contents_of(a)[i], contents_of(b)[i])
                || renamed(contents_of(a)[i], contents_of(b)[i], from, to),
    ensures
        loaded(path, b) == loaded(path, a),
{
    let (x, y) = (split_all(a, '\n'), split_all(b, '\n'));
    lemma_state_after_lines(path, x, x.len() as int);
    lemma_state_after_lines(path, y, y.len() as int);
    assert(x.take(x.len() as int) =~= x);
    assert(y.take(y.len() as int) =~= y);
    lemma_renamed_contents(path, contents_of(a), contents_of(b), from, to);
    let before = state_after(path, contents_of(a))->Some_0;
    let after = state_after(path, contents_of(b))->Some_0;
    let required = required_settings();
    assert forall|i: int| 0 <= i < required.len() implies after.seen.contains(
        #[trigger] required[i],
    ) by {
        lemma_none_missing(required, before.seen, i);
        lemma_tile_size_not_required(i);
        let k = choose|k: int| 0 <= k < before.seen.len() && before.seen[k] == required[i];
        assert(after.seen[k] == required[i]);
    }
    lemma_all_seen(required, after.seen);
}

} // verus!
