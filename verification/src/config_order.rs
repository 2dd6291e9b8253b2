//! A scan order that is put in front of a configuration file changes nothing but
//! the scan order.

use vstd::prelude::*;
use crate::config::{
    compacted, initial_reading, lemma_read_error, line_content, line_error_text, loaded,
    read_content, read_lines, required_settings, scan_order_value, with_setting, Reading, ScanOrder,
    Settings,
};
use crate::config_laws::{
    law_letter_case_is_ignored, law_separators_are_ignored, lemma_compact_stays, lemma_none_missing,
    lemma_trimmed_push,
};
use crate::config_spelling::{
    kept_contents, lemma_all_seen, lemma_state_after_lines, sets, state_after,
};
use crate::text::{
    ascii_lowered, enclosed, find, is_space, split_all, split_at_first, trimmed, trimmed_end,
    trimmed_start,
};

verus! {

/// The line that sets the scan order to a value.
pub open spec fn order_line(value: Seq<char>) -> Seq<char> {
    "scanOrder = "@ + value
}

/// A text does not hold a character.
pub open spec fn lacks(s: Seq<char>, c: char) -> bool {
    forall|i: int| 0 <= i < s.len() ==> #[trigger] s[i] != c
}

/// A character that a text lacks is not found.
proof fn lemma_not_found(s: Seq<char>, c: char)
    requires
        lacks(s, c),
    ensures
        find(s, c) == s.len(),
    decreases s.len(),
{
    if s.len() > 0 {
        let t = s.drop_first();
        assert(forall|i: int| 0 <= i < t.len() ==> t[i] == s[i + 1]);
        lemma_not_found(t, c);
    }
}

/// A character that the start of a text lacks is found behind it.
proof fn lemma_found_behind(a: Seq<char>, b: Seq<char>, c: char)
    requires
        lacks(a, c),
        b.len() > 0,
        b[0] == c,
    ensures
        find(a + b, c) == a.len(),
    decreases a.len(),
{
    let s = a + b;
    if a.len() > 0 {
        let t = a.drop_first();
        assert(forall|i: int| 0 <= i < t.len() ==> t[i] == a[i + 1]);
        lemma_found_behind(t, b, c);
        assert(s.drop_first() =~= t + b);
        assert(s[0] == a[0]);
    } else {
        assert(s =~= b);
    }
}

/// Trimming the end of a text leaves alone what stands before its last word.
proof fn lemma_trimmed_end_behind(a: Seq<char>, b: Seq<char>)
    requires
        a.len() > 0,
        !is_space(a.last()),
    ensures
        trimmed_end(a + b) == a + trimmed_end(b),
    decreases b.len(),
{
    let s = a + b;
    if b.len() == 0 {
        assert(s =~= a);
        assert(a + trimmed_end(b) =~= a);
    } else {
        assert(s.last() == b.last());
        assert(s.drop_last() =~= a + b.drop_last());
        if is_space(b.last()) {
            lemma_trimmed_end_behind(a, b.drop_last());
        }
    }
}

/// A text whose end is trimmed is trimmed to the same.
proof fn lemma_trimmed_twice(s: Seq<char>)
    ensures
        trimmed(trimmed_end(s)) == trimmed(s),
    decreases s.len(),
{
    if s.len() > 0 && is_space(s.last()) {
        lemma_trimmed_twice(s.drop_last());
        lemma_trimmed_push(s.drop_last(), s.last());
        assert(s.drop_last().push(s.last()) =~= s);
    }
}

/// The compact form of the key of the line.
proof fn lemma_order_key()
    ensures
        compacted("scanOrder"@ + seq![' ']) == "scanorder"@,
{
    reveal_strlit("scanOrder");
    reveal_strlit("scanorder");
    let name = "scanOrder"@;
    law_separators_are_ignored(name, ' ', Seq::empty());
    assert(name + seq![' '] + Seq::empty() =~= name + seq![' ']);
    assert(name + Seq::empty() =~= name);
    law_letter_case_is_ignored(name);
    assert(ascii_lowered(name) =~= "scanorder"@);
    lemma_compact_stays("scanorder"@);
}

/// The content of the line, cut at its equals sign.
proof fn lemma_order_content(value: Seq<char>)
    requires
        lacks(value, '#'),
    ensures
        line_content(order_line(value)).len() > 0,
        enclosed(line_content(order_line(value)), '[', ']') is None,
        split_at_first(line_content(order_line(value)), '=') matches Some((key, given)) && {
            &&& compacted(key) == "scanorder"@
            &&& trimmed(given) == trimmed(value)
        },
{
    reveal_strlit("scanOrder = ");
    reveal_strlit("scanOrder");
    let line = order_line(value);
    let key = "scanOrder"@ + seq![' '];
    let head = key.push('=');
    let rest = seq![' '] + value;
    assert(line =~= head + rest);
    assert(lacks(line, '#'));
    lemma_not_found(line, '#');
    assert(line.take(find(line, '#')) =~= line);
    assert(trimmed_start(line) == line);
    lemma_trimmed_end_behind(head, rest);
    let content = line_content(line);
    let given = trimmed_end(rest);
    assert(content == head + given);
    let tail = seq!['='] + given;
    assert(content =~= key + tail);
    lemma_found_behind(key, tail, '=');
    assert(content.take(key.len() as int) =~= key);
    assert(content.skip(key.len() as int + 1) =~= given);
    lemma_order_key();
    lemma_trimmed_twice(rest);
    assert(rest.drop_first() =~= value);
    assert(content[0] == 's');
}

/// Settings with another scan order.
spec fn with_order(settings: Settings, order: ScanOrder) -> Settings {
    Settings { scan_order: order, ..settings }
}

/// A state that was given a scan order first.
spec fn ordered(a: Reading, b: Reading, order: ScanOrder) -> bool {
    &&& b.section == a.section
    &&& b.settings == with_order(a.settings, order)
    &&& b.seen == seq!["scanorder"@] + a.seen
}

/// Other settings do not touch the scan order.
proof fn lemma_other_setting(
    settings: Settings,
    order: ScanOrder,
    key: Seq<char>,
    name: Seq<char>,
    value: Seq<char>,
)
    requires
        name != "scanorder"@,
        with_setting(settings, key, name, value) is Ok,
    ensures
        with_setting(with_order(settings, order), key, name, value) == Ok::<Settings, Seq<char>>(
            with_order(with_setting(settings, key, name, value)->Ok_0, order),
        ),
{
}

/// One line keeps states together that differ in the scan order.
proof fn lemma_ordered_line(a: Reading, b: Reading, order: ScanOrder, s: Seq<char>)
    requires
        ordered(a, b, order),
        read_content(a, s) is Ok,
        !read_content(a, s)->Ok_0.seen.contains("scanorder"@),
    ensures
        read_content(b, s) is Ok,
        ordered(read_content(a, s)->Ok_0, read_content(b, s)->Ok_0, order),
{
    let next = read_content(a, s)->Ok_0;
    if s.len() > 0 && enclosed(s, '[', ']') is None && a.section != "filter"@ {
        let (key, value) = split_at_first(s, '=')->Some_0;
        let name = compacted(key);
        assert(next.seen == a.seen.push(name));
        assert(next.seen[a.seen.len() as int] == name);
        assert(name != "scanorder"@);
        if b.seen.contains(name) {
            let i = choose|i: int| 0 <= i < b.seen.len() && b.seen[i] == name;
            assert(a.seen[i - 1] == name);
        }
        lemma_other_setting(a.settings, order, key, name, trimmed(value));
        assert(b.seen.push(name) =~= seq!["scanorder"@] + a.seen.push(name));
    }
}

/// The state after the line is the initial one with the scan order.
proof fn lemma_order_first(path: Seq<char>, value: Seq<char>)
    requires
        lacks(value, '#'),
    ensures
        match scan_order_value(trimmed(value)) {
            Ok(order) => {
                &&& read_content(initial_reading(path), line_content(order_line(value))) is Ok
                &&& ordered(
                    initial_reading(path),
                    read_content(initial_reading(path), line_content(order_line(value)))->Ok_0,
                    order,
                )
            },
            Err(message) => read_content(initial_reading(path), line_content(order_line(value)))
                == Err::<Reading, Seq<char>>(message),
        },
{
    lemma_order_content(value);
    reveal_strlit("scanorder");
    reveal_strlit("algorithm");
    reveal_strlit("filter");
    assert("scanorder"@[0] == 's' && "algorithm"@[0] == 'a');
    assert("filter"@.len() == 6);
    let start = initial_reading(path);
    assert(start.section != "filter"@);
    assert(start.seen.push("scanorder"@) =~= seq!["scanorder"@] + start.seen);
}

/// Lines behind the one that sets the scan order.
proof fn lemma_ordered_contents(
    path: Seq<char>,
    contents: Seq<Seq<char>>,
    value: Seq<char>,
    order: ScanOrder,
)
    requires
        lacks(value, '#'),
        scan_order_value(trimmed(value)) == Ok::<ScanOrder, Seq<char>>(order),
        state_after(path, contents) is Some,
        !state_after(path, contents)->Some_0.seen.contains("scanorder"@),
    ensures
        state_after(path, seq![line_content(order_line(value))] + contents) is Some,
        ordered(
            state_after(path, contents)->Some_0,
            state_after(path, seq![line_content(order_line(value))] + contents)->Some_0,
            order,
        ),
    decreases contents.len(),
{
    let first = seq![line_content(order_line(value))];
    let all = first + contents;
    if contents.len() == 0 {
        lemma_order_first(path, value);
        assert(all =~= first);
        assert(all.drop_last() =~= Seq::empty());
        assert(state_after(path, all.drop_last()) == Some(initial_reading(path)));
    } else {
        let rest = contents.drop_last();
        let before = state_after(path, rest)->Some_0;
        let after = state_after(path, contents)->Some_0;
        assert(after == read_content(before, contents.last())->Ok_0);
        if before.seen.contains("scanorder"@) {
            let i = choose|i: int|
                0 <= i < before.seen.len() && before.seen[i] == "scanorder"@;
            assert(after.seen[i] == "scanorder"@);
        }
        lemma_ordered_contents(path, rest, value, order);
        assert(all.drop_last() =~= first + rest);
        assert(all.last() == contents.last());
        lemma_ordered_line(
            before,
            state_after(path, first + rest)->Some_0,
            order,
            contents.last(),
        );
    }
}

/// The contents of lines behind one that is not blank.
proof fn lemma_kept_behind(line: Seq<char>, lines: Seq<Seq<char>>)
    requires
        line_content(line).len() > 0,
    ensures
        kept_contents(seq![line] + lines) == seq![line_content(line)] + kept_contents(lines),
{
    let content = |l: Seq<char>| line_content(l);
    let keep = |c: Seq<char>| c.len() > 0;
    let first = seq![line_content(line)];
    let rest = lines.map_values(content);
    assert((seq![line] + lines).map_values(content) =~= first + rest);
    Seq::filter_distributes_over_add(first, rest, keep);
    assert(first.filter(keep) =~= first) by {
        reveal_with_fuel(Seq::filter, 2);
        assert(first.drop_last() =~= Seq::empty());
        assert(keep(first.last()));
    }
}

/// Where a file loads and does not give a scan order, a line `scanOrder = value` in
/// front of it changes the scan order to the one that the value names and nothing
/// else; a value that names none is an error in line 1.
pub proof fn law_leading_scan_order(path: Seq<char>, text: Seq<char>, value: Seq<char>)
    requires
        loaded(path, text) is Ok,
        !sets(path, text, "scanorder"@),
        lacks(value, '#'),
        lacks(value, '\n'),
    ensures
        loaded(path, order_line(value) + seq!['\n'] + text) == (match scan_order_value(
            trimmed(value),
        ) {
            Ok(order) => Ok(Settings { scan_order: order, ..loaded(path, text)->Ok_0 }),
            Err(message) => Err(line_error_text(path, 1, message)),
        }),
{
    let line = order_line(value);
    let whole = line + seq!['\n'] + text;
    let (x, y) = (split_all(text, '\n'), split_all(whole, '\n'));
    assert(y == seq![line] + x) by {
        reveal_strlit("scanOrder = ");
        let tail = seq!['\n'] + text;
        assert(whole =~= line + tail);
        assert(lacks(line, '\n'));
        lemma_found_behind(line, tail, '\n');
        assert(whole.take(line.len() as int) =~= line);
        assert(whole.skip(line.len() as int + 1) =~= text);
    }
    lemma_order_content(value);
    lemma_order_first(path, value);
    match scan_order_value(trimmed(value)) {
        Ok(order) => {
            lemma_state_after_lines(path, x, x.len() as int);
            lemma_state_after_lines(path, y, y.len() as int);
            assert(x.take(x.len() as int) =~= x);
            assert(y.take(y.len() as int) =~= y);
            lemma_kept_behind(line, x);
            lemma_ordered_contents(path, kept_contents(x), value, order);
            let before = state_after(path, kept_contents(x))->Some_0;
            let after = state_after(path, kept_contents(y))->Some_0;
            let required = required_settings();
            assert forall|i: int| 0 <= i < required.len() implies after.seen.contains(
                #[trigger] required[i],
            ) by {
                lemma_none_missing(required, before.seen, i);
                let k = choose|k: int| 0 <= k < before.seen.len() && before.seen[k] == required[i];
                assert(after.seen[k + 1] == required[i]);
            }
            lemma_all_seen(required, after.seen);
        },
        Err(message) => {
            assert(y[0] == line);
            assert(read_lines(path, y, 0) == Ok::<Reading, Seq<char>>(initial_reading(path)));
            assert(read_lines(path, y, 1) == Err::<Reading, Seq<char>>(
                line_error_text(path, 1, message),
            ));
            lemma_read_error(path, y, 1, y.len() as int);
        },
    }
}

} // verus!
