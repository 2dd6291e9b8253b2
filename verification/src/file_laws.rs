//! What a configuration file means as a whole: which line gives which setting, what
//! holds where no line does, and when a file loads at all.

use vstd::prelude::*;
use crate::config::{
    default_settings, initial_reading, list_outcome, settings_outcome, IntRange, bool_value,
    compacted, directions_value, filter_value, first_missing, first_outside, line_content, loaded,
    pair_value, read_content, read_line, read_lines, required_settings, scan_order_value,
    tolerance_value, turns_outside, validation_error, Reading, ScanConfig, ScanOrder, Settings,
    TileSize,
};
use crate::config_laws::{
    is_compact, law_letter_case_is_ignored, law_separators_are_ignored, lemma_compact_stays,
    lemma_none_missing,
};
use crate::config_spelling::{
    contents_of, lemma_all_seen, lemma_rows_hold_no_equals_sign, lemma_state_after_lines,
    state_after,
};
use crate::filter::{is_quarter_turn, prepare_error, turned_offset_fits, turned_xz, turns_of};
use crate::number::decimal;
use crate::number_laws::lemma_decimal_characters;
use crate::reading_laws::{law_lines_without_comment, law_written_pairs_are_read, pair_text};
use crate::text::{ascii_lowered, enclosed, split_all, split_at_first, trimmed};
use crate::text_laws::{
    has_solid_ends, lacks, law_split_at_the_first, law_trimming_takes_the_surroundings,
};
use crate::types::{algorithm_named, RotationKind, TextureAlgorithm};

verus! {

/// A line gives a value to the setting with a compact name.
pub open spec fn gives(line: Seq<char>, name: Seq<char>, value: Seq<char>) -> bool {
    let s = line_content(line);
    &&& enclosed(s, '[', ']') is None
    &&& split_at_first(s, '=') matches Some((key, given))
    &&& compacted(key) == name
    &&& trimmed(given) == value
}

/// A text has no line that gives a value to a setting.
pub open spec fn never_gives(text: Seq<char>, name: Seq<char>) -> bool {
    forall|i: int, value: Seq<char>|
        0 <= i < split_all(text, '\n').len() ==> !#[trigger] gives(
            split_all(text, '\n')[i],
            name,
            value,
        )
}

/// A setting has the value that a text denotes.
spec fn holds_value(settings: Settings, name: Seq<char>, value: Seq<char>) -> bool {
    if name == "algorithm"@ {
        algorithm_named(value) == Ok::<_, Seq<char>>(settings.algorithm)
    } else if name == "scanorder"@ {
        scan_order_value(value) == Ok::<_, Seq<char>>(settings.scan_order)
    } else if name == "directions"@ {
        directions_value(value) == Ok::<_, Seq<char>>(settings.directions)
    } else if name == "xrange"@ {
        pair_value(value) == Ok::<_, Seq<char>>((settings.x_range.start, settings.x_range.end))
    } else if name == "yrange"@ {
        pair_value(value) == Ok::<_, Seq<char>>((settings.y_range.start, settings.y_range.end))
    } else if name == "zrange"@ {
        pair_value(value) == Ok::<_, Seq<char>>((settings.z_range.start, settings.z_range.end))
    } else if name == "cputilesize"@ {
        pair_value(value) == Ok::<_, Seq<char>>(
            (settings.cpu_tile_size.x, settings.cpu_tile_size.z),
        )
    } else if name == "cudatilesize"@ || name == "gputilesize"@ {
        pair_value(value) == Ok::<_, Seq<char>>(
            (settings.gpu_tile_size.x, settings.gpu_tile_size.z),
        )
    } else if name == "errortolerance"@ {
        tolerance_value(value) == Ok::<_, Seq<char>>(settings.error_tolerance)
    } else if name == "verbose"@ {
        bool_value(value) == Ok::<_, Seq<char>>(settings.verbose)
    } else {
        false
    }
}

/// Another name for the same setting was not used.
spec fn sole_name(seen: Seq<Seq<char>>, name: Seq<char>) -> bool {
    &&& name == "gputilesize"@ ==> !seen.contains("cudatilesize"@)
    &&& name == "cudatilesize"@ ==> !seen.contains("gputilesize"@)
}

/// Names that were seen stay seen.
proof fn lemma_seen_stays(state: Reading, s: Seq<char>, name: Seq<char>)
    requires
        read_content(state, s) is Ok,
        state.seen.contains(name),
    ensures
        read_content(state, s)->Ok_0.seen.contains(name),
{
    let next = read_content(state, s)->Ok_0;
    let i = choose|i: int| 0 <= i < state.seen.len() && state.seen[i] == name;
    assert(next.seen[i] == name);
}

/// A value that was given stays.
proof fn lemma_value_stays(state: Reading, s: Seq<char>, name: Seq<char>, value: Seq<char>)
    requires
        read_content(state, s) is Ok,
        state.seen.contains(name),
        holds_value(state.settings, name, value),
        sole_name(read_content(state, s)->Ok_0.seen, name),
    ensures
        holds_value(read_content(state, s)->Ok_0.settings, name, value),
{
    let next = read_content(state, s)->Ok_0;
    if s.len() > 0 && enclosed(s, '[', ']') is None && state.section != "filter"@ {
        let (key, given) = split_at_first(s, '=')->Some_0;
        let other = compacted(key);
        assert(other != name);
        assert(next.seen[state.seen.len() as int] == other);
        assert(next.seen.contains(other));
    }
}

/// A line that gives a value takes effect.
proof fn lemma_value_given(state: Reading, line: Seq<char>, name: Seq<char>, value: Seq<char>)
    requires
        gives(line, name, value),
        read_line(state, line) is Ok,
    ensures
        holds_value(read_line(state, line)->Ok_0.settings, name, value),
        read_line(state, line)->Ok_0.seen.contains(name),
{
    let s = line_content(line);
    let next = read_line(state, line)->Ok_0;
    if state.section == "filter"@ {
        lemma_rows_hold_no_equals_sign(s);
    }
    assert(next.seen[state.seen.len() as int] == name);
}

/// What was given in one of the first `n` lines.
proof fn lemma_value_kept(
    path: Seq<char>,
    lines: Seq<Seq<char>>,
    i: int,
    n: int,
    name: Seq<char>,
    value: Seq<char>,
)
    requires
        0 <= i < n <= lines.len(),
        gives(lines[i], name, value),
        read_lines(path, lines, n) is Ok,
        sole_name(read_lines(path, lines, n)->Ok_0.seen, name),
    ensures
        read_lines(path, lines, n)->Ok_0.seen.contains(name),
        holds_value(read_lines(path, lines, n)->Ok_0.settings, name, value),
    decreases n,
{
    let state = read_lines(path, lines, n - 1)->Ok_0;
    if i == n - 1 {
        lemma_value_given(state, lines[i], name, value);
    } else {
        let s = line_content(lines[n - 1]);
        if state.seen.contains("cudatilesize"@) {
            lemma_seen_stays(state, s, "cudatilesize"@);
        }
        if state.seen.contains("gputilesize"@) {
            lemma_seen_stays(state, s, "gputilesize"@);
        }
        lemma_value_kept(path, lines, i, n - 1, name, value);
        lemma_seen_stays(state, s, name);
        lemma_value_stays(state, s, name, value);
    }
}

/// A name that was seen was given by a line.
proof fn lemma_seen_was_given(path: Seq<char>, lines: Seq<Seq<char>>, n: int, name: Seq<char>)
    requires
        0 <= n <= lines.len(),
        read_lines(path, lines, n) is Ok,
        read_lines(path, lines, n)->Ok_0.seen.contains(name),
    ensures
        exists|i: int, value: Seq<char>|
            0 <= i < n && #[trigger] gives(lines[i], name, value),
    decreases n,
{
    if n > 0 {
        let state = read_lines(path, lines, n - 1)->Ok_0;
        let s = line_content(lines[n - 1]);
        if state.seen.contains(name) {
            lemma_seen_was_given(path, lines, n - 1, name);
            let (i, value) = choose|i: int, value: Seq<char>|
                0 <= i < n - 1 && #[trigger] gives(lines[i], name, value);
            assert(gives(lines[i], name, value));
        } else {
            let next = read_content(state, s)->Ok_0;
            let k = choose|k: int| 0 <= k < next.seen.len() && next.seen[k] == name;
            let (key, given) = split_at_first(s, '=')->Some_0;
            if k < state.seen.len() {
                assert(state.seen[k] == name);
            }
            assert(compacted(key) == name);
            assert(gives(lines[n - 1], name, trimmed(given)));
        }
    }
}

/// In a file that loads, every line `key = value` gives its setting the value that it
/// denotes. The GPU tile size has two names; where both are used, this law leaves
/// open which counts.
pub proof fn law_lines_give_their_settings(
    path: Seq<char>,
    text: Seq<char>,
    i: int,
    name: Seq<char>,
    value: Seq<char>,
)
    requires
        loaded(path, text) is Ok,
        0 <= i < split_all(text, '\n').len(),
        gives(split_all(text, '\n')[i], name, value),
    ensures
        ({
            let settings = loaded(path, text)->Ok_0;
            &&& name == "algorithm"@ ==> algorithm_named(value) == Ok::<_, Seq<char>>(
                settings.algorithm,
            )
            &&& name == "scanorder"@ ==> scan_order_value(value) == Ok::<_, Seq<char>>(
                settings.scan_order,
            )
            &&& name == "directions"@ ==> directions_value(value) == Ok::<_, Seq<char>>(
                settings.directions,
            )
            &&& name == "xrange"@ ==> pair_value(value) == Ok::<_, Seq<char>>(
                (settings.x_range.start, settings.x_range.end),
            )
            &&& name == "yrange"@ ==> pair_value(value) == Ok::<_, Seq<char>>(
                (settings.y_range.start, settings.y_range.end),
            )
            &&& name == "zrange"@ ==> pair_value(value) == Ok::<_, Seq<char>>(
                (settings.z_range.start, settings.z_range.end),
            )
            &&& name == "cputilesize"@ ==> pair_value(value) == Ok::<_, Seq<char>>(
                (settings.cpu_tile_size.x, settings.cpu_tile_size.z),
            )
            &&& name == "gputilesize"@ && never_gives(text, "cudatilesize"@) ==> pair_value(value)
                == Ok::<_, Seq<char>>((settings.gpu_tile_size.x, settings.gpu_tile_size.z))
            &&& name == "cudatilesize"@ && never_gives(text, "gputilesize"@) ==> pair_value(value)
                == Ok::<_, Seq<char>>((settings.gpu_tile_size.x, settings.gpu_tile_size.z))
            &&& name == "errortolerance"@ ==> tolerance_value(value) == Ok::<_, Seq<char>>(
                settings.error_tolerance,
            )
            &&& name == "verbose"@ ==> bool_value(value) == Ok::<_, Seq<char>>(settings.verbose)
        }),
{
    let lines = split_all(text, '\n');
    let n = lines.len() as int;
    let state = read_lines(path, lines, n)->Ok_0;
    lemma_names_differ();
    if state.seen.contains("cudatilesize"@) {
        lemma_seen_was_given(path, lines, n, "cudatilesize"@);
    }
    if state.seen.contains("gputilesize"@) {
        lemma_seen_was_given(path, lines, n, "gputilesize"@);
    }
    if sole_name(state.seen, name) {
        lemma_value_kept(path, lines, i, n, name, value);
    }
}

/// No two settings have the same name.
proof fn lemma_names_differ()
    ensures
        "algorithm"@.len() == 9 && "algorithm"@[0] == 'a',
        "scanorder"@.len() == 9 && "scanorder"@[0] == 's',
        "directions"@.len() == 10,
        "xrange"@.len() == 6 && "xrange"@[0] == 'x',
        "yrange"@.len() == 6 && "yrange"@[0] == 'y',
        "zrange"@.len() == 6 && "zrange"@[0] == 'z',
        "cputilesize"@.len() == 11 && "cputilesize"@[0] == 'c',
        "gputilesize"@.len() == 11 && "gputilesize"@[0] == 'g',
        "cudatilesize"@.len() == 12,
        "errortolerance"@.len() == 14,
        "verbose"@.len() == 7,
{
    reveal_strlit("algorithm");
    reveal_strlit("scanorder");
    reveal_strlit("directions");
    reveal_strlit("xrange");
    reveal_strlit("yrange");
    reveal_strlit("zrange");
    reveal_strlit("cputilesize");
    reveal_strlit("gputilesize");
    reveal_strlit("cudatilesize");
    reveal_strlit("errortolerance");
    reveal_strlit("verbose");
}

/// What holds of settings that were not given.
spec fn has_defaults(state: Reading) -> bool {
    &&& !state.seen.contains("scanorder"@) ==> state.settings.scan_order == ScanOrder::Linear
    &&& !state.seen.contains("directions"@) ==> state.settings.directions == seq![0i32]
    &&& !state.seen.contains("cputilesize"@) ==> state.settings.cpu_tile_size == (TileSize {
        x: 1024,
        z: 1024,
    })
    &&& !state.seen.contains("gputilesize"@) && !state.seen.contains("cudatilesize"@)
        ==> state.settings.gpu_tile_size == (TileSize { x: 8192, z: 8192 })
    &&& !state.seen.contains("verbose"@) ==> !state.settings.verbose
}

/// Settings that were not given keep their defaults.
proof fn lemma_defaults_stay(path: Seq<char>, lines: Seq<Seq<char>>, n: int)
    requires
        0 <= n <= lines.len(),
        read_lines(path, lines, n) is Ok,
    ensures
        has_defaults(read_lines(path, lines, n)->Ok_0),
    decreases n,
{
    if n > 0 {
        lemma_defaults_stay(path, lines, n - 1);
        let state = read_lines(path, lines, n - 1)->Ok_0;
        let s = line_content(lines[n - 1]);
        let next = read_content(state, s)->Ok_0;
        assert forall|name: Seq<char>| state.seen.contains(name) implies
            #[trigger] next.seen.contains(name) by {
            lemma_seen_stays(state, s, name);
        }
        if next.seen.len() > state.seen.len() {
            assert(next.seen[state.seen.len() as int] == next.seen.last());
            assert(next.seen.contains(next.seen.last()));
        }
    }
}

/// A file that loads and has no line for a setting leaves it at its default: linear
/// order, the one direction 0, tiles of 1024 for the CPU and of 8192 for the GPU, and
/// not verbose. The other settings but the filter always have a line.
pub proof fn law_defaults(path: Seq<char>, text: Seq<char>)
    requires
        loaded(path, text) is Ok,
    ensures
        ({
            let settings = loaded(path, text)->Ok_0;
            &&& never_gives(text, "scanorder"@) ==> settings.scan_order == ScanOrder::Linear
            &&& never_gives(text, "directions"@) ==> settings.directions == seq![0i32]
            &&& never_gives(text, "cputilesize"@) ==> settings.cpu_tile_size == (TileSize {
                x: 1024,
                z: 1024,
            })
            &&& never_gives(text, "gputilesize"@) && never_gives(text, "cudatilesize"@)
                ==> settings.gpu_tile_size == (TileSize { x: 8192, z: 8192 })
            &&& never_gives(text, "verbose"@) ==> !settings.verbose
            &&& !never_gives(text, "algorithm"@)
            &&& !never_gives(text, "xrange"@)
            &&& !never_gives(text, "yrange"@)
            &&& !never_gives(text, "zrange"@)
            &&& !never_gives(text, "errortolerance"@)
        }),
{
    let lines = split_all(text, '\n');
    let n = lines.len() as int;
    let state = read_lines(path, lines, n)->Ok_0;
    lemma_defaults_stay(path, lines, n);
    assert forall|name: Seq<char>| #[trigger] state.seen.contains(name) implies !never_gives(
        text,
        name,
    ) by {
        lemma_seen_was_given(path, lines, n, name);
    }
    let required = required_settings();
    lemma_none_missing(required, state.seen, 0);
    lemma_none_missing(required, state.seen, 1);
    lemma_none_missing(required, state.seen, 2);
    lemma_none_missing(required, state.seen, 3);
    lemma_none_missing(required, state.seen, 4);
    assert(required[0] == "algorithm"@ && required[1] == "xrange"@ && required[2] == "yrange"@
        && required[3] == "zrange"@ && required[4] == "errortolerance"@);
}

/// The content of a line that is neither blank nor a section header nor a setting.
pub open spec fn is_row(content: Seq<char>) -> bool {
    content.len() > 0 && enclosed(content, '[', ']') is None && split_at_first(content, '=') is None
}

/// The contents of the filter rows of a file, in order.
pub open spec fn rows_in(contents: Seq<Seq<char>>) -> Seq<Seq<char>> {
    contents.filter(|content: Seq<char>| is_row(content))
}

/// The rows that were read are those of the lines.
proof fn lemma_rows_read(path: Seq<char>, contents: Seq<Seq<char>>)
    requires
        state_after(path, contents) is Some,
    ensures
        state_after(path, contents)->Some_0.settings.filter.len() == rows_in(contents).len(),
        forall|k: int|
            0 <= k < rows_in(contents).len() ==> filter_value(#[trigger] rows_in(contents)[k])
                == Ok::<_, Seq<char>>(state_after(path, contents)->Some_0.settings.filter[k]),
    decreases contents.len(),
{
    reveal(Seq::filter);
    if contents.len() > 0 {
        let rest = contents.drop_last();
        lemma_rows_read(path, rest);
        let state = state_after(path, rest)->Some_0;
        let s = contents.last();
        let next = state_after(path, contents)->Some_0;
        let keep = |content: Seq<char>| is_row(content);
        assert(keep(s) == is_row(s));
        if state.section == "filter"@ && s.len() > 0 && enclosed(s, '[', ']') is None {
            lemma_rows_hold_no_equals_sign(s);
        }
        if is_row(s) {
            assert(rows_in(contents) == rows_in(rest).push(s));
            assert(next.settings.filter == state.settings.filter.push(filter_value(s)->Ok_0));
        } else {
            assert(rows_in(contents) == rows_in(rest));
            assert(next.settings.filter == state.settings.filter);
        }
    }
}

/// The filter of a file that loads holds its filter rows, all of them and in order.
pub proof fn law_filter_holds_the_rows(path: Seq<char>, text: Seq<char>)
    requires
        loaded(path, text) is Ok,
    ensures
        loaded(path, text)->Ok_0.filter.len() == rows_in(contents_of(text)).len(),
        forall|k: int|
            0 <= k < rows_in(contents_of(text)).len() ==> filter_value(
                #[trigger] rows_in(contents_of(text))[k],
            ) == Ok::<_, Seq<char>>(loaded(path, text)->Ok_0.filter[k]),
{
    let lines = split_all(text, '\n');
    lemma_state_after_lines(path, lines, lines.len() as int);
    assert(lines.take(lines.len() as int) =~= lines);
    lemma_rows_read(path, contents_of(text));
}

/// The effect of one line. A blank line has none. A header opens one of three
/// sections. In the filter section a line adds a row; elsewhere it gives a value to a
/// setting that has none yet, and counts it as given.
pub proof fn law_effect_of_a_line(state: Reading, s: Seq<char>)
    ensures
        s.len() == 0 ==> read_content(state, s) == Ok::<_, Seq<char>>(state),
        s.len() > 0 ==> (enclosed(s, '[', ']') matches Some(name) ==> {
            let known = compacted(name) == "filter"@ || compacted(name) == "scan"@ || compacted(name)
                == "settings"@;
            &&& read_content(state, s) is Ok <==> known
            &&& known ==> read_content(state, s)->Ok_0 == (Reading {
                section: compacted(name),
                ..state
            })
        }),
        s.len() > 0 && enclosed(s, '[', ']') is None && state.section == "filter"@ ==> {
            &&& read_content(state, s) is Ok <==> filter_value(s) is Ok
            &&& read_content(state, s) matches Ok(next) ==> next.section == state.section
                && next.seen == state.seen && next.settings == (Settings {
                filter: state.settings.filter.push(filter_value(s)->Ok_0),
                ..state.settings
            })
        },
        s.len() > 0 && enclosed(s, '[', ']') is None && state.section != "filter"@ ==> {
            &&& split_at_first(s, '=') is None ==> read_content(state, s) is Err
            &&& split_at_first(s, '=') matches Some((key, value)) ==> {
                &&& read_content(state, s) is Ok <==> !state.seen.contains(compacted(key))
                    && can_be_given(compacted(key), trimmed(value))
                &&& read_content(state, s) matches Ok(next) ==> next.section == state.section
                    && next.seen == state.seen.push(compacted(key)) && next.settings.filter
                    == state.settings.filter && next.settings.source_path
                    == state.settings.source_path
            }
        },
{
    lemma_names_differ();
}

/// A setting exists and can take a value.
pub open spec fn can_be_given(name: Seq<char>, value: Seq<char>) -> bool {
    ||| name == "algorithm"@ && algorithm_named(value) is Ok
    ||| name == "scanorder"@ && scan_order_value(value) is Ok
    ||| name == "directions"@ && directions_value(value) is Ok
    ||| (name == "xrange"@ || name == "yrange"@ || name == "zrange"@ || name == "cputilesize"@
        || name == "gputilesize"@ || name == "cudatilesize"@) && pair_value(value) is Ok
    ||| name == "errortolerance"@ && tolerance_value(value) is Ok
    ||| name == "verbose"@ && bool_value(value) is Ok
}

/// Where two lines name the GPU tile size in its two ways, the later one counts.
pub proof fn law_later_tile_size_counts(state: Reading, s: Seq<char>)
    requires
        read_content(state, s) is Ok,
        s.len() > 0,
        enclosed(s, '[', ']') is None,
        state.section != "filter"@,
    ensures
        ({
            let (key, value) = split_at_first(s, '=')->Some_0;
            let next = read_content(state, s)->Ok_0.settings;
            compacted(key) == "gputilesize"@ || compacted(key) == "cudatilesize"@ ==> pair_value(
                trimmed(value),
            ) == Ok::<_, Seq<char>>((next.gpu_tile_size.x, next.gpu_tile_size.z))
        }),
{
    lemma_names_differ();
}

/// Lines are read one after the other, from nothing but the path and the defaults,
/// and the first bad one gives the error, with its number.
pub proof fn law_lines_are_read_in_turn(path: Seq<char>, lines: Seq<Seq<char>>, n: int)
    requires
        0 <= n < lines.len(),
    ensures
        read_lines(path, lines, 0) matches Ok(state) && state.section.len() == 0 && state.seen.len()
            == 0 && state.settings.filter.len() == 0 && state.settings.source_path == path,
        read_lines(path, lines, n) is Err ==> read_lines(path, lines, n + 1) == read_lines(
            path,
            lines,
            n,
        ),
        read_lines(path, lines, n) matches Ok(state) ==> match read_line(state, lines[n]) {
            Ok(next) => read_lines(path, lines, n + 1) == Ok::<_, Seq<char>>(next),
            Err(message) => read_lines(path, lines, n + 1) == Err::<Reading, _>(
                path + ":"@ + decimal(n + 1) + ": "@ + message,
            ),
        },
{
}

/// The first direction outside, if there is any.
proof fn lemma_outside(directions: Seq<i32>, settings: Settings)
    ensures
        first_outside(directions, settings.filter) is None <==> forall|i: int|
            0 <= i < directions.len() ==> !turns_outside(settings.filter, #[trigger] directions[i]),
    decreases directions.len(),
{
    if directions.len() > 0 {
        let rest = directions.drop_first();
        lemma_outside(rest, settings);
        assert forall|i: int|
            0 <= i < rest.len() && turns_outside(settings.filter, #[trigger] rest[i]) implies
            turns_outside(settings.filter, directions[i + 1]) by {}
        if first_outside(directions, settings.filter) is None {
            assert forall|i: int| 0 <= i < directions.len() implies !turns_outside(
                settings.filter,
                #[trigger] directions[i],
            ) by {
                if i > 0 {
                    assert(!turns_outside(settings.filter, rest[i - 1]));
                }
            }
        } else if turns_outside(settings.filter, directions[0]) {
        } else {
            let i = choose|i: int|
                0 <= i < rest.len() && turns_outside(settings.filter, #[trigger] rest[i]);
            assert(turns_outside(settings.filter, directions[i + 1]));
        }
    }
}

/// A turn by a direction keeps the offset of a row in the eight-bit range: only -128
/// has no opposite there.
pub open spec fn stays_in_range(x: i8, z: i8, direction: i32) -> bool {
    &&& direction == 90 ==> z != -128
    &&& direction == 180 ==> x != -128 && z != -128
    &&& direction == 270 ==> x != -128
}

/// When settings pass: every range has a start before its end, every tile dimension
/// is positive, the tolerance is not negative, there is a filter row, no direction
/// turns an offset out of range, and the filters can be prepared.
pub proof fn law_valid_settings(settings: Settings)
    requires
        forall|i: int|
            0 <= i < settings.directions.len() ==> #[trigger] settings.directions[i] == 0
                || settings.directions[i] == 90 || settings.directions[i] == 180
                || settings.directions[i] == 270,
    ensures
        validation_error(settings) is None <==> {
            &&& settings.x_range.start < settings.x_range.end
            &&& settings.y_range.start < settings.y_range.end
            &&& settings.z_range.start < settings.z_range.end
            &&& settings.cpu_tile_size.x > 0 && settings.cpu_tile_size.z > 0
            &&& settings.gpu_tile_size.x > 0 && settings.gpu_tile_size.z > 0
            &&& settings.error_tolerance >= 0
            &&& settings.filter.len() > 0
            &&& forall|i: int, k: int|
                0 <= i < settings.directions.len() && 0 <= k < settings.filter.len()
                    ==> stays_in_range(
                    (#[trigger] settings.filter[k]).x,
                    settings.filter[k].z,
                    #[trigger] settings.directions[i],
                )
            &&& prepare_error(
                settings.algorithm,
                settings.filter,
                settings.directions,
                settings.error_tolerance as int,
            ) is None
        },
{
    let (ds, rows) = (settings.directions, settings.filter);
    lemma_outside(ds, settings);
    reveal_with_fuel(turned_xz, 4);
    assert forall|i: int, k: int| 0 <= i < ds.len() && 0 <= k < rows.len() implies (
    turned_offset_fits(#[trigger] rows[k], turns_of(#[trigger] ds[i] as int)) <==> stays_in_range(
        rows[k].x,
        rows[k].z,
        ds[i],
    )) by {}
    if forall|i: int| 0 <= i < ds.len() ==> !turns_outside(rows, #[trigger] ds[i]) {
        assert forall|i: int, k: int| 0 <= i < ds.len() && 0 <= k < rows.len() implies
            stays_in_range((#[trigger] rows[k]).x, rows[k].z, #[trigger] ds[i]) by {
            assert(!turns_outside(rows, ds[i]));
            assert(turned_offset_fits(rows[k], turns_of(ds[i] as int)));
        }
    } else {
        let i = choose|i: int| 0 <= i < ds.len() && turns_outside(rows, #[trigger] ds[i]);
        let k = choose|k: int|
            0 <= k < rows.len() && !turned_offset_fits(
                #[trigger] rows[k],
                turns_of(ds[i] as int),
            );
        assert(!stays_in_range(rows[k].x, rows[k].z, ds[i]));
    }
}

/// What settings hold: directions that are quarter turns and rows that ask for a
/// rotation that their face can show, which on a side is one of two and elsewhere one
/// of four. They are well formed where, besides, there is a direction and none twice.
pub proof fn law_well_formed_settings(settings: Settings)
    ensures
        ({
            let (ds, rows) = (settings.directions, settings.filter);
            let quarter_turns = forall|i: int|
                0 <= i < ds.len() ==> #[trigger] ds[i] == 0 || ds[i] == 90 || ds[i] == 180 || ds[i]
                    == 270;
            let rotations = forall|k: int|
                0 <= k < rows.len() ==> (#[trigger] rows[k]).rotation < (if rows[k].kind
                    == RotationKind::StandardSide {
                    2
                } else {
                    4int
                });
            let distinct = forall|i: int, j: int|
                0 <= i < j < ds.len() ==> #[trigger] ds[i] != #[trigger] ds[j];
            &&& settings.meaningful() <==> quarter_turns && rotations
            &&& settings.well_formed() <==> quarter_turns && rotations && distinct && ds.len() > 0
        }),
{
    let (ds, rows) = (settings.directions, settings.filter);
    assert forall|k: int| 0 <= k < rows.len() implies ((#[trigger] rows[k]).valid()
        <==> rows[k].rotation < (if rows[k].kind == RotationKind::StandardSide {
        2
    } else {
        4int
    })) by {}
    if settings.meaningful() {
        assert forall|i: int| 0 <= i < ds.len() implies #[trigger] ds[i] == 0 || ds[i] == 90
            || ds[i] == 180 || ds[i] == 270 by {
            assert(is_quarter_turn(ds[i] as int));
        }
        assert forall|k: int| 0 <= k < rows.len() implies (#[trigger] rows[k]).rotation < (
        if rows[k].kind == RotationKind::StandardSide {
            2
        } else {
            4int
        }) by {
            assert(rows[k].valid());
        }
    }
}

/// A file loads exactly when all its lines can be read, the five required settings
/// are among them, and the settings pass; it then loads to what the lines left.
pub proof fn law_loading(path: Seq<char>, text: Seq<char>)
    ensures
        ({
            let lines = split_all(text, '\n');
            match read_lines(path, lines, lines.len() as int) {
                Err(error) => loaded(path, text) == Err::<Settings, _>(error),
                Ok(state) => {
                    let complete = state.seen.contains("algorithm"@) && state.seen.contains(
                        "xrange"@,
                    ) && state.seen.contains("yrange"@) && state.seen.contains("zrange"@)
                        && state.seen.contains("errortolerance"@);
                    &&& loaded(path, text) is Ok <==> complete && validation_error(state.settings)
                        is None
                    &&& loaded(path, text) matches Ok(settings) ==> settings == state.settings
                },
            }
        }),
{
    let lines = split_all(text, '\n');
    if read_lines(path, lines, lines.len() as int) is Ok {
        let seen = read_lines(path, lines, lines.len() as int)->Ok_0.seen;
        let required = required_settings();
        assert(required[0] == "algorithm"@ && required[1] == "xrange"@ && required[2] == "yrange"@
            && required[3] == "zrange"@ && required[4] == "errortolerance"@);
        if first_missing(required, seen) is None {
            lemma_none_missing(required, seen, 0);
            lemma_none_missing(required, seen, 1);
            lemma_none_missing(required, seen, 2);
            lemma_none_missing(required, seen, 3);
            lemma_none_missing(required, seen, 4);
        }
        if forall|i: int| 0 <= i < required.len() ==> seen.contains(#[trigger] required[i]) {
            lemma_all_seen(required, seen);
        }
    }
}

/// A line that gives a range its two bounds sets it to them: `xRange = (a, b)`, and
/// likewise for Y and Z.
pub proof fn law_range_lines(
    path: Seq<char>,
    text: Seq<char>,
    i: int,
    name: Seq<char>,
    a: i32,
    b: i32,
)
    requires
        loaded(path, text) is Ok,
        0 <= i < split_all(text, '\n').len(),
        gives(split_all(text, '\n')[i], name, pair_text(a as int, b as int)),
    ensures
        ({
            let settings = loaded(path, text)->Ok_0;
            &&& name == "xrange"@ ==> settings.x_range.start == a && settings.x_range.end == b
            &&& name == "yrange"@ ==> settings.y_range.start == a && settings.y_range.end == b
            &&& name == "zrange"@ ==> settings.z_range.start == a && settings.z_range.end == b
        }),
{
    law_written_pairs_are_read(a, b);
    law_lines_give_their_settings(path, text, i, name, pair_text(a as int, b as int));
}

/// A line made of a key, an equals sign between blanks, and a value gives that value
/// under that key.
pub proof fn law_setting_lines(key: Seq<char>, value: Seq<char>)
    requires
        key.len() > 0,
        value.len() > 0,
        has_solid_ends(key),
        has_solid_ends(value),
        lacks(key, '#'),
        lacks(key, '='),
        lacks(value, '#'),
        key[0] != '[',
    ensures
        gives(key + seq![' ', '=', ' '] + value, compacted(key), value),
{
    let line = key + seq![' ', '=', ' '] + value;
    let empty = Seq::<char>::empty();
    let (left, right) = (key + seq![' '], seq![' '] + value);
    assert(line =~= left + seq!['='] + right);
    assert(lacks(line, '#'));
    law_lines_without_comment(line);
    assert(line[0] == key[0] && line[line.len() - 1] == value[value.len() - 1]);
    law_trimming_takes_the_surroundings(empty, line, empty);
    assert(empty + line + empty =~= line);
    assert(lacks(left, '='));
    law_split_at_the_first(left, '=', right);
    law_separators_are_ignored(key, ' ', empty);
    assert(key + seq![' '] + empty =~= left);
    assert(key + empty =~= key);
    law_trimming_takes_the_surroundings(seq![' '], value, empty);
    assert(seq![' '] + value + empty =~= right);
}

/// The line `yRange = (a, b)` in a file that loads leaves the Y range with these
/// bounds, and so do the lines for X and Z with theirs.
pub proof fn law_written_ranges_are_loaded(
    path: Seq<char>,
    text: Seq<char>,
    i: int,
    a: i32,
    b: i32,
)
    requires
        loaded(path, text) is Ok,
        0 <= i < split_all(text, '\n').len(),
    ensures
        ({
            let settings = loaded(path, text)->Ok_0;
            let line = split_all(text, '\n')[i];
            let rest = seq![' ', '=', ' '] + pair_text(a as int, b as int);
            &&& line == "xRange"@ + rest ==> settings.x_range.start == a && settings.x_range.end == b
            &&& line == "yRange"@ + rest ==> settings.y_range.start == a && settings.y_range.end == b
            &&& line == "zRange"@ + rest ==> settings.z_range.start == a && settings.z_range.end == b
        }),
{
    let value = pair_text(a as int, b as int);
    let line = split_all(text, '\n')[i];
    let rest = seq![' ', '=', ' '] + value;
    lemma_pair_text(a as int, b as int);
    reveal_strlit("xRange");
    reveal_strlit("yRange");
    reveal_strlit("zRange");
    reveal_strlit("xrange");
    reveal_strlit("yrange");
    reveal_strlit("zrange");
    lemma_compacted_word("xRange"@, "xrange"@);
    lemma_compacted_word("yRange"@, "yrange"@);
    lemma_compacted_word("zRange"@, "zrange"@);
    law_setting_lines("xRange"@, value);
    law_setting_lines("yRange"@, value);
    law_setting_lines("zRange"@, value);
    assert("xRange"@ + rest =~= "xRange"@ + seq![' ', '=', ' '] + value);
    assert("yRange"@ + rest =~= "yRange"@ + seq![' ', '=', ' '] + value);
    assert("zRange"@ + rest =~= "zRange"@ + seq![' ', '=', ' '] + value);
    if line == "xRange"@ + rest {
        law_range_lines(path, text, i, "xrange"@, a, b);
    }
    if line == "yRange"@ + rest {
        law_range_lines(path, text, i, "yrange"@, a, b);
    }
    if line == "zRange"@ + rest {
        law_range_lines(path, text, i, "zrange"@, a, b);
    }
}

/// A word whose small letters are a compact name compacts to it.
proof fn lemma_compacted_word(word: Seq<char>, name: Seq<char>)
    requires
        ascii_lowered(word) =~= name,
        is_compact(name),
    ensures
        compacted(word) == name,
{
    law_letter_case_is_ignored(word);
    lemma_compact_stays(name);
}

/// The text of a pair has brackets at its ends and holds no hash.
proof fn lemma_pair_text(a: int, b: int)
    ensures
        pair_text(a, b).len() > 0,
        has_solid_ends(pair_text(a, b)),
        lacks(pair_text(a, b), '#'),
{
    let s = pair_text(a, b);
    assert(s[0] == '(' && s[s.len() - 1] == ')');
    assert forall|i: int| 0 <= i < s.len() implies #[trigger] s[i] != '#' by {
        let (m, n) = (decimal(a).len(), decimal(b).len());
        if 1 <= i < 1 + m {
            assert(s[i] == decimal(a)[i - 1]);
            lemma_decimal_characters(a, i - 1);
        } else if m + 3 <= i < m + 3 + n {
            assert(s[i] == decimal(b)[i - m - 3]);
            lemma_decimal_characters(b, i - m - 3);
        }
    }
}

/// The view of a configuration holds its fields as they are.
pub proof fn law_settings_are_the_fields(config: ScanConfig)
    ensures
        config@.algorithm == config.algorithm,
        config@.scan_order == config.scan_order,
        config@.directions == config.directions@,
        config@.x_range == config.x_range,
        config@.y_range == config.y_range,
        config@.z_range == config.z_range,
        config@.error_tolerance == config.error_tolerance,
        config@.cpu_tile_size == config.cpu_tile_size,
        config@.gpu_tile_size == config.gpu_tile_size,
        config@.verbose == config.verbose,
        config@.filter == config.filter@,
        config@.source_path == config.source_path@,
{
}

/// Results are spoken of by their contents, one for one.
pub proof fn law_results<T>(config: ScanConfig, error: String, list: Vec<T>)
    ensures
        settings_outcome(Ok(config)) == Ok::<Settings, Seq<char>>(config@),
        settings_outcome(Err(error)) == Err::<Settings, Seq<char>>(error@),
        list_outcome(Ok::<Vec<T>, String>(list)) == Ok::<Seq<T>, Seq<char>>(list@),
        list_outcome(Err::<Vec<T>, String>(error)) == Err::<Seq<T>, Seq<char>>(error@),
{
}

/// The settings that hold where nothing else is said.
pub proof fn law_default_settings(path: Seq<char>)
    ensures
        ({
            let settings = default_settings();
            &&& settings.algorithm == TextureAlgorithm::Vanilla3
            &&& settings.scan_order == ScanOrder::Linear
            &&& settings.directions == seq![0i32]
            &&& settings.x_range == (IntRange { start: 0, end: 0 })
            &&& settings.y_range == (IntRange { start: 0, end: 0 })
            &&& settings.z_range == (IntRange { start: 0, end: 0 })
            &&& settings.error_tolerance == 0
            &&& settings.cpu_tile_size == (TileSize { x: 1024, z: 1024 })
            &&& settings.gpu_tile_size == (TileSize { x: 8192, z: 8192 })
            &&& !settings.verbose
            &&& settings.filter.len() == 0
            &&& settings.source_path.len() == 0
        }),
        initial_reading(path).settings == (Settings { source_path: path, ..default_settings() }),
        initial_reading(path).section.len() == 0,
        initial_reading(path).seen.len() == 0,
{
}

} // verus!
