//! What configuration files guarantee, whatever they contain.

use vstd::prelude::*;
use crate::config::{
    compacted, first_missing, first_outside, is_separator, lemma_read_lines_well_formed,
    line_content, loaded, lowercase_of, read_line, read_lines, required_settings, validation_error,
    with_setting, Reading, Settings,
};
use crate::filter::{is_quarter_turn, prepare_error, rows_fit, turned_offset_fits, turns_of};
use crate::text::{
    ascii_lower, ascii_lowered, find, is_space, lemma_find_bounds, split_all, trimmed,
    trimmed_start,
};

verus! {

/// White space at the end of a text does not matter for its start.
proof fn lemma_trimmed_start_push(s: Seq<char>, c: char)
    requires
        is_space(c),
    ensures
        trimmed_start(s.push(c)) == (if trimmed_start(s).len() == 0 {
            Seq::empty()
        } else {
            trimmed_start(s).push(c)
        }),
    decreases s.len(),
{
    let t = s.push(c);
    if s.len() == 0 {
        assert(t.drop_first() =~= Seq::<char>::empty());
        assert(trimmed_start(t.drop_first()) =~= Seq::<char>::empty());
    } else if is_space(s[0]) {
        lemma_trimmed_start_push(s.drop_first(), c);
        assert(t.drop_first() =~= s.drop_first().push(c));
    }
}

/// White space at the end of a text is trimmed.
pub proof fn lemma_trimmed_push(s: Seq<char>, c: char)
    requires
        is_space(c),
    ensures
        trimmed(s.push(c)) == trimmed(s),
{
    lemma_trimmed_start_push(s, c);
    let t = trimmed_start(s);
    if t.len() > 0 {
        assert(t.push(c).drop_last() =~= t);
    } else {
        assert(t =~= Seq::<char>::empty());
    }
}

/// The first `c` of a text stays the first when more text follows.
proof fn lemma_find_concat(a: Seq<char>, b: Seq<char>, c: char)
    ensures
        find(a + b, c) == (if find(a, c) < a.len() {
            find(a, c)
        } else {
            a.len() + find(b, c)
        }),
    decreases a.len(),
{
    lemma_find_bounds(a, c);
    if a.len() == 0 {
        assert(a + b =~= b);
    } else if a[0] != c {
        lemma_find_concat(a.drop_first(), b, c);
        assert((a + b).drop_first() =~= a.drop_first() + b);
    }
}

/// A comment, from a hash to the end of the line, changes nothing.
pub proof fn law_comments_are_ignored(state: Reading, line: Seq<char>, comment: Seq<char>)
    ensures
        line_content(line + seq!['#'] + comment) == line_content(line),
        read_line(state, line + seq!['#'] + comment) == read_line(state, line),
{
    let tail = seq!['#'] + comment;
    assert(line + seq!['#'] + comment =~= line + tail);
    lemma_find_concat(line, tail, '#');
    lemma_find_bounds(line, '#');
    assert(find(tail, '#') == 0);
    let n = find(line, '#');
    assert((line + tail).take(n) =~= line.take(n));
}

/// A carriage return at the end of a line changes nothing: files with either kind
/// of line ending read alike.
pub proof fn law_carriage_returns_are_ignored(state: Reading, line: Seq<char>)
    ensures
        line_content(line.push('\r')) == line_content(line),
        read_line(state, line.push('\r')) == read_line(state, line),
{
    let tail = seq!['\r'];
    assert(line.push('\r') =~= line + tail);
    lemma_find_concat(line, tail, '#');
    lemma_find_bounds(line, '#');
    assert(find(tail.drop_first(), '#') == 0);
    assert(find(tail, '#') == 1);
    let n = find(line, '#');
    if n < line.len() {
        assert((line + tail).take(n) =~= line.take(n));
    } else {
        assert((line + tail).take(n + 1) =~= line.push('\r'));
        assert(line.take(n) =~= line);
        lemma_trimmed_push(line, '\r');
    }
}

/// A line that holds nothing but white space and a comment changes nothing.
pub proof fn law_blank_lines_are_ignored(state: Reading, line: Seq<char>)
    requires
        line_content(line).len() == 0,
    ensures
        read_line(state, line) == Ok::<Reading, Seq<char>>(state),
{
}

/// Lines with the same content read alike.
proof fn lemma_same_content(path: Seq<char>, a: Seq<Seq<char>>, b: Seq<Seq<char>>, n: int)
    requires
        n <= a.len(),
        n <= b.len(),
        forall|i: int| 0 <= i < n ==> line_content(#[trigger] a[i]) == line_content(b[i]),
    ensures
        read_lines(path, a, n) == read_lines(path, b, n),
    decreases n,
{
    if n > 0 {
        lemma_same_content(path, a, b, n - 1);
        assert(line_content(a[n - 1]) == line_content(b[n - 1]));
    }
}

/// Two files whose lines differ in nothing but comments, surrounding white space
/// and line endings load alike, errors and line numbers included.
pub proof fn law_only_the_content_of_lines_counts(path: Seq<char>, a: Seq<char>, b: Seq<char>)
    requires
        split_all(a, '\n').len() == split_all(b, '\n').len(),
        forall|i: int|
            0 <= i < split_all(a, '\n').len() ==> line_content(#[trigger] split_all(a, '\n')[i])
                == line_content(split_all(b, '\n')[i]),
    ensures
        loaded(path, a) == loaded(path, b),
{
    lemma_same_content(
        path,
        split_all(a, '\n'),
        split_all(b, '\n'),
        split_all(a, '\n').len() as int,
    );
}

/// Names are compacted piece by piece.
pub proof fn law_names_compact_piece_by_piece(a: Seq<char>, b: Seq<char>)
    ensures
        compacted(a + b) == compacted(a) + compacted(b),
    decreases b.len(),
{
    if b.len() == 0 {
        assert(a + b =~= a);
        assert(compacted(a) + compacted(b) =~= compacted(a));
    } else {
        law_names_compact_piece_by_piece(a, b.drop_last());
        assert((a + b).drop_last() =~= a + b.drop_last());
        assert(compacted(a + b) =~= compacted(a) + compacted(b));
    }
}

/// Spaces, underscores, hyphens and dots in the name of a setting or a section
/// make no difference.
pub proof fn law_separators_are_ignored(a: Seq<char>, separator: char, b: Seq<char>)
    requires
        is_separator(separator),
    ensures
        compacted(a + seq![separator] + b) == compacted(a + b),
{
    let s = seq![separator];
    assert(s.drop_last() =~= Seq::<char>::empty());
    assert(compacted(s.drop_last()) =~= Seq::<char>::empty());
    assert(compacted(s) =~= Seq::<char>::empty());
    law_names_compact_piece_by_piece(a, s);
    law_names_compact_piece_by_piece(a + s, b);
    law_names_compact_piece_by_piece(a, b);
    assert(compacted(a) + compacted(s) =~= compacted(a));
}

/// Capital and small ASCII letters in the name of a setting or a section make no
/// difference.
pub proof fn law_letter_case_is_ignored(name: Seq<char>)
    ensures
        compacted(ascii_lowered(name)) == compacted(name),
    decreases name.len(),
{
    let lower = ascii_lowered(name);
    if name.len() == 0 {
        assert(lower =~= name);
    } else {
        law_letter_case_is_ignored(name.drop_last());
        assert(lower.drop_last() =~= ascii_lowered(name.drop_last()));
        let c = name.last();
        assert(lower.last() == ascii_lower(c));
        assert(lowercase_of(ascii_lower(c)) =~= lowercase_of(c));
    }
}

/// A text of ASCII characters.
pub open spec fn is_ascii_text(s: Seq<char>) -> bool {
    forall|i: int| 0 <= i < s.len() ==> (#[trigger] s[i] as u32) < 128
}

/// A text of ASCII characters without separators and capital letters.
pub open spec fn is_compact(s: Seq<char>) -> bool {
    forall|i: int|
        0 <= i < s.len() ==> (#[trigger] s[i] as u32) < 128 && !is_separator(s[i]) && ascii_lower(
            s[i],
        ) == s[i]
}

/// What is compact stays as it is.
pub proof fn lemma_compact_stays(s: Seq<char>)
    requires
        is_compact(s),
    ensures
        compacted(s) == s,
    decreases s.len(),
{
    if s.len() > 0 {
        let t = s.drop_last();
        assert(forall|i: int| 0 <= i < t.len() ==> t[i] == s[i]);
        lemma_compact_stays(t);
        let c = s[s.len() - 1];
        assert(lowercase_of(c) =~= seq![c]);
        assert(compacted(s) =~= t + seq![c]);
    } else {
        assert(compacted(s) =~= s);
    }
}

/// Compacting an ASCII name leaves nothing to compact.
proof fn lemma_compacted_is_compact(name: Seq<char>)
    requires
        is_ascii_text(name),
    ensures
        is_compact(compacted(name)),
    decreases name.len(),
{
    if name.len() > 0 {
        let rest = name.drop_last();
        assert(forall|i: int| 0 <= i < rest.len() ==> rest[i] == name[i]);
        lemma_compacted_is_compact(rest);
        let c = name[name.len() - 1];
        assert((c as u32) < 128);
        let d = ascii_lower(c);
        assert((d as u32) < 128 && ascii_lower(d) == d);
        assert(!is_separator(c) ==> !is_separator(d));
    }
}

/// The compact form of an ASCII name holds no separator and no capital letter, and
/// is its own compact form.
pub proof fn law_compact_names_are_compact(name: Seq<char>)
    requires
        is_ascii_text(name),
    ensures
        forall|i: int|
            0 <= i < compacted(name).len() ==> !is_separator(#[trigger] compacted(name)[i])
                && ascii_lower(compacted(name)[i]) == compacted(name)[i],
        compacted(compacted(name)) == compacted(name),
{
    lemma_compacted_is_compact(name);
    lemma_compact_stays(compacted(name));
}

/// The legacy name of the GPU tile size means the same as the current one.
pub proof fn law_cuda_tile_size_is_an_alias(
    settings: Settings,
    key: Seq<char>,
    value: Seq<char>,
)
    ensures
        with_setting(settings, key, "cudatilesize"@, value) == with_setting(
            settings,
            key,
            "gputilesize"@,
            value,
        ),
{
    reveal_strlit("cudatilesize");
    reveal_strlit("gputilesize");
    reveal_strlit("algorithm");
    reveal_strlit("scanorder");
    reveal_strlit("directions");
    reveal_strlit("xrange");
    reveal_strlit("yrange");
    reveal_strlit("zrange");
    reveal_strlit("cputilesize");
    assert("gputilesize"@[0] == 'g' && "cudatilesize"@[0] == 'c');
    assert("algorithm"@[0] == 'a' && "scanorder"@[0] == 's' && "directions"@[0] == 'd');
    assert("cputilesize"@[1] == 'p' && "cudatilesize"@[1] == 'u' && "cputilesize"@[0] == 'c');
    assert("xrange"@[0] == 'x' && "yrange"@[0] == 'y' && "zrange"@[0] == 'z');
}

/// No setting is taken over twice, and every line that was read stays read.
pub proof fn law_settings_are_given_once(
    path: Seq<char>,
    lines: Seq<Seq<char>>,
    m: int,
    n: int,
)
    requires
        0 <= m <= n,
    ensures
        read_lines(path, lines, n) matches Ok(after) ==> {
            &&& after.seen.no_duplicates()
            &&& read_lines(path, lines, m) matches Ok(before)
            &&& before.seen.is_prefix_of(after.seen)
            &&& before.settings.filter.is_prefix_of(after.settings.filter)
        },
    decreases n - m, n,
{
    if n > 0 {
        if m < n {
            law_settings_are_given_once(path, lines, m, n - 1);
        } else {
            law_settings_are_given_once(path, lines, n - 1, n - 1);
        }
        if read_lines(path, lines, n) is Ok {
            let state = read_lines(path, lines, n - 1)->Ok_0;
            let next = read_line(state, lines[n - 1])->Ok_0;
            assert(state.seen.is_prefix_of(next.seen));
            assert(state.settings.filter.is_prefix_of(next.settings.filter));
            assert(next.seen.no_duplicates()) by {
                if next.seen.len() > state.seen.len() {
                    assert(!state.seen.contains(next.seen.last()));
                    assert(next.seen =~= state.seen.push(next.seen.last()));
                }
            }
        }
    }
}

/// All of a list of names was seen where none is missing.
pub proof fn lemma_none_missing(required: Seq<Seq<char>>, seen: Seq<Seq<char>>, i: int)
    requires
        first_missing(required, seen) is None,
        0 <= i < required.len(),
    ensures
        seen.contains(required[i]),
    decreases required.len(),
{
    if i > 0 {
        lemma_none_missing(required.drop_first(), seen, i - 1);
    }
}

/// No direction moves an offset outside where none was found.
proof fn lemma_all_inside(settings: Settings, directions: Seq<i32>, i: int)
    requires
        first_outside(directions, settings.filter) is None,
        settings.well_formed(),
        0 <= i < directions.len(),
    ensures
        rows_fit(settings.filter, directions[i] as int),
    decreases directions.len(),
{
    if i > 0 {
        lemma_all_inside(settings, directions.drop_first(), i - 1);
    } else {
        assert forall|k: int| 0 <= k < settings.filter.len() implies (
        #[trigger] settings.filter[k]).valid() && turned_offset_fits(
            settings.filter[k],
            turns_of(directions[0] as int),
        ) by {
            assert(settings.filter[k].valid());
        }
    }
}

/// Rows of validated settings can be prepared for every direction.
pub proof fn lemma_validated_rows_fit(settings: Settings)
    requires
        settings.well_formed(),
        validation_error(settings) is None,
    ensures
        forall|i: int|
            0 <= i < settings.directions.len() ==> is_quarter_turn(
                #[trigger] settings.directions[i] as int,
            ) && rows_fit(settings.filter, settings.directions[i] as int),
{
    assert forall|i: int| 0 <= i < settings.directions.len() implies is_quarter_turn(
        #[trigger] settings.directions[i] as int,
    ) && rows_fit(settings.filter, settings.directions[i] as int) by {
        lemma_all_inside(settings, settings.directions, i);
    }
}

/// A configuration that loads is ready to scan: its ranges are not empty, its
/// tiles not empty, its tolerance not negative, its directions distinct quarter
/// turns, every row asks for a rotation that exists at an offset that every
/// direction keeps in range, and the filter rows can be prepared. All required
/// settings were given.
pub proof fn law_loaded_settings_are_ready(path: Seq<char>, contents: Seq<char>)
    ensures
        loaded(path, contents) matches Ok(settings) ==> {
            &&& settings.well_formed()
            &&& settings.x_range.start < settings.x_range.end
            &&& settings.y_range.start < settings.y_range.end
            &&& settings.z_range.start < settings.z_range.end
            &&& settings.cpu_tile_size.x > 0 && settings.cpu_tile_size.z > 0
            &&& settings.gpu_tile_size.x > 0 && settings.gpu_tile_size.z > 0
            &&& settings.error_tolerance >= 0
            &&& settings.filter.len() > 0
            &&& forall|i: int|
                0 <= i < settings.directions.len() ==> rows_fit(
                    settings.filter,
                    #[trigger] settings.directions[i] as int,
                )
            &&& prepare_error(
                settings.algorithm,
                settings.filter,
                settings.directions,
                settings.error_tolerance as int,
            ) is None
            &&& settings.source_path == path
        },
        loaded(path, contents) is Ok ==> {
            let lines = split_all(contents, '\n');
            &&& read_lines(path, lines, lines.len() as int) matches Ok(state)
            &&& forall|i: int|
                0 <= i < required_settings().len() ==> state.seen.contains(
                    #[trigger] required_settings()[i],
                )
        },
{
    let lines = split_all(contents, '\n');
    if loaded(path, contents) is Ok {
        lemma_read_lines_well_formed(path, lines, lines.len() as int);
        lemma_path_kept(path, lines, lines.len() as int);
        let state = read_lines(path, lines, lines.len() as int)->Ok_0;
        let settings = state.settings;
        assert forall|i: int| 0 <= i < required_settings().len() implies state.seen.contains(
            #[trigger] required_settings()[i],
        ) by {
            lemma_none_missing(required_settings(), state.seen, i);
        }
        lemma_validated_rows_fit(settings);
    }
}

/// Reading keeps the path of the file.
proof fn lemma_path_kept(path: Seq<char>, lines: Seq<Seq<char>>, n: int)
    ensures
        read_lines(path, lines, n) matches Ok(state) ==> state.settings.source_path == path,
    decreases n,
{
    if n > 0 {
        lemma_path_kept(path, lines, n - 1);
    }
}

} // verus!
