//! What is said of a text that cannot be used: every reader names the first thing
//! that is wrong with it.

use vstd::prelude::*;
use crate::config::{
    bool_value, compacted, directions_from, directions_value, filter_value, first_outside,
    lemma_directions_error, line_error_text, loaded, pair_value, read_content, read_lines,
    scan_order_value, tolerance_value, validation_error, with_setting, Reading, ScanOrder, Settings,
};
use crate::filter::{
    direction_filter, direction_filters, first_open_filter, prepare_error, DirectionView,
};
use crate::number::{decimal, i8_value, integer_value, u8_value};
use crate::reading_laws::marks;
use crate::scan::{plan_error, PlanView};
use crate::text::{ascii_lowered, enclosed, split_all, split_at_first, trimmed, words_of};
use crate::types::{algorithm_named, RotationInfo, RotationKind, TextureAlgorithm};

verus! {

/// A text in quotation marks behind some words.
pub open spec fn quoting(before: Seq<char>, text: Seq<char>) -> Seq<char> {
    before + text + "'"@
}

/// Why a text is no pair of integers: no brackets, no comma, or no integer before or
/// behind the comma.
pub proof fn law_pair_errors(s: Seq<char>)
    ensures
        enclosed(trimmed(s), '(', ')') is None ==> pair_value(s) == Err::<(i32, i32), _>(
            quoting("expected '(first, second)', got '"@, trimmed(s)),
        ),
        enclosed(trimmed(s), '(', ')') matches Some(contents) ==> {
            &&& split_at_first(contents, ',') is None ==> pair_value(s) == Err::<(i32, i32), _>(
                quoting("expected two comma-separated integers, got '"@, trimmed(s)),
            )
            &&& split_at_first(contents, ',') matches Some((first, second)) ==> {
                let a = integer_value(trimmed(first), true);
                let b = integer_value(trimmed(second), true);
                let fits = |n: Option<int>| n matches Some(v) && -2147483648 <= v <= 2147483647;
                &&& !fits(a) ==> pair_value(s) == Err::<(i32, i32), _>(
                    quoting("invalid integer '"@, trimmed(first)),
                )
                &&& fits(a) && !fits(b) ==> pair_value(s) == Err::<(i32, i32), _>(
                    quoting("invalid integer '"@, trimmed(second)),
                )
                &&& fits(a) && fits(b) ==> pair_value(s) is Ok
            }
        },
{
}

/// Why a text is no list of directions: no brackets, or, behind `n` good ones, an item
/// that is no integer, or one that is no quarter turn or stands there already.
pub proof fn law_direction_errors(s: Seq<char>, n: int, list: Seq<i32>)
    ensures
        enclosed(trimmed(s), '[', ']') is None ==> directions_value(s) == Err::<Seq<i32>, _>(
            "directions must use [0, 90, ...] syntax"@,
        ),
        enclosed(trimmed(s), '[', ']') matches Some(contents) ==> {
            let items = split_all(contents, ',');
            0 <= n < items.len() && directions_from(items, n) == Ok::<_, Seq<char>>(list) ==> {
                let item = trimmed(items[n]);
                let value = integer_value(item, true);
                let fits = value matches Some(v) && -2147483648 <= v <= 2147483647;
                &&& !fits ==> directions_value(s) == Err::<Seq<i32>, _>(
                    quoting("invalid direction '"@, item),
                )
                &&& fits && (!(value == Some(0int) || value == Some(90int) || value == Some(180int)
                    || value == Some(270int)) || list.contains(value->Some_0 as i32))
                    ==> directions_value(s) == Err::<Seq<i32>, _>(
                    "direction "@ + decimal(value->Some_0) + " is invalid or duplicated"@,
                )
            }
        },
{
    match enclosed(trimmed(s), '[', ']') {
        Some(contents) => {
            let items = split_all(contents, ',');
            if 0 <= n < items.len() && directions_from(items, n + 1) is Err {
                lemma_directions_error(items, n + 1, items.len() as int);
            }
        },
        None => {},
    }
}

/// Words that stand for nothing are quoted as they were given.
pub proof fn law_word_errors(s: Seq<char>)
    ensures
        bool_value(s) matches Err(error) ==> error == quoting("invalid boolean '"@, s),
        scan_order_value(s) matches Err(error) ==> error == quoting("invalid scan order '"@, s),
        tolerance_value(s) matches Err(error) ==> error == quoting(
            "invalid error tolerance '"@,
            s,
        ),
        algorithm_named(s) matches Err(error) ==> error == quoting("unknown algorithm '"@, s),
{
}

/// Why a text is no filter row, from left to right: no bar, an offset that is none, not
/// three offsets, no variant, one that is no number, too many words, a marker that is
/// none, or a rotation that the kind of row does not have.
pub proof fn law_row_errors(s: Seq<char>)
    ensures
        split_at_first(s, '|') is None ==> filter_value(s) == Err::<RotationInfo, _>(
            "filter rows must be: x y z | variant [side]"@,
        ),
        split_at_first(s, '|') matches Some((left, right)) ==> {
            let (ls, rs) = (words_of(left), words_of(right));
            let offsets = forall|i: int|
                0 <= i < ls.len() ==> i8_value(#[trigger] ls[i]) is Some;
            let fine = offsets && ls.len() == 3;
            let marker = ascii_lowered(rs[1]);
            let side = marker == "side"@ || marker == "true"@ || marker == "1"@;
            let known = exists|kind: RotationKind| #[trigger] marks(marker, kind);
            let variant = u8_value(rs[0]);
            &&& !offsets ==> filter_value(s) == Err::<RotationInfo, _>(
                "filter offsets must fit in int8 range [-128, 127]"@,
            )
            &&& offsets && ls.len() != 3 ==> filter_value(s) == Err::<RotationInfo, _>(
                "filter rows must contain three coordinates"@,
            )
            &&& fine && rs.len() == 0 ==> filter_value(s) == Err::<RotationInfo, _>(
                "filter row is missing a variant"@,
            )
            &&& fine && rs.len() > 0 && variant is None ==> filter_value(s) == Err::<
                RotationInfo,
                _,
            >("filter variant must be a non-negative integer"@)
            &&& fine && rs.len() > 2 && variant is Some ==> filter_value(s) == Err::<
                RotationInfo,
                _,
            >("unexpected extra token in filter row"@)
            &&& fine && rs.len() == 2 && variant is Some && !known ==> filter_value(s) == Err::<
                RotationInfo,
                _,
            >(quoting("invalid filter marker '"@, marker))
            &&& fine && rs.len() == 1 && variant is Some && variant->Some_0 > 3 ==> filter_value(s)
                == Err::<RotationInfo, _>(
                "variant "@ + decimal(variant->Some_0) + " exceeds maximum "@ + decimal(3),
            )
            &&& fine && rs.len() == 2 && variant is Some && known && !side && variant->Some_0 > 3
                ==> filter_value(s) == Err::<RotationInfo, _>(
                "variant "@ + decimal(variant->Some_0) + " exceeds maximum "@ + decimal(3),
            )
            &&& fine && rs.len() == 2 && variant is Some && side && variant->Some_0 > 1
                ==> filter_value(s) == Err::<RotationInfo, _>(
                "variant "@ + decimal(variant->Some_0) + " exceeds maximum "@ + decimal(1),
            )
        },
{
    match split_at_first(s, '|') {
        Some((left, right)) => {
            let marker = ascii_lowered(words_of(right)[1]);
            match crate::config::marker_kind(marker) {
                Some(kind) => {
                    assert(marks(marker, kind));
                    if kind != RotationKind::StandardSide {
                        lemma_not_a_side(marker, kind);
                    }
                    if marks(marker, RotationKind::StandardSide) {
                        crate::reading_laws::lemma_markers_differ(
                            marker,
                            kind,
                            RotationKind::StandardSide,
                        );
                    }
                },
                None => {
                    assert(forall|kind: RotationKind| !#[trigger] marks(marker, kind));
                },
            }
        },
        None => {},
    }
}

/// A marker of another kind does not mark a side face.
proof fn lemma_not_a_side(marker: Seq<char>, kind: RotationKind)
    requires
        marks(marker, kind),
        kind != RotationKind::StandardSide,
    ensures
        !marks(marker, RotationKind::StandardSide),
{
    if marks(marker, RotationKind::StandardSide) {
        crate::reading_laws::lemma_markers_differ(marker, kind, RotationKind::StandardSide);
    }
}

/// Why a line is bad: a section that does not exist, a filter row that is none, no
/// equals sign, a setting that was given already, a setting that does not exist, or a
/// value that cannot be read.
pub proof fn law_line_errors(state: Reading, s: Seq<char>)
    requires
        s.len() > 0,
    ensures
        read_content(state, s) matches Err(error) ==> {
            let header = enclosed(s, '[', ']');
            let row = header is None && state.section == "filter"@;
            let setting = header is None && state.section != "filter"@;
            &&& header matches Some(name) ==> error == quoting("unknown section '"@, name)
            &&& row ==> filter_value(s) == Err::<RotationInfo, _>(error)
            &&& setting && split_at_first(s, '=') is None ==> error == "expected key=value setting"@
            &&& setting ==> (split_at_first(s, '=') matches Some((key, value)) ==> {
                let (name, v) = (compacted(key), trimmed(value));
                let known = is_setting(name);
                &&& state.seen.contains(name) ==> error == quoting(
                    "duplicate setting '"@,
                    trimmed(key),
                )
                &&& !state.seen.contains(name) && !known ==> error == quoting(
                    "unknown setting '"@,
                    trimmed(key),
                )
                &&& !state.seen.contains(name) && known ==> is_error_of(name, v, error)
            })
        },
{
}

/// The compact name of a setting.
pub open spec fn is_setting(name: Seq<char>) -> bool {
    name == "algorithm"@ || name == "scanorder"@ || name == "directions"@ || name == "xrange"@
        || name == "yrange"@ || name == "zrange"@ || name == "cputilesize"@ || name
        == "gputilesize"@ || name == "cudatilesize"@ || name == "errortolerance"@ || name
        == "verbose"@
}

/// An error is that of the reader for a setting.
pub open spec fn is_error_of(name: Seq<char>, value: Seq<char>, error: Seq<char>) -> bool {
    ||| name == "algorithm"@ && algorithm_named(value) == Err::<TextureAlgorithm, _>(error)
    ||| name == "scanorder"@ && scan_order_value(value) == Err::<ScanOrder, _>(error)
    ||| name == "directions"@ && directions_value(value) == Err::<Seq<i32>, _>(error)
    ||| (name == "xrange"@ || name == "yrange"@ || name == "zrange"@ || name == "cputilesize"@
        || name == "gputilesize"@ || name == "cudatilesize"@) && pair_value(value) == Err::<
        (i32, i32),
        _,
    >(error)
    ||| name == "errortolerance"@ && tolerance_value(value) == Err::<i32, _>(error)
    ||| name == "verbose"@ && bool_value(value) == Err::<bool, _>(error)
}

/// A `key = value` line changes the setting that it names and no other.
pub proof fn law_lines_change_one_setting(
    settings: Settings,
    key: Seq<char>,
    name: Seq<char>,
    value: Seq<char>,
)
    ensures
        with_setting(settings, key, name, value) matches Ok(next) ==> {
            &&& name != "algorithm"@ ==> next.algorithm == settings.algorithm
            &&& name != "scanorder"@ ==> next.scan_order == settings.scan_order
            &&& name != "directions"@ ==> next.directions == settings.directions
            &&& name != "xrange"@ ==> next.x_range == settings.x_range
            &&& name != "yrange"@ ==> next.y_range == settings.y_range
            &&& name != "zrange"@ ==> next.z_range == settings.z_range
            &&& name != "errortolerance"@ ==> next.error_tolerance == settings.error_tolerance
            &&& name != "cputilesize"@ ==> next.cpu_tile_size == settings.cpu_tile_size
            &&& name != "gputilesize"@ && name != "cudatilesize"@ ==> next.gpu_tile_size
                == settings.gpu_tile_size
            &&& name != "verbose"@ ==> next.verbose == settings.verbose
            &&& next.filter == settings.filter
            &&& next.source_path == settings.source_path
        },
{
}

/// The error of a bad line names the file and the line.
pub proof fn law_places_of_errors(path: Seq<char>, line: int, message: Seq<char>)
    ensures
        line_error_text(path, line, message) == path + ":"@ + decimal(line) + ": "@ + message,
{
}

/// Where a file reads but a required setting is missing, the error names the file and
/// the first of them; where the settings do not pass, it names the file and the reason.
pub proof fn law_file_errors(path: Seq<char>, text: Seq<char>)
    ensures
        ({
            let lines = split_all(text, '\n');
            read_lines(path, lines, lines.len() as int) matches Ok(state) ==> {
                let seen = state.seen;
                let missing = |name: Seq<char>|
                    loaded(path, text) == Err::<Settings, _>(
                        path + ": missing required setting "@ + name,
                    );
                let (a, x, y) = (
                    seen.contains("algorithm"@),
                    seen.contains("xrange"@),
                    seen.contains("yrange"@),
                );
                let (z, e) = (seen.contains("zrange"@), seen.contains("errortolerance"@));
                &&& !a ==> missing("algorithm"@)
                &&& a && !x ==> missing("xrange"@)
                &&& a && x && !y ==> missing("yrange"@)
                &&& a && x && y && !z ==> missing("zrange"@)
                &&& a && x && y && z && !e ==> missing("errortolerance"@)
                &&& a && x && y && z && e ==> (validation_error(state.settings) matches Some(reason)
                    ==> loaded(path, text) == Err::<Settings, _>(path + ": "@ + reason))
            }
        }),
{
    let required = crate::config::required_settings();
    reveal_with_fuel(crate::config::first_missing, 6);
    assert(required.drop_first()[0] == "xrange"@);
    assert(required.drop_first().drop_first()[0] == "yrange"@);
    assert(required.drop_first().drop_first().drop_first()[0] == "zrange"@);
    assert(required.drop_first().drop_first().drop_first().drop_first()[0] == "errortolerance"@);
}

/// Why settings do not pass, in this order: an empty range, an empty tile, a negative
/// tolerance, no filter row, a direction that turns an offset out of range, or filters
/// that cannot be prepared.
pub proof fn law_validation_errors(settings: Settings)
    ensures
        ({
            let ranges = settings.x_range.start < settings.x_range.end && settings.y_range.start
                < settings.y_range.end && settings.z_range.start < settings.z_range.end;
            let tiles = settings.cpu_tile_size.x > 0 && settings.cpu_tile_size.z > 0
                && settings.gpu_tile_size.x > 0 && settings.gpu_tile_size.z > 0;
            let tolerance = settings.error_tolerance >= 0;
            let rows = settings.filter.len() > 0;
            let outside = first_outside(settings.directions, settings.filter);
            let error = validation_error(settings);
            &&& !ranges ==> error == Some("scan range starts must be less than their ends"@)
            &&& ranges && !tiles ==> error == Some("tile size dimensions must be positive"@)
            &&& ranges && tiles && !tolerance ==> error == Some(
                "errorTolerance must be non-negative"@,
            )
            &&& ranges && tiles && tolerance && !rows ==> error == Some(
                "filter must contain at least one row"@,
            )
            &&& ranges && tiles && tolerance && rows ==> (outside matches Some(direction) ==> error
                == Some(
                "direction "@ + decimal(direction as int)
                    + " rotates a filter offset outside int8 range"@,
            ))
            &&& ranges && tiles && tolerance && rows && outside is None ==> error == prepare_error(
                settings.algorithm,
                settings.filter,
                settings.directions,
                settings.error_tolerance as int,
            )
        }),
{
}

/// The first open filter stands behind closed ones.
proof fn lemma_first_open(views: Seq<DirectionView>, tolerance: int, i: int)
    requires
        0 <= i < views.len(),
        views[i].constraints.len() == 0 && views[i].forced_errors <= tolerance,
        forall|k: int|
            0 <= k < i ==> (#[trigger] views[k]).constraints.len() > 0 || views[k].forced_errors
                > tolerance,
    ensures
        first_open_filter(views, tolerance) == Some(views[i]),
    decreases i,
{
    if i > 0 {
        let rest = views.drop_first();
        assert(views[0].constraints.len() > 0 || views[0].forced_errors > tolerance);
        assert forall|k: int| 0 <= k < i - 1 implies (#[trigger] rest[k]).constraints.len() > 0
            || rest[k].forced_errors > tolerance by {
            assert(views[k + 1].constraints.len() > 0 || views[k + 1].forced_errors > tolerance);
        }
        lemma_first_open(rest, tolerance, i - 1);
    }
}

/// Why filters cannot be prepared: ordinary and netherrack rows at one block, or the
/// first direction where everything would match, or no direction that the tolerance
/// allows.
pub proof fn law_preparation_errors(
    algorithm: TextureAlgorithm,
    rows: Seq<RotationInfo>,
    directions: Seq<i32>,
    tolerance: int,
    i: int,
    j: int,
)
    ensures
        0 <= i < rows.len() && 0 <= j < rows.len() && rows[i].x == rows[j].x && rows[i].y
            == rows[j].y && rows[i].z == rows[j].z && rows[i].kind is Netherrack && !(
        rows[j].kind is Netherrack) ==> prepare_error(algorithm, rows, directions, tolerance)
            == Some("ordinary and netherrack filters cannot share a block offset"@),
        !crate::filter::mixes_kinds(rows) && 0 <= i < directions.len() && direction_filter(
            algorithm,
            rows,
            directions[i],
        ).constraints.len() == 0 && direction_filter(algorithm, rows, directions[i]).forced_errors
            <= tolerance && (forall|k: int|
            0 <= k < i ==> direction_filter(
                algorithm,
                rows,
                #[trigger] directions[k],
            ).constraints.len() > 0 || direction_filter(algorithm, rows, directions[k]).forced_errors
                > tolerance) ==> prepare_error(algorithm, rows, directions, tolerance) == Some(
            "direction "@ + decimal(directions[i] as int) + " has no usable filters"@,
        ),
{
    let views = direction_filters(algorithm, rows, directions);
    if 0 <= i < rows.len() && 0 <= j < rows.len() && rows[i].x == rows[j].x && rows[i].y
        == rows[j].y && rows[i].z == rows[j].z && rows[i].kind is Netherrack && !(
    rows[j].kind is Netherrack) {
        assert(crate::filter::offset_of(rows[i]) == crate::filter::offset_of(rows[j]));
        assert(crate::filter::is_netherrack(rows[i]) && !crate::filter::is_netherrack(rows[j]));
    }
    if 0 <= i < directions.len() && direction_filter(
        algorithm,
        rows,
        directions[i],
    ).constraints.len() == 0 && direction_filter(algorithm, rows, directions[i]).forced_errors
        <= tolerance && (forall|k: int|
        0 <= k < i ==> direction_filter(
            algorithm,
            rows,
            #[trigger] directions[k],
        ).constraints.len() > 0 || direction_filter(algorithm, rows, directions[k]).forced_errors
            > tolerance) {
        assert forall|k: int| 0 <= k < i implies (#[trigger] views[k]).constraints.len() > 0
            || views[k].forced_errors > tolerance by {
            assert(views[k] == direction_filter(algorithm, rows, directions[k]));
        }
        lemma_first_open(views, tolerance, i);
    }
}

/// Why a plan cannot be made: an empty tile, or more work items than can be counted.
pub proof fn law_plan_errors(plan: PlanView)
    ensures
        plan.tile.x <= 0 || plan.tile.z <= 0 ==> plan_error(plan) == Some(
            "tile dimensions must be positive"@,
        ),
        plan.tile.x > 0 && plan.tile.z > 0 && plan.item_count() > u64::MAX ==> plan_error(plan)
            == Some("scan contains too many work items"@),
        plan.tile.x > 0 && plan.tile.z > 0 && usize::MAX < plan.item_count() <= u64::MAX
            ==> plan_error(plan) == Some("scan contains too many work items for this build"@),
{
}

} // verus!
