//! What a scan plan is for, told by the configuration that it was made from: every
//! coordinate of the configured volume is scanned once for every direction, in the
//! configured order.

use vstd::prelude::*;
use crate::config::{ScanConfig, ScanOrder, TileSize};
use crate::coverage::{
    law_items_partition_the_volume, law_items_stay_in_the_volume,
    law_linear_order_goes_column_by_column, law_linear_order_joins_the_corners,
    law_tiles_visited_once, lemma_tile_numbers,
};
use crate::scan::{
    bounded_product, ceil_quotient, lemma_positive_factors, lemma_split_index, lemma_tile_start,
    plan_error, plan_of, saturated, span_of, WorkItem,
};
use crate::spiral::{law_spiral_follows_the_walk, law_spiral_visits_every_tile_once, walk_place};

verus! {

/// The work item with a number, in the plan for a configuration and a tile size.
pub open spec fn planned_item(config: ScanConfig, tile_size: TileSize, n: int) -> WorkItem {
    plan_of(config@, tile_size).item(n)
}

/// The number of work items in the plan for a configuration and a tile size.
pub open spec fn planned_items(config: ScanConfig, tile_size: TileSize) -> int {
    plan_of(config@, tile_size).item_count()
}

/// A plan for a configuration can be made.
pub open spec fn can_be_planned(config: ScanConfig, tile_size: TileSize) -> bool {
    &&& config.x_range.start <= config.x_range.end
    &&& config.z_range.start <= config.z_range.end
    &&& plan_error(plan_of(config@, tile_size)) is None
}

/// A work item scans a coordinate for the direction with an index.
pub open spec fn scans(item: WorkItem, x: int, y: int, z: int, direction_index: int) -> bool {
    &&& item.start.x <= x < item.end.x
    &&& item.start.y <= y < item.end.y
    &&& item.start.z <= z < item.end.z
    &&& item.direction_index == direction_index
}

/// Every coordinate in the ranges of a configuration is scanned for every direction,
/// by exactly one work item.
pub proof fn law_every_coordinate_is_scanned_once(
    config: ScanConfig,
    tile_size: TileSize,
    x: int,
    y: int,
    z: int,
    direction_index: int,
)
    requires
        can_be_planned(config, tile_size),
        config.x_range.start <= x < config.x_range.end,
        config.y_range.start <= y < config.y_range.end,
        config.z_range.start <= z < config.z_range.end,
        0 <= direction_index < config.directions@.len(),
    ensures
        exists|n: int|
            0 <= n < planned_items(config, tile_size) && #[trigger] scans(
                planned_item(config, tile_size, n),
                x,
                y,
                z,
                direction_index,
            ) && planned_item(config, tile_size, n).direction == config.directions@[direction_index],
        forall|n: int, m: int|
            0 <= n < planned_items(config, tile_size) && 0 <= m < planned_items(config, tile_size)
                && #[trigger] scans(planned_item(config, tile_size, n), x, y, z, direction_index)
                && #[trigger] scans(planned_item(config, tile_size, m), x, y, z, direction_index)
                ==> n == m,
{
    let plan = plan_of(config@, tile_size);
    law_items_partition_the_volume(plan, x, y, z, direction_index);
    let n = choose|n: int|
        0 <= n < plan.item_count() && #[trigger] plan.item(n).holds(x, y, z) && plan.item(
            n,
        ).direction_index == direction_index;
    law_items_stay_in_the_volume(plan, n, x, y, z);
    assert(scans(planned_item(config, tile_size, n), x, y, z, direction_index));
    assert forall|n: int, m: int|
        0 <= n < planned_items(config, tile_size) && 0 <= m < planned_items(config, tile_size)
            && #[trigger] scans(planned_item(config, tile_size, n), x, y, z, direction_index)
            && #[trigger] scans(planned_item(config, tile_size, m), x, y, z, direction_index) implies n
        == m by {
        assert(plan.item(n).holds(x, y, z) && plan.item(m).holds(x, y, z));
    }
}

/// Every work item is a tile of the configured size, counted from the start of the
/// ranges and cut off at their ends, over the full Y range, for one of the configured
/// directions; the directions of a tile follow each other.
pub proof fn law_items_are_tiles_of_the_volume(config: ScanConfig, tile_size: TileSize, n: int)
    requires
        can_be_planned(config, tile_size),
        0 <= n < planned_items(config, tile_size),
    ensures
        ({
            let item = planned_item(config, tile_size, n);
            &&& item.start.y == config.y_range.start
            &&& item.end.y == config.y_range.end
            &&& config.x_range.start <= item.start.x < item.end.x <= config.x_range.end
            &&& config.z_range.start <= item.start.z < item.end.z <= config.z_range.end
            &&& (item.start.x - config.x_range.start) % (tile_size.x as int) == 0
            &&& (item.start.z - config.z_range.start) % (tile_size.z as int) == 0
            &&& item.end.x - item.start.x == tile_size.x || (item.end.x == config.x_range.end
                && item.end.x - item.start.x < tile_size.x)
            &&& item.end.z - item.start.z == tile_size.z || (item.end.z == config.z_range.end
                && item.end.z - item.start.z < tile_size.z)
            &&& item.direction_index == n % (config.directions@.len() as int)
            &&& item.direction == config.directions@[n % (config.directions@.len() as int)]
        }),
{
    let plan = plan_of(config@, tile_size);
    let turns = plan.directions.len() as int;
    lemma_tile_numbers(plan);
    lemma_split_index(n, plan.tile_count(), turns);
    law_tiles_visited_once(plan);
    law_items_stay_in_the_volume(plan, n, 0, 0, 0);
    let t = plan.tiles()[n / turns];
    assert(plan.tiles().contains(t));
    let (w, d) = (plan.x.end - plan.x.start, plan.z.end - plan.z.start);
    lemma_tile_start(w, tile_size.x as int, t.0);
    lemma_tile_start(d, tile_size.z as int, t.1);
    vstd::arithmetic::div_mod::lemma_mod_multiples_basic(t.0, tile_size.x as int);
    vstd::arithmetic::div_mod::lemma_mod_multiples_basic(t.1, tile_size.z as int);
    assert(turns <= plan.item_count()) by (nonlinear_arith)
        requires
            plan.tile_count() >= 1,
            turns >= 0,
            plan.item_count() == plan.tile_count() * turns,
    ;
}

/// A cut into pieces that are not larger than `size` has no more pieces than needed.
proof fn lemma_pieces(length: int, size: int)
    requires
        length >= 0,
        size > 0,
    ensures
        0 <= ceil_quotient(length, size),
        (ceil_quotient(length, size) - 1) * size < length || length == 0,
        length <= ceil_quotient(length, size) * size,
        length == 0 ==> ceil_quotient(length, size) == 0,
{
    let c = ceil_quotient(length, size);
    let s = length + size - 1;
    vstd::arithmetic::div_mod::lemma_fundamental_div_mod(s, size);
    vstd::arithmetic::div_mod::lemma_div_pos_is_pos(s, size);
    assert(size * c == c * size) by (nonlinear_arith);
    assert((c - 1) * size == c * size - size) by (nonlinear_arith);
    if length == 0 {
        assert(0 * size == 0) by (nonlinear_arith);
        vstd::arithmetic::div_mod::lemma_fundamental_div_mod_converse(s, size, 0, size - 1);
    }
}

/// The number of work items is the number of tiles in X times that in Z, for every
/// direction, where no tile is more than is needed to cover the ranges.
pub proof fn law_number_of_items(config: ScanConfig, tile_size: TileSize) -> (tiles: (int, int))
    requires
        config.x_range.start <= config.x_range.end,
        config.z_range.start <= config.z_range.end,
        tile_size.x > 0,
        tile_size.z > 0,
    ensures
        planned_items(config, tile_size) == tiles.0 * tiles.1 * config.directions@.len(),
        tiles.0 >= 0,
        tiles.1 >= 0,
        config.x_range.end - config.x_range.start <= tiles.0 * tile_size.x,
        config.z_range.end - config.z_range.start <= tiles.1 * tile_size.z,
        config.x_range.start < config.x_range.end ==> (tiles.0 - 1) * tile_size.x
            < config.x_range.end - config.x_range.start,
        config.z_range.start < config.z_range.end ==> (tiles.1 - 1) * tile_size.z
            < config.z_range.end - config.z_range.start,
        config.x_range.start == config.x_range.end ==> tiles.0 == 0,
        config.z_range.start == config.z_range.end ==> tiles.1 == 0,
{
    let plan = plan_of(config@, tile_size);
    lemma_pieces(config.x_range.end - config.x_range.start, tile_size.x as int);
    lemma_pieces(config.z_range.end - config.z_range.start, tile_size.z as int);
    (plan.grid().x_tiles, plan.grid().z_tiles)
}

/// A plan can be made exactly when the tiles are not empty and the work items can be
/// counted by a machine word of 64 bits and of this build.
pub proof fn law_plans_that_can_be_made(config: ScanConfig, tile_size: TileSize)
    ensures
        plan_error(plan_of(config@, tile_size)) is None <==> tile_size.x > 0 && tile_size.z > 0
            && planned_items(config, tile_size) <= u64::MAX && planned_items(config, tile_size)
            <= usize::MAX,
        tile_size.x <= 0 || tile_size.z <= 0 ==> plan_error(plan_of(config@, tile_size)) == Some(
            "tile dimensions must be positive"@,
        ),
{
}

/// Products with up to three factors below 2^32.
proof fn lemma_three_factors(a: int, b: int, c: int)
    requires
        0 <= a < 0x1_0000_0000,
        0 <= b < 0x1_0000_0000,
        0 <= c < 0x1_0000_0000,
    ensures
        bounded_product(seq![a, b, c]) == (if a * b * c <= u64::MAX {
            Some(a * b * c)
        } else {
            None
        }),
        bounded_product(seq![a, b]) == Some(a * b),
{
    assert(seq![a, b, c].drop_last() =~= seq![a, b]);
    assert(seq![a, b].drop_last() =~= seq![a]);
    assert(seq![a].drop_last() =~= Seq::<int>::empty());
    reveal_with_fuel(bounded_product, 4);
    assert(1 * a == a);
    assert(a * b <= u64::MAX) by (nonlinear_arith)
        requires
            0 <= a < 0x1_0000_0000,
            0 <= b < 0x1_0000_0000,
    ;
}

/// The number of coordinates of a work item is the product of its three extents; it
/// saturates, and says so, exactly where that does not fit in 64 bits.
pub proof fn law_candidate_count(item: WorkItem)
    requires
        item.start.x <= item.end.x,
        item.start.y <= item.end.y,
        item.start.z <= item.end.z,
    ensures
        ({
            let volume = (item.end.x - item.start.x) * (item.end.y - item.start.y) * (item.end.z
                - item.start.z);
            saturated(
                bounded_product(
                    seq![
                        span_of(item.start.x as int, item.end.x as int),
                        span_of(item.start.y as int, item.end.y as int),
                        span_of(item.start.z as int, item.end.z as int),
                    ],
                ),
            ) == (if volume <= 0xffff_ffff_ffff_ffff {
                (volume, false)
            } else {
                (0xffff_ffff_ffff_ffffint, true)
            })
        }),
{
    let (a, b, c) = (
        item.end.x - item.start.x,
        item.end.y - item.start.y,
        item.end.z - item.start.z,
    );
    assert(span_of(item.start.x as int, item.end.x as int) == a);
    assert(span_of(item.start.y as int, item.end.y as int) == b);
    assert(span_of(item.start.z as int, item.end.z as int) == c);
    lemma_three_factors(a, b, c);
}

/// The announced number of candidates is the volume of the configured ranges times
/// the number of directions; it saturates, and says so, exactly where that does not
/// fit in 64 bits. (Without a direction there are no candidates, but a volume that
/// does not fit saturates all the same.)
pub proof fn law_announced_candidates(config: ScanConfig, tile_size: TileSize)
    requires
        config.x_range.start <= config.x_range.end,
        config.y_range.start <= config.y_range.end,
        config.z_range.start <= config.z_range.end,
        config.directions@.len() > 0,
    ensures
        ({
            let count = (config.x_range.end - config.x_range.start) * (config.y_range.end
                - config.y_range.start) * (config.z_range.end - config.z_range.start)
                * config.directions@.len();
            saturated(plan_of(config@, tile_size).candidates()) == (if count
                <= 0xffff_ffff_ffff_ffff {
                (count, false)
            } else {
                (0xffff_ffff_ffff_ffffint, true)
            })
        }),
{
    let (a, b, c) = (
        config.x_range.end - config.x_range.start,
        config.y_range.end - config.y_range.start,
        config.z_range.end - config.z_range.start,
    );
    let d = config.directions@.len() as int;
    assert(span_of(config.x_range.start as int, config.x_range.end as int) == a);
    assert(span_of(config.y_range.start as int, config.y_range.end as int) == b);
    assert(span_of(config.z_range.start as int, config.z_range.end as int) == c);
    lemma_three_factors(a, b, c);
    let all = seq![a, b, c, d];
    assert(all.drop_last() =~= seq![a, b, c]);
    let v = a * b * c;
    assert(v >= 0) by (nonlinear_arith)
        requires
            a >= 0,
            b >= 0,
            c >= 0,
            v == a * b * c,
    ;
    assert(v * d >= v) by (nonlinear_arith)
        requires
            v >= 0,
            d >= 1,
    ;
}

/// The column and the row of the tile of a work item, counted in tiles from the start
/// of the ranges.
pub open spec fn tile_of(config: ScanConfig, tile_size: TileSize, n: int) -> (int, int) {
    (
        (planned_item(config, tile_size, n).start.x - config.x_range.start) / (tile_size.x as int),
        (planned_item(config, tile_size, n).start.z - config.z_range.start) / (tile_size.z as int),
    )
}

/// The tile of a work item is the one that the plan visits at that point.
proof fn lemma_tile_of(config: ScanConfig, tile_size: TileSize, n: int)
    requires
        can_be_planned(config, tile_size),
        0 <= n < planned_items(config, tile_size),
    ensures
        config.directions@.len() > 0,
        0 <= n / (config.directions@.len() as int) < plan_of(config@, tile_size).tile_count(),
        tile_of(config, tile_size, n) == plan_of(config@, tile_size).tiles()[n
            / (config.directions@.len() as int)],
        plan_of(config@, tile_size).grid().has(tile_of(config, tile_size, n)),
        plan_of(config@, tile_size).grid().inhabited(),
{
    let plan = plan_of(config@, tile_size);
    let turns = plan.directions.len() as int;
    lemma_tile_numbers(plan);
    lemma_split_index(n, plan.tile_count(), turns);
    lemma_positive_factors(plan.grid().x_tiles, plan.grid().z_tiles);
    law_tiles_visited_once(plan);
    let t = plan.tiles()[n / turns];
    assert(plan.tiles().contains(t));
    let (w, d) = (plan.x.end - plan.x.start, plan.z.end - plan.z.start);
    lemma_tile_start(w, tile_size.x as int, t.0);
    lemma_tile_start(d, tile_size.z as int, t.1);
    vstd::arithmetic::div_mod::lemma_div_multiples_vanish(t.0, tile_size.x as int);
    vstd::arithmetic::div_mod::lemma_div_multiples_vanish(t.1, tile_size.z as int);
    assert(t.0 * tile_size.x == tile_size.x * t.0) by (nonlinear_arith);
    assert(t.1 * tile_size.z == tile_size.z * t.1) by (nonlinear_arith);
}

/// A linear scan starts at the minimum corner of the ranges, goes column by column,
/// and ends at the maximum corner.
pub proof fn law_linear_scans(config: ScanConfig, tile_size: TileSize, n: int, m: int)
    requires
        can_be_planned(config, tile_size),
        config.scan_order == ScanOrder::Linear,
        0 <= n <= m < planned_items(config, tile_size),
    ensures
        planned_item(config, tile_size, 0).start.x == config.x_range.start,
        planned_item(config, tile_size, 0).start.z == config.z_range.start,
        ({
            let (a, b) = (planned_item(config, tile_size, n), planned_item(config, tile_size, m));
            a.start.x < b.start.x || (a.start.x == b.start.x && a.start.z <= b.start.z)
        }),
        ({
            let last = planned_item(config, tile_size, planned_items(config, tile_size) - 1);
            last.end.x == config.x_range.end && last.end.z == config.z_range.end
        }),
{
    let plan = plan_of(config@, tile_size);
    let turns = plan.directions.len() as int;
    let last = plan.item_count() - 1;
    lemma_tile_of(config, tile_size, 0);
    lemma_tile_of(config, tile_size, n);
    lemma_tile_of(config, tile_size, m);
    lemma_tile_of(config, tile_size, last);
    law_linear_order_joins_the_corners(plan);
    vstd::arithmetic::div_mod::lemma_fundamental_div_mod_converse(0, turns, 0, 0);
    vstd::arithmetic::div_mod::lemma_div_is_ordered(n, m, turns);
    if n / turns < m / turns {
        law_linear_order_goes_column_by_column(plan, n / turns, m / turns);
    }
    let (s, t) = (plan.tiles()[n / turns], plan.tiles()[m / turns]);
    let (tx, tz) = (tile_size.x as int, tile_size.z as int);
    let (w, d) = (plan.x.end - plan.x.start, plan.z.end - plan.z.start);
    lemma_tile_start(w, tx, s.0);
    lemma_tile_start(d, tz, s.1);
    lemma_tile_start(w, tx, t.0);
    lemma_tile_start(d, tz, t.1);
    assert(s.0 < t.0 ==> s.0 * tx < t.0 * tx) by (nonlinear_arith)
        requires
            tx > 0,
    ;
    assert(s.1 <= t.1 ==> s.1 * tz <= t.1 * tz) by (nonlinear_arith)
        requires
            tz > 0,
    ;
    let k = plan.tile_count() - 1;
    assert(last == k * turns + (turns - 1)) by (nonlinear_arith)
        requires
            last == plan.tile_count() * turns - 1,
            k == plan.tile_count() - 1,
    ;
    vstd::arithmetic::div_mod::lemma_fundamental_div_mod_converse(last, turns, k, turns - 1);
    let e = plan.tiles()[k];
    lemma_tile_start(w, tx, e.0);
    lemma_tile_start(d, tz, e.1);
    lemma_pieces(w, tx);
    lemma_pieces(d, tz);
    assert(e.0 * tx + tx == (e.0 + 1) * tx) by (nonlinear_arith);
    assert(e.1 * tz + tz == (e.1 + 1) * tz) by (nonlinear_arith);
    assert(plan.tiles()[0] == (0int, 0int));
    assert(0 * tx == 0 && 0 * tz == 0) by (nonlinear_arith);
}

/// How far a tile lies from the middle tile of a grid, in rings.
pub open spec fn ring_in(x_tiles: int, z_tiles: int, tile: (int, int)) -> int {
    let (dx, dz) = (tile.0 - (x_tiles - 1) / 2, tile.1 - (z_tiles - 1) / 2);
    if (if dx >= 0 { dx } else { -dx }) >= (if dz >= 0 { dz } else { -dz }) {
        if dx >= 0 {
            dx
        } else {
            -dx
        }
    } else {
        if dz >= 0 {
            dz
        } else {
            -dz
        }
    }
}

/// A spiral scan starts at the middle tile and moves outward ring by ring. Within a
/// ring it follows the walk around it: down the right side, to the left along the
/// bottom, up the left side, and to the right along the top.
pub proof fn law_spiral_scans(
    config: ScanConfig,
    tile_size: TileSize,
    x_tiles: int,
    z_tiles: int,
    n: int,
    m: int,
)
    requires
        can_be_planned(config, tile_size),
        config.scan_order == ScanOrder::Spiral,
        0 <= n <= m < planned_items(config, tile_size),
        (x_tiles - 1) * tile_size.x < config.x_range.end - config.x_range.start <= x_tiles
            * tile_size.x,
        (z_tiles - 1) * tile_size.z < config.z_range.end - config.z_range.start <= z_tiles
            * tile_size.z,
    ensures
        tile_of(config, tile_size, 0) == ((x_tiles - 1) / 2, (z_tiles - 1) / 2),
        ({
            let (a, b) = (tile_of(config, tile_size, n), tile_of(config, tile_size, m));
            let (r, s) = (ring_in(x_tiles, z_tiles, a), ring_in(x_tiles, z_tiles, b));
            let (cx, cz) = ((x_tiles - 1) / 2, (z_tiles - 1) / 2);
            &&& r <= s
            &&& r == s && a != b ==> walk_place(a.0 - cx, a.1 - cz, r) < walk_place(
                b.0 - cx,
                b.1 - cz,
                s,
            )
        }),
{
    let plan = plan_of(config@, tile_size);
    let grid = plan.grid();
    let turns = plan.directions.len() as int;
    lemma_tile_of(config, tile_size, 0);
    lemma_tile_of(config, tile_size, n);
    lemma_tile_of(config, tile_size, m);
    lemma_tile_count_unique(
        config.x_range.end - config.x_range.start,
        tile_size.x as int,
        x_tiles,
    );
    lemma_tile_count_unique(
        config.z_range.end - config.z_range.start,
        tile_size.z as int,
        z_tiles,
    );
    law_spiral_visits_every_tile_once(grid);
    vstd::arithmetic::div_mod::lemma_fundamental_div_mod_converse(0, turns, 0, 0);
    vstd::arithmetic::div_mod::lemma_div_is_ordered(n, m, turns);
    let (i, j) = (n / turns, m / turns);
    let (a, b) = (grid.spiral()[i], grid.spiral()[j]);
    assert(grid.ring_of(a) == ring_in(x_tiles, z_tiles, a));
    assert(grid.ring_of(b) == ring_in(x_tiles, z_tiles, b));
    if i < j && grid.ring_of(a) == grid.ring_of(b) {
        law_spiral_follows_the_walk(grid, i, j);
    }
}

/// Only one number of tiles covers a range without an idle tile.
proof fn lemma_tile_count_unique(length: int, size: int, tiles: int)
    requires
        length >= 0,
        size > 0,
        (tiles - 1) * size < length <= tiles * size,
    ensures
        tiles == ceil_quotient(length, size),
{
    lemma_pieces(length, size);
    let c = ceil_quotient(length, size);
    if length == 0 {
        assert(tiles == 0) by (nonlinear_arith)
            requires
                size > 0,
                (tiles - 1) * size < 0,
                0 <= tiles * size,
        ;
    } else {
        assert(tiles == c) by (nonlinear_arith)
            requires
                size > 0,
                (tiles - 1) * size < length,
                length <= tiles * size,
                (c - 1) * size < length,
                length <= c * size,
        ;
    }
}

/// A reverse-spiral scan visits the tiles of the spiral scan in reverse, and the
/// directions of each in the same order.
pub proof fn law_reverse_spiral_scans(
    config: ScanConfig,
    reverse: ScanConfig,
    tile_size: TileSize,
    tile_num: int,
    direction_index: int,
)
    requires
        can_be_planned(config, tile_size),
        config.scan_order == ScanOrder::Spiral,
        reverse.scan_order == ScanOrder::ReverseSpiral,
        reverse.x_range == config.x_range,
        reverse.y_range == config.y_range,
        reverse.z_range == config.z_range,
        reverse.directions@ == config.directions@,
        0 <= direction_index < config.directions@.len(),
        0 <= tile_num,
        (tile_num + 1) * config.directions@.len() <= planned_items(config, tile_size),
    ensures
        planned_items(reverse, tile_size) == planned_items(config, tile_size),
        planned_item(reverse, tile_size, tile_num * config.directions@.len() + direction_index)
            == planned_item(
            config,
            tile_size,
            planned_items(config, tile_size) - (tile_num + 1) * config.directions@.len()
                + direction_index,
        ),
{
    let (plan, back) = (plan_of(config@, tile_size), plan_of(reverse@, tile_size));
    let turns = config.directions@.len() as int;
    let count = plan.tile_count();
    assert(tile_num < count) by (nonlinear_arith)
        requires
            (tile_num + 1) * turns <= count * turns,
            turns > 0,
    ;
    crate::coverage::law_reverse_spiral_is_reversed(plan, back, tile_num, direction_index);
    assert((count - 1 - tile_num) * turns == count * turns - (tile_num + 1) * turns)
        by (nonlinear_arith);
}

/// The length of a range is its end less its start; that of an inverted range wraps
/// around at 2^64.
pub proof fn law_spans(start: i32, end: i32)
    ensures
        start <= end ==> span_of(start as int, end as int) == end - start,
        start > end ==> span_of(start as int, end as int) == end - start + 0x1_0000_0000_0000_0000,
{
}

/// A product goes on while it fits in 64 bits, factor by factor.
pub proof fn law_products(factors: Seq<int>, factor: int)
    ensures
        bounded_product(Seq::empty()) == Some(1int),
        bounded_product(factors.push(factor)) == (match bounded_product(factors) {
            None => None,
            Some(product) => if product * factor <= 0xffff_ffff_ffff_ffff {
                Some(product * factor)
            } else {
                None
            },
        }),
        saturated(None) == (0xffff_ffff_ffff_ffffint, true),
        saturated(Some(factor)) == (factor, false),
{
    assert(factors.push(factor).drop_last() =~= factors);
}

} // verus!
