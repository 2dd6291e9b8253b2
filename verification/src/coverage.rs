//! What scan plans guarantee: every candidate of the search volume belongs to
//! exactly one work item, whatever the scan order.

use vstd::prelude::*;
use crate::config::ScanOrder;
use crate::scan::{
    bounded_product, ceil_quotient, lemma_positive_factors, lemma_split_index, lemma_tile_start,
    plan_error, PlanView,
};
use crate::spiral::{law_spiral_visits_every_tile_once, lemma_rings_tiles};

verus! {

/// The cut of a range into tiles has no negative number of pieces.
pub proof fn lemma_tile_numbers(plan: PlanView)
    requires
        plan.valid(),
    ensures
        plan.grid().x_tiles >= 0,
        plan.grid().z_tiles >= 0,
        plan.tile_count() >= 0,
{
    vstd::arithmetic::div_mod::lemma_div_pos_is_pos(
        plan.x.end - plan.x.start + plan.tile.x - 1,
        plan.tile.x as int,
    );
    vstd::arithmetic::div_mod::lemma_div_pos_is_pos(
        plan.z.end - plan.z.start + plan.tile.z - 1,
        plan.tile.z as int,
    );
    let (a, b) = (plan.grid().x_tiles, plan.grid().z_tiles);
    assert(a * b >= 0) by (nonlinear_arith)
        requires
            a >= 0,
            b >= 0,
    ;
}

/// In every scan order a plan visits every tile of its grid exactly once.
pub proof fn law_tiles_visited_once(plan: PlanView)
    requires
        plan.valid(),
    ensures
        plan.tiles().len() == plan.tile_count(),
        plan.tiles().no_duplicates(),
        forall|t: (int, int)| #[trigger] plan.tiles().contains(t) <==> plan.grid().has(t),
{
    let grid = plan.grid();
    let tiles = plan.tiles();
    let spiral = grid.spiral();
    lemma_tile_numbers(plan);
    if plan.tile_count() == 0 {
        assert(!grid.inhabited()) by (nonlinear_arith)
            requires
                grid.x_tiles * grid.z_tiles == 0,
        ;
        lemma_rings_tiles(grid, grid.max_radius());
        if spiral.len() > 0 {
            assert(spiral.contains(spiral[0]));
        }
        assert(forall|t: (int, int)| !grid.has(t));
    } else {
        lemma_positive_factors(grid.x_tiles, grid.z_tiles);
        law_spiral_visits_every_tile_once(grid);
        match plan.order {
            ScanOrder::Linear => {
                assert forall|n: int, m: int|
                    0 <= n < tiles.len() && 0 <= m < tiles.len() && n != m implies tiles[n]
                    != tiles[m] by {
                    lemma_split_index(n, grid.x_tiles, grid.z_tiles);
                    lemma_split_index(m, grid.x_tiles, grid.z_tiles);
                }
                assert forall|t: (int, int)| #[trigger] tiles.contains(t) <==> grid.has(t) by {
                    if tiles.contains(t) {
                        let n = choose|n: int| 0 <= n < tiles.len() && tiles[n] == t;
                        lemma_split_index(n, grid.x_tiles, grid.z_tiles);
                    }
                    if grid.has(t) {
                        let n = t.0 * grid.z_tiles + t.1;
                        assert(0 <= n < grid.x_tiles * grid.z_tiles) by (nonlinear_arith)
                            requires
                                0 <= t.0 <= grid.x_tiles - 1,
                                0 <= t.1 < grid.z_tiles,
                                n == t.0 * grid.z_tiles + t.1,
                        ;
                        vstd::arithmetic::div_mod::lemma_fundamental_div_mod_converse(
                            n,
                            grid.z_tiles,
                            t.0,
                            t.1,
                        );
                        assert(tiles[n] == t);
                    }
                }
            },
            ScanOrder::Spiral => {},
            ScanOrder::ReverseSpiral => {
                assert forall|t: (int, int)| #[trigger] tiles.contains(t) <==> grid.has(t) by {
                    if tiles.contains(t) {
                        let n = choose|n: int| 0 <= n < tiles.len() && tiles[n] == t;
                        assert(spiral[spiral.len() - 1 - n] == t);
                        assert(spiral.contains(t));
                    }
                    if grid.has(t) {
                        assert(spiral.contains(t));
                        let n = choose|n: int| 0 <= n < spiral.len() && spiral[n] == t;
                        assert(tiles[spiral.len() - 1 - n] == t);
                    }
                }
            },
        }
    }
}

/// The linear order starts at the minimum corner and ends at the maximum corner.
pub proof fn law_linear_order_joins_the_corners(plan: PlanView)
    requires
        plan.valid(),
        plan.order == ScanOrder::Linear,
        plan.tile_count() > 0,
    ensures
        plan.tiles()[0] == (0int, 0int),
        plan.tiles()[plan.tile_count() - 1] == (
            plan.grid().x_tiles - 1,
            plan.grid().z_tiles - 1,
        ),
{
    let (xs, zs) = (plan.grid().x_tiles, plan.grid().z_tiles);
    let last = plan.tile_count() - 1;
    lemma_tile_numbers(plan);
    lemma_positive_factors(xs, zs);
    vstd::arithmetic::div_mod::lemma_fundamental_div_mod_converse(0, zs, 0, 0);
    assert(last == (xs - 1) * zs + (zs - 1)) by (nonlinear_arith)
        requires
            last == xs * zs - 1,
    ;
    vstd::arithmetic::div_mod::lemma_fundamental_div_mod_converse(last, zs, xs - 1, zs - 1);
}

/// The linear order goes through the grid column by column, and upward in each.
pub proof fn law_linear_order_goes_column_by_column(plan: PlanView, n: int, m: int)
    requires
        plan.valid(),
        plan.order == ScanOrder::Linear,
        0 <= n < m < plan.tile_count(),
    ensures
        plan.tiles()[n].0 < plan.tiles()[m].0 || (plan.tiles()[n].0 == plan.tiles()[m].0
            && plan.tiles()[n].1 < plan.tiles()[m].1),
{
    let (xs, zs) = (plan.grid().x_tiles, plan.grid().z_tiles);
    lemma_tile_numbers(plan);
    lemma_split_index(n, xs, zs);
    lemma_split_index(m, xs, zs);
    let (a, b) = (n / zs, m / zs);
    assert(a <= b) by (nonlinear_arith)
        requires
            zs > 0,
            n < m,
            n == a * zs + n % zs,
            m == b * zs + m % zs,
            0 <= n % zs < zs,
            0 <= m % zs < zs,
    ;
}

/// The work items repeat every tile for every direction, tile by tile.
pub proof fn law_items_repeat_tiles(plan: PlanView, tile_num: int, direction_index: int)
    requires
        plan.valid(),
        0 <= tile_num < plan.tile_count(),
        0 <= direction_index < plan.directions.len(),
    ensures
        0 <= tile_num * plan.directions.len() + direction_index < plan.item_count(),
        plan.item(tile_num * plan.directions.len() + direction_index) == plan.item_for(
            plan.tiles()[tile_num],
            direction_index,
        ),
{
    let turns = plan.directions.len() as int;
    let n = tile_num * turns + direction_index;
    assert(0 <= n < plan.tile_count() * turns) by (nonlinear_arith)
        requires
            0 <= tile_num <= plan.tile_count() - 1,
            0 <= direction_index < turns,
            n == tile_num * turns + direction_index,
    ;
    vstd::arithmetic::div_mod::lemma_fundamental_div_mod_converse(
        n,
        turns,
        tile_num,
        direction_index,
    );
}

/// The reverse spiral scans the same path as the spiral, from the outside inward.
pub proof fn law_reverse_spiral_is_reversed(
    spiral: PlanView,
    reverse: PlanView,
    tile_num: int,
    direction_index: int,
)
    requires
        spiral.valid(),
        spiral.order == ScanOrder::Spiral,
        reverse == (PlanView { order: ScanOrder::ReverseSpiral, ..spiral }),
        0 <= tile_num < spiral.tile_count(),
        0 <= direction_index < spiral.directions.len(),
    ensures
        reverse.tiles() == spiral.tiles().reverse(),
        reverse.item(tile_num * spiral.directions.len() + direction_index) == spiral.item(
            (spiral.tile_count() - 1 - tile_num) * spiral.directions.len() + direction_index,
        ),
{
    law_items_repeat_tiles(reverse, tile_num, direction_index);
    law_items_repeat_tiles(spiral, spiral.tile_count() - 1 - tile_num, direction_index);
    law_tiles_visited_once(spiral);
}

/// The part of `start..end` that piece `i` of a cut into pieces of `size` covers.
spec fn in_piece(start: int, end: int, size: int, i: int, v: int) -> bool {
    start + i * size <= v && v < start + i * size + size && v < end
}

/// A value of a cut range lies in exactly one piece.
proof fn lemma_one_piece(start: int, end: int, size: int, i: int, v: int)
    requires
        size > 0,
        start <= v < end,
    ensures
        0 <= (v - start) / size < ceil_quotient(end - start, size),
        in_piece(start, end, size, i, v) <==> i == (v - start) / size,
{
    let d = v - start;
    let q = d / size;
    vstd::arithmetic::div_mod::lemma_fundamental_div_mod(d, size);
    vstd::arithmetic::div_mod::lemma_div_pos_is_pos(d, size);
    assert(q * size == size * q) by (nonlinear_arith);
    assert(in_piece(start, end, size, q, v));
    if in_piece(start, end, size, i, v) {
        assert(i == q) by (nonlinear_arith)
            requires
                size > 0,
                i * size <= d < i * size + size,
                q * size <= d < q * size + size,
        ;
    }
    let c = ceil_quotient(end - start, size);
    let s = end - start + size - 1;
    vstd::arithmetic::div_mod::lemma_fundamental_div_mod(s, size);
    assert(q < c) by (nonlinear_arith)
        requires
            size > 0,
            q * size <= d,
            d < end - start,
            s == end - start + size - 1,
            s == size * c + s % size,
            s % size < size,
    ;
}

/// What the tile of one work item covers.
proof fn lemma_item_holds(plan: PlanView, n: int, x: int, y: int, z: int)
    requires
        plan.valid(),
        plan_error(plan) is None,
        0 <= n < plan.item_count(),
    ensures
        plan.grid().has(plan.tiles()[n / plan.directions.len() as int]),
        0 <= n / (plan.directions.len() as int) < plan.tile_count(),
        plan.item(n).direction_index == n % plan.directions.len() as int,
        plan.item(n).holds(x, y, z) <==> {
            let t = plan.tiles()[n / plan.directions.len() as int];
            &&& in_piece(plan.x.start as int, plan.x.end as int, plan.tile.x as int, t.0, x)
            &&& in_piece(plan.z.start as int, plan.z.end as int, plan.tile.z as int, t.1, z)
            &&& plan.y.start <= y < plan.y.end
        },
        plan.item(n).start.x < plan.item(n).end.x,
        plan.item(n).start.z < plan.item(n).end.z,
{
    let turns = plan.directions.len() as int;
    lemma_tile_numbers(plan);
    lemma_split_index(n, plan.tile_count(), turns);
    law_tiles_visited_once(plan);
    let t = plan.tiles()[n / turns];
    assert(plan.tiles().contains(t));
    lemma_tile_start(plan.x.end - plan.x.start, plan.tile.x as int, t.0);
    lemma_tile_start(plan.z.end - plan.z.start, plan.tile.z as int, t.1);
    assert(turns <= plan.item_count()) by (nonlinear_arith)
        requires
            plan.tile_count() >= 1,
            turns >= 0,
            plan.item_count() == plan.tile_count() * turns,
    ;
}

/// Every coordinate of the search volume is scanned exactly once for every
/// direction: there is one work item that holds it, and no second.
pub proof fn law_items_partition_the_volume(
    plan: PlanView,
    x: int,
    y: int,
    z: int,
    direction_index: int,
)
    requires
        plan.valid(),
        plan_error(plan) is None,
        plan.x.start <= x < plan.x.end,
        plan.y.start <= y < plan.y.end,
        plan.z.start <= z < plan.z.end,
        0 <= direction_index < plan.directions.len(),
    ensures
        exists|n: int|
            0 <= n < plan.item_count() && #[trigger] plan.item(n).holds(x, y, z) && plan.item(
                n,
            ).direction_index == direction_index,
        forall|n: int, m: int|
            0 <= n < plan.item_count() && 0 <= m < plan.item_count() && #[trigger] plan.item(
                n,
            ).holds(x, y, z) && #[trigger] plan.item(m).holds(x, y, z) && plan.item(
                n,
            ).direction_index == direction_index && plan.item(m).direction_index
                == direction_index ==> n == m,
{
    let turns = plan.directions.len() as int;
    let tiles = plan.tiles();
    let home = (
        (x - plan.x.start) / plan.tile.x as int,
        (z - plan.z.start) / plan.tile.z as int,
    );
    law_tiles_visited_once(plan);
    lemma_one_piece(plan.x.start as int, plan.x.end as int, plan.tile.x as int, home.0, x);
    lemma_one_piece(plan.z.start as int, plan.z.end as int, plan.tile.z as int, home.1, z);
    assert(tiles.contains(home));
    let tile_num = choose|i: int| 0 <= i < tiles.len() && tiles[i] == home;
    let witness = tile_num * turns + direction_index;
    law_items_repeat_tiles(plan, tile_num, direction_index);
    vstd::arithmetic::div_mod::lemma_fundamental_div_mod_converse(
        witness,
        turns,
        tile_num,
        direction_index,
    );
    lemma_item_holds(plan, witness, x, y, z);
    assert(plan.item(witness).holds(x, y, z));
    assert forall|n: int|
        0 <= n < plan.item_count() && #[trigger] plan.item(n).holds(x, y, z) && plan.item(
            n,
        ).direction_index == direction_index implies n == witness by {
        lemma_item_holds(plan, n, x, y, z);
        lemma_tile_numbers(plan);
        lemma_split_index(n, plan.tile_count(), turns);
        let t = tiles[n / turns];
        lemma_one_piece(plan.x.start as int, plan.x.end as int, plan.tile.x as int, t.0, x);
        lemma_one_piece(plan.z.start as int, plan.z.end as int, plan.tile.z as int, t.1, z);
        assert(tiles[n / turns] == tiles[tile_num]);
    }
}

/// No work item reaches outside the search volume, and none is empty in X or Z.
pub proof fn law_items_stay_in_the_volume(plan: PlanView, n: int, x: int, y: int, z: int)
    requires
        plan.valid(),
        plan_error(plan) is None,
        0 <= n < plan.item_count(),
    ensures
        plan.item(n).holds(x, y, z) ==> {
            &&& plan.x.start <= x < plan.x.end
            &&& plan.y.start <= y < plan.y.end
            &&& plan.z.start <= z < plan.z.end
        },
        plan.item(n).start.x < plan.item(n).end.x,
        plan.item(n).start.z < plan.item(n).end.z,
        plan.item(n).direction_index < plan.directions.len(),
        plan.item(n).direction == plan.directions[plan.item(n).direction_index as int],
{
    let turns = plan.directions.len() as int;
    lemma_item_holds(plan, n, x, y, z);
    lemma_tile_numbers(plan);
    lemma_split_index(n, plan.tile_count(), turns);
    let t = plan.tiles()[n / turns];
    lemma_tile_start(plan.x.end - plan.x.start, plan.tile.x as int, t.0);
    lemma_tile_start(plan.z.end - plan.z.start, plan.tile.z as int, t.1);
}

/// The sum of `f` over a sequence.
pub open spec fn total<A>(s: Seq<A>, f: spec_fn(A) -> int) -> int
    decreases s.len(),
{
    if s.len() == 0 {
        0
    } else {
        total(s.drop_last(), f) + f(s.last())
    }
}

/// Taking one element out takes its share out of the sum.
proof fn lemma_total_remove<A>(s: Seq<A>, f: spec_fn(A) -> int, i: int)
    requires
        0 <= i < s.len(),
    ensures
        total(s, f) == total(s.remove(i), f) + f(s[i]),
    decreases s.len(),
{
    let t = s.remove(i);
    if i == s.len() - 1 {
        assert(t =~= s.drop_last());
    } else {
        lemma_total_remove(s.drop_last(), f, i);
        assert(t.drop_last() =~= s.drop_last().remove(i));
    }
}

/// A sum does not depend on the order.
proof fn lemma_total_reordered<A>(a: Seq<A>, b: Seq<A>, f: spec_fn(A) -> int)
    requires
        a.no_duplicates(),
        b.no_duplicates(),
        forall|x: A| #[trigger] a.contains(x) <==> b.contains(x),
    ensures
        total(a, f) == total(b, f),
    decreases a.len(),
{
    if a.len() == 0 {
        if b.len() > 0 {
            assert(b.contains(b[0]));
            assert(a.contains(b[0]));
        }
    } else {
        let x = a.last();
        assert(a.contains(x));
        let i = choose|i: int| 0 <= i < b.len() && b[i] == x;
        let (c, d) = (a.drop_last(), b.remove(i));
        assert forall|y: A| #[trigger] c.contains(y) <==> d.contains(y) by {
            if c.contains(y) {
                let k = choose|k: int| 0 <= k < c.len() && c[k] == y;
                assert(a[k] == y);
                assert(a.contains(y));
                let j = choose|j: int| 0 <= j < b.len() && b[j] == y;
                assert(j != i);
                assert(d[if j < i { j } else { j - 1 }] == y);
            }
            if d.contains(y) {
                let k = choose|k: int| 0 <= k < d.len() && d[k] == y;
                let j = if k < i { k } else { k + 1 };
                assert(b[j] == y);
                assert(b.contains(y));
                assert(a.contains(y));
                let m = choose|m: int| 0 <= m < a.len() && a[m] == y;
                assert(m != a.len() - 1);
                assert(c[m] == y);
            }
        }
        assert forall|k: int, m: int| 0 <= k < d.len() && 0 <= m < d.len() && k != m implies d[k]
            != d[m] by {
            assert(d[k] == b[if k < i { k } else { k + 1 }]);
            assert(d[m] == b[if m < i { m } else { m + 1 }]);
        }
        lemma_total_reordered(c, d, f);
        lemma_total_remove(b, f, i);
    }
}

/// How much of a range of `length` values the first `i` pieces of `size` cover.
spec fn cut_length(length: int, size: int, i: int) -> int {
    if i * size <= length { i * size } else { length }
}

/// The length of piece `i` of the cut.
spec fn piece_length(length: int, size: int, i: int) -> int {
    cut_length(length, size, i + 1) - cut_length(length, size, i)
}

/// The number of columns times rows under one tile.
spec fn tile_area(plan: PlanView, t: (int, int)) -> int {
    piece_length(plan.x.end - plan.x.start, plan.tile.x as int, t.0) * piece_length(
        plan.z.end - plan.z.start,
        plan.tile.z as int,
        t.1,
    )
}

/// All pieces together cover the range, and none starts behind its end.
proof fn lemma_cut_complete(length: int, size: int)
    requires
        length >= 0,
        size > 0,
    ensures
        cut_length(length, size, 0) == 0,
        cut_length(length, size, ceil_quotient(length, size)) == length,
{
    let c = ceil_quotient(length, size);
    let s = length + size - 1;
    vstd::arithmetic::div_mod::lemma_fundamental_div_mod(s, size);
    assert(c * size == size * c) by (nonlinear_arith);
    assert(0 * size == 0);
}

/// The area under the first `n` tiles in linear order.
proof fn lemma_linear_area(plan: PlanView, n: int)
    requires
        plan.valid(),
        plan.order == ScanOrder::Linear,
        0 <= n < plan.tile_count(),
    ensures
        total(plan.tiles().take(n), |t: (int, int)| tile_area(plan, t)) == {
            let (ix, iz) = (n / plan.grid().z_tiles, n % plan.grid().z_tiles);
            let (w, d) = (plan.x.end - plan.x.start, plan.z.end - plan.z.start);
            cut_length(w, plan.tile.x as int, ix) * d + piece_length(w, plan.tile.x as int, ix)
                * cut_length(d, plan.tile.z as int, iz)
        },
    decreases n,
{
    let area = |t: (int, int)| tile_area(plan, t);
    let tiles = plan.tiles();
    let zs = plan.grid().z_tiles;
    let (w, d) = (plan.x.end - plan.x.start, plan.z.end - plan.z.start);
    let (tx, tz) = (plan.tile.x as int, plan.tile.z as int);
    lemma_tile_numbers(plan);
    lemma_split_index(n, plan.grid().x_tiles, zs);
    lemma_cut_complete(d, tz);
    lemma_cut_complete(w, tx);
    if n == 0 {
        vstd::arithmetic::div_mod::lemma_fundamental_div_mod_converse(0, zs, 0, 0);
        assert(0 * d == 0);
        assert(piece_length(w, tx, 0) * 0 == 0);
    } else {
        let m = n - 1;
        lemma_linear_area(plan, m);
        lemma_split_index(m, plan.grid().x_tiles, zs);
        let (ix, iz) = (m / zs, m % zs);
        assert(tiles.take(n).drop_last() =~= tiles.take(m));
        assert(tiles.take(n).last() == (ix, iz));
        let p = piece_length(w, tx, ix);
        let (c0, c1) = (cut_length(d, tz, iz), cut_length(d, tz, iz + 1));
        assert(p * c0 + p * (c1 - c0) == p * c1) by (nonlinear_arith);
        if iz + 1 < zs {
            vstd::arithmetic::div_mod::lemma_fundamental_div_mod_converse(n, zs, ix, iz + 1);
        } else {
            assert(ix * zs + zs == (ix + 1) * zs) by (nonlinear_arith);
            vstd::arithmetic::div_mod::lemma_fundamental_div_mod_converse(n, zs, ix + 1, 0);
            let (a0, a1) = (cut_length(w, tx, ix), cut_length(w, tx, ix + 1));
            assert(a0 * d + (a1 - a0) * d == a1 * d) by (nonlinear_arith);
            assert(piece_length(w, tx, ix + 1) * 0 == 0);
        }
    }
}

/// In every scan order the tiles together cover the whole horizontal area.
proof fn lemma_whole_area(plan: PlanView)
    requires
        plan.valid(),
    ensures
        total(plan.tiles(), |t: (int, int)| tile_area(plan, t)) == (plan.x.end - plan.x.start) * (
        plan.z.end - plan.z.start),
{
    let linear = PlanView { order: ScanOrder::Linear, ..plan };
    let area = |t: (int, int)| tile_area(plan, t);
    let linear_area = |t: (int, int)| tile_area(linear, t);
    assert(area =~= linear_area);
    law_tiles_visited_once(plan);
    law_tiles_visited_once(linear);
    lemma_total_reordered(plan.tiles(), linear.tiles(), area);
    lemma_tile_numbers(plan);
    let (w, d) = (plan.x.end - plan.x.start, plan.z.end - plan.z.start);
    let (tx, tz) = (plan.tile.x as int, plan.tile.z as int);
    let (xs, zs) = (plan.grid().x_tiles, plan.grid().z_tiles);
    lemma_cut_complete(w, tx);
    lemma_cut_complete(d, tz);
    if plan.tile_count() == 0 {
        assert(xs == 0 || zs == 0) by (nonlinear_arith)
            requires
                xs * zs == 0,
        ;
        assert(0 * d == 0 && w * 0 == 0);
    } else {
        let n = plan.tile_count() - 1;
        let tiles = linear.tiles();
        lemma_positive_factors(xs, zs);
        lemma_linear_area(linear, n);
        assert(n == (xs - 1) * zs + (zs - 1)) by (nonlinear_arith)
            requires
                n == xs * zs - 1,
        ;
        vstd::arithmetic::div_mod::lemma_fundamental_div_mod_converse(n, zs, xs - 1, zs - 1);
        assert(tiles.drop_last() =~= tiles.take(n));
        let (a0, a1) = (cut_length(w, tx, xs - 1), cut_length(w, tx, xs));
        let (c0, c1) = (cut_length(d, tz, zs - 1), cut_length(d, tz, zs));
        assert(a0 * d + (a1 - a0) * c0 + (a1 - a0) * (c1 - c0) == a1 * d) by (nonlinear_arith)
            requires
                c1 == d,
        ;
    }
}

/// The number of coordinates in the tile of work item `n`.
pub open spec fn item_volume(plan: PlanView, n: int) -> int {
    let item = plan.item(n);
    (item.end.x - item.start.x) * (item.end.y - item.start.y) * (item.end.z - item.start.z)
}

/// The number of coordinates in the first `n` work items.
pub open spec fn scanned_volume(plan: PlanView, n: int) -> int
    decreases n,
{
    if n <= 0 {
        0
    } else {
        scanned_volume(plan, n - 1) + item_volume(plan, n - 1)
    }
}

/// The volume of a work item is the area of its tile times the height.
proof fn lemma_item_volume(plan: PlanView, n: int)
    requires
        plan.valid(),
        plan_error(plan) is None,
        0 <= n < plan.item_count(),
    ensures
        item_volume(plan, n) == tile_area(
            plan,
            plan.tiles()[n / plan.directions.len() as int],
        ) * (plan.y.end - plan.y.start),
{
    lemma_item_holds(plan, n, 0, 0, 0);
    let t = plan.tiles()[n / plan.directions.len() as int];
    let (w, d) = (plan.x.end - plan.x.start, plan.z.end - plan.z.start);
    let (tx, tz) = (plan.tile.x as int, plan.tile.z as int);
    lemma_tile_start(w, tx, t.0);
    lemma_tile_start(d, tz, t.1);
    assert((t.0 + 1) * tx == t.0 * tx + tx) by (nonlinear_arith);
    assert((t.1 + 1) * tz == t.1 * tz + tz) by (nonlinear_arith);
    let item = plan.item(n);
    let (a, b, h) = (
        item.end.x - item.start.x,
        item.end.z - item.start.z,
        plan.y.end - plan.y.start,
    );
    assert(a == piece_length(w, tx, t.0));
    assert(b == piece_length(d, tz, t.1));
    assert(a * h * b == a * b * h) by (nonlinear_arith);
}

/// The volume of the items of the first `k` tiles and of `j` directions of the next.
proof fn lemma_scanned_volume(plan: PlanView, k: int, j: int)
    requires
        plan.valid(),
        plan_error(plan) is None,
        0 <= k <= plan.tile_count(),
        0 <= j <= plan.directions.len(),
        k == plan.tile_count() ==> j == 0,
    ensures
        scanned_volume(plan, k * plan.directions.len() + j) == (plan.y.end - plan.y.start) * (
        plan.directions.len() * total(
            plan.tiles().take(k),
            |t: (int, int)| tile_area(plan, t),
        ) + j * (if k < plan.tile_count() { tile_area(plan, plan.tiles()[k]) } else { 0 })),
    decreases k, j,
{
    let turns = plan.directions.len() as int;
    let tiles = plan.tiles();
    let area = |t: (int, int)| tile_area(plan, t);
    let h = plan.y.end - plan.y.start;
    law_tiles_visited_once(plan);
    if j > 0 {
        lemma_scanned_volume(plan, k, j - 1);
        law_items_repeat_tiles(plan, k, j - 1);
        let n = k * turns + (j - 1);
        vstd::arithmetic::div_mod::lemma_fundamental_div_mod_converse(n, turns, k, j - 1);
        lemma_item_volume(plan, n);
        let (s, a) = (total(tiles.take(k), area), tile_area(plan, tiles[k]));
        assert(h * (turns * s + (j - 1) * a) + a * h == h * (turns * s + j * a))
            by (nonlinear_arith);
    } else if k > 0 {
        lemma_scanned_volume(plan, k - 1, turns);
        assert((k - 1) * turns + turns == k * turns) by (nonlinear_arith);
        assert(tiles.take(k).drop_last() =~= tiles.take(k - 1));
        let (s, a) = (total(tiles.take(k - 1), area), tile_area(plan, tiles[k - 1]));
        assert(turns * s + turns * a == turns * (s + a)) by (nonlinear_arith);
        let b = if k < plan.tile_count() { tile_area(plan, tiles[k]) } else { 0 };
        assert(0 * b == 0);
    } else {
        assert(0 * turns == 0);
        assert(tiles.take(0).len() == 0);
        assert(turns * 0 == 0);
        let b = if k < plan.tile_count() { tile_area(plan, tiles[k]) } else { 0 };
        assert(0 * b == 0);
        assert(h * 0 == 0);
    }
}

/// The work items together hold as many candidates as the whole search: the
/// volume of the scan ranges, once for every direction.
pub proof fn law_item_volumes_add_up(plan: PlanView)
    requires
        plan.valid(),
        plan_error(plan) is None,
    ensures
        scanned_volume(plan, plan.item_count()) == (plan.x.end - plan.x.start) * (plan.y.end
            - plan.y.start) * (plan.z.end - plan.z.start) * plan.directions.len(),
{
    let turns = plan.directions.len() as int;
    lemma_tile_numbers(plan);
    law_tiles_visited_once(plan);
    lemma_whole_area(plan);
    lemma_scanned_volume(plan, plan.tile_count(), 0);
    assert(plan.tiles().take(plan.tile_count()) =~= plan.tiles());
    let (w, h, d) = (
        plan.x.end - plan.x.start,
        plan.y.end - plan.y.start,
        plan.z.end - plan.z.start,
    );
    assert(h * (turns * (w * d) + 0 * 0) == w * h * d * turns) by (nonlinear_arith);
}

/// Products of up to four factors, unrolled.
proof fn lemma_product_of_four(a: int, b: int, c: int, d: int)
    ensures
        bounded_product(seq![a, b, c, d]) == (if a <= u64::MAX && a * b <= u64::MAX && a * b * c
            <= u64::MAX && a * b * c * d <= u64::MAX {
            Some(a * b * c * d)
        } else {
            None
        }),
{
    assert(seq![a, b, c, d].drop_last() =~= seq![a, b, c]);
    assert(seq![a, b, c].drop_last() =~= seq![a, b]);
    assert(seq![a, b].drop_last() =~= seq![a]);
    assert(seq![a].drop_last() =~= Seq::<int>::empty());
    reveal_with_fuel(bounded_product, 5);
    assert(1 * a == a);
}

/// The announced candidate total, if it did not saturate, is what the work items
/// hold together. For a search that is not empty it saturates only when the true
/// total does not fit in 64 bits.
pub proof fn law_candidate_total(plan: PlanView)
    requires
        plan.valid(),
        plan_error(plan) is None,
        plan.y.start <= plan.y.end,
    ensures
        plan.candidates() matches Some(count) ==> count == scanned_volume(
            plan,
            plan.item_count(),
        ),
        plan.x.start < plan.x.end && plan.y.start < plan.y.end && plan.z.start < plan.z.end
            && plan.directions.len() > 0 ==> (plan.candidates() is Some <==> scanned_volume(
            plan,
            plan.item_count(),
        ) <= u64::MAX),
{
    law_item_volumes_add_up(plan);
    let (a, b, c, d) = (
        plan.x.end - plan.x.start,
        plan.y.end - plan.y.start,
        plan.z.end - plan.z.start,
        plan.directions.len() as int,
    );
    lemma_product_of_four(a, b, c, d);
    if a > 0 && b > 0 && c > 0 && d > 0 {
        let (ab, abc) = (a * b, a * b * c);
        assert(ab >= a) by (nonlinear_arith)
            requires
                a > 0,
                b > 0,
                ab == a * b,
        ;
        assert(abc >= ab) by (nonlinear_arith)
            requires
                ab > 0,
                c > 0,
                abc == ab * c,
        ;
        assert(abc * d >= abc) by (nonlinear_arith)
            requires
                abc > 0,
                d > 0,
        ;
    }
}

} // verus!
