//! Backend-independent scan planning.
//!
//! Plans split the X/Z search area into half-open tiles. Each tile is repeated
//! for every requested direction; all backends consume the same plan.

use vstd::prelude::*;
use vstd::string::*;
use crate::config::{IntRange, ScanConfig, ScanOrder, Settings, TileSize};
use crate::number::{decimal, push_nat};
use crate::spiral::{
    law_spiral_visits_every_tile_once, lemma_covered_all, lemma_covered_step, lemma_ring_position,
    lemma_rings_len, lemma_rings_prefix, max_int, min_int, Grid,
};
use crate::types::Int3;

verus! {

/// A half-open 3D tile paired with one structure direction.
#[derive(Clone, Copy, Debug, PartialEq, Eq, Structural)]
pub struct WorkItem {
    pub start: Int3,
    pub end: Int3,
    pub direction_index: usize,
    pub direction: i32,
}

impl WorkItem {
    /// The item's tile holds a coordinate.
    pub open spec fn holds(self, x: int, y: int, z: int) -> bool {
        self.start.x <= x < self.end.x && self.start.y <= y < self.end.y && self.start.z <= z
            < self.end.z
    }
}

/// Maps work numbers to ordered work items without storing the item sequence.
#[derive(Clone, Debug)]
pub struct ScanPlan<'a> {
    x_start: i32,
    x_end: i32,
    y_start: i32,
    y_end: i32,
    z_start: i32,
    z_end: i32,
    tile_x: u64,
    tile_z: u64,
    x_tiles: u64,
    z_tiles: u64,
    directions: &'a [i32],
    scan_order: ScanOrder,
    center_x: i64,
    center_z: i64,
    max_radius: i64,
    total_items: usize,
    pub total_candidates: u64,
    pub total_candidates_saturated: bool,
}

/// Sequential view over an immutable [`ScanPlan`].
#[derive(Clone, Debug)]
pub struct WorkItems<'plan, 'config> {
    plan: &'plan ScanPlan<'config>,
    next: usize,
}

/// The number of coordinates in `start..end`, as a 64-bit word: an inverted
/// range wraps around.
pub open spec fn span_of(start: int, end: int) -> int {
    (end - start) % 0x1_0000_0000_0000_0000
}

/// Returns the number of coordinates in `start..end`.
fn span(start: i32, end: i32) -> (n: u64)
    ensures
        n == span_of(start as int, end as int),
        start <= end ==> n == end - start,
{
    let difference: i64 = end as i64 - start as i64;
    proof {
        let wrapped: u64 = difference as u64;
        assert(wrapped as int == difference as int % 0x1_0000_0000_0000_0000) by (bit_vector)
            requires
                wrapped == difference as u64,
        ;
    }
    difference as u64
}

/// The product of all factors, if it and every product of leading factors fits
/// in 64 bits.
pub open spec fn bounded_product(factors: Seq<int>) -> Option<int>
    decreases factors.len(),
{
    if factors.len() == 0 {
        Some(1int)
    } else {
        match bounded_product(factors.drop_last()) {
            Some(product) if product * factors.last() <= u64::MAX => Some(
                product * factors.last(),
            ),
            _ => None,
        }
    }
}

/// Multiplies all factors, unless a product on the way overflows.
fn checked_product(factors: &[u64]) -> (product: Option<u64>)
    ensures
        bounded_product(factors@.map_values(|f: u64| f as int)) == (match product {
            Some(value) => Some(value as int),
            None => None,
        }),
{
    let ghost ints = factors@.map_values(|f: u64| f as int);
    let mut product: u64 = 1;
    let mut i: usize = 0;
    while i < factors.len()
        invariant
            i <= factors.len(),
            ints == factors@.map_values(|f: u64| f as int),
            bounded_product(ints.take(i as int)) == Some(product as int),
        decreases factors.len() - i,
    {
        assert(ints.take(i + 1).drop_last() =~= ints.take(i as int));
        match product.checked_mul(factors[i]) {
            Some(value) => {
                product = value;
            },
            None => {
                proof {
                    lemma_bounded_product_prefix(ints, i + 1);
                }
                return None;
            },
        }
        i = i + 1;
    }
    assert(ints.take(i as int) =~= ints);
    Some(product)
}

/// Once a leading product overflows, so does the whole.
proof fn lemma_bounded_product_prefix(factors: Seq<int>, n: int)
    requires
        0 <= n <= factors.len(),
        bounded_product(factors.take(n)) is None,
    ensures
        bounded_product(factors) is None,
    decreases factors.len() - n,
{
    if n < factors.len() {
        assert(factors.take(n + 1).drop_last() =~= factors.take(n));
        lemma_bounded_product_prefix(factors, n + 1);
    } else {
        assert(factors.take(n) =~= factors);
    }
}

/// The result of a count that saturates at the largest 64-bit number, and
/// whether it did.
pub open spec fn saturated(count: Option<int>) -> (int, bool) {
    match count {
        Some(value) => (value, false),
        None => (u64::MAX as int, true),
    }
}

/// Returns the number of coordinates in a work item and whether it overflowed.
pub fn candidate_count(item: &WorkItem) -> (count: (u64, bool))
    ensures
        (count.0 as int, count.1) == saturated(
            bounded_product(
                seq![
                    span_of(item.start.x as int, item.end.x as int),
                    span_of(item.start.y as int, item.end.y as int),
                    span_of(item.start.z as int, item.end.z as int),
                ],
            ),
        ),
{
    let dimensions: [u64; 3] = [
        span(item.start.x, item.end.x),
        span(item.start.y, item.end.y),
        span(item.start.z, item.end.z),
    ];
    assert(dimensions@.map_values(|f: u64| f as int) =~= seq![
        span_of(item.start.x as int, item.end.x as int),
        span_of(item.start.y as int, item.end.y as int),
        span_of(item.start.z as int, item.end.z as int),
    ]);
    match checked_product(&dimensions) {
        Some(count) => (count, false),
        None => (u64::MAX, true),
    }
}

/// `a / b`, rounded up.
pub open spec fn ceil_quotient(a: int, b: int) -> int {
    (a + b - 1) / b
}

/// Returns `a / b`, rounded up.
fn div_ceil(a: u64, b: u64) -> (q: u64)
    requires
        b > 0,
    ensures
        q == ceil_quotient(a as int, b as int),
        q <= a,
{
    let q: u64 = a / b;
    let r: u64 = a % b;
    proof {
        assert(a == b * q + r && 0 <= r < b) by (nonlinear_arith)
            requires
                b > 0,
                q == a / b,
                r == a % b,
        ;
        if r == 0 {
            vstd::arithmetic::div_mod::lemma_fundamental_div_mod_converse(
                a + b - 1,
                b as int,
                q as int,
                b - 1,
            );
        } else {
            assert(b * (q + 1) == b * q + b) by (nonlinear_arith);
            vstd::arithmetic::div_mod::lemma_fundamental_div_mod_converse(
                a + b - 1,
                b as int,
                q + 1,
                r - 1,
            );
        }
        assert(q <= b * q) by (nonlinear_arith)
            requires
                b > 0,
                q >= 0,
        ;
    }
    if r == 0 {
        q
    } else {
        q + 1
    }
}

/// What a plan covers, and in which order.
pub struct PlanView {
    pub x: IntRange,
    pub y: IntRange,
    pub z: IntRange,
    pub tile: TileSize,
    pub directions: Seq<i32>,
    pub order: ScanOrder,
}

impl PlanView {
    /// The horizontal ranges are not inverted and the tiles not empty.
    pub open spec fn valid(self) -> bool {
        &&& self.x.start <= self.x.end
        &&& self.z.start <= self.z.end
        &&& self.tile.x > 0
        &&& self.tile.z > 0
    }

    /// The tiles that the horizontal area is cut into.
    pub open spec fn grid(self) -> Grid {
        Grid {
            x_tiles: ceil_quotient(self.x.end - self.x.start, self.tile.x as int),
            z_tiles: ceil_quotient(self.z.end - self.z.start, self.tile.z as int),
        }
    }

    /// The number of tiles.
    pub open spec fn tile_count(self) -> int {
        self.grid().x_tiles * self.grid().z_tiles
    }

    /// The number of work items: every tile once for every direction.
    pub open spec fn item_count(self) -> int {
        self.tile_count() * self.directions.len()
    }

    /// All tiles in scan order. The linear order runs from the minimum corner to
    /// the maximum corner, the spiral from the center outward, and the reverse
    /// spiral along the same path inward.
    pub open spec fn tiles(self) -> Seq<(int, int)> {
        match self.order {
            ScanOrder::Linear => Seq::new(
                self.tile_count() as nat,
                |n: int| (n / self.grid().z_tiles, n % self.grid().z_tiles),
            ),
            ScanOrder::Spiral => self.grid().spiral(),
            ScanOrder::ReverseSpiral => self.grid().spiral().reverse(),
        }
    }

    /// The part of the search volume under one tile, for one direction.
    pub open spec fn item_for(self, tile: (int, int), direction_index: int) -> WorkItem {
        let x = self.x.start + tile.0 * self.tile.x;
        let z = self.z.start + tile.1 * self.tile.z;
        WorkItem {
            start: Int3 { x: x as i32, y: self.y.start, z: z as i32 },
            end: Int3 {
                x: min_int(x + self.tile.x, self.x.end as int) as i32,
                y: self.y.end,
                z: min_int(z + self.tile.z, self.z.end as int) as i32,
            },
            direction_index: direction_index as usize,
            direction: self.directions[direction_index],
        }
    }

    /// Work item `n`: the tiles in scan order, each repeated for every direction.
    pub open spec fn item(self, n: int) -> WorkItem {
        let turns = self.directions.len() as int;
        self.item_for(self.tiles()[n / turns], n % turns)
    }

    /// The number of candidates: coordinates in the search volume times directions.
    pub open spec fn candidates(self) -> Option<int> {
        bounded_product(
            seq![
                span_of(self.x.start as int, self.x.end as int),
                span_of(self.y.start as int, self.y.end as int),
                span_of(self.z.start as int, self.z.end as int),
                self.directions.len() as int,
            ],
        )
    }
}

/// The plan that settings and a tile size describe.
pub open spec fn plan_of(settings: Settings, tile_size: TileSize) -> PlanView {
    PlanView {
        x: settings.x_range,
        y: settings.y_range,
        z: settings.z_range,
        tile: tile_size,
        directions: settings.directions,
        order: settings.scan_order,
    }
}

/// Why a plan cannot be built, if so.
pub open spec fn plan_error(plan: PlanView) -> Option<Seq<char>> {
    if plan.tile.x <= 0 || plan.tile.z <= 0 {
        Some("tile dimensions must be positive"@)
    } else if plan.item_count() > u64::MAX {
        Some("scan contains too many work items"@)
    } else if plan.item_count() > usize::MAX {
        Some("scan contains too many work items for this build"@)
    } else {
        None
    }
}

/// The middle of a row of `tiles` tiles; the lower one of two.
pub open spec fn middle_tile(tiles: int) -> int {
    if tiles > 0 { (tiles - 1) / 2 } else { 0 }
}

/// Returns the middle of a row of tiles; the lower one of two.
fn middle(tiles: u64) -> (m: i64)
    requires
        tiles <= u32::MAX,
    ensures
        m == middle_tile(tiles as int),
{
    if tiles == 0 {
        0
    } else {
        (tiles as i64 - 1) / 2
    }
}

/// Returns the larger of two numbers.
fn larger(a: i64, b: i64) -> (m: i64)
    ensures
        m == max_int(a as int, b as int),
{
    if a >= b {
        a
    } else {
        b
    }
}

/// Returns the smaller of two numbers.
fn smaller(a: i64, b: i64) -> (m: i64)
    ensures
        m == min_int(a as int, b as int),
{
    if a <= b {
        a
    } else {
        b
    }
}

/// The summary of a plan: its number of work items and of candidates, which is a
/// lower bound where the count saturated.
pub open spec fn plan_summary(label: Seq<char>, items: int, candidates: (int, bool)) -> Seq<
    char,
> {
    let count = if candidates.1 {
        ">= "@ + decimal(candidates.0) + " (display saturated)"@
    } else {
        decimal(candidates.0)
    };
    label + " plan: "@ + decimal(items) + " work items; candidates: "@ + count + "."@
}

/// Builds a lazy tile sequence for a scan configuration.
///
/// Candidate totals saturate at [`u64::MAX`]. The plan itself uses constant
/// memory regardless of the number of work items.
pub fn make_plan(config: &ScanConfig, tile_size: TileSize) -> (result: Result<
    ScanPlan<'_>,
    String,
>)
    requires
        config.x_range.start <= config.x_range.end,
        config.z_range.start <= config.z_range.end,
    ensures
        match plan_error(plan_of(config@, tile_size)) {
            Some(message) => result matches Err(error) && error@ == message,
            None => {
                &&& result matches Ok(plan)
                &&& plan.wf()
                &&& plan@ == plan_of(config@, tile_size)
                &&& plan.candidate_total() == saturated(plan_of(config@, tile_size).candidates())
            },
        },
{
    if tile_size.x <= 0 || tile_size.z <= 0 {
        return Err("tile dimensions must be positive".to_owned());
    }
    let ghost view = plan_of(config@, tile_size);
    let x_span: u64 = span(config.x_range.start, config.x_range.end);
    let z_span: u64 = span(config.z_range.start, config.z_range.end);
    let tile_x: u64 = tile_size.x as u64;
    let tile_z: u64 = tile_size.z as u64;
    let x_tiles: u64 = div_ceil(x_span, tile_x);
    let z_tiles: u64 = div_ceil(z_span, tile_z);
    proof {
        assert(x_tiles * z_tiles <= u64::MAX) by (nonlinear_arith)
            requires
                x_tiles <= u32::MAX,
                z_tiles <= u32::MAX,
        ;
    }
    let directions: &[i32] = config.directions.as_slice();
    let tile_count: u64 = x_tiles * z_tiles;
    let work_count: u64 = match tile_count.checked_mul(directions.len() as u64) {
        Some(count) => count,
        None => {
            return Err("scan contains too many work items".to_owned());
        },
    };
    if work_count > usize::MAX as u64 {
        return Err("scan contains too many work items for this build".to_owned());
    }
    let total_items: usize = work_count as usize;

    let center_x: i64 = middle(x_tiles);
    let center_z: i64 = middle(z_tiles);
    let max_radius: i64 = larger(
        larger(center_x, center_z),
        larger(x_tiles as i64 - 1 - center_x, z_tiles as i64 - 1 - center_z),
    );
    let dimensions: [u64; 4] = [
        x_span,
        span(config.y_range.start, config.y_range.end),
        z_span,
        directions.len() as u64,
    ];
    assert(dimensions@.map_values(|f: u64| f as int) =~= seq![
        span_of(view.x.start as int, view.x.end as int),
        span_of(view.y.start as int, view.y.end as int),
        span_of(view.z.start as int, view.z.end as int),
        view.directions.len() as int,
    ]);
    let (total_candidates, total_candidates_saturated) = match checked_product(&dimensions) {
        Some(count) => (count, false),
        None => (u64::MAX, true),
    };

    Ok(
        ScanPlan {
            x_start: config.x_range.start,
            x_end: config.x_range.end,
            y_start: config.y_range.start,
            y_end: config.y_range.end,
            z_start: config.z_range.start,
            z_end: config.z_range.end,
            tile_x,
            tile_z,
            x_tiles,
            z_tiles,
            directions,
            scan_order: config.scan_order,
            center_x,
            center_z,
            max_radius,
            total_items,
            total_candidates,
            total_candidates_saturated,
        },
    )
}

impl<'a> View for ScanPlan<'a> {
    type V = PlanView;

    closed spec fn view(&self) -> PlanView {
        PlanView {
            x: IntRange { start: self.x_start, end: self.x_end },
            y: IntRange { start: self.y_start, end: self.y_end },
            z: IntRange { start: self.z_start, end: self.z_end },
            tile: TileSize { x: self.tile_x as i32, z: self.tile_z as i32 },
            directions: self.directions@,
            order: self.scan_order,
        }
    }
}

/// A tile of the grid lies inside the range that was cut.
pub proof fn lemma_tile_start(length: int, tile: int, i: int)
    requires
        length >= 0,
        tile > 0,
        0 <= i < ceil_quotient(length, tile),
    ensures
        0 <= i * tile < length,
{
    let q = ceil_quotient(length, tile);
    assert(tile * q <= length + tile - 1) by (nonlinear_arith)
        requires
            tile > 0,
            q == (length + tile - 1) / tile,
    ;
    assert(0 <= i * tile && i * tile + tile <= tile * q) by (nonlinear_arith)
        requires
            tile > 0,
            0 <= i <= q - 1,
    ;
}

/// A number below `rows * columns`, written as a row and a column.
pub proof fn lemma_split_index(n: int, rows: int, columns: int)
    requires
        0 <= n < rows * columns,
        rows >= 0,
        columns >= 0,
    ensures
        columns > 0,
        0 <= n / columns < rows,
        0 <= n % columns < columns,
        n == (n / columns) * columns + n % columns,
{
    assert(columns > 0) by (nonlinear_arith)
        requires
            0 <= n < rows * columns,
            columns >= 0,
    ;
    vstd::arithmetic::div_mod::lemma_fundamental_div_mod(n, columns);
    vstd::arithmetic::div_mod::lemma_div_pos_is_pos(n, columns);
    assert(n / columns < rows) by (nonlinear_arith)
        requires
            n < rows * columns,
            n == columns * (n / columns) + n % columns,
            n % columns >= 0,
            columns > 0,
    ;
    assert((n / columns) * columns == columns * (n / columns)) by (nonlinear_arith);
}

/// Two factors of a positive product are positive.
pub proof fn lemma_positive_factors(a: int, b: int)
    requires
        a >= 0,
        b >= 0,
        a * b > 0,
    ensures
        a >= 1,
        b >= 1,
{
    assert(a >= 1 && b >= 1) by (nonlinear_arith)
        requires
            a >= 0,
            b >= 0,
            a * b > 0,
    ;
}

impl<'a> ScanPlan<'a> {
    /// The stored numbers are those of the plan that the view describes.
    pub closed spec fn wf(self) -> bool {
        &&& self@.valid()
        &&& self.tile_x == self@.tile.x
        &&& self.tile_z == self@.tile.z
        &&& self.x_tiles == self@.grid().x_tiles
        &&& self.z_tiles == self@.grid().z_tiles
        &&& self.x_tiles <= u32::MAX
        &&& self.z_tiles <= u32::MAX
        &&& self.center_x == middle_tile(self.x_tiles as int)
        &&& self.center_z == middle_tile(self.z_tiles as int)
        &&& self@.grid().inhabited() ==> self.max_radius == self@.grid().max_radius()
        &&& self.total_items == self@.item_count()
    }

    /// The fields `total_candidates` and `total_candidates_saturated`.
    pub closed spec fn candidate_total(self) -> (int, bool) {
        (self.total_candidates as int, self.total_candidates_saturated)
    }

    /// Returns the total number of work items.
    pub fn total_items(&self) -> (n: usize)
        requires
            self.wf(),
        ensures
            n == self@.item_count(),
    {
        self.total_items
    }

    /// Returns a summary of the plan in one line.
    pub fn summary(&self, label: &str) -> (text: String)
        requires
            self.wf(),
        ensures
            text@ == plan_summary(label@, self@.item_count(), self.candidate_total()),
    {
        let mut text: String = label.to_owned();
        text.append(" plan: ");
        push_nat(&mut text, self.total_items as u64);
        text.append(" work items; candidates: ");
        if self.total_candidates_saturated {
            text.append(">= ");
            push_nat(&mut text, self.total_candidates);
            text.append(" (display saturated)");
        } else {
            push_nat(&mut text, self.total_candidates);
        }
        text.append(".");
        assert(text@ =~= plan_summary(label@, self@.item_count(), self.candidate_total()));
        text
    }

    /// Converts a work number to its tile and direction.
    pub fn work_item(&self, work_num: usize) -> (item: Option<WorkItem>)
        requires
            self.wf(),
        ensures
            item == (if work_num < self@.item_count() {
                Some(self@.item(work_num as int))
            } else {
                None
            }),
    {
        if work_num >= self.total_items {
            return None;
        }
        let ghost grid = self@.grid();
        let turns: usize = self.directions.len();
        proof {
            lemma_split_index(work_num as int, self@.tile_count(), turns as int);
            lemma_positive_factors(grid.x_tiles, grid.z_tiles);
        }
        let direction_index: usize = work_num % turns;
        let tile_num: u64 = (work_num / turns) as u64;
        proof {
            law_spiral_visits_every_tile_once(grid);
        }
        let (tile_index_x, tile_index_z): (u64, u64) = match self.scan_order {
            ScanOrder::Linear => {
                proof {
                    lemma_split_index(tile_num as int, grid.x_tiles, grid.z_tiles);
                }
                (tile_num / self.z_tiles, tile_num % self.z_tiles)
            },
            ScanOrder::Spiral => self.spiral_tile(tile_num),
            ScanOrder::ReverseSpiral => {
                proof {
                    assert(self.x_tiles * self.z_tiles <= u64::MAX) by (nonlinear_arith)
                        requires
                            self.x_tiles <= u32::MAX,
                            self.z_tiles <= u32::MAX,
                    ;
                }
                let tile_count: u64 = self.x_tiles * self.z_tiles;
                self.spiral_tile(tile_count - 1 - tile_num)
            },
        };
        proof {
            assert(self@.tiles()[tile_num as int] == (tile_index_x as int, tile_index_z as int));
            lemma_tile_start(self.x_end - self.x_start, self.tile_x as int, tile_index_x as int);
            lemma_tile_start(self.z_end - self.z_start, self.tile_z as int, tile_index_z as int);
        }
        let x_start: i64 = self.x_start as i64 + (tile_index_x * self.tile_x) as i64;
        let z_start: i64 = self.z_start as i64 + (tile_index_z * self.tile_z) as i64;
        Some(
            WorkItem {
                start: Int3 { x: x_start as i32, y: self.y_start, z: z_start as i32 },
                end: Int3 {
                    x: smaller(x_start + self.tile_x as i64, self.x_end as i64) as i32,
                    y: self.y_end,
                    z: smaller(z_start + self.tile_z as i64, self.z_end as i64) as i32,
                },
                direction_index,
                direction: self.directions[direction_index],
            },
        )
    }

    /// Returns a sequential iterator over all work items.
    pub fn iter(&self) -> (items: WorkItems<'_, 'a>)
        requires
            self.wf(),
        ensures
            items.wf(),
            items.plan() == self@,
            items.position() == 0,
    {
        WorkItems { plan: self, next: 0 }
    }

    /// Returns the number of tiles on the rings up to a radius.
    pub fn covered_tiles(&self, radius: i64) -> (n: u64)
        requires
            self.wf(),
            self@.grid().inhabited(),
            0 <= radius <= i64::MAX - u32::MAX,
        ensures
            n == self@.grid().covered(radius as int),
    {
        let x_min: i64 = larger(self.center_x - radius, 0);
        let x_max: i64 = smaller(self.center_x + radius, self.x_tiles as i64 - 1);
        let z_min: i64 = larger(self.center_z - radius, 0);
        let z_max: i64 = smaller(self.center_z + radius, self.z_tiles as i64 - 1);
        let columns: u64 = (x_max - x_min + 1) as u64;
        let rows: u64 = (z_max - z_min + 1) as u64;
        proof {
            assert(columns * rows <= u64::MAX) by (nonlinear_arith)
                requires
                    columns <= u32::MAX,
                    rows <= u32::MAX,
            ;
        }
        columns * rows
    }

    /// Returns the tile at one position of the spiral.
    pub fn spiral_tile(&self, tile_num: u64) -> (tile: (u64, u64))
        requires
            self.wf(),
            self@.grid().inhabited(),
            tile_num < self@.tile_count(),
        ensures
            self@.grid().has((tile.0 as int, tile.1 as int)),
            (tile.0 as int, tile.1 as int) == self@.grid().spiral()[tile_num as int],
    {
        let ghost grid = self@.grid();
        proof {
            lemma_covered_all(grid);
        }
        let mut low: i64 = 0;
        let mut high: i64 = self.max_radius;
        while low < high
            invariant
                self.wf(),
                grid == self@.grid(),
                grid.inhabited(),
                0 <= low <= high <= self.max_radius,
                tile_num < grid.covered(high as int),
                low > 0 ==> grid.covered(low - 1) <= tile_num,
            decreases high - low,
        {
            let radius: i64 = low + (high - low) / 2;
            if tile_num < self.covered_tiles(radius) {
                high = radius;
            } else {
                low = radius + 1;
            }
        }
        let radius: i64 = low;
        proof {
            lemma_rings_prefix(grid, radius as int, grid.max_radius());
            lemma_rings_len(grid, radius as int);
            law_spiral_visits_every_tile_once(grid);
            assert(grid.spiral().contains(grid.spiral()[tile_num as int]));
        }
        if radius == 0 {
            assert(grid.columns_to(0) == 1 && grid.rows_to(0) == 1);
            return (self.center_x as u64, self.center_z as u64);
        }
        let mut offset: u64 = tile_num - self.covered_tiles(radius - 1);
        let mut edge: usize = 0;
        proof {
            lemma_rings_len(grid, radius - 1);
            lemma_covered_step(grid, radius as int);
            reveal_with_fuel(Grid::edges_before, 5);
        }
        loop
            invariant
                self.wf(),
                grid == self@.grid(),
                grid.inhabited(),
                1 <= radius <= self.max_radius,
                0 <= edge < 4,
                offset + grid.covered(radius - 1) + grid.edges_before(radius as int, edge as int)
                    == tile_num,
                tile_num < grid.covered(radius - 1) + grid.edges_before(radius as int, 4),
                grid.rings_to(radius as int).is_prefix_of(grid.spiral()),
                grid.has(grid.spiral()[tile_num as int]),
            decreases 4 - edge,
        {
            let run: EdgeRun = self.clipped_edge(radius, edge);
            if offset < run.len {
                proof {
                    lemma_ring_position(grid, radius as int, edge as int, offset as int);
                }
                let position: i64 = if run.forward {
                    run.first + offset as i64
                } else {
                    run.first - offset as i64
                };
                if run.in_column {
                    return (run.fixed as u64, position as u64);
                } else {
                    return (position as u64, run.fixed as u64);
                }
            }
            offset = offset - run.len;
            edge = edge + 1;
        }
    }

    /// Returns what one edge of a ring leaves inside the grid. Each corner
    /// belongs to exactly one edge, in clockwise order: right, top, left, then
    /// bottom.
    fn clipped_edge(&self, radius: i64, edge: usize) -> (run: EdgeRun)
        requires
            self.wf(),
            self@.grid().inhabited(),
            1 <= radius <= self.max_radius,
            edge < 4,
        ensures
            run.len == self@.grid().edge_len(radius as int, edge as int),
            forall|k: int|
                0 <= k < run.len ==> run.tile(k) == #[trigger] self@.grid().edge_tile(
                    radius as int,
                    edge as int,
                    k,
                ),
            -1 <= run.first <= u32::MAX,
    {
        let ghost grid = self@.grid();
        let x_max: i64 = self.x_tiles as i64 - 1;
        let z_max: i64 = self.z_tiles as i64 - 1;
        let (fixed, start, end, forward, in_column): (i64, i64, i64, bool, bool) = match edge {
            0 => (
                self.center_x + radius,
                self.center_z - radius + 1,
                self.center_z + radius,
                true,
                true,
            ),
            1 => (
                self.center_z + radius,
                self.center_x + radius - 1,
                self.center_x - radius,
                false,
                false,
            ),
            2 => (
                self.center_x - radius,
                self.center_z + radius - 1,
                self.center_z - radius,
                false,
                true,
            ),
            _ => (
                self.center_z - radius,
                self.center_x - radius + 1,
                self.center_x + radius,
                true,
                false,
            ),
        };
        let fixed_max: i64 = if in_column { x_max } else { z_max };
        let variable_max: i64 = if in_column { z_max } else { x_max };
        if fixed < 0 || fixed > fixed_max {
            return EdgeRun { len: 0, fixed, first: 0, forward, in_column };
        }
        let first: i64 = if forward {
            larger(start, 0)
        } else {
            smaller(start, variable_max)
        };
        let last: i64 = if forward {
            smaller(end, variable_max)
        } else {
            larger(end, 0)
        };
        let len: u64 = if forward {
            (last - first) as u64 + 1
        } else {
            (first - last) as u64 + 1
        };
        EdgeRun { len, fixed, first, forward, in_column }
    }
}

/// The tiles of one ring edge inside the grid: `len` tiles along the column or
/// row `fixed`, from `first` on, forward or backward.
struct EdgeRun {
    len: u64,
    fixed: i64,
    first: i64,
    forward: bool,
    in_column: bool,
}

impl EdgeRun {
    /// The `k`-th tile of the run.
    spec fn tile(self, k: int) -> (int, int) {
        let position = if self.forward { self.first + k } else { self.first - k };
        if self.in_column { (self.fixed as int, position) } else { (position, self.fixed as int) }
    }
}

impl<'plan, 'config> WorkItems<'plan, 'config> {
    /// The position is inside the plan, or just behind its last item.
    pub closed spec fn wf(self) -> bool {
        self.plan.wf() && self.next <= self.plan@.item_count()
    }

    /// The plan that is walked.
    pub closed spec fn plan(self) -> PlanView {
        self.plan@
    }

    /// The number of the next work item.
    pub closed spec fn position(self) -> int {
        self.next as int
    }

    /// Returns the next work item and steps over it.
    pub fn next(&mut self) -> (item: Option<WorkItem>)
        requires
            old(self).wf(),
        ensures
            final(self).wf(),
            final(self).plan() == old(self).plan(),
            if old(self).position() < old(self).plan().item_count() {
                &&& item == Some(old(self).plan().item(old(self).position()))
                &&& final(self).position() == old(self).position() + 1
            } else {
                &&& item is None
                &&& final(self).position() == old(self).position()
            },
    {
        match self.plan.work_item(self.next) {
            Some(item) => {
                self.next = self.next + 1;
                Some(item)
            },
            None => None,
        }
    }

    /// Returns all remaining work items, in order.
    pub fn collect(self) -> (items: Vec<WorkItem>)
        requires
            self.wf(),
        ensures
            items@ == Seq::new(
                (self.plan().item_count() - self.position()) as nat,
                |i: int| self.plan().item(self.position() + i),
            ),
    {
        let mut rest: WorkItems<'plan, 'config> = self;
        let mut items: Vec<WorkItem> = Vec::new();
        let ghost plan = self.plan();
        let ghost first = self.position();
        loop
            invariant
                rest.wf(),
                rest.plan() == plan,
                rest.position() == first + items.len(),
                plan == self.plan(),
                first == self.position(),
                forall|i: int| 0 <= i < items.len() ==> #[trigger] items[i] == plan.item(first + i),
            decreases plan.item_count() - rest.position(),
        {
            match rest.next() {
                Some(item) => {
                    items.push(item);
                },
                None => {
                    assert(items@ =~= Seq::new(
                        (plan.item_count() - first) as nat,
                        |i: int| plan.item(first + i),
                    ));
                    return items;
                },
            }
        }
    }

    /// Returns the number of remaining work items.
    pub fn len(&self) -> (n: usize)
        requires
            self.wf(),
        ensures
            n == self.plan().item_count() - self.position(),
    {
        self.plan.total_items - self.next
    }

    /// Returns the exact number of remaining work items, as lower and upper bound.
    pub fn size_hint(&self) -> (hint: (usize, Option<usize>))
        requires
            self.wf(),
        ensures
            hint.0 == self.plan().item_count() - self.position(),
            hint.1 == Some(hint.0),
    {
        let remaining: usize = self.plan.total_items - self.next;
        (remaining, Some(remaining))
    }
}

/// The view of a plan holds its bounds, its directions and its order as they are.
proof fn law_plan_view(plan: ScanPlan<'_>)
    requires
        plan.wf(),
    ensures
        plan@.x.start == plan.x_start,
        plan@.x.end == plan.x_end,
        plan@.y.start == plan.y_start,
        plan@.y.end == plan.y_end,
        plan@.z.start == plan.z_start,
        plan@.z.end == plan.z_end,
        plan@.tile.x == plan.tile_x,
        plan@.tile.z == plan.tile_z,
        plan@.directions == plan.directions@,
        plan@.order == plan.scan_order,
        plan@.item_count() == plan.total_items,
        plan.candidate_total() == (
            plan.total_candidates as int,
            plan.total_candidates_saturated,
        ),
{
}

/// The view of an iterator is its plan and the number of its next item.
proof fn law_items_view(items: WorkItems<'_, '_>)
    ensures
        items.plan() == items.plan@,
        items.position() == items.next,
{
}

} // verus!
