//! The spiral order of a rectangular tile grid, as a mathematical sequence.

use vstd::prelude::*;

verus! {

/// A rectangular grid of scan tiles.
pub struct Grid {
    pub x_tiles: int,
    pub z_tiles: int,
}

/// The larger of two integers.
pub open spec fn max_int(a: int, b: int) -> int {
    if a >= b { a } else { b }
}

/// The smaller of two integers.
pub open spec fn min_int(a: int, b: int) -> int {
    if a <= b { a } else { b }
}

/// The distance of an integer from zero.
pub open spec fn abs_int(a: int) -> int {
    if a >= 0 { a } else { -a }
}

impl Grid {
    /// The grid has at least one tile.
    pub open spec fn inhabited(self) -> bool {
        self.x_tiles >= 1 && self.z_tiles >= 1
    }

    /// The grid holds a tile.
    pub open spec fn has(self, tile: (int, int)) -> bool {
        0 <= tile.0 < self.x_tiles && 0 <= tile.1 < self.z_tiles
    }

    /// The column of the center: the lower one of two.
    pub open spec fn center_x(self) -> int {
        (self.x_tiles - 1) / 2
    }

    /// The row of the center: the lower one of two.
    pub open spec fn center_z(self) -> int {
        (self.z_tiles - 1) / 2
    }

    /// The ring that a tile lies on: its distance from the center, measured in
    /// king moves.
    pub open spec fn ring_of(self, tile: (int, int)) -> int {
        max_int(abs_int(tile.0 - self.center_x()), abs_int(tile.1 - self.center_z()))
    }

    /// The largest ring that holds a tile of the grid.
    pub open spec fn max_radius(self) -> int {
        max_int(self.x_tiles - 1 - self.center_x(), self.z_tiles - 1 - self.center_z())
    }

    /// The four edges of ring `r`, in walking order: right, top, left, bottom.
    /// Each corner of the ring belongs to the edge that ends there.
    pub open spec fn edge(self, r: int, e: int) -> Seq<(int, int)> {
        let (cx, cz) = (self.center_x(), self.center_z());
        Seq::new(
            (2 * r) as nat,
            |k: int|
                if e == 0 {
                    (cx + r, cz - r + 1 + k)
                } else if e == 1 {
                    (cx + r - 1 - k, cz + r)
                } else if e == 2 {
                    (cx - r, cz + r - 1 - k)
                } else {
                    (cx - r + 1 + k, cz - r)
                },
        )
    }

    /// The walk around ring `r`, on an unbounded plane of tiles.
    pub open spec fn ring(self, r: int) -> Seq<(int, int)> {
        if r <= 0 {
            seq![(self.center_x(), self.center_z())]
        } else {
            self.edge(r, 0) + self.edge(r, 1) + self.edge(r, 2) + self.edge(r, 3)
        }
    }

    /// The tiles of the grid among `tiles`, in the same order.
    pub open spec fn clip(self, tiles: Seq<(int, int)>) -> Seq<(int, int)> {
        tiles.filter(|t: (int, int)| self.has(t))
    }

    /// The walk around rings 0 to `r`, kept to the grid.
    pub open spec fn rings_to(self, r: int) -> Seq<(int, int)>
        decreases r + 1,
    {
        if r < 0 {
            Seq::empty()
        } else {
            self.rings_to(r - 1) + self.clip(self.ring(r))
        }
    }

    /// All tiles of the grid from the center outward, ring by ring.
    pub open spec fn spiral(self) -> Seq<(int, int)> {
        self.rings_to(self.max_radius())
    }

    /// The number of grid columns at most `r` away from the center column.
    pub open spec fn columns_to(self, r: int) -> int {
        min_int(self.center_x() + r, self.x_tiles - 1) - max_int(self.center_x() - r, 0) + 1
    }

    /// The number of grid rows at most `r` away from the center row.
    pub open spec fn rows_to(self, r: int) -> int {
        min_int(self.center_z() + r, self.z_tiles - 1) - max_int(self.center_z() - r, 0) + 1
    }

    /// The number of grid tiles on rings 0 to `r`.
    pub open spec fn covered(self, r: int) -> int {
        self.columns_to(r) * self.rows_to(r)
    }

    /// The column or row that edge `e` of ring `r` runs along.
    pub open spec fn edge_fixed(self, r: int, e: int) -> int {
        if e == 0 {
            self.center_x() + r
        } else if e == 1 {
            self.center_z() + r
        } else if e == 2 {
            self.center_x() - r
        } else {
            self.center_z() - r
        }
    }

    /// Edges 0 and 2 run along a column, edges 1 and 3 along a row.
    pub open spec fn edge_in_column(e: int) -> bool {
        e == 0 || e == 2
    }

    /// The line that edge `e` of ring `r` runs along crosses the grid.
    pub open spec fn edge_visible(self, r: int, e: int) -> bool {
        if Self::edge_in_column(e) {
            0 <= self.edge_fixed(r, e) < self.x_tiles
        } else {
            0 <= self.edge_fixed(r, e) < self.z_tiles
        }
    }

    /// The `k`-th tile of edge `e` of ring `r` inside the grid.
    pub open spec fn edge_tile(self, r: int, e: int, k: int) -> (int, int) {
        let (cx, cz) = (self.center_x(), self.center_z());
        if e == 0 {
            (cx + r, max_int(cz - r + 1, 0) + k)
        } else if e == 1 {
            (min_int(cx + r - 1, self.x_tiles - 1) - k, cz + r)
        } else if e == 2 {
            (cx - r, min_int(cz + r - 1, self.z_tiles - 1) - k)
        } else {
            (max_int(cx - r + 1, 0) + k, cz - r)
        }
    }

    /// How many tiles of edge `e` of ring `r` lie in the grid.
    pub open spec fn edge_len(self, r: int, e: int) -> int {
        if !self.edge_visible(r, e) {
            0
        } else if e == 0 {
            self.rows_to(r) - if self.edge_visible(r, 3) { 1int } else { 0 }
        } else if e == 1 {
            self.columns_to(r) - if self.edge_visible(r, 0) { 1int } else { 0 }
        } else if e == 2 {
            self.rows_to(r) - if self.edge_visible(r, 1) { 1int } else { 0 }
        } else {
            self.columns_to(r) - if self.edge_visible(r, 2) { 1int } else { 0 }
        }
    }

    /// How many tiles of the edges of ring `r` before edge `e` lie in the grid.
    pub open spec fn edges_before(self, r: int, e: int) -> int
        decreases e,
    {
        if e <= 0 {
            0
        } else {
            self.edges_before(r, e - 1) + self.edge_len(r, e - 1)
        }
    }
}

/// Keeping the elements that satisfy `keep` is taking a window, where those
/// elements are exactly the window `lo..hi`.
pub proof fn lemma_filter_window<A>(s: Seq<A>, keep: spec_fn(A) -> bool, lo: int, hi: int)
    requires
        0 <= lo <= hi <= s.len(),
        forall|i: int| 0 <= i < s.len() ==> (#[trigger] keep(s[i]) <==> lo <= i < hi),
    ensures
        s.filter(keep) == s.subrange(lo, hi),
    decreases s.len(),
{
    reveal(Seq::filter);
    if s.len() > 0 {
        let t = s.drop_last();
        assert(forall|i: int| 0 <= i < t.len() ==> t[i] == s[i]);
        assert(keep(s[s.len() - 1]) <==> lo <= s.len() - 1 < hi);
        if hi == s.len() && lo < hi {
            lemma_filter_window(t, keep, lo, hi - 1);
            assert(t.subrange(lo, hi - 1).push(s.last()) =~= s.subrange(lo, hi));
        } else if hi == s.len() {
            lemma_filter_window(t, keep, lo - 1, hi - 1);
            assert(t.subrange(lo - 1, hi - 1) =~= s.subrange(lo, hi));
        } else {
            lemma_filter_window(t, keep, lo, hi);
            assert(t.subrange(lo, hi) =~= s.subrange(lo, hi));
        }
    } else {
        assert(s.filter(keep) =~= s.subrange(lo, hi));
    }
}

/// What is left of an edge inside the grid.
pub proof fn lemma_clipped_edge(g: Grid, r: int, e: int)
    requires
        g.inhabited(),
        r >= 1,
        0 <= e < 4,
    ensures
        g.edge_len(r, e) >= 0,
        g.clip(g.edge(r, e)) == Seq::new(
            g.edge_len(r, e) as nat,
            |k: int| g.edge_tile(r, e, k),
        ),
{
    let edge = g.edge(r, e);
    let keep = |t: (int, int)| g.has(t);
    let (cx, cz) = (g.center_x(), g.center_z());
    let window = Seq::new(g.edge_len(r, e) as nat, |k: int| g.edge_tile(r, e, k));
    if !g.edge_visible(r, e) {
        lemma_filter_window(edge, keep, 0, 0);
        assert(edge.subrange(0, 0) =~= window);
    } else {
        let lo = if e == 0 {
            max_int(0, r - 1 - cz)
        } else if e == 1 {
            max_int(0, cx + r - g.x_tiles)
        } else if e == 2 {
            max_int(0, cz + r - g.z_tiles)
        } else {
            max_int(0, r - 1 - cx)
        };
        let hi = lo + g.edge_len(r, e);
        lemma_filter_window(edge, keep, lo, hi);
        assert(edge.subrange(lo, hi) =~= window);
    }
}

/// Small factors spelled out as repeated addition.
proof fn lemma_small_factor(d: int, n: int)
    requires
        0 <= d <= 2,
    ensures
        d * n == (if d == 0 {
            0
        } else if d == 1 {
            n
        } else {
            n + n
        }),
{
    assert(0 * n == 0 && 1 * n == n && 2 * n == n + n);
}

/// Ring `r` adds what its four edges hold.
pub proof fn lemma_covered_step(g: Grid, r: int)
    requires
        g.inhabited(),
        r >= 1,
    ensures
        g.covered(r) == g.covered(r - 1) + g.edge_len(r, 0) + g.edge_len(r, 1) + g.edge_len(r, 2)
            + g.edge_len(r, 3),
{
    let (w, h) = (g.columns_to(r), g.rows_to(r));
    let dw = w - g.columns_to(r - 1);
    let dh = h - g.rows_to(r - 1);
    assert(w * h - (w - dw) * (h - dh) == dw * h + dh * w - dw * dh) by (nonlinear_arith);
    assert(dw == (if g.edge_visible(r, 0) { 1int } else { 0 }) + (if g.edge_visible(r, 2) {
        1int
    } else {
        0
    }));
    assert(dh == (if g.edge_visible(r, 1) { 1int } else { 0 }) + (if g.edge_visible(r, 3) {
        1int
    } else {
        0
    }));
    lemma_small_factor(dw, h);
    lemma_small_factor(dh, w);
    lemma_small_factor(dw, dh);
}

/// The clipped ring is its four clipped edges.
pub proof fn lemma_clipped_ring(g: Grid, r: int)
    requires
        r >= 1,
    ensures
        g.clip(g.ring(r)) == g.clip(g.edge(r, 0)) + g.clip(g.edge(r, 1)) + g.clip(g.edge(r, 2))
            + g.clip(g.edge(r, 3)),
{
    let keep = |t: (int, int)| g.has(t);
    let (a, b, c, d) = (g.edge(r, 0), g.edge(r, 1), g.edge(r, 2), g.edge(r, 3));
    Seq::filter_distributes_over_add(a, b, keep);
    Seq::filter_distributes_over_add(a + b, c, keep);
    Seq::filter_distributes_over_add(a + b + c, d, keep);
}

/// Rings 0 to `r` hold as many grid tiles as the clipped square around the center.
pub proof fn lemma_rings_len(g: Grid, r: int)
    requires
        g.inhabited(),
        r >= 0,
    ensures
        g.rings_to(r).len() == g.covered(r),
    decreases r,
{
    if r == 0 {
        lemma_filter_window(g.ring(0), |t: (int, int)| g.has(t), 0, 1);
        assert(g.rings_to(-1).len() == 0);
        assert(g.columns_to(0) == 1 && g.rows_to(0) == 1);
    } else {
        lemma_rings_len(g, r - 1);
        lemma_clipped_ring(g, r);
        lemma_clipped_edge(g, r, 0);
        lemma_clipped_edge(g, r, 1);
        lemma_clipped_edge(g, r, 2);
        lemma_clipped_edge(g, r, 3);
        lemma_covered_step(g, r);
    }
}

/// Where the tiles of edge `e` stand in the spiral, and how far ring `r` reaches.
pub proof fn lemma_ring_position(g: Grid, r: int, e: int, k: int)
    requires
        g.inhabited(),
        r >= 1,
        0 <= e < 4,
        0 <= k < g.edge_len(r, e),
    ensures
        g.covered(r - 1) + g.edges_before(r, e) + k < g.rings_to(r).len(),
        g.rings_to(r)[g.covered(r - 1) + g.edges_before(r, e) + k] == g.edge_tile(r, e, k),
{
    lemma_rings_len(g, r - 1);
    lemma_clipped_ring(g, r);
    lemma_clipped_edge(g, r, 0);
    lemma_clipped_edge(g, r, 1);
    lemma_clipped_edge(g, r, 2);
    lemma_clipped_edge(g, r, 3);
    reveal_with_fuel(Grid::edges_before, 4);
}

/// Later rings only append to the walk.
pub proof fn lemma_rings_prefix(g: Grid, r: int, s: int)
    requires
        r <= s,
    ensures
        g.rings_to(r).is_prefix_of(g.rings_to(s)),
    decreases s - r,
{
    if r < s {
        lemma_rings_prefix(g, r, s - 1);
        if s >= 0 {
            assert(g.rings_to(s - 1).is_prefix_of(g.rings_to(s)));
        }
    }
}

/// The last ring completes the grid.
pub proof fn lemma_covered_all(g: Grid)
    requires
        g.inhabited(),
    ensures
        g.max_radius() >= 0,
        g.covered(g.max_radius()) == g.x_tiles * g.z_tiles,
        g.spiral().len() == g.x_tiles * g.z_tiles,
{
    lemma_rings_len(g, g.max_radius());
    assert(g.columns_to(g.max_radius()) == g.x_tiles);
    assert(g.rows_to(g.max_radius()) == g.z_tiles);
}

/// The walk around a ring meets exactly the tiles at that distance, each once.
pub proof fn lemma_ring_tiles(g: Grid, r: int)
    requires
        r >= 0,
    ensures
        g.ring(r).no_duplicates(),
        forall|t: (int, int)| #[trigger] g.ring(r).contains(t) <==> g.ring_of(t) == r,
{
    let ring = g.ring(r);
    let (cx, cz) = (g.center_x(), g.center_z());
    assert forall|t: (int, int)| #[trigger] ring.contains(t) <==> g.ring_of(t) == r by {
        if g.ring_of(t) == r {
            let k = if r == 0 {
                0
            } else if t.0 == cx + r && t.1 > cz - r {
                t.1 - (cz - r + 1)
            } else if t.1 == cz + r {
                2 * r + (cx + r - 1 - t.0)
            } else if t.0 == cx - r {
                4 * r + (cz + r - 1 - t.1)
            } else {
                6 * r + (t.0 - (cx - r + 1))
            };
            assert(ring[k] == t);
        }
    }
}

/// Dropping elements creates no duplicates.
pub proof fn lemma_filter_no_duplicates<A>(s: Seq<A>, keep: spec_fn(A) -> bool)
    requires
        s.no_duplicates(),
    ensures
        s.filter(keep).no_duplicates(),
        forall|a: A| #[trigger] s.filter(keep).contains(a) <==> s.contains(a) && keep(a),
    decreases s.len(),
{
    reveal(Seq::filter);
    if s.len() > 0 {
        let t = s.drop_last();
        lemma_filter_no_duplicates(t, keep);
        let f = t.filter(keep);
        assert forall|a: A| #[trigger] s.filter(keep).contains(a) <==> s.contains(a) && keep(a) by {
            if s.filter(keep).contains(a) {
                let i = choose|i: int| 0 <= i < s.filter(keep).len() && s.filter(keep)[i] == a;
                if i < f.len() {
                    assert(f.contains(a));
                    let j = choose|j: int| 0 <= j < t.len() && t[j] == a;
                    assert(s[j] == a);
                } else {
                    assert(s[s.len() - 1] == a);
                }
            }
            if s.contains(a) && keep(a) {
                let j = choose|j: int| 0 <= j < s.len() && s[j] == a;
                if j < t.len() {
                    assert(t[j] == a);
                    assert(f.contains(a));
                    let i = choose|i: int| 0 <= i < f.len() && f[i] == a;
                    assert(s.filter(keep)[i] == a);
                } else {
                    assert(s.filter(keep)[f.len() as int] == a);
                }
            }
        }
        if keep(s.last()) {
            assert forall|i: int| 0 <= i < f.len() implies f[i] != s.last() by {
                assert(f.contains(f[i]));
                let j = choose|j: int| 0 <= j < t.len() && t[j] == f[i];
                assert(s[j] == f[i]);
            }
        }
    }
}

/// Rings 0 to `r` hold exactly the grid tiles at most `r` away, each once, and
/// never step back to an inner ring.
pub proof fn lemma_rings_tiles(g: Grid, r: int)
    requires
        r >= -1,
    ensures
        g.rings_to(r).no_duplicates(),
        forall|t: (int, int)| #[trigger]
            g.rings_to(r).contains(t) <==> g.has(t) && g.ring_of(t) <= r,
        forall|i: int, j: int|
            0 <= i <= j < g.rings_to(r).len() ==> g.ring_of(#[trigger] g.rings_to(r)[i])
                <= g.ring_of(#[trigger] g.rings_to(r)[j]),
    decreases r + 1,
{
    if r >= 0 {
        let inner = g.rings_to(r - 1);
        let outer = g.clip(g.ring(r));
        lemma_rings_tiles(g, r - 1);
        lemma_ring_tiles(g, r);
        lemma_filter_no_duplicates(g.ring(r), |t: (int, int)| g.has(t));
        let all = g.rings_to(r);
        assert forall|i: int| 0 <= i < inner.len() implies g.ring_of(#[trigger] inner[i]) <= r
            - 1 by {
            assert(inner.contains(inner[i]));
        }
        assert forall|i: int| 0 <= i < outer.len() implies g.ring_of(#[trigger] outer[i]) == r by {
            assert(outer.contains(outer[i]));
        }
        assert forall|t: (int, int)| #[trigger] all.contains(t) <==> g.has(t) && g.ring_of(t)
            <= r by {
            if all.contains(t) {
                let i = choose|i: int| 0 <= i < all.len() && all[i] == t;
                if i < inner.len() {
                    assert(inner.contains(t));
                } else {
                    assert(outer[i - inner.len()] == t);
                    assert(outer.contains(t));
                }
            }
            if g.has(t) && g.ring_of(t) <= r {
                if g.ring_of(t) == r {
                    assert(outer.contains(t));
                    let i = choose|i: int| 0 <= i < outer.len() && outer[i] == t;
                    assert(all[inner.len() + i] == t);
                } else {
                    assert(inner.contains(t));
                    let i = choose|i: int| 0 <= i < inner.len() && inner[i] == t;
                    assert(all[i] == t);
                }
            }
        }
    }
}

/// The spiral starts at the center, visits every tile of the grid exactly once,
/// and never returns to an inner ring.
pub proof fn law_spiral_visits_every_tile_once(g: Grid)
    requires
        g.inhabited(),
    ensures
        g.spiral().len() == g.x_tiles * g.z_tiles,
        g.spiral()[0] == (g.center_x(), g.center_z()),
        g.spiral().no_duplicates(),
        forall|t: (int, int)| #[trigger] g.spiral().contains(t) <==> g.has(t),
        forall|i: int, j: int|
            0 <= i <= j < g.spiral().len() ==> g.ring_of(#[trigger] g.spiral()[i]) <= g.ring_of(
                #[trigger] g.spiral()[j],
            ),
{
    lemma_covered_all(g);
    lemma_rings_tiles(g, g.max_radius());
    assert(g.x_tiles * g.z_tiles >= 1) by (nonlinear_arith)
        requires
            g.x_tiles >= 1,
            g.z_tiles >= 1,
    ;
    let center = (g.center_x(), g.center_z());
    assert(g.spiral().contains(center));
    let i = choose|i: int| 0 <= i < g.spiral().len() && g.spiral()[i] == center;
    assert(g.ring_of(g.spiral()[0]) <= g.ring_of(g.spiral()[i]));
}

/// The place of a tile on the walk around ring `r`, given as its distance from the
/// center: down the right side from below the upper right corner, along the bottom to
/// the left, up the left side, and along the top to the right.
pub open spec fn walk_place(dx: int, dz: int, r: int) -> int {
    if dx == r && dz > -r {
        dz + r - 1
    } else if dz == r {
        3 * r - 1 - dx
    } else if dx == -r {
        5 * r - 1 - dz
    } else {
        7 * r - 1 + dx
    }
}

/// A choice keeps the order.
proof fn lemma_filter_keeps_order<A>(s: Seq<A>, keep: spec_fn(A) -> bool, i: int, j: int) -> (places:
    (int, int))
    requires
        0 <= i < j < s.filter(keep).len(),
    ensures
        0 <= places.0 < places.1 < s.len(),
        s[places.0] == s.filter(keep)[i],
        s[places.1] == s.filter(keep)[j],
    decreases s.len(),
{
    reveal(Seq::filter);
    let t = s.drop_last();
    let f = t.filter(keep);
    if j < f.len() {
        lemma_filter_keeps_order(t, keep, i, j)
    } else {
        let a = lemma_filter_place(t, keep, i);
        (a, s.len() - 1)
    }
}

/// Where a chosen element stood.
proof fn lemma_filter_place<A>(s: Seq<A>, keep: spec_fn(A) -> bool, i: int) -> (place: int)
    requires
        0 <= i < s.filter(keep).len(),
    ensures
        0 <= place < s.len(),
        s[place] == s.filter(keep)[i],
    decreases s.len(),
{
    reveal(Seq::filter);
    let t = s.drop_last();
    if i < t.filter(keep).len() {
        lemma_filter_place(t, keep, i)
    } else {
        s.len() - 1
    }
}

/// The tiles of a ring stand at their places.
proof fn lemma_ring_places(g: Grid, r: int, k: int)
    requires
        r >= 1,
        0 <= k < g.ring(r).len(),
    ensures
        walk_place(g.ring(r)[k].0 - g.center_x(), g.ring(r)[k].1 - g.center_z(), r) == k,
{
}

/// Within a ring the tiles come in the order of the walk around it.
proof fn lemma_rings_walk(g: Grid, r: int, n: int, m: int)
    requires
        r >= -1,
        0 <= n < m < g.rings_to(r).len(),
        g.ring_of(g.rings_to(r)[n]) == g.ring_of(g.rings_to(r)[m]),
        g.ring_of(g.rings_to(r)[n]) >= 1,
    ensures
        ({
            let (a, b) = (g.rings_to(r)[n], g.rings_to(r)[m]);
            walk_place(a.0 - g.center_x(), a.1 - g.center_z(), g.ring_of(a)) < walk_place(
                b.0 - g.center_x(),
                b.1 - g.center_z(),
                g.ring_of(b),
            )
        }),
    decreases r + 1,
{
    let keep = |t: (int, int)| g.has(t);
    let inner = g.rings_to(r - 1);
    let outer = g.clip(g.ring(r));
    lemma_rings_tiles(g, r - 1);
    lemma_ring_tiles(g, r);
    lemma_filter_no_duplicates(g.ring(r), keep);
    if m < inner.len() {
        lemma_rings_walk(g, r - 1, n, m);
    } else {
        assert(g.rings_to(r)[m] == outer[m - inner.len()]);
        assert(outer.contains(outer[m - inner.len()]));
        if n < inner.len() {
            assert(g.rings_to(r)[n] == inner[n]);
            assert(inner.contains(inner[n]));
        } else {
            let (a, b) = lemma_filter_keeps_order(
                g.ring(r),
                keep,
                n - inner.len(),
                m - inner.len(),
            );
            lemma_ring_places(g, r, a);
            lemma_ring_places(g, r, b);
        }
    }
}

/// The spiral goes around every ring the same way: of two tiles on one ring, the one
/// whose place on the walk is earlier comes first.
pub proof fn law_spiral_follows_the_walk(g: Grid, n: int, m: int)
    requires
        g.inhabited(),
        0 <= n < m < g.x_tiles * g.z_tiles,
        g.ring_of(g.spiral()[n]) == g.ring_of(g.spiral()[m]),
    ensures
        ({
            let (a, b) = (g.spiral()[n], g.spiral()[m]);
            walk_place(a.0 - g.center_x(), a.1 - g.center_z(), g.ring_of(a)) < walk_place(
                b.0 - g.center_x(),
                b.1 - g.center_z(),
                g.ring_of(b),
            )
        }),
{
    law_spiral_visits_every_tile_once(g);
    if g.ring_of(g.spiral()[n]) == 0 {
        assert(g.spiral()[n] == g.spiral()[m]);
    }
    lemma_covered_all(g);
    lemma_rings_walk(g, g.max_radius(), n, m);
}

/// `covered(r)` is the number of grid tiles at most `r` away from the center.
pub proof fn law_covered_counts_tiles(g: Grid, r: int)
    requires
        g.inhabited(),
        r >= 0,
    ensures
        g.covered(r) == Set::new(|t: (int, int)| g.has(t) && g.ring_of(t) <= r).len(),
{
    let rings = g.rings_to(r);
    lemma_rings_len(g, r);
    lemma_rings_tiles(g, r);
    rings.unique_seq_to_set();
    assert(rings.to_set() =~= Set::new(|t: (int, int)| g.has(t) && g.ring_of(t) <= r));
}

/// The number of covered tiles starts at one, never decreases as the radius grows,
/// and is the whole grid from the largest radius on, not before.
pub proof fn law_covered_grows_to_the_grid(g: Grid, r: int, s: int)
    requires
        g.inhabited(),
        0 <= r <= s,
    ensures
        g.covered(0) == 1,
        g.covered(r) <= g.covered(s),
        g.covered(r) == g.x_tiles * g.z_tiles <==> r >= g.max_radius(),
{
    assert(g.columns_to(0) == 1 && g.rows_to(0) == 1);
    let (a, b) = (g.columns_to(r), g.rows_to(r));
    let (c, d) = (g.columns_to(s), g.rows_to(s));
    assert(1 <= a <= c <= g.x_tiles && 1 <= b <= d <= g.z_tiles);
    assert(a * b <= c * d) by (nonlinear_arith)
        requires
            1 <= a <= c,
            1 <= b <= d,
    ;
    if r >= g.max_radius() {
        assert(a == g.x_tiles && b == g.z_tiles);
    } else {
        assert(a < g.x_tiles || b < g.z_tiles);
        let (x, z) = (g.x_tiles, g.z_tiles);
        assert(a * b < x * z) by (nonlinear_arith)
            requires
                1 <= a <= x,
                1 <= b <= z,
                a < x || b < z,
        ;
    }
}

/// Two tiles share an edge.
pub open spec fn neighbors(a: (int, int), b: (int, int)) -> bool {
    abs_int(a.0 - b.0) + abs_int(a.1 - b.1) == 1
}

/// Every step of a path leads to a tile that shares an edge.
#[verifier::opaque]
spec fn connected(path: Seq<(int, int)>) -> bool {
    forall|n: int, m: int|
        0 <= n < m < path.len() && m == n + 1 ==> neighbors(#[trigger] path[n], #[trigger] path[m])
}

/// Two connected paths make one where the second starts beside the end of the first.
proof fn lemma_connected_concat(a: Seq<(int, int)>, b: Seq<(int, int)>)
    requires
        connected(a),
        connected(b),
        a.len() > 0,
        b.len() > 0,
        neighbors(a.last(), b[0]),
    ensures
        connected(a + b),
{
    reveal(connected);
    let all = a + b;
    assert forall|n: int, m: int| 0 <= n < m < all.len() && m == n + 1 implies neighbors(
        #[trigger] all[n],
        #[trigger] all[m],
    ) by {
        if m < a.len() {
            assert(neighbors(a[n], a[m]));
        } else if n >= a.len() {
            assert(neighbors(b[n - a.len()], b[m - a.len()]));
        }
    }
}

/// The walk around a ring is connected.
proof fn lemma_ring_connected(g: Grid, r: int)
    requires
        r >= 1,
    ensures
        connected(g.ring(r)),
        g.ring(r).len() == 8 * r,
        g.ring(r)[0] == (g.center_x() + r, g.center_z() - r + 1),
        g.ring(r).last() == (g.center_x() + r, g.center_z() - r),
{
    let (a, b, c, d) = (g.edge(r, 0), g.edge(r, 1), g.edge(r, 2), g.edge(r, 3));
    assert(connected(a) && connected(b) && connected(c) && connected(d)) by {
        reveal(connected);
    }
    lemma_connected_concat(a, b);
    lemma_connected_concat(a + b, c);
    lemma_connected_concat(a + b + c, d);
}

/// A ring that lies inside the grid is walked whole.
proof fn lemma_whole_ring(g: Grid, r: int)
    requires
        g.inhabited(),
        r >= 0,
        0 <= g.center_x() - r && g.center_x() + r < g.x_tiles,
        0 <= g.center_z() - r && g.center_z() + r < g.z_tiles,
    ensures
        g.rings_to(r) == g.rings_to(r - 1) + g.ring(r),
{
    let ring = g.ring(r);
    lemma_filter_window(ring, |t: (int, int)| g.has(t), 0, ring.len() as int);
    assert(ring.subrange(0, ring.len() as int) =~= ring);
}

/// The rings that lie inside a grid form a connected path to a corner of the last.
proof fn lemma_whole_rings_connected(g: Grid, r: int)
    requires
        g.inhabited(),
        r >= 0,
        0 <= g.center_x() - r && g.center_x() + r < g.x_tiles,
        0 <= g.center_z() - r && g.center_z() + r < g.z_tiles,
    ensures
        connected(g.rings_to(r)),
        g.rings_to(r).len() > 0,
        g.rings_to(r).last() == (g.center_x() + r, g.center_z() - r),
    decreases r,
{
    lemma_whole_ring(g, r);
    let (inner, ring) = (g.rings_to(r - 1), g.ring(r));
    if r > 0 {
        lemma_whole_rings_connected(g, r - 1);
        lemma_ring_connected(g, r);
        assert(neighbors(inner.last(), ring[0]));
        lemma_connected_concat(inner, ring);
        assert((inner + ring).last() == ring.last());
    } else {
        assert(inner.len() == 0 && ring.len() == 1);
        assert(inner + ring =~= ring);
        assert(connected(ring)) by {
            reveal(connected);
        }
    }
}

/// On a square grid every step of the spiral leads to a tile that shares an edge
/// with the one before.
pub proof fn law_square_spiral_steps_to_neighbors(g: Grid, n: int)
    requires
        g.inhabited(),
        g.x_tiles == g.z_tiles,
        0 <= n < g.x_tiles * g.z_tiles - 1,
    ensures
        neighbors(g.spiral()[n], g.spiral()[n + 1]),
{
    lemma_covered_all(g);
    lemma_square_spiral_connected(g);
    reveal(connected);
}

/// The spiral of a square grid is connected.
proof fn lemma_square_spiral_connected(g: Grid)
    requires
        g.inhabited(),
        g.x_tiles == g.z_tiles,
    ensures
        connected(g.spiral()),
{
    let s = g.x_tiles;
    let c = g.center_x();
    let r = g.max_radius();
    lemma_whole_rings_connected(g, c);
    if r > c {
        assert(s == 2 * r && c == r - 1);
        let inner = g.rings_to(c);
        let outer = g.clip(g.ring(r));
        let all = g.spiral();
        assert(all == inner + outer);
        lemma_clipped_ring(g, r);
        lemma_clipped_edge(g, r, 0);
        lemma_clipped_edge(g, r, 1);
        lemma_clipped_edge(g, r, 2);
        lemma_clipped_edge(g, r, 3);
        assert(g.edge_len(r, 0) == s && g.edge_len(r, 1) == s - 1);
        assert(g.edge_len(r, 2) == 0 && g.edge_len(r, 3) == 0);
        assert(outer.len() == 2 * s - 1);
        assert(connected(outer)) by {
            reveal(connected);
            assert(forall|k: int|
                0 <= k < outer.len() ==> #[trigger] outer[k] == (if k < s {
                    (s - 1, k)
                } else {
                    (2 * s - 2 - k, s - 1)
                }));
        }
        lemma_connected_concat(inner, outer);
    }
}

/// The walk around a ring is clockwise, seen from above with X to the right and
/// Z downward: every step turns clockwise about the center, and by less than half
/// a turn.
pub proof fn law_ring_turns_clockwise(g: Grid, r: int, k: int)
    requires
        r >= 1,
        0 <= k < g.ring(r).len() - 1,
    ensures
        ({
            let (from, to) = (g.ring(r)[k], g.ring(r)[k + 1]);
            (from.0 - g.center_x()) * (to.1 - g.center_z()) - (from.1 - g.center_z()) * (to.0
                - g.center_x()) > 0
        }),
{
    let (cx, cz) = (g.center_x(), g.center_z());
    let (from, to) = (g.ring(r)[k], g.ring(r)[k + 1]);
    let (a, b) = (from.0 - cx, from.1 - cz);
    let (c, d) = (to.0 - cx, to.1 - cz);
    if k < 2 * r - 1 {
        assert(a == r && c == r && d == b + 1);
        assert(r * (b + 1) - b * r == r) by (nonlinear_arith);
    } else if k < 4 * r - 1 {
        assert(b == r && d == r && c == a - 1);
        assert(a * r - r * (a - 1) == r) by (nonlinear_arith);
    } else if k < 6 * r - 1 {
        assert(a == -r && c == -r && d == b - 1);
        assert((-r) * (b - 1) - b * (-r) == r) by (nonlinear_arith);
    } else {
        assert(b == -r && d == -r && c == a + 1);
        assert(a * (-r) - (-r) * (a + 1) == r) by (nonlinear_arith);
    }
}

} // verus!
