//! What prepared filters mean: which blocks a row accepts, how a row turns, and that
//! the errors of a candidate are its blocks that contradict some row.

use vstd::prelude::*;
use crate::filter::{
    accepts, all_accept, all_notes, bit, bits_below, bits_set, compiled, constraint_bits,
    direction_filter, direction_filters, direction_notes, distinct_offsets, first_open_filter,
    four_way, is_netherrack, is_skipped, matches_everything, mixes_kinds, offset_mask, offset_of,
    prepare_error, ranked, rows_fit, turned_offset_fits, turned_row, turned_rows, turned_xz,
    turns_of, usable_offsets, warning_text, BlockOffset, CompiledRotation, DirectionView,
};
use crate::filter_laws::{
    law_constraint_holds_where_all_rows_do, lemma_all_closed, lemma_bits_of_usable_mask,
    lemma_filter_members, lemma_filter_parts, lemma_mask_empty, lemma_offsets_of_rows,
};
use crate::netherrack::{shows, turned_face};
use crate::number::decimal;
use crate::spiral::lemma_filter_no_duplicates;
use crate::types::{Face, RotationInfo, RotationKind, TextureAlgorithm};

verus! {

/// Which model indices a row accepts. The four-way variant of a block is a quarter of
/// its index under Vanilla-3 and the remainder by four elsewhere. A four-way row asks
/// for that variant, a side row for its low bit, and a netherrack row for what the
/// model shows on the face.
pub proof fn law_accepted_indices(algorithm: TextureAlgorithm, row: RotationInfo, index: int)
    requires
        0 <= index < 16,
    ensures
        ({
            let variant = if algorithm == TextureAlgorithm::Vanilla3 {
                index / 4
            } else {
                index % 4
            };
            match row.kind {
                RotationKind::StandardFourWay => accepts(algorithm, row, index) <==> variant
                    == row.rotation,
                RotationKind::StandardSide => accepts(algorithm, row, index) <==> variant % 2
                    == row.rotation,
                RotationKind::Netherrack(face) => accepts(algorithm, row, index) <==> shows(
                    index,
                    face,
                    row.rotation as int,
                ),
            }
        }),
{
}

/// The two side rows for a block accept complementary sets of indices, and every
/// index is accepted by exactly one of the four four-way rows.
pub proof fn law_rows_share_the_indices(
    algorithm: TextureAlgorithm,
    x: i8,
    y: i8,
    z: i8,
    index: int,
)
    requires
        0 <= index < 16,
    ensures
        ({
            let side = |r: u8|
                accepts(
                    algorithm,
                    RotationInfo { x, y, z, rotation: r, kind: RotationKind::StandardSide },
                    index,
                );
            side(0) != side(1)
        }),
        ({
            let top = |r: u8|
                accepts(
                    algorithm,
                    RotationInfo { x, y, z, rotation: r, kind: RotationKind::StandardFourWay },
                    index,
                );
            &&& top(0) || top(1) || top(2) || top(3)
            &&& !(top(0) && top(1)) && !(top(0) && top(2)) && !(top(0) && top(3))
            &&& !(top(1) && top(2)) && !(top(1) && top(3)) && !(top(2) && top(3))
        }),
{
    let v = four_way(algorithm, index);
    assert(0 <= v < 4);
}

/// Two algorithms that differ in how they draw agree on a block where one index is the
/// other with its two halves exchanged: the variant is the high half under Vanilla-3
/// and the low half elsewhere.
pub proof fn law_algorithms_read_other_halves(
    algorithm: TextureAlgorithm,
    row: RotationInfo,
    high: int,
    low: int,
)
    requires
        algorithm != TextureAlgorithm::Vanilla3,
        !(row.kind is Netherrack),
        0 <= high < 4,
        0 <= low < 4,
    ensures
        accepts(algorithm, row, 4 * high + low) <==> accepts(
            TextureAlgorithm::Vanilla3,
            row,
            4 * low + high,
        ),
{
}

/// The side faces go north, east, south, west.
pub open spec fn side_number(face: Face) -> int {
    match face {
        Face::North => 0,
        Face::East => 1,
        Face::South => 2,
        Face::West => 3,
        _ => -1,
    }
}

/// How a direction turns a row. The offset turns around the Y axis, north to east. A
/// four-way rotation and that of a netherrack top grow with the direction, that of a
/// netherrack bottom shrinks, and a netherrack side moves on without turning.
pub proof fn law_turned_rows(row: RotationInfo, direction: int)
    requires
        row.rotation <= 3,
        direction == 0 || direction == 90 || direction == 180 || direction == 270,
        direction == 90 || direction == 180 ==> row.z != -128,
        direction == 180 || direction == 270 ==> row.x != -128,
    ensures
        ({
            let t = turned_row(row, turns_of(direction));
            let turns = direction / 90;
            &&& direction == 0 ==> t.x == row.x && t.z == row.z
            &&& direction == 90 ==> t.x == -row.z && t.z == row.x
            &&& direction == 180 ==> t.x == -row.x && t.z == -row.z
            &&& direction == 270 ==> t.x == row.z && t.z == -row.x
            &&& t.y == row.y
            &&& match row.kind {
                RotationKind::StandardFourWay => t.kind == row.kind && t.rotation == (row.rotation
                    + turns) % 4,
                RotationKind::StandardSide => t.kind == row.kind && t.rotation == row.rotation,
                RotationKind::Netherrack(Face::Up) => t.kind == row.kind && t.rotation == (
                row.rotation + turns) % 4,
                RotationKind::Netherrack(Face::Down) => t.kind == row.kind && t.rotation == (
                row.rotation + 4 - turns) % 4,
                RotationKind::Netherrack(face) => {
                    &&& t.rotation == row.rotation
                    &&& t.kind matches RotationKind::Netherrack(to)
                    &&& side_number(to) == (side_number(face) + turns) % 4
                },
            }
        }),
{
    reveal_with_fuel(turned_xz, 4);
    reveal_with_fuel(turned_face, 4);
}

/// The rows of a direction are the rows, each turned.
pub proof fn law_rows_turn_one_by_one(rows: Seq<RotationInfo>, direction: int, k: int)
    requires
        0 <= k < rows.len(),
    ensures
        turned_rows(rows, direction).len() == rows.len(),
        turned_rows(rows, direction)[k] == turned_row(rows[k], turns_of(direction)),
{
}

/// The number of set bits of a mask is the number of bits that are set.
pub proof fn law_set_bits(mask: u16)
    ensures
        bits_set(mask) == Set::new(|i: int| 0 <= i < 16 && mask & (1u16 << (i as u16)) != 0).len(),
{
    lemma_bits_counted(mask, 16);
    assert(Set::new(|i: int| 0 <= i < 16 && bit(mask, i)) =~= Set::new(
        |i: int| 0 <= i < 16 && mask & (1u16 << (i as u16)) != 0,
    ));
}

/// The set bits below a position, counted.
proof fn lemma_bits_counted(mask: u16, n: int)
    requires
        0 <= n,
    ensures
        Set::new(|i: int| 0 <= i < n && bit(mask, i)).finite(),
        bits_below(mask, n) == Set::new(|i: int| 0 <= i < n && bit(mask, i)).len(),
    decreases n,
{
    let all = Set::new(|i: int| 0 <= i < n && bit(mask, i));
    if n == 0 {
        assert(all =~= Set::empty());
    } else {
        lemma_bits_counted(mask, n - 1);
        let below = Set::new(|i: int| 0 <= i < n - 1 && bit(mask, i));
        if bit(mask, n - 1) {
            assert(all =~= below.insert(n - 1));
        } else {
            assert(all =~= below);
        }
    }
}

/// The constraint for a block has a bit exactly for the indices that every row at its
/// offset accepts.
pub proof fn law_bits_of_a_constraint(
    algorithm: TextureAlgorithm,
    rows: Seq<RotationInfo>,
    offset: BlockOffset,
    index: int,
)
    requires
        0 <= index < 16,
    ensures
        ({
            let c = compiled(algorithm, rows, offset);
            &&& c.x == offset.x && c.y == offset.y && c.z == offset.z
            &&& c.accepted_indices & (1u16 << (index as u16)) != 0 <==> forall|k: int|
                0 <= k < rows.len() && (#[trigger] rows[k]).x == offset.x && rows[k].y == offset.y
                    && rows[k].z == offset.z ==> accepts(algorithm, rows[k], index)
        }),
{
    law_constraint_holds_where_all_rows_do(algorithm, rows, offset, index);
    let c = compiled(algorithm, rows, offset);
    assert(bit(c.accepted_indices, index) == (c.accepted_indices & (1u16 << (index as u16)) != 0));
    if all_accept(algorithm, rows, offset, index) {
        assert forall|k: int|
            0 <= k < rows.len() && (#[trigger] rows[k]).x == offset.x && rows[k].y == offset.y
                && rows[k].z == offset.z implies accepts(algorithm, rows[k], index) by {
            assert(offset_of(rows[k]) == offset);
        }
    }
}

/// The block offsets of rows are collected each once.
pub proof fn law_offsets_of_rows(rows: Seq<RotationInfo>, o: BlockOffset)
    ensures
        distinct_offsets(rows).no_duplicates(),
        distinct_offsets(rows).contains(o) <==> exists|k: int|
            0 <= k < rows.len() && (#[trigger] rows[k]).x == o.x && rows[k].y == o.y && rows[k].z
                == o.z,
{
    lemma_offsets_of_rows(rows, o);
    if distinct_offsets(rows).contains(o) {
        let k = choose|k: int| 0 <= k < rows.len() && offset_of(#[trigger] rows[k]) == o;
        assert(rows[k].x == o.x && rows[k].y == o.y && rows[k].z == o.z);
    }
    if exists|k: int|
        0 <= k < rows.len() && (#[trigger] rows[k]).x == o.x && rows[k].y == o.y && rows[k].z
            == o.z {
        let k = choose|k: int|
            0 <= k < rows.len() && (#[trigger] rows[k]).x == o.x && rows[k].y == o.y && rows[k].z
                == o.z;
        assert(offset_of(rows[k]) == o);
    }
}

/// A block looks different from what some row says. The world gives every block
/// offset its model index.
pub open spec fn contradicts_a_row(
    algorithm: TextureAlgorithm,
    rows: Seq<RotationInfo>,
    world: spec_fn(BlockOffset) -> int,
    o: BlockOffset,
) -> bool {
    exists|k: int|
        0 <= k < rows.len() && (#[trigger] rows[k]).x == o.x && rows[k].y == o.y && rows[k].z == o.z
            && !accepts(algorithm, rows[k], world(o))
}

/// A constraint does not accept the block at its offset.
pub open spec fn is_mismatch(world: spec_fn(BlockOffset) -> int, c: CompiledRotation) -> bool {
    let index = world(BlockOffset { x: c.x, y: c.y, z: c.z });
    c.accepted_indices & (1u16 << (index as u16)) == 0
}

/// Choosing twice is choosing by both.
proof fn lemma_filter_twice<A>(
    s: Seq<A>,
    first: spec_fn(A) -> bool,
    second: spec_fn(A) -> bool,
    both: spec_fn(A) -> bool,
)
    requires
        forall|a: A| #[trigger] both(a) == (first(a) && second(a)),
    ensures
        s.filter(first).filter(second) == s.filter(both),
    decreases s.len(),
{
    reveal(Seq::filter);
    if s.len() > 0 {
        lemma_filter_twice(s.drop_last(), first, second, both);
        let a = s.last();
        let before = s.drop_last().filter(first);
        assert(both(a) == (first(a) && second(a)));
        if first(a) {
            assert(before.push(a).drop_last() =~= before);
        }
    }
}

/// Choosing after a map is choosing by what the map gives.
proof fn lemma_filter_mapped<A, B>(
    s: Seq<A>,
    f: spec_fn(A) -> B,
    keep: spec_fn(B) -> bool,
    pulled: spec_fn(A) -> bool,
)
    requires
        forall|a: A| #[trigger] pulled(a) == keep(f(a)),
    ensures
        s.map_values(f).filter(keep).len() == s.filter(pulled).len(),
    decreases s.len(),
{
    reveal(Seq::filter);
    if s.len() > 0 {
        lemma_filter_mapped(s.drop_last(), f, keep, pulled);
        assert(s.map_values(f).drop_last() =~= s.drop_last().map_values(f));
        assert(s.map_values(f).last() == f(s.last()));
        assert(pulled(s.last()) == keep(f(s.last())));
    }
}

/// A choice that agrees on the elements chooses the same.
proof fn lemma_filter_agrees<A>(s: Seq<A>, f: spec_fn(A) -> bool, g: spec_fn(A) -> bool)
    requires
        forall|i: int| 0 <= i < s.len() ==> f(#[trigger] s[i]) == g(s[i]),
    ensures
        s.filter(f) == s.filter(g),
    decreases s.len(),
{
    reveal(Seq::filter);
    if s.len() > 0 {
        let t = s.drop_last();
        assert(forall|i: int| 0 <= i < t.len() ==> t[i] == s[i]);
        lemma_filter_agrees(t, f, g);
        assert(f(s[s.len() - 1]) == g(s[s.len() - 1]));
    }
}

/// Ranking loses no constraint that a choice would keep.
proof fn lemma_ranked_filtered(
    constraints: Seq<CompiledRotation>,
    n: int,
    keep: spec_fn(CompiledRotation) -> bool,
)
    requires
        n >= 0,
    ensures
        ranked(constraints, n).filter(keep).len() == constraints.filter(
            |c: CompiledRotation| 1 <= constraint_bits(c) <= n && keep(c),
        ).len(),
    decreases n,
{
    let whole = |c: CompiledRotation| 1 <= constraint_bits(c) <= n && keep(c);
    if n == 0 {
        reveal(Seq::filter);
        if constraints.filter(whole).len() > 0 {
            lemma_filter_members(constraints, whole, 0);
        }
        assert(ranked(constraints, 0).filter(keep).len() == 0);
    } else {
        lemma_ranked_filtered(constraints, n - 1, keep);
        let last = |c: CompiledRotation| constraint_bits(c) == n;
        let both = |c: CompiledRotation| constraint_bits(c) == n && keep(c);
        Seq::filter_distributes_over_add(
            ranked(constraints, n - 1),
            constraints.filter(last),
            keep,
        );
        lemma_filter_twice(constraints, last, keep, both);
        lemma_filter_parts(
            constraints,
            whole,
            |c: CompiledRotation| 1 <= constraint_bits(c) <= n - 1 && keep(c),
            both,
        );
    }
}

/// The errors of a candidate are its blocks that contradict some row: the forced
/// errors of a direction and the constraints that do not accept their block count
/// every such block once and nothing else, whatever the world holds.
pub proof fn law_errors_are_contradicting_blocks(
    algorithm: TextureAlgorithm,
    rows: Seq<RotationInfo>,
    direction: i32,
    world: spec_fn(BlockOffset) -> int,
)
    requires
        forall|o: BlockOffset| 0 <= #[trigger] world(o) < 16,
    ensures
        ({
            let filter = direction_filter(algorithm, rows, direction);
            filter.forced_errors + filter.constraints.filter(
                |c: CompiledRotation| is_mismatch(world, c),
            ).len() == Set::new(
                |o: BlockOffset|
                    contradicts_a_row(algorithm, turned_rows(rows, direction as int), world, o),
            ).len()
        }),
{
    let turned = turned_rows(rows, direction as int);
    let filter = direction_filter(algorithm, rows, direction);
    let offsets = distinct_offsets(turned);
    let fails = |o: BlockOffset| contradicts_a_row(algorithm, turned, world, o);
    let usable = |o: BlockOffset| offset_mask(algorithm, turned, o) != 0;
    let useless = |o: BlockOffset| offset_mask(algorithm, turned, o) == 0;
    let usable_fails = |o: BlockOffset| usable(o) && fails(o);
    let wrong = |c: CompiledRotation| is_mismatch(world, c);
    let compile = |o: BlockOffset| compiled(algorithm, turned, o);
    let pulled = |o: BlockOffset| wrong(compile(o));
    let list = usable_offsets(algorithm, turned).map_values(compile);
    // A block fails where its index is not among those that all rows accept.
    assert forall|o: BlockOffset| #[trigger] pulled(o) == fails(o) by {
        lemma_failing_block(algorithm, turned, world, o);
    }
    // Where no index fits, every index fails, provided that some row is there.
    assert forall|i: int| 0 <= i < offsets.len() && useless(#[trigger] offsets[i]) implies fails(
        offsets[i],
    ) by {
        lemma_empty_mask_fails(algorithm, turned, world, offsets[i]);
    }
    lemma_ranked_filtered(list, 16, wrong);
    let counted = |c: CompiledRotation| 1 <= constraint_bits(c) <= 16 && wrong(c);
    assert forall|i: int| 0 <= i < list.len() implies counted(#[trigger] list[i]) == wrong(
        list[i],
    ) by {
        lemma_filter_members(offsets, usable, i);
        lemma_bits_of_usable_mask(list[i].accepted_indices);
    }
    lemma_filter_agrees(list, counted, wrong);
    lemma_filter_mapped(usable_offsets(algorithm, turned), compile, wrong, pulled);
    lemma_filter_agrees(usable_offsets(algorithm, turned), pulled, fails);
    lemma_filter_twice(offsets, usable, fails, usable_fails);
    let whole = |o: BlockOffset| useless(o) || usable_fails(o);
    lemma_filter_parts(offsets, whole, useless, usable_fails);
    lemma_filter_agrees(offsets, whole, fails);
    assert(offsets.filter(fails).len() == filter.forced_errors + filter.constraints.filter(
        wrong,
    ).len());
    lemma_offsets_no_duplicates(turned);
    lemma_filter_no_duplicates(offsets, fails);
    offsets.filter(fails).unique_seq_to_set();
    assert forall|o: BlockOffset| fails(o) implies #[trigger] offsets.contains(o) by {
        law_offsets_of_rows(turned, o);
    }
    assert(offsets.filter(fails).to_set() =~= Set::new(
        |o: BlockOffset| contradicts_a_row(algorithm, turned, world, o),
    ));
}

/// No offset is collected twice.
proof fn lemma_offsets_no_duplicates(rows: Seq<RotationInfo>)
    ensures
        distinct_offsets(rows).no_duplicates(),
{
    lemma_offsets_of_rows(rows, BlockOffset { x: 0, y: 0, z: 0 });
}

/// A constraint rejects a block that contradicts a row, and no other.
proof fn lemma_failing_block(
    algorithm: TextureAlgorithm,
    rows: Seq<RotationInfo>,
    world: spec_fn(BlockOffset) -> int,
    o: BlockOffset,
)
    requires
        0 <= world(o) < 16,
    ensures
        is_mismatch(world, compiled(algorithm, rows, o)) == contradicts_a_row(
            algorithm,
            rows,
            world,
            o,
        ),
{
    law_bits_of_a_constraint(algorithm, rows, o, world(o));
}

/// A block for which no index fits contradicts a row.
proof fn lemma_empty_mask_fails(
    algorithm: TextureAlgorithm,
    rows: Seq<RotationInfo>,
    world: spec_fn(BlockOffset) -> int,
    o: BlockOffset,
)
    requires
        0 <= world(o) < 16,
        offset_mask(algorithm, rows, o) == 0,
    ensures
        contradicts_a_row(algorithm, rows, world, o),
{
    let f = |i: int| all_accept(algorithm, rows, o, i);
    lemma_mask_empty(f);
    assert(!f(world(o)));
    let k = choose|k: int|
        0 <= k < rows.len() && offset_of(#[trigger] rows[k]) == o && !accepts(
            algorithm,
            rows[k],
            world(o),
        );
    assert(rows[k].x == o.x && rows[k].y == o.y && rows[k].z == o.z);
}

/// A direction keeps its number, forces one error for every block that can never
/// match, and lists exactly those blocks.
pub proof fn law_forced_errors(
    algorithm: TextureAlgorithm,
    rows: Seq<RotationInfo>,
    direction: i32,
    o: BlockOffset,
)
    ensures
        ({
            let filter = direction_filter(algorithm, rows, direction);
            let turned = turned_rows(rows, direction as int);
            &&& filter.direction == direction
            &&& filter.forced_errors == filter.contradictions.len()
            &&& filter.contradictions.no_duplicates()
            &&& filter.contradictions.contains(o) <==> {
                &&& exists|k: int|
                    0 <= k < turned.len() && (#[trigger] turned[k]).x == o.x && turned[k].y == o.y
                        && turned[k].z == o.z
                &&& forall|i: int|
                    0 <= i < 16 ==> !#[trigger] all_accept(algorithm, turned, o, i)
            }
        }),
{
    let turned = turned_rows(rows, direction as int);
    let useless = |o: BlockOffset| offset_mask(algorithm, turned, o) == 0;
    law_offsets_of_rows(turned, o);
    lemma_filter_no_duplicates(distinct_offsets(turned), useless);
    let f = |i: int| all_accept(algorithm, turned, o, i);
    lemma_mask_empty(f);
    assert(offset_mask(algorithm, turned, o) == 0 <==> forall|i: int|
        0 <= i < 16 ==> !#[trigger] f(i));
    if forall|i: int| 0 <= i < 16 ==> !#[trigger] f(i) {
        assert forall|i: int| 0 <= i < 16 implies !#[trigger] all_accept(
            algorithm,
            turned,
            o,
            i,
        ) by {
            assert(!f(i));
        }
    }
    if forall|i: int| 0 <= i < 16 ==> !#[trigger] all_accept(algorithm, turned, o, i) {
        assert forall|i: int| 0 <= i < 16 implies !#[trigger] f(i) by {
            assert(!all_accept(algorithm, turned, o, i));
        }
    }
}

/// There is one filter for every direction, in their order.
pub proof fn law_one_filter_per_direction(
    algorithm: TextureAlgorithm,
    rows: Seq<RotationInfo>,
    directions: Seq<i32>,
    i: int,
)
    requires
        0 <= i < directions.len(),
    ensures
        direction_filters(algorithm, rows, directions).len() == directions.len(),
        direction_filters(algorithm, rows, directions)[i] == direction_filter(
            algorithm,
            rows,
            directions[i],
        ),
        direction_filters(algorithm, rows, directions)[i].direction == directions[i],
{
}

/// No filter is open where each is closed.
proof fn lemma_none_open(views: Seq<DirectionView>, tolerance: int)
    requires
        forall|i: int| 0 <= i < views.len() ==> !matches_everything(#[trigger] views[i], tolerance),
    ensures
        first_open_filter(views, tolerance) is None,
    decreases views.len(),
{
    if views.len() > 0 {
        let rest = views.drop_first();
        assert forall|i: int| 0 <= i < rest.len() implies !matches_everything(
            #[trigger] rest[i],
            tolerance,
        ) by {
            assert(!matches_everything(views[i + 1], tolerance));
        }
        assert(!matches_everything(views[0], tolerance));
        lemma_none_open(rest, tolerance);
    }
}

/// When filters can be prepared: no block has both ordinary and netherrack rows, every
/// direction that the tolerance allows has something to check, and there is such a
/// direction.
pub proof fn law_preparable_filters(
    algorithm: TextureAlgorithm,
    rows: Seq<RotationInfo>,
    directions: Seq<i32>,
    tolerance: int,
)
    ensures
        prepare_error(algorithm, rows, directions, tolerance) is None <==> {
            &&& forall|i: int, j: int|
                0 <= i < rows.len() && 0 <= j < rows.len() && (#[trigger] rows[i]).x == (
                #[trigger] rows[j]).x && rows[i].y == rows[j].y && rows[i].z == rows[j].z
                    && rows[i].kind is Netherrack ==> rows[j].kind is Netherrack
            &&& forall|i: int|
                0 <= i < directions.len() ==> direction_filter(
                    algorithm,
                    rows,
                    #[trigger] directions[i],
                ).constraints.len() > 0 || direction_filter(
                    algorithm,
                    rows,
                    directions[i],
                ).forced_errors > tolerance
            &&& exists|i: int|
                0 <= i < directions.len() && direction_filter(
                    algorithm,
                    rows,
                    #[trigger] directions[i],
                ).forced_errors <= tolerance
        },
{
    let views = direction_filters(algorithm, rows, directions);
    assert(forall|i: int|
        0 <= i < directions.len() ==> views[i] == direction_filter(
            algorithm,
            rows,
            #[trigger] directions[i],
        ));
    let unmixed = forall|i: int, j: int|
        0 <= i < rows.len() && 0 <= j < rows.len() && (#[trigger] rows[i]).x == (
        #[trigger] rows[j]).x && rows[i].y == rows[j].y && rows[i].z == rows[j].z
            && rows[i].kind is Netherrack ==> rows[j].kind is Netherrack;
    if mixes_kinds(rows) {
        let (i, j) = choose|i: int, j: int|
            0 <= i < rows.len() && 0 <= j < rows.len() && offset_of(#[trigger] rows[i])
                == offset_of(#[trigger] rows[j]) && is_netherrack(rows[i]) && !is_netherrack(
                rows[j],
            );
        assert(rows[i].x == rows[j].x && rows[i].y == rows[j].y && rows[i].z == rows[j].z);
        assert(!unmixed);
    } else {
        assert forall|i: int, j: int|
            0 <= i < rows.len() && 0 <= j < rows.len() && (#[trigger] rows[i]).x == (
            #[trigger] rows[j]).x && rows[i].y == rows[j].y && rows[i].z == rows[j].z
                && rows[i].kind is Netherrack implies rows[j].kind is Netherrack by {
            assert(offset_of(rows[i]) == offset_of(rows[j]));
            assert(is_netherrack(rows[i]));
            assert(is_netherrack(rows[j]));
        }
    }
    let closed = forall|i: int|
        0 <= i < directions.len() ==> direction_filter(
            algorithm,
            rows,
            #[trigger] directions[i],
        ).constraints.len() > 0 || direction_filter(algorithm, rows, directions[i]).forced_errors
            > tolerance;
    if closed {
        assert forall|i: int| 0 <= i < views.len() implies !matches_everything(
            #[trigger] views[i],
            tolerance,
        ) by {
            assert(views[i] == direction_filter(algorithm, rows, directions[i]));
        }
        lemma_none_open(views, tolerance);
    }
    if first_open_filter(views, tolerance) is None {
        assert forall|i: int| 0 <= i < directions.len() implies direction_filter(
            algorithm,
            rows,
            #[trigger] directions[i],
        ).constraints.len() > 0 || direction_filter(algorithm, rows, directions[i]).forced_errors
            > tolerance by {
            lemma_all_closed(views, tolerance, i);
        }
    }
    if forall|i: int| 0 <= i < views.len() ==> is_skipped(#[trigger] views[i], tolerance) {
        assert forall|i: int| 0 <= i < directions.len() implies !(direction_filter(
            algorithm,
            rows,
            #[trigger] directions[i],
        ).forced_errors <= tolerance) by {
            assert(is_skipped(views[i], tolerance));
        }
    } else {
        let i = choose|i: int| 0 <= i < views.len() && !is_skipped(#[trigger] views[i], tolerance);
        assert(views[i] == direction_filter(algorithm, rows, directions[i]));
    }
}

/// There is a warning exactly where some direction forces an error. It lists the
/// blocks direction by direction and block by block, each with its direction and its
/// offset.
pub proof fn law_warnings(
    views: Seq<DirectionView>,
    view: DirectionView,
    offsets: Seq<BlockOffset>,
    o: BlockOffset,
)
    ensures
        warning_text(views) is Some <==> exists|i: int|
            0 <= i < views.len() && (#[trigger] views[i]).contradictions.len() > 0,
        warning_text(views) matches Some(text) ==> text
            == "contradictory filter rows force block errors:"@ + all_notes(views),
        all_notes(views.push(view)) == all_notes(views) + direction_notes(
            view.direction,
            view.contradictions,
        ),
        direction_notes(view.direction, offsets.push(o)) == direction_notes(view.direction, offsets)
            + (" [direction "@ + decimal(view.direction as int) + " at ("@ + decimal(o.x as int)
            + ", "@ + decimal(o.y as int) + ", "@ + decimal(o.z as int) + ")]"@),
        all_notes(Seq::empty()).len() == 0,
        direction_notes(view.direction, Seq::empty()).len() == 0,
{
    assert(views.push(view).drop_last() =~= views);
    assert(offsets.push(o).drop_last() =~= offsets);
}

/// Rows can be prepared for a direction exactly when each asks for a rotation that its
/// face can show and no offset that changes its sign is -128, which has no opposite.
pub proof fn law_rows_that_can_be_turned(rows: Seq<RotationInfo>, direction: int)
    requires
        direction == 0 || direction == 90 || direction == 180 || direction == 270,
    ensures
        rows_fit(rows, direction) <==> forall|k: int|
            0 <= k < rows.len() ==> {
                let row = #[trigger] rows[k];
                &&& row.rotation < 4
                &&& row.kind == RotationKind::StandardSide ==> row.rotation < 2
                &&& direction == 90 ==> row.z != -128
                &&& direction == 180 ==> row.x != -128 && row.z != -128
                &&& direction == 270 ==> row.x != -128
            },
{
    reveal_with_fuel(turned_xz, 4);
    if rows_fit(rows, direction) {
        assert forall|k: int| 0 <= k < rows.len() implies (#[trigger] rows[k]).valid()
            && turned_offset_fits(rows[k], turns_of(direction)) by {}
    }
}

/// How a direction turns an offset of any size.
pub proof fn law_turned_offsets(x: int, z: int)
    ensures
        turned_xz(x, z, turns_of(0)) == (x, z),
        turned_xz(x, z, turns_of(90)) == (-z, x),
        turned_xz(x, z, turns_of(180)) == (-x, -z),
        turned_xz(x, z, turns_of(270)) == (z, -x),
{
    reveal_with_fuel(turned_xz, 4);
}

/// Each quarter turn takes north to east, east to south, south to west and west to
/// north, and leaves top and bottom alone.
pub proof fn law_turned_faces(face: Face, turns: int)
    requires
        turns >= 0,
    ensures
        turned_face(face, 0) == face,
        turned_face(face, turns) == Face::North ==> turned_face(face, turns + 1) == Face::East,
        turned_face(face, turns) == Face::East ==> turned_face(face, turns + 1) == Face::South,
        turned_face(face, turns) == Face::South ==> turned_face(face, turns + 1) == Face::West,
        turned_face(face, turns) == Face::West ==> turned_face(face, turns + 1) == Face::North,
        turned_face(face, turns) == Face::Up ==> turned_face(face, turns + 1) == Face::Up,
        turned_face(face, turns) == Face::Down ==> turned_face(face, turns + 1) == Face::Down,
{
}

/// Offsets are collected in the order of their first rows.
pub proof fn law_offsets_in_order(rows: Seq<RotationInfo>, row: RotationInfo)
    ensures
        ({
            let (before, after) = (distinct_offsets(rows), distinct_offsets(rows.push(row)));
            let o = BlockOffset { x: row.x, y: row.y, z: row.z };
            after == (if before.contains(o) {
                before
            } else {
                before.push(o)
            })
        }),
{
    assert(rows.push(row).drop_last() =~= rows);
}

/// Constraints that accept equally many indices keep their order.
pub proof fn law_equal_constraints_keep_their_order(
    constraints: Seq<CompiledRotation>,
    n: int,
    bits: int,
)
    requires
        1 <= bits,
        0 <= n,
    ensures
        ranked(constraints, n).filter(|c: CompiledRotation| constraint_bits(c) == bits) == (if bits
            <= n {
            constraints.filter(|c: CompiledRotation| constraint_bits(c) == bits)
        } else {
            Seq::empty()
        }),
    decreases n,
{
    let same = |c: CompiledRotation| constraint_bits(c) == bits;
    if n == 0 {
        reveal(Seq::filter);
        assert(ranked(constraints, 0).filter(same) =~= Seq::empty());
    } else {
        law_equal_constraints_keep_their_order(constraints, n - 1, bits);
        let last = |c: CompiledRotation| constraint_bits(c) == n;
        let both = |c: CompiledRotation| constraint_bits(c) == n && constraint_bits(c) == bits;
        Seq::filter_distributes_over_add(
            ranked(constraints, n - 1),
            constraints.filter(last),
            same,
        );
        lemma_filter_twice(constraints, last, same, both);
        if bits == n {
            lemma_filter_agrees(constraints, both, same);
            assert(Seq::<CompiledRotation>::empty() + constraints.filter(same) =~= constraints.filter(
                same,
            ));
        } else {
            if constraints.filter(both).len() > 0 {
                lemma_filter_members(constraints, both, 0);
            }
            assert(constraints.filter(both) =~= Seq::empty());
            assert(ranked(constraints, n).filter(same) =~= ranked(constraints, n - 1).filter(same));
        }
    }
}

/// The constraints of a direction are made from its usable offsets, in the order of
/// their first rows, and ranked; its contradictions keep that order too.
pub proof fn law_parts_of_a_filter(
    algorithm: TextureAlgorithm,
    rows: Seq<RotationInfo>,
    direction: i32,
    bits: int,
)
    requires
        1 <= bits <= 16,
    ensures
        ({
            let turned = turned_rows(rows, direction as int);
            let filter = direction_filter(algorithm, rows, direction);
            let usable = distinct_offsets(turned).filter(
                |o: BlockOffset| compiled(algorithm, turned, o).accepted_indices != 0,
            );
            &&& filter.constraints.filter(|c: CompiledRotation| constraint_bits(c) == bits)
                == usable.map_values(|o: BlockOffset| compiled(algorithm, turned, o)).filter(
                |c: CompiledRotation| constraint_bits(c) == bits,
            )
            &&& filter.contradictions == distinct_offsets(turned).filter(
                |o: BlockOffset| compiled(algorithm, turned, o).accepted_indices == 0,
            )
        }),
{
    let turned = turned_rows(rows, direction as int);
    let list = usable_offsets(algorithm, turned).map_values(
        |o: BlockOffset| compiled(algorithm, turned, o),
    );
    law_equal_constraints_keep_their_order(list, 16, bits);
    lemma_filter_agrees(
        distinct_offsets(turned),
        |o: BlockOffset| offset_mask(algorithm, turned, o) != 0,
        |o: BlockOffset| compiled(algorithm, turned, o).accepted_indices != 0,
    );
    lemma_filter_agrees(
        distinct_offsets(turned),
        |o: BlockOffset| offset_mask(algorithm, turned, o) == 0,
        |o: BlockOffset| compiled(algorithm, turned, o).accepted_indices == 0,
    );
}

} // verus!
