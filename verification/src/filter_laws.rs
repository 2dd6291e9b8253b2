//! What filter preparation guarantees: rotation, combining and forced errors.

use vstd::prelude::*;
use crate::filter::{
    accepts, all_accept, bit, bits_below, bits_set, compiled, constraint_bits, direction_filter,
    direction_filters, distinct_offsets, first_open_filter, has_bits, is_netherrack,
    is_quarter_turn, is_skipped, lemma_empty_mask, lemma_mask_unique, lemma_set_bit, mask_where,
    matches_everything, offset_mask, offset_of, prepare_error, ranked, rows_fit, turned_offset_fits,
    turned_row, turned_rows, turned_xz, turns_of, usable_offsets, BlockOffset, CompiledRotation,
    DirectionView,
};
use crate::netherrack::{law_models_turn_with_the_world, turned_model};
use crate::types::{Face, RotationInfo, RotationKind, TextureAlgorithm};

verus! {

/// For every choice of the lowest `n` bits there is a mask.
proof fn lemma_mask_exists(f: spec_fn(int) -> bool, n: int) -> (mask: u16)
    requires
        0 <= n <= 16,
    ensures
        forall|i: int| 0 <= i < 16 ==> #[trigger] bit(mask, i) == (i < n && f(i)),
    decreases n,
{
    if n == 0 {
        assert forall|i: int| 0 <= i < 16 implies #[trigger] bit(0, i) == (i < n && f(i)) by {
            lemma_empty_mask(i);
        }
        0
    } else {
        let rest = lemma_mask_exists(f, n - 1);
        if f(n - 1) {
            let mask = rest | (1u16 << ((n - 1) as u16));
            assert forall|i: int| 0 <= i < 16 implies #[trigger] bit(mask, i) == (i < n && f(i)) by {
                lemma_set_bit(rest, (n - 1) as u16, i as u16);
                assert(bit(rest, i) == (i < n - 1 && f(i)));
            }
            mask
        } else {
            rest
        }
    }
}

/// The mask for a condition has the bits that it names.
proof fn lemma_mask_where(f: spec_fn(int) -> bool)
    ensures
        has_bits(mask_where(f), f),
{
    let mask = lemma_mask_exists(f, 16);
    assert(has_bits(mask, f));
}

/// A block matches a constraint exactly when it looks as every row at its offset
/// says.
pub proof fn law_constraint_holds_where_all_rows_do(
    algorithm: TextureAlgorithm,
    rows: Seq<RotationInfo>,
    offset: BlockOffset,
    index: int,
)
    requires
        0 <= index < 16,
    ensures
        bit(compiled(algorithm, rows, offset).accepted_indices, index) <==> all_accept(
            algorithm,
            rows,
            offset,
            index,
        ),
{
    let f = |i: int| all_accept(algorithm, rows, offset, i);
    lemma_mask_where(f);
    assert(bit(mask_where(f), index) == f(index));
}

/// Combining the rows of one block is a bitwise AND of their masks.
pub proof fn law_combining_is_bitwise_and(
    algorithm: TextureAlgorithm,
    a: Seq<RotationInfo>,
    b: Seq<RotationInfo>,
    offset: BlockOffset,
)
    ensures
        offset_mask(algorithm, a + b, offset) == offset_mask(algorithm, a, offset) & offset_mask(
            algorithm,
            b,
            offset,
        ),
{
    let fa = |i: int| all_accept(algorithm, a, offset, i);
    let fb = |i: int| all_accept(algorithm, b, offset, i);
    let fab = |i: int| all_accept(algorithm, a + b, offset, i);
    lemma_mask_where(fa);
    lemma_mask_where(fb);
    lemma_mask_where(fab);
    let (p, q) = (mask_where(fa), mask_where(fb));
    assert forall|i: int| 0 <= i < 16 implies #[trigger] bit(p & q, i) == fab(i) by {
        let k = i as u16;
        assert(((p & q) & (1u16 << k) != 0) == (p & (1u16 << k) != 0 && q & (1u16 << k) != 0))
            by (bit_vector)
            requires
                k < 16,
        ;
        assert(bit(p, i) == fa(i));
        assert(bit(q, i) == fb(i));
        if fa(i) && fb(i) {
            assert forall|k: int|
                0 <= k < (a + b).len() && offset_of(#[trigger] (a + b)[k]) == offset implies accepts(
                algorithm,
                (a + b)[k],
                i,
            ) by {
                if k < a.len() {
                    assert(a[k] == (a + b)[k]);
                } else {
                    assert(b[k - a.len()] == (a + b)[k]);
                }
            }
        }
        if fab(i) {
            assert forall|k: int| 0 <= k < a.len() && offset_of(#[trigger] a[k]) == offset implies accepts(
                algorithm,
                a[k],
                i,
            ) by {
                assert((a + b)[k] == a[k]);
            }
            assert forall|k: int| 0 <= k < b.len() && offset_of(#[trigger] b[k]) == offset implies accepts(
                algorithm,
                b[k],
                i,
            ) by {
                assert((a + b)[a.len() + k] == b[k]);
            }
        }
    }
    lemma_mask_unique(mask_where(fab), p & q, fab);
}

/// An ordinary row accepts four of the sixteen indices, a side row eight.
pub proof fn law_ordinary_row_sizes(algorithm: TextureAlgorithm, row: RotationInfo)
    requires
        row.valid(),
        !is_netherrack(row),
    ensures
        bits_set(mask_where(|i: int| accepts(algorithm, row, i))) == (if row.kind
            == RotationKind::StandardSide {
            8int
        } else {
            4
        }),
{
    let f = |i: int| accepts(algorithm, row, i);
    lemma_mask_where(f);
    let m = mask_where(f);
    assert forall|i: int| 0 <= i < 16 implies #[trigger] bit(m, i) == accepts(algorithm, row, i) by {
        assert(bit(m, i) == f(i));
    }
    reveal_with_fuel(bits_below, 17);
}

/// No turn leaves a row as it is, and four quarter turns bring it back.
pub proof fn law_full_turn_changes_nothing(row: RotationInfo)
    requires
        row.valid(),
    ensures
        turned_row(row, 0) == row,
        turned_row(row, 4) == row,
{
    reveal_with_fuel(turned_xz, 5);
    reveal_with_fuel(crate::netherrack::turned_face, 5);
}

/// A turn after a turn of an offset.
proof fn lemma_turned_xz_sum(x: int, z: int, a: int, b: int)
    requires
        a >= 0,
        b >= 0,
    ensures
        turned_xz(x, z, a + b) == turned_xz(turned_xz(x, z, a).0, turned_xz(x, z, a).1, b),
    decreases b,
{
    if b > 0 {
        lemma_turned_xz_sum(x, z, a, b - 1);
    }
}

/// A turn after a turn of a face.
proof fn lemma_turned_face_sum(face: Face, a: int, b: int)
    requires
        a >= 0,
        b >= 0,
    ensures
        crate::netherrack::turned_face(face, a + b) == crate::netherrack::turned_face(
            crate::netherrack::turned_face(face, a),
            b,
        ),
        crate::netherrack::turned_face(face, a) == Face::Up <==> face == Face::Up,
        crate::netherrack::turned_face(face, a) == Face::Down <==> face == Face::Down,
    decreases a + b,
{
    if b > 0 {
        lemma_turned_face_sum(face, a, b - 1);
    } else if a > 0 {
        lemma_turned_face_sum(face, a - 1, 0);
    }
}

/// Turning a row twice is turning it by the sum of the turns.
pub proof fn law_turns_add_up(row: RotationInfo, a: int, b: int)
    requires
        row.valid(),
        a >= 0,
        b >= 0,
        turned_offset_fits(row, a),
    ensures
        turned_row(turned_row(row, a), b) == turned_row(row, a + b),
{
    lemma_turned_xz_sum(row.x as int, row.z as int, a, b);
    match row.kind {
        RotationKind::Netherrack(face) => {
            lemma_turned_face_sum(face, a, b);
        },
        _ => {},
    }
    let r = row.rotation as int;
    vstd::arithmetic::div_mod::lemma_add_mod_noop_right(b, r + a, 4);
    vstd::arithmetic::div_mod::lemma_add_mod_noop_right(-b, r - a, 4);
}

/// A turned netherrack row accepts exactly the turned models.
pub proof fn law_netherrack_rows_turn_with_the_world(
    algorithm: TextureAlgorithm,
    row: RotationInfo,
    index: int,
    turns: int,
)
    requires
        row.valid(),
        is_netherrack(row),
        0 <= index < 16,
        0 <= turns,
    ensures
        0 <= turned_model(index, turns) < 16,
        accepts(algorithm, turned_row(row, turns), turned_model(index, turns)) <==> accepts(
            algorithm,
            row,
            index,
        ),
{
    let face = row.kind->Netherrack_0;
    law_models_turn_with_the_world(index, face, row.rotation as int, turns);
}

/// A choice that consists of two parts keeps as many elements as both.
pub proof fn lemma_filter_parts<A>(
    s: Seq<A>,
    whole: spec_fn(A) -> bool,
    left: spec_fn(A) -> bool,
    right: spec_fn(A) -> bool,
)
    requires
        forall|a: A| #[trigger] whole(a) == (left(a) || right(a)),
        forall|a: A| !(#[trigger] left(a) && right(a)),
    ensures
        s.filter(whole).len() == s.filter(left).len() + s.filter(right).len(),
    decreases s.len(),
{
    reveal(Seq::filter);
    if s.len() > 0 {
        lemma_filter_parts(s.drop_last(), whole, left, right);
        let a = s.last();
        assert(whole(a) == (left(a) || right(a)));
        assert(!(left(a) && right(a)));
    }
}

/// A choice of everything keeps everything.
proof fn lemma_filter_all<A>(s: Seq<A>, keep: spec_fn(A) -> bool)
    requires
        forall|i: int| 0 <= i < s.len() ==> keep(#[trigger] s[i]),
    ensures
        s.filter(keep) == s,
    decreases s.len(),
{
    reveal(Seq::filter);
    if s.len() > 0 {
        let t = s.drop_last();
        assert(forall|i: int| 0 <= i < t.len() ==> t[i] == s[i]);
        lemma_filter_all(t, keep);
        assert(keep(s[s.len() - 1]));
        assert(t.push(s.last()) =~= s);
    } else {
        assert(s.filter(keep) =~= s);
    }
}

/// A choice keeps only elements that satisfy it.
pub proof fn lemma_filter_members<A>(s: Seq<A>, keep: spec_fn(A) -> bool, i: int)
    requires
        0 <= i < s.filter(keep).len(),
    ensures
        keep(s.filter(keep)[i]),
        s.contains(s.filter(keep)[i]),
    decreases s.len(),
{
    reveal(Seq::filter);
    if s.len() > 0 {
        let t = s.drop_last();
        if i < t.filter(keep).len() {
            lemma_filter_members(t, keep, i);
            let k = choose|k: int| 0 <= k < t.len() && t[k] == t.filter(keep)[i];
            assert(s[k] == t[k]);
        } else {
            assert(s[s.len() - 1] == s.filter(keep)[i]);
        }
    }
}

/// The number of set bits lies between the bits that are known to be set and all.
proof fn lemma_bits_below(mask: u16, n: int)
    requires
        0 <= n <= 16,
    ensures
        0 <= bits_below(mask, n) <= n,
        bits_below(mask, n) == 0 ==> forall|i: int| 0 <= i < n ==> !#[trigger] bit(mask, i),
    decreases n,
{
    if n > 0 {
        lemma_bits_below(mask, n - 1);
    }
}

/// A mask that is not empty has between one and sixteen set bits.
pub proof fn lemma_bits_of_usable_mask(mask: u16)
    requires
        mask != 0,
    ensures
        1 <= bits_set(mask) <= 16,
{
    lemma_bits_below(mask, 16);
    if bits_set(mask) == 0 {
        let f = |i: int| false;
        assert forall|i: int| 0 <= i < 16 implies #[trigger] bit(0, i) == f(i) by {
            lemma_empty_mask(i);
        }
        assert(has_bits(mask, f));
        lemma_mask_unique(mask, 0, f);
    }
}

/// Ranking keeps all constraints with one to `n` accepted indices.
proof fn lemma_ranked_len(constraints: Seq<CompiledRotation>, n: int)
    requires
        n >= 0,
    ensures
        ranked(constraints, n).len() == constraints.filter(
            |c: CompiledRotation| 1 <= constraint_bits(c) <= n,
        ).len(),
    decreases n,
{
    let whole = |c: CompiledRotation| 1 <= constraint_bits(c) <= n;
    if n == 0 {
        if constraints.filter(whole).len() > 0 {
            lemma_filter_members(constraints, whole, 0);
        }
    } else {
        lemma_ranked_len(constraints, n - 1);
        lemma_filter_parts(
            constraints,
            whole,
            |c: CompiledRotation| 1 <= constraint_bits(c) <= n - 1,
            |c: CompiledRotation| constraint_bits(c) == n,
        );
    }
}

/// Ranking orders by the number of accepted indices and adds nothing.
proof fn lemma_ranked_sorted(constraints: Seq<CompiledRotation>, n: int)
    requires
        n >= 0,
    ensures
        forall|i: int| #![trigger ranked(constraints, n)[i]]
            0 <= i < ranked(constraints, n).len() ==> constraints.contains(
                ranked(constraints, n)[i],
            ) && constraint_bits(ranked(constraints, n)[i]) <= n,
        forall|i: int, j: int|
            0 <= i <= j < ranked(constraints, n).len() ==> constraint_bits(
                #[trigger] ranked(constraints, n)[i],
            ) <= constraint_bits(#[trigger] ranked(constraints, n)[j]),
    decreases n,
{
    if n > 0 {
        lemma_ranked_sorted(constraints, n - 1);
        let keep = |c: CompiledRotation| constraint_bits(c) == n;
        let last = constraints.filter(keep);
        assert forall|i: int| 0 <= i < last.len() implies constraint_bits(#[trigger] last[i]) == n
            && constraints.contains(last[i]) by {
            lemma_filter_members(constraints, keep, i);
        }
        let inner = ranked(constraints, n - 1);
        let all = ranked(constraints, n);
        assert(all == inner + last);
        assert(forall|i: int| 0 <= i < inner.len() ==> all[i] == inner[i]);
        assert(forall|i: int|
            inner.len() <= i < all.len() ==> all[i] == last[i - inner.len()]);
        assert forall|i: int| #![trigger all[i]] 0 <= i < all.len() implies constraints.contains(
            all[i],
        ) && constraint_bits(all[i]) <= n by {
            if i < inner.len() {
                assert(constraints.contains(inner[i]) && constraint_bits(inner[i]) <= n - 1);
            }
        }
        assert forall|i: int, j: int| 0 <= i <= j < all.len() implies constraint_bits(
            #[trigger] all[i],
        ) <= constraint_bits(#[trigger] all[j]) by {
            if j < inner.len() {
                assert(constraint_bits(inner[i]) <= constraint_bits(inner[j]));
            } else {
                assert(constraint_bits(last[j - inner.len()]) == n);
            }
        }
    }
}

/// Every constraint with one to `n` accepted indices is ranked.
proof fn lemma_ranked_contains(constraints: Seq<CompiledRotation>, n: int, c: CompiledRotation)
    requires
        constraints.contains(c),
        1 <= constraint_bits(c) <= n,
    ensures
        ranked(constraints, n).contains(c),
    decreases n,
{
    let keep = |c: CompiledRotation| constraint_bits(c) == n;
    let (inner, last) = (ranked(constraints, n - 1), constraints.filter(keep));
    if constraint_bits(c) == n {
        let k = choose|k: int| 0 <= k < constraints.len() && constraints[k] == c;
        constraints.lemma_filter_contains(keep, k);
        let i = choose|i: int| 0 <= i < last.len() && last[i] == c;
        assert(ranked(constraints, n)[inner.len() + i] == c);
    } else {
        lemma_ranked_contains(constraints, n - 1, c);
        let i = choose|i: int| 0 <= i < inner.len() && inner[i] == c;
        assert(ranked(constraints, n)[i] == c);
    }
}

/// No constraint accepts more model indices than a later one.
pub open spec fn sorted_by_bits(constraints: Seq<CompiledRotation>) -> bool {
    forall|i: int, j: int|
        0 <= i <= j < constraints.len() ==> constraint_bits(#[trigger] constraints[i])
            <= constraint_bits(#[trigger] constraints[j])
}

/// A constraint for an offset where some model index fits every row.
pub open spec fn is_constraint(
    algorithm: TextureAlgorithm,
    rows: Seq<RotationInfo>,
    c: CompiledRotation,
) -> bool {
    exists|o: BlockOffset| #[trigger]
        usable_offsets(algorithm, rows).contains(o) && c == compiled(algorithm, rows, o)
}

/// The constraints of a direction are those of its usable offsets, and the ones
/// that accept fewer model indices come first.
pub proof fn law_constraints_are_sorted(
    algorithm: TextureAlgorithm,
    rows: Seq<RotationInfo>,
    direction: i32,
)
    ensures
        sorted_by_bits(direction_filter(algorithm, rows, direction).constraints),
        forall|c: CompiledRotation|
            direction_filter(algorithm, rows, direction).constraints.contains(c)
                <==> #[trigger] is_constraint(algorithm, turned_rows(rows, direction as int), c),
{
    let turned = turned_rows(rows, direction as int);
    let usable = usable_offsets(algorithm, turned);
    let keep = |o: BlockOffset| offset_mask(algorithm, turned, o) != 0;
    let list = usable.map_values(|o: BlockOffset| compiled(algorithm, turned, o));
    let sorted = ranked(list, 16);
    assert(direction_filter(algorithm, rows, direction).constraints == sorted);
    lemma_ranked_sorted(list, 16);
    assert forall|c: CompiledRotation|
        sorted.contains(c) <==> #[trigger] is_constraint(algorithm, turned, c) by {
        if sorted.contains(c) {
            let i = choose|i: int| 0 <= i < sorted.len() && sorted[i] == c;
            assert(list.contains(sorted[i]));
            let k = choose|k: int| 0 <= k < list.len() && list[k] == c;
            assert(usable.contains(usable[k]));
        }
        if is_constraint(algorithm, turned, c) {
            let o = choose|o: BlockOffset| #[trigger]
                usable.contains(o) && c == compiled(algorithm, turned, o);
            let k = choose|k: int| 0 <= k < usable.len() && usable[k] == o;
            lemma_filter_members(distinct_offsets(turned), keep, k);
            lemma_bits_of_usable_mask(offset_mask(algorithm, turned, o));
            assert(list[k] == c);
            lemma_ranked_contains(list, 16, c);
        }
    }
}

/// Every collected offset is the offset of a row.
pub proof fn lemma_offsets_of_rows(rows: Seq<RotationInfo>, o: BlockOffset)
    ensures
        distinct_offsets(rows).contains(o) <==> exists|k: int|
            0 <= k < rows.len() && offset_of(#[trigger] rows[k]) == o,
        distinct_offsets(rows).no_duplicates(),
    decreases rows.len(),
{
    if rows.len() > 0 {
        let rest = rows.drop_last();
        lemma_offsets_of_rows(rest, o);
        let before = distinct_offsets(rest);
        let all = distinct_offsets(rows);
        if all.contains(o) {
            let i = choose|i: int| 0 <= i < all.len() && all[i] == o;
            if i < before.len() {
                assert(before.contains(o));
                let k = choose|k: int| 0 <= k < rest.len() && offset_of(#[trigger] rest[k]) == o;
                assert(offset_of(rows[k]) == o);
            } else {
                assert(offset_of(rows[rows.len() - 1]) == o);
            }
        }
        if exists|k: int| 0 <= k < rows.len() && offset_of(#[trigger] rows[k]) == o {
            let k = choose|k: int| 0 <= k < rows.len() && offset_of(#[trigger] rows[k]) == o;
            if k < rest.len() {
                assert(offset_of(rest[k]) == o);
                let i = choose|i: int| 0 <= i < before.len() && before[i] == o;
                assert(all[i] == o);
            } else if !before.contains(o) {
                assert(all[before.len() as int] == o);
            }
        }
    }
}

/// Turning keeps different offsets different.
proof fn lemma_turn_injective(a: RotationInfo, b: RotationInfo, turns: int)
    requires
        0 <= turns,
        turned_offset_fits(a, turns),
        turned_offset_fits(b, turns),
    ensures
        offset_of(turned_row(a, turns)) == offset_of(turned_row(b, turns)) <==> offset_of(a)
            == offset_of(b),
{
    lemma_turned_xz_injective(a.x as int, a.z as int, b.x as int, b.z as int, turns);
}

proof fn lemma_turned_xz_injective(x: int, z: int, u: int, w: int, turns: int)
    ensures
        turned_xz(x, z, turns) == turned_xz(u, w, turns) <==> (x == u && z == w),
    decreases turns,
{
    if turns > 0 {
        lemma_turned_xz_injective(x, z, u, w, turns - 1);
    }
}

/// Turning keeps the number of block offsets.
proof fn lemma_turned_offsets_len(rows: Seq<RotationInfo>, direction: int)
    requires
        is_quarter_turn(direction),
        rows_fit(rows, direction),
    ensures
        distinct_offsets(turned_rows(rows, direction)).len() == distinct_offsets(rows).len(),
    decreases rows.len(),
{
    let turns = turns_of(direction);
    let turned = turned_rows(rows, direction);
    if rows.len() > 0 {
        let rest = rows.drop_last();
        let turned_rest = turned_rows(rest, direction);
        assert forall|k: int| 0 <= k < rest.len() implies (#[trigger] rest[k]).valid()
            && turned_offset_fits(rest[k], turns) by {
            assert(rows[k] == rest[k]);
        }
        lemma_turned_offsets_len(rest, direction);
        assert(turned.drop_last() =~= turned_rest);
        let (o, p) = (offset_of(rows.last()), offset_of(turned.last()));
        lemma_offsets_of_rows(rest, o);
        lemma_offsets_of_rows(turned_rest, p);
        assert(rows[rows.len() - 1].valid());
        if exists|k: int| 0 <= k < rest.len() && offset_of(#[trigger] rest[k]) == o {
            let k = choose|k: int| 0 <= k < rest.len() && offset_of(#[trigger] rest[k]) == o;
            lemma_turn_injective(rest[k], rows.last(), turns);
            assert(offset_of(turned_rest[k]) == p);
        }
        if exists|k: int| 0 <= k < turned_rest.len() && offset_of(#[trigger] turned_rest[k]) == p {
            let k = choose|k: int|
                0 <= k < turned_rest.len() && offset_of(#[trigger] turned_rest[k]) == p;
            assert(rest[k].valid());
            lemma_turn_injective(rest[k], rows.last(), turns);
            assert(offset_of(rest[k]) == o);
        }
    }
}

/// There are no more offsets than rows.
pub proof fn lemma_distinct_offsets_len(rows: Seq<RotationInfo>)
    ensures
        distinct_offsets(rows).len() <= rows.len(),
    decreases rows.len(),
{
    if rows.len() > 0 {
        lemma_distinct_offsets_len(rows.drop_last());
    }
}

/// In every direction each block offset of the rows counts once: as a constraint,
/// or as a block that can never match. However many rows describe a block, it can
/// add at most one error.
pub proof fn law_each_block_counts_once(
    algorithm: TextureAlgorithm,
    rows: Seq<RotationInfo>,
    direction: i32,
)
    requires
        is_quarter_turn(direction as int),
        rows_fit(rows, direction as int),
    ensures
        direction_filter(algorithm, rows, direction).constraints.len() + direction_filter(
            algorithm,
            rows,
            direction,
        ).contradictions.len() == distinct_offsets(rows).len(),
{
    let turned = turned_rows(rows, direction as int);
    let offsets = distinct_offsets(turned);
    let usable = usable_offsets(algorithm, turned);
    let keep = |o: BlockOffset| offset_mask(algorithm, turned, o) != 0;
    let useless = |o: BlockOffset| offset_mask(algorithm, turned, o) == 0;
    let list = usable.map_values(|o: BlockOffset| compiled(algorithm, turned, o));
    lemma_turned_offsets_len(rows, direction as int);
    let any = |o: BlockOffset| true;
    lemma_filter_parts(offsets, any, keep, useless);
    lemma_filter_all(offsets, any);
    lemma_ranked_len(list, 16);
    let counted = |c: CompiledRotation| 1 <= constraint_bits(c) <= 16;
    assert forall|i: int| 0 <= i < list.len() implies counted(#[trigger] list[i]) by {
        lemma_filter_members(offsets, keep, i);
        lemma_bits_of_usable_mask(offset_mask(algorithm, turned, usable[i]));
    }
    lemma_filter_all(list, counted);
}

/// No filter of a list is open where none was found.
pub proof fn lemma_all_closed(views: Seq<DirectionView>, tolerance: int, i: int)
    requires
        first_open_filter(views, tolerance) is None,
        0 <= i < views.len(),
    ensures
        !matches_everything(views[i], tolerance),
    decreases views.len(),
{
    if i > 0 {
        lemma_all_closed(views.drop_first(), tolerance, i - 1);
    }
}

/// Filters that were prepared are worth a scan: in no direction would every
/// coordinate match, and in some direction a coordinate can match.
pub proof fn law_prepared_filters_are_useful(
    algorithm: TextureAlgorithm,
    rows: Seq<RotationInfo>,
    directions: Seq<i32>,
    tolerance: int,
)
    requires
        prepare_error(algorithm, rows, directions, tolerance) is None,
    ensures
        forall|i: int|
            0 <= i < directions.len() ==> !matches_everything(
                direction_filter(algorithm, rows, #[trigger] directions[i]),
                tolerance,
            ),
        exists|i: int|
            0 <= i < directions.len() && !is_skipped(
                direction_filter(algorithm, rows, #[trigger] directions[i]),
                tolerance,
            ),
{
    let views = direction_filters(algorithm, rows, directions);
    assert forall|i: int| 0 <= i < directions.len() implies !matches_everything(
        direction_filter(algorithm, rows, #[trigger] directions[i]),
        tolerance,
    ) by {
        lemma_all_closed(views, tolerance, i);
    }
    let i = choose|i: int| 0 <= i < views.len() && !is_skipped(#[trigger] views[i], tolerance);
    assert(views[i] == direction_filter(algorithm, rows, directions[i]));
}

/// A mask is empty exactly when no index fits.
pub proof fn lemma_mask_empty(f: spec_fn(int) -> bool)
    ensures
        mask_where(f) == 0 <==> forall|i: int| 0 <= i < 16 ==> !#[trigger] f(i),
{
    lemma_mask_where(f);
    let mask = mask_where(f);
    if mask == 0 {
        assert forall|i: int| 0 <= i < 16 implies !#[trigger] f(i) by {
            lemma_empty_mask(i);
            assert(bit(mask, i) == f(i));
        }
    }
    if forall|i: int| 0 <= i < 16 ==> !#[trigger] f(i) {
        assert forall|i: int| 0 <= i < 16 implies #[trigger] bit(0, i) == f(i) by {
            lemma_empty_mask(i);
        }
        lemma_mask_unique(mask, 0, f);
    }
}

/// The rows at an offset and the turned rows at the turned offset agree on every
/// model and its turned model.
proof fn lemma_netherrack_block_turns(
    algorithm: TextureAlgorithm,
    rows: Seq<RotationInfo>,
    direction: int,
    k: int,
    index: int,
)
    requires
        is_quarter_turn(direction),
        rows_fit(rows, direction),
        0 <= k < rows.len(),
        0 <= index < 16,
        forall|m: int|
            0 <= m < rows.len() && offset_of(#[trigger] rows[m]) == offset_of(rows[k])
                ==> is_netherrack(rows[m]),
    ensures
        0 <= turned_model(index, turns_of(direction)) < 16,
        all_accept(algorithm, rows, offset_of(rows[k]), index) <==> all_accept(
            algorithm,
            turned_rows(rows, direction),
            offset_of(turned_rows(rows, direction)[k]),
            turned_model(index, turns_of(direction)),
        ),
{
    let turns = turns_of(direction);
    let turned = turned_rows(rows, direction);
    let (o, p) = (offset_of(rows[k]), offset_of(turned[k]));
    let model = turned_model(index, turns);
    assert(rows[k].valid());
    law_netherrack_rows_turn_with_the_world(algorithm, rows[k], index, turns);
    if all_accept(algorithm, rows, o, index) {
        assert forall|m: int| 0 <= m < turned.len() && offset_of(#[trigger] turned[m]) == p implies accepts(
            algorithm,
            turned[m],
            model,
        ) by {
            assert(rows[m].valid());
            lemma_turn_injective(rows[m], rows[k], turns);
            assert(offset_of(rows[m]) == o);
            law_netherrack_rows_turn_with_the_world(algorithm, rows[m], index, turns);
        }
    }
    if all_accept(algorithm, turned, p, model) {
        assert forall|m: int| 0 <= m < rows.len() && offset_of(#[trigger] rows[m]) == o implies accepts(
            algorithm,
            rows[m],
            index,
        ) by {
            assert(rows[m].valid());
            lemma_turn_injective(rows[m], rows[k], turns);
            assert(offset_of(turned[m]) == p);
            law_netherrack_rows_turn_with_the_world(algorithm, rows[m], index, turns);
        }
    }
}

/// Turning a model onward to a full turn brings it back.
proof fn lemma_turned_back(index: int, turns: int)
    requires
        0 <= index < 16,
        0 <= turns <= 3,
    ensures
        0 <= turned_model(index, 4 - turns) < 16,
        turned_model(turned_model(index, 4 - turns), turns) == index,
{
    let (x, y) = (index % 4, index / 4);
    let m = (y + (4 - turns)) % 4;
    assert((x + 4 * m) % 4 == x && (x + 4 * m) / 4 == m);
    assert((m + turns) % 4 == y);
}

/// Netherrack rows at one block contradict each other in every direction or in none.
pub proof fn law_netherrack_contradictions_do_not_turn(
    algorithm: TextureAlgorithm,
    rows: Seq<RotationInfo>,
    direction: int,
    k: int,
)
    requires
        is_quarter_turn(direction),
        rows_fit(rows, direction),
        0 <= k < rows.len(),
        forall|m: int|
            0 <= m < rows.len() && offset_of(#[trigger] rows[m]) == offset_of(rows[k])
                ==> is_netherrack(rows[m]),
    ensures
        offset_mask(algorithm, rows, offset_of(rows[k])) == 0 <==> offset_mask(
            algorithm,
            turned_rows(rows, direction),
            offset_of(turned_rows(rows, direction)[k]),
        ) == 0,
{
    let turns = turns_of(direction);
    let turned = turned_rows(rows, direction);
    let f = |i: int| all_accept(algorithm, rows, offset_of(rows[k]), i);
    let g = |i: int| all_accept(algorithm, turned, offset_of(turned[k]), i);
    lemma_mask_empty(f);
    lemma_mask_empty(g);
    if exists|i: int| 0 <= i < 16 && #[trigger] f(i) {
        let i = choose|i: int| 0 <= i < 16 && #[trigger] f(i);
        lemma_netherrack_block_turns(algorithm, rows, direction, k, i);
        assert(g(turned_model(i, turns)));
    }
    if exists|j: int| 0 <= j < 16 && #[trigger] g(j) {
        let j = choose|j: int| 0 <= j < 16 && #[trigger] g(j);
        let i = turned_model(j, 4 - turns);
        lemma_turned_back(j, turns);
        lemma_netherrack_block_turns(algorithm, rows, direction, k, i);
        assert(f(i));
    }
}

} // verus!
