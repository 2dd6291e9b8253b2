//! Direction rotation, 16-way masks, row combining, and forced errors.

use vstd::prelude::*;
use vstd::string::*;
use crate::netherrack::{netherrack_rotation, shows, turn_face, turned_face, turned_rotation};
use crate::number::{decimal, push_int};
use crate::types::{Face, RotationInfo, RotationKind, TextureAlgorithm};

verus! {

/// A direction is a number of whole quarter turns, in degrees.
pub open spec fn is_quarter_turn(direction: int) -> bool {
    direction == 0 || direction == 90 || direction == 180 || direction == 270
}

/// The number of quarter turns of a direction.
pub open spec fn turns_of(direction: int) -> int {
    direction / 90
}

/// A horizontal offset after `turns` quarter turns around the Y axis. Every turn
/// takes north (negative Z) to east (positive X).
pub open spec fn turned_xz(x: int, z: int, turns: int) -> (int, int)
    decreases turns,
{
    if turns <= 0 {
        (x, z)
    } else {
        let (a, b) = turned_xz(x, z, turns - 1);
        (-b, a)
    }
}

/// Rotates a horizontal offset around the Y axis.
pub fn rotate_xz(x: i32, z: i32, direction: i32) -> (r: (i32, i32))
    requires
        is_quarter_turn(direction as int),
        x > i32::MIN,
        z > i32::MIN,
    ensures
        (r.0 as int, r.1 as int) == turned_xz(x as int, z as int, turns_of(direction as int)),
{
    proof {
        reveal_with_fuel(turned_xz, 4);
    }
    if direction == 90 {
        (-z, x)
    } else if direction == 180 {
        (-x, -z)
    } else if direction == 270 {
        (z, -x)
    } else {
        (x, z)
    }
}

/// A number fits in eight bits.
pub open spec fn fits_i8(n: int) -> bool {
    i8::MIN <= n <= i8::MAX
}

/// The offset of a row still fits in eight bits after `turns` quarter turns.
pub open spec fn turned_offset_fits(row: RotationInfo, turns: int) -> bool {
    let (x, z) = turned_xz(row.x as int, row.z as int, turns);
    fits_i8(x) && fits_i8(z)
}

/// A filter row for a structure that made `turns` quarter turns around the Y axis.
pub open spec fn turned_row(row: RotationInfo, turns: int) -> RotationInfo {
    let (x, z) = turned_xz(row.x as int, row.z as int, turns);
    RotationInfo {
        x: x as i8,
        y: row.y,
        z: z as i8,
        rotation: (match row.kind {
            RotationKind::StandardFourWay => (row.rotation + turns) % 4,
            RotationKind::StandardSide => row.rotation as int,
            RotationKind::Netherrack(face) => turned_rotation(face, row.rotation as int, turns),
        }) as u8,
        kind: match row.kind {
            RotationKind::Netherrack(face) => RotationKind::Netherrack(turned_face(face, turns)),
            kind => kind,
        },
    }
}

/// Rotates one filter row.
pub fn rotate_row(row: RotationInfo, direction: i32) -> (r: RotationInfo)
    requires
        is_quarter_turn(direction as int),
        row.valid(),
        turned_offset_fits(row, turns_of(direction as int)),
    ensures
        r == turned_row(row, turns_of(direction as int)),
        r.valid(),
{
    let (x, z): (i32, i32) = rotate_xz(row.x as i32, row.z as i32, direction);
    let turns: u8 = (direction / 90) as u8;
    let rotation: u8 = match row.kind {
        RotationKind::StandardFourWay => (row.rotation + turns) % 4,
        RotationKind::StandardSide => row.rotation,
        RotationKind::Netherrack(Face::Up) => (row.rotation + turns) % 4,
        RotationKind::Netherrack(Face::Down) => (row.rotation + 4 - turns) % 4,
        RotationKind::Netherrack(_) => row.rotation,
    };
    let kind: RotationKind = match row.kind {
        RotationKind::Netherrack(face) => RotationKind::Netherrack(turn_face(face, turns)),
        kind => kind,
    };
    RotationInfo { x: x as i8, y: row.y, z: z as i8, rotation, kind }
}

/// The four-way variant that the random function would choose where it chooses
/// `index` among sixteen.
pub open spec fn four_way(algorithm: TextureAlgorithm, index: int) -> int {
    match algorithm {
        TextureAlgorithm::Vanilla3 => index / 4,
        _ => index % 4,
    }
}

/// Converts a 16-way index to the four-way variant of the same block.
pub fn visible_four_way(algorithm: TextureAlgorithm, index: u8) -> (variant: u8)
    requires
        index < 16,
    ensures
        variant == four_way(algorithm, index as int),
        variant < 4,
{
    match algorithm {
        TextureAlgorithm::Vanilla3 => index / 4,
        _ => index % 4,
    }
}

/// A block with the 16-way model index `index` looks as the row says.
pub open spec fn accepts(algorithm: TextureAlgorithm, row: RotationInfo, index: int) -> bool {
    match row.kind {
        RotationKind::StandardFourWay => four_way(algorithm, index) == row.rotation,
        RotationKind::StandardSide => four_way(algorithm, index) % 2 == row.rotation,
        RotationKind::Netherrack(face) => shows(index, face, row.rotation as int),
    }
}

/// Tells whether a block with a model index looks as the row says.
pub fn row_accepts(algorithm: TextureAlgorithm, row: RotationInfo, index: u8) -> (r: bool)
    requires
        index < 16,
        row.valid(),
    ensures
        r == accepts(algorithm, row, index as int),
{
    match row.kind {
        RotationKind::StandardFourWay => visible_four_way(algorithm, index) == row.rotation,
        RotationKind::StandardSide => visible_four_way(algorithm, index) % 2 == row.rotation,
        RotationKind::Netherrack(face) => netherrack_rotation(index, face) == row.rotation,
    }
}

/// A block offset.
#[derive(Clone, Copy, Debug, PartialEq, Eq, Structural)]
pub struct BlockOffset {
    pub x: i8,
    pub y: i8,
    pub z: i8,
}

/// The block offset of a row.
pub open spec fn offset_of(row: RotationInfo) -> BlockOffset {
    BlockOffset { x: row.x, y: row.y, z: row.z }
}

/// A block with model index `index` at `offset` looks as every row there says.
pub open spec fn all_accept(
    algorithm: TextureAlgorithm,
    rows: Seq<RotationInfo>,
    offset: BlockOffset,
    index: int,
) -> bool {
    forall|k: int|
        0 <= k < rows.len() && offset_of(#[trigger] rows[k]) == offset ==> accepts(
            algorithm,
            rows[k],
            index,
        )
}

/// Bit `i` of a mask is set.
pub open spec fn bit(mask: u16, i: int) -> bool {
    mask & (1u16 << (i as u16)) != 0
}

/// The set bits of a mask are those `i` for which `f` holds.
pub open spec fn has_bits(mask: u16, f: spec_fn(int) -> bool) -> bool {
    forall|i: int| 0 <= i < 16 ==> #[trigger] bit(mask, i) == f(i)
}

/// The mask whose set bits are those `i` for which `f` holds.
pub open spec fn mask_where(f: spec_fn(int) -> bool) -> u16 {
    choose|mask: u16| has_bits(mask, f)
}

/// The model indices that fit every row at an offset, as a mask.
pub open spec fn offset_mask(
    algorithm: TextureAlgorithm,
    rows: Seq<RotationInfo>,
    offset: BlockOffset,
) -> u16 {
    mask_where(|i: int| all_accept(algorithm, rows, offset, i))
}

/// A mask is determined by its bits.
pub proof fn lemma_mask_unique(a: u16, b: u16, f: spec_fn(int) -> bool)
    requires
        has_bits(a, f),
        has_bits(b, f),
    ensures
        a == b,
{
    assert(bit(a, 0) == bit(b, 0) && bit(a, 1) == bit(b, 1) && bit(a, 2) == bit(b, 2) && bit(a, 3)
        == bit(b, 3) && bit(a, 4) == bit(b, 4) && bit(a, 5) == bit(b, 5) && bit(a, 6) == bit(b, 6)
        && bit(a, 7) == bit(b, 7) && bit(a, 8) == bit(b, 8) && bit(a, 9) == bit(b, 9) && bit(a, 10)
        == bit(b, 10) && bit(a, 11) == bit(b, 11) && bit(a, 12) == bit(b, 12) && bit(a, 13) == bit(
        b,
        13,
    ) && bit(a, 14) == bit(b, 14) && bit(a, 15) == bit(b, 15));
    assert(a == b) by (bit_vector)
        requires
            (a & (1u16 << 0u16) != 0) == (b & (1u16 << 0u16) != 0),
            (a & (1u16 << 1u16) != 0) == (b & (1u16 << 1u16) != 0),
            (a & (1u16 << 2u16) != 0) == (b & (1u16 << 2u16) != 0),
            (a & (1u16 << 3u16) != 0) == (b & (1u16 << 3u16) != 0),
            (a & (1u16 << 4u16) != 0) == (b & (1u16 << 4u16) != 0),
            (a & (1u16 << 5u16) != 0) == (b & (1u16 << 5u16) != 0),
            (a & (1u16 << 6u16) != 0) == (b & (1u16 << 6u16) != 0),
            (a & (1u16 << 7u16) != 0) == (b & (1u16 << 7u16) != 0),
            (a & (1u16 << 8u16) != 0) == (b & (1u16 << 8u16) != 0),
            (a & (1u16 << 9u16) != 0) == (b & (1u16 << 9u16) != 0),
            (a & (1u16 << 10u16) != 0) == (b & (1u16 << 10u16) != 0),
            (a & (1u16 << 11u16) != 0) == (b & (1u16 << 11u16) != 0),
            (a & (1u16 << 12u16) != 0) == (b & (1u16 << 12u16) != 0),
            (a & (1u16 << 13u16) != 0) == (b & (1u16 << 13u16) != 0),
            (a & (1u16 << 14u16) != 0) == (b & (1u16 << 14u16) != 0),
            (a & (1u16 << 15u16) != 0) == (b & (1u16 << 15u16) != 0),
    ;
}

/// Setting one bit changes that bit only.
pub proof fn lemma_set_bit(mask: u16, i: u16, j: u16)
    requires
        i < 16,
        j < 16,
    ensures
        bit(mask | (1u16 << i), j as int) == (bit(mask, j as int) || i == j),
{
    assert(((mask | (1u16 << i)) & (1u16 << j) != 0) == (mask & (1u16 << j) != 0 || i == j))
        by (bit_vector)
        requires
            i < 16,
            j < 16,
    ;
}

/// No bit of the empty mask is set.
pub proof fn lemma_empty_mask(i: int)
    requires
        0 <= i < 16,
    ensures
        !bit(0, i),
{
    let k = i as u16;
    assert(0u16 & (1u16 << k) == 0) by (bit_vector);
}

/// Returns the model indices that fit every row at an offset.
fn combined_mask(
    algorithm: TextureAlgorithm,
    rows: &Vec<RotationInfo>,
    offset: BlockOffset,
) -> (mask: u16)
    requires
        forall|k: int| 0 <= k < rows.len() ==> (#[trigger] rows[k]).valid(),
    ensures
        mask == offset_mask(algorithm, rows@, offset),
        has_bits(mask, |i: int| all_accept(algorithm, rows@, offset, i)),
{
    let mut mask: u16 = 0;
    let mut index: u8 = 0;
    assert forall|j: int| 0 <= j < 16 implies !#[trigger] bit(0, j) by {
        lemma_empty_mask(j);
    }
    while index < 16
        invariant
            index <= 16,
            forall|k: int| 0 <= k < rows.len() ==> (#[trigger] rows[k]).valid(),
            forall|j: int|
                0 <= j < 16 ==> #[trigger] bit(mask, j) == (j < index && all_accept(
                    algorithm,
                    rows@,
                    offset,
                    j,
                )),
        decreases 16 - index,
    {
        let mut fits: bool = true;
        let mut k: usize = 0;
        while k < rows.len()
            invariant
                k <= rows.len(),
                index < 16,
                forall|k: int| 0 <= k < rows.len() ==> (#[trigger] rows[k]).valid(),
                fits == (forall|m: int|
                    0 <= m < k && offset_of(#[trigger] rows[m]) == offset ==> accepts(
                        algorithm,
                        rows[m],
                        index as int,
                    )),
            decreases rows.len() - k,
        {
            let row: RotationInfo = rows[k];
            if row.x == offset.x && row.y == offset.y && row.z == offset.z {
                if !row_accepts(algorithm, row, index) {
                    fits = false;
                }
            }
            k = k + 1;
        }
        assert(fits == all_accept(algorithm, rows@, offset, index as int));
        if fits {
            let ghost before = mask;
            mask = mask | (1u16 << (index as u16));
            assert forall|j: int| 0 <= j < 16 implies #[trigger] bit(mask, j) == (bit(before, j)
                || j == index) by {
                lemma_set_bit(before, index as u16, j as u16);
            }
        }
        index = index + 1;
    }
    proof {
        let f = |i: int| all_accept(algorithm, rows@, offset, i);
        assert(has_bits(mask, f));
        assert(has_bits(mask_where(f), f));
        lemma_mask_unique(mask, mask_where(f), f);
    }
    mask
}

/// The offsets of the rows, each once, in the order of their first row.
pub open spec fn distinct_offsets(rows: Seq<RotationInfo>) -> Seq<BlockOffset>
    decreases rows.len(),
{
    if rows.len() == 0 {
        Seq::empty()
    } else {
        let before = distinct_offsets(rows.drop_last());
        if before.contains(offset_of(rows.last())) {
            before
        } else {
            before.push(offset_of(rows.last()))
        }
    }
}

/// Returns the offsets of the rows, each once.
fn collect_offsets(rows: &Vec<RotationInfo>) -> (offsets: Vec<BlockOffset>)
    ensures
        offsets@ == distinct_offsets(rows@),
{
    let mut offsets: Vec<BlockOffset> = Vec::new();
    let mut i: usize = 0;
    while i < rows.len()
        invariant
            i <= rows.len(),
            offsets@ == distinct_offsets(rows@.take(i as int)),
        decreases rows.len() - i,
    {
        let row: RotationInfo = rows[i];
        let offset: BlockOffset = BlockOffset { x: row.x, y: row.y, z: row.z };
        let mut known: bool = false;
        let mut k: usize = 0;
        while k < offsets.len()
            invariant
                k <= offsets.len(),
                known == (exists|m: int| 0 <= m < k && #[trigger] offsets[m] == offset),
            decreases offsets.len() - k,
        {
            if offsets[k] == offset {
                known = true;
            }
            k = k + 1;
        }
        assert(known == offsets@.contains(offset));
        assert(rows@.take(i + 1).drop_last() =~= rows@.take(i as int));
        if !known {
            offsets.push(offset);
        }
        i = i + 1;
    }
    assert(rows@.take(i as int) =~= rows@);
    offsets
}

/// One block constraint: bit `i` of `accepted_indices` tells whether the 16-way
/// model index `i` matches the block at the offset.
#[derive(Clone, Copy, Debug, PartialEq, Eq, Structural)]
pub struct CompiledRotation {
    pub x: i8,
    pub y: i8,
    pub z: i8,
    pub accepted_indices: u16,
}

/// The number of set bits among the lowest `n` of a mask.
pub open spec fn bits_below(mask: u16, n: int) -> int
    decreases n,
{
    if n <= 0 {
        0
    } else {
        bits_below(mask, n - 1) + if bit(mask, n - 1) { 1int } else { 0 }
    }
}

/// The number of set bits of a mask.
pub open spec fn bits_set(mask: u16) -> int {
    bits_below(mask, 16)
}

/// Returns the number of set bits of a mask.
fn count_bits(mask: u16) -> (n: u32)
    ensures
        n == bits_set(mask),
        n <= 16,
{
    let mut n: u32 = 0;
    let mut i: u16 = 0;
    while i < 16
        invariant
            i <= 16,
            n <= i,
            n == bits_below(mask, i as int),
        decreases 16 - i,
    {
        if mask & (1u16 << i) != 0 {
            n = n + 1;
        }
        i = i + 1;
    }
    n
}

/// The number of model indices that a constraint accepts.
pub open spec fn constraint_bits(c: CompiledRotation) -> int {
    bits_set(c.accepted_indices)
}

/// The constraints with up to `n` accepted indices: those with fewer first, and
/// in the given order among equals.
pub open spec fn ranked(constraints: Seq<CompiledRotation>, n: int) -> Seq<CompiledRotation>
    decreases n,
{
    if n <= 0 {
        Seq::empty()
    } else {
        ranked(constraints, n - 1) + constraints.filter(
            |c: CompiledRotation| constraint_bits(c) == n,
        )
    }
}

/// Returns the constraints ordered by the number of accepted indices.
fn rank_constraints(constraints: &Vec<CompiledRotation>) -> (sorted: Vec<CompiledRotation>)
    ensures
        sorted@ == ranked(constraints@, 16),
{
    let mut sorted: Vec<CompiledRotation> = Vec::new();
    let mut bits: u32 = 0;
    while bits < 16
        invariant
            bits <= 16,
            sorted@ == ranked(constraints@, bits as int),
        decreases 16 - bits,
    {
        bits = bits + 1;
        let ghost before = sorted@;
        let ghost keep = |c: CompiledRotation| constraint_bits(c) == bits;
        let mut i: usize = 0;
        assert(constraints@.take(0).filter(keep) =~= Seq::empty()) by {
            reveal(Seq::filter);
        }
        while i < constraints.len()
            invariant
                i <= constraints.len(),
                sorted@ == before + constraints@.take(i as int).filter(keep),
                forall|c: CompiledRotation| #[trigger] keep(c) == (constraint_bits(c) == bits),
            decreases constraints.len() - i,
        {
            let c: CompiledRotation = constraints[i];
            proof {
                reveal(Seq::filter);
                assert(constraints@.take(i + 1).drop_last() =~= constraints@.take(i as int));
                assert(constraints@.take(i + 1).last() == c);
                assert(keep(c) == (constraint_bits(c) == bits));
            }
            if count_bits(c.accepted_indices) == bits {
                sorted.push(c);
            }
            i = i + 1;
        }
        assert(constraints@.take(i as int) =~= constraints@);
    }
    sorted
}

/// What one direction leaves to check.
pub struct DirectionView {
    pub direction: i32,
    pub constraints: Seq<CompiledRotation>,
    pub forced_errors: int,
    pub contradictions: Seq<BlockOffset>,
}

/// The constraint at one offset.
pub open spec fn compiled(
    algorithm: TextureAlgorithm,
    rows: Seq<RotationInfo>,
    offset: BlockOffset,
) -> CompiledRotation {
    CompiledRotation {
        x: offset.x,
        y: offset.y,
        z: offset.z,
        accepted_indices: offset_mask(algorithm, rows, offset),
    }
}

/// The offsets where some model index fits every row.
pub open spec fn usable_offsets(
    algorithm: TextureAlgorithm,
    rows: Seq<RotationInfo>,
) -> Seq<BlockOffset> {
    distinct_offsets(rows).filter(|o: BlockOffset| offset_mask(algorithm, rows, o) != 0)
}

/// The offsets where no model index fits every row.
pub open spec fn contradictory_offsets(
    algorithm: TextureAlgorithm,
    rows: Seq<RotationInfo>,
) -> Seq<BlockOffset> {
    distinct_offsets(rows).filter(|o: BlockOffset| offset_mask(algorithm, rows, o) == 0)
}

/// The rows as they look in one direction.
pub open spec fn turned_rows(rows: Seq<RotationInfo>, direction: int) -> Seq<RotationInfo> {
    rows.map_values(|row: RotationInfo| turned_row(row, turns_of(direction)))
}

/// The filter for one direction: one constraint for every block offset where the
/// rows can hold together, those that accept fewer indices first, and a list of
/// the offsets where they cannot, each of which forces one error.
pub open spec fn direction_filter(
    algorithm: TextureAlgorithm,
    rows: Seq<RotationInfo>,
    direction: i32,
) -> DirectionView {
    let turned = turned_rows(rows, direction as int);
    DirectionView {
        direction,
        constraints: ranked(
            usable_offsets(algorithm, turned).map_values(
                |o: BlockOffset| compiled(algorithm, turned, o),
            ),
            16,
        ),
        forced_errors: contradictory_offsets(algorithm, turned).len() as int,
        contradictions: contradictory_offsets(algorithm, turned),
    }
}

/// The block filter for one direction.
#[derive(Clone, Debug)]
pub struct PreparedDirection {
    pub direction: i32,
    /// The blocks to check, in the order to check them.
    pub constraints: Vec<CompiledRotation>,
    /// The number of blocks that can never match.
    pub forced_errors: usize,
    /// The offsets of the blocks that can never match.
    pub contradictions: Vec<BlockOffset>,
}

impl View for PreparedDirection {
    type V = DirectionView;

    open spec fn view(&self) -> DirectionView {
        DirectionView {
            direction: self.direction,
            constraints: self.constraints@,
            forced_errors: self.forced_errors as int,
            contradictions: self.contradictions@,
        }
    }
}

/// The rows can be prepared for a direction.
pub open spec fn rows_fit(rows: Seq<RotationInfo>, direction: int) -> bool {
    forall|k: int|
        0 <= k < rows.len() ==> (#[trigger] rows[k]).valid() && turned_offset_fits(
            rows[k],
            turns_of(direction),
        )
}

/// Prepares the filter rows for one direction.
pub fn prepare_direction(
    rows: &[RotationInfo],
    algorithm: TextureAlgorithm,
    direction: i32,
) -> (prepared: PreparedDirection)
    requires
        is_quarter_turn(direction as int),
        rows_fit(rows@, direction as int),
    ensures
        prepared@ == direction_filter(algorithm, rows@, direction),
{
    let mut turned: Vec<RotationInfo> = Vec::new();
    let mut i: usize = 0;
    while i < rows.len()
        invariant
            i <= rows.len(),
            is_quarter_turn(direction as int),
            rows_fit(rows@, direction as int),
            turned@ == turned_rows(rows@.take(i as int), direction as int),
            forall|k: int| 0 <= k < turned.len() ==> (#[trigger] turned[k]).valid(),
        decreases rows.len() - i,
    {
        turned.push(rotate_row(rows[i], direction));
        assert(turned@ =~= turned_rows(rows@.take(i + 1), direction as int));
        i = i + 1;
    }
    assert(rows@.take(i as int) =~= rows@);

    let offsets: Vec<BlockOffset> = collect_offsets(&turned);
    let ghost usable = |o: BlockOffset| offset_mask(algorithm, turned@, o) != 0;
    let ghost useless = |o: BlockOffset| offset_mask(algorithm, turned@, o) == 0;
    let ghost compile = |o: BlockOffset| compiled(algorithm, turned@, o);
    let mut constraints: Vec<CompiledRotation> = Vec::new();
    let mut contradictions: Vec<BlockOffset> = Vec::new();
    let mut k: usize = 0;
    proof {
        reveal(Seq::filter);
        assert(offsets@.take(0).filter(usable) =~= Seq::empty());
        assert(offsets@.take(0).filter(useless) =~= Seq::empty());
    }
    while k < offsets.len()
        invariant
            k <= offsets.len(),
            usable == (|o: BlockOffset| offset_mask(algorithm, turned@, o) != 0),
            useless == (|o: BlockOffset| offset_mask(algorithm, turned@, o) == 0),
            compile == (|o: BlockOffset| compiled(algorithm, turned@, o)),
            forall|k: int| 0 <= k < turned.len() ==> (#[trigger] turned[k]).valid(),
            constraints@ == offsets@.take(k as int).filter(usable).map_values(compile),
            contradictions@ == offsets@.take(k as int).filter(useless),
        decreases offsets.len() - k,
    {
        let offset: BlockOffset = offsets[k];
        let mask: u16 = combined_mask(algorithm, &turned, offset);
        let ghost done = offsets@.take(k as int);
        proof {
            reveal(Seq::filter);
            assert(offsets@.take(k + 1).drop_last() =~= done);
            assert(offsets@.take(k + 1).last() == offset);
        }
        if mask != 0 {
            constraints.push(
                CompiledRotation {
                    x: offset.x,
                    y: offset.y,
                    z: offset.z,
                    accepted_indices: mask,
                },
            );
            assert(done.filter(usable).push(offset).map_values(compile) =~= done.filter(
                usable,
            ).map_values(compile).push(compile(offset)));
        } else {
            contradictions.push(offset);
        }
        k = k + 1;
    }
    assert(offsets@.take(k as int) =~= offsets@);
    PreparedDirection {
        direction,
        constraints: rank_constraints(&constraints),
        forced_errors: contradictions.len(),
        contradictions,
    }
}

/// The row is about a netherrack block.
pub open spec fn is_netherrack(row: RotationInfo) -> bool {
    row.kind is Netherrack
}

/// Some block offset has both ordinary and netherrack rows.
pub open spec fn mixes_kinds(rows: Seq<RotationInfo>) -> bool {
    exists|i: int, j: int|
        0 <= i < rows.len() && 0 <= j < rows.len() && offset_of(#[trigger] rows[i]) == offset_of(
            #[trigger] rows[j],
        ) && is_netherrack(rows[i]) && !is_netherrack(rows[j])
}

/// More blocks can never match than the tolerance allows.
pub open spec fn is_skipped(view: DirectionView, tolerance: int) -> bool {
    view.forced_errors > tolerance
}

/// Every coordinate would match: nothing is left to check, and the tolerance
/// covers the blocks that can never match.
pub open spec fn matches_everything(view: DirectionView, tolerance: int) -> bool {
    view.constraints.len() == 0 && !is_skipped(view, tolerance)
}

/// The filters for several directions.
pub open spec fn direction_filters(
    algorithm: TextureAlgorithm,
    rows: Seq<RotationInfo>,
    directions: Seq<i32>,
) -> Seq<DirectionView> {
    directions.map_values(|d: i32| direction_filter(algorithm, rows, d))
}

/// The first filter that matches everything.
pub open spec fn first_open_filter(views: Seq<DirectionView>, tolerance: int) -> Option<
    DirectionView,
>
    decreases views.len(),
{
    if views.len() == 0 {
        None
    } else if matches_everything(views[0], tolerance) {
        Some(views[0])
    } else {
        first_open_filter(views.drop_first(), tolerance)
    }
}

/// Why filter rows cannot be used for a scan, if so.
pub open spec fn prepare_error(
    algorithm: TextureAlgorithm,
    rows: Seq<RotationInfo>,
    directions: Seq<i32>,
    tolerance: int,
) -> Option<Seq<char>> {
    let views = direction_filters(algorithm, rows, directions);
    if mixes_kinds(rows) {
        Some("ordinary and netherrack filters cannot share a block offset"@)
    } else {
        match first_open_filter(views, tolerance) {
            Some(view) => Some(
                "direction "@ + decimal(view.direction as int) + " has no usable filters"@,
            ),
            None => if forall|i: int|
                0 <= i < views.len() ==> is_skipped(#[trigger] views[i], tolerance) {
                Some("forced errors exceed errorTolerance in every direction"@)
            } else {
                None
            },
        }
    }
}

/// The block filters for all directions, in the order of the directions.
#[derive(Clone, Debug)]
pub struct PreparedFilters {
    pub directions: Vec<PreparedDirection>,
}

impl View for PreparedFilters {
    type V = Seq<DirectionView>;

    open spec fn view(&self) -> Seq<DirectionView> {
        self.directions@.map_values(|d: PreparedDirection| d@)
    }
}

/// Tells whether some block offset has both ordinary and netherrack rows.
fn has_mixed_kinds(rows: &[RotationInfo]) -> (r: bool)
    ensures
        r == mixes_kinds(rows@),
{
    let mut i: usize = 0;
    while i < rows.len()
        invariant
            i <= rows.len(),
            forall|m: int, n: int|
                0 <= m < i && 0 <= n < rows.len() && offset_of(#[trigger] rows[m]) == offset_of(
                    #[trigger] rows[n],
                ) && is_netherrack(rows[m]) ==> is_netherrack(rows[n]),
        decreases rows.len() - i,
    {
        let a: RotationInfo = rows[i];
        if let RotationKind::Netherrack(_) = a.kind {
            let mut j: usize = 0;
            while j < rows.len()
                invariant
                    i < rows.len(),
                    j <= rows.len(),
                    a == rows[i as int],
                    is_netherrack(a),
                    forall|n: int|
                        0 <= n < j && offset_of(a) == offset_of(#[trigger] rows[n])
                            ==> is_netherrack(rows[n]),
                decreases rows.len() - j,
            {
                let b: RotationInfo = rows[j];
                if a.x == b.x && a.y == b.y && a.z == b.z {
                    match b.kind {
                        RotationKind::Netherrack(_) => {},
                        _ => {
                            assert(offset_of(rows[i as int]) == offset_of(rows[j as int]));
                            return true;
                        },
                    }
                }
                j = j + 1;
            }
        }
        i = i + 1;
    }
    false
}

/// What is known of the first `n` filters after none of them was found open.
proof fn lemma_no_open_filter(views: Seq<DirectionView>, tolerance: int, n: int)
    requires
        0 <= n <= views.len(),
        forall|i: int| 0 <= i < n ==> !matches_everything(#[trigger] views[i], tolerance),
    ensures
        first_open_filter(views, tolerance) == first_open_filter(views.skip(n), tolerance),
    decreases n,
{
    if n == 0 {
        assert(views.skip(0) =~= views);
    } else {
        let rest = views.drop_first();
        assert(forall|i: int| 0 <= i < n - 1 ==> rest[i] == views[i + 1]);
        assert(!matches_everything(views[0], tolerance));
        lemma_no_open_filter(rest, tolerance, n - 1);
        assert(rest.skip(n - 1) =~= views.skip(n));
    }
}

/// Prepares the filter rows for every direction. Rows for the same block are
/// combined. A direction where more blocks can never match than the tolerance
/// allows stays in the list, but no scan of it can succeed.
pub fn prepare_filters(
    rows: &[RotationInfo],
    algorithm: TextureAlgorithm,
    directions: &[i32],
    error_tolerance: i32,
) -> (result: Result<PreparedFilters, String>)
    requires
        forall|i: int|
            0 <= i < directions.len() ==> is_quarter_turn(#[trigger] directions[i] as int)
                && rows_fit(rows@, directions[i] as int),
    ensures
        match prepare_error(algorithm, rows@, directions@, error_tolerance as int) {
            Some(message) => result matches Err(error) && error@ == message,
            None => {
                &&& result matches Ok(prepared)
                &&& prepared@ == direction_filters(algorithm, rows@, directions@)
            },
        },
{
    if has_mixed_kinds(rows) {
        return Err("ordinary and netherrack filters cannot share a block offset".to_owned());
    }
    let ghost views = direction_filters(algorithm, rows@, directions@);
    let mut prepared: Vec<PreparedDirection> = Vec::new();
    let mut all_skipped: bool = true;
    let mut i: usize = 0;
    while i < directions.len()
        invariant
            i <= directions.len(),
            !mixes_kinds(rows@),
            views == direction_filters(algorithm, rows@, directions@),
            forall|i: int|
                0 <= i < directions.len() ==> is_quarter_turn(#[trigger] directions[i] as int)
                    && rows_fit(rows@, directions[i] as int),
            prepared.len() == i,
            forall|k: int|
                0 <= k < i ==> (#[trigger] prepared[k])@ == views[k],
            forall|k: int|
                0 <= k < i ==> !matches_everything(#[trigger] views[k], error_tolerance as int),
            all_skipped == (forall|k: int|
                0 <= k < i ==> is_skipped(#[trigger] views[k], error_tolerance as int)),
        decreases directions.len() - i,
    {
        let direction: i32 = directions[i];
        let filter: PreparedDirection = prepare_direction(rows, algorithm, direction);
        assert(filter@ == views[i as int]);
        let skipped: bool = filter.forced_errors as i128 > error_tolerance as i128;
        if !skipped {
            if filter.constraints.len() == 0 {
                proof {
                    lemma_no_open_filter(views, error_tolerance as int, i as int);
                    assert(views.skip(i as int)[0] == views[i as int]);
                }
                let mut message: String = "direction ".to_owned();
                push_int(&mut message, direction as i64);
                message.append(" has no usable filters");
                return Err(message);
            }
            all_skipped = false;
        }
        prepared.push(filter);
        i = i + 1;
    }
    proof {
        lemma_no_open_filter(views, error_tolerance as int, i as int);
        assert(views.skip(i as int).len() == 0);
    }
    if all_skipped {
        return Err("forced errors exceed errorTolerance in every direction".to_owned());
    }
    let result: PreparedFilters = PreparedFilters { directions: prepared };
    assert(result@ =~= views);
    Ok(result)
}

/// The note on one block that can never match.
pub open spec fn contradiction_note(direction: i32, offset: BlockOffset) -> Seq<char> {
    " [direction "@ + decimal(direction as int) + " at ("@ + decimal(offset.x as int) + ", "@
        + decimal(offset.y as int) + ", "@ + decimal(offset.z as int) + ")]"@
}

/// The notes on all blocks that can never match in one direction.
pub open spec fn direction_notes(direction: i32, offsets: Seq<BlockOffset>) -> Seq<char>
    decreases offsets.len(),
{
    if offsets.len() == 0 {
        Seq::empty()
    } else {
        direction_notes(direction, offsets.drop_last()) + contradiction_note(
            direction,
            offsets.last(),
        )
    }
}

/// The notes on all blocks that can never match.
pub open spec fn all_notes(views: Seq<DirectionView>) -> Seq<char>
    decreases views.len(),
{
    if views.len() == 0 {
        Seq::empty()
    } else {
        all_notes(views.drop_last()) + direction_notes(
            views.last().direction,
            views.last().contradictions,
        )
    }
}

/// The warning about blocks that can never match, if there are any.
pub open spec fn warning_text(views: Seq<DirectionView>) -> Option<Seq<char>> {
    if exists|i: int| 0 <= i < views.len() && (#[trigger] views[i]).contradictions.len() > 0 {
        Some("contradictory filter rows force block errors:"@ + all_notes(views))
    } else {
        None
    }
}

/// Appends the note on one block that can never match.
fn push_note(text: &mut String, direction: i32, offset: BlockOffset)
    ensures
        final(text)@ == old(text)@ + contradiction_note(direction, offset),
{
    text.append(" [direction ");
    push_int(text, direction as i64);
    text.append(" at (");
    push_int(text, offset.x as i64);
    text.append(", ");
    push_int(text, offset.y as i64);
    text.append(", ");
    push_int(text, offset.z as i64);
    text.append(")]");
    assert(text@ =~= old(text)@ + contradiction_note(direction, offset));
}

impl PreparedFilters {
    /// Returns a warning that shows the direction and the offset of every block
    /// that can never match.
    pub fn warning(&self) -> (warning: Option<String>)
        ensures
            match warning {
                Some(text) => warning_text(self@) == Some(text@),
                None => warning_text(self@) is None,
            },
    {
        let mut text: String = "contradictory filter rows force block errors:".to_owned();
        let ghost head = text@;
        let mut found: bool = false;
        let mut i: usize = 0;
        assert(head + all_notes(self@.take(0)) =~= head);
        while i < self.directions.len()
            invariant
                i <= self.directions.len(),
                found == (exists|k: int|
                    0 <= k < i && (#[trigger] self@[k]).contradictions.len() > 0),
                text@ == head + all_notes(self@.take(i as int)),
            decreases self.directions.len() - i,
        {
            let filter: &PreparedDirection = &self.directions[i];
            let ghost before = text@;
            let ghost offsets = filter.contradictions@;
            assert(filter@ == self@[i as int]);
            let mut k: usize = 0;
            assert(before + direction_notes(filter.direction, offsets.take(0)) =~= before);
            while k < filter.contradictions.len()
                invariant
                    k <= filter.contradictions.len(),
                    offsets == filter.contradictions@,
                    text@ == before + direction_notes(filter.direction, offsets.take(k as int)),
                decreases filter.contradictions.len() - k,
            {
                push_note(&mut text, filter.direction, filter.contradictions[k]);
                assert(offsets.take(k + 1).drop_last() =~= offsets.take(k as int));
                assert(text@ =~= before + direction_notes(
                    filter.direction,
                    offsets.take(k + 1),
                ));
                k = k + 1;
            }
            if filter.contradictions.len() > 0 {
                found = true;
            }
            assert(offsets.take(k as int) =~= offsets);
            assert(self@.take(i + 1).drop_last() =~= self@.take(i as int));
            assert(text@ =~= head + all_notes(self@.take(i + 1)));
            i = i + 1;
        }
        assert(self@.take(i as int) =~= self@);
        if found {
            Some(text)
        } else {
            None
        }
    }
}

} // verus!
