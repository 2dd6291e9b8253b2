//! Netherrack: sixteen models of one cube, told apart by the texture rotations
//! of its faces.
//!
//! Model `i` turns the cube by `i % 4` quarter turns around the X axis and then
//! by `i / 4` quarter turns around the Y axis. The texture of every face moves
//! and turns with the cube.

use vstd::prelude::*;
use crate::types::Face;

verus! {

/// A direction in the world: X points east, Y up and Z south.
pub struct Axis {
    pub x: int,
    pub y: int,
    pub z: int,
}

/// The direction that a face looks in.
pub open spec fn normal(face: Face) -> Axis {
    match face {
        Face::Up => Axis { x: 0, y: 1, z: 0 },
        Face::Down => Axis { x: 0, y: -1, z: 0 },
        Face::North => Axis { x: 0, y: 0, z: -1 },
        Face::South => Axis { x: 0, y: 0, z: 1 },
        Face::East => Axis { x: 1, y: 0, z: 0 },
        Face::West => Axis { x: -1, y: 0, z: 0 },
    }
}

/// Where the top of the raw texture points on a face of the unturned cube.
pub open spec fn texture_top(face: Face) -> Axis {
    match face {
        Face::Up => Axis { x: 0, y: 0, z: -1 },
        Face::Down => Axis { x: 0, y: 0, z: 1 },
        _ => Axis { x: 0, y: 1, z: 0 },
    }
}

/// Where the right side of the raw texture points on a face of the unturned cube.
pub open spec fn texture_right(face: Face) -> Axis {
    match face {
        Face::Up | Face::Down | Face::South => Axis { x: 1, y: 0, z: 0 },
        Face::North => Axis { x: -1, y: 0, z: 0 },
        Face::East => Axis { x: 0, y: 0, z: -1 },
        Face::West => Axis { x: 0, y: 0, z: 1 },
    }
}

/// The opposite direction.
pub open spec fn opposite(v: Axis) -> Axis {
    Axis { x: -v.x, y: -v.y, z: -v.z }
}

/// Where the top of a texture points on a face after `rotation` quarter turns,
/// clockwise for a viewer outside the block.
pub open spec fn turned_top(face: Face, rotation: int) -> Axis {
    if rotation == 0 {
        texture_top(face)
    } else if rotation == 1 {
        texture_right(face)
    } else if rotation == 2 {
        opposite(texture_top(face))
    } else {
        opposite(texture_right(face))
    }
}

/// `turns` quarter turns around the X axis; one takes up to north.
pub open spec fn turned_around_x(v: Axis, turns: int) -> Axis {
    if turns == 0 {
        v
    } else if turns == 1 {
        Axis { x: v.x, y: v.z, z: -v.y }
    } else if turns == 2 {
        Axis { x: v.x, y: -v.y, z: -v.z }
    } else {
        Axis { x: v.x, y: -v.z, z: v.y }
    }
}

/// `turns` quarter turns around the Y axis; one takes north to east.
pub open spec fn turned_around_y(v: Axis, turns: int) -> Axis {
    if turns == 0 {
        v
    } else if turns == 1 {
        Axis { x: -v.z, y: v.y, z: v.x }
    } else if turns == 2 {
        Axis { x: -v.x, y: v.y, z: -v.z }
    } else {
        Axis { x: v.z, y: v.y, z: -v.x }
    }
}

/// Where model `index` moves a direction of the unturned cube.
pub open spec fn model_turned(index: int, v: Axis) -> Axis {
    turned_around_y(turned_around_x(v, index % 4), index / 4)
}

/// Model `index` shows the texture on a world face turned clockwise by
/// `rotation` quarter turns: some face of the cube came to lie there, with the
/// top of its texture pointing accordingly.
pub open spec fn shows(index: int, face: Face, rotation: int) -> bool {
    exists|source: Face|
        model_turned(index, #[trigger] normal(source)) == normal(face) && model_turned(
            index,
            texture_top(source),
        ) == turned_top(face, rotation)
}

/// The world face after one quarter turn around the Y axis.
pub open spec fn next_face(face: Face) -> Face {
    match face {
        Face::North => Face::East,
        Face::East => Face::South,
        Face::South => Face::West,
        Face::West => Face::North,
        _ => face,
    }
}

/// The world face after `turns` quarter turns around the Y axis.
pub open spec fn turned_face(face: Face, turns: int) -> Face
    decreases turns,
{
    if turns <= 0 {
        face
    } else {
        next_face(turned_face(face, turns - 1))
    }
}

/// Returns the face that one quarter turn around the Y axis takes `face` to.
fn turn_face_once(face: Face) -> (r: Face)
    ensures
        r == next_face(face),
{
    match face {
        Face::North => Face::East,
        Face::East => Face::South,
        Face::South => Face::West,
        Face::West => Face::North,
        Face::Up => Face::Up,
        Face::Down => Face::Down,
    }
}

/// Returns the face that `turns` quarter turns around the Y axis take `face` to.
pub fn turn_face(face: Face, turns: u8) -> (r: Face)
    ensures
        r == turned_face(face, turns as int),
{
    let mut r: Face = face;
    let mut i: u8 = 0;
    while i < turns
        invariant
            i <= turns,
            r == turned_face(face, i as int),
        decreases turns - i,
    {
        r = turn_face_once(r);
        i = i + 1;
    }
    r
}

/// Returns the rotation that the models without a turn around the Y axis show.
fn unturned_rotation(x_turns: u8, face: Face) -> (rotation: u8)
    requires
        x_turns < 4,
    ensures
        rotation < 4,
        shows(x_turns as int, face, rotation as int),
{
    let (source, rotation): (Face, u8) = match x_turns {
        0 => (face, 0),
        1 => match face {
            Face::Up => (Face::South, 0),
            Face::Down => (Face::North, 2),
            Face::North => (Face::Up, 2),
            Face::South => (Face::Down, 0),
            Face::East => (Face::East, 1),
            Face::West => (Face::West, 3),
        },
        2 => match face {
            Face::Up => (Face::Down, 0),
            Face::Down => (Face::Up, 0),
            Face::North => (Face::South, 2),
            Face::South => (Face::North, 2),
            Face::East => (Face::East, 2),
            Face::West => (Face::West, 2),
        },
        _ => match face {
            Face::Up => (Face::North, 2),
            Face::Down => (Face::South, 0),
            Face::North => (Face::Down, 2),
            Face::South => (Face::Up, 0),
            Face::East => (Face::East, 3),
            Face::West => (Face::West, 1),
        },
    };
    assert(model_turned(x_turns as int, normal(source)) == normal(face));
    rotation
}

/// The model that looks like model `index` after `turns` quarter turns of the
/// world around the Y axis.
pub open spec fn turned_model(index: int, turns: int) -> int {
    index % 4 + 4 * ((index / 4 + turns) % 4)
}

/// The rotation that a viewer sees on a face after the world made `turns` quarter
/// turns around the Y axis: the top face turns along, the bottom face is seen
/// from below and turns the other way, a side face moves without turning.
pub open spec fn turned_rotation(face: Face, rotation: int, turns: int) -> int {
    match face {
        Face::Up => (rotation + turns) % 4,
        Face::Down => (rotation - turns) % 4,
        _ => rotation,
    }
}

/// One quarter turn of the world.
proof fn lemma_shows_next(index: int, face: Face, rotation: int)
    requires
        0 <= index < 16,
        0 <= rotation < 4,
    ensures
        shows(index, face, rotation) <==> shows(
            turned_model(index, 1),
            next_face(face),
            turned_rotation(face, rotation, 1),
        ),
{
    let next = turned_model(index, 1);
    let (x, y) = (index % 4, index / 4);
    assert(next % 4 == x && next / 4 == (y + 1) % 4);
    assert forall|v: Axis| #[trigger]
        model_turned(next, v) == turned_around_y(model_turned(index, v), 1) by {
        let w = turned_around_x(v, x);
        assert(y == 0 || y == 1 || y == 2 || y == 3);
    }
    assert(turned_around_y(normal(face), 1) == normal(next_face(face)));
    assert(turned_around_y(turned_top(face, rotation), 1) == turned_top(
        next_face(face),
        turned_rotation(face, rotation, 1),
    ));
    if shows(index, face, rotation) {
        let source = choose|source: Face|
            model_turned(index, #[trigger] normal(source)) == normal(face) && model_turned(
                index,
                texture_top(source),
            ) == turned_top(face, rotation);
        assert(model_turned(next, normal(source)) == normal(next_face(face)));
        assert(model_turned(next, texture_top(source)) == turned_top(
            next_face(face),
            turned_rotation(face, rotation, 1),
        ));
    }
    if shows(next, next_face(face), turned_rotation(face, rotation, 1)) {
        let source = choose|source: Face|
            model_turned(next, #[trigger] normal(source)) == normal(next_face(face))
                && model_turned(next, texture_top(source)) == turned_top(
                next_face(face),
                turned_rotation(face, rotation, 1),
            );
        assert(model_turned(next, normal(source)) == turned_around_y(
            model_turned(index, normal(source)),
            1,
        ));
        assert(model_turned(next, texture_top(source)) == turned_around_y(
            model_turned(index, texture_top(source)),
            1,
        ));
        assert(model_turned(index, normal(source)) == normal(face));
    }
}

/// One more quarter turn, for models and for rotations.
proof fn lemma_one_more_turn(index: int, face: Face, rotation: int, turns: int)
    requires
        0 <= index < 16,
        0 <= rotation < 4,
        1 <= turns,
    ensures
        0 <= turned_model(index, turns) < 16,
        0 <= turned_rotation(face, rotation, turns) < 4,
        turned_model(turned_model(index, turns - 1), 1) == turned_model(index, turns),
        turned_rotation(
            turned_face(face, turns - 1),
            turned_rotation(face, rotation, turns - 1),
            1,
        ) == turned_rotation(face, rotation, turns),
{
    let (x, y) = (index % 4, index / 4);
    let m = (y + turns - 1) % 4;
    assert((x + 4 * m) % 4 == x && (x + 4 * m) / 4 == m);
    assert((m + 1) % 4 == (y + turns) % 4);
    lemma_vertical_faces_stay(face, turns - 1);
    assert(((rotation + (turns - 1)) % 4 + 1) % 4 == (rotation + turns) % 4);
    assert(((rotation - (turns - 1)) % 4 - 1) % 4 == (rotation - turns) % 4);
}

/// A turn of the world around the Y axis carries every model to a model that
/// shows the turned rotation on the turned face, and nothing else.
pub proof fn law_models_turn_with_the_world(index: int, face: Face, rotation: int, turns: int)
    requires
        0 <= index < 16,
        0 <= rotation < 4,
        0 <= turns,
    ensures
        0 <= turned_model(index, turns) < 16,
        shows(index, face, rotation) <==> shows(
            turned_model(index, turns),
            turned_face(face, turns),
            turned_rotation(face, rotation, turns),
        ),
    decreases turns,
{
    if turns == 0 {
        assert(turned_model(index, 0) == index);
        assert(turned_rotation(face, rotation, 0) == rotation);
    } else {
        law_models_turn_with_the_world(index, face, rotation, turns - 1);
        let (i, f, r) = (
            turned_model(index, turns - 1),
            turned_face(face, turns - 1),
            turned_rotation(face, rotation, turns - 1),
        );
        lemma_one_more_turn(index, face, rotation, turns);
        if turns > 1 {
            lemma_one_more_turn(index, face, rotation, turns - 1);
        } else {
            assert(turned_rotation(face, rotation, 0) == rotation);
        }
        lemma_shows_next(i, f, r);
    }
}

/// Turns around the Y axis keep the top and the bottom face where they are.
proof fn lemma_vertical_faces_stay(face: Face, turns: int)
    ensures
        turned_face(face, turns) == Face::Up <==> face == Face::Up,
        turned_face(face, turns) == Face::Down <==> face == Face::Down,
    decreases turns,
{
    if turns > 0 {
        lemma_vertical_faces_stay(face, turns - 1);
    }
}

/// A model shows one rotation on every face, and no other.
pub proof fn law_one_rotation_per_face(index: int, face: Face, p: int, q: int)
    requires
        0 <= index < 16,
        0 <= p < 4,
        0 <= q < 4,
        shows(index, face, p),
        shows(index, face, q),
    ensures
        p == q,
{
    let s = choose|source: Face|
        model_turned(index, #[trigger] normal(source)) == normal(face) && model_turned(
            index,
            texture_top(source),
        ) == turned_top(face, p);
    let t = choose|source: Face|
        model_turned(index, #[trigger] normal(source)) == normal(face) && model_turned(
            index,
            texture_top(source),
        ) == turned_top(face, q);
    let (a, b) = (normal(s), normal(t));
    assert(turned_around_x(a, index % 4) == turned_around_x(b, index % 4));
    assert(a == b);
    assert(s == t);
}

/// Returns the texture rotation that model `index` shows on a world face.
pub fn netherrack_rotation(index: u8, face: Face) -> (rotation: u8)
    requires
        index < 16,
    ensures
        rotation < 4,
        forall|r: int| 0 <= r < 4 ==> (#[trigger] shows(index as int, face, r) <==> r == rotation),
{
    let x_turns: u8 = index % 4;
    let y_turns: u8 = index / 4;
    let unturned: Face = turn_face(face, 4 - y_turns);
    let base: u8 = unturned_rotation(x_turns, unturned);
    let rotation: u8 = match face {
        Face::Up => (base + y_turns) % 4,
        Face::Down => (base + 4 - y_turns) % 4,
        _ => base,
    };
    proof {
        law_models_turn_with_the_world(x_turns as int, unturned, base as int, y_turns as int);
        reveal_with_fuel(turned_face, 6);
        assert(turned_face(unturned, y_turns as int) == face);
        assert(turned_model(x_turns as int, y_turns as int) == index);
        assert(turned_rotation(unturned, base as int, y_turns as int) == rotation);
        assert forall|r: int| 0 <= r < 4 && #[trigger] shows(index as int, face, r) implies r
            == rotation by {
            law_one_rotation_per_face(index as int, face, r, rotation as int);
        }
    }
    rotation
}

} // verus!
