use coordsfinder::filter::{
    prepare_direction, prepare_filters, rotate_row, rotate_xz, row_accepts, visible_four_way,
    BlockOffset, CompiledRotation,
};
use coordsfinder::netherrack::{netherrack_rotation, turn_face};
use coordsfinder::types::{Face, RotationInfo, RotationKind, TextureAlgorithm};

const ALGORITHMS: [TextureAlgorithm; 5] = [
    TextureAlgorithm::Vanilla1,
    TextureAlgorithm::Vanilla2,
    TextureAlgorithm::Vanilla3,
    TextureAlgorithm::Sodium1,
    TextureAlgorithm::Sodium2,
];

const FACES: [Face; 6] = [
    Face::Up,
    Face::Down,
    Face::North,
    Face::South,
    Face::East,
    Face::West,
];

#[test]
fn offsets_turn_from_north_to_east() {
    assert_eq!(rotate_xz(0, -1, 0), (0, -1));
    assert_eq!(rotate_xz(0, -1, 90), (1, 0));
    assert_eq!(rotate_xz(0, -1, 180), (0, 1));
    assert_eq!(rotate_xz(0, -1, 270), (-1, 0));
    assert_eq!(rotate_xz(3, 5, 90), (-5, 3));
}

#[test]
fn rows_turn_by_their_kind() {
    let top = RotationInfo::new(1, 2, 3, 3, false);
    assert_eq!(rotate_row(top, 180), RotationInfo::new(-1, 2, -3, 1, false));
    let side = RotationInfo::new(1, 2, 3, 1, true);
    assert_eq!(rotate_row(side, 270), RotationInfo::new(3, 2, -1, 1, true));
    let up = RotationInfo::netherrack(0, 0, 0, 1, Face::Up);
    assert_eq!(rotate_row(up, 90), RotationInfo::netherrack(0, 0, 0, 2, Face::Up));
    let down = RotationInfo::netherrack(0, 0, 0, 1, Face::Down);
    assert_eq!(rotate_row(down, 180), RotationInfo::netherrack(0, 0, 0, 3, Face::Down));
    let west = RotationInfo::netherrack(0, 0, 0, 2, Face::West);
    assert_eq!(rotate_row(west, 90), RotationInfo::netherrack(0, 0, 0, 2, Face::North));
    assert_eq!(turn_face(Face::North, 3), Face::West);
    for row in [top, side, up, down, west] {
        let twice = rotate_row(rotate_row(row, 90), 180);
        assert_eq!(twice, rotate_row(row, 270));
        assert_eq!(rotate_row(row, 0), row);
        assert_eq!(rotate_row(twice, 90), row);
    }
}

#[test]
fn four_way_variants_depend_on_the_algorithm() {
    for index in 0..16 {
        for algorithm in ALGORITHMS {
            let expected = if algorithm == TextureAlgorithm::Vanilla3 {
                index >> 2
            } else {
                index & 3
            };
            assert_eq!(visible_four_way(algorithm, index), expected);
        }
    }
}

#[test]
fn netherrack_models_show_their_rotations() {
    let table: [[u8; 6]; 16] = [
        [0, 0, 0, 0, 0, 0],
        [0, 2, 2, 0, 1, 3],
        [0, 0, 2, 2, 2, 2],
        [2, 0, 2, 0, 3, 1],
        [1, 3, 0, 0, 0, 0],
        [1, 1, 3, 1, 2, 0],
        [1, 3, 2, 2, 2, 2],
        [3, 3, 1, 3, 2, 0],
        [2, 2, 0, 0, 0, 0],
        [2, 0, 0, 2, 3, 1],
        [2, 2, 2, 2, 2, 2],
        [0, 2, 0, 2, 1, 3],
        [3, 1, 0, 0, 0, 0],
        [3, 3, 1, 3, 0, 2],
        [3, 1, 2, 2, 2, 2],
        [1, 1, 3, 1, 0, 2],
    ];
    for index in 0..16 {
        for (k, face) in FACES.into_iter().enumerate() {
            assert_eq!(netherrack_rotation(index, face), table[index as usize][k]);
        }
    }
}

#[test]
fn models_turn_with_the_world() {
    for index in 0..16u8 {
        let turned = index % 4 + 4 * ((index / 4 + 1) % 4);
        for face in FACES {
            let row = RotationInfo::netherrack(0, 0, 0, netherrack_rotation(index, face), face);
            let next = rotate_row(row, 90);
            assert!(row_accepts(TextureAlgorithm::Vanilla1, next, turned));
            assert!(matches!(next.kind, RotationKind::Netherrack(_)));
        }
    }
}

#[test]
fn rows_set_four_or_eight_bits() {
    let four = prepare_direction(
        &[RotationInfo::new(1, 2, 3, 2, false)],
        TextureAlgorithm::Vanilla3,
        0,
    );
    assert_eq!(
        four.constraints,
        [CompiledRotation { x: 1, y: 2, z: 3, accepted_indices: 0x0f00 }]
    );
    let modulo = prepare_direction(
        &[RotationInfo::new(1, 2, 3, 2, false)],
        TextureAlgorithm::Sodium2,
        90,
    );
    assert_eq!(
        modulo.constraints,
        [CompiledRotation { x: -3, y: 2, z: 1, accepted_indices: 0x8888 }]
    );
    let side = prepare_direction(
        &[RotationInfo::new(0, 0, 0, 1, true)],
        TextureAlgorithm::Vanilla2,
        90,
    );
    assert_eq!(side.constraints[0].accepted_indices, 0xaaaa);
    let side = prepare_direction(
        &[RotationInfo::new(0, 0, 0, 1, true)],
        TextureAlgorithm::Vanilla3,
        0,
    );
    assert_eq!(side.constraints[0].accepted_indices, 0xf0f0);
}

#[test]
fn rows_for_one_block_are_combined() {
    let rows = [
        RotationInfo::netherrack(4, 1, -2, 1, Face::Up),
        RotationInfo::new(0, 0, 0, 0, false),
        RotationInfo::netherrack(4, 1, -2, 3, Face::North),
        RotationInfo::netherrack(4, 1, -2, 2, Face::East),
        RotationInfo::new(9, 0, 0, 1, true),
    ];
    let prepared = prepare_direction(&rows, TextureAlgorithm::Vanilla2, 0);
    assert_eq!(
        prepared.constraints,
        [
            CompiledRotation { x: 4, y: 1, z: -2, accepted_indices: 1 << 5 },
            CompiledRotation { x: 0, y: 0, z: 0, accepted_indices: 0x1111 },
            CompiledRotation { x: 9, y: 0, z: 0, accepted_indices: 0xaaaa },
        ]
    );
    assert_eq!(prepared.forced_errors, 0);
}

#[test]
fn contradictions_force_errors() {
    let rows = [
        RotationInfo::new(1, 0, 0, 1, false),
        RotationInfo::new(1, 0, 0, 1, true),
        RotationInfo::new(5, 0, 0, 0, false),
    ];
    let prepared = prepare_filters(&rows, TextureAlgorithm::Vanilla1, &[0, 90], 0).unwrap();
    assert_eq!(prepared.directions[0].constraints.len(), 2);
    assert_eq!(prepared.directions[0].forced_errors, 0);
    assert_eq!(prepared.directions[1].constraints.len(), 1);
    assert_eq!(prepared.directions[1].forced_errors, 1);
    assert_eq!(prepared.directions[1].contradictions, [BlockOffset { x: 0, y: 0, z: 1 }]);
    assert_eq!(
        prepared.warning(),
        Some(
            "contradictory filter rows force block errors: [direction 90 at (0, 0, 1)]".to_string()
        )
    );
    let calm = prepare_filters(&rows, TextureAlgorithm::Vanilla1, &[0], 0).unwrap();
    assert_eq!(calm.warning(), None);
}

#[test]
fn useless_filters_are_rejected() {
    let contradictory = [
        RotationInfo::new(1, 0, 0, 1, false),
        RotationInfo::new(1, 0, 0, 2, false),
    ];
    assert_eq!(
        prepare_filters(&contradictory, TextureAlgorithm::Vanilla1, &[0, 90], 0).unwrap_err(),
        "forced errors exceed errorTolerance in every direction"
    );
    assert_eq!(
        prepare_filters(&contradictory, TextureAlgorithm::Vanilla1, &[90, 0], 1).unwrap_err(),
        "direction 90 has no usable filters"
    );
    let mixed = [
        RotationInfo::new(1, 0, 0, 1, false),
        RotationInfo::netherrack(1, 0, 0, 1, Face::Up),
    ];
    assert_eq!(
        prepare_filters(&mixed, TextureAlgorithm::Vanilla1, &[0], 5).unwrap_err(),
        "ordinary and netherrack filters cannot share a block offset"
    );
}

#[test]
fn netherrack_contradictions_hold_in_every_direction() {
    let rows = [
        RotationInfo::netherrack(1, 0, 0, 0, Face::North),
        RotationInfo::netherrack(1, 0, 0, 1, Face::South),
        RotationInfo::new(2, 0, 0, 1, false),
    ];
    for direction in [0, 90, 180, 270] {
        let prepared = prepare_direction(&rows, TextureAlgorithm::Vanilla3, direction);
        assert_eq!(prepared.forced_errors, 1);
        assert_eq!(prepared.constraints.len(), 1);
    }
}

#[test]
fn algorithm_names_round_trip() {
    for algorithm in ALGORITHMS {
        assert_eq!(TextureAlgorithm::from_str(&algorithm.name()), Ok(algorithm));
    }
    assert_eq!(TextureAlgorithm::Vanilla3.name(), "Vanilla-3");
    assert_eq!(
        TextureAlgorithm::from_str("vanilla 3"),
        Err("unknown algorithm 'vanilla 3'".to_string())
    );
}
