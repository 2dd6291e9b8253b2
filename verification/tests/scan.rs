use coordsfinder::config::{IntRange, ScanConfig, ScanOrder, TileSize};
use coordsfinder::scan::{candidate_count, make_plan, ScanPlan, WorkItem};
use coordsfinder::types::{Int3, RotationInfo, TextureAlgorithm};
use std::collections::HashSet;

fn config() -> ScanConfig {
    ScanConfig {
        algorithm: TextureAlgorithm::Vanilla3,
        directions: vec![0, 90],
        x_range: IntRange { start: -2, end: 3 },
        y_range: IntRange { start: 0, end: 1 },
        z_range: IntRange { start: -2, end: 3 },
        cpu_tile_size: TileSize { x: 1, z: 1 },
        gpu_tile_size: TileSize { x: 1, z: 1 },
        filter: vec![RotationInfo::new(0, 0, 0, 0, false)],
        ..ScanConfig::default()
    }
}

fn all_items(plan: &ScanPlan<'_>) -> Vec<WorkItem> {
    plan.iter().collect()
}

#[test]
fn builds_linear_and_spiral_plans() {
    let mut config = config();
    config.scan_order = ScanOrder::Spiral;
    let spiral = make_plan(&config, config.gpu_tile_size).unwrap();
    assert_eq!(spiral.total_items(), 50);
    let spiral_items: Vec<WorkItem> = all_items(&spiral);
    assert_eq!((spiral_items[0].start.x, spiral_items[0].start.z), (0, 0));
    let first_ring: Vec<_> = spiral_items
        .iter()
        .step_by(config.directions.len())
        .take(9)
        .map(|item| (item.start.x, item.start.z))
        .collect();
    assert_eq!(
        first_ring,
        [
            (0, 0),
            (1, 0),
            (1, 1),
            (0, 1),
            (-1, 1),
            (-1, 0),
            (-1, -1),
            (0, -1),
            (1, -1),
        ]
    );
    let visited: HashSet<_> = spiral_items
        .iter()
        .map(|item| (item.start.x, item.start.z, item.direction))
        .collect();
    assert_eq!(visited.len(), spiral_items.len());

    config.scan_order = ScanOrder::Linear;
    let linear = make_plan(&config, config.gpu_tile_size).unwrap();
    let first = linear.work_item(0).unwrap();
    assert_eq!((first.start.x, first.start.z), (-2, -2));
}

#[test]
fn spiral_covers_narrow_rectangles() {
    let mut config = config();
    config.directions = vec![0];
    config.scan_order = ScanOrder::Spiral;
    config.x_range = IntRange { start: 0, end: 10 };
    config.z_range = IntRange { start: -1, end: 1 };
    let plan = make_plan(&config, TileSize { x: 3, z: 1 }).unwrap();
    assert_eq!(plan.total_items(), 8);
    let items = all_items(&plan);
    let visited: HashSet<_> = items
        .iter()
        .map(|item| (item.start.x, item.start.z))
        .collect();
    assert_eq!(visited.len(), 8);
}

fn reference(x_tiles: i64, z_tiles: i64) -> Vec<(i32, i32)> {
    let center_x = (x_tiles - 1) / 2;
    let center_z = (z_tiles - 1) / 2;
    let max_radius = [
        center_x,
        center_z,
        x_tiles - 1 - center_x,
        z_tiles - 1 - center_z,
    ]
    .into_iter()
    .max()
    .unwrap();
    let mut tiles = Vec::new();
    let mut emit = |x: i64, z: i64| {
        if x >= 0 && z >= 0 && x < x_tiles && z < z_tiles {
            tiles.push((x as i32, z as i32));
        }
    };

    emit(center_x, center_z);
    for radius in 1..=max_radius {
        for z in center_z - radius + 1..=center_z + radius {
            emit(center_x + radius, z);
        }
        for x in (center_x - radius..=center_x + radius - 1).rev() {
            emit(x, center_z + radius);
        }
        for z in (center_z - radius..=center_z + radius - 1).rev() {
            emit(center_x - radius, z);
        }
        for x in center_x - radius + 1..=center_x + radius {
            emit(x, center_z - radius);
        }
    }
    tiles
}

#[test]
fn indexed_spiral_orders_match_reference_for_rectangles() {
    let mut config = config();
    config.directions = vec![0];
    config.scan_order = ScanOrder::Spiral;
    for x_tiles in 1..=9 {
        for z_tiles in 1..=9 {
            config.x_range = IntRange {
                start: 0,
                end: x_tiles,
            };
            config.z_range = IntRange {
                start: 0,
                end: z_tiles,
            };
            let plan = make_plan(&config, TileSize { x: 1, z: 1 }).unwrap();
            let actual: Vec<_> = all_items(&plan)
                .iter()
                .map(|item| (item.start.x, item.start.z))
                .collect();
            let expected = reference(x_tiles.into(), z_tiles.into());
            assert_eq!(actual, expected);

            config.scan_order = ScanOrder::ReverseSpiral;
            let reverse_plan = make_plan(&config, TileSize { x: 1, z: 1 }).unwrap();
            let reverse_actual: Vec<_> = all_items(&reverse_plan)
                .iter()
                .map(|item| (item.start.x, item.start.z))
                .collect();
            assert_eq!(
                reverse_actual,
                expected.into_iter().rev().collect::<Vec<_>>()
            );
            config.scan_order = ScanOrder::Spiral;
        }
    }
}

#[test]
fn linear_order_repeats_every_tile_for_every_direction() {
    let mut config = config();
    config.x_range = IntRange { start: 0, end: 2 };
    config.z_range = IntRange { start: 5, end: 7 };
    let plan = make_plan(&config, TileSize { x: 1, z: 1 }).unwrap();
    let seen: Vec<_> = all_items(&plan)
        .iter()
        .map(|item| (item.start.x, item.start.z, item.direction_index, item.direction))
        .collect();
    assert_eq!(
        seen,
        [
            (0, 5, 0, 0),
            (0, 5, 1, 90),
            (0, 6, 0, 0),
            (0, 6, 1, 90),
            (1, 5, 0, 0),
            (1, 5, 1, 90),
            (1, 6, 0, 0),
            (1, 6, 1, 90),
        ]
    );
}

#[test]
fn last_tiles_are_clipped_to_the_range() {
    let mut config = config();
    config.directions = vec![180];
    config.x_range = IntRange { start: -5, end: 5 };
    config.z_range = IntRange { start: 0, end: 3 };
    config.y_range = IntRange { start: -60, end: 7 };
    let plan = make_plan(&config, TileSize { x: 4, z: 8 }).unwrap();
    assert_eq!(plan.total_items(), 3);
    assert_eq!(
        plan.work_item(2),
        Some(WorkItem {
            start: Int3 { x: 3, y: -60, z: 0 },
            end: Int3 { x: 5, y: 7, z: 3 },
            direction_index: 0,
            direction: 180,
        })
    );
    assert_eq!(plan.work_item(3), None);
}

#[test]
fn items_partition_the_volume_in_every_order() {
    let mut config = config();
    config.x_range = IntRange { start: -3, end: 4 };
    config.y_range = IntRange { start: 1, end: 3 };
    config.z_range = IntRange { start: 2, end: 7 };
    for order in [ScanOrder::Linear, ScanOrder::Spiral, ScanOrder::ReverseSpiral] {
        config.scan_order = order;
        let plan = make_plan(&config, TileSize { x: 2, z: 3 }).unwrap();
        let mut seen = HashSet::new();
        let mut volume = 0;
        for item in all_items(&plan) {
            let (count, overflowed) = candidate_count(&item);
            assert!(!overflowed);
            volume += count;
            for x in item.start.x..item.end.x {
                for y in item.start.y..item.end.y {
                    for z in item.start.z..item.end.z {
                        assert!(seen.insert((x, y, z, item.direction)));
                    }
                }
            }
        }
        assert_eq!(seen.len(), 7 * 2 * 5 * 2);
        assert_eq!(volume, 7 * 2 * 5 * 2);
        assert_eq!(plan.total_candidates, 7 * 2 * 5 * 2);
        assert!(!plan.total_candidates_saturated);
    }
}

#[test]
fn candidate_counts_saturate() {
    let whole = Int3 { x: i32::MIN, y: i32::MIN, z: i32::MIN };
    let end = Int3 { x: i32::MAX, y: i32::MAX, z: i32::MAX };
    let item = WorkItem { start: whole, end, direction_index: 0, direction: 0 };
    assert_eq!(candidate_count(&item), (u64::MAX, true));
    let flat = WorkItem { end: Int3 { z: i32::MIN + 1, ..end }, ..item };
    assert_eq!(candidate_count(&flat), (4294967295 * 4294967295, false));
    let inverted = WorkItem {
        start: Int3 { x: 1, y: 0, z: 0 },
        end: Int3 { x: 0, y: 1, z: 1 },
        ..item
    };
    assert_eq!(candidate_count(&inverted), (u64::MAX, false));
}

#[test]
fn plan_errors_and_limits() {
    let mut config = config();
    assert_eq!(
        make_plan(&config, TileSize { x: 0, z: 1 }).unwrap_err(),
        "tile dimensions must be positive"
    );
    assert_eq!(
        make_plan(&config, TileSize { x: 1, z: -1 }).unwrap_err(),
        "tile dimensions must be positive"
    );
    config.directions = vec![0, 90];
    config.x_range = IntRange { start: i32::MIN, end: i32::MAX };
    config.z_range = IntRange { start: i32::MIN, end: i32::MAX };
    assert_eq!(
        make_plan(&config, TileSize { x: 1, z: 1 }).unwrap_err(),
        "scan contains too many work items"
    );
    config.directions = vec![0];
    config.y_range = IntRange { start: 0, end: 2 };
    let plan = make_plan(&config, TileSize { x: 1, z: 1 }).unwrap();
    assert!(plan.total_candidates_saturated);
    assert_eq!(plan.total_candidates, u64::MAX);
    let last = plan.work_item(plan.total_items() - 1).unwrap();
    assert_eq!((last.end.x, last.end.z), (i32::MAX, i32::MAX));
    config.scan_order = ScanOrder::Spiral;
    let plan = make_plan(&config, TileSize { x: 1, z: 1 }).unwrap();
    let first = plan.work_item(0).unwrap();
    assert_eq!((first.start.x, first.start.z), (-1, -1));
}

#[test]
fn empty_ranges_and_no_directions_give_empty_plans() {
    let mut config = config();
    config.x_range = IntRange { start: 4, end: 4 };
    for order in [ScanOrder::Linear, ScanOrder::Spiral, ScanOrder::ReverseSpiral] {
        config.scan_order = order;
        let plan = make_plan(&config, TileSize { x: 1, z: 1 }).unwrap();
        assert_eq!(plan.total_items(), 0);
        assert_eq!(plan.work_item(0), None);
    }
    config.x_range = IntRange { start: 4, end: 5 };
    config.directions = vec![];
    let plan = make_plan(&config, TileSize { x: 1, z: 1 }).unwrap();
    assert_eq!(plan.total_items(), 0);
    assert_eq!(plan.total_candidates, 0);
}

#[test]
fn iterating_counts_down_the_remaining_items() {
    let mut config = config();
    config.x_range = IntRange { start: 0, end: 1 };
    config.z_range = IntRange { start: 0, end: 1 };
    let plan = make_plan(&config, TileSize { x: 1, z: 1 }).unwrap();
    let mut items = plan.iter();
    assert_eq!(items.size_hint(), (2, Some(2)));
    assert_eq!(items.next().unwrap().direction, 0);
    assert_eq!(items.len(), 1);
    assert_eq!(items.next().unwrap().direction, 90);
    assert_eq!(items.next(), None);
    assert_eq!(items.next(), None);
    assert_eq!(items.size_hint(), (0, Some(0)));
}

#[test]
fn plan_summaries() {
    let mut config = config();
    let plan = make_plan(&config, TileSize { x: 1, z: 1 }).unwrap();
    assert_eq!(plan.summary("CPU"), "CPU plan: 50 work items; candidates: 50.");
    config.x_range = IntRange { start: i32::MIN, end: i32::MAX };
    config.y_range = IntRange { start: i32::MIN, end: i32::MAX };
    config.z_range = IntRange { start: i32::MIN, end: i32::MAX };
    let plan = make_plan(&config, TileSize { x: i32::MAX, z: i32::MAX }).unwrap();
    assert_eq!(
        plan.summary("GPU"),
        "GPU plan: 18 work items; candidates: >= 18446744073709551615 (display saturated)."
    );
}

#[test]
fn linear_order_runs_from_corner_to_corner() {
    let config = config();
    let plan = make_plan(&config, TileSize { x: 2, z: 3 }).unwrap();
    let tiles: Vec<_> = all_items(&plan)
        .iter()
        .step_by(2)
        .map(|item| (item.start.x, item.start.z))
        .collect();
    assert_eq!(tiles, [(-2, -2), (-2, 1), (0, -2), (0, 1), (2, -2), (2, 1)]);
}

#[test]
fn rings_turn_clockwise() {
    let mut config = config();
    config.directions = vec![0];
    config.scan_order = ScanOrder::Spiral;
    let items = all_items(&make_plan(&config, TileSize { x: 1, z: 1 }).unwrap());
    for ring in [1..9, 9..25] {
        for pair in items[ring].windows(2) {
            let (from, to) = (pair[0].start, pair[1].start);
            assert!(from.x * to.z - from.z * to.x > 0);
        }
    }
}

#[test]
fn square_spirals_step_to_neighbors() {
    for side in 1..8 {
        let mut config = config();
        config.x_range = IntRange { start: 0, end: side };
        config.z_range = IntRange { start: 0, end: side };
        config.scan_order = ScanOrder::Spiral;
        let plan = make_plan(&config, TileSize { x: 1, z: 1 }).unwrap();
        let tiles: Vec<_> = (0..(side * side) as u64).map(|n| plan.spiral_tile(n)).collect();
        for pair in tiles.windows(2) {
            assert_eq!(pair[0].0.abs_diff(pair[1].0) + pair[0].1.abs_diff(pair[1].1), 1);
        }
    }
}

#[test]
fn covered_tiles_grow_to_the_grid() {
    let mut config = config();
    config.x_range = IntRange { start: 0, end: 7 };
    config.z_range = IntRange { start: 0, end: 4 };
    let plan = make_plan(&config, TileSize { x: 1, z: 1 }).unwrap();
    let covered: Vec<_> = (0..6).map(|radius| plan.covered_tiles(radius)).collect();
    assert_eq!(covered, [1, 9, 20, 28, 28, 28]);
    assert_eq!(plan.covered_tiles(1 << 32), 28);
}
