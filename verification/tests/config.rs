use coordsfinder::config::{
    compact_name, line_error, load, parse_bool, parse_directions, parse_filter, parse_pair,
    parse_scan_order, validate, IntRange, ScanConfig, ScanOrder, TileSize,
};
use coordsfinder::types::{Face, RotationInfo, TextureAlgorithm};

const MODERN: &str = "\
# A configuration with every setting.
algorithm = Vanilla-3
scanOrder = spiral
directions = [0, 90, 180, 270]

xRange = (-16, 16)
yRange = (-60, 0)
zRange = (-32, 32)      # ends are exclusive

errorTolerance = 2
cpuTileSize = (7, 9)
gpuTileSize = (70, 90)
verbose = true

[filter]
# x y z | variant [side|netherrack-<face>]
-6 0 0 | 3
-5 0 0 | 3
-6 0 -1 | 0 side
0 1 0 | 2 netherrack-up
";

const REVERSE_SPIRAL: &str = "\
algorithm = Vanilla-3
scanOrder = reverse-spiral
xRange = (0, 4)
yRange = (0, 1)
zRange = (0, 4)
errorTolerance = 0
[filter]
0 0 0 | 1
";

fn minimal(extra: &str) -> String {
    format!(
        "algorithm = Vanilla-2\nxRange = (0, 4)\nyRange = (0, 1)\nzRange = (0, 4)\n\
         errorTolerance = 0\n{extra}[filter]\n0 0 0 | 1\n"
    )
}

#[test]
fn parses_existing_configuration() {
    let config = load("tests/modern.conf", MODERN).unwrap();
    assert_eq!(config.cpu_tile_size, TileSize { x: 7, z: 9 });
    assert_eq!(config.gpu_tile_size, TileSize { x: 70, z: 90 });
    assert_eq!(config.error_tolerance, 2);
    assert_eq!(config.scan_order, ScanOrder::Spiral);
}

#[test]
fn parses_reverse_spiral_scan_order() {
    let config = load("tests/reverse_spiral.conf", REVERSE_SPIRAL).unwrap();
    assert_eq!(config.scan_order, ScanOrder::ReverseSpiral);
}

#[test]
fn parses_netherrack_face_markers() {
    let parsed = parse_filter("1 -2 3 | 3 netherrack-west").unwrap();
    assert_eq!(parsed, RotationInfo::netherrack(1, -2, 3, 3, Face::West));
    assert!(parse_filter("0 0 0 | 4 netherrack-up").is_err());
    assert!(parse_filter("0 0 0 | 0 netherrack").is_err());
}

#[test]
fn reports_invalid_existing_configurations() {
    let duplicate = minimal("x-range = (1, 2)\n");
    assert!(load("tests/invalid_duplicate.conf", &duplicate)
        .unwrap_err()
        .contains("duplicate setting"));
    let empty_range = minimal("").replace("xRange = (0, 4)", "xRange = (4, 4)");
    assert!(load("tests/invalid_empty_range.conf", &empty_range)
        .unwrap_err()
        .contains("starts must be less than their ends"));
}

#[test]
fn reads_every_setting() {
    let config = load("tests/modern.conf", MODERN).unwrap();
    assert_eq!(config.algorithm, TextureAlgorithm::Vanilla3);
    assert_eq!(config.directions, [0, 90, 180, 270]);
    assert_eq!(config.x_range, IntRange { start: -16, end: 16 });
    assert_eq!(config.y_range, IntRange { start: -60, end: 0 });
    assert_eq!(config.z_range, IntRange { start: -32, end: 32 });
    assert!(config.verbose);
    assert_eq!(config.source_path, "tests/modern.conf");
    assert_eq!(
        config.filter,
        [
            RotationInfo::new(-6, 0, 0, 3, false),
            RotationInfo::new(-5, 0, 0, 3, false),
            RotationInfo::new(-6, 0, -1, 0, true),
            RotationInfo::netherrack(0, 1, 0, 2, Face::Up),
        ]
    );
}

#[test]
fn keeps_defaults_for_settings_that_are_not_given() {
    let config = load("a.conf", &minimal("")).unwrap();
    assert_eq!(config.scan_order, ScanOrder::Linear);
    assert_eq!(config.directions, [0]);
    assert_eq!(config.cpu_tile_size, TileSize { x: 1024, z: 1024 });
    assert_eq!(config.gpu_tile_size, TileSize { x: 8192, z: 8192 });
    assert!(!config.verbose);
    let default = ScanConfig::default();
    assert_eq!(default.algorithm, TextureAlgorithm::Vanilla3);
    assert_eq!(default.x_range, IntRange { start: 0, end: 0 });
    assert!(default.filter.is_empty());
    assert_eq!(default.source_path, "");
}

#[test]
fn accepts_other_spellings_of_names() {
    let text = "[Set tings]\nALGORITHM = sodium-1\nx_range=(0,4)\nY-RANGE = ( 0 , 1 )\n\
                z.Range = (0, 4)\nError Tolerance = 0\ncuda tile size = (3, 5)\nscan-order = NATIVE\n\
                [F.I-L_T E R]\n0 0 0 | 1\n[scan]\nverbose = ON\n";
    let config = load("a.conf", text).unwrap();
    assert_eq!(config.algorithm, TextureAlgorithm::Sodium1);
    assert_eq!(config.gpu_tile_size, TileSize { x: 3, z: 5 });
    assert_eq!(config.scan_order, ScanOrder::Linear);
    assert!(config.verbose);
}

#[test]
fn line_endings_and_comments_do_not_matter() {
    let plain = load("a.conf", MODERN).unwrap();
    let windows = load("a.conf", &MODERN.replace('\n', "\r\n")).unwrap();
    assert_eq!(plain.filter, windows.filter);
    assert_eq!(plain.z_range, windows.z_range);
    let commented = load("a.conf", &MODERN.replace('\n', " # note # [x]\n")).unwrap();
    assert_eq!(plain.filter, commented.filter);
    assert_eq!(plain.directions, commented.directions);
}

#[test]
fn compacts_names() {
    assert_eq!(compact_name(" Cpu_Tile-Size. "), "cputilesize");
    assert_eq!(compact_name(""), "");
    assert_eq!(compact_name("\u{c4}\u{130}X"), "\u{e4}i\u{307}x");
    for n in 0..128u8 {
        let c = n as char;
        let expected: String = if " _-.".contains(c) {
            String::new()
        } else {
            c.to_lowercase().collect()
        };
        assert_eq!(compact_name(&c.to_string()), expected);
    }
}

#[test]
fn reads_pairs() {
    assert_eq!(parse_pair(" ( -5 , +7 ) "), Ok((-5, 7)));
    assert_eq!(parse_pair("(2147483647,-2147483648)"), Ok((i32::MAX, i32::MIN)));
    assert_eq!(
        parse_pair(" 1, 2 "),
        Err("expected '(first, second)', got '1, 2'".to_string())
    );
    assert_eq!(
        parse_pair("("),
        Err("expected '(first, second)', got '('".to_string())
    );
    assert_eq!(
        parse_pair("(1 2)"),
        Err("expected two comma-separated integers, got '(1 2)'".to_string())
    );
    assert_eq!(parse_pair("(x, 2)"), Err("invalid integer 'x'".to_string()));
    assert_eq!(parse_pair("(1, 2, 3)"), Err("invalid integer '2, 3'".to_string()));
    assert_eq!(
        parse_pair("(2147483648, 0)"),
        Err("invalid integer '2147483648'".to_string())
    );
}

#[test]
fn reads_directions() {
    assert_eq!(parse_directions(" [ 270, 0 ,90,180 ] "), Ok(vec![270, 0, 90, 180]));
    assert_eq!(
        parse_directions("0, 90"),
        Err("directions must use [0, 90, ...] syntax".to_string())
    );
    assert_eq!(parse_directions("[]"), Err("invalid direction ''".to_string()));
    assert_eq!(parse_directions("[0, north]"), Err("invalid direction 'north'".to_string()));
    assert_eq!(
        parse_directions("[0, 45]"),
        Err("direction 45 is invalid or duplicated".to_string())
    );
    assert_eq!(
        parse_directions("[90, -90]"),
        Err("direction -90 is invalid or duplicated".to_string())
    );
    assert_eq!(
        parse_directions("[90, 90]"),
        Err("direction 90 is invalid or duplicated".to_string())
    );
}

#[test]
fn reads_truth_values() {
    for word in ["true", " Yes ", "ON", "1"] {
        assert_eq!(parse_bool(word), Ok(true));
    }
    for word in ["false", "no", "Off", "0"] {
        assert_eq!(parse_bool(word), Ok(false));
    }
    assert_eq!(parse_bool(" maybe"), Err("invalid boolean ' maybe'".to_string()));
}

#[test]
fn reads_scan_orders() {
    assert_eq!(parse_scan_order("Linear"), Ok(ScanOrder::Linear));
    assert_eq!(parse_scan_order("native"), Ok(ScanOrder::Linear));
    assert_eq!(parse_scan_order("SPIRAL"), Ok(ScanOrder::Spiral));
    assert_eq!(parse_scan_order("reverse-spiral"), Ok(ScanOrder::ReverseSpiral));
    assert_eq!(
        parse_scan_order("random"),
        Err("invalid scan order 'random'".to_string())
    );
}

#[test]
fn reads_filter_rows() {
    assert_eq!(parse_filter("-128 127 0 | 3"), Ok(RotationInfo::new(-128, 127, 0, 3, false)));
    assert_eq!(parse_filter("1 2 3|1 SIDE"), Ok(RotationInfo::new(1, 2, 3, 1, true)));
    assert_eq!(parse_filter("1 2 3 | 2 normal"), Ok(RotationInfo::new(1, 2, 3, 2, false)));
    let faces = [
        ("up", Face::Up),
        ("down", Face::Down),
        ("north", Face::North),
        ("south", Face::South),
        ("east", Face::East),
        ("west", Face::West),
    ];
    for (name, face) in faces {
        assert_eq!(
            parse_filter(&format!("0 0 0 | 2 Netherrack-{name}")),
            Ok(RotationInfo::netherrack(0, 0, 0, 2, face))
        );
    }
}

#[test]
fn explains_bad_filter_rows() {
    let cases = [
        ("0 0 0 1", "filter rows must be: x y z | variant [side]"),
        ("0 0 128 | 1", "filter offsets must fit in int8 range [-128, 127]"),
        ("0 0 x | 1", "filter offsets must fit in int8 range [-128, 127]"),
        ("0 0 | 1", "filter rows must contain three coordinates"),
        ("0 0 0 0 | 1", "filter rows must contain three coordinates"),
        ("0 0 0 | ", "filter row is missing a variant"),
        ("0 0 0 | -1", "filter variant must be a non-negative integer"),
        ("0 0 0 | 256", "filter variant must be a non-negative integer"),
        ("0 0 0 | 1 side x", "unexpected extra token in filter row"),
        ("0 0 0 | 1 TOP", "invalid filter marker 'top'"),
        ("0 0 0 | 4", "variant 4 exceeds maximum 3"),
        ("0 0 0 | 2 side", "variant 2 exceeds maximum 1"),
    ];
    for (row, message) in cases {
        assert_eq!(parse_filter(row), Err(message.to_string()), "{row}");
    }
}

#[test]
fn explains_bad_lines() {
    let cases = [
        ("[stuff]\n", "a.conf:1: unknown section 'stuff'"),
        ("\n\nxRange (0, 1)\n", "a.conf:3: expected key=value setting"),
        ("Speed = 3\n", "a.conf:1: unknown setting 'Speed'"),
        ("x Range = (0, 1)\nxrange=(0,2)", "a.conf:2: duplicate setting 'xrange'"),
        ("verbose = perhaps", "a.conf:1: invalid boolean 'perhaps'"),
        ("errorTolerance = few", "a.conf:1: invalid error tolerance 'few'"),
        ("scanOrder = zigzag", "a.conf:1: invalid scan order 'zigzag'"),
        ("algorithm = magic", "a.conf:1: unknown algorithm 'magic'"),
        ("directions = 0", "a.conf:1: directions must use [0, 90, ...] syntax"),
        ("gpuTileSize = 5", "a.conf:1: expected '(first, second)', got '5'"),
        ("[filter]\n0 0 0 = 1", "a.conf:2: filter rows must be: x y z | variant [side]"),
        ("algorithm = Vanilla-1", "a.conf: missing required setting xrange"),
        ("", "a.conf: missing required setting algorithm"),
    ];
    for (text, message) in cases {
        assert_eq!(load("a.conf", text).unwrap_err(), message);
    }
    assert_eq!(line_error("p", 12, "m"), "p:12: m");
}

#[test]
fn validates_settings() {
    let good = load("a.conf", &minimal("directions = [0, 90]\n")).unwrap();
    assert_eq!(validate(&good), Ok(()));
    let mut config = good.clone();
    config.cpu_tile_size = TileSize { x: 1, z: 0 };
    assert_eq!(validate(&config), Err("tile size dimensions must be positive".to_string()));
    let mut config = good.clone();
    config.error_tolerance = -1;
    assert_eq!(validate(&config), Err("errorTolerance must be non-negative".to_string()));
    let mut config = good.clone();
    config.filter = vec![];
    assert_eq!(validate(&config), Err("filter must contain at least one row".to_string()));
    let mut config = good.clone();
    config.filter = vec![RotationInfo::new(0, 0, -128, 0, false)];
    assert_eq!(
        validate(&config),
        Err("direction 90 rotates a filter offset outside int8 range".to_string())
    );
    config.filter = vec![RotationInfo::new(-128, 0, 0, 0, false)];
    assert_eq!(validate(&config), Ok(()));
    let mut config = good.clone();
    config.y_range = IntRange { start: 3, end: 2 };
    assert_eq!(
        validate(&config),
        Err("scan range starts must be less than their ends".to_string())
    );
    let mut config = good;
    config.filter = vec![
        RotationInfo::new(0, 0, 0, 0, false),
        RotationInfo::netherrack(0, 0, 0, 0, Face::Up),
    ];
    assert_eq!(
        validate(&config),
        Err("ordinary and netherrack filters cannot share a block offset".to_string())
    );
}

#[test]
fn validation_errors_name_the_file() {
    let text = minimal("directions = [90]\n").replace("0 0 0 | 1", "0 0 -128 | 1");
    assert_eq!(
        load("dir/a.conf", &text).unwrap_err(),
        "dir/a.conf: direction 90 rotates a filter offset outside int8 range"
    );
}

#[test]
fn respelled_files_load_alike() {
    let plain = load("a.conf", MODERN).unwrap();
    let respelled = MODERN
        .replace("xRange", "X-RANGE")
        .replace("errorTolerance", "error_tolerance")
        .replace("gpuTileSize", "CUDA.tile size")
        .replace("[filter]", "[ F-ilter ]")
        .replace('\n', "\n\n  # note\n");
    let config = load("a.conf", &respelled).unwrap();
    assert_eq!(config.algorithm, plain.algorithm);
    assert_eq!(config.scan_order, plain.scan_order);
    assert_eq!(config.directions, plain.directions);
    assert_eq!(config.x_range, plain.x_range);
    assert_eq!(config.y_range, plain.y_range);
    assert_eq!(config.z_range, plain.z_range);
    assert_eq!(config.error_tolerance, plain.error_tolerance);
    assert_eq!(config.cpu_tile_size, plain.cpu_tile_size);
    assert_eq!(config.gpu_tile_size, plain.gpu_tile_size);
    assert_eq!(config.verbose, plain.verbose);
    assert_eq!(config.filter, plain.filter);
    assert_eq!(config.source_path, plain.source_path);
}

#[test]
fn compact_names_are_compact() {
    let name = compact_name("Error_Tolerance ");
    assert_eq!(name, "errortolerance");
    assert_eq!(compact_name(&name), name);
    assert_eq!(compact_name("X-") + &compact_name(" Range"), compact_name("X- Range"));
}

fn assert_same_but_order(a: &ScanConfig, b: &ScanConfig) {
    assert_eq!(a.algorithm, b.algorithm);
    assert_eq!(a.directions, b.directions);
    assert_eq!(a.x_range, b.x_range);
    assert_eq!(a.y_range, b.y_range);
    assert_eq!(a.z_range, b.z_range);
    assert_eq!(a.error_tolerance, b.error_tolerance);
    assert_eq!(a.cpu_tile_size, b.cpu_tile_size);
    assert_eq!(a.gpu_tile_size, b.gpu_tile_size);
    assert_eq!(a.verbose, b.verbose);
    assert_eq!(a.filter, b.filter);
    assert_eq!(a.source_path, b.source_path);
}

#[test]
fn either_tile_size_name_loads_alike() {
    let current = load("a.conf", MODERN).unwrap();
    let legacy = load("a.conf", &MODERN.replace("gpuTileSize", "cudaTileSize")).unwrap();
    assert_same_but_order(&current, &legacy);
    assert_eq!(current.scan_order, legacy.scan_order);
    assert_eq!(legacy.gpu_tile_size, TileSize { x: 70, z: 90 });
    let both = minimal("gpuTileSize = (1, 2)\ncudaTileSize = (3, 4)\n");
    assert_eq!(load("a.conf", &both).unwrap().gpu_tile_size, TileSize { x: 3, z: 4 });
}

#[test]
fn leading_scan_order_changes_nothing_else() {
    let text = minimal("directions = [90, 0]\n");
    let plain = load("a.conf", &text).unwrap();
    let orders = [
        ("Linear", ScanOrder::Linear),
        (" native ", ScanOrder::Linear),
        ("SPIRAL\r", ScanOrder::Spiral),
        ("reverse-spiral", ScanOrder::ReverseSpiral),
    ];
    for (value, order) in orders {
        let config = load("a.conf", &format!("scanOrder = {value}\n{text}")).unwrap();
        assert_eq!(config.scan_order, order);
        assert_same_but_order(&plain, &config);
    }
    for value in ["", "=spiral", " diagonal ", "[spiral]"] {
        assert_eq!(
            load("a.conf", &format!("scanOrder = {value}\n{text}")).unwrap_err(),
            format!("a.conf:1: invalid scan order '{}'", value.trim())
        );
    }
}
