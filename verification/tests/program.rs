use coordsfinder::config::{ScanConfig, ScanOrder, TileSize};
use coordsfinder::options::{Backend, Options};
use coordsfinder::program::{
    backend_line, match_line, order_name, plan_label, progress_due, scan_exit_code, select_scanner, start,
    tile_size_for, worker_count, Outcome, ScannerInfo, ScannerKind, SelectionEvent, SelectionStep,
};
use coordsfinder::types::Match;

const TEXT: &str = "\
algorithm = Vanilla-2
scanOrder = spiral
directions = [0, 90]
xRange = (0, 4)
yRange = (0, 1)
zRange = (0, 4)
errorTolerance = 0
cpuTileSize = (2, 2)
gpuTileSize = (4, 4)
[filter]
1 0 0 | 1
1 0 0 | 1 side
5 0 0 | 0
";

fn options(validate: bool, output: Option<&str>) -> Options {
    Options {
        config: "a.conf".to_string(),
        backend: Backend::Auto,
        threads: None,
        validate,
        output: output.map(|path| path.to_string()),
    }
}

#[test]
fn reports_matches() {
    let found = Match { x: -12, y: 63, z: 7, direction: 270, mismatches: 2 };
    assert_eq!(match_line(&found), "Found with 2 mismatch(es)! (-12, 63, 7), direction 270");
}

#[test]
fn validation_prints_both_plans() {
    let begun = start(&options(true, None), Ok(TEXT.to_string()));
    let lines: Vec<_> = begun.lines.iter().map(|line| (line.text.as_str(), line.to_stdout)).collect();
    assert_eq!(
        lines,
        [
            (
                "Warning: contradictory filter rows force block errors: [direction 90 at (0, 0, 1)]",
                false
            ),
            (
                "Loaded a.conf with 3 filter(s), 2 block constraint(s), and 2 direction(s).",
                true
            ),
            ("Algorithm: Vanilla-2; order: spiral.", true),
            ("CPU plan: 8 work items; candidates: 32.", true),
            ("GPU plan: 2 work items; candidates: 32.", true),
            ("Config and backend plans are valid.", true),
        ]
    );
    assert!(matches!(begun.outcome, Outcome::Validated));
}

#[test]
fn scans_print_to_standard_error() {
    let begun = start(&options(false, None), Ok(TEXT.to_string()));
    assert_eq!(begun.lines.len(), 4);
    assert!(begun.lines.iter().all(|line| !line.to_stdout));
    assert_eq!(
        begun.lines[3].text,
        "Warning: no --output file was specified; matches will only be written to stdout."
    );
    match begun.outcome {
        Outcome::Scan(config, prepared) => {
            assert_eq!(config.scan_order, ScanOrder::Spiral);
            assert_eq!(prepared.directions.len(), 2);
        }
        _ => panic!("the scan should start"),
    }
    let saved = start(&options(false, Some("out")), Ok(TEXT.to_string()));
    assert_eq!(saved.lines.len(), 3);
}

#[test]
fn failures_end_the_run() {
    let unread = start(&options(true, None), Err("no such file".to_string()));
    assert!(unread.lines.is_empty());
    match unread.outcome {
        Outcome::Failed(error) => assert_eq!(error, "could not read a.conf: no such file"),
        _ => panic!("the run should fail"),
    }
    let bad = start(&options(true, None), Ok("x".to_string()));
    match bad.outcome {
        Outcome::Failed(error) => assert_eq!(error, "a.conf:1: expected key=value setting"),
        _ => panic!("the run should fail"),
    }
    let huge = TEXT
        .replace("xRange = (0, 4)", "xRange = (-2147483648, 2147483647)")
        .replace("zRange = (0, 4)", "zRange = (-2147483648, 2147483647)")
        .replace("cpuTileSize = (2, 2)", "cpuTileSize = (1, 1)");
    let begun = start(&options(true, None), Ok(huge));
    assert_eq!(begun.lines.len(), 3);
    match begun.outcome {
        Outcome::Failed(error) => assert_eq!(error, "scan contains too many work items"),
        _ => panic!("the run should fail"),
    }
}

#[test]
fn selects_scanners() {
    assert!(matches!(
        select_scanner(Backend::Cpu, SelectionEvent::Begin),
        SelectionStep::TryCpu(None)
    ));
    assert!(matches!(
        select_scanner(Backend::Gpu, SelectionEvent::Begin),
        SelectionStep::TryGpu
    ));
    assert!(matches!(
        select_scanner(Backend::Auto, SelectionEvent::Begin),
        SelectionStep::TryGpu
    ));
    assert!(matches!(
        select_scanner(Backend::Auto, SelectionEvent::GpuReady),
        SelectionStep::Use(ScannerKind::Gpu)
    ));
    match select_scanner(Backend::Auto, SelectionEvent::GpuFailed("no adapter".to_string())) {
        SelectionStep::TryCpu(Some(notice)) => {
            assert_eq!(notice, "GPU unavailable (no adapter); falling back to CPU.")
        }
        _ => panic!("automatic selection should fall back"),
    }
    match select_scanner(Backend::Gpu, SelectionEvent::GpuFailed("no adapter".to_string())) {
        SelectionStep::Fail(reason) => assert_eq!(reason, "no adapter"),
        _ => panic!("an explicit GPU should not fall back"),
    }
    assert!(matches!(
        select_scanner(Backend::Auto, SelectionEvent::CpuReady),
        SelectionStep::Use(ScannerKind::Cpu)
    ));
    match select_scanner(Backend::Auto, SelectionEvent::CpuFailed("x".to_string())) {
        SelectionStep::Fail(reason) => assert_eq!(reason, "x"),
        _ => panic!("a failing CPU scanner should end the selection"),
    }
}

#[test]
fn small_decisions() {
    assert!(progress_due(true, 0));
    assert!(!progress_due(false, 0));
    assert!(progress_due(false, 1));
    assert_eq!(order_name(ScanOrder::ReverseSpiral), "reverse-spiral");
    assert_eq!(worker_count(&options(false, None), 6), 6);
    let eight = Options { threads: Some(8), ..options(false, None) };
    assert_eq!(worker_count(&eight, 6), 8);
    let config = ScanConfig::default();
    assert_eq!(tile_size_for(ScannerKind::Cpu, &config), TileSize { x: 1024, z: 1024 });
    assert_eq!(tile_size_for(ScannerKind::Gpu, &config), TileSize { x: 8192, z: 8192 });
    assert_eq!(plan_label(ScannerKind::Gpu), "GPU");
    assert_eq!(backend_line(&ScannerInfo::Cpu(8)), "Backend: CPU (8 threads).");
    let gpu = ScannerInfo::Gpu("Vulkan".to_string(), "Card".to_string());
    assert_eq!(backend_line(&gpu), "Backend: wgpu/Vulkan (Card).");
    assert_eq!(scan_exit_code(true), 130);
    assert_eq!(scan_exit_code(false), 0);
}
