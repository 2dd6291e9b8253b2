//! What the program decides and says, apart from reading files, printing and
//! scanning.

use vstd::prelude::*;
use vstd::string::*;
use crate::config::{load, loaded, validation_error, ScanConfig, ScanOrder, Settings, TileSize};
use crate::config_laws::lemma_validated_rows_fit;
use crate::filter::{
    direction_filter, direction_filters, distinct_offsets, is_quarter_turn, prepare_filters,
    rows_fit, warning_text, DirectionView, PreparedDirection, PreparedFilters,
};
use crate::filter_laws::{law_each_block_counts_once, lemma_distinct_offsets_len};
use crate::number::{decimal, push_int, push_nat};
use crate::options::{Backend, Options, OptionsView};
use crate::scan::{make_plan, plan_error, plan_of, plan_summary, saturated, ScanPlan};
use crate::types::{algorithm_name, Match};

verus! {

/// A line of output, for standard output or standard error.
#[derive(Clone, Debug)]
pub struct Line {
    pub text: String,
    pub to_stdout: bool,
}

/// The contents and the destination of a line.
pub open spec fn line_view(line: Line) -> (Seq<char>, bool) {
    (line.text@, line.to_stdout)
}

/// The contents and the destinations of lines.
pub open spec fn line_views(lines: Seq<Line>) -> Seq<(Seq<char>, bool)> {
    lines.map_values(|line: Line| line_view(line))
}

/// The line that reports a match.
pub open spec fn match_text(found: Match) -> Seq<char> {
    "Found with "@ + decimal(found.mismatches as int) + " mismatch(es)! ("@ + decimal(
        found.x as int,
    ) + ", "@ + decimal(found.y as int) + ", "@ + decimal(found.z as int) + "), direction "@
        + decimal(found.direction as int)
}

/// Returns the line that reports a match.
pub fn match_line(found: &Match) -> (text: String)
    ensures
        text@ == match_text(*found),
{
    let mut text: String = "Found with ".to_owned();
    push_int(&mut text, found.mismatches as i64);
    text.append(" mismatch(es)! (");
    push_int(&mut text, found.x as i64);
    text.append(", ");
    push_int(&mut text, found.y as i64);
    text.append(", ");
    push_int(&mut text, found.z as i64);
    text.append("), direction ");
    push_int(&mut text, found.direction as i64);
    text
}

/// Tells whether progress is worth a report: always when verbose, else once the
/// last report is a second old.
pub fn progress_due(verbose: bool, whole_seconds_since_last: u64) -> (due: bool)
    ensures
        due == (verbose || whole_seconds_since_last >= 1),
{
    verbose || whole_seconds_since_last >= 1
}

/// The name of a scan order.
pub open spec fn order_text(order: ScanOrder) -> Seq<char> {
    match order {
        ScanOrder::Linear => "linear"@,
        ScanOrder::Spiral => "spiral"@,
        ScanOrder::ReverseSpiral => "reverse-spiral"@,
    }
}

/// Returns the name of a scan order.
pub fn order_name(order: ScanOrder) -> (name: &'static str)
    ensures
        name@ == order_text(order),
{
    match order {
        ScanOrder::Linear => "linear",
        ScanOrder::Spiral => "spiral",
        ScanOrder::ReverseSpiral => "reverse-spiral",
    }
}

/// The line that says what was loaded. Rows for one block count as one block
/// constraint.
pub open spec fn loaded_text(settings: Settings) -> Seq<char> {
    "Loaded "@ + settings.source_path + " with "@ + decimal(settings.filter.len() as int)
        + " filter(s), "@ + decimal(distinct_offsets(settings.filter).len() as int)
        + " block constraint(s), and "@ + decimal(settings.directions.len() as int)
        + " direction(s)."@
}

/// The line that says how the scan works.
pub open spec fn algorithm_text(settings: Settings) -> Seq<char> {
    "Algorithm: "@ + algorithm_name(settings.algorithm) + "; order: "@ + order_text(
        settings.scan_order,
    ) + "."@
}

/// What is left to do after the start.
pub enum Outcome {
    /// The program cannot go on.
    Failed(String),
    /// The configuration was checked, and that was all.
    Validated,
    /// The scan can start.
    Scan(ScanConfig, PreparedFilters),
}

/// [`Outcome`] with texts and lists as sequences.
pub enum OutcomeView {
    Failed(Seq<char>),
    Validated,
    Scan(Settings, Seq<DirectionView>),
}

impl View for Outcome {
    type V = OutcomeView;

    open spec fn view(&self) -> OutcomeView {
        match self {
            Outcome::Failed(error) => OutcomeView::Failed(error@),
            Outcome::Validated => OutcomeView::Validated,
            Outcome::Scan(config, prepared) => OutcomeView::Scan(config@, prepared@),
        }
    }
}

/// The start of a run: the lines to print, in order, and what is left to do.
pub struct Start {
    pub lines: Vec<Line>,
    pub outcome: Outcome,
}

/// The lines that open a run: a warning about blocks that can never match, what
/// was loaded, and how the scan works.
pub open spec fn opening_lines(settings: Settings, validate: bool) -> Seq<(Seq<char>, bool)> {
    let filters = direction_filters(
        settings.algorithm,
        settings.filter,
        settings.directions,
    );
    let summary = seq![(loaded_text(settings), validate), (algorithm_text(settings), validate)];
    match warning_text(filters) {
        Some(warning) => seq![("Warning: "@ + warning, false)] + summary,
        None => summary,
    }
}

/// The summary of the plan for one tile size.
pub open spec fn plan_text(label: Seq<char>, settings: Settings, tile_size: TileSize) -> Seq<
    char,
> {
    let plan = plan_of(settings, tile_size);
    plan_summary(label, plan.item_count(), saturated(plan.candidates()))
}

/// The lines that report a successful validation.
pub open spec fn validated_lines(settings: Settings) -> Seq<(Seq<char>, bool)> {
    seq![
        (plan_text("CPU"@, settings, settings.cpu_tile_size), true),
        (plan_text("GPU"@, settings, settings.gpu_tile_size), true),
        ("Config and backend plans are valid."@, true),
    ]
}

/// Why one of the two plans cannot be built, if so.
pub open spec fn backend_plan_error(settings: Settings) -> Option<Seq<char>> {
    match plan_error(plan_of(settings, settings.cpu_tile_size)) {
        Some(message) => Some(message),
        None => plan_error(plan_of(settings, settings.gpu_tile_size)),
    }
}

/// The warning that matches are not saved, if so.
pub open spec fn unsaved_lines(options: OptionsView) -> Seq<(Seq<char>, bool)> {
    if options.output is None {
        seq![
            (
                "Warning: no --output file was specified; matches will only be written to stdout."@,
                false,
            ),
        ]
    } else {
        Seq::empty()
    }
}

/// How a run starts: the lines to print and what is left to do, given the options
/// and the contents of the configuration file or why it could not be read.
/// Validation covers both tile configurations, and prints to standard output.
pub open spec fn start_of(
    options: OptionsView,
    contents: Result<Seq<char>, Seq<char>>,
) -> (Seq<(Seq<char>, bool)>, OutcomeView) {
    match contents {
        Err(reason) => (
            Seq::empty(),
            OutcomeView::Failed("could not read "@ + options.config + ": "@ + reason),
        ),
        Ok(text) => match loaded(options.config, text) {
            Err(error) => (Seq::empty(), OutcomeView::Failed(error)),
            Ok(settings) => {
                let opening = opening_lines(settings, options.validate);
                if options.validate {
                    match backend_plan_error(settings) {
                        Some(error) => (opening, OutcomeView::Failed(error)),
                        None => (opening + validated_lines(settings), OutcomeView::Validated),
                    }
                } else {
                    (
                        opening + unsaved_lines(options),
                        OutcomeView::Scan(
                            settings,
                            direction_filters(
                                settings.algorithm,
                                settings.filter,
                                settings.directions,
                            ),
                        ),
                    )
                }
            },
        },
    }
}

/// Returns the line that says what was loaded.
fn loaded_line(config: &ScanConfig, prepared: &PreparedFilters) -> (text: String)
    requires
        config@.well_formed(),
        validation_error(config@) is None,
        prepared@ == direction_filters(config.algorithm, config.filter@, config.directions@),
    ensures
        text@ == loaded_text(config@),
{
    proof {
        lemma_validated_rows_fit(config@);
        assert(config@.directions[0] == config.directions@[0]);
        law_each_block_counts_once(config.algorithm, config.filter@, config.directions@[0]);
        lemma_distinct_offsets_len(config.filter@);
        assert(prepared@[0] == prepared.directions@[0]@);
    }
    let first: &PreparedDirection = &prepared.directions[0];
    assert(first@ == direction_filter(config.algorithm, config.filter@, config.directions@[0]));
    assert(config.filter.len() <= usize::MAX);
    let blocks: usize = first.constraints.len() + first.forced_errors;
    let mut text: String = "Loaded ".to_owned();
    text.append(config.source_path.as_str());
    text.append(" with ");
    push_nat(&mut text, config.filter.len() as u64);
    text.append(" filter(s), ");
    push_nat(&mut text, blocks as u64);
    text.append(" block constraint(s), and ");
    push_nat(&mut text, config.directions.len() as u64);
    text.append(" direction(s).");
    text
}

/// Returns the line that says how the scan works.
fn algorithm_line(config: &ScanConfig) -> (text: String)
    ensures
        text@ == algorithm_text(config@),
{
    let mut text: String = "Algorithm: ".to_owned();
    text.append(config.algorithm.name().as_str());
    text.append("; order: ");
    text.append(order_name(config.scan_order));
    text.append(".");
    text
}

/// Returns the plan summaries for both tile sizes, and a closing line.
fn validation_lines(config: &ScanConfig) -> (result: Result<Vec<Line>, String>)
    requires
        config.x_range.start <= config.x_range.end,
        config.z_range.start <= config.z_range.end,
    ensures
        match backend_plan_error(config@) {
            Some(message) => result matches Err(error) && error@ == message,
            None => result matches Ok(lines) && line_views(lines@) == validated_lines(config@),
        },
{
    let cpu_plan: ScanPlan = match make_plan(config, config.cpu_tile_size) {
        Ok(plan) => plan,
        Err(error) => {
            return Err(error);
        },
    };
    let gpu_plan: ScanPlan = match make_plan(config, config.gpu_tile_size) {
        Ok(plan) => plan,
        Err(error) => {
            return Err(error);
        },
    };
    let lines: Vec<Line> = vec![
        Line { text: cpu_plan.summary("CPU"), to_stdout: true },
        Line { text: gpu_plan.summary("GPU"), to_stdout: true },
        Line { text: "Config and backend plans are valid.".to_owned(), to_stdout: true },
    ];
    assert(line_views(lines@) =~= validated_lines(config@));
    Ok(lines)
}

/// Starts a run. The contents are those of the configuration file, or the reason
/// why it could not be read.
pub fn start(options: &Options, contents: Result<String, String>) -> (start: Start)
    ensures
        (line_views(start.lines@), start.outcome@) == start_of(
            options@,
            match contents {
                Ok(text) => Ok(text@),
                Err(reason) => Err(reason@),
            },
        ),
        start.outcome matches Outcome::Scan(_, prepared) ==> forall|i: int|
            0 <= i < prepared.directions.len() ==> (#[trigger] prepared.directions[i]).forced_errors
                == prepared.directions[i].contradictions.len(),
{
    let text: String = match contents {
        Ok(text) => text,
        Err(reason) => {
            let mut message: String = "could not read ".to_owned();
            message.append(options.config.as_str());
            message.append(": ");
            message.append(reason.as_str());
            let lines: Vec<Line> = Vec::new();
            assert(line_views(lines@) =~= Seq::empty());
            return Start { lines, outcome: Outcome::Failed(message) };
        },
    };
    let config: ScanConfig = match load(options.config.as_str(), text.as_str()) {
        Ok(config) => config,
        Err(error) => {
            let lines: Vec<Line> = Vec::new();
            assert(line_views(lines@) =~= Seq::empty());
            return Start { lines, outcome: Outcome::Failed(error) };
        },
    };
    proof {
        lemma_validated_rows_fit(config@);
        assert forall|i: int| 0 <= i < config.directions@.len() implies
            is_quarter_turn(#[trigger] config.directions@[i] as int)
            && rows_fit(config.filter@, config.directions@[i] as int) by {
            assert(config@.directions[i] == config.directions@[i]);
        }
    }
    let prepared: PreparedFilters = match prepare_filters(
        config.filter.as_slice(),
        config.algorithm,
        config.directions.as_slice(),
        config.error_tolerance,
    ) {
        Ok(prepared) => prepared,
        Err(error) => {
            let lines: Vec<Line> = Vec::new();
            return Start { lines, outcome: Outcome::Failed(error) };
        },
    };
    let mut lines: Vec<Line> = Vec::new();
    if let Some(warning) = prepared.warning() {
        let mut text: String = "Warning: ".to_owned();
        text.append(warning.as_str());
        lines.push(Line { text, to_stdout: false });
    }
    lines.push(Line { text: loaded_line(&config, &prepared), to_stdout: options.validate });
    lines.push(Line { text: algorithm_line(&config), to_stdout: options.validate });
    let ghost opening = opening_lines(config@, options.validate);
    assert(line_views(lines@) =~= opening);
    if options.validate {
        match validation_lines(&config) {
            Ok(report) => {
                let mut report: Vec<Line> = report;
                let ghost closing = report@;
                let ghost before = lines@;
                lines.append(&mut report);
                assert(line_views(lines@) =~= line_views(before) + line_views(closing));
                return Start { lines, outcome: Outcome::Validated };
            },
            Err(error) => {
                return Start { lines, outcome: Outcome::Failed(error) };
            },
        }
    }
    if options.output.is_none() {
        lines.push(
            Line {
                text: "Warning: no --output file was specified; matches will only be written to stdout.".to_owned(),
                to_stdout: false,
            },
        );
    }
    assert(line_views(lines@) =~= opening + unsaved_lines(options@));
    assert forall|i: int| 0 <= i < prepared.directions.len() implies (
    #[trigger] prepared.directions[i]).forced_errors
        == prepared.directions[i].contradictions.len() by {
        assert(prepared@[i] == prepared.directions@[i]@);
        assert(prepared@[i] == direction_filter(
            config.algorithm,
            config.filter@,
            config.directions@[i],
        ));
    }
    Start { lines, outcome: Outcome::Scan(config, prepared) }
}

/// A scanner implementation.
#[derive(Clone, Copy, Debug, PartialEq, Eq, Structural)]
pub enum ScannerKind {
    Cpu,
    Gpu,
}

/// What happened to the selection of a scanner.
pub enum SelectionEvent {
    /// Nothing yet.
    Begin,
    /// A GPU scanner was set up.
    GpuReady,
    /// No GPU scanner could be set up, for a reason.
    GpuFailed(String),
    /// A CPU scanner was set up.
    CpuReady,
    /// No CPU scanner could be set up, for a reason.
    CpuFailed(String),
}

/// The next step of the selection of a scanner.
pub enum SelectionStep {
    /// Set up a GPU scanner.
    TryGpu,
    /// Print the notice, if there is one, and set up a CPU scanner.
    TryCpu(Option<String>),
    /// Scan.
    Use(ScannerKind),
    /// Give up.
    Fail(String),
}

/// [`SelectionEvent`] with texts as sequences.
pub enum SelectionEventView {
    Begin,
    GpuReady,
    GpuFailed(Seq<char>),
    CpuReady,
    CpuFailed(Seq<char>),
}

/// [`SelectionStep`] with texts as sequences.
pub enum SelectionStepView {
    TryGpu,
    TryCpu(Option<Seq<char>>),
    Use(ScannerKind),
    Fail(Seq<char>),
}

impl View for SelectionEvent {
    type V = SelectionEventView;

    open spec fn view(&self) -> SelectionEventView {
        match self {
            SelectionEvent::Begin => SelectionEventView::Begin,
            SelectionEvent::GpuReady => SelectionEventView::GpuReady,
            SelectionEvent::GpuFailed(reason) => SelectionEventView::GpuFailed(reason@),
            SelectionEvent::CpuReady => SelectionEventView::CpuReady,
            SelectionEvent::CpuFailed(reason) => SelectionEventView::CpuFailed(reason@),
        }
    }
}

impl View for SelectionStep {
    type V = SelectionStepView;

    open spec fn view(&self) -> SelectionStepView {
        match self {
            SelectionStep::TryGpu => SelectionStepView::TryGpu,
            SelectionStep::TryCpu(Some(notice)) => SelectionStepView::TryCpu(Some(notice@)),
            SelectionStep::TryCpu(None) => SelectionStepView::TryCpu(None),
            SelectionStep::Use(kind) => SelectionStepView::Use(*kind),
            SelectionStep::Fail(reason) => SelectionStepView::Fail(reason@),
        }
    }
}

/// How the scanner for a backend is selected: the CPU on request, the GPU on
/// request or automatically, and the CPU in its place where it was automatic and
/// the GPU is unavailable.
pub open spec fn selection_step(backend: Backend, event: SelectionEventView) -> SelectionStepView {
    match event {
        SelectionEventView::Begin => match backend {
            Backend::Cpu => SelectionStepView::TryCpu(None),
            _ => SelectionStepView::TryGpu,
        },
        SelectionEventView::GpuReady => SelectionStepView::Use(ScannerKind::Gpu),
        SelectionEventView::GpuFailed(reason) => match backend {
            Backend::Auto => SelectionStepView::TryCpu(
                Some("GPU unavailable ("@ + reason + "); falling back to CPU."@),
            ),
            _ => SelectionStepView::Fail(reason),
        },
        SelectionEventView::CpuReady => SelectionStepView::Use(ScannerKind::Cpu),
        SelectionEventView::CpuFailed(reason) => SelectionStepView::Fail(reason),
    }
}

/// Decides the next step of the selection of a scanner.
pub fn select_scanner(backend: Backend, event: SelectionEvent) -> (step: SelectionStep)
    ensures
        step@ == selection_step(backend, event@),
{
    match event {
        SelectionEvent::Begin => match backend {
            Backend::Cpu => SelectionStep::TryCpu(None),
            _ => SelectionStep::TryGpu,
        },
        SelectionEvent::GpuReady => SelectionStep::Use(ScannerKind::Gpu),
        SelectionEvent::GpuFailed(reason) => match backend {
            Backend::Auto => {
                let mut notice: String = "GPU unavailable (".to_owned();
                notice.append(reason.as_str());
                notice.append("); falling back to CPU.");
                SelectionStep::TryCpu(Some(notice))
            },
            _ => SelectionStep::Fail(reason),
        },
        SelectionEvent::CpuReady => SelectionStep::Use(ScannerKind::Cpu),
        SelectionEvent::CpuFailed(reason) => SelectionStep::Fail(reason),
    }
}

/// How the selection of a scanner ends within `steps` steps, where `gpu` and `cpu`
/// say whether each scanner can be set up, or why not.
pub open spec fn selection_end(
    backend: Backend,
    event: SelectionEventView,
    gpu: Result<(), Seq<char>>,
    cpu: Result<(), Seq<char>>,
    steps: nat,
) -> Option<Result<ScannerKind, Seq<char>>>
    decreases steps,
{
    if steps == 0 {
        None
    } else {
        let left = (steps - 1) as nat;
        match selection_step(backend, event) {
            SelectionStepView::Use(kind) => Some(Ok(kind)),
            SelectionStepView::Fail(reason) => Some(Err(reason)),
            SelectionStepView::TryGpu => {
                let next = match gpu {
                    Ok(_) => SelectionEventView::GpuReady,
                    Err(reason) => SelectionEventView::GpuFailed(reason),
                };
                selection_end(backend, next, gpu, cpu, left)
            },
            SelectionStepView::TryCpu(_) => {
                let next = match cpu {
                    Ok(_) => SelectionEventView::CpuReady,
                    Err(reason) => SelectionEventView::CpuFailed(reason),
                };
                selection_end(backend, next, gpu, cpu, left)
            },
        }
    }
}

/// The selection ends after three steps at most. A backend that was asked for by
/// name is the only one that is used; in automatic mode a GPU is used where there
/// is one, and the CPU otherwise.
pub proof fn law_selection_ends(
    backend: Backend,
    gpu: Result<(), Seq<char>>,
    cpu: Result<(), Seq<char>>,
)
    ensures
        selection_end(backend, SelectionEventView::Begin, gpu, cpu, 3) == Some(
            if backend == Backend::Cpu || (backend == Backend::Auto && gpu is Err) {
                match cpu {
                    Ok(_) => Ok(ScannerKind::Cpu),
                    Err(reason) => Err(reason),
                }
            } else {
                match gpu {
                    Ok(_) => Ok(ScannerKind::Gpu),
                    Err(reason) => Err(reason),
                }
            },
        ),
{
    reveal_with_fuel(selection_end, 4);
}

/// Before a scan nothing is printed to standard output, so that matches can be
/// redirected alone. A validation sends at most its first line, a warning about
/// filter rows, elsewhere.
pub proof fn law_output_is_kept_apart(
    options: OptionsView,
    contents: Result<Seq<char>, Seq<char>>,
    i: int,
)
    requires
        0 <= i < start_of(options, contents).0.len(),
    ensures
        !options.validate ==> !start_of(options, contents).0[i].1,
        options.validate && !start_of(options, contents).0[i].1 ==> i == 0,
{
}

/// A validation never scans, and a run without one never stops after the checks.
pub proof fn law_validation_never_scans(
    options: OptionsView,
    contents: Result<Seq<char>, Seq<char>>,
)
    ensures
        options.validate ==> !(start_of(options, contents).1 is Scan),
        !options.validate ==> !(start_of(options, contents).1 is Validated),
{
}

/// Returns the number of CPU workers: the one that was asked for, or else the
/// available parallelism.
pub fn worker_count(options: &Options, available: usize) -> (n: usize)
    ensures
        n == (match options.threads {
            Some(threads) => threads,
            None => available,
        }),
{
    match options.threads {
        Some(threads) => threads,
        None => available,
    }
}

/// Returns the tile size that a scanner uses.
pub fn tile_size_for(kind: ScannerKind, config: &ScanConfig) -> (tile_size: TileSize)
    ensures
        tile_size == (match kind {
            ScannerKind::Cpu => config.cpu_tile_size,
            ScannerKind::Gpu => config.gpu_tile_size,
        }),
{
    match kind {
        ScannerKind::Cpu => config.cpu_tile_size,
        ScannerKind::Gpu => config.gpu_tile_size,
    }
}

/// What a scanner that was set up says of itself.
#[derive(Clone, Debug)]
pub enum ScannerInfo {
    /// A CPU scanner with its number of workers.
    Cpu(usize),
    /// A GPU scanner with its graphics interface and the name of its adapter.
    Gpu(String, String),
}

/// The line that names the scanner.
pub open spec fn backend_text(info: ScannerInfo) -> Seq<char> {
    match info {
        ScannerInfo::Cpu(threads) => "Backend: CPU ("@ + decimal(threads as int) + " threads)."@,
        ScannerInfo::Gpu(api, adapter) => "Backend: wgpu/"@ + api@ + " ("@ + adapter@ + ")."@,
    }
}

/// Returns the line that names the scanner.
pub fn backend_line(info: &ScannerInfo) -> (text: String)
    ensures
        text@ == backend_text(*info),
{
    match info {
        ScannerInfo::Cpu(threads) => {
            let mut text: String = "Backend: CPU (".to_owned();
            push_nat(&mut text, *threads as u64);
            text.append(" threads).");
            text
        },
        ScannerInfo::Gpu(api, adapter) => {
            let mut text: String = "Backend: wgpu/".to_owned();
            text.append(api.as_str());
            text.append(" (");
            text.append(adapter.as_str());
            text.append(").");
            text
        },
    }
}

/// Returns the label of a scanner's plan.
pub fn plan_label(kind: ScannerKind) -> (label: &'static str)
    ensures
        label@ == (match kind {
            ScannerKind::Cpu => "CPU"@,
            ScannerKind::Gpu => "GPU"@,
        }),
{
    match kind {
        ScannerKind::Cpu => "CPU",
        ScannerKind::Gpu => "GPU",
    }
}

/// Returns the exit status of a scan: 130 after an interrupt, else success.
pub fn scan_exit_code(cancelled: bool) -> (code: u8)
    ensures
        code == (if cancelled { 130u8 } else { 0u8 }),
{
    if cancelled {
        130
    } else {
        0
    }
}

} // verus!
