//! What the program says and does: its lines can be read back, its options mean what
//! was given, and a scan gets what was loaded.

use vstd::prelude::*;
use crate::config::{loaded, scan_order_value, ScanConfig, ScanOrder, Settings};
use crate::filter::{
    direction_filter, direction_filters, distinct_offsets, warning_text, PreparedDirection,
    PreparedFilters,
};
use crate::number::{decimal, integer_value, law_decimal_round_trip, leading_digits, numeral_value};
use crate::number_laws::law_numbers_end;
use crate::options::{
    optional, acceptable, optionals, accepted, argument_table, backend_named, count_error,
    options_value, Backend, Options, OptionsView,
};
use crate::program::{
    algorithm_text, backend_text, line_view, line_views, loaded_text, match_text, opening_lines,
    order_text, selection_step, start_of, unsaved_lines, Line, Outcome, OutcomeView, ScannerInfo,
    ScannerKind, SelectionEventView, SelectionStepView,
};
use crate::scan::{plan_error, plan_of, plan_summary, saturated};
use crate::text::ascii_lowered;
use crate::types::{algorithm_name, Match};

verus! {

/// Two texts with the same beginning go on alike.
proof fn lemma_same_rest(head: Seq<char>, x: Seq<char>, y: Seq<char>)
    requires
        head + x == head + y,
    ensures
        x == y,
{
    assert((head + x).skip(head.len() as int) =~= x);
    assert((head + y).skip(head.len() as int) =~= y);
}

/// The line of a match, behind its first words.
spec fn match_rest(m: Match) -> Seq<char> {
    decimal(m.mismatches as int) + (" mismatch(es)! ("@ + (decimal(m.x as int) + (", "@ + (decimal(
        m.y as int,
    ) + (", "@ + (decimal(m.z as int) + ("), direction "@ + decimal(m.direction as int))))))))
}

/// The line of a match is its first words and the rest.
proof fn lemma_match_text(m: Match)
    ensures
        match_text(m) == "Found with "@ + match_rest(m),
{
    assert(match_text(m) =~= "Found with "@ + match_rest(m));
}

/// What stands behind the numbers in the line of a match starts with no digit.
proof fn lemma_match_literals()
    ensures
        " mismatch(es)! ("@.len() > 0 && " mismatch(es)! ("@[0] == ' ',
        ", "@.len() > 0 && ", "@[0] == ',',
        "), direction "@.len() > 0 && "), direction "@[0] == ')',
{
    reveal_strlit(" mismatch(es)! (");
    reveal_strlit(", ");
    reveal_strlit("), direction ");
}

/// The line of a match holds its number of mismatches, its coordinates in the order
/// X, Y, Z, and its direction.
pub proof fn law_match_lines(m: Match)
    ensures
        match_text(m) == "Found with "@ + decimal(m.mismatches as int) + " mismatch(es)! ("@
            + decimal(m.x as int) + ", "@ + decimal(m.y as int) + ", "@ + decimal(m.z as int)
            + "), direction "@ + decimal(m.direction as int),
{
}

/// The line of a match determines the match.
pub proof fn law_match_lines_are_distinct(a: Match, b: Match)
    requires
        match_text(a) == match_text(b),
    ensures
        a.x == b.x,
        a.y == b.y,
        a.z == b.z,
        a.direction == b.direction,
        a.mismatches == b.mismatches,
{
    let head = "Found with "@;
    lemma_match_text(a);
    lemma_match_text(b);
    lemma_same_rest(head, match_rest(a), match_rest(b));
    lemma_match_literals();
    let empty = Seq::<char>::empty();
    let (a4, b4) = ("), direction "@ + decimal(a.direction as int), "), direction "@ + decimal(
        b.direction as int,
    ));
    let (a3, b3) = (", "@ + (decimal(a.z as int) + a4), ", "@ + (decimal(b.z as int) + b4));
    let (a2, b2) = (", "@ + (decimal(a.y as int) + a3), ", "@ + (decimal(b.y as int) + b3));
    let (a1, b1) = (
        " mismatch(es)! ("@ + (decimal(a.x as int) + a2),
        " mismatch(es)! ("@ + (decimal(b.x as int) + b2),
    );
    law_numbers_end(a.mismatches as int, a1, b.mismatches as int, b1);
    lemma_same_rest(" mismatch(es)! ("@, decimal(a.x as int) + a2, decimal(b.x as int) + b2);
    law_numbers_end(a.x as int, a2, b.x as int, b2);
    lemma_same_rest(", "@, decimal(a.y as int) + a3, decimal(b.y as int) + b3);
    law_numbers_end(a.y as int, a3, b.y as int, b3);
    lemma_same_rest(", "@, decimal(a.z as int) + a4, decimal(b.z as int) + b4);
    law_numbers_end(a.z as int, a4, b.z as int, b4);
    lemma_same_rest("), direction "@, decimal(a.direction as int), decimal(b.direction as int));
    assert(decimal(a.direction as int) + empty =~= decimal(a.direction as int));
    assert(decimal(b.direction as int) + empty =~= decimal(b.direction as int));
    law_numbers_end(a.direction as int, empty, b.direction as int, empty);
}

/// A part of a text, with what stands around it.
pub open spec fn stands_at(
    text: Seq<char>,
    from: int,
    to: int,
    before: Seq<char>,
    after: Seq<char>,
) -> bool {
    &&& before.len() <= from <= to
    &&& to + after.len() <= text.len()
    &&& text.subrange(from - before.len(), from) == before
    &&& text.subrange(to, to + after.len()) == after
}

/// The coordinates of a match can be read back from its line: X stands behind the
/// opening bracket, Y behind the first comma, and Z between the second comma and the
/// closing bracket.
pub proof fn law_match_lines_read_back(m: Match) -> (places: ((int, int), (int, int), (int, int)))
    ensures
        ({
            let text = match_text(m);
            let (x, y, z) = places;
            &&& stands_at(text, x.0, x.1, "("@, ", "@)
            &&& stands_at(text, y.0, y.1, ", "@, ", "@)
            &&& stands_at(text, z.0, z.1, ", "@, ")"@)
            &&& x.1 < y.0 && y.1 < z.0
            &&& integer_value(text.subrange(x.0, x.1), true) == Some(m.x as int)
            &&& integer_value(text.subrange(y.0, y.1), true) == Some(m.y as int)
            &&& integer_value(text.subrange(z.0, z.1), true) == Some(m.z as int)
        }),
{
    let text = match_text(m);
    let (x, y, z) = (decimal(m.x as int), decimal(m.y as int), decimal(m.z as int));
    reveal_strlit("Found with ");
    reveal_strlit(" mismatch(es)! (");
    reveal_strlit(", ");
    reveal_strlit("), direction ");
    reveal_strlit("(");
    reveal_strlit(")");
    let start = "Found with "@.len() + decimal(m.mismatches as int).len()
        + " mismatch(es)! ("@.len();
    let xs = (start as int, (start + x.len()) as int);
    let ys = (xs.1 + 2, xs.1 + 2 + y.len());
    let zs = (ys.1 + 2, ys.1 + 2 + z.len());
    assert(text.subrange(xs.0, xs.1) =~= x);
    assert(text.subrange(ys.0, ys.1) =~= y);
    assert(text.subrange(zs.0, zs.1) =~= z);
    assert(text.subrange(xs.0 - 1, xs.0) =~= "("@);
    assert(text.subrange(xs.1, xs.1 + 2) =~= ", "@);
    assert(text.subrange(ys.1, ys.1 + 2) =~= ", "@);
    assert(text.subrange(zs.1, zs.1 + 1) =~= ")"@);
    law_decimal_round_trip(m.x as int);
    law_decimal_round_trip(m.y as int);
    law_decimal_round_trip(m.z as int);
    (xs, ys, zs)
}

/// What is said of a loaded configuration: its path, and the numbers of its filter
/// rows, of the blocks that they speak of, and of its directions.
pub proof fn law_loaded_lines(settings: Settings)
    ensures
        loaded_text(settings) == "Loaded "@ + settings.source_path + " with "@ + decimal(
            settings.filter.len() as int,
        ) + " filter(s), "@ + decimal(distinct_offsets(settings.filter).len() as int)
            + " block constraint(s), and "@ + decimal(settings.directions.len() as int)
            + " direction(s)."@,
        algorithm_text(settings) == "Algorithm: "@ + algorithm_name(settings.algorithm)
            + "; order: "@ + order_text(settings.scan_order) + "."@,
{
}

/// The name of a scan order is read back as that scan order.
pub proof fn law_order_names_round_trip(order: ScanOrder)
    ensures
        scan_order_value(order_text(order)) == Ok::<ScanOrder, Seq<char>>(order),
{
    reveal_strlit("linear");
    reveal_strlit("native");
    reveal_strlit("spiral");
    reveal_strlit("reverse-spiral");
    assert(ascii_lowered("linear"@) =~= "linear"@);
    assert(ascii_lowered("spiral"@) =~= "spiral"@);
    assert(ascii_lowered("reverse-spiral"@) =~= "reverse-spiral"@);
    assert("linear"@[0] == 'l' && "native"@[0] == 'n' && "spiral"@[0] == 's');
    assert("reverse-spiral"@[0] == 'r');
}

/// The summary of a plan behind its label.
spec fn summary_rest(items: int, candidates: (int, bool)) -> Seq<char> {
    let count = if candidates.1 {
        ">= "@ + (decimal(candidates.0) + " (display saturated)."@)
    } else {
        decimal(candidates.0) + "."@
    };
    " plan: "@ + (decimal(items) + (" work items; candidates: "@ + count))
}

/// The summary of a plan determines its number of work items, its number of
/// candidates and whether that is a lower bound.
pub proof fn law_plan_summaries_are_distinct(
    label: Seq<char>,
    items: int,
    candidates: (int, bool),
    other_items: int,
    other_candidates: (int, bool),
)
    requires
        plan_summary(label, items, candidates) == plan_summary(
            label,
            other_items,
            other_candidates,
        ),
        candidates.0 >= 0,
        other_candidates.0 >= 0,
    ensures
        items == other_items,
        candidates == other_candidates,
{
    lemma_summary(label, items, candidates);
    lemma_summary(label, other_items, other_candidates);
    lemma_same_rest(
        label,
        summary_rest(items, candidates),
        summary_rest(other_items, other_candidates),
    );
    reveal_strlit(" work items; candidates: ");
    reveal_strlit(">= ");
    reveal_strlit(" (display saturated).");
    reveal_strlit(".");
    let (c, d) = (summary_count(candidates), summary_count(other_candidates));
    let w = " work items; candidates: "@;
    lemma_same_rest(" plan: "@, decimal(items) + (w + c), decimal(other_items) + (w + d));
    law_numbers_end(items, w + c, other_items, w + d);
    lemma_same_rest(w, c, d);
    crate::number_laws::lemma_decimal_not_empty(candidates.0);
    crate::number_laws::lemma_decimal_not_empty(other_candidates.0);
    crate::number_laws::lemma_decimal_characters(candidates.0, 0);
    crate::number_laws::lemma_decimal_characters(other_candidates.0, 0);
    assert(candidates.1 ==> c[0] == '>');
    assert(other_candidates.1 ==> d[0] == '>');
    assert(!candidates.1 ==> c[0] == decimal(candidates.0)[0]);
    assert(!other_candidates.1 ==> d[0] == decimal(other_candidates.0)[0]);
    if candidates.1 {
        let s = " (display saturated)."@;
        lemma_same_rest(">= "@, decimal(candidates.0) + s, decimal(other_candidates.0) + s);
        law_numbers_end(candidates.0, s, other_candidates.0, s);
    } else {
        law_numbers_end(candidates.0, "."@, other_candidates.0, "."@);
    }
}

/// The number of candidates as it stands in a summary.
spec fn summary_count(candidates: (int, bool)) -> Seq<char> {
    if candidates.1 {
        ">= "@ + (decimal(candidates.0) + " (display saturated)."@)
    } else {
        decimal(candidates.0) + "."@
    }
}

/// The summary of a plan is its label and the rest.
proof fn lemma_summary(label: Seq<char>, items: int, candidates: (int, bool))
    ensures
        plan_summary(label, items, candidates) == label + summary_rest(items, candidates),
{
    reveal_strlit(" (display saturated)");
    reveal_strlit(" (display saturated).");
    reveal_strlit(".");
    assert(" (display saturated)."@ =~= " (display saturated)"@ + "."@);
    assert(plan_summary(label, items, candidates) =~= label + summary_rest(items, candidates));
}

/// A plan is summed up by its label, its work items, and its candidates, as a lower
/// bound where their count saturated.
pub proof fn law_plan_summaries(label: Seq<char>, items: int, candidates: (int, bool))
    ensures
        plan_summary(label, items, candidates) == label + " plan: "@ + decimal(items)
            + " work items; candidates: "@ + (if candidates.1 {
            ">= "@ + decimal(candidates.0) + " (display saturated)"@
        } else {
            decimal(candidates.0)
        }) + "."@,
{
}

/// The line that names a scanner determines its number of workers.
pub proof fn law_backend_lines(a: usize, b: usize, api: String, adapter: String)
    ensures
        backend_text(ScannerInfo::Cpu(a)) == "Backend: CPU ("@ + decimal(a as int) + " threads)."@,
        backend_text(ScannerInfo::Gpu(api, adapter)) == "Backend: wgpu/"@ + api@ + " ("@ + adapter@
            + ")."@,
        backend_text(ScannerInfo::Cpu(a)) == backend_text(ScannerInfo::Cpu(b)) ==> a == b,
{
    let (head, tail) = ("Backend: CPU ("@, " threads)."@);
    if backend_text(ScannerInfo::Cpu(a)) == backend_text(ScannerInfo::Cpu(b)) {
        reveal_strlit(" threads).");
        assert(backend_text(ScannerInfo::Cpu(a)) =~= head + (decimal(a as int) + tail));
        assert(backend_text(ScannerInfo::Cpu(b)) =~= head + (decimal(b as int) + tail));
        lemma_same_rest(head, decimal(a as int) + tail, decimal(b as int) + tail);
        law_numbers_end(a as int, tail, b as int, tail);
    }
}

/// A file that cannot be read, or that does not load, ends the run with the reason and
/// nothing else printed.
pub proof fn law_failed_starts(options: OptionsView, contents: Result<Seq<char>, Seq<char>>)
    ensures
        contents matches Err(reason) ==> start_of(options, contents) == (
            Seq::<(Seq<char>, bool)>::empty(),
            OutcomeView::Failed("could not read "@ + options.config + ": "@ + reason),
        ),
        contents matches Ok(text) ==> (loaded(options.config, text) matches Err(error) ==> start_of(
            options,
            contents,
        ) == (Seq::<(Seq<char>, bool)>::empty(), OutcomeView::Failed(error))),
{
}

/// Where a file loads and validation was not asked for, the scan gets exactly the
/// loaded settings, every field of them, and the filter of every direction for them.
pub proof fn law_scans_get_what_was_loaded(options: OptionsView, text: Seq<char>)
    requires
        loaded(options.config, text) is Ok,
        !options.validate,
    ensures
        ({
            let start = start_of(options, Ok(text));
            &&& start.1 matches OutcomeView::Scan(settings, filters)
            &&& loaded(options.config, text) == Ok::<Settings, Seq<char>>(settings)
            &&& filters.len() == settings.directions.len()
            &&& forall|i: int|
                0 <= i < filters.len() ==> #[trigger] filters[i] == direction_filter(
                    settings.algorithm,
                    settings.filter,
                    settings.directions[i],
                )
        }),
{
}

/// Where a file loads and validation was asked for, the run ends well exactly when
/// there is a plan for the CPU tiles and one for the GPU tiles; else it ends with the
/// reason, that of the CPU plan first.
pub proof fn law_validations(options: OptionsView, text: Seq<char>)
    requires
        loaded(options.config, text) is Ok,
        options.validate,
    ensures
        ({
            let settings = loaded(options.config, text)->Ok_0;
            let outcome = start_of(options, Ok(text)).1;
            match plan_error(plan_of(settings, settings.cpu_tile_size)) {
                Some(error) => outcome == OutcomeView::Failed(error),
                None => match plan_error(plan_of(settings, settings.gpu_tile_size)) {
                    Some(error) => outcome == OutcomeView::Failed(error),
                    None => outcome == OutcomeView::Validated,
                },
            }
        }),
{
}

/// The lines that open a run on a file that loads: a warning to standard error where
/// blocks contradict themselves, then what was loaded and how it will be scanned, to
/// standard output in a validation and to standard error before a scan.
pub proof fn law_opening_lines(options: OptionsView, text: Seq<char>)
    requires
        loaded(options.config, text) is Ok,
    ensures
        ({
            let settings = loaded(options.config, text)->Ok_0;
            let lines = start_of(options, Ok(text)).0;
            let warning = warning_text(
                direction_filters(settings.algorithm, settings.filter, settings.directions),
            );
            let k = if warning is Some {
                1int
            } else {
                0
            };
            &&& warning matches Some(note) ==> lines[0] == ("Warning: "@ + note, false)
            &&& lines.len() >= k + 2
            &&& lines[k] == (loaded_text(settings), options.validate)
            &&& lines[k + 1] == (algorithm_text(settings), options.validate)
        }),
{
}

/// The lines that close the start of a run: before a scan a warning where matches are
/// not saved, and after a good validation the sums of both plans, to standard output.
pub proof fn law_closing_lines(options: OptionsView, text: Seq<char>)
    requires
        loaded(options.config, text) is Ok,
    ensures
        ({
            let settings = loaded(options.config, text)->Ok_0;
            let (lines, outcome) = start_of(options, Ok(text));
            let opening = opening_lines(settings, options.validate);
            let n = lines.len() as int;
            &&& !options.validate && options.output is Some ==> lines == opening
            &&& !options.validate && options.output is None ==> lines == opening.push(
                (
                    "Warning: no --output file was specified; matches will only be written to stdout."@,
                    false,
                ),
            )
            &&& outcome is Failed ==> lines == opening
            &&& outcome is Validated ==> {
                let (cpu, gpu) = (
                    plan_of(settings, settings.cpu_tile_size),
                    plan_of(settings, settings.gpu_tile_size),
                );
                &&& n == opening.len() + 3
                &&& lines[n - 3] == (
                    plan_summary("CPU"@, cpu.item_count(), saturated(cpu.candidates())),
                    true,
                )
                &&& lines[n - 2] == (
                    plan_summary("GPU"@, gpu.item_count(), saturated(gpu.candidates())),
                    true,
                )
                &&& lines[n - 1] == ("Config and backend plans are valid."@, true)
            }
        }),
{
    let settings = loaded(options.config, text)->Ok_0;
    let opening = opening_lines(settings, options.validate);
    assert(opening + Seq::empty() =~= opening);
    assert(opening + unsaved_lines(options) =~= start_of(options, Ok(text)).0
        || options.validate);
    if !options.validate && options.output is None {
        let note = (
            "Warning: no --output file was specified; matches will only be written to stdout."@,
            false,
        );
        assert(opening + seq![note] =~= opening.push(note));
    }
}

/// Where no GPU can be set up in automatic mode, the notice gives the reason; where a
/// scanner that was asked for cannot be set up, the reason is the error.
pub proof fn law_selection_reasons(reason: Seq<char>, backend: Backend)
    ensures
        selection_step(Backend::Auto, SelectionEventView::GpuFailed(reason))
            == SelectionStepView::TryCpu(
            Some("GPU unavailable ("@ + reason + "); falling back to CPU."@),
        ),
        selection_step(Backend::Gpu, SelectionEventView::GpuFailed(reason))
            == SelectionStepView::Fail(reason),
        selection_step(backend, SelectionEventView::CpuFailed(reason)) == SelectionStepView::Fail(
            reason,
        ),
        selection_step(backend, SelectionEventView::CpuReady) == SelectionStepView::Use(
            ScannerKind::Cpu,
        ),
        selection_step(backend, SelectionEventView::GpuReady) == SelectionStepView::Use(
            ScannerKind::Gpu,
        ),
        selection_step(Backend::Cpu, SelectionEventView::Begin) == SelectionStepView::TryCpu(None),
        backend != Backend::Cpu ==> selection_step(backend, SelectionEventView::Begin)
            == SelectionStepView::TryGpu,
{
}

/// What the values of the arguments mean: the file and the output as given, the
/// backend by its name, the number of threads that the text denotes, and a validation
/// where the flag is set.
pub proof fn law_options(values: Seq<Option<Seq<char>>>, n: usize)
    requires
        values.len() == 6,
        values[0] is Some,
    ensures
        ({
            let options = options_value(values);
            &&& options.config == values[0]->Some_0
            &&& options.output == values[4]
            &&& options.validate <==> values[3] == Some("true"@)
            &&& values[1] is None ==> options.backend == Backend::Auto
            &&& values[1] == Some("auto"@) ==> options.backend == Backend::Auto
            &&& values[1] == Some("cpu"@) ==> options.backend == Backend::Cpu
            &&& values[1] == Some("gpu"@) ==> options.backend == Backend::Gpu
            &&& values[2] is None ==> options.threads is None
            &&& n > 0 && values[2] is Some && integer_value(values[2]->Some_0, false) == Some(
                n as int,
            ) ==> options.threads == Some(n)
        }),
{
    reveal_strlit("auto");
    reveal_strlit("cpu");
    reveal_strlit("gpu");
    assert("auto"@.len() == 4 && "cpu"@.len() == 3 && "gpu"@.len() == 3);
    assert("cpu"@[0] == 'c' && "gpu"@[0] == 'g');
}

/// The values that an argument can take: a path that is not empty, one of the three
/// names of backends, a number from one to the largest machine word.
pub proof fn law_accepted_values(value: Seq<char>)
    ensures
        accepted(argument_table()[0].kind, value) <==> value.len() > 0,
        accepted(argument_table()[1].kind, value) <==> value == "auto"@ || value == "cpu"@ || value
            == "gpu"@,
        accepted(argument_table()[2].kind, value) <==> (integer_value(value, false) matches Some(n)
            && 1 <= n <= usize::MAX),
        accepted(argument_table()[4].kind, value) <==> value.len() > 0,
        backend_named(value) is Some <==> value == "auto"@ || value == "cpu"@ || value == "gpu"@,
{
}

/// The arguments of the program by their names and letters.
pub proof fn law_arguments()
    ensures
        ({
            let t = argument_table();
            &&& t.len() == 6
            &&& t[0].long is None && t[0].short is None && t[0].required
            &&& t[1].long == Some("backend") && t[1].short == Some('b')
            &&& t[2].long == Some("threads") && t[2].short == Some('t')
            &&& t[3].long == Some("validate") && t[3].short == Some('e')
            &&& t[4].long == Some("output") && t[4].short == Some('o')
            &&& t[5].long == Some("version") && t[5].short == Some('v')
            &&& t[3].kind is Flag && t[5].kind is Version
            &&& forall|i: int| 0 < i < 6 ==> !(#[trigger] t[i]).required
        }),
{
}

/// Why a text is no positive number: it is empty; its digits are too large, whatever
/// follows them; it holds something else than digits; or it is zero.
pub proof fn law_count_errors(value: Seq<char>)
    ensures
        value.len() == 0 ==> count_error(value) == "cannot parse integer from empty string"@,
        value.len() > 0 && numeral_value(leading_digits(value)) > usize::MAX ==> count_error(value)
            == "number too large to fit in target type"@,
        value.len() > 0 && numeral_value(leading_digits(value)) <= usize::MAX && integer_value(
            value,
            false,
        ) is None ==> count_error(value) == "invalid digit found in string"@,
        value.len() > 0 && numeral_value(leading_digits(value)) <= usize::MAX && integer_value(
            value,
            false,
        ) == Some(0int) ==> count_error(value) == "number would be zero for non-zero type"@,
{
}

/// The views of options, lines, filters and outcomes hold their fields as they are.
pub proof fn law_views_are_the_fields(
    options: Options,
    line: Line,
    lines: Seq<Line>,
    direction: PreparedDirection,
    filters: PreparedFilters,
    config: ScanConfig,
    error: String,
    i: int,
)
    ensures
        options@.config == options.config@,
        options@.backend == options.backend,
        options@.threads == options.threads,
        options@.validate == options.validate,
        options.output matches Some(path) ==> options@.output == Some(path@),
        options.output is None ==> options@.output is None,
        line_view(line) == (line.text@, line.to_stdout),
        line_views(lines).len() == lines.len(),
        0 <= i < lines.len() ==> line_views(lines)[i] == (lines[i].text@, lines[i].to_stdout),
        direction@.direction == direction.direction,
        direction@.constraints == direction.constraints@,
        direction@.forced_errors == direction.forced_errors,
        direction@.contradictions == direction.contradictions@,
        filters@.len() == filters.directions@.len(),
        0 <= i < filters.directions@.len() ==> filters@[i] == filters.directions@[i]@,
        Outcome::Failed(error)@ == OutcomeView::Failed(error@),
        Outcome::Validated@ == OutcomeView::Validated,
        Outcome::Scan(config, filters)@ == OutcomeView::Scan(config@, filters@),
{
}

/// Optional texts are spoken of by their contents, one for one.
pub proof fn law_optional_contents(text: String, list: Seq<Option<String>>, i: int)
    ensures
        optional(Some(text)) == Some(text@),
        optional(None) is None,
        optionals(list).len() == list.len(),
        0 <= i < list.len() ==> optionals(list)[i] == optional(list[i]),
{
}

/// The values that the arguments can have together: the file is named, and every value
/// is one that its argument can take.
pub proof fn law_acceptable_values(values: Seq<Option<Seq<char>>>)
    ensures
        acceptable(values) <==> {
            &&& values.len() == 6
            &&& values[0] matches Some(path) && path.len() > 0
            &&& values[1] is Some ==> values[1] == Some("auto"@) || values[1] == Some("cpu"@)
                || values[1] == Some("gpu"@)
            &&& values[2] matches Some(n) ==> (integer_value(n, false) matches Some(v) && 1 <= v
                <= usize::MAX)
            &&& values[4] matches Some(path) ==> path.len() > 0
        },
{
    if acceptable(values) {
        assert(values[1] is Some ==> accepted(argument_table()[1].kind, values[1]->Some_0));
        assert(values[2] is Some ==> accepted(argument_table()[2].kind, values[2]->Some_0));
        assert(values[4] is Some ==> accepted(argument_table()[4].kind, values[4]->Some_0));
    }
}

} // verus!
