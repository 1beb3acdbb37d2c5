//! Flux scripts that batch many summary queries into one, and the tables read back
//! from their results.
use vstd::prelude::*;

use crate::flux::{lookup, CellsView, FluxRow};
use crate::text::{owned, str_eq};

verus! {

/// `list` joined with `sep` between neighbours.
pub open spec fn join(list: Seq<Seq<char>>, sep: Seq<char>) -> Seq<char>
    decreases list.len(),
{
    if list.len() == 0 {
        Seq::empty()
    } else if list.len() == 1 {
        list[0]
    } else {
        join(list.drop_last(), sep) + sep + list.last()
    }
}

pub open spec fn strings_view(v: Seq<String>) -> Seq<Seq<char>> {
    v.map_values(|s: String| s@)
}

/// Joins strings with a separator.
pub fn join_strings(list: &Vec<String>, sep: &str) -> (r: String)
    ensures
        r@ == join(strings_view(list@), sep@),
{
    let ghost l = strings_view(list@);
    let mut out = String::new();
    let mut i: usize = 0;
    while i < list.len()
        invariant
            i <= list.len(),
            l == strings_view(list@),
            out@ == join(l.take(i as int), sep@),
        decreases list.len() - i,
    {
        assert(l.take(i + 1).drop_last() =~= l.take(i as int));
        if i > 0 {
            out.append(sep);
        }
        out.append(list[i].as_str());
        i = i + 1;
        assert(out@ =~= join(l.take(i as int), sep@));
    }
    assert(l.take(list.len() as int) =~= l);
    out
}

/// `{var}_{metric}`: the variable holding one metric of a series.
pub open spec fn result_var(var: Seq<char>, metric: Seq<char>) -> Seq<char> {
    var + "_"@ + metric
}

/// `{var}_{metric} = {var} |> {op}{cast} |> set(key: "series", value: "{series}") |> set(key: "metric", value: "{metric}")`
pub open spec fn metric_line(
    var: Seq<char>,
    series: Seq<char>,
    metric: Seq<char>,
    op: Seq<char>,
    cast: Seq<char>,
) -> Seq<char> {
    result_var(var, metric) + " = "@ + var + " |> "@ + op + cast
        + " |> set(key: \"series\", value: \""@ + series + "\") |> set(key: \"metric\", value: \""@
        + metric + "\")"@
}

/// `{var} = {base}`
pub open spec fn base_line(var: Seq<char>, base: Seq<char>) -> Seq<char> {
    var + " = "@ + base
}

pub open spec fn count_cast() -> Seq<char> {
    " |> map(fn: (r) => ({ r with _value: float(v: r._value) }))"@
}

/// The six metrics of a numeric summary: (name, Flux selector, whether it is cast).
pub open spec fn summary_metrics() -> Seq<(Seq<char>, Seq<char>, bool)> {
    seq![
        ("count"@, "count(column: \"_value\")"@, true),
        ("start"@, "first()"@, false),
        ("end"@, "last()"@, false),
        ("min"@, "min()"@, false),
        ("max"@, "max()"@, false),
        ("latest"@, "last()"@, false),
    ]
}

pub open spec fn summary_metric_line(var: Seq<char>, label: Seq<char>, k: int) -> Seq<char> {
    let (metric, op, cast) = summary_metrics()[k];
    metric_line(var, label, metric, op, if cast { count_cast() } else { Seq::empty() })
}

pub type SummarySpecView = (Seq<char>, Seq<char>, Seq<char>);

pub open spec fn summary_spec_view(t: (String, String, String)) -> SummarySpecView {
    (t.0@, t.1@, t.2@)
}

/// Script lines for the series in `vars`: each series' base assignment, then one line
/// per summary metric.
pub open spec fn summary_parts(vars: Seq<SummarySpecView>) -> Seq<Seq<char>>
    decreases vars.len(),
{
    if vars.len() == 0 {
        Seq::empty()
    } else {
        let (var, label, base) = vars.last();
        summary_parts(vars.drop_last()) + seq![
            base_line(var, base),
            summary_metric_line(var, label, 0),
            summary_metric_line(var, label, 1),
            summary_metric_line(var, label, 2),
            summary_metric_line(var, label, 3),
            summary_metric_line(var, label, 4),
            summary_metric_line(var, label, 5),
        ]
    }
}

/// The metric variables of the series in `vars`, in script order.
pub open spec fn summary_union_inputs(vars: Seq<SummarySpecView>) -> Seq<Seq<char>>
    decreases vars.len(),
{
    if vars.len() == 0 {
        Seq::empty()
    } else {
        let var = vars.last().0;
        summary_union_inputs(vars.drop_last()) + seq![
            result_var(var, "count"@),
            result_var(var, "start"@),
            result_var(var, "end"@),
            result_var(var, "min"@),
            result_var(var, "max"@),
            result_var(var, "latest"@),
        ]
    }
}

/// `union(tables: [a, b, ...])`
pub open spec fn union_line(inputs: Seq<Seq<char>>) -> Seq<char> {
    "union(tables: ["@ + join(inputs, ", "@) + "])"@
}

/// The whole batched summary script: every line, then the union of all metric
/// variables, separated by blank lines.
pub open spec fn summary_script(vars: Seq<SummarySpecView>) -> Seq<char> {
    join(summary_parts(vars).push(union_line(summary_union_inputs(vars))), "\n\n"@)
}

fn make_result_var(var: &str, metric: &str) -> (r: String)
    ensures
        r@ == result_var(var@, metric@),
{
    let mut s = owned(var);
    s.append("_");
    s.append(metric);
    s
}

fn make_metric_line(var: &str, series: &str, metric: &str, op: &str, cast: &str) -> (r: String)
    ensures
        r@ == metric_line(var@, series@, metric@, op@, cast@),
{
    let mut s = make_result_var(var, metric);
    s.append(" = ");
    s.append(var);
    s.append(" |> ");
    s.append(op);
    s.append(cast);
    s.append(" |> set(key: \"series\", value: \"");
    s.append(series);
    s.append("\") |> set(key: \"metric\", value: \"");
    s.append(metric);
    s.append("\")");
    s
}

fn make_base_line(var: &str, base: &str) -> (r: String)
    ensures
        r@ == base_line(var@, base@),
{
    let mut s = owned(var);
    s.append(" = ");
    s.append(base);
    s
}

fn make_union_line(inputs: &Vec<String>) -> (r: String)
    ensures
        r@ == union_line(strings_view(inputs@)),
{
    let mut s = String::from_str("union(tables: [");
    let joined = join_strings(inputs, ", ");
    s.append(joined.as_str());
    s.append("])");
    s
}

/// One Flux script that computes, for every (variable, label, base query) triple, the
/// sample count, first, last, minimum, maximum and latest value, tagged with `series`
/// and `metric`, and unions them into a single result.
pub fn batch_summary_union_flux(base_vars: &[(String, String, String)]) -> (r: String)
    ensures
        r@ == summary_script(base_vars@.map_values(|t: (String, String, String)| summary_spec_view(t))),
{
    let ghost vars = base_vars@.map_values(|t: (String, String, String)| summary_spec_view(t));
    let mut script_parts: Vec<String> = Vec::new();
    let mut union_inputs: Vec<String> = Vec::new();
    let mut i: usize = 0;
    while i < base_vars.len()
        invariant
            i <= base_vars.len(),
            vars == base_vars@.map_values(|t: (String, String, String)| summary_spec_view(t)),
            strings_view(script_parts@) == summary_parts(vars.take(i as int)),
            strings_view(union_inputs@) == summary_union_inputs(vars.take(i as int)),
        decreases base_vars.len() - i,
    {
        let (var, label, base) = &base_vars[i];
        let var = var.as_str();
        let label = label.as_str();
        let ghost p0 = strings_view(script_parts@);
        let ghost u0 = strings_view(union_inputs@);
        script_parts.push(make_base_line(var, base.as_str()));
        script_parts.push(make_metric_line(var, label, "count", "count(column: \"_value\")", " |> map(fn: (r) => ({ r with _value: float(v: r._value) }))"));
        script_parts.push(make_metric_line(var, label, "start", "first()", ""));
        script_parts.push(make_metric_line(var, label, "end", "last()", ""));
        script_parts.push(make_metric_line(var, label, "min", "min()", ""));
        script_parts.push(make_metric_line(var, label, "max", "max()", ""));
        script_parts.push(make_metric_line(var, label, "latest", "last()", ""));
        union_inputs.push(make_result_var(var, "count"));
        union_inputs.push(make_result_var(var, "start"));
        union_inputs.push(make_result_var(var, "end"));
        union_inputs.push(make_result_var(var, "min"));
        union_inputs.push(make_result_var(var, "max"));
        union_inputs.push(make_result_var(var, "latest"));
        proof {
            reveal_strlit("");
            assert(vars.take(i + 1).drop_last() =~= vars.take(i as int));
            assert(vars.take(i + 1).last() == vars[i as int]);
            assert(summary_metrics()[0] == ("count"@, "count(column: \"_value\")"@, true));
            assert(strings_view(script_parts@) =~= summary_parts(vars.take(i + 1)));
            assert(strings_view(union_inputs@) =~= summary_union_inputs(vars.take(i + 1)));
        }
        i = i + 1;
    }
    assert(vars.take(base_vars.len() as int) =~= vars);
    let ghost p0 = strings_view(script_parts@);
    script_parts.push(make_union_line(&union_inputs));
    assert(strings_view(script_parts@) =~= p0.push(union_line(summary_union_inputs(vars))));
    join_strings(&script_parts, "\n\n")
}

pub type SelectorSpecView = (Seq<char>, Seq<char>, Seq<char>, Seq<char>, Seq<char>);

pub open spec fn selector_spec_view(t: (String, String, String, String, String)) -> SelectorSpecView {
    (t.0@, t.1@, t.2@, t.3@, t.4@)
}

/// Script lines for selector specs (variable, series, metric, base query, selector): the
/// base assignment, then the selected metric.
pub open spec fn selector_parts(specs: Seq<SelectorSpecView>) -> Seq<Seq<char>>
    decreases specs.len(),
{
    if specs.len() == 0 {
        Seq::empty()
    } else {
        let (var, series, metric, base, op) = specs.last();
        selector_parts(specs.drop_last()) + seq![
            base_line(var, base),
            metric_line(var, series, metric, op, Seq::empty()),
        ]
    }
}

pub open spec fn selector_union_inputs(specs: Seq<SelectorSpecView>) -> Seq<Seq<char>>
    decreases specs.len(),
{
    if specs.len() == 0 {
        Seq::empty()
    } else {
        let (var, series, metric, base, op) = specs.last();
        selector_union_inputs(specs.drop_last()).push(result_var(var, metric))
    }
}

/// The batched selector script, or empty text for no specs.
pub open spec fn selector_script(specs: Seq<SelectorSpecView>) -> Seq<char> {
    if specs.len() == 0 {
        Seq::empty()
    } else {
        join(selector_parts(specs).push(union_line(selector_union_inputs(specs))), "\n\n"@)
    }
}

/// One Flux script that runs one selector (such as `last()`) per spec over its base query,
/// tags each result with `series` and `metric`, and unions them.
pub fn batch_metric_selector_union_flux(specs: &[(String, String, String, String, String)]) -> (r: String)
    ensures
        r@ == selector_script(specs@.map_values(|t: (String, String, String, String, String)| selector_spec_view(t))),
{
    let ghost sv = specs@.map_values(|t: (String, String, String, String, String)| selector_spec_view(t));
    let mut script_parts: Vec<String> = Vec::new();
    let mut union_inputs: Vec<String> = Vec::new();
    let mut i: usize = 0;
    while i < specs.len()
        invariant
            i <= specs.len(),
            sv == specs@.map_values(|t: (String, String, String, String, String)| selector_spec_view(t)),
            strings_view(script_parts@) == selector_parts(sv.take(i as int)),
            strings_view(union_inputs@) == selector_union_inputs(sv.take(i as int)),
            union_inputs.len() == i,
        decreases specs.len() - i,
    {
        let (var, series, metric, base, op) = &specs[i];
        script_parts.push(make_base_line(var.as_str(), base.as_str()));
        script_parts.push(make_metric_line(var.as_str(), series.as_str(), metric.as_str(), op.as_str(), ""));
        union_inputs.push(make_result_var(var.as_str(), metric.as_str()));
        proof {
            reveal_strlit("");
            assert(sv.take(i + 1).drop_last() =~= sv.take(i as int));
            assert(sv.take(i + 1).last() == sv[i as int]);
            assert(strings_view(script_parts@) =~= selector_parts(sv.take(i + 1)));
            assert(strings_view(union_inputs@) =~= selector_union_inputs(sv.take(i + 1)));
        }
        i = i + 1;
    }
    assert(sv.take(specs.len() as int) =~= sv);
    if union_inputs.len() == 0 {
        return String::new();
    }
    let ghost p0 = strings_view(script_parts@);
    script_parts.push(make_union_line(&union_inputs));
    assert(strings_view(script_parts@) =~= p0.push(union_line(selector_union_inputs(sv))));
    join_strings(&script_parts, "\n\n")
}

/// The header that turns on Flux's query and operator profilers.
pub open spec fn profiler_header() -> Seq<char> {
    "import \"profiler\"\noption profiler.enabledProfilers = [\"query\", \"operator\"]\n\n"@
}

/// The script with the profilers switched on.
pub fn profiled_flux(flux: &str) -> (r: String)
    ensures
        r@ == profiler_header() + flux@,
{
    let mut s = String::from_str("import \"profiler\"\noption profiler.enabledProfilers = [\"query\", \"operator\"]\n\n");
    s.append(flux);
    s
}

/// Selected values keyed by (series, metric); a later entry for a key replaces an earlier one.
pub type SelectorEntriesView = Seq<((Seq<char>, Seq<char>), Seq<char>)>;

pub open spec fn selector_lookup(entries: SelectorEntriesView, k: (Seq<char>, Seq<char>)) -> Option<Seq<char>>
    decreases entries.len(),
{
    if entries.len() == 0 {
        None
    } else if entries.last().0 == k {
        Some(entries.last().1)
    } else {
        selector_lookup(entries.drop_last(), k)
    }
}

/// A usable value cell: present, non-empty, and not a repeated header.
pub open spec fn usable_value(v: Option<Seq<char>>) -> bool {
    v is Some && v.unwrap().len() > 0 && v.unwrap() != "_value"@
}

/// Entries read from result rows that carry `series`, `metric` and a usable `_value`.
pub open spec fn selector_entries(rows: Seq<CellsView>) -> SelectorEntriesView
    decreases rows.len(),
{
    if rows.len() == 0 {
        Seq::empty()
    } else {
        let prev = selector_entries(rows.drop_last());
        let row = rows.last();
        let s = lookup(row, "series"@);
        let m = lookup(row, "metric"@);
        let v = lookup(row, "_value"@);
        if s is Some && m is Some && usable_value(v) {
            prev.push(((s.unwrap(), m.unwrap()), v.unwrap()))
        } else {
            prev
        }
    }
}

/// String values of a batched selector query, by series and metric.
#[derive(Debug, Clone)]
pub struct SelectorValues {
    pub entries: Vec<(String, String, String)>,
}

impl View for SelectorValues {
    type V = SelectorEntriesView;

    open spec fn view(&self) -> SelectorEntriesView {
        self.entries@.map_values(|e: (String, String, String)| ((e.0@, e.1@), e.2@))
    }
}

proof fn lemma_selector_lookup_take(entries: SelectorEntriesView, k: (Seq<char>, Seq<char>), i: int)
    requires
        0 <= i <= entries.len(),
        forall|j: int| i <= j < entries.len() ==> entries[j].0 != k,
    ensures
        selector_lookup(entries, k) == selector_lookup(entries.take(i), k),
    decreases entries.len() - i,
{
    if i < entries.len() {
        assert(entries.drop_last() =~= entries.take(entries.len() - 1));
        lemma_selector_lookup_take(entries.drop_last(), k, i);
        assert(entries.drop_last().take(i) =~= entries.take(i));
    } else {
        assert(entries.take(i) =~= entries);
    }
}

impl SelectorValues {
    /// The value selected for `series` and `metric`.
    pub fn get(&self, series: &str, metric: &str) -> (r: Option<&String>)
        ensures
            r is Some <==> selector_lookup(self@, (series@, metric@)) is Some,
            r matches Some(v) ==> v@ == selector_lookup(self@, (series@, metric@)).unwrap(),
    {
        let n = self.entries.len();
        let mut i: usize = n;
        while i > 0
            invariant
                n == self.entries.len(),
                i <= n,
                forall|j: int| i <= j < n ==> self@[j].0 != (series@, metric@),
            decreases i,
        {
            let e = &self.entries[i - 1];
            if str_eq(e.0.as_str(), series) && str_eq(e.1.as_str(), metric) {
                proof {
                    lemma_selector_lookup_take(self@, (series@, metric@), i as int);
                    assert(self@.take(i as int).last() == self@[i - 1]);
                }
                return Some(&e.2);
            }
            i = i - 1;
        }
        proof {
            lemma_selector_lookup_take(self@, (series@, metric@), 0);
        }
        None
    }
}

/// Reads the string values of a batched selector query: rows with `series`, `metric` and a
/// non-empty `_value` that is not the header repeated.
pub fn string_values_from_batch_rows(rows: Vec<FluxRow>) -> (r: SelectorValues)
    ensures
        r@ == selector_entries(rows@.map_values(|row: FluxRow| row@)),
{
    let ghost cells = rows@.map_values(|row: FluxRow| row@);
    let mut out = SelectorValues { entries: Vec::new() };
    assert(out@ =~= selector_entries(cells.take(0)));
    let mut i: usize = 0;
    while i < rows.len()
        invariant
            i <= rows.len(),
            cells == rows@.map_values(|row: FluxRow| row@),
            out@ == selector_entries(cells.take(i as int)),
        decreases rows.len() - i,
    {
        let row = &rows[i];
        proof {
            assert(cells.take(i + 1).drop_last() =~= cells.take(i as int));
            assert(cells.take(i + 1).last() == row@);
        }
        let series = row.get("series");
        let metric = row.get("metric");
        let value = row.get("_value");
        if series.is_some() && metric.is_some() && value.is_some() {
            let v = value.unwrap();
            if v.as_str().unicode_len() > 0 && !str_eq(v.as_str(), "_value") {
                let ghost old_view = out@;
                out.entries.push((series.unwrap().clone(), metric.unwrap().clone(), v.clone()));
                assert(out@ =~= old_view.push(((series.unwrap()@, metric.unwrap()@), v@)));
            }
        }
        i = i + 1;
    }
    assert(cells.take(rows.len() as int) =~= cells);
    out
}

} // verus!
