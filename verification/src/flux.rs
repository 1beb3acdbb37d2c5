//! InfluxDB's annotated CSV: records in, data rows keyed by column name out.
use vstd::prelude::*;
use vstd::string::StringSliceAdditionalSpecFns;

use crate::error::ThermalError;

verus! {

/// Cells of one row: (column name, value), in column order.
pub type CellsView = Seq<(Seq<char>, Seq<char>)>;

/// Value of column `k`: the last cell named `k` wins, as when inserting into a map.
pub open spec fn lookup(cells: CellsView, k: Seq<char>) -> Option<Seq<char>>
    decreases cells.len(),
{
    if cells.len() == 0 {
        None
    } else if cells.last().0 == k {
        Some(cells.last().1)
    } else {
        lookup(cells.drop_last(), k)
    }
}

/// One data row of a Flux response.
#[derive(Debug, Clone)]
pub struct FluxRow {
    pub cells: Vec<(String, String)>,
}

pub open spec fn cell_view(c: (String, String)) -> (Seq<char>, Seq<char>) {
    (c.0@, c.1@)
}

impl View for FluxRow {
    type V = CellsView;

    open spec fn view(&self) -> CellsView {
        self.cells@.map_values(|c: (String, String)| cell_view(c))
    }
}

proof fn lemma_lookup_take(cells: CellsView, k: Seq<char>, i: int)
    requires
        0 <= i <= cells.len(),
        forall|j: int| i <= j < cells.len() ==> cells[j].0 != k,
    ensures
        lookup(cells, k) == lookup(cells.take(i), k),
    decreases cells.len() - i,
{
    if i < cells.len() {
        assert(cells.drop_last() =~= cells.take(cells.len() - 1));
        lemma_lookup_take(cells.drop_last(), k, i);
        assert(cells.drop_last().take(i) =~= cells.take(i));
    } else {
        assert(cells.take(i) =~= cells);
    }
}

impl FluxRow {
    /// An empty row.
    pub fn new() -> (r: FluxRow)
        ensures
            r@ == Seq::<(Seq<char>, Seq<char>)>::empty(),
    {
        let r = FluxRow { cells: Vec::new() };
        assert(r@ =~= Seq::<(Seq<char>, Seq<char>)>::empty());
        r
    }

    /// Sets column `key` to `value`.
    pub fn insert(&mut self, key: String, value: String)
        ensures
            final(self)@ == old(self)@.push((key@, value@)),
    {
        self.cells.push((key, value));
        assert(self@ =~= old(self)@.push((key@, value@)));
    }

    /// The value of column `key`.
    pub fn get(&self, key: &str) -> (r: Option<&String>)
        ensures
            r is Some <==> lookup(self@, key@) is Some,
            r matches Some(v) ==> v@ == lookup(self@, key@).unwrap(),
    {
        let n = self.cells.len();
        let mut i: usize = n;
        while i > 0
            invariant
                n == self.cells.len(),
                i <= n,
                forall|j: int| i <= j < n ==> self@[j].0 != key@,
            decreases i,
        {
            let cell = &self.cells[i - 1];
            if crate::text::str_eq(cell.0.as_str(), key) {
                proof {
                    lemma_lookup_take(self@, key@, i as int);
                    assert(self@.take(i as int).last() == self@[i - 1]);
                }
                return Some(&cell.1);
            }
            i = i - 1;
        }
        proof {
            lemma_lookup_take(self@, key@, 0);
        }
        None
    }

    /// Whether column `key` is present.
    pub fn contains_key(&self, key: &str) -> (r: bool)
        ensures
            r == (lookup(self@, key@) is Some),
    {
        self.get(key).is_some()
    }

    /// Whether the row has no columns.
    pub fn is_empty(&self) -> (r: bool)
        ensures
            r == (self@.len() == 0),
    {
        self.cells.len() == 0
    }
}

/// A record split into fields, as text.
pub open spec fn record_view(r: Vec<String>) -> Seq<Seq<char>> {
    r@.map_values(|s: String| s@)
}

pub open spec fn records_view(v: Seq<Vec<String>>) -> Seq<Seq<Seq<char>>> {
    v.map_values(|r: Vec<String>| record_view(r))
}

/// The records the `csv` crate reads from the bytes (no header row, records of any
/// length), or `None` where it reports an error.
pub uninterp spec fn csv_records_of(bytes: Seq<u8>) -> Option<Seq<Seq<Seq<char>>>>;

/// Calls `csv::ReaderBuilder` (no header row, flexible record lengths) on the bytes and
/// collects its records as strings, stopping at the first error. Claimed: success and the
/// records are the named result of the bytes.
#[verifier::external_body]
fn csv_records(bytes: &[u8]) -> (r: Result<Vec<Vec<String>>, csv::Error>)
    ensures
        r is Ok <==> csv_records_of(bytes@) is Some,
        r matches Ok(v) ==> csv_records_of(bytes@) == Some(records_view(v@)),
{
    let mut reader = csv::ReaderBuilder::new().has_headers(false).flexible(true).from_reader(bytes);
    let mut out = Vec::new();
    for rec in reader.records() {
        let rec = rec?;
        out.push(rec.iter().map(|f| f.to_string()).collect());
    }
    Ok(out)
}

/// The cells of a data record under `headers`, for its first `n` fields: a field gets the
/// header in its position, fields past the headers and fields under an empty header are
/// dropped.
pub open spec fn row_cells(rec: Seq<Seq<char>>, headers: Seq<Seq<char>>, n: int) -> CellsView
    decreases n,
{
    if n <= 0 {
        Seq::empty()
    } else {
        let prev = row_cells(rec, headers, n - 1);
        if n - 1 < headers.len() && headers[n - 1].len() > 0 {
            prev.push((headers[n - 1], rec[n - 1]))
        } else {
            prev
        }
    }
}

/// State after reading some records of one table: its header row once seen, whether the
/// last non-empty record was an annotation (`#...`), and the data rows.
pub open spec fn parse_state(recs: Seq<Seq<Seq<char>>>) -> (Option<Seq<Seq<char>>>, bool, Seq<CellsView>)
    decreases recs.len(),
{
    if recs.len() == 0 {
        (None, false, Seq::empty())
    } else {
        let (headers, annotated, rows) = parse_state(recs.drop_last());
        let rec = recs.last();
        if rec.len() == 0 {
            (headers, annotated, rows)
        } else if crate::text::starts_with(rec[0], "#"@) {
            (headers, true, rows)
        } else if headers is None || annotated {
            (Some(rec), false, rows)
        } else if rec == headers.unwrap() {
            (headers, annotated, rows)
        } else {
            let cells = row_cells(rec, headers.unwrap(), rec.len() as int);
            if cells.len() > 0 {
                (headers, annotated, rows.push(cells))
            } else {
                (headers, annotated, rows)
            }
        }
    }
}

/// Data rows of one table of annotated CSV: annotation records (`#...`) and empty records
/// are skipped; the first other record, and the first other record after annotations, is
/// the header; repeats of the header are skipped; each other record becomes a row of its
/// non-empty-headed fields (rows with none are dropped).
pub open spec fn annotated_rows(recs: Seq<Seq<Seq<char>>>) -> Seq<CellsView> {
    parse_state(recs).2
}

/// Whether the byte at `i` is a line feed that ends an empty line.
pub open spec fn ends_blank_line(b: Seq<u8>, i: int) -> bool {
    &&& b[i] == 10u8
    &&& ((i >= 1 && b[i - 1] == 10u8) || (i >= 2 && b[i - 1] == 13u8 && b[i - 2] == 10u8))
}

/// Splitting state after the first `n` bytes: the finished tables, where the current one
/// starts, and whether an odd number of double quotes has been seen (inside a quoted field).
pub open spec fn split_state(b: Seq<u8>, n: int) -> (Seq<Seq<u8>>, int, bool)
    decreases n,
{
    if n <= 0 {
        (Seq::empty(), 0, false)
    } else {
        let (done, start, quoted) = split_state(b, n - 1);
        if b[n - 1] == 34u8 {
            (done, start, !quoted)
        } else if !quoted && ends_blank_line(b, n - 1) {
            (done.push(b.subrange(start, n)), n, quoted)
        } else {
            (done, start, quoted)
        }
    }
}

/// The tables of a response: the text cut after each empty line that stands outside
/// quotes. Each piece keeps its line ends, so the pieces put together give the text.
pub open spec fn table_texts(b: Seq<u8>) -> Seq<Seq<u8>> {
    let (done, start, _) = split_state(b, b.len() as int);
    done.push(b.subrange(start, b.len() as int))
}

/// The data rows of the tables, in order, each table read with a header of its own; `None`
/// where the `csv` crate refuses a table.
pub open spec fn tables_rows(tables: Seq<Seq<u8>>) -> Option<Seq<CellsView>>
    decreases tables.len(),
{
    if tables.len() == 0 {
        Some(Seq::empty())
    } else {
        match (tables_rows(tables.drop_last()), csv_records_of(tables.last())) {
            (Some(rows), Some(recs)) => Some(rows + annotated_rows(recs)),
            _ => None,
        }
    }
}

pub open spec fn rows_view(rows: Seq<FluxRow>) -> Seq<CellsView> {
    rows.map_values(|r: FluxRow| r@)
}

fn strings_equal(a: &Vec<String>, b: &Vec<String>) -> (r: bool)
    ensures
        r == (record_view(*a) == record_view(*b)),
{
    if a.len() != b.len() {
        return false;
    }
    let mut i: usize = 0;
    while i < a.len()
        invariant
            a.len() == b.len(),
            i <= a.len(),
            forall|j: int| 0 <= j < i ==> a@[j]@ == b@[j]@,
        decreases a.len() - i,
    {
        if a[i] != b[i] {
            assert(record_view(*a)[i as int] != record_view(*b)[i as int]);
            return false;
        }
        i = i + 1;
    }
    assert(record_view(*a) =~= record_view(*b));
    true
}

fn first_is_annotation(rec: &Vec<String>) -> (r: bool)
    requires
        rec.len() > 0,
    ensures
        r == crate::text::starts_with(rec@[0]@, "#"@),
{
    let r = crate::text::strip_prefix(rec[0].as_str(), "#").is_some();
    r
}

fn build_row(rec: &Vec<String>, headers: &Vec<String>) -> (row: FluxRow)
    ensures
        row@ == row_cells(record_view(*rec), record_view(*headers), rec.len() as int),
{
    let mut row = FluxRow::new();
    let mut i: usize = 0;
    while i < rec.len()
        invariant
            i <= rec.len(),
            row@ == row_cells(record_view(*rec), record_view(*headers), i as int),
        decreases rec.len() - i,
    {
        if i < headers.len() && headers[i].as_str().unicode_len() > 0 {
            row.insert(headers[i].clone(), rec[i].clone());
        }
        i = i + 1;
    }
    row
}

/// Appends the data rows of one table's records.
fn append_table_rows(records: &Vec<Vec<String>>, rows: &mut Vec<FluxRow>)
    ensures
        rows_view(final(rows)@) == rows_view(old(rows)@) + annotated_rows(records_view(records@)),
{
    let ghost recs = records_view(records@);
    let ghost start = rows_view(rows@);
    let mut headers: Option<Vec<String>> = None;
    let mut annotated = false;
    let mut i: usize = 0;
    assert(rows_view(rows@) =~= start + parse_state(recs.take(0)).2);
    while i < records.len()
        invariant
            i <= records.len(),
            recs == records_view(records@),
            parse_state(recs.take(i as int)).0 == (match headers {
                Some(h) => Some(record_view(h)),
                None => None,
            }),
            parse_state(recs.take(i as int)).1 == annotated,
            rows_view(rows@) == start + parse_state(recs.take(i as int)).2,
        decreases records.len() - i,
    {
        let rec = &records[i];
        proof {
            assert(recs.take(i + 1).drop_last() =~= recs.take(i as int));
            assert(recs.take(i + 1).last() == record_view(*rec));
        }
        if rec.len() == 0 {
        } else if first_is_annotation(rec) {
            annotated = true;
        } else if headers.is_none() || annotated {
            headers = Some(rec.clone());
            annotated = false;
        } else {
            match &headers {
                None => {},
                Some(h) => {
                    if strings_equal(rec, h) {
                    } else {
                        let row = build_row(rec, h);
                        if !row.is_empty() {
                            let ghost old_rows = rows@;
                            rows.push(row);
                            assert(rows_view(rows@) =~= rows_view(old_rows).push(row@));
                            assert(start + parse_state(recs.take(i + 1)).2 =~= (start
                                + parse_state(recs.take(i as int)).2).push(row@));
                        }
                    }
                },
            }
        }
        i = i + 1;
    }
    assert(recs.take(records.len() as int) =~= recs);
}

/// Parses an InfluxDB annotated CSV response into data rows. The tables of a response
/// stand apart, after an empty line, and each brings its own header row.
pub fn parse_influx_annotated_csv(csv_text: &str) -> (r: Result<Vec<FluxRow>, ThermalError>)
    ensures
        r is Ok <==> tables_rows(table_texts(csv_text.spec_bytes())) is Some,
        r matches Ok(rows) ==> Some(rows_view(rows@)) == tables_rows(table_texts(csv_text.spec_bytes())),
        r matches Err(e) ==> e is CsvParse,
{
    let bytes = csv_text.as_bytes();
    let ghost b = bytes@;
    let mut rows: Vec<FluxRow> = Vec::new();
    let mut failure: Option<csv::Error> = None;
    let ghost mut done: Seq<Seq<u8>> = Seq::empty();
    let mut start: usize = 0;
    let mut quoted = false;
    let mut i: usize = 0;
    assert(rows_view(rows@) =~= Seq::<CellsView>::empty());
    while i < bytes.len()
        invariant
            b == bytes@,
            i <= bytes.len(),
            start <= i,
            split_state(b, i as int) == (done, start as int, quoted),
            failure is Some <==> tables_rows(done) is None,
            failure is None ==> tables_rows(done) == Some(rows_view(rows@)),
        decreases bytes.len() - i,
    {
        let c = bytes[i];
        if c == 34u8 {
            quoted = !quoted;
        } else if !quoted && c == 10u8 && ((i >= 1 && bytes[i - 1] == 10u8) || (i >= 2 && bytes[i - 1]
            == 13u8 && bytes[i - 2] == 10u8)) {
            let piece = vstd::slice::slice_subrange(bytes, start, i + 1);
            proof {
                done = done.push(piece@);
                assert(done.drop_last() == split_state(b, i as int).0);
            }
            if failure.is_none() {
                match csv_records(piece) {
                    Ok(records) => {
                        append_table_rows(&records, &mut rows);
                    },
                    Err(e) => {
                        failure = Some(e);
                    },
                }
            }
            start = i + 1;
        }
        i = i + 1;
    }
    let piece = vstd::slice::slice_subrange(bytes, start, bytes.len());
    let ghost tables = done.push(piece@);
    assert(tables =~= table_texts(b));
    assert(tables.drop_last() == done);
    if failure.is_none() {
        match csv_records(piece) {
            Ok(records) => {
                append_table_rows(&records, &mut rows);
            },
            Err(e) => {
                failure = Some(e);
            },
        }
    }
    match failure {
        Some(e) => Err(ThermalError::CsvParse(e)),
        None => Ok(rows),
    }
}

proof fn lemma_row_cells_named(rec: Seq<Seq<char>>, headers: Seq<Seq<char>>, n: int)
    ensures
        forall|j: int| 0 <= j < row_cells(rec, headers, n).len() ==> (#[trigger] row_cells(rec, headers, n)[j]).0.len() > 0,
    decreases n,
{
    if n > 0 {
        lemma_row_cells_named(rec, headers, n - 1);
        let prev = row_cells(rec, headers, n - 1);
        let cur = row_cells(rec, headers, n);
        assert forall|j: int| 0 <= j < cur.len() implies (#[trigger] cur[j]).0.len() > 0 by {
            if j < prev.len() {
                assert(cur[j] == prev[j]);
            }
        }
    }
}

pub open spec fn rows_named(rows: Seq<CellsView>) -> bool {
    &&& forall|i: int| 0 <= i < rows.len() ==> (#[trigger] rows[i]).len() > 0
    &&& forall|i: int, j: int| 0 <= i < rows.len() && 0 <= j < rows[i].len() ==> (#[trigger] rows[i][j]).0.len() > 0
}

proof fn lemma_table_rows_named(recs: Seq<Seq<Seq<char>>>)
    ensures
        rows_named(annotated_rows(recs)),
    decreases recs.len(),
{
    if recs.len() > 0 {
        lemma_table_rows_named(recs.drop_last());
        let (headers, annotated, rows) = parse_state(recs.drop_last());
        let rec = recs.last();
        if rec.len() > 0 && headers is Some {
            lemma_row_cells_named(rec, headers.unwrap(), rec.len() as int);
        }
        let cur = annotated_rows(recs);
        let prev = annotated_rows(recs.drop_last());
        assert(prev == rows);
        assert forall|i: int| 0 <= i < cur.len() implies (#[trigger] cur[i]).len() > 0 by {
            if i < prev.len() {
                assert(cur[i] == prev[i]);
            }
        }
        assert forall|i: int, j: int| 0 <= i < cur.len() && 0 <= j < cur[i].len() implies (#[trigger] cur[i][j]).0.len() > 0 by {
            if i < prev.len() {
                assert(cur[i] == prev[i]);
                assert(prev[i][j].0.len() > 0);
            }
        }
    }
}

/// Every data row read from annotated CSV has at least one column, and no column has an
/// empty name.
pub proof fn lemma_annotated_rows_named(tables: Seq<Seq<u8>>)
    ensures
        tables_rows(tables) matches Some(rows) ==> rows_named(rows),
    decreases tables.len(),
{
    if tables.len() > 0 {
        lemma_annotated_rows_named(tables.drop_last());
        if let (Some(rows), Some(recs)) = (tables_rows(tables.drop_last()), csv_records_of(tables.last())) {
            lemma_table_rows_named(recs);
            let a = annotated_rows(recs);
            let all = rows + a;
            assert forall|i: int| 0 <= i < all.len() implies (#[trigger] all[i]).len() > 0 by {
                if i < rows.len() {
                    assert(all[i] == rows[i]);
                } else {
                    assert(all[i] == a[i - rows.len()]);
                }
            }
            assert forall|i: int, j: int| 0 <= i < all.len() && 0 <= j < all[i].len() implies (#[trigger] all[i][j]).0.len() > 0 by {
                if i < rows.len() {
                    assert(all[i] == rows[i]);
                    assert(rows[i][j].0.len() > 0);
                } else {
                    assert(all[i] == a[i - rows.len()]);
                    assert(a[i - rows.len()][j].0.len() > 0);
                }
            }
        }
    }
}

/// Each table is read on its own: the rows of a run of tables are the rows of its first
/// part followed by those of the rest, and it is refused exactly where a part is.
pub proof fn lemma_tables_read_apart(first: Seq<Seq<u8>>, rest: Seq<Seq<u8>>)
    ensures
        tables_rows(first + rest) == (match (tables_rows(first), tables_rows(rest)) {
            (Some(x), Some(y)) => Some(x + y),
            _ => None,
        }),
    decreases rest.len(),
{
    if rest.len() == 0 {
        assert(first + rest =~= first);
        if let Some(x) = tables_rows(first) {
            assert(x + Seq::<CellsView>::empty() =~= x);
        }
    } else {
        lemma_tables_read_apart(first, rest.drop_last());
        assert((first + rest).drop_last() =~= first + rest.drop_last());
        assert((first + rest).last() == rest.last());
        if let (Some(x), Some(y), Some(recs)) = (tables_rows(first), tables_rows(rest.drop_last()), csv_records_of(rest.last())) {
            assert(x + y + annotated_rows(recs) =~= x + (y + annotated_rows(recs)));
        }
    }
}

} // verus!
