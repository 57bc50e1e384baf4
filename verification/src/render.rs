//! Numbers, amounts and tables as text.
use crate::binary64::LEAST_MANTISSA;
use crate::decimals::{
    amounts_are_written_exactly, format_two_decimals, ratio, ratio_of, two_decimals,
};
use crate::ids::instant_key;
use crate::records::SourceLocation;
use crate::report::{
    SubscriptionReportRow, SummaryReportRow, UsageReport, UsageReportRow, abbreviate_home,
    shortened,
};
use crate::sorted::{sort_texts, sorted_texts};
use crate::sources::{
    ScanDiagnostics, ScanTotals, location_origin_label, origin_text, preview_label,
    preview_path_label,
};
use crate::subscriptions::{status_name, subscription_status_label};
use crate::text::{
    ascii_lowercase, chars_of, concat2, concat3, decimal, decimal_text, digit_ascii, join, joined,
    lemma_decimal, lowered, opt_str, same_text, slice_string, texts,
};
use crate::time::{opt_wf, zero_padded};
use crate::usage::UsageTotals;
use vstd::prelude::*;

verus! {

// ---------------------------------------------------------------------------
// Numbers and amounts
// ---------------------------------------------------------------------------

/// Digits with a comma before each three of them, counted from the end.
pub open spec fn grouped(s: Seq<char>) -> Seq<char>
    decreases s.len(),
{
    if s.len() <= 3 {
        s
    } else {
        grouped(s.take(s.len() - 3)) + seq![','] + s.skip(s.len() - 3)
    }
}

pub open spec fn count_text(n: u64) -> Seq<char> {
    grouped(decimal(n as nat))
}

fn group_upto(cs: &[char], n: usize) -> (r: String)
    requires
        n <= cs.len(),
    ensures
        r@ == grouped(cs@.take(n as int)),
    decreases n,
{
    if n <= 3 {
        let r = slice_string(cs, 0, n);
        proof {
            assert(cs@.subrange(0, n as int) =~= cs@.take(n as int));
        }
        return r;
    }
    let mut r = group_upto(cs, n - 3);
    r.push(',');
    let last = slice_string(cs, n - 3, n);
    r.append(last.as_str());
    proof {
        let s = cs@.take(n as int);
        assert(s.take(n - 3) =~= cs@.take(n - 3));
        assert(s.skip(n - 3) =~= cs@.subrange(n - 3, n as int));
    }
    r
}

/// A count with its digits in groups of three.
pub fn format_u64(value: u64) -> (r: String)
    ensures
        r@ == count_text(value),
{
    let d = decimal_text(value);
    let cs = chars_of(d.as_str());
    proof {
        assert(cs@.take(cs@.len() as int) =~= d@);
    }
    group_upto(&cs, cs.len())
}

proof fn lemma_grouped(s: Seq<char>)
    requires
        !s.contains(','),
    ensures
        grouped(s).filter(|c: char| c != ',') == s,
    decreases s.len(),
{
    let keep = |c: char| c != ',';
    if s.len() <= 3 {
        lemma_keeps_all(s);
    } else {
        let a = s.take(s.len() - 3);
        let b = s.skip(s.len() - 3);
        assert forall|k: int| 0 <= k < a.len() implies a[k] != ',' by {
            assert(s.contains(s[k]));
        }
        assert forall|k: int| 0 <= k < b.len() implies b[k] != ',' by {
            assert(s.contains(s[k + s.len() - 3]));
        }
        lemma_grouped(a);
        lemma_keeps_all(b);
        let g = grouped(a);
        Seq::filter_distributes_over_add(g + seq![','], b, keep);
        Seq::filter_distributes_over_add(g, seq![','], keep);
        lemma_drops_comma();
        assert(a + Seq::empty() =~= a);
        assert(a + b =~= s);
    }
}

proof fn lemma_drops_comma()
    ensures
        seq![','].filter(|c: char| c != ',') == Seq::<char>::empty(),
{
    reveal(Seq::filter);
    let s = seq![','];
    assert(s.drop_last() =~= Seq::empty());
    assert(s.drop_last().filter(|c: char| c != ',') =~= Seq::empty());
}

proof fn lemma_keeps_all(s: Seq<char>)
    requires
        forall|k: int| 0 <= k < s.len() ==> s[k] != ',',
    ensures
        s.filter(|c: char| c != ',') == s,
    decreases s.len(),
{
    reveal(Seq::filter);
    if s.len() > 0 {
        lemma_keeps_all(s.drop_last());
        assert(s.drop_last().push(s.last()) =~= s);
    }
}

/// Without its commas a count is its decimal digits.
pub proof fn grouping_only_adds_commas(n: u64)
    ensures
        count_text(n).filter(|c: char| c != ',') == decimal(n as nat),
{
    lemma_decimal(n as nat);
    let d = decimal(n as nat);
    assert forall|k: int| 0 <= k < d.len() implies d[k] != ',' by {
        assert(digit_ascii(d[k]));
    }
    lemma_grouped(d);
}

pub open spec fn absolute(n: int) -> int {
    if n < 0 {
        -n
    } else {
        n
    }
}

fn magnitude(n: i64) -> (r: u64)
    ensures
        r == absolute(n as int),
        r <= 0x8000_0000_0000_0000,
{
    if n < 0 {
        (-(n as i128)) as u64
    } else {
        n as u64
    }
}

/// Hundredths as an amount of whole units with two decimals. The amount is
/// rounded to 53 binary digits first.
pub open spec fn amount_text(cents: int) -> Seq<char> {
    (if cents < 0 {
        "-"@
    } else {
        Seq::empty()
    }) + two_decimals(ratio_of(absolute(cents), 100))
}

fn format_amount(cents: i64) -> (r: String)
    ensures
        r@ == amount_text(cents as int),
{
    let text = format_two_decimals(ratio(magnitude(cents), 100));
    if cents < 0 {
        concat2("-", text.as_str())
    } else {
        proof {
            assert(Seq::empty() + text@ =~= text@);
        }
        text
    }
}

/// An amount of fewer than 2^52 hundredths is shown to the hundredth.
pub proof fn amounts_are_shown_to_the_hundredth(cents: int)
    requires
        absolute(cents) < LEAST_MANTISSA,
    ensures
        amount_text(cents) == (if cents < 0 {
            "-"@
        } else {
            Seq::empty()
        }) + decimal((absolute(cents) / 100) as nat) + "."@ + zero_padded(
            (absolute(cents) % 100) as nat,
            2,
        ),
{
    amounts_are_written_exactly(absolute(cents));
    let sign = if cents < 0 {
        "-"@
    } else {
        Seq::empty()
    };
    let a = decimal((absolute(cents) / 100) as nat);
    let b = zero_padded((absolute(cents) % 100) as nat, 2);
    assert(sign + (a + "."@ + b) =~= sign + a + "."@ + b);
}

/// The ratio of a value to a price with two decimals. Without a price there is
/// none, or one without bounds.
pub open spec fn ratio_text(pair: Option<(i64, i64)>) -> Seq<char> {
    match pair {
        None => "unknown"@,
        Some((value, price)) => if price == 0 {
            if value == 0 {
                "NaNx"@
            } else if value < 0 {
                "-infx"@
            } else {
                "infx"@
            }
        } else {
            (if (value < 0) != (price < 0) {
                "-"@
            } else {
                ""@
            }) + two_decimals(ratio_of(absolute(value as int), absolute(price as int))) + "x"@
        },
    }
}

pub fn format_ratio(value: Option<(i64, i64)>) -> (r: String)
    ensures
        r@ == ratio_text(value),
{
    match value {
        None => "unknown".to_owned(),
        Some((value, price)) => {
            if price == 0 {
                if value == 0 {
                    return "NaNx".to_owned();
                }
                if value < 0 {
                    return "-infx".to_owned();
                }
                return "infx".to_owned();
            }
            let text = format_two_decimals(ratio(magnitude(value), magnitude(price)));
            let sign = if (value < 0) != (price < 0) {
                "-"
            } else {
                ""
            };
            concat3(sign, text.as_str(), "x")
        },
    }
}

pub open spec fn cost_text(cost: Option<i64>) -> Seq<char> {
    match cost {
        Some(cents) => "$"@ + amount_text(cents as int),
        None => "unknown"@,
    }
}

/// A cost in cents as dollars.
pub fn format_cost(cost: Option<i64>) -> (r: String)
    ensures
        r@ == cost_text(cost),
{
    match cost {
        Some(cents) => {
            let a = format_amount(cents);
            concat2("$", a.as_str())
        },
        None => "unknown".to_owned(),
    }
}

pub open spec fn price_text(price: i64, currency: Seq<char>) -> Seq<char> {
    if lowered(currency) == "usd"@ {
        "$"@ + amount_text(price as int)
    } else {
        amount_text(price as int) + " "@ + currency
    }
}

pub fn format_subscription_price(price_cents: i64, currency: &str) -> (r: String)
    ensures
        r@ == price_text(price_cents, currency@),
{
    let amount = format_amount(price_cents);
    let c = ascii_lowercase(currency);
    if same_text(c.as_str(), "usd") {
        concat2("$", amount.as_str())
    } else {
        concat3(amount.as_str(), " ", currency)
    }
}

/// A text that fits into the width: a longer one is cut and ends with an
/// ellipsis.
pub open spec fn cut_label(value: Seq<char>, width: int) -> Seq<char> {
    if value.len() <= width {
        value
    } else {
        value.take(if width > 0 {
            width - 1
        } else {
            0
        }) + seq!['…']
    }
}

pub fn truncate_label(value: &str, width: usize) -> (r: String)
    ensures
        r@ == cut_label(value@, width as int),
{
    let cs = chars_of(value);
    if cs.len() <= width {
        return value.to_owned();
    }
    let n: usize = if width > 0 {
        width - 1
    } else {
        0
    };
    let mut r = slice_string(&cs, 0, n);
    r.push('…');
    proof {
        assert(r@ =~= cut_label(value@, width as int));
    }
    r
}

/// A cut label is never wider than asked for.
pub proof fn a_cut_label_fits(value: Seq<char>, width: int)
    requires
        width > 0,
    ensures
        cut_label(value, width).len() <= width,
{
}

// ---------------------------------------------------------------------------
// Lines
// ---------------------------------------------------------------------------

/// A cell of a table: its text, its width, and on which side it stands.
#[derive(Debug, Clone, PartialEq, Eq)]
pub struct Cell {
    pub text: String,
    pub width: usize,
    pub left: bool,
}

pub open spec fn spaces(n: int) -> Seq<char> {
    if n > 0 {
        Seq::new(n as nat, |i: int| ' ')
    } else {
        Seq::empty()
    }
}

/// A text filled up with spaces behind it.
pub open spec fn left_text(s: Seq<char>, width: int) -> Seq<char> {
    s + spaces(width - s.len())
}

/// A text filled up with spaces in front of it.
pub open spec fn right_text(s: Seq<char>, width: int) -> Seq<char> {
    spaces(width - s.len()) + s
}

impl Cell {
    pub open spec fn shown(self) -> Seq<char> {
        if self.left {
            left_text(self.text@, self.width as int)
        } else {
            right_text(self.text@, self.width as int)
        }
    }
}

pub open spec fn shown_cells(cells: Seq<Cell>) -> Seq<Seq<char>> {
    cells.map_values(|c: Cell| c.shown())
}

fn blanks(n: usize) -> (r: String)
    ensures
        r@ == spaces(n as int),
{
    let mut r = String::new();
    let mut i: usize = 0;
    proof {
        assert(r@ =~= spaces(0));
    }
    while i < n
        invariant
            i <= n,
            r@ == spaces(i as int),
        decreases n - i,
    {
        r.push(' ');
        i = i + 1;
        proof {
            assert(r@ =~= spaces(i as int));
        }
    }
    r
}

fn pad_cell(c: &Cell) -> (r: String)
    ensures
        r@ == c.shown(),
{
    let have: usize = chars_of(c.text.as_str()).len();
    let fill = if have < c.width {
        blanks(c.width - have)
    } else {
        blanks(0)
    };
    if c.left {
        concat2(c.text.as_str(), fill.as_str())
    } else {
        concat2(fill.as_str(), c.text.as_str())
    }
}

/// One line of a table: the cells, with a space between them.
pub fn table_line(cells: &[Cell]) -> (r: String)
    ensures
        r@ == joined(shown_cells(cells@), " "@),
{
    let mut parts: Vec<String> = Vec::new();
    let mut i: usize = 0;
    while i < cells.len()
        invariant
            i <= cells.len(),
            parts.len() == i,
            forall|k: int| 0 <= k < i ==> (#[trigger] parts@[k])@ == cells@[k].shown(),
        decreases cells.len() - i,
    {
        parts.push(pad_cell(&cells[i]));
        i = i + 1;
    }
    proof {
        assert(texts(parts@) =~= shown_cells(cells@));
    }
    join(&parts, " ")
}

fn left_cell(text: &str, width: usize) -> (r: Cell)
    ensures
        r.shown() == left_text(text@, width as int),
{
    Cell { text: text.to_owned(), width, left: true }
}

fn right_cell(text: &str, width: usize) -> (r: Cell)
    ensures
        r.shown() == right_text(text@, width as int),
{
    Cell { text: text.to_owned(), width, left: false }
}

fn count_cell(n: u64, width: usize) -> (r: Cell)
    ensures
        r.shown() == right_text(count_text(n), width as int),
{
    Cell { text: format_u64(n), width, left: false }
}

fn cost_cell(cost: Option<i64>, width: usize) -> (r: Cell)
    ensures
        r.shown() == right_text(cost_text(cost), width as int),
{
    Cell { text: format_cost(cost), width, left: false }
}

fn push_cell(cells: &mut Vec<Cell>, cell: Cell)
    ensures
        shown_cells(final(cells)@) == shown_cells(old(cells)@).push(cell.shown()),
{
    cells.push(cell);
    proof {
        assert(shown_cells(cells@) =~= shown_cells(old(cells)@).push(cell.shown()));
    }
}

fn no_cells() -> (r: Vec<Cell>)
    ensures
        shown_cells(r@) == Seq::<Seq<char>>::empty(),
{
    let r: Vec<Cell> = Vec::new();
    proof {
        assert(shown_cells(r@) =~= Seq::empty());
    }
    r
}

pub fn push_line(lines: &mut Vec<String>, line: String)
    ensures
        texts(final(lines)@) == texts(old(lines)@).push(line@),
{
    lines.push(line);
    proof {
        assert(texts(lines@) =~= texts(old(lines)@).push(line@));
    }
}

pub fn no_lines() -> (r: Vec<String>)
    ensures
        texts(r@) == Seq::<Seq<char>>::empty(),
{
    let r: Vec<String> = Vec::new();
    proof {
        assert(texts(r@) =~= Seq::empty());
    }
    r
}

fn push_lines(lines: &mut Vec<String>, more: Vec<String>)
    ensures
        texts(final(lines)@) == texts(old(lines)@) + texts(more@),
{
    let ghost added = texts(more@);
    let mut more = more;
    lines.append(&mut more);
    proof {
        assert(texts(lines@) =~= texts(old(lines)@) + added);
    }
}

/// A head and named values after it.
pub open spec fn fields_text(head: Seq<char>, fields: Seq<(Seq<char>, Seq<char>)>) -> Seq<char>
    decreases fields.len(),
{
    if fields.len() == 0 {
        head
    } else {
        fields_text(head, fields.drop_last()) + " "@ + fields.last().0 + "="@ + fields.last().1
    }
}

proof fn lemma_field(head: Seq<char>, before: Seq<(Seq<char>, Seq<char>)>, name: Seq<char>, value: Seq<char>)
    ensures
        fields_text(head, before.push((name, value))) == fields_text(head, before) + " "@ + name
            + "="@ + value,
{
    assert(before.push((name, value)).drop_last() =~= before);
}

/// A line in the making: what it says, and the fields it has so far.
struct FieldLine {
    text: String,
    head: Ghost<Seq<char>>,
    fields: Ghost<Seq<(Seq<char>, Seq<char>)>>,
}

impl FieldLine {
    spec fn ok(self) -> bool {
        self.text@ == fields_text(self.head@, self.fields@)
    }

    fn start(head: &str) -> (r: FieldLine)
        ensures
            r.ok(),
            r.head@ == head@,
            r.fields@ == Seq::<(Seq<char>, Seq<char>)>::empty(),
    {
        FieldLine { text: head.to_owned(), head: Ghost(head@), fields: Ghost(Seq::empty()) }
    }

    fn field(&mut self, name: &str, value: &str)
        requires
            old(self).ok(),
        ensures
            final(self).ok(),
            final(self).head == old(self).head,
            final(self).fields@ == old(self).fields@.push((name@, value@)),
    {
        let a = concat3(self.text.as_str(), " ", name);
        let b = concat3(a.as_str(), "=", value);
        proof {
            lemma_field(self.head@, self.fields@, name@, value@);
        }
        self.text = b;
        self.fields = Ghost(self.fields@.push((name@, value@)));
    }

    fn count(&mut self, name: &str, n: u64)
        requires
            old(self).ok(),
        ensures
            final(self).ok(),
            final(self).head == old(self).head,
            final(self).fields@ == old(self).fields@.push((name@, count_text(n))),
    {
        let v = format_u64(n);
        self.field(name, v.as_str());
    }

    /// The tokens and the cost, under the given name.
    fn usage(&mut self, u: &UsageTotals, cost_name: &str)
        requires
            old(self).ok(),
        ensures
            final(self).ok(),
            final(self).head == old(self).head,
            final(self).fields@ == old(self).fields@ + usage_fields(*u, cost_name@),
    {
        self.count("input", u.input_tokens);
        self.count("cache_create", u.cache_creation_tokens);
        self.count("cache_read", u.cached_input_tokens);
        self.count("output", u.output_tokens);
        self.count("total", u.total_tokens);
        let cost = format_cost(u.estimated_cost_usd);
        self.field(cost_name, cost.as_str());
        proof {
            assert(self.fields@ =~= old(self).fields@ + usage_fields(*u, cost_name@));
        }
    }
}

pub open spec fn usage_fields(u: UsageTotals, cost_name: Seq<char>) -> Seq<(Seq<char>, Seq<char>)> {
    seq![
        ("input"@, count_text(u.input_tokens)),
        ("cache_create"@, count_text(u.cache_creation_tokens)),
        ("cache_read"@, count_text(u.cached_input_tokens)),
        ("output"@, count_text(u.output_tokens)),
        ("total"@, count_text(u.total_tokens)),
        (cost_name, cost_text(u.estimated_cost_usd)),
    ]
}

// ---------------------------------------------------------------------------
// Scans and imports
// ---------------------------------------------------------------------------

pub open spec fn diagnostics_fields(d: ScanDiagnostics) -> Seq<(Seq<char>, Seq<char>)> {
    seq![
        ("files"@, count_text(d.files_scanned)),
        ("cached"@, count_text(d.files_skipped_unchanged)),
        ("raw_rows"@, count_text(d.raw_rows)),
        ("candidates"@, count_text(d.candidate_usage_rows)),
        ("duplicates"@, count_text(d.duplicate_events)),
        ("skipped_zero"@, count_text(d.skipped_zero_events)),
        ("invalid"@, count_text(d.invalid_rows)),
        ("timestamp_fallbacks"@, count_text(d.timestamp_fallbacks)),
        ("model_fallbacks"@, count_text(d.model_fallbacks)),
    ]
}

/// What was found and skipped in all.
pub fn scan_diagnostics_line(diagnostics: &ScanDiagnostics) -> (r: String)
    ensures
        r@ == fields_text("diagnostics:"@, diagnostics_fields(*diagnostics)),
{
    let mut line = FieldLine::start("diagnostics:");
    line.count("files", diagnostics.files_scanned);
    line.count("cached", diagnostics.files_skipped_unchanged);
    line.count("raw_rows", diagnostics.raw_rows);
    line.count("candidates", diagnostics.candidate_usage_rows);
    line.count("duplicates", diagnostics.duplicate_events);
    line.count("skipped_zero", diagnostics.skipped_zero_events);
    line.count("invalid", diagnostics.invalid_rows);
    line.count("timestamp_fallbacks", diagnostics.timestamp_fallbacks);
    line.count("model_fallbacks", diagnostics.model_fallbacks);
    proof {
        assert(line.fields@ =~= diagnostics_fields(*diagnostics));
    }
    line.text
}

/// What one source's preview tells.
pub open spec fn preview_fields(
    source: SourceLocation,
    home: Option<Seq<char>>,
    events: u64,
    usage: UsageTotals,
    summaries: u64,
    summary_usage: UsageTotals,
) -> Seq<(Seq<char>, Seq<char>)> {
    seq![
        ("path"@, preview_label(source, home)),
        ("usage_events"@, decimal(events as nat)),
        ("summaries"@, decimal(summaries as nat)),
    ] + usage_fields(usage, "est_cost"@) + seq![
        ("summary_total"@, count_text(summary_usage.total_tokens)),
    ]
}

pub open spec fn preview_details(d: ScanDiagnostics, source: SourceLocation) -> Seq<
    (Seq<char>, Seq<char>),
> {
    seq![
        ("raw_rows"@, count_text(d.raw_rows)),
        ("candidates"@, count_text(d.candidate_usage_rows)),
        ("duplicates"@, count_text(d.duplicate_events)),
        ("skipped_zero"@, count_text(d.skipped_zero_events)),
        ("invalid"@, count_text(d.invalid_rows)),
        ("files"@, count_text(d.files_scanned)),
        ("cached"@, count_text(d.files_skipped_unchanged)),
        ("timestamp_fallbacks"@, count_text(d.timestamp_fallbacks)),
        ("model_fallbacks"@, count_text(d.model_fallbacks)),
        ("origin"@, origin_text(source.location_origin)),
        ("source"@, source.source_id.0@),
    ]
}

/// What a scan would find in a source.
pub fn scan_preview_line(
    source: &SourceLocation,
    home: Option<&str>,
    usage_events: u64,
    usage: &UsageTotals,
    summaries: u64,
    summary_usage: &UsageTotals,
    diagnostics: &ScanDiagnostics,
    verbose: bool,
) -> (r: String)
    ensures
        r@ == fields_text(
            source.provider@,
            preview_fields(
                *source,
                opt_str(home),
                usage_events,
                *usage,
                summaries,
                *summary_usage,
            ) + if verbose {
                preview_details(*diagnostics, *source)
            } else {
                Seq::empty()
            },
        ),
{
    let mut line = FieldLine::start(source.provider.as_str());
    let path = preview_path_label(source, home);
    line.field("path", path.as_str());
    let n = decimal_text(usage_events);
    line.field("usage_events", n.as_str());
    let n = decimal_text(summaries);
    line.field("summaries", n.as_str());
    line.usage(usage, "est_cost");
    line.count("summary_total", summary_usage.total_tokens);
    let ghost start = line.fields@;
    proof {
        assert(start =~= preview_fields(
            *source,
            opt_str(home),
            usage_events,
            *usage,
            summaries,
            *summary_usage,
        ));
        assert(start + Seq::empty() =~= start);
    }
    if verbose {
        line.count("raw_rows", diagnostics.raw_rows);
        line.count("candidates", diagnostics.candidate_usage_rows);
        line.count("duplicates", diagnostics.duplicate_events);
        line.count("skipped_zero", diagnostics.skipped_zero_events);
        line.count("invalid", diagnostics.invalid_rows);
        line.count("files", diagnostics.files_scanned);
        line.count("cached", diagnostics.files_skipped_unchanged);
        line.count("timestamp_fallbacks", diagnostics.timestamp_fallbacks);
        line.count("model_fallbacks", diagnostics.model_fallbacks);
        line.field("origin", location_origin_label(&source.location_origin));
        line.field("source", source.source_id.0.as_str());
        proof {
            assert(line.fields@ =~= start + preview_details(*diagnostics, *source));
        }
    }
    line.text
}

pub open spec fn preview_total_fields(t: ScanTotals) -> Seq<(Seq<char>, Seq<char>)> {
    seq![
        ("sources"@, count_text(t.sources)),
        ("usage_events"@, count_text(t.events)),
        ("summaries"@, count_text(t.summaries)),
    ] + usage_fields(t.usage, "est_cost"@) + seq![
        ("summary_total"@, count_text(t.summary_usage.total_tokens)),
    ]
}

pub open spec fn scan_total_fields(t: ScanTotals) -> Seq<(Seq<char>, Seq<char>)> {
    seq![
        ("sources"@, count_text(t.sources)),
        ("usage_events"@, count_text(t.events)),
        ("inserted"@, count_text(t.inserted)),
        ("summaries"@, count_text(t.summaries)),
        ("summaries_written"@, count_text(t.summaries_written)),
    ] + usage_fields(t.usage, "est_cost"@) + seq![
        ("summary_total"@, count_text(t.summary_usage.total_tokens)),
        ("log_rows"@, count_text(t.log_rows)),
    ]
}

/// The lines at the end of a scan.
pub open spec fn scan_total_text(t: ScanTotals, preview: bool, verbose: bool, replace: bool) -> Seq<
    Seq<char>,
> {
    let diagnostics = fields_text("diagnostics:"@, diagnostics_fields(t.diagnostics));
    if preview {
        if verbose {
            seq![
                fields_text(
                    "preview total:"@,
                    preview_total_fields(t) + seq![
                        ("log_rows"@, count_text(t.log_rows)),
                        ("written"@, "0"@),
                    ],
                ),
                diagnostics,
            ]
        } else {
            seq![
                fields_text("preview total:"@, preview_total_fields(t) + seq![("written"@, "0"@)]),
            ]
        }
    } else {
        seq![fields_text("scan complete:"@, scan_total_fields(t))] + (if replace
            || t.replaced_events > 0 || t.replaced_summaries > 0 {
            seq![
                fields_text(
                    "replace removed:"@,
                    seq![
                        ("events"@, count_text(t.replaced_events)),
                        ("summaries"@, count_text(t.replaced_summaries)),
                    ],
                ),
            ]
        } else {
            Seq::empty()
        }) + seq![diagnostics]
    }
}

pub fn scan_total_lines(t: &ScanTotals, preview: bool, verbose: bool, replace: bool) -> (r: Vec<
    String,
>)
    ensures
        texts(r@) == scan_total_text(*t, preview, verbose, replace),
{
    let mut lines = no_lines();
    if preview {
        let mut line = FieldLine::start("preview total:");
        line.count("sources", t.sources);
        line.count("usage_events", t.events);
        line.count("summaries", t.summaries);
        line.usage(&t.usage, "est_cost");
        line.count("summary_total", t.summary_usage.total_tokens);
        proof {
            assert(line.fields@ =~= preview_total_fields(*t));
        }
        if verbose {
            line.count("log_rows", t.log_rows);
        }
        line.field("written", "0");
        proof {
            if verbose {
                assert(line.fields@ =~= preview_total_fields(*t) + seq![
                    ("log_rows"@, count_text(t.log_rows)),
                    ("written"@, "0"@),
                ]);
            } else {
                assert(line.fields@ =~= preview_total_fields(*t) + seq![("written"@, "0"@)]);
            }
        }
        push_line(&mut lines, line.text);
        if verbose {
            push_line(&mut lines, scan_diagnostics_line(&t.diagnostics));
        }
        proof {
            assert(texts(lines@) =~= scan_total_text(*t, preview, verbose, replace));
        }
        return lines;
    }
    let mut line = FieldLine::start("scan complete:");
    line.count("sources", t.sources);
    line.count("usage_events", t.events);
    line.count("inserted", t.inserted);
    line.count("summaries", t.summaries);
    line.count("summaries_written", t.summaries_written);
    line.usage(&t.usage, "est_cost");
    line.count("summary_total", t.summary_usage.total_tokens);
    line.count("log_rows", t.log_rows);
    proof {
        assert(line.fields@ =~= scan_total_fields(*t));
    }
    push_line(&mut lines, line.text);
    if replace || t.replaced_events > 0 || t.replaced_summaries > 0 {
        let mut line = FieldLine::start("replace removed:");
        line.count("events", t.replaced_events);
        line.count("summaries", t.replaced_summaries);
        proof {
            assert(line.fields@ =~= seq![
                ("events"@, count_text(t.replaced_events)),
                ("summaries"@, count_text(t.replaced_summaries)),
            ]);
        }
        push_line(&mut lines, line.text);
    }
    push_line(&mut lines, scan_diagnostics_line(&t.diagnostics));
    proof {
        assert(texts(lines@) =~= scan_total_text(*t, preview, verbose, replace));
    }
    lines
}

/// The line for one reported file.
pub fn reported_source_line(path: &str, home: Option<&str>, records: u64, warnings: u64) -> (r:
    String)
    ensures
        r@ == fields_text(
            "reported source"@,
            seq![
                ("path"@, shortened(path@, opt_str(home))),
                ("summaries"@, decimal(records as nat)),
                ("warnings"@, decimal(warnings as nat)),
            ],
        ),
{
    let mut line = FieldLine::start("reported source");
    let p = abbreviate_home(path, home);
    line.field("path", p.as_str());
    let n = decimal_text(records);
    line.field("summaries", n.as_str());
    let n = decimal_text(warnings);
    line.field("warnings", n.as_str());
    proof {
        assert(line.fields@ =~= seq![
            ("path"@, shortened(path@, opt_str(home))),
            ("summaries"@, decimal(records as nat)),
            ("warnings"@, decimal(warnings as nat)),
        ]);
    }
    line.text
}

/// What an import would do.
pub fn import_preview_line(sources: u64, summaries: u64, replaces: u64, usage: &UsageTotals) -> (r:
    String)
    ensures
        r@ == fields_text(
            "import preview:"@,
            seq![
                ("sources"@, count_text(sources)),
                ("summaries"@, count_text(summaries)),
                ("replace_existing"@, count_text(replaces)),
            ] + usage_fields(*usage, "cost"@) + seq![("written"@, "0"@)],
        ),
{
    let mut line = FieldLine::start("import preview:");
    line.count("sources", sources);
    line.count("summaries", summaries);
    line.count("replace_existing", replaces);
    line.usage(usage, "cost");
    line.field("written", "0");
    proof {
        assert(line.fields@ =~= seq![
            ("sources"@, count_text(sources)),
            ("summaries"@, count_text(summaries)),
            ("replace_existing"@, count_text(replaces)),
        ] + usage_fields(*usage, "cost"@) + seq![("written"@, "0"@)]);
    }
    line.text
}

/// What an import did.
pub fn import_complete_line(
    sources: u64,
    summaries: u64,
    replaced_summaries: u64,
    written: u64,
    usage: &UsageTotals,
) -> (r: String)
    ensures
        r@ == fields_text(
            "import complete:"@,
            seq![
                ("sources"@, count_text(sources)),
                ("summaries"@, count_text(summaries)),
                ("replaced"@, count_text(replaced_summaries)),
                ("summaries_written"@, count_text(written)),
            ] + usage_fields(*usage, "cost"@),
        ),
{
    let mut line = FieldLine::start("import complete:");
    line.count("sources", sources);
    line.count("summaries", summaries);
    line.count("replaced", replaced_summaries);
    line.count("summaries_written", written);
    line.usage(usage, "cost");
    proof {
        assert(line.fields@ =~= seq![
            ("sources"@, count_text(sources)),
            ("summaries"@, count_text(summaries)),
            ("replaced"@, count_text(replaced_summaries)),
            ("summaries_written"@, count_text(written)),
        ] + usage_fields(*usage, "cost"@));
    }
    line.text
}

pub open spec fn home_labels(keys: Seq<Seq<char>>, home: Option<Seq<char>>) -> Seq<Seq<char>> {
    keys.map_values(|k: Seq<char>| shortened(k, home))
}

/// The first three keys, and how many more there are.
pub open spec fn key_sample(keys: Seq<Seq<char>>, home: Option<Seq<char>>) -> Seq<char> {
    let labels = home_labels(keys, home);
    if labels.len() == 0 {
        "none"@
    } else if labels.len() <= 3 {
        joined(labels, ", "@)
    } else {
        joined(labels.take(3), ", "@) + " (+"@ + decimal((labels.len() - 3) as nat) + " more)"@
    }
}

pub fn format_cache_key_sample(keys: &[String], home: Option<&str>) -> (r: String)
    ensures
        r@ == key_sample(texts(keys@), opt_str(home)),
{
    if keys.len() == 0 {
        return "none".to_owned();
    }
    let shown: usize = if keys.len() <= 3 {
        keys.len()
    } else {
        3
    };
    let ghost labels = home_labels(texts(keys@), opt_str(home));
    let mut sample: Vec<String> = Vec::new();
    let mut i: usize = 0;
    while i < shown
        invariant
            i <= shown <= keys.len(),
            labels == home_labels(texts(keys@), opt_str(home)),
            sample.len() == i,
            forall|k: int| 0 <= k < i ==> (#[trigger] sample@[k])@ == labels[k],
        decreases shown - i,
    {
        proof {
            assert(texts(keys@)[i as int] == keys@[i as int]@);
        }
        sample.push(abbreviate_home(keys[i].as_str(), home));
        i = i + 1;
    }
    proof {
        assert(labels.len() == keys@.len());
        assert(texts(sample@) =~= labels.take(shown as int));
        assert(labels.take(labels.len() as int) =~= labels);
    }
    let list = join(&sample, ", ");
    if keys.len() <= 3 {
        return list;
    }
    let n = decimal_text((keys.len() - 3) as u64);
    let a = concat3(list.as_str(), " (+", n.as_str());
    concat2(a.as_str(), " more)")
}

// ---------------------------------------------------------------------------
// Reports
// ---------------------------------------------------------------------------

pub open spec fn usage_cells(u: UsageTotals) -> Seq<Seq<char>> {
    seq![
        right_text(count_text(u.input_tokens), 12),
        right_text(count_text(u.cache_creation_tokens), 12),
        right_text(count_text(u.cached_input_tokens), 12),
        right_text(count_text(u.output_tokens), 12),
        right_text(count_text(u.total_tokens), 12),
        right_text(cost_text(u.estimated_cost_usd), 12),
    ]
}

fn push_usage_cells(cells: &mut Vec<Cell>, u: &UsageTotals)
    ensures
        shown_cells(final(cells)@) == shown_cells(old(cells)@) + usage_cells(*u),
{
    push_cell(cells, count_cell(u.input_tokens, 12));
    push_cell(cells, count_cell(u.cache_creation_tokens, 12));
    push_cell(cells, count_cell(u.cached_input_tokens, 12));
    push_cell(cells, count_cell(u.output_tokens, 12));
    push_cell(cells, count_cell(u.total_tokens, 12));
    push_cell(cells, cost_cell(u.estimated_cost_usd, 12));
    proof {
        assert(shown_cells(cells@) =~= shown_cells(old(cells)@) + usage_cells(*u));
    }
}

/// A row of the table of direct usage.
pub open spec fn usage_line(provider: Seq<char>, account: Seq<char>, events: u64, u: UsageTotals) -> Seq<
    char,
> {
    joined(
        seq![
            left_text(provider, 14),
            left_text(account, 16),
            right_text(count_text(events), 10),
        ] + usage_cells(u),
        " "@,
    )
}

fn make_usage_line(provider: &str, account: &str, events: u64, u: &UsageTotals) -> (r: String)
    ensures
        r@ == usage_line(provider@, account@, events, *u),
{
    let mut cells = no_cells();
    push_cell(&mut cells, left_cell(provider, 14));
    push_cell(&mut cells, left_cell(account, 16));
    push_cell(&mut cells, count_cell(events, 10));
    proof {
        assert(shown_cells(cells@) =~= seq![
            left_text(provider@, 14),
            left_text(account@, 16),
            right_text(count_text(events), 10),
        ]);
    }
    push_usage_cells(&mut cells, u);
    table_line(&cells)
}

/// The sources and paths of a row.
pub open spec fn place_lines(sources: Seq<Seq<char>>, paths: Seq<Seq<char>>) -> Seq<Seq<char>> {
    seq!["  sources: "@ + joined(sources, ", "@)] + if paths.len() == 0 {
        Seq::empty()
    } else {
        seq!["  paths: "@ + joined(paths, ", "@)]
    }
}

fn push_place_lines(lines: &mut Vec<String>, sources: &[String], paths: &[String])
    ensures
        texts(final(lines)@) == texts(old(lines)@) + place_lines(texts(sources@), texts(paths@)),
{
    let s = join(sources, ", ");
    push_line(lines, concat2("  sources: ", s.as_str()));
    proof {
        assert(texts(paths@).len() == paths@.len());
    }
    if paths.len() > 0 {
        let p = join(paths, ", ");
        push_line(lines, concat2("  paths: ", p.as_str()));
    }
    proof {
        assert(texts(lines@) =~= texts(old(lines)@) + place_lines(texts(sources@), texts(paths@)));
    }
}

pub open spec fn row_lines(row: UsageReportRow, verbose: bool) -> Seq<Seq<char>> {
    seq![usage_line(row.provider@, row.account@, row.events, row.usage)] + if verbose {
        seq!["  reasoning: "@ + count_text(row.usage.reasoning_tokens)] + place_lines(
            texts(row.sources@),
            texts(row.paths@),
        )
    } else {
        Seq::empty()
    }
}

pub open spec fn rows_lines(rows: Seq<UsageReportRow>, verbose: bool) -> Seq<Seq<char>>
    decreases rows.len(),
{
    if rows.len() == 0 {
        Seq::empty()
    } else {
        rows_lines(rows.drop_last(), verbose) + row_lines(rows.last(), verbose)
    }
}

fn push_row_lines(lines: &mut Vec<String>, row: &UsageReportRow, verbose: bool)
    ensures
        texts(final(lines)@) == texts(old(lines)@) + row_lines(*row, verbose),
{
    let line = make_usage_line(
        row.provider.as_str(),
        row.account.as_str(),
        row.events,
        &row.usage,
    );
    push_line(lines, line);
    if verbose {
        let n = format_u64(row.usage.reasoning_tokens);
        push_line(lines, concat2("  reasoning: ", n.as_str()));
        push_place_lines(lines, &row.sources, &row.paths);
    }
    proof {
        assert(texts(lines@) =~= texts(old(lines)@) + row_lines(*row, verbose));
    }
}

fn make_rows_lines(rows: &[UsageReportRow], verbose: bool) -> (r: Vec<String>)
    ensures
        texts(r@) == rows_lines(rows@, verbose),
{
    let mut lines = no_lines();
    let mut i: usize = 0;
    proof {
        assert(rows@.take(0) =~= Seq::empty());
    }
    while i < rows.len()
        invariant
            i <= rows.len(),
            texts(lines@) == rows_lines(rows@.take(i as int), verbose),
        decreases rows.len() - i,
    {
        push_row_lines(&mut lines, &rows[i], verbose);
        proof {
            assert(rows@.take(i + 1).drop_last() =~= rows@.take(i as int));
        }
        i = i + 1;
    }
    proof {
        assert(rows@.take(i as int) =~= rows@);
    }
    lines
}

/// The names of the columns, one after the other.
pub open spec fn header_line(lefts: Seq<(Seq<char>, int)>, rights: Seq<(Seq<char>, int)>) -> Seq<
    char,
> {
    joined(
        lefts.map_values(|c: (Seq<char>, int)| left_text(c.0, c.1)) + rights.map_values(
            |c: (Seq<char>, int)| right_text(c.0, c.1),
        ),
        " "@,
    )
}

pub open spec fn columns(c: Seq<(&str, usize)>) -> Seq<(Seq<char>, int)> {
    c.map_values(|p: (&str, usize)| (p.0@, p.1 as int))
}

fn make_header_line(lefts: &[(&str, usize)], rights: &[(&str, usize)]) -> (r: String)
    ensures
        r@ == header_line(columns(lefts@), columns(rights@)),
{
    let mut cells = no_cells();
    let ghost a = columns(lefts@).map_values(|c: (Seq<char>, int)| left_text(c.0, c.1));
    let ghost b = columns(rights@).map_values(|c: (Seq<char>, int)| right_text(c.0, c.1));
    let mut i: usize = 0;
    while i < lefts.len()
        invariant
            i <= lefts.len(),
            a == columns(lefts@).map_values(|c: (Seq<char>, int)| left_text(c.0, c.1)),
            shown_cells(cells@) == a.take(i as int),
        decreases lefts.len() - i,
    {
        let (name, width) = lefts[i];
        push_cell(&mut cells, left_cell(name, width));
        i = i + 1;
        proof {
            assert(shown_cells(cells@) =~= a.take(i as int));
        }
    }
    let mut j: usize = 0;
    proof {
        assert(a.take(i as int) + b.take(0) =~= a);
        assert(a.take(i as int) =~= a);
    }
    while j < rights.len()
        invariant
            j <= rights.len(),
            b == columns(rights@).map_values(|c: (Seq<char>, int)| right_text(c.0, c.1)),
            shown_cells(cells@) == a + b.take(j as int),
        decreases rights.len() - j,
    {
        let (name, width) = rights[j];
        push_cell(&mut cells, right_cell(name, width));
        j = j + 1;
        proof {
            assert(shown_cells(cells@) =~= a + b.take(j as int));
        }
    }
    proof {
        assert(b.take(j as int) =~= b);
    }
    table_line(&cells)
}

/// The label and the range of a report.
pub open spec fn report_head(r: UsageReport) -> Seq<Seq<char>> {
    seq![
        "statsai report: "@ + r.label@,
        (match r.since {
            Some(since) => "range: "@ + instant_key(since) + " to "@ + instant_key(r.until),
            None => "range: all stored events through "@ + instant_key(r.until),
        }),
        header_line(
            seq![("provider"@, 14), ("account"@, 16)],
            seq![
                ("events"@, 10),
                ("input"@, 12),
                ("cache_create"@, 12),
                ("cache_read"@, 12),
                ("output"@, 12),
                ("total"@, 12),
                ("est_cost"@, 12),
            ],
        ),
    ]
}

fn make_report_head(report: &UsageReport) -> (r: Vec<String>)
    requires
        opt_wf(report.since),
        report.until.wf(),
    ensures
        texts(r@) == report_head(*report),
{
    let mut lines = no_lines();
    push_line(&mut lines, concat2("statsai report: ", report.label.as_str()));
    let until = report.until.to_rfc3339();
    match report.since {
        Some(since) => {
            let from = since.to_rfc3339();
            let a = concat3("range: ", from.as_str(), " to ");
            push_line(&mut lines, concat2(a.as_str(), until.as_str()));
        },
        None => {
            push_line(&mut lines, concat2("range: all stored events through ", until.as_str()));
        },
    }
    let lefts: [(&str, usize); 2] = [("provider", 14), ("account", 16)];
    let rights: [(&str, usize); 7] = [
        ("events", 10),
        ("input", 12),
        ("cache_create", 12),
        ("cache_read", 12),
        ("output", 12),
        ("total", 12),
        ("est_cost", 12),
    ];
    proof {
        assert(columns(lefts@) =~= seq![("provider"@, 14), ("account"@, 16)]);
        assert(columns(rights@) =~= seq![
            ("events"@, 10),
            ("input"@, 12),
            ("cache_create"@, 12),
            ("cache_read"@, 12),
            ("output"@, 12),
            ("total"@, 12),
            ("est_cost"@, 12),
        ]);
    }
    push_line(&mut lines, make_header_line(&lefts, &rights));
    proof {
        assert(texts(lines@) =~= report_head(*report));
    }
    lines
}

// Subscriptions

pub open spec fn subscription_details(row: SubscriptionReportRow) -> Seq<Seq<char>> {
    seq![
        "  subscription_id: "@ + row.subscription_id.0@,
        "  provider_account_id: "@ + row.provider_account_id.0@,
        "  started_at: "@ + instant_key(row.started_at),
    ] + (match row.ended_at {
        Some(at) => seq!["  ended_at: "@ + instant_key(at)],
        None => Seq::empty(),
    }) + seq!["  status: "@ + status_name(row.status)] + (match row.value_minus_price_usd {
        Some(delta) => seq!["  value_minus_price_usd: "@ + cost_text(Some(delta))],
        None => Seq::empty(),
    })
}

pub open spec fn subscription_line(row: SubscriptionReportRow) -> Seq<char> {
    joined(
        seq![
            left_text(row.provider@, 14),
            left_text(cut_label(row.account@, 16), 16),
            left_text(cut_label(row.plan_name@, 14), 14),
            right_text(count_text(row.events), 10),
            right_text(count_text(row.usage.total_tokens), 12),
            right_text(cost_text(row.usage.estimated_cost_usd), 12),
            right_text(price_text(row.price, row.currency@), 12),
            right_text(ratio_text(row.value_to_price), 12),
        ],
        " "@,
    )
}

pub open spec fn subscription_row_lines(row: SubscriptionReportRow, verbose: bool) -> Seq<
    Seq<char>,
> {
    seq![subscription_line(row)] + if verbose {
        subscription_details(row)
    } else {
        Seq::empty()
    }
}

pub open spec fn subscription_rows_lines(
    rows: Seq<SubscriptionReportRow>,
    verbose: bool,
) -> Seq<Seq<char>>
    decreases rows.len(),
{
    if rows.len() == 0 {
        Seq::empty()
    } else {
        subscription_rows_lines(rows.drop_last(), verbose) + subscription_row_lines(
            rows.last(),
            verbose,
        )
    }
}

/// The table of what subscriptions are worth.
pub open spec fn subscription_table(
    rows: Seq<SubscriptionReportRow>,
    verbose: bool,
) -> Seq<Seq<char>> {
    if rows.len() == 0 {
        seq!["subscription value: no matching subscription periods"@]
    } else {
        seq![
            "subscription value:"@,
            header_line(
                seq![("provider"@, 14), ("account"@, 16), ("plan"@, 14)],
                seq![
                    ("events"@, 10),
                    ("total"@, 12),
                    ("value_usd"@, 12),
                    ("price"@, 12),
                    ("ratio"@, 12),
                ],
            ),
        ] + subscription_rows_lines(rows, verbose)
    }
}

fn push_subscription_row(
    lines: &mut Vec<String>,
    row: &SubscriptionReportRow,
    verbose: bool,
)
    requires
        row.started_at.wf(),
        opt_wf(row.ended_at),
    ensures
        texts(final(lines)@) == texts(old(lines)@) + subscription_row_lines(*row, verbose),
{
    let mut cells = no_cells();
    push_cell(&mut cells, left_cell(row.provider.as_str(), 14));
    let account = truncate_label(row.account.as_str(), 16);
    push_cell(&mut cells, left_cell(account.as_str(), 16));
    let plan = truncate_label(row.plan_name.as_str(), 14);
    push_cell(&mut cells, left_cell(plan.as_str(), 14));
    push_cell(&mut cells, count_cell(row.events, 10));
    push_cell(&mut cells, count_cell(row.usage.total_tokens, 12));
    push_cell(&mut cells, cost_cell(row.usage.estimated_cost_usd, 12));
    let price = format_subscription_price(row.price, row.currency.as_str());
    push_cell(&mut cells, right_cell(price.as_str(), 12));
    let ratio = format_ratio(row.value_to_price);
    push_cell(&mut cells, right_cell(ratio.as_str(), 12));
    proof {
        assert(shown_cells(cells@) =~= seq![
            left_text(row.provider@, 14),
            left_text(cut_label(row.account@, 16), 16),
            left_text(cut_label(row.plan_name@, 14), 14),
            right_text(count_text(row.events), 10),
            right_text(count_text(row.usage.total_tokens), 12),
            right_text(cost_text(row.usage.estimated_cost_usd), 12),
            right_text(price_text(row.price, row.currency@), 12),
            right_text(ratio_text(row.value_to_price), 12),
        ]);
    }
    push_line(lines, table_line(&cells));
    if verbose {
        push_line(lines, concat2("  subscription_id: ", row.subscription_id.0.as_str()));
        push_line(lines, concat2("  provider_account_id: ", row.provider_account_id.0.as_str()));
        let started = row.started_at.to_rfc3339();
        push_line(lines, concat2("  started_at: ", started.as_str()));
        match row.ended_at {
            Some(at) => {
                let ended = at.to_rfc3339();
                push_line(lines, concat2("  ended_at: ", ended.as_str()));
            },
            None => {},
        }
        push_line(lines, concat2("  status: ", subscription_status_label(&row.status)));
        match row.value_minus_price_usd {
            Some(delta) => {
                let cost = format_cost(Some(delta));
                push_line(lines, concat2("  value_minus_price_usd: ", cost.as_str()));
            },
            None => {},
        }
    }
    proof {
        assert(texts(lines@) =~= texts(old(lines)@) + subscription_row_lines(
            *row,
            verbose,
        ));
    }
}

/// Whether the rows' instants are of the time line.
pub open spec fn subscription_rows_wf(rows: Seq<SubscriptionReportRow>) -> bool {
    forall|i: int|
        0 <= i < rows.len() ==> (#[trigger] rows[i]).started_at.wf() && opt_wf(rows[i].ended_at)
}

pub fn subscription_report_lines(
    rows: &[SubscriptionReportRow],
    verbose: bool,
) -> (r: Vec<String>)
    requires
        subscription_rows_wf(rows@),
    ensures
        texts(r@) == subscription_table(rows@, verbose),
{
    let mut lines = no_lines();
    if rows.len() == 0 {
        push_line(&mut lines, "subscription value: no matching subscription periods".to_owned());
        proof {
            assert(texts(lines@) =~= subscription_table(rows@, verbose));
        }
        return lines;
    }
    push_line(&mut lines, "subscription value:".to_owned());
    let lefts: [(&str, usize); 3] = [("provider", 14), ("account", 16), ("plan", 14)];
    let rights: [(&str, usize); 5] = [
        ("events", 10),
        ("total", 12),
        ("value_usd", 12),
        ("price", 12),
        ("ratio", 12),
    ];
    proof {
        assert(columns(lefts@) =~= seq![("provider"@, 14), ("account"@, 16), ("plan"@, 14)]);
        assert(columns(rights@) =~= seq![
            ("events"@, 10),
            ("total"@, 12),
            ("value_usd"@, 12),
            ("price"@, 12),
            ("ratio"@, 12),
        ]);
    }
    push_line(&mut lines, make_header_line(&lefts, &rights));
    let ghost head = texts(lines@);
    let mut i: usize = 0;
    proof {
        assert(rows@.take(0) =~= Seq::empty());
        assert(head + Seq::empty() =~= head);
    }
    while i < rows.len()
        invariant
            subscription_rows_wf(rows@),
            i <= rows.len(),
            texts(lines@) == head + subscription_rows_lines(
                rows@.take(i as int),
                verbose,
            ),
        decreases rows.len() - i,
    {
        proof {
            assert(rows@[i as int].started_at.wf());
            assert(rows@.take(i + 1).drop_last() =~= rows@.take(i as int));
        }
        push_subscription_row(&mut lines, &rows[i], verbose);
        i = i + 1;
        proof {
            assert(texts(lines@) =~= head + subscription_rows_lines(
                rows@.take(i as int),
                verbose,
            ));
        }
    }
    proof {
        assert(rows@.take(i as int) =~= rows@);
        assert(texts(lines@) =~= subscription_table(rows@, verbose));
    }
    lines
}

// Summaries

pub open spec fn count_sum(rows: Seq<SummaryReportRow>) -> int
    decreases rows.len(),
{
    if rows.len() == 0 {
        0
    } else {
        count_sum(rows.drop_last()) + rows.last().summaries
    }
}

/// The tokens of direct usage in the rows' periods, added up.
pub open spec fn direct_sum(rows: Seq<SummaryReportRow>) -> int
    decreases rows.len(),
{
    if rows.len() == 0 {
        0
    } else {
        direct_sum(rows.drop_last()) + rows.last().direct_event_usage.total_tokens
    }
}

/// The number of summaries in the rows; nothing where it is too large to hold.
pub fn summary_count_total(rows: &[SummaryReportRow]) -> (r: Option<u64>)
    ensures
        match r {
            Some(n) => count_sum(rows@) == n,
            None => count_sum(rows@) > u64::MAX,
        },
{
    let mut total: u64 = 0;
    let mut i: usize = 0;
    proof {
        assert(rows@.take(0) =~= Seq::empty());
    }
    while i < rows.len()
        invariant
            i <= rows.len(),
            total == count_sum(rows@.take(i as int)),
        decreases rows.len() - i,
    {
        proof {
            assert(rows@.take(i + 1).drop_last() =~= rows@.take(i as int));
            lemma_sums_grow(rows@, i + 1);
        }
        match total.checked_add(rows[i].summaries) {
            Some(n) => {
                total = n;
            },
            None => return None,
        }
        i = i + 1;
    }
    proof {
        assert(rows@.take(i as int) =~= rows@);
    }
    Some(total)
}

/// The direct usage in the rows' periods; nothing where it is too large to hold.
pub fn summary_direct_total(rows: &[SummaryReportRow]) -> (r: Option<u64>)
    ensures
        match r {
            Some(n) => direct_sum(rows@) == n,
            None => direct_sum(rows@) > u64::MAX,
        },
{
    let mut total: u64 = 0;
    let mut i: usize = 0;
    proof {
        assert(rows@.take(0) =~= Seq::empty());
    }
    while i < rows.len()
        invariant
            i <= rows.len(),
            total == direct_sum(rows@.take(i as int)),
        decreases rows.len() - i,
    {
        proof {
            assert(rows@.take(i + 1).drop_last() =~= rows@.take(i as int));
            lemma_sums_grow(rows@, i + 1);
        }
        match total.checked_add(rows[i].direct_event_usage.total_tokens) {
            Some(n) => {
                total = n;
            },
            None => return None,
        }
        i = i + 1;
    }
    proof {
        assert(rows@.take(i as int) =~= rows@);
    }
    Some(total)
}

proof fn lemma_sums_grow(rows: Seq<SummaryReportRow>, n: int)
    requires
        0 <= n <= rows.len(),
    ensures
        count_sum(rows.take(n)) <= count_sum(rows),
        direct_sum(rows.take(n)) <= direct_sum(rows),
    decreases rows.len() - n,
{
    if n == rows.len() {
        assert(rows.take(n) =~= rows);
    } else {
        lemma_sums_grow(rows, n + 1);
        assert(rows.take(n + 1).drop_last() =~= rows.take(n));
    }
}

pub open spec fn less_to_zero(a: u64, b: int) -> u64 {
    if a as int >= b {
        (a - b) as u64
    } else {
        0
    }
}

/// The tokens of a summary row that no direct usage covers.
pub open spec fn uncovered(row: SummaryReportRow) -> u64 {
    less_to_zero(row.usage.total_tokens, row.direct_event_usage.total_tokens as int)
}

pub fn uncovered_tokens(row: &SummaryReportRow) -> (r: u64)
    ensures
        r == uncovered(*row),
{
    row.usage.total_tokens.saturating_sub(row.direct_event_usage.total_tokens)
}

pub open spec fn summary_line(
    provider: Seq<char>,
    account: Seq<char>,
    kind: Seq<char>,
    summaries: u64,
    u: UsageTotals,
    open: u64,
) -> Seq<char> {
    joined(
        seq![
            left_text(provider, 14),
            left_text(account, 16),
            left_text(kind, 18),
            right_text(count_text(summaries), 10),
        ] + usage_cells(u) + seq![right_text(count_text(open), 12)],
        " "@,
    )
}

fn make_summary_line(
    provider: &str,
    account: &str,
    kind: &str,
    summaries: u64,
    u: &UsageTotals,
    open: u64,
) -> (r: String)
    ensures
        r@ == summary_line(provider@, account@, kind@, summaries, *u, open),
{
    let mut cells = no_cells();
    push_cell(&mut cells, left_cell(provider, 14));
    push_cell(&mut cells, left_cell(account, 16));
    push_cell(&mut cells, left_cell(kind, 18));
    push_cell(&mut cells, count_cell(summaries, 10));
    let ghost start = seq![
        left_text(provider@, 14),
        left_text(account@, 16),
        left_text(kind@, 18),
        right_text(count_text(summaries), 10),
    ];
    proof {
        assert(shown_cells(cells@) =~= start);
    }
    push_usage_cells(&mut cells, u);
    push_cell(&mut cells, count_cell(open, 12));
    proof {
        assert(shown_cells(cells@) =~= start + usage_cells(*u) + seq![
            right_text(count_text(open), 12),
        ]);
    }
    table_line(&cells)
}

pub open spec fn summary_details(row: SummaryReportRow) -> Seq<Seq<char>> {
    (match row.observed_at {
        Some(at) => seq!["  observed_at: "@ + instant_key(at)],
        None => Seq::empty(),
    }) + seq!["  direct_overlap_total: "@ + count_text(row.direct_event_usage.total_tokens)] + (
    if row.exact_overlap_summaries > 0 {
        seq!["  exact_overlap_summaries: "@ + count_text(row.exact_overlap_summaries)]
    } else {
        Seq::empty()
    }) + place_lines(texts(row.sources@), texts(row.paths@))
}

pub open spec fn summary_row_lines(row: SummaryReportRow, verbose: bool) -> Seq<Seq<char>> {
    seq![
        summary_line(
            row.provider@,
            row.account@,
            row.kind@,
            row.summaries,
            row.usage,
            uncovered(row),
        ),
    ] + if verbose {
        summary_details(row)
    } else {
        Seq::empty()
    }
}

pub open spec fn summary_rows_lines(rows: Seq<SummaryReportRow>, verbose: bool) -> Seq<Seq<char>>
    decreases rows.len(),
{
    if rows.len() == 0 {
        Seq::empty()
    } else {
        summary_rows_lines(rows.drop_last(), verbose) + summary_row_lines(rows.last(), verbose)
    }
}

fn push_summary_row(lines: &mut Vec<String>, row: &SummaryReportRow, verbose: bool)
    requires
        opt_wf(row.observed_at),
    ensures
        texts(final(lines)@) == texts(old(lines)@) + summary_row_lines(*row, verbose),
{
    let line = make_summary_line(
        row.provider.as_str(),
        row.account.as_str(),
        row.kind.as_str(),
        row.summaries,
        &row.usage,
        uncovered_tokens(row),
    );
    push_line(lines, line);
    if verbose {
        match row.observed_at {
            Some(at) => {
                let t = at.to_rfc3339();
                push_line(lines, concat2("  observed_at: ", t.as_str()));
            },
            None => {},
        }
        let n = format_u64(row.direct_event_usage.total_tokens);
        push_line(lines, concat2("  direct_overlap_total: ", n.as_str()));
        if row.exact_overlap_summaries > 0 {
            let n = format_u64(row.exact_overlap_summaries);
            push_line(lines, concat2("  exact_overlap_summaries: ", n.as_str()));
        }
        push_place_lines(lines, &row.sources, &row.paths);
    }
    proof {
        assert(texts(lines@) =~= texts(old(lines)@) + summary_row_lines(*row, verbose));
    }
}

pub open spec fn summary_rows_wf(rows: Seq<SummaryReportRow>) -> bool {
    forall|i: int| 0 <= i < rows.len() ==> opt_wf((#[trigger] rows[i]).observed_at)
}

/// The table of reported usage.
pub open spec fn summary_table(rows: Seq<SummaryReportRow>, total: UsageTotals, verbose: bool) -> Seq<
    Seq<char>,
> {
    seq![
        "reported/manual summaries (separate provenance, included in known gross totals):"@,
        header_line(
            seq![("provider"@, 14), ("account"@, 16), ("kind"@, 18)],
            seq![
                ("summaries"@, 10),
                ("input"@, 12),
                ("cache_create"@, 12),
                ("cache_read"@, 12),
                ("output"@, 12),
                ("total"@, 12),
                ("cost"@, 12),
                ("uncovered"@, 12),
            ],
        ),
    ] + summary_rows_lines(rows, verbose) + seq![
        summary_line(
            "summary total"@,
            ""@,
            ""@,
            count_sum(rows) as u64,
            total,
            less_to_zero(total.total_tokens, direct_sum(rows)),
        ),
    ]
}

fn make_summary_table(rows: &[SummaryReportRow], total: &UsageTotals, verbose: bool) -> (r: Vec<
    String,
>)
    requires
        summary_rows_wf(rows@),
        count_sum(rows@) <= u64::MAX,
        direct_sum(rows@) <= u64::MAX,
    ensures
        texts(r@) == summary_table(rows@, *total, verbose),
{
    let mut lines = no_lines();
    push_line(
        &mut lines,
        "reported/manual summaries (separate provenance, included in known gross totals):".to_owned(),
    );
    let lefts: [(&str, usize); 3] = [("provider", 14), ("account", 16), ("kind", 18)];
    let rights: [(&str, usize); 8] = [
        ("summaries", 10),
        ("input", 12),
        ("cache_create", 12),
        ("cache_read", 12),
        ("output", 12),
        ("total", 12),
        ("cost", 12),
        ("uncovered", 12),
    ];
    proof {
        assert(columns(lefts@) =~= seq![("provider"@, 14), ("account"@, 16), ("kind"@, 18)]);
        assert(columns(rights@) =~= seq![
            ("summaries"@, 10),
            ("input"@, 12),
            ("cache_create"@, 12),
            ("cache_read"@, 12),
            ("output"@, 12),
            ("total"@, 12),
            ("cost"@, 12),
            ("uncovered"@, 12),
        ]);
    }
    push_line(&mut lines, make_header_line(&lefts, &rights));
    let ghost head = texts(lines@);
    let mut i: usize = 0;
    proof {
        assert(rows@.take(0) =~= Seq::empty());
        assert(head + Seq::empty() =~= head);
    }
    while i < rows.len()
        invariant
            summary_rows_wf(rows@),
            i <= rows.len(),
            texts(lines@) == head + summary_rows_lines(rows@.take(i as int), verbose),
        decreases rows.len() - i,
    {
        proof {
            assert(opt_wf(rows@[i as int].observed_at));
            assert(rows@.take(i + 1).drop_last() =~= rows@.take(i as int));
        }
        push_summary_row(&mut lines, &rows[i], verbose);
        i = i + 1;
        proof {
            assert(texts(lines@) =~= head + summary_rows_lines(rows@.take(i as int), verbose));
        }
    }
    proof {
        assert(rows@.take(i as int) =~= rows@);
    }
    let count: u64 = match summary_count_total(rows) {
        Some(n) => n,
        None => 0,
    };
    let direct: u64 = match summary_direct_total(rows) {
        Some(n) => n,
        None => 0,
    };
    let line = make_summary_line(
        "summary total",
        "",
        "",
        count,
        total,
        total.total_tokens.saturating_sub(direct),
    );
    push_line(&mut lines, line);
    proof {
        assert(texts(lines@) =~= summary_table(rows@, *total, verbose));
    }
    lines
}

// Known usage

/// The texts without those that repeat the one before them.
pub open spec fn without_repeats(s: Seq<Seq<char>>) -> Seq<Seq<char>>
    decreases s.len(),
{
    if s.len() == 0 {
        s
    } else {
        let front = without_repeats(s.drop_last());
        if front.len() > 0 && front.last() == s.last() {
            front
        } else {
            front.push(s.last())
        }
    }
}

pub fn drop_repeats(v: &[String]) -> (r: Vec<String>)
    ensures
        texts(r@) == without_repeats(texts(v@)),
{
    let mut out = no_lines();
    let ghost all = texts(v@);
    let mut i: usize = 0;
    proof {
        assert(all.take(0) =~= Seq::empty());
    }
    while i < v.len()
        invariant
            all == texts(v@),
            i <= v.len(),
            texts(out@) == without_repeats(all.take(i as int)),
        decreases v.len() - i,
    {
        proof {
            assert(all.take(i + 1).drop_last() =~= all.take(i as int));
            assert(all.take(i + 1).last() == v@[i as int]@);
            assert(texts(out@).len() == out@.len());
        }
        let repeats = if out.len() > 0 {
            proof {
                assert(texts(out@).last() == out@[out@.len() - 1]@);
            }
            same_text(out[out.len() - 1].as_str(), v[i].as_str())
        } else {
            false
        };
        if !repeats {
            push_line(&mut out, v[i].clone());
        }
        i = i + 1;
    }
    proof {
        assert(all.take(i as int) =~= all);
    }
    out
}

pub open spec fn direct_of(rows: Seq<UsageReportRow>, provider: Seq<char>) -> UsageTotals
    decreases rows.len(),
{
    if rows.len() == 0 {
        UsageTotals::zero()
    } else {
        let before = direct_of(rows.drop_last(), provider);
        if rows.last().provider@ == provider {
            before.plus_totals(rows.last().usage)
        } else {
            before
        }
    }
}

pub open spec fn reported_of(rows: Seq<SummaryReportRow>, provider: Seq<char>) -> UsageTotals
    decreases rows.len(),
{
    if rows.len() == 0 {
        UsageTotals::zero()
    } else {
        let before = reported_of(rows.drop_last(), provider);
        if rows.last().provider@ == provider {
            before.plus_totals(rows.last().usage)
        } else {
            before
        }
    }
}

/// The providers of a report's rows, in order and each once.
pub open spec fn report_providers(r: UsageReport) -> Seq<Seq<char>> {
    without_repeats(
        sorted_texts(
            r.rows@.map_values(|x: UsageReportRow| x.provider@) + r.summary_rows@.map_values(
                |x: SummaryReportRow| x.provider@,
            ),
        ),
    )
}

fn direct_totals(rows: &[UsageReportRow], provider: &str) -> (r: UsageTotals)
    ensures
        r == direct_of(rows@, provider@),
{
    let mut total = UsageTotals::default();
    let mut i: usize = 0;
    proof {
        assert(rows@.take(0) =~= Seq::empty());
    }
    while i < rows.len()
        invariant
            i <= rows.len(),
            total == direct_of(rows@.take(i as int), provider@),
        decreases rows.len() - i,
    {
        proof {
            assert(rows@.take(i + 1).drop_last() =~= rows@.take(i as int));
        }
        if same_text(rows[i].provider.as_str(), provider) {
            total.add_totals(&rows[i].usage);
        }
        i = i + 1;
    }
    proof {
        assert(rows@.take(i as int) =~= rows@);
    }
    total
}

fn reported_totals(rows: &[SummaryReportRow], provider: &str) -> (r: UsageTotals)
    ensures
        r == reported_of(rows@, provider@),
{
    let mut total = UsageTotals::default();
    let mut i: usize = 0;
    proof {
        assert(rows@.take(0) =~= Seq::empty());
    }
    while i < rows.len()
        invariant
            i <= rows.len(),
            total == reported_of(rows@.take(i as int), provider@),
        decreases rows.len() - i,
    {
        proof {
            assert(rows@.take(i + 1).drop_last() =~= rows@.take(i as int));
        }
        if same_text(rows[i].provider.as_str(), provider) {
            total.add_totals(&rows[i].usage);
        }
        i = i + 1;
    }
    proof {
        assert(rows@.take(i as int) =~= rows@);
    }
    total
}

fn providers_of(report: &UsageReport) -> (r: Vec<String>)
    ensures
        texts(r@) == report_providers(*report),
{
    let ghost a = report.rows@.map_values(|x: UsageReportRow| x.provider@);
    let ghost b = report.summary_rows@.map_values(|x: SummaryReportRow| x.provider@);
    let mut names = no_lines();
    let mut i: usize = 0;
    proof {
        assert(a.take(0) =~= Seq::empty());
    }
    while i < report.rows.len()
        invariant
            a == report.rows@.map_values(|x: UsageReportRow| x.provider@),
            i <= report.rows.len(),
            texts(names@) == a.take(i as int),
        decreases report.rows.len() - i,
    {
        push_line(&mut names, report.rows[i].provider.clone());
        i = i + 1;
        proof {
            assert(texts(names@) =~= a.take(i as int));
        }
    }
    let mut j: usize = 0;
    proof {
        assert(a.take(i as int) =~= a);
        assert(a + b.take(0) =~= a);
    }
    while j < report.summary_rows.len()
        invariant
            b == report.summary_rows@.map_values(|x: SummaryReportRow| x.provider@),
            j <= report.summary_rows.len(),
            texts(names@) == a + b.take(j as int),
        decreases report.summary_rows.len() - j,
    {
        push_line(&mut names, report.summary_rows[j].provider.clone());
        j = j + 1;
        proof {
            assert(texts(names@) =~= a + b.take(j as int));
        }
    }
    proof {
        assert(b.take(j as int) =~= b);
    }
    let sorted = sort_texts(&names);
    drop_repeats(&sorted)
}

pub open spec fn known_line(provider: Seq<char>, direct: UsageTotals, reported: UsageTotals) -> Seq<
    char,
> {
    let known = direct.plus_totals(reported);
    joined(
        seq![
            left_text(provider, 14),
            right_text(count_text(direct.total_tokens), 14),
            right_text(count_text(reported.total_tokens), 14),
            right_text(count_text(known.total_tokens), 14),
            right_text(cost_text(direct.estimated_cost_usd), 12),
            right_text(cost_text(reported.estimated_cost_usd), 12),
            right_text(cost_text(known.estimated_cost_usd), 12),
        ],
        " "@,
    )
}

fn make_known_line(provider: &str, direct: &UsageTotals, reported: &UsageTotals) -> (r: String)
    ensures
        r@ == known_line(provider@, *direct, *reported),
{
    let mut known = *direct;
    known.add_totals(reported);
    let mut cells = no_cells();
    push_cell(&mut cells, left_cell(provider, 14));
    push_cell(&mut cells, count_cell(direct.total_tokens, 14));
    push_cell(&mut cells, count_cell(reported.total_tokens, 14));
    push_cell(&mut cells, count_cell(known.total_tokens, 14));
    push_cell(&mut cells, cost_cell(direct.estimated_cost_usd, 12));
    push_cell(&mut cells, cost_cell(reported.estimated_cost_usd, 12));
    push_cell(&mut cells, cost_cell(known.estimated_cost_usd, 12));
    proof {
        assert(shown_cells(cells@) =~= seq![
            left_text(provider@, 14),
            right_text(count_text(direct.total_tokens), 14),
            right_text(count_text(reported.total_tokens), 14),
            right_text(count_text(known.total_tokens), 14),
            right_text(cost_text(direct.estimated_cost_usd), 12),
            right_text(cost_text(reported.estimated_cost_usd), 12),
            right_text(cost_text(known.estimated_cost_usd), 12),
        ]);
    }
    table_line(&cells)
}

/// What is known of each provider: direct and reported usage, and both together.
pub open spec fn known_table(r: UsageReport) -> Seq<Seq<char>> {
    seq![
        "known gross totals by provider (direct + reported/manual, no overlap deduction):"@,
        header_line(
            seq![("provider"@, 14)],
            seq![
                ("direct"@, 14),
                ("reported"@, 14),
                ("known_gross"@, 14),
                ("direct_cost"@, 12),
                ("reported_cost"@, 12),
                ("known_cost"@, 12),
            ],
        ),
    ] + report_providers(r).map_values(
        |p: Seq<char>| known_line(p, direct_of(r.rows@, p), reported_of(r.summary_rows@, p)),
    )
}

pub fn known_usage_lines(report: &UsageReport) -> (r: Vec<String>)
    ensures
        texts(r@) == known_table(*report),
{
    let mut lines = no_lines();
    push_line(
        &mut lines,
        "known gross totals by provider (direct + reported/manual, no overlap deduction):".to_owned(),
    );
    let lefts: [(&str, usize); 1] = [("provider", 14)];
    let rights: [(&str, usize); 6] = [
        ("direct", 14),
        ("reported", 14),
        ("known_gross", 14),
        ("direct_cost", 12),
        ("reported_cost", 12),
        ("known_cost", 12),
    ];
    proof {
        assert(columns(lefts@) =~= seq![("provider"@, 14)]);
        assert(columns(rights@) =~= seq![
            ("direct"@, 14),
            ("reported"@, 14),
            ("known_gross"@, 14),
            ("direct_cost"@, 12),
            ("reported_cost"@, 12),
            ("known_cost"@, 12),
        ]);
    }
    push_line(&mut lines, make_header_line(&lefts, &rights));
    let providers = providers_of(report);
    let ghost r = *report;
    let ghost head = texts(lines@);
    let ghost body = report_providers(r).map_values(
        |p: Seq<char>| known_line(p, direct_of(r.rows@, p), reported_of(r.summary_rows@, p)),
    );
    let mut i: usize = 0;
    proof {
        assert(head + body.take(0) =~= head);
    }
    while i < providers.len()
        invariant
            r == *report,
            texts(providers@) == report_providers(r),
            body == report_providers(r).map_values(
                |p: Seq<char>| known_line(p, direct_of(r.rows@, p), reported_of(r.summary_rows@, p)),
            ),
            i <= providers.len(),
            texts(lines@) == head + body.take(i as int),
        decreases providers.len() - i,
    {
        let direct = direct_totals(&report.rows, providers[i].as_str());
        let reported = reported_totals(&report.summary_rows, providers[i].as_str());
        push_line(&mut lines, make_known_line(providers[i].as_str(), &direct, &reported));
        proof {
            assert(report_providers(r)[i as int] == texts(providers@)[i as int]);
            assert(texts(providers@).len() == providers@.len());
        }
        i = i + 1;
        proof {
            assert(texts(lines@) =~= head + body.take(i as int));
        }
    }
    proof {
        assert(texts(providers@).len() == providers@.len());
        assert(body.take(i as int) =~= body);
        assert(texts(lines@) =~= known_table(*report));
    }
    lines
}

/// Whether a report's instants are of the time line and its rows' sums can be
/// held.
pub open spec fn printable(r: UsageReport) -> bool {
    &&& opt_wf(r.since)
    &&& r.until.wf()
    &&& subscription_rows_wf(r.subscription_rows@)
    &&& summary_rows_wf(r.summary_rows@)
    &&& count_sum(r.summary_rows@) <= u64::MAX
    &&& direct_sum(r.summary_rows@) <= u64::MAX
}

/// A whole report as tables.
pub open spec fn report_table(
    r: UsageReport,
    verbose: bool,
    include_subscriptions: bool,
) -> Seq<Seq<char>> {
    report_head(r) + rows_lines(r.rows@, verbose) + seq![
        usage_line("total"@, ""@, r.total_events, r.total_usage),
    ] + (if include_subscriptions {
        subscription_table(r.subscription_rows@, verbose)
    } else {
        Seq::empty()
    }) + (if r.summary_rows@.len() == 0 {
        Seq::empty()
    } else {
        summary_table(r.summary_rows@, r.total_summary_usage, verbose) + known_table(r)
    })
}

/// The report as lines of text.
pub fn report_table_lines(
    report: &UsageReport,
    verbose: bool,
    with_subscriptions: bool,
) -> (r: Vec<String>)
    requires
        printable(*report),
    ensures
        texts(r@) == report_table(*report, verbose, with_subscriptions),
{
    let mut lines = make_report_head(report);
    let ghost e = Seq::<Seq<char>>::empty();
    push_lines(&mut lines, make_rows_lines(&report.rows, verbose));
    let total = make_usage_line("total", "", report.total_events, &report.total_usage);
    push_line(&mut lines, total);
    let ghost start = report_head(*report) + rows_lines(report.rows@, verbose) + seq![
        usage_line("total"@, ""@, report.total_events, report.total_usage),
    ];
    proof {
        assert(texts(lines@) =~= start);
        assert(start + e =~= start);
    }
    if with_subscriptions {
        push_lines(
            &mut lines,
            subscription_report_lines(&report.subscription_rows, verbose),
        );
    }
    let ghost middle = texts(lines@);
    proof {
        assert(middle + e =~= middle);
    }
    if report.summary_rows.len() > 0 {
        push_lines(
            &mut lines,
            make_summary_table(&report.summary_rows, &report.total_summary_usage, verbose),
        );
        push_lines(&mut lines, known_usage_lines(report));
        proof {
            assert(texts(lines@) =~= middle + (summary_table(
                report.summary_rows@,
                report.total_summary_usage,
                verbose,
            ) + known_table(*report)));
        }
    }
    lines
}

/// Everything known of a report's period: direct and reported usage together.
pub fn known_usage(report: &UsageReport) -> (r: UsageTotals)
    ensures
        r == report.total_usage.plus_totals(report.total_summary_usage),
{
    let mut known = report.total_usage;
    known.add_totals(&report.total_summary_usage);
    known
}

/// The lines that tell what a store holds.
pub fn status_report_lines(events: u64, tokens: u64, summaries: u64) -> (r: Vec<String>)
    ensures
        texts(r@) == seq![
            "stored all-time events: "@ + decimal(events as nat),
            "stored all-time tokens: "@ + decimal(tokens as nat),
            "stored usage summaries: "@ + decimal(summaries as nat),
        ],
{
    let mut lines = no_lines();
    let n = decimal_text(events);
    push_line(&mut lines, concat2("stored all-time events: ", n.as_str()));
    let n = decimal_text(tokens);
    push_line(&mut lines, concat2("stored all-time tokens: ", n.as_str()));
    let n = decimal_text(summaries);
    push_line(&mut lines, concat2("stored usage summaries: ", n.as_str()));
    proof {
        assert(texts(lines@) =~= seq![
            "stored all-time events: "@ + decimal(events as nat),
            "stored all-time tokens: "@ + decimal(tokens as nat),
            "stored usage summaries: "@ + decimal(summaries as nat),
        ]);
    }
    lines
}

} // verus!
