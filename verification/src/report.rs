//! The report of one calculation: when there is one, and how it reads.
use crate::format::{decimal, decimal_text};
use crate::tally::ZScoreResult;
use vstd::prelude::*;
use vstd::string::StringExecFns;

verus! {

/// The width of the windows of the rolling report.
pub const WINDOW_WIDTH: usize = 100;

/// The first position of the sub-range that is counted apart.
pub const SUB_START: usize = 100;

/// The end of the sub-range that is counted apart.
pub const SUB_END: usize = 300;

/// The places after the point that a percentage is written with.
pub const PERCENT_DIGITS: usize = 2;

/// The places after the point that a window's mean and deviation are written with.
pub const WINDOW_DIGITS: usize = 4;

/// What a calculation comes to before anything is computed.
#[derive(Clone, Copy, Debug, PartialEq, Eq)]
pub enum Verdict {
    /// The series is empty: there is nothing to do and nothing to show.
    NoOutput,
    /// The threshold could not be read: the user is told, nothing is computed.
    ThresholdError,
    /// The series has values and the threshold was read: compute the report.
    Compute,
}

/// The four percentages of a result, each as the text that the report shows.
#[derive(Clone, Debug, PartialEq, Eq)]
pub struct PercentTexts {
    pub plus_full: String,
    pub minus_full: String,
    pub plus_sub: String,
    pub minus_sub: String,
}

/// One window of the rolling report: the position it is reported under, and
/// its mean and standard deviation as the texts that the report shows.
#[derive(Clone, Debug, PartialEq, Eq)]
pub struct WindowRow {
    pub center: usize,
    pub mean: String,
    pub stddev: String,
}

/// An empty series ends the calculation in silence, whatever the threshold
/// is; with values at hand, a threshold that could not be read is an error.
pub open spec fn verdict_of(series_len: int, threshold_read: bool) -> Verdict {
    if series_len == 0 {
        Verdict::NoOutput
    } else if !threshold_read {
        Verdict::ThresholdError
    } else {
        Verdict::Compute
    }
}

/// Decides what a calculation comes to, from the length of the series and
/// from whether the threshold could be read.
pub fn triage(series_len: usize, threshold_read: bool) -> (v: Verdict)
    ensures
        v == verdict_of(series_len as int, threshold_read),
{
    if series_len == 0 {
        Verdict::NoOutput
    } else if !threshold_read {
        Verdict::ThresholdError
    } else {
        Verdict::Compute
    }
}

/// What the user is told when the threshold could not be read.
pub fn threshold_error_text() -> (r: &'static str)
    ensures
        r@ == "Z Threshold Error"@,
{
    "Z Threshold Error"
}

/// One line of the head of the report: a label, a value, and a line end.
pub open spec fn line_text(label: Seq<char>, value: Seq<char>) -> Seq<char> {
    label + value + seq!['\n']
}

/// The head of the report: the four counts, then the four percentages, each
/// under its label; `A` stands for the whole series, `B` for the sub-range.
pub open spec fn head_text(result: ZScoreResult, percents: PercentTexts) -> Seq<char> {
    line_text("\nZC + A:    \t"@, decimal_text(result.plus_count_full as nat))
        + line_text("\nZC - A:    \t"@, decimal_text(result.minus_count_full as nat))
        + line_text("\nZC + B:    \t"@, decimal_text(result.plus_count_sub as nat))
        + line_text("\nZC - B:    \t"@, decimal_text(result.minus_count_sub as nat))
        + line_text("\n\nZP + A:    \t"@, percents.plus_full@)
        + line_text("\nZP - A:    \t"@, percents.minus_full@)
        + line_text("\nZP + B:    \t"@, percents.plus_sub@)
        + line_text("\nZP - B:    \t"@, percents.minus_sub@)
}

/// The line of one window: on a line of its own, the position, the mean and
/// the deviation, with a comma between each two.
pub open spec fn row_text(row: WindowRow) -> Seq<char> {
    seq!['\n'] + decimal_text(row.center as nat) + seq![','] + row.mean@ + seq![','] + row.stddev@
}

/// The lines of the windows, in their order.
pub open spec fn rows_text(rows: Seq<WindowRow>) -> Seq<char>
    decreases rows.len(),
{
    if rows.len() == 0 {
        Seq::<char>::empty()
    } else {
        rows_text(rows.drop_last()) + row_text(rows.last())
    }
}

/// The whole report: the head, then one line for each window.
pub open spec fn report_text(
    result: ZScoreResult,
    percents: PercentTexts,
    rows: Seq<WindowRow>,
) -> Seq<char> {
    head_text(result, percents) + rows_text(rows)
}

/// Adds one line of the head to the report.
fn push_line(out: &mut String, label: &str, value: &str)
    ensures
        final(out)@ == old(out)@ + line_text(label@, value@),
{
    let ghost before = out@;
    out.append(label);
    out.append(value);
    out.push('\n');
    assert(out@ =~= before + line_text(label@, value@));
}

/// Adds the line of one window to the report.
fn push_row(out: &mut String, row: &WindowRow)
    ensures
        final(out)@ == old(out)@ + row_text(*row),
{
    let ghost before = out@;
    let center = decimal(row.center);
    out.push('\n');
    out.append(center.as_str());
    out.push(',');
    out.append(row.mean.as_str());
    out.push(',');
    out.append(row.stddev.as_str());
    assert(out@ =~= before + row_text(*row));
}

/// Writes the report: the eight labelled lines of the counts and the
/// percentages, then one line for each window, in the order given.
pub fn render_report(result: &ZScoreResult, percents: &PercentTexts, rows: &Vec<WindowRow>) -> (out:
    String)
    ensures
        out@ == report_text(*result, *percents, rows@),
{
    let mut out = String::new();
    push_line(&mut out, "\nZC + A:    \t", decimal(result.plus_count_full).as_str());
    push_line(&mut out, "\nZC - A:    \t", decimal(result.minus_count_full).as_str());
    push_line(&mut out, "\nZC + B:    \t", decimal(result.plus_count_sub).as_str());
    push_line(&mut out, "\nZC - B:    \t", decimal(result.minus_count_sub).as_str());
    push_line(&mut out, "\n\nZP + A:    \t", percents.plus_full.as_str());
    push_line(&mut out, "\nZP - A:    \t", percents.minus_full.as_str());
    push_line(&mut out, "\nZP + B:    \t", percents.plus_sub.as_str());
    push_line(&mut out, "\nZP - B:    \t", percents.minus_sub.as_str());
    assert(out@ =~= head_text(*result, *percents));
    let mut i: usize = 0;
    while i < rows.len()
        invariant
            i <= rows.len(),
            out@ == head_text(*result, *percents) + rows_text(rows@.take(i as int)),
        decreases rows.len() - i,
    {
        let ghost before = rows_text(rows@.take(i as int));
        push_row(&mut out, &rows[i]);
        proof {
            assert(rows@.take(i + 1).drop_last() =~= rows@.take(i as int));
            assert(out@ =~= head_text(*result, *percents) + (before + row_text(rows@[i as int])));
        }
        i += 1;
    }
    assert(rows@.take(rows.len() as int) =~= rows@);
    out
}

} // verus!
