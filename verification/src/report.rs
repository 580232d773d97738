//! The words in which a run is reported: counts with thousands separators,
//! elapsed time, summary lines, and the lines of the error log.

use crate::audit::VerifyReport;
use crate::conclusion::Conclusion;
use crate::text::{decimal, digit_char, push_decimal};
use vstd::prelude::*;
use vstd::string::StringExecFns;

verus! {

/// The numeral of `n` in exactly three digits, for `n` below one thousand.
pub open spec fn three_digits(n: nat) -> Seq<char> {
    seq![digit_char(n / 100), digit_char(n / 10 % 10), digit_char(n % 10)]
}

/// The decimal numeral of `n` with a comma before every group of three
/// digits, counted from the right: `1,234,567`.
pub open spec fn grouped(n: nat) -> Seq<char>
    decreases n,
{
    if n < 1000 {
        decimal(n)
    } else {
        grouped(n / 1000) + ","@ + three_digits(n % 1000)
    }
}

/// Writes a count with thousands separators.
///
/// Trusted: the body is the `Display` form of `indicatif::HumanCount`. The
/// crate writes the decimal digits of the number from the left and puts a
/// comma after each digit that has a positive multiple of three digits to its
/// right; [`grouped`] says the same.
#[verifier::external_body]
pub(crate) fn human_count(n: u64) -> (text: String)
    ensures
        text@ == grouped(n as nat),
{
    indicatif::HumanCount(n).to_string()
}

/// A text in which every occurrence of a pattern has given way to a
/// replacement, as `str::replace` of the standard library computes it.
pub uninterp spec fn replaced(text: Seq<char>, pattern: Seq<char>, with: Seq<char>) -> Seq<char>;

/// Replaces every occurrence of `pattern` in `text` by `with`.
///
/// Trusted: the body is `str::replace` of the standard library, whose result
/// depends on the three texts alone. The contract gives it its name,
/// [`replaced`], and claims nothing else of it.
#[verifier::external_body]
pub(crate) fn replace_all(text: &str, pattern: &str, with: &str) -> (out: String)
    ensures
        out@ == replaced(text@, pattern@, with@),
{
    text.replace(pattern, with)
}

/// A line of the error list as it goes into the error log: without the note
/// that the file or directory is skipped.
pub open spec fn logged(line: Seq<char>) -> Seq<char> {
    replaced(line, " Skipping"@, ""@)
}

/// Turns a line of the error list into the line that goes into the error log.
pub fn log_line(line: &str) -> (out: String)
    ensures
        out@ == logged(line@),
{
    replace_all(line, " Skipping", "")
}

/// The lines of the error log for a run, one per entry of the error list, in
/// order.
pub fn log_lines(conclusion: &Conclusion) -> (lines: Vec<String>)
    ensures
        lines@.len() == conclusion.error_list@.len(),
        forall|i: int|
            0 <= i < lines@.len() ==> (#[trigger] lines@[i])@ == logged(conclusion.error_list@[i]@),
{
    let mut lines: Vec<String> = Vec::new();
    let mut i: usize = 0;
    while i < conclusion.error_list.len()
        invariant
            i <= conclusion.error_list@.len(),
            lines@.len() == i,
            forall|j: int|
                0 <= j < i ==> (#[trigger] lines@[j])@ == logged(conclusion.error_list@[j]@),
        decreases conclusion.error_list@.len() - i,
    {
        lines.push(log_line(conclusion.error_list[i].as_str()));
        i += 1;
    }
    lines
}

/// How long something took, in the unit that suits it.
#[derive(Clone, Copy, Debug, PartialEq, Eq, Structural)]
pub enum Elapsed {
    /// At least an hour: whole hours, and the minutes beyond them.
    Hours { hours: u64, minutes: u64 },
    /// At least a minute: whole minutes, and the seconds beyond them.
    Minutes { minutes: u64, seconds: u64 },
    /// Less than a minute: the milliseconds.
    Seconds { millis: u64 },
}

/// The unit breakdown of a duration of `millis` milliseconds.
pub open spec fn elapsed_of(millis: u64) -> Elapsed {
    let seconds = millis / 1000;
    let minutes = seconds / 60;
    let hours = minutes / 60;
    if hours != 0 {
        Elapsed::Hours { hours, minutes: minutes % 60 }
    } else if minutes != 0 {
        Elapsed::Minutes { minutes, seconds: seconds % 60 }
    } else {
        Elapsed::Seconds { millis }
    }
}

/// Breaks a duration in milliseconds down into the unit that suits it.
pub fn elapsed(millis: u64) -> (parts: Elapsed)
    ensures
        parts == elapsed_of(millis),
{
    let seconds = millis / 1000;
    let minutes = seconds / 60;
    let hours = minutes / 60;
    if hours != 0 {
        Elapsed::Hours { hours, minutes: minutes % 60 }
    } else if minutes != 0 {
        Elapsed::Minutes { minutes, seconds: seconds % 60 }
    } else {
        Elapsed::Seconds { millis }
    }
}

/// How a duration of at least a minute reads.
pub open spec fn elapsed_words(parts: Elapsed) -> Seq<char> {
    match parts {
        Elapsed::Hours { hours, minutes } => decimal(hours as nat) + " Hours "@ + decimal(
            minutes as nat,
        ),
        Elapsed::Minutes { minutes, seconds } => decimal(minutes as nat) + " Minutes "@ + decimal(
            seconds as nat,
        ) + " Seconds"@,
        Elapsed::Seconds { millis } => Seq::empty(),
    }
}

/// Writes a duration of at least a minute in words. A shorter one is written
/// by the caller, with the precision of its clock; for it the answer is
/// `None`.
pub fn elapsed_text(parts: Elapsed) -> (text: Option<String>)
    ensures
        parts is Seconds <==> text is None,
        text matches Some(words) ==> words@ == elapsed_words(parts),
{
    match parts {
        Elapsed::Hours { hours, minutes } => {
            let mut words = String::new();
            push_decimal(&mut words, hours);
            words.append(" Hours ");
            push_decimal(&mut words, minutes);
            Some(words)
        },
        Elapsed::Minutes { minutes, seconds } => {
            let mut words = String::new();
            push_decimal(&mut words, minutes);
            words.append(" Minutes ");
            push_decimal(&mut words, seconds);
            words.append(" Seconds");
            Some(words)
        },
        Elapsed::Seconds { millis } => None,
    }
}

/// How many files a run copied: one for each pair of its path list.
pub fn copied_count(conclusion: &Conclusion) -> (count: usize)
    ensures
        count == conclusion@.paths.len(),
{
    conclusion.path_list.len()
}

/// What a run reports once it is over, after the word that says what was
/// done: how many files were copied, their size, the time it took, and how
/// many failures there were.
pub open spec fn run_summary(conclusion: &Conclusion, took: Seq<char>) -> Seq<char> {
    decimal(conclusion@.paths.len()) + " files ("@ + conclusion.total_size.text() + ") in "@ + took
        + " ("@ + decimal(conclusion.error_list@.len()) + " errors)"@
}

/// Writes the summary of a run; `took` is the elapsed time in words.
pub fn copy_summary(conclusion: &Conclusion, took: &str) -> (text: String)
    ensures
        text@ == run_summary(conclusion, took@),
{
    let mut text = String::new();
    push_decimal(&mut text, conclusion.path_list.len() as u64);
    text.append(" files (");
    text.append(conclusion.total_size.to_string().as_str());
    text.append(") in ");
    text.append(took);
    text.append(" (");
    push_decimal(&mut text, conclusion.error_list.len() as u64);
    text.append(" errors)");
    text
}

/// What an audit reports once it is over, after the word that says what was
/// done: how many files were verified out of how many, how many were copied,
/// and how many failures there were.
pub open spec fn audit_summary(verified: nat, seen: nat, copied: nat, failures: nat) -> Seq<char> {
    grouped(verified) + " out of "@ + grouped(seen) + " files. Copied "@ + grouped(copied)
        + " files. ("@ + grouped(failures) + " errors occured)"@
}

/// Writes the summary of an audit.
pub fn verify_summary(report: &VerifyReport) -> (text: String)
    ensures
        text@ == audit_summary(
            report.verified as nat,
            report.seen as nat,
            report.copied as nat,
            report.errors@.len(),
        ),
{
    let mut text = human_count(report.verified as u64);
    text.append(" out of ");
    text.append(human_count(report.seen as u64).as_str());
    text.append(" files. Copied ");
    text.append(human_count(report.copied as u64).as_str());
    text.append(" files. (");
    text.append(human_count(report.errors.len() as u64).as_str());
    text.append(" errors occured)");
    text
}

} // verus!
