//! The lines that the commands print.

use crate::confidence::ConfidenceLevel;
use crate::text::{decimal, decimal_string, pad_left, pad_left_string};
use vstd::prelude::*;

verus! {

/// The line that lists datum `id` with its comment.
pub open spec fn spec_list_line(id: usize, comment: Seq<char>) -> Seq<char> {
    pad_left(decimal(id as nat), 3) + ": "@ + comment
}

/// Writes the line that lists datum `id`; a datum without a comment is
/// listed with an empty one.
pub fn list_line(id: usize, comment: Option<&String>) -> (line: String)
    ensures
        line@ == spec_list_line(
            id,
            match comment {
                Some(text) => text@,
                None => Seq::empty(),
            },
        ),
{
    let mut line: String = pad_left_string(&decimal_string(id as u128), 3);
    line.append(": ");
    match comment {
        Some(text) => {
            line.append(text.as_str());
        },
        None => {
            assert(line@ + Seq::<char>::empty() =~= line@);
        },
    }
    line
}

/// The line that tells of a new datum.
pub open spec fn spec_created_line(id: usize, comment: Seq<char>) -> Seq<char> {
    "haste: created datum "@ + decimal(id as nat) + " "@ + comment
}

/// Writes the line that tells of the new datum `id`.
pub fn created_line(id: usize, comment: Option<&String>) -> (line: String)
    ensures
        line@ == spec_created_line(
            id,
            match comment {
                Some(text) => text@,
                None => Seq::empty(),
            },
        ),
{
    let mut line: String = "haste: created datum ".to_owned();
    line.append(decimal_string(id as u128).as_str());
    line.append(" ");
    match comment {
        Some(text) => {
            line.append(text.as_str());
        },
        None => {
            assert(line@ + Seq::<char>::empty() =~= line@);
        },
    }
    line
}

/// The title of the column of datum `id`.
pub open spec fn spec_datum_title(id: usize) -> Seq<char> {
    "Datum"@ + decimal(id as nat) + " (ms)"@
}

/// The titles of the five columns of a comparison of datums `id1` and `id2`.
pub open spec fn spec_header(id1: usize, id2: usize) -> Seq<Seq<char>> {
    seq!["Benchmark"@, spec_datum_title(id1), spec_datum_title(id2), "Ratio"@, "Summary"@]
}

fn datum_title(id: usize) -> (title: String)
    ensures
        title@ == spec_datum_title(id),
{
    let mut title: String = "Datum".to_owned();
    title.append(decimal_string(id as u128).as_str());
    title.append(" (ms)");
    title
}

/// Writes the titles of the columns of a comparison.
pub fn header(id1: usize, id2: usize) -> (titles: Vec<String>)
    ensures
        crate::text::views(titles@) == spec_header(id1, id2),
{
    let mut titles: Vec<String> = Vec::new();
    titles.push("Benchmark".to_owned());
    titles.push(datum_title(id1));
    titles.push(datum_title(id2));
    titles.push("Ratio".to_owned());
    titles.push("Summary".to_owned());
    assert(crate::text::views(titles@) =~= spec_header(id1, id2));
    titles
}

/// The line that shows the comment of datum `id` above a comparison.
pub open spec fn spec_comment_line(id: usize, comment: Option<Seq<char>>) -> Seq<char> {
    "Datum"@ + decimal(id as nat) + ": "@ + match comment {
        Some(text) => text,
        None => "(no comment)"@,
    }
}

/// The lines above a comparison that show the comments of its datums: none
/// where neither datum has a comment, else one for each datum.
pub open spec fn spec_comment_lines(
    id1: usize,
    comment1: Option<Seq<char>>,
    id2: usize,
    comment2: Option<Seq<char>>,
) -> Seq<Seq<char>> {
    if comment1 is Some || comment2 is Some {
        seq![spec_comment_line(id1, comment1), spec_comment_line(id2, comment2)]
    } else {
        Seq::empty()
    }
}

/// The view of a comment that may be missing.
pub open spec fn comment_view(comment: Option<&String>) -> Option<Seq<char>> {
    match comment {
        Some(text) => Some(text@),
        None => None,
    }
}

fn comment_line(id: usize, comment: Option<&String>) -> (line: String)
    ensures
        line@ == spec_comment_line(id, comment_view(comment)),
{
    let mut line: String = "Datum".to_owned();
    line.append(decimal_string(id as u128).as_str());
    line.append(": ");
    match comment {
        Some(text) => {
            line.append(text.as_str());
        },
        None => {
            line.append("(no comment)");
        },
    }
    line
}

/// Writes the lines above a comparison that show the comments of its datums.
pub fn comment_lines(
    id1: usize,
    comment1: Option<&String>,
    id2: usize,
    comment2: Option<&String>,
) -> (lines: Vec<String>)
    ensures
        crate::text::views(lines@) == spec_comment_lines(
            id1,
            comment_view(comment1),
            id2,
            comment_view(comment2),
        ),
{
    let mut lines: Vec<String> = Vec::new();
    if comment1.is_some() || comment2.is_some() {
        lines.push(comment_line(id1, comment1));
        lines.push(comment_line(id2, comment2));
    }
    assert(crate::text::views(lines@) =~= spec_comment_lines(
        id1,
        comment_view(comment1),
        id2,
        comment_view(comment2),
    ));
    lines
}

/// The line that names the confidence level of a comparison.
pub open spec fn spec_confidence_line(level: ConfidenceLevel) -> Seq<char> {
    "confidence level: "@ + decimal(level.spec_as_percent() as nat) + "%"@
}

/// Writes the line that names the confidence level of a comparison.
pub fn confidence_line(level: ConfidenceLevel) -> (line: String)
    ensures
        line@ == spec_confidence_line(level),
{
    let mut line: String = "confidence level: ".to_owned();
    line.append(decimal_string(level.as_percent() as u128).as_str());
    line.append("%");
    line
}

} // verus!
