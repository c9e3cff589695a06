//! Decoding the daemon's report: the text that its list command prints.
//!
//! The report is a table. Its first line is a header, each following line
//! describes one transfer in nine fields, and a line that begins with
//! `Sum:` closes the table. Fields are aligned with runs of spaces, and a
//! field may hold single spaces, so only two spaces in a row part fields.

use crate::bytes::{spec_from_str, Bytes, Quantity};
use crate::entry::{status_of, Status};
use crate::error::Error;
use crate::text::{
    all_digits, chars_of, digits_to_u64, digits_value, equals_str, find_char, index_of,
    is_all_digits, starts_with_str, trim, trim_bounds,
};
use vstd::prelude::*;
use vstd::slice::slice_subrange;
use vstd::string::StrSliceExecFns;

verus! {

/// The number of fields in a line that describes a transfer.
pub const FIELD_COUNT: usize = 9;

/// The index of the first two spaces in a row in `s`, or `s.len()` if
/// there are none.
pub open spec fn gap_index(s: Seq<char>) -> nat
    decreases s.len(),
{
    if s.len() < 2 {
        s.len()
    } else if s[0] == ' ' && s[1] == ' ' {
        0
    } else {
        1 + gap_index(s.drop_first())
    }
}

/// The fields of a line: the line is cut at each pair of spaces, going
/// from the left, each piece is trimmed, and empty pieces are dropped.
pub open spec fn fields(line: Seq<char>) -> Seq<Seq<char>>
    decreases line.len(),
{
    let gap = gap_index(line);
    let field = trim(line.take(gap as int));
    let first = if field.len() > 0 {
        seq![field]
    } else {
        Seq::empty()
    };
    if gap + 2 <= line.len() {
        first + fields(line.skip(gap as int + 2))
    } else {
        first
    }
}

/// The lines of a text: the pieces between line feeds. A text that ends in
/// a line feed has no empty last line. A carriage return before a line feed
/// stays in its line; it is white space, so it is part of no field.
pub open spec fn lines(text: Seq<char>) -> Seq<Seq<char>>
    decreases text.len(),
{
    if text.len() == 0 {
        Seq::empty()
    } else {
        let end = index_of(text, '\n');
        if end < text.len() {
            seq![text.take(end as int)] + lines(text.skip(end as int + 1))
        } else {
            seq![text]
        }
    }
}

/// The identifier that a field writes: decimal digits after an optional
/// plus sign, no larger than a `u64` can hold.
pub open spec fn id_of(field: Seq<char>) -> Option<u64> {
    let digits = if field.len() > 0 && field[0] == '+' {
        field.drop_first()
    } else {
        field
    };
    if digits.len() > 0 && all_digits(digits) && digits_value(digits) <= u64::MAX {
        Some(digits_value(digits) as u64)
    } else {
        None
    }
}

/// The percentage that a field reports; `n/a` counts as `0%`.
pub open spec fn percentage_of(field: Seq<char>) -> Seq<char> {
    if field == "n/a"@ {
        "0%"@
    } else {
        field
    }
}

/// The quantity that a field reports as downloaded; `None` counts as no bytes.
pub open spec fn downloaded_of(field: Seq<char>) -> Result<Quantity, Error> {
    if field == "None"@ {
        Ok(Quantity { mantissa: 0, scale: 0 })
    } else {
        spec_from_str(field)
    }
}

/// The mathematical value of a [`ReportLine`].
pub struct LineView {
    pub id: u64,
    pub percentage: Seq<char>,
    pub downloaded: Quantity,
    pub status: Status,
    pub name: Seq<char>,
}

/// What one line of the table says of a transfer.
#[derive(Clone, Debug, PartialEq)]
pub struct ReportLine {
    /// The identifier that the daemon gave the transfer.
    pub id: u64,
    /// How much of the transfer is done, as the daemon writes it: `45%`.
    pub percentage: String,
    /// How much has been downloaded.
    pub downloaded: Bytes,
    /// The state of the transfer.
    pub status: Status,
    /// The name of the transfer.
    pub name: String,
}

impl View for ReportLine {
    type V = LineView;

    open spec fn view(&self) -> LineView {
        LineView {
            id: self.id,
            percentage: self.percentage@,
            downloaded: self.downloaded@,
            status: self.status,
            name: self.name@,
        }
    }
}

/// What a line of the table says. The line must have nine fields, of which
/// the first is the identifier, the second the percentage, the third the
/// quantity downloaded, the eighth the status and the ninth the name. The
/// checks are made in that order, and the first that fails gives the error.
pub open spec fn decode_line(line: Seq<char>) -> Result<LineView, Error> {
    let f = fields(line);
    if f.len() != FIELD_COUNT {
        Err(Error::InvalidEntryFormat)
    } else {
        match (id_of(f[0]), downloaded_of(f[2]), status_of(f[7])) {
            (None, _, _) => Err(Error::InvalidEntryFormat),
            (Some(_), Err(e), _) => Err(e),
            (Some(_), Ok(_), None) => Err(Error::InvalidEntryFormat),
            (Some(id), Ok(downloaded), Some(status)) => Ok(
                LineView { id, percentage: percentage_of(f[1]), downloaded, status, name: f[8] },
            ),
        }
    }
}

/// Whether a line closes the table: after trimming, it begins with `Sum:`.
pub open spec fn is_summary(line: Seq<char>) -> bool {
    "Sum:"@.is_prefix_of(trim(line))
}

/// What the lines below the header say: each line up to the first summary
/// line is decoded, and the first line that cannot be decoded gives the
/// error. Nothing after a summary line is read.
pub open spec fn decode_body(body: Seq<Seq<char>>) -> Result<Seq<LineView>, Error>
    decreases body.len(),
{
    if body.len() == 0 || is_summary(body[0]) {
        Ok(Seq::empty())
    } else {
        match decode_line(body[0]) {
            Err(e) => Err(e),
            Ok(line) => match decode_body(body.drop_first()) {
                Err(e) => Err(e),
                Ok(rest) => Ok(seq![line] + rest),
            },
        }
    }
}

/// What a report says: its first line is skipped, the others are decoded.
pub open spec fn decode_report(text: Seq<char>) -> Result<Seq<LineView>, Error> {
    if lines(text).len() == 0 {
        Ok(Seq::empty())
    } else {
        decode_body(lines(text).drop_first())
    }
}

/// The values of a sequence of lines.
pub open spec fn line_views(lines: Seq<ReportLine>) -> Seq<LineView> {
    lines.map_values(|line: ReportLine| line@)
}

/// The pieces of `text` that the spans `spans` mark.
pub open spec fn span_texts(text: Seq<char>, spans: Seq<(usize, usize)>) -> Seq<Seq<char>> {
    Seq::new(spans.len(), |i: int| text.subrange(spans[i].0 as int, spans[i].1 as int))
}

/// Whether each of `spans` lies within a text of length `len`.
pub open spec fn spans_within(spans: Seq<(usize, usize)>, len: nat) -> bool {
    forall|i: int| 0 <= i < spans.len() ==> (#[trigger] spans[i]).0 <= spans[i].1 <= len
}

/// The lines of the table that are read before line `k` is reached are
/// decoded; if line `k` cannot be decoded, neither can the body.
proof fn lemma_decode_body_fails(body: Seq<Seq<char>>, k: int)
    requires
        0 <= k < body.len(),
        forall|j: int| 0 <= j <= k ==> !is_summary(#[trigger] body[j]),
        decode_line(body[k]) is Err,
    ensures
        decode_body(body) is Err,
        (forall|j: int| 0 <= j < k ==> decode_line(#[trigger] body[j]) is Ok) ==> decode_body(body)
            == Err::<Seq<LineView>, Error>(decode_line(body[k])->Err_0),
    decreases k,
{
    if k > 0 {
        let rest = body.drop_first();
        assert forall|j: int| 0 <= j <= k - 1 implies !is_summary(#[trigger] rest[j]) by {
            assert(rest[j] == body[j + 1]);
        }
        assert(rest[k - 1] == body[k]);
        lemma_decode_body_fails(rest, k - 1);
        if forall|j: int| 0 <= j < k ==> decode_line(#[trigger] body[j]) is Ok {
            assert forall|j: int| 0 <= j < k - 1 implies decode_line(#[trigger] rest[j]) is Ok by {
                assert(rest[j] == body[j + 1]);
            }
            assert(decode_line(body[0]) is Ok);
        }
    }
}

/// A line of the table that has not nine fields has the whole report
/// rejected: if line `k` of the text lies below the header, no summary
/// line stands before it and it is none itself, and it has more or fewer
/// than nine fields, the report cannot be decoded. Where the lines before
/// it can be decoded, the error is that of an unrecognized entry.
pub proof fn wrong_field_count_rejects_report(text: Seq<char>, k: int)
    requires
        1 <= k < lines(text).len(),
        forall|j: int| 1 <= j <= k ==> !is_summary(#[trigger] lines(text)[j]),
        fields(lines(text)[k]).len() != FIELD_COUNT,
    ensures
        decode_report(text) is Err,
        (forall|j: int| 1 <= j < k ==> decode_line(#[trigger] lines(text)[j]) is Ok)
            ==> decode_report(text) == Err::<Seq<LineView>, Error>(Error::InvalidEntryFormat),
{
    let all = lines(text);
    let body = all.drop_first();
    assert forall|j: int| 0 <= j <= k - 1 implies !is_summary(#[trigger] body[j]) by {
        assert(body[j] == all[j + 1]);
    }
    assert(body[k - 1] == all[k]);
    lemma_decode_body_fails(body, k - 1);
    if forall|j: int| 1 <= j < k ==> decode_line(#[trigger] all[j]) is Ok {
        assert forall|j: int| 0 <= j < k - 1 implies decode_line(#[trigger] body[j]) is Ok by {
            assert(body[j] == all[j + 1]);
        }
    }
}

/// A report of a header and one line of the table, with nothing or a
/// summary line after it, says what that line says.
pub proof fn single_line_report(text: Seq<char>, line: LineView)
    requires
        lines(text).len() >= 2,
        !is_summary(lines(text)[1]),
        decode_line(lines(text)[1]) == Ok::<LineView, Error>(line),
        lines(text).len() == 2 || is_summary(lines(text)[2]),
    ensures
        decode_report(text) == Ok::<Seq<LineView>, Error>(seq![line]),
{
    let all = lines(text);
    let body = all.drop_first();
    let rest = body.drop_first();
    assert(body[0] == all[1]);
    if all.len() > 2 {
        assert(rest[0] == all[2]);
    }
    assert(decode_body(rest) == Ok::<Seq<LineView>, Error>(Seq::empty()));
    assert(seq![line] + Seq::<LineView>::empty() =~= seq![line]);
}

/// The first index at or after `from` where two spaces stand in a row, or
/// the length of `s`.
fn find_gap(s: &[char], from: usize) -> (at: usize)
    requires
        from <= s@.len(),
    ensures
        from <= at <= s@.len(),
        at - from == gap_index(s@.skip(from as int)),
        at < s@.len() ==> at + 2 <= s@.len(),
{
    let mut at: usize = from;
    while s.len() - at >= 2 && !(s[at] == ' ' && s[at + 1] == ' ')
        invariant
            from <= at <= s@.len(),
            gap_index(s@.skip(from as int)) == (at - from) + gap_index(s@.skip(at as int)),
        decreases s@.len() - at,
    {
        assert(s@.skip(at as int).drop_first() =~= s@.skip(at + 1));
        at += 1;
    }
    if s.len() - at >= 2 {
        at
    } else {
        s.len()
    }
}

/// The spans of the fields of `line`.
pub fn split_fields(line: &[char]) -> (spans: Vec<(usize, usize)>)
    ensures
        spans_within(spans@, line@.len()),
        span_texts(line@, spans@) == fields(line@),
{
    let mut spans: Vec<(usize, usize)> = Vec::new();
    let mut pos: usize = 0;
    let mut done: bool = false;
    proof {
        assert(line@.skip(0) =~= line@);
        assert(span_texts(line@, spans@) =~= Seq::<Seq<char>>::empty());
        assert(Seq::<Seq<char>>::empty() + fields(line@) =~= fields(line@));
    }
    while !done
        invariant
            pos <= line@.len(),
            spans_within(spans@, line@.len()),
            done ==> span_texts(line@, spans@) == fields(line@),
            !done ==> span_texts(line@, spans@) + fields(line@.skip(pos as int)) == fields(line@),
        decreases line@.len() - pos + (if done { 0int } else { 1int }),
    {
        let gap = find_gap(line, pos);
        let piece = slice_subrange(line, pos, gap);
        let (lo, hi) = trim_bounds(piece);
        let ghost rest = line@.skip(pos as int);
        let ghost before = span_texts(line@, spans@);
        proof {
            assert(piece@ =~= rest.take(gap_index(rest) as int));
            assert(piece@.subrange(lo as int, hi as int) =~= line@.subrange(pos + lo, pos + hi));
        }
        if lo < hi {
            spans.push((pos + lo, pos + hi));
            proof {
                assert(span_texts(line@, spans@) =~= before + seq![trim(piece@)]);
            }
        }
        if line.len() - gap >= 2 {
            proof {
                assert(rest.skip(gap_index(rest) as int + 2) =~= line@.skip(gap + 2));
                let first = if trim(piece@).len() > 0 {
                    seq![trim(piece@)]
                } else {
                    Seq::empty()
                };
                assert(fields(rest) == first + fields(line@.skip(gap + 2)));
                assert(span_texts(line@, spans@) =~= before + first);
                assert((before + first) + fields(line@.skip(gap + 2)) =~= before + (first + fields(
                    line@.skip(gap + 2),
                )));
            }
            pos = gap + 2;
        } else {
            proof {
                let first = if trim(piece@).len() > 0 {
                    seq![trim(piece@)]
                } else {
                    Seq::empty()
                };
                assert(fields(rest) == first);
                assert(span_texts(line@, spans@) =~= before + first);
            }
            done = true;
        }
    }
    spans
}

/// The spans of the lines of `text`.
pub fn split_lines(text: &[char]) -> (spans: Vec<(usize, usize)>)
    ensures
        spans_within(spans@, text@.len()),
        span_texts(text@, spans@) == lines(text@),
{
    let mut spans: Vec<(usize, usize)> = Vec::new();
    let mut pos: usize = 0;
    proof {
        assert(text@.skip(0) =~= text@);
        assert(span_texts(text@, spans@) =~= Seq::<Seq<char>>::empty());
        assert(Seq::<Seq<char>>::empty() + lines(text@) =~= lines(text@));
    }
    while pos < text.len()
        invariant
            pos <= text@.len(),
            spans_within(spans@, text@.len()),
            span_texts(text@, spans@) + lines(text@.skip(pos as int)) == lines(text@),
        decreases text@.len() - pos,
    {
        let end = find_char(text, pos, '\n');
        let ghost rest = text@.skip(pos as int);
        let ghost before = span_texts(text@, spans@);
        spans.push((pos, end));
        proof {
            assert(rest.take(index_of(rest, '\n') as int) =~= text@.subrange(pos as int, end as int));
            assert(span_texts(text@, spans@) =~= before + seq![
                text@.subrange(pos as int, end as int),
            ]);
        }
        if end < text.len() {
            proof {
                assert(rest.skip(index_of(rest, '\n') as int + 1) =~= text@.skip(end + 1));
                assert((before + seq![text@.subrange(pos as int, end as int)]) + lines(
                    text@.skip(end + 1),
                ) =~= before + (seq![text@.subrange(pos as int, end as int)] + lines(
                    text@.skip(end + 1),
                )));
            }
            pos = end + 1;
        } else {
            proof {
                assert(rest =~= text@.subrange(pos as int, end as int));
                assert(text@.skip(end as int) =~= Seq::<char>::empty());
                assert(span_texts(text@, spans@) + Seq::<Seq<char>>::empty() =~= span_texts(
                    text@,
                    spans@,
                ));
            }
            pos = end;
        }
    }
    proof {
        assert(lines(text@.skip(pos as int)) =~= Seq::<Seq<char>>::empty());
        assert(span_texts(text@, spans@) + Seq::<Seq<char>>::empty() =~= span_texts(text@, spans@));
    }
    spans
}

/// Reads an identifier.
pub fn parse_id(field: &[char]) -> (id: Option<u64>)
    ensures
        id == id_of(field@),
{
    let start: usize = if field.len() > 0 && field[0] == '+' {
        1
    } else {
        0
    };
    let digits = slice_subrange(field, start, field.len());
    proof {
        if start == 1 {
            assert(digits@ =~= field@.drop_first());
        } else {
            assert(digits@ =~= field@);
        }
    }
    if digits.len() == 0 || !is_all_digits(digits) {
        return None;
    }
    digits_to_u64(digits)
}

/// Whether the line with the characters `chars` closes the table.
fn closes_table(chars: &[char]) -> (b: bool)
    ensures
        b == is_summary(chars@),
{
    let (lo, hi) = trim_bounds(chars);
    starts_with_str(slice_subrange(chars, lo, hi), "Sum:")
}

/// Decodes the line `line`, whose characters are `chars`.
fn read_line(line: &str, chars: &[char]) -> (res: Result<ReportLine, Error>)
    requires
        chars@ == line@,
    ensures
        match res {
            Ok(l) => decode_line(line@) == Ok::<LineView, Error>(l@),
            Err(e) => decode_line(line@) == Err::<LineView, Error>(e),
        },
{
    let spans = split_fields(chars);
    if spans.len() != FIELD_COUNT {
        return Err(Error::InvalidEntryFormat);
    }
    let ghost f = fields(line@);
    proof {
        assert(forall|i: int|
            0 <= i < 9 ==> f[i] == line@.subrange(spans@[i].0 as int, spans@[i].1 as int));
    }
    let id = match parse_id(slice_subrange(chars, spans[0].0, spans[0].1)) {
        Some(id) => id,
        None => {
            return Err(Error::InvalidEntryFormat);
        },
    };
    let quantity = slice_subrange(chars, spans[2].0, spans[2].1);
    let downloaded = if equals_str(quantity, "None") {
        Bytes::zero()
    } else {
        match Bytes::from_chars(quantity) {
            Ok(bytes) => bytes,
            Err(e) => {
                return Err(e);
            },
        }
    };
    let status = match Status::from_chars(slice_subrange(chars, spans[7].0, spans[7].1)) {
        Ok(status) => status,
        Err(e) => {
            return Err(e);
        },
    };
    let percentage = if equals_str(slice_subrange(chars, spans[1].0, spans[1].1), "n/a") {
        "0%".to_owned()
    } else {
        line.substring_char(spans[1].0, spans[1].1).to_owned()
    };
    let name = line.substring_char(spans[8].0, spans[8].1).to_owned();
    Ok(ReportLine { id, percentage, downloaded, status, name })
}

/// Decodes one line of the table.
pub fn parse_line(line: &str) -> (res: Result<ReportLine, Error>)
    ensures
        match res {
            Ok(l) => decode_line(line@) == Ok::<LineView, Error>(l@),
            Err(e) => decode_line(line@) == Err::<LineView, Error>(e),
        },
{
    let chars = chars_of(line);
    read_line(line, chars.as_slice())
}

/// Decodes a report. Either every line of the table is decoded, or the
/// report is rejected as a whole.
pub fn parse_report(text: &str) -> (res: Result<Vec<ReportLine>, Error>)
    ensures
        match res {
            Ok(table) => decode_report(text@) == Ok::<Seq<LineView>, Error>(line_views(table@)),
            Err(e) => decode_report(text@) == Err::<Seq<LineView>, Error>(e),
        },
{
    let chars = chars_of(text);
    let spans = split_lines(chars.as_slice());
    let mut table: Vec<ReportLine> = Vec::new();
    let ghost all = lines(text@);
    if spans.len() == 0 {
        proof {
            assert(line_views(table@) =~= Seq::<LineView>::empty());
        }
        return Ok(table);
    }
    let mut i: usize = 1;
    proof {
        assert(all.drop_first() =~= all.skip(1));
        assert(line_views(table@) =~= Seq::<LineView>::empty());
        match decode_body(all.skip(1)) {
            Ok(rest) => {
                assert(line_views(table@) + rest =~= rest);
            },
            Err(e) => {},
        }
    }
    while i < spans.len()
        invariant
            1 <= i <= spans@.len(),
            chars@ == text@,
            all == lines(text@),
            spans_within(spans@, text@.len()),
            span_texts(text@, spans@) == all,
            match decode_body(all.skip(i as int)) {
                Ok(rest) => decode_report(text@) == Ok::<Seq<LineView>, Error>(
                    line_views(table@) + rest,
                ),
                Err(e) => decode_report(text@) == Err::<Seq<LineView>, Error>(e),
            },
        decreases spans@.len() - i,
    {
        let (lo, hi) = spans[i];
        let line = text.substring_char(lo, hi);
        let line_chars = slice_subrange(chars.as_slice(), lo, hi);
        proof {
            assert(all[i as int] == text@.subrange(lo as int, hi as int));
            assert(all.skip(i as int)[0] == all[i as int]);
            assert(all.skip(i as int).drop_first() =~= all.skip(i + 1));
        }
        if closes_table(line_chars) {
            proof {
                assert(line_views(table@) + Seq::<LineView>::empty() =~= line_views(table@));
            }
            return Ok(table);
        }
        let ghost before = line_views(table@);
        match read_line(line, line_chars) {
            Ok(l) => {
                table.push(l);
                proof {
                    assert(line_views(table@) =~= before + seq![l@]);
                    match decode_body(all.skip(i + 1)) {
                        Ok(rest) => {
                            assert((before + seq![l@]) + rest =~= before + (seq![l@] + rest));
                        },
                        Err(e) => {},
                    }
                }
            },
            Err(e) => {
                return Err(e);
            },
        }
        i += 1;
    }
    proof {
        assert(all.skip(i as int) =~= Seq::<Seq<char>>::empty());
        assert(line_views(table@) + Seq::<LineView>::empty() =~= line_views(table@));
    }
    Ok(table)
}

} // verus!
