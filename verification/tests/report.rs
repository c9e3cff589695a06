use distpac::bytes::Bytes;
use distpac::entry::Status;
use distpac::error::Error;
use distpac::report::{parse_id, parse_line, parse_report, split_fields, split_lines, ReportLine};
use distpac::text::{chars_of, is_whitespace, trim_bounds};

fn line(id: u64, percentage: &str, downloaded: Bytes, status: Status, name: &str) -> ReportLine {
    ReportLine {
        id,
        percentage: percentage.to_owned(),
        downloaded,
        status,
        name: name.to_owned(),
    }
}

fn fields_of(text: &str) -> Vec<String> {
    let chars = chars_of(text);
    split_fields(&chars)
        .into_iter()
        .map(|(lo, hi)| chars[lo..hi].iter().collect())
        .collect()
}

fn lines_of(text: &str) -> Vec<String> {
    let chars = chars_of(text);
    split_lines(&chars)
        .into_iter()
        .map(|(lo, hi)| chars[lo..hi].iter().collect())
        .collect()
}

#[test]
fn white_space_is_what_std_calls_white_space() {
    for code in 0..=0x11_0000u32 {
        if let Some(c) = char::from_u32(code) {
            assert_eq!(is_whitespace(c), c.is_whitespace(), "{:x}", code);
        }
    }
}

#[test]
fn trim_bounds_agree_with_std() {
    for text in ["", " ", "a", "  a b  ", "\t\r\n x \u{3000}", "\u{a0}\u{2003}", "no space"] {
        let chars = chars_of(text);
        let (lo, hi) = trim_bounds(&chars);
        let trimmed: String = chars[lo..hi].iter().collect();
        assert_eq!(trimmed, text.trim(), "{:?}", text);
    }
}

#[test]
fn fields_are_cut_at_two_spaces() {
    assert_eq!(fields_of("a  b"), ["a", "b"]);
    assert_eq!(fields_of("a b"), ["a b"]);
    assert_eq!(fields_of("a   b"), ["a", "b"]);
    assert_eq!(fields_of("a    b"), ["a", "b"]);
    assert_eq!(fields_of("   1   100%   786.8 MB  Done"), ["1", "100%", "786.8 MB", "Done"]);
    assert_eq!(fields_of("a \t b"), ["a \t b"]);
    assert_eq!(fields_of("a  \t  b\r"), ["a", "b"]);
    assert_eq!(fields_of("  "), Vec::<String>::new());
    assert_eq!(fields_of(""), Vec::<String>::new());
    assert_eq!(fields_of(" "), Vec::<String>::new());
    assert_eq!(fields_of("x"), ["x"]);
    assert_eq!(fields_of("x  "), ["x"]);
    assert_eq!(fields_of("x   "), ["x"]);
}

#[test]
fn fields_agree_with_split_trim_filter() {
    for text in [
        "ID     Done       Have  ETA           Up    Down  Ratio  Status       Name",
        "   1   100%   786.8 MB  Done         0.0     0.0    0.0  Seeding      archlinux-2021.04.01-x86_64.iso",
        "Sum:          786.8 MB               0.0     0.0",
        " a  b   c    d     e      f",
        "trailing   ",
        "\u{a0}  odd \u{2003} space  ",
    ] {
        let expected: Vec<&str> = text
            .split("  ")
            .map(|piece| piece.trim())
            .filter(|piece| !piece.is_empty())
            .collect();
        assert_eq!(fields_of(text), expected, "{:?}", text);
    }
}

#[test]
fn lines_are_cut_at_line_feeds() {
    assert_eq!(lines_of(""), Vec::<String>::new());
    assert_eq!(lines_of("a"), ["a"]);
    assert_eq!(lines_of("a\n"), ["a"]);
    assert_eq!(lines_of("a\nb"), ["a", "b"]);
    assert_eq!(lines_of("a\n\nb\n"), ["a", "", "b"]);
    assert_eq!(lines_of("\n"), [""]);
    assert_eq!(lines_of("\n\n"), ["", ""]);
}

#[test]
fn identifiers_are_decimal_numbers() {
    assert_eq!(parse_id(&chars_of("0")), Some(0));
    assert_eq!(parse_id(&chars_of("17")), Some(17));
    assert_eq!(parse_id(&chars_of("+17")), Some(17));
    assert_eq!(parse_id(&chars_of("007")), Some(7));
    assert_eq!(parse_id(&chars_of("18446744073709551615")), Some(u64::MAX));
    assert_eq!(parse_id(&chars_of("18446744073709551616")), None);
    assert_eq!(parse_id(&chars_of("")), None);
    assert_eq!(parse_id(&chars_of("+")), None);
    assert_eq!(parse_id(&chars_of("-1")), None);
    assert_eq!(parse_id(&chars_of("1*")), None);
    assert_eq!(parse_id(&chars_of("1.0")), None);
    assert_eq!(parse_id(&chars_of("٣")), None);
}

#[test]
fn a_line_gives_its_five_values() {
    let text = "   1   100%   786.8 MB  Done         0.0     0.0    0.0  Seeding      archlinux-2021.04.01-x86_64.iso";
    assert_eq!(
        parse_line(text),
        Ok(line(
            1,
            "100%",
            Bytes::from_whole(786_800_000),
            Status::Seeding,
            "archlinux-2021.04.01-x86_64.iso"
        ))
    );
}

#[test]
fn a_name_may_hold_single_spaces() {
    let text = "  12*   45%   1.20 GB  2 hrs  10.0  350.0  0.1  Downloading  Big Buck Bunny (2008).mkv";
    assert_eq!(parse_line(text), Err(Error::InvalidEntryFormat));
    let text = "  12   45%   1.20 GB  2 hrs  10.0  350.0  0.1  Downloading  Big Buck Bunny (2008).mkv";
    assert_eq!(
        parse_line(text),
        Ok(line(
            12,
            "45%",
            Bytes::from_whole(1_200_000_000),
            Status::Downloading,
            "Big Buck Bunny (2008).mkv"
        ))
    );
}

#[test]
fn not_applicable_and_none_are_normalised() {
    let text = "   3    n/a       None  Unknown      0.0     0.0   None  Queued       ubuntu.iso";
    assert_eq!(
        parse_line(text),
        Ok(line(3, "0%", Bytes::zero(), Status::Queued, "ubuntu.iso"))
    );
}

#[test]
fn a_line_without_nine_fields_is_rejected() {
    let eight = "1  100%  786.8 MB  Done  0.0  0.0  Seeding  name";
    let ten = "1  100%  786.8 MB  Done  0.0  0.0  0.0  0.0  Seeding  name";
    assert_eq!(parse_line(eight), Err(Error::InvalidEntryFormat));
    assert_eq!(parse_line(ten), Err(Error::InvalidEntryFormat));
    assert_eq!(parse_line(""), Err(Error::InvalidEntryFormat));
    assert_eq!(parse_line("   "), Err(Error::InvalidEntryFormat));
    // A name with two spaces in a row counts as two fields.
    let split_name = "1  100%  786.8 MB  Done  0.0  0.0  0.0  Seeding  two  words";
    assert_eq!(parse_line(split_name), Err(Error::InvalidEntryFormat));
}

#[test]
fn each_field_that_cannot_be_read_gives_its_error() {
    let bad_id = "x1  100%  786.8 MB  Done  0.0  0.0  0.0  Seeding  name";
    let bad_quantity = "1  100%  786.8 TB  Done  0.0  0.0  0.0  Seeding  name";
    let bad_status = "1  100%  786.8 MB  Done  0.0  0.0  0.0  Idle  name";
    let bad_both = "1  100%  lots  Done  0.0  0.0  0.0  Idle  name";
    let bad_all = "one  100%  lots  Done  0.0  0.0  0.0  Idle  name";
    assert_eq!(parse_line(bad_id), Err(Error::InvalidEntryFormat));
    assert_eq!(parse_line(bad_quantity), Err(Error::InvalidByteFormat));
    assert_eq!(parse_line(bad_status), Err(Error::InvalidEntryFormat));
    assert_eq!(parse_line(bad_both), Err(Error::InvalidByteFormat));
    assert_eq!(parse_line(bad_all), Err(Error::InvalidEntryFormat));
}

#[test]
fn every_status_is_read() {
    for (token, status) in [
        ("Stopped", Status::Stopped),
        ("Checking", Status::Checking),
        ("Downloading", Status::Downloading),
        ("Seeding", Status::Seeding),
        ("Queued", Status::Queued),
        ("Verifying", Status::Verifying),
        ("Error", Status::Error),
    ] {
        assert_eq!(Status::from_str(token), Ok(status));
        let text = format!("1  10%  1 kB  Done  0.0  0.0  0.0  {}  name", token);
        assert_eq!(parse_line(&text).map(|l| l.status), Ok(status));
    }
    for token in ["", "seeding", "SEEDING", "Seeding ", "Idle", "Finished", "Up & Down"] {
        assert_eq!(Status::from_str(token), Err(Error::InvalidEntryFormat), "{:?}", token);
    }
}

#[test]
fn the_header_is_skipped_and_the_summary_closes_the_table() {
    let text = "ID     Done       Have  ETA           Up    Down  Ratio  Status       Name\n   1   100%   786.8 MB  Done         0.0     0.0    0.0  Seeding      archlinux-2021.04.01-x86_64.iso\n   2    12%    1.5 kB  1 min        0.0    12.0    0.0  Downloading  notes.txt\nSum:          786.8 MB               0.0     0.0\nthis is never read\n";
    assert_eq!(
        parse_report(text),
        Ok(vec![
            line(
                1,
                "100%",
                Bytes::from_whole(786_800_000),
                Status::Seeding,
                "archlinux-2021.04.01-x86_64.iso"
            ),
            line(2, "12%", Bytes::from_whole(1_500), Status::Downloading, "notes.txt"),
        ])
    );
}

#[test]
fn a_report_without_lines_below_the_header_is_empty() {
    assert_eq!(parse_report(""), Ok(vec![]));
    assert_eq!(parse_report("not even a header"), Ok(vec![]));
    assert_eq!(parse_report("1  100%  1 kB  Done  0.0  0.0  0.0  Seeding  header\n"), Ok(vec![]));
    assert_eq!(parse_report("ID  Done\nSum:  None\n"), Ok(vec![]));
    assert_eq!(parse_report("ID  Done\n   Sum: all of it"), Ok(vec![]));
}

#[test]
fn a_line_that_cannot_be_decoded_rejects_the_report() {
    let good = "1  100%  1 kB  Done  0.0  0.0  0.0  Seeding  a";
    assert_eq!(parse_report(&format!("h\n{}\n\n", good)), Err(Error::InvalidEntryFormat));
    assert_eq!(parse_report(&format!("h\n{}\nshort  line\n", good)), Err(Error::InvalidEntryFormat));
    assert_eq!(
        parse_report(&format!("h\n{}\n2  1%  x kB  Done  0.0  0.0  0.0  Seeding  b\n", good)),
        Err(Error::InvalidByteFormat)
    );
    assert_eq!(parse_report("h\nsum: lower case is no summary\n"), Err(Error::InvalidEntryFormat));
}

#[test]
fn carriage_returns_before_line_feeds_are_no_part_of_a_field() {
    let text = "ID  Done\r\n1  100%  1 kB  Done  0.0  0.0  0.0  Seeding  a.iso\r\nSum:  1 kB\r\n";
    assert_eq!(
        parse_report(text),
        Ok(vec![line(1, "100%", Bytes::from_whole(1_000), Status::Seeding, "a.iso")])
    );
}
