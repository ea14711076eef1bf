//! Reader of the per-process counters text: newline-separated `key: value`
//! pairs, of which `read_bytes` and `write_bytes` are recognised.

use crate::processes::{Error, IoStats};
use crate::text::{chars_of, decimal_u64, find_line_feed, lines_of, parse_decimal, starts_with};
use vstd::prelude::*;

verus! {

/// What begins the line that holds the cumulative number of bytes read.
pub open spec fn read_prefix() -> Seq<char> {
    "read_bytes: "@
}

/// What begins the line that holds the cumulative number of bytes written.
pub open spec fn write_prefix() -> Seq<char> {
    "write_bytes: "@
}

/// The counters found so far in a counters text.
#[derive(Clone, Copy, Debug, PartialEq, Eq)]
pub struct Found {
    pub read_bytes: Option<u64>,
    pub write_bytes: Option<u64>,
}

/// What is known after `line` has been read with `found` known before it;
/// `None` where the line makes the text invalid.
///
/// A line that begins with one of the two prefixes has to be the first such
/// line, and what follows the prefix has to be an unsigned 64-bit decimal
/// numeral. Any other line is ignored.
pub open spec fn scan_line(found: Found, line: Seq<char>) -> Option<Found> {
    if read_prefix().is_prefix_of(line) {
        match (found.read_bytes, decimal_u64(line.skip(read_prefix().len() as int))) {
            (None, Some(bytes)) => Some(Found { read_bytes: Some(bytes), ..found }),
            _ => None,
        }
    } else if write_prefix().is_prefix_of(line) {
        match (found.write_bytes, decimal_u64(line.skip(write_prefix().len() as int))) {
            (None, Some(bytes)) => Some(Found { write_bytes: Some(bytes), ..found }),
            _ => None,
        }
    } else {
        Some(found)
    }
}

/// What is known after `lines` have been read in order with `found` known
/// before them; `None` where one of them makes the text invalid.
pub open spec fn scan_lines(found: Found, lines: Seq<Seq<char>>) -> Option<Found>
    decreases lines.len(),
{
    if lines.len() == 0 {
        Some(found)
    } else {
        match scan_line(found, lines.first()) {
            Some(next) => scan_lines(next, lines.drop_first()),
            None => None,
        }
    }
}

/// The counters that the text `contents` holds.
///
/// They are known where every line is valid and both counters were found;
/// the rates are `0`. Every other text is of invalid format.
pub open spec fn io_stats_of(contents: Seq<char>) -> Result<IoStats, Error> {
    match scan_lines(Found { read_bytes: None, write_bytes: None }, lines_of(contents)) {
        Some(Found { read_bytes: Some(read), write_bytes: Some(write) }) => Ok(
            IoStats {
                total_read_bytes: read,
                total_write_bytes: write,
                read_bytes: 0,
                write_bytes: 0,
            },
        ),
        _ => Err(Error::InvalidFormat),
    }
}

/// What follows `prefix` in each of the `lines` that begin with it, in
/// order.
pub open spec fn values_of(lines: Seq<Seq<char>>, prefix: Seq<char>) -> Seq<Seq<char>>
    decreases lines.len(),
{
    if lines.len() == 0 {
        Seq::empty()
    } else if prefix.is_prefix_of(lines.first()) {
        seq![lines.first().skip(prefix.len() as int)] + values_of(lines.drop_first(), prefix)
    } else {
        values_of(lines.drop_first(), prefix)
    }
}

/// Whether `values`, the values of one key in the lines still to be read,
/// are acceptable with `known` found before them: none where the counter
/// is known already, else at most one, which has to be a numeral.
pub open spec fn values_fit(known: Option<u64>, values: Seq<Seq<char>>) -> bool {
    match known {
        Some(_) => values.len() == 0,
        None => values.len() == 0 || (values.len() == 1 && decimal_u64(values[0]) is Some),
    }
}

/// The counter that is known after `values` have been read with `known`
/// found before them, where they are acceptable.
pub open spec fn value_found(known: Option<u64>, values: Seq<Seq<char>>) -> Option<u64> {
    if values.len() == 0 {
        known
    } else {
        decimal_u64(values[0])
    }
}

/// No line begins with both prefixes.
pub proof fn lemma_prefixes_exclude(line: Seq<char>)
    ensures
        !(read_prefix().is_prefix_of(line) && write_prefix().is_prefix_of(line)),
{
    reveal_strlit("read_bytes: ");
    reveal_strlit("write_bytes: ");
    if read_prefix().is_prefix_of(line) && write_prefix().is_prefix_of(line) {
        assert(line.subrange(0, write_prefix().len() as int)[0] == 'w');
    }
}

/// A scan of lines succeeds exactly where the values of each key are
/// acceptable, and then finds what they give.
pub proof fn lemma_scan_lines(found: Found, lines: Seq<Seq<char>>)
    ensures
        scan_lines(found, lines) == {
            let reads = values_of(lines, read_prefix());
            let writes = values_of(lines, write_prefix());
            if values_fit(found.read_bytes, reads) && values_fit(found.write_bytes, writes) {
                Some(
                    Found {
                        read_bytes: value_found(found.read_bytes, reads),
                        write_bytes: value_found(found.write_bytes, writes),
                    },
                )
            } else {
                None
            }
        },
    decreases lines.len(),
{
    if lines.len() > 0 {
        let line = lines.first();
        let rest = lines.drop_first();
        lemma_prefixes_exclude(line);
        match scan_line(found, line) {
            Some(next) => {
                lemma_scan_lines(next, rest);
            },
            None => {},
        }
    }
}

/// A counters text is valid exactly where each of the two keys begins
/// exactly one line and a numeral follows it there. A key that is missing,
/// a key that occurs twice and a value that is no numeral each make the
/// text invalid, whatever the other lines hold.
pub proof fn lemma_io_stats_exactly_once(contents: Seq<char>)
    ensures
        io_stats_of(contents) == {
            let reads = values_of(lines_of(contents), read_prefix());
            let writes = values_of(lines_of(contents), write_prefix());
            if reads.len() == 1 && writes.len() == 1 && decimal_u64(reads[0]) is Some
                && decimal_u64(writes[0]) is Some {
                Ok(
                    IoStats {
                        total_read_bytes: decimal_u64(reads[0])->0,
                        total_write_bytes: decimal_u64(writes[0])->0,
                        read_bytes: 0,
                        write_bytes: 0,
                    },
                )
            } else {
                Err(Error::InvalidFormat)
            }
        },
{
    lemma_scan_lines(Found { read_bytes: None, write_bytes: None }, lines_of(contents));
}

/// Reads the line at positions `start..end` of `text` with `found` known
/// before it.
fn scan_line_at(
    text: &Vec<char>,
    start: usize,
    end: usize,
    read_key: &Vec<char>,
    write_key: &Vec<char>,
    found: Found,
) -> (next: Option<Found>)
    requires
        start <= end <= text.len(),
        read_key@ == read_prefix(),
        write_key@ == write_prefix(),
    ensures
        next == scan_line(found, text@.subrange(start as int, end as int)),
{
    let ghost line = text@.subrange(start as int, end as int);
    if starts_with(text, start, end, read_key) {
        let from = start + read_key.len();
        assert(line.skip(read_key.len() as int) =~= text@.subrange(from as int, end as int));
        if found.read_bytes.is_some() {
            return None;
        }
        match parse_decimal(text, from, end) {
            Some(bytes) => Some(Found { read_bytes: Some(bytes), write_bytes: found.write_bytes }),
            None => None,
        }
    } else if starts_with(text, start, end, write_key) {
        let from = start + write_key.len();
        assert(line.skip(write_key.len() as int) =~= text@.subrange(from as int, end as int));
        if found.write_bytes.is_some() {
            return None;
        }
        match parse_decimal(text, from, end) {
            Some(bytes) => Some(Found { read_bytes: found.read_bytes, write_bytes: Some(bytes) }),
            None => None,
        }
    } else {
        Some(found)
    }
}

/// Reads the cumulative counters from the counters text of a process.
pub fn parse_io_stats(contents: &str) -> (stats: Result<IoStats, Error>)
    ensures
        stats == io_stats_of(contents@),
{
    let text = chars_of(contents);
    let read_key = chars_of("read_bytes: ");
    let write_key = chars_of("write_bytes: ");
    let n = text.len();
    let mut found = Found { read_bytes: None, write_bytes: None };
    let mut start: usize = 0;
    assert(text@.skip(0) =~= text@);
    while start < n
        invariant
            start <= n == text.len(),
            text@ == contents@,
            read_key@ == read_prefix(),
            write_key@ == write_prefix(),
            scan_lines(Found { read_bytes: None, write_bytes: None }, lines_of(text@))
                == scan_lines(found, lines_of(text@.skip(start as int))),
        decreases n - start,
    {
        let ghost rest = text@.skip(start as int);
        let feed = find_line_feed(&text, start);
        let end: usize = if feed < n && feed > start && text[feed - 1] == '\r' {
            feed - 1
        } else {
            feed
        };
        let next: usize = if feed < n {
            assert(rest.skip(feed - start + 1) =~= text@.skip(feed as int + 1));
            feed + 1
        } else {
            feed
        };
        let ghost line = text@.subrange(start as int, end as int);
        assert(lines_of(rest).first() == line);
        assert(lines_of(rest).drop_first() =~= lines_of(text@.skip(next as int)));
        match scan_line_at(&text, start, end, &read_key, &write_key, found) {
            Some(now) => {
                found = now;
            },
            None => {
                return Err(Error::InvalidFormat);
            },
        }
        start = next;
    }
    match (found.read_bytes, found.write_bytes) {
        (Some(read), Some(write)) => Ok(
            IoStats {
                total_read_bytes: read,
                total_write_bytes: write,
                read_bytes: 0,
                write_bytes: 0,
            },
        ),
        _ => Err(Error::InvalidFormat),
    }
}

} // verus!
