use procmon::counters::parse_io_stats;
use procmon::processes::{Error, IoStats};

fn totals(read: u64, write: u64) -> Result<IoStats, Error> {
    Ok(IoStats { total_read_bytes: read, total_write_bytes: write, read_bytes: 0, write_bytes: 0 })
}

/// The same reading done with std's own line splitting and number parsing.
fn by_std(contents: &str) -> Result<IoStats, Error> {
    let mut read: Option<u64> = None;
    let mut write: Option<u64> = None;
    for line in contents.lines() {
        if line.starts_with("read_bytes: ") {
            if read.is_some() {
                return Err(Error::InvalidFormat);
            }
            match line["read_bytes: ".len()..].parse::<u64>() {
                Ok(b) => read = Some(b),
                Err(_) => return Err(Error::InvalidFormat),
            }
        } else if line.starts_with("write_bytes: ") {
            if write.is_some() {
                return Err(Error::InvalidFormat);
            }
            match line["write_bytes: ".len()..].parse::<u64>() {
                Ok(b) => write = Some(b),
                Err(_) => return Err(Error::InvalidFormat),
            }
        }
    }
    match (read, write) {
        (Some(r), Some(w)) => totals(r, w),
        _ => Err(Error::InvalidFormat),
    }
}

#[test]
fn reads_both_counters() {
    assert_eq!(parse_io_stats("read_bytes: 10\nwrite_bytes: 5\n"), totals(10, 5));
}

#[test]
fn reads_counters_in_either_order() {
    assert_eq!(parse_io_stats("write_bytes: 5\nread_bytes: 10"), totals(10, 5));
}

#[test]
fn reads_a_full_counters_file() {
    let contents = "rchar: 323934931\nwchar: 323929600\nsyscr: 632687\nsyscw: 632675\n\
                    read_bytes: 4096\nwrite_bytes: 323932160\ncancelled_write_bytes: 0\n";
    assert_eq!(parse_io_stats(contents), totals(4096, 323932160));
}

#[test]
fn rates_start_at_zero() {
    let stats = parse_io_stats("read_bytes: 7\nwrite_bytes: 9\n").unwrap();
    assert_eq!(stats.read_bytes, 0);
    assert_eq!(stats.write_bytes, 0);
}

#[test]
fn duplicate_key_is_a_format_error() {
    assert_eq!(
        parse_io_stats("read_bytes: 10\nread_bytes: 20\nwrite_bytes: 5"),
        Err(Error::InvalidFormat)
    );
}

#[test]
fn duplicate_write_key_is_a_format_error() {
    assert_eq!(
        parse_io_stats("read_bytes: 10\nwrite_bytes: 5\nwrite_bytes: 5\n"),
        Err(Error::InvalidFormat)
    );
}

#[test]
fn missing_write_key_is_a_format_error() {
    assert_eq!(parse_io_stats("read_bytes: 10\n"), Err(Error::InvalidFormat));
    assert_eq!(parse_io_stats("read_bytes: 10\nrchar: 5\n"), Err(Error::InvalidFormat));
}

#[test]
fn missing_read_key_is_a_format_error() {
    assert_eq!(parse_io_stats("write_bytes: 10\n"), Err(Error::InvalidFormat));
}

#[test]
fn unparsable_value_is_a_format_error() {
    assert_eq!(parse_io_stats("read_bytes: abc\nwrite_bytes: 5\n"), Err(Error::InvalidFormat));
    assert_eq!(parse_io_stats("read_bytes: 10\nwrite_bytes: 5x\n"), Err(Error::InvalidFormat));
    assert_eq!(parse_io_stats("read_bytes: \nwrite_bytes: 5\n"), Err(Error::InvalidFormat));
    assert_eq!(parse_io_stats("read_bytes: -1\nwrite_bytes: 5\n"), Err(Error::InvalidFormat));
    assert_eq!(parse_io_stats("read_bytes:  1\nwrite_bytes: 5\n"), Err(Error::InvalidFormat));
    assert_eq!(parse_io_stats("read_bytes: 1 \nwrite_bytes: 5\n"), Err(Error::InvalidFormat));
}

#[test]
fn empty_text_is_a_format_error() {
    assert_eq!(parse_io_stats(""), Err(Error::InvalidFormat));
    assert_eq!(parse_io_stats("\n\n"), Err(Error::InvalidFormat));
}

#[test]
fn largest_value_is_read_and_the_next_is_not() {
    assert_eq!(
        parse_io_stats("read_bytes: 18446744073709551615\nwrite_bytes: 0\n"),
        totals(u64::MAX, 0)
    );
    assert_eq!(
        parse_io_stats("read_bytes: 18446744073709551616\nwrite_bytes: 0\n"),
        Err(Error::InvalidFormat)
    );
    assert_eq!(
        parse_io_stats("read_bytes: 99999999999999999999999\nwrite_bytes: 0\n"),
        Err(Error::InvalidFormat)
    );
}

#[test]
fn plus_sign_and_leading_zeros_are_read() {
    assert_eq!(parse_io_stats("read_bytes: +12\nwrite_bytes: 0007\n"), totals(12, 7));
    assert_eq!(parse_io_stats("read_bytes: +\nwrite_bytes: 7\n"), Err(Error::InvalidFormat));
    assert_eq!(parse_io_stats("read_bytes: ++1\nwrite_bytes: 7\n"), Err(Error::InvalidFormat));
}

#[test]
fn carriage_return_before_line_feed_ends_the_line() {
    assert_eq!(parse_io_stats("read_bytes: 10\r\nwrite_bytes: 5\r\n"), totals(10, 5));
}

#[test]
fn carriage_return_at_the_end_of_the_text_stays() {
    assert_eq!(parse_io_stats("read_bytes: 10\nwrite_bytes: 5\r"), Err(Error::InvalidFormat));
    assert_eq!(parse_io_stats("read_bytes: 10\r\r\nwrite_bytes: 5"), Err(Error::InvalidFormat));
}

#[test]
fn key_has_to_begin_the_line() {
    assert_eq!(parse_io_stats(" read_bytes: 10\nwrite_bytes: 5\n"), Err(Error::InvalidFormat));
    assert_eq!(
        parse_io_stats("read_bytes: 10\nwrite_bytes: 5\ncancelled_write_bytes: x\n"),
        totals(10, 5)
    );
    assert_eq!(parse_io_stats("read_bytes:10\nwrite_bytes: 5\n"), Err(Error::InvalidFormat));
}

#[test]
fn error_after_both_counters_still_counts() {
    assert_eq!(
        parse_io_stats("read_bytes: 10\nwrite_bytes: 5\nread_bytes: oops\n"),
        Err(Error::InvalidFormat)
    );
}

#[test]
fn other_lines_may_hold_any_text() {
    assert_eq!(parse_io_stats("é: ü\nread_bytes: 1\n\u{2028}\nwrite_bytes: 2\n???"), totals(1, 2));
}

#[test]
fn agrees_with_std_on_many_texts() {
    let pieces = [
        "", "\n", "\r", "\r\n", "read_bytes: ", "write_bytes: ", "read_bytes:", "1", "0", "+", "-",
        "18446744073709551615", "18446744073709551616", " ", "x", "é",
    ];
    let mut checked = 0;
    for a in pieces.iter() {
        for b in pieces.iter() {
            for c in pieces.iter() {
                for d in pieces.iter() {
                    let text = format!("{}{}{}{}", a, b, c, d);
                    assert_eq!(parse_io_stats(&text), by_std(&text), "{:?}", text);
                    let full = format!("read_bytes: 3\n{}write_bytes: 4", text);
                    assert_eq!(parse_io_stats(&full), by_std(&full), "{:?}", full);
                    checked += 1;
                }
            }
        }
    }
    assert_eq!(checked, 16 * 16 * 16 * 16);
}
