use procmon::processes::{Error, IoStats, Process};
use procmon::sampler::{candidates, entry_pid, process_name, sample_process, Candidate, RootEntry};

fn entry(file_name: &str, is_dir: bool) -> RootEntry {
    RootEntry { file_name: file_name.to_string(), is_dir }
}

fn unreadable(reason: &str) -> Error {
    Error::Unreadable { reason: reason.to_string() }
}

#[test]
fn numeric_directory_is_a_process() {
    assert_eq!(entry_pid(&entry("1", true)), Some(1));
    assert_eq!(entry_pid(&entry("4194304", true)), Some(4194304));
    assert_eq!(entry_pid(&entry("18446744073709551615", true)), Some(u64::MAX));
}

#[test]
fn non_numeric_entry_is_no_process() {
    assert_eq!(entry_pid(&entry("self", true)), None);
    assert_eq!(entry_pid(&entry("sys", true)), None);
    assert_eq!(entry_pid(&entry("", true)), None);
    assert_eq!(entry_pid(&entry("12a", true)), None);
    assert_eq!(entry_pid(&entry("-12", true)), None);
    assert_eq!(entry_pid(&entry("18446744073709551616", true)), None);
}

#[test]
fn non_directory_entry_is_no_process() {
    assert_eq!(entry_pid(&entry("1", false)), None);
    assert_eq!(entry_pid(&entry("cpuinfo", false)), None);
}

#[test]
fn candidates_skip_unknown_entries() {
    let listing = vec![
        entry("cpuinfo", false),
        entry("1", true),
        entry("self", true),
        entry("42", false),
        entry("42", true),
        entry("uptime", false),
        entry("977", true),
    ];
    assert_eq!(
        candidates(&listing),
        vec![
            Candidate { index: 1, pid: 1 },
            Candidate { index: 4, pid: 42 },
            Candidate { index: 6, pid: 977 },
        ]
    );
}

#[test]
fn candidates_of_an_empty_listing() {
    assert_eq!(candidates(&Vec::new()), Vec::<Candidate>::new());
    assert_eq!(candidates(&vec![entry("self", true), entry("7", false)]), Vec::<Candidate>::new());
}

#[test]
fn candidates_keep_listing_order() {
    let listing = vec![entry("30", true), entry("10", true), entry("20", true)];
    let pids: Vec<u64> = candidates(&listing).iter().map(|c| c.pid).collect();
    assert_eq!(pids, vec![30, 10, 20]);
}

#[test]
fn two_names_of_one_number_are_two_candidates() {
    let listing = vec![entry("7", true), entry("07", true), entry("+7", true)];
    assert_eq!(
        candidates(&listing),
        vec![
            Candidate { index: 0, pid: 7 },
            Candidate { index: 1, pid: 7 },
            Candidate { index: 2, pid: 7 },
        ]
    );
}

#[test]
fn process_name_is_trimmed() {
    assert_eq!(process_name("bash\n"), "bash");
    assert_eq!(process_name("  kworker/0:1-events \t\r\n"), "kworker/0:1-events");
    assert_eq!(process_name("Web Content\n"), "Web Content");
    assert_eq!(process_name(""), "");
    assert_eq!(process_name(" \n\t "), "");
    assert_eq!(process_name("\u{3000}é t\u{a0}\u{2003}"), "é t");
    assert_eq!(process_name("\u{200b}x\u{200b}"), "\u{200b}x\u{200b}");
}

#[test]
fn process_name_agrees_with_std() {
    let pieces = ["", " ", "\n", "\t", "\u{85}", "\u{a0}", "\u{1680}", "\u{2000}", "\u{200a}", "\u{200b}", "\u{2028}", "\u{3000}", "a", "é", "\u{180e}"];
    for a in pieces.iter() {
        for b in pieces.iter() {
            for c in pieces.iter() {
                let text = format!("{}{}{}", a, b, c);
                assert_eq!(process_name(&text), text.trim(), "{:?}", text);
            }
        }
    }
}

#[test]
fn sample_process_reads_both_facts() {
    let p = sample_process(
        12,
        Ok("init\n".to_string()),
        Ok("read_bytes: 100\nwrite_bytes: 200\n".to_string()),
    );
    assert_eq!(
        p,
        Process {
            pid: 12,
            name: Ok("init".to_string()),
            io_stats: Ok(IoStats {
                total_read_bytes: 100,
                total_write_bytes: 200,
                read_bytes: 0,
                write_bytes: 0,
            }),
        }
    );
}

#[test]
fn sample_process_keeps_failures_apart() {
    let p = sample_process(3, Err(unreadable("gone")), Ok("read_bytes: 1\nwrite_bytes: 2\n".to_string()));
    assert_eq!(p.pid, 3);
    assert_eq!(p.name, Err(unreadable("gone")));
    assert!(p.io_stats.is_ok());

    let p = sample_process(3, Ok("x".to_string()), Err(unreadable("Permission denied")));
    assert_eq!(p.name, Ok("x".to_string()));
    assert_eq!(p.io_stats, Err(unreadable("Permission denied")));

    let p = sample_process(3, Ok("x".to_string()), Ok("read_bytes: 1\n".to_string()));
    assert_eq!(p.name, Ok("x".to_string()));
    assert_eq!(p.io_stats, Err(Error::InvalidFormat));

    let p = sample_process(3, Err(unreadable("a")), Err(unreadable("b")));
    assert_eq!(p.name, Err(unreadable("a")));
    assert_eq!(p.io_stats, Err(unreadable("b")));
}
