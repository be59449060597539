use procview::process::Process;
use procview::search::str_contains;
use procview::snapshot::{build_snapshot, RawEntry, Snapshot};
use procview::stat::ProcessStats;
use procview::state::ProcessState;
use procview::view::FilteredView;

fn process(pid: u64, cmdline: &str, tcomm: &str, state: ProcessState) -> Process {
    Process {
        pid,
        cmdline: cmdline.to_string(),
        stats: ProcessStats {
            pid,
            tcomm: tcomm.to_string(),
            state,
        },
    }
}

fn sample_snapshot() -> Snapshot {
    Snapshot::new(vec![
        process(10, "ssh", "ssh", ProcessState::Sleeping),
        process(101, "bash", "bash", ProcessState::Running),
        process(22, "nginx: worker", "nginx", ProcessState::Sleeping),
    ])
}

#[test]
fn substring_search_basics() {
    assert!(str_contains("xabcy", "abc"));
    assert!(str_contains("abc", ""));
    assert!(str_contains("", ""));
    assert!(!str_contains("", "a"));
    assert!(!str_contains("xaby", "abc"));
    assert!(!str_contains("bash", "Bash"));
}

#[test]
fn process_contains_searches_all_fields() {
    let p = process(101, "nginx: worker", "nginx", ProcessState::Running);
    assert!(p.contains("01"));
    assert!(p.contains("worker"));
    assert!(p.contains("nginx"));
    assert!(!p.contains("zsh"));
    assert!(p.stats.contains("ngi"));
    assert!(!p.stats.contains("worker"));
}

#[test]
fn filter_on_pid_substring() {
    let mut view = FilteredView::new(sample_snapshot());
    view.set_search("10");
    assert_eq!(view.len(), 2);
    assert_eq!(view.row(0).header, "10 ssh");
    assert_eq!(view.row(1).header, "101 bash");
}

#[test]
fn empty_needle_shows_everything() {
    let view = FilteredView::new(sample_snapshot());
    assert_eq!(view.len(), 3);
    let mut view = view;
    view.set_search("bash");
    assert_eq!(view.len(), 1);
    view.set_search("");
    assert_eq!(view.len(), 3);
    assert_eq!(view.row(2).header, "22 nginx: worker");
}

#[test]
fn repeated_search_is_stable() {
    let mut view = FilteredView::new(sample_snapshot());
    view.set_search("s");
    let first: Vec<String> = (0..view.len()).map(|i| view.row(i).header).collect();
    view.set_search("s");
    let second: Vec<String> = (0..view.len()).map(|i| view.row(i).header).collect();
    assert_eq!(first, second);
    assert_eq!(first, vec!["10 ssh".to_string(), "101 bash".to_string()]);
}

#[test]
fn row_details_hold_tcomm_and_state() {
    let view = FilteredView::new(sample_snapshot());
    let row = view.row(1);
    assert_eq!(row.header, "101 bash");
    assert_eq!(row.details.len(), 2);
    assert_eq!(row.details[0].0, "Tcomm");
    assert_eq!(row.details[0].1, "bash");
    assert_eq!(row.details[1].0, "State");
    assert_eq!(row.details[1].1, "Running");
}

fn entry(name: &[u8], cmdline: &[u8], stat: &[u8]) -> RawEntry {
    RawEntry {
        name: name.to_vec(),
        cmdline: cmdline.to_vec(),
        stat: stat.to_vec(),
    }
}

#[test]
fn build_keeps_order_and_drops_bad_entries() {
    let entries = vec![
        entry(b"1", b"init\0", b"1 (init) S 0 1"),
        entry(b"self", b"", b"1 (init) S 0 1"),
        entry(b"9", b"", b"9 (x) Q 1 2"),
        entry(b"42", b"nginx\0-g\0daemon off;\0", b"42 (nginx) R 1 42"),
    ];
    let snapshot = build_snapshot(entries);
    assert_eq!(snapshot.len(), 2);
    assert_eq!(snapshot.processes[0].pid, 1);
    assert_eq!(snapshot.processes[0].cmdline, "init");
    assert_eq!(snapshot.processes[1].pid, 42);
    assert_eq!(snapshot.processes[1].cmdline, "nginx -g daemon off;");
    assert_eq!(snapshot.processes[1].stats.tcomm, "nginx");
    assert_eq!(snapshot.processes[1].stats.state, ProcessState::Running);
}

#[test]
fn build_allows_empty_cmdline_kernel_thread() {
    let snapshot = build_snapshot(vec![entry(b"7", b"", b"7 (kworker/0:0) I 2 0")]);
    assert_eq!(snapshot.len(), 1);
    assert_eq!(snapshot.processes[0].cmdline, "");
    assert_eq!(snapshot.processes[0].stats.tcomm, "kworker/0:0");
}

#[test]
fn round_trip_of_synthetic_lines() {
    let tcomms: Vec<&[u8]> = vec![b"bash", b"", b"a b", b"we)ird (name", b"tab\tname"];
    for tcomm in tcomms {
        let mut line: Vec<u8> = b"4321 (".to_vec();
        line.extend_from_slice(tcomm);
        line.extend_from_slice(b") Z 1 77");
        let st = procview::stat::parse_stat(&line).unwrap();
        assert_eq!(st.pid, 4321);
        assert_eq!(st.tcomm.as_bytes(), tcomm);
        assert_eq!(st.state, ProcessState::Zombie);
    }
}
