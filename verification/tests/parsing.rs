use procview::decode::cmdline_from_bytes;
use procview::digits::u64_to_string;
use procview::stat::parse_stat;
use procview::state::ProcessState;

#[test]
fn stat_simple_sleeping() {
    let blob = b"1234 (bash) S 1 1234 1234 0 -1".to_vec();
    let st = parse_stat(&blob).unwrap();
    assert_eq!(st.pid, 1234);
    assert_eq!(st.tcomm, "bash");
    assert_eq!(st.state, ProcessState::Sleeping);
}

#[test]
fn stat_tcomm_with_spaces_and_paren() {
    let blob = b"4242 (weird )name ) R 1 2 3".to_vec();
    let st = parse_stat(&blob).unwrap();
    assert_eq!(st.pid, 4242);
    assert_eq!(st.tcomm, "weird )name ");
    assert_eq!(st.state, ProcessState::Running);
}

#[test]
fn stat_kernel_worker_idle() {
    let blob = b"7 (kworker/0:0-events) I 2 0 0".to_vec();
    let st = parse_stat(&blob).unwrap();
    assert_eq!(st.pid, 7);
    assert_eq!(st.tcomm, "kworker/0:0-events");
    assert_eq!(st.state, ProcessState::Idle);
}

#[test]
fn stat_unknown_state_byte_fails() {
    let blob = b"9 (x) Q 1 2 3".to_vec();
    assert!(parse_stat(&blob).is_none());
}

#[test]
fn stat_all_states_decode() {
    let cases: Vec<(u8, ProcessState)> = vec![
        (b'R', ProcessState::Running),
        (b'S', ProcessState::Sleeping),
        (b'D', ProcessState::UninterruptibleSleeping),
        (b'T', ProcessState::Stopped),
        (b'Z', ProcessState::Zombie),
        (b'I', ProcessState::Idle),
    ];
    for (code, expected) in cases {
        let mut blob = b"1 (a) ".to_vec();
        blob.push(code);
        blob.extend_from_slice(b" 0 0");
        let st = parse_stat(&blob).unwrap();
        assert_eq!(st.state, expected);
    }
}

#[test]
fn stat_display_strings() {
    assert_eq!(ProcessState::Running.display(), "Running");
    assert_eq!(ProcessState::Sleeping.display(), "Sleeping");
    assert_eq!(
        ProcessState::UninterruptibleSleeping.display(),
        "Uninterruptable Sleep"
    );
    assert_eq!(ProcessState::Stopped.display(), "Stopped");
    assert_eq!(ProcessState::Zombie.display(), "Zombie");
    assert_eq!(ProcessState::Idle.display(), "Idle");
}

#[test]
fn stat_truncated_line_fails() {
    assert!(parse_stat(&b"123 (x)".to_vec()).is_none());
    assert!(parse_stat(&b"123 (x) ".to_vec()).is_none());
    // A state byte with nothing after it is still a complete record.
    let st = parse_stat(&b"123 (x) R".to_vec()).unwrap();
    assert_eq!(st.state, ProcessState::Running);
}

#[test]
fn stat_no_parens_fails() {
    assert!(parse_stat(&b"123 x y z".to_vec()).is_none());
}

#[test]
fn stat_no_space_fails() {
    assert!(parse_stat(&b"123".to_vec()).is_none());
}

#[test]
fn stat_close_paren_before_open_fails() {
    assert!(parse_stat(&b"5 )( R 1".to_vec()).is_none());
}

#[test]
fn stat_open_paren_without_close_fails() {
    assert!(parse_stat(&b"1 (x R".to_vec()).is_none());
}

#[test]
fn stat_missing_space_after_close_paren_fails() {
    assert!(parse_stat(&b"5 (x)R 1".to_vec()).is_none());
}

#[test]
fn stat_non_decimal_pid_fails() {
    assert!(parse_stat(&b"12a4 (x) R 1".to_vec()).is_none());
}

#[test]
fn stat_oversized_pid_fails() {
    assert!(parse_stat(&b"99999999999999999999 (x) R 1".to_vec()).is_none());
}

#[test]
fn stat_empty_tcomm_is_allowed() {
    let st = parse_stat(&b"5 () R 1 2".to_vec()).unwrap();
    assert_eq!(st.tcomm, "");
    assert_eq!(st.state, ProcessState::Running);
}

#[test]
fn stat_empty_input_fails() {
    assert!(parse_stat(&Vec::new()).is_none());
}

#[test]
fn stat_invalid_utf8_tcomm_is_replaced() {
    let st = parse_stat(&b"1 (\xff) R 0 0".to_vec()).unwrap();
    assert_eq!(st.tcomm, "\u{fffd}");
}

#[test]
fn cmdline_nul_separated_tokens() {
    let bytes = b"python3\0-m\0http.server\0".to_vec();
    assert_eq!(cmdline_from_bytes(&bytes), "python3 -m http.server");
}

#[test]
fn cmdline_empty_file() {
    assert_eq!(cmdline_from_bytes(&Vec::new()), "");
}

#[test]
fn cmdline_only_nul() {
    assert_eq!(cmdline_from_bytes(&b"\0".to_vec()), "");
}

#[test]
fn cmdline_trailing_nuls_trimmed() {
    assert_eq!(cmdline_from_bytes(&b"a\0\0".to_vec()), "a");
}

#[test]
fn pid_decimal_printing() {
    assert_eq!(u64_to_string(0), "0");
    assert_eq!(u64_to_string(7), "7");
    assert_eq!(u64_to_string(1234567890), "1234567890");
    assert_eq!(u64_to_string(u64::MAX), "18446744073709551615");
}
