use lowest_unique::client::{
    Client, HANDSHAKE_READ_DEADLINE_MS, SENTINEL, STEADY_READ_DEADLINE_MS, WRITE_DEADLINE_MS,
};
use lowest_unique::round::{compute_outcome, Scoreboard};

#[test]
fn fresh_client_awaits_handshake() {
    let c = Client::new(b"bots/one.py".to_vec());
    assert!(c.is_init());
    assert!(!c.is_err());
    assert_eq!(c.get_num(), SENTINEL);
    assert_eq!(c.name(), &b"bots/one.py".to_vec());
    assert_eq!(c.read_deadline_ms(), HANDSHAKE_READ_DEADLINE_MS);
    assert!(c.wants_poll());
}

#[test]
fn full_round_conversation() {
    let mut c = Client::new(b"bot".to_vec());
    c.on_read_line(&b"ready\n".to_vec());
    assert!(!c.is_init());
    assert!(!c.is_err());
    assert_eq!(c.read_deadline_ms(), STEADY_READ_DEADLINE_MS);
    assert!(!c.wants_poll());

    let msg = c.send_game();
    assert_eq!(msg, Some(b"game\n".to_vec()));
    assert!(c.wants_poll());

    c.on_read_line(&b"42\n".to_vec());
    assert!(!c.is_err());
    assert_eq!(c.get_num(), 42);

    let msg = c.send_nums(&vec![42]);
    assert_eq!(msg, Some(b"42\n".to_vec()));

    let msg = c.send_end();
    assert_eq!(msg, Some(b"end\n".to_vec()));
    assert!(!c.wants_poll());
}

#[test]
fn broadcast_line_carries_whole_vector() {
    let mut c = Client::new(b"bot".to_vec());
    c.on_read_line(&b"ready".to_vec());
    c.send_game();
    c.on_read_line(&b"5".to_vec());
    let msg = c.send_nums(&vec![5, 2, 2]);
    assert_eq!(msg, Some(b"5 2 2\n".to_vec()));
}

#[test]
fn broadcast_message_parses_back_to_the_vector() {
    // what a reference competitor does with the broadcast: read the line,
    // strip whitespace, parse the values back
    let mut c = Client::new(b"bot".to_vec());
    c.on_read_line(&b"ready".to_vec());
    c.send_game();
    c.on_read_line(&b"8".to_vec());
    let nums = vec![8, 0, u32::MAX, 8];
    let msg = c.send_nums(&nums).unwrap();
    let parsed = lowest_unique::codec::parse_nums(&lowest_unique::codec::trim_ascii(&msg));
    assert_eq!(parsed, Some(nums));
}

#[test]
fn handshake_accepts_surrounding_whitespace() {
    let mut c = Client::new(b"bot".to_vec());
    c.on_read_line(&b"  ready\r\n".to_vec());
    assert!(!c.is_err());
    assert!(!c.is_init());
}

#[test]
fn unexpected_handshake_line_errors() {
    let mut c = Client::new(b"bot".to_vec());
    c.on_read_line(&b"hello\n".to_vec());
    assert!(c.is_err());
    assert_eq!(c.get_num(), SENTINEL);
}

#[test]
fn immediate_exit_empty_line_errors() {
    // a competitor that exits at once yields an empty read, not `ready`
    let mut c = Client::new(b"bot".to_vec());
    c.on_read_line(&b"".to_vec());
    assert!(c.is_err());
}

#[test]
fn non_numeric_guess_errors() {
    let mut c = Client::new(b"bot".to_vec());
    c.on_read_line(&b"ready".to_vec());
    c.send_game();
    c.on_read_line(&b"banana\n".to_vec());
    assert!(c.is_err());
    assert_eq!(c.get_num(), SENTINEL);
}

#[test]
fn read_timeout_errors_only_while_reading() {
    let mut c = Client::new(b"bot".to_vec());
    c.on_read_line(&b"ready".to_vec());
    // no read is outstanding in this state: a poll is a no-op
    c.on_read_failed();
    assert!(!c.is_err());
    c.send_game();
    c.on_read_failed();
    assert!(c.is_err());
    assert_eq!(c.get_num(), SENTINEL);
}

#[test]
fn error_state_is_absorbing() {
    let mut c = Client::new(b"bot".to_vec());
    c.err();
    assert!(c.is_err());
    assert_eq!(c.send_game(), None);
    assert_eq!(c.send_nums(&vec![1, 2]), None);
    assert_eq!(c.send_end(), None);
    c.on_read_line(&b"ready".to_vec());
    c.on_read_failed();
    assert!(c.is_err());
    assert_eq!(c.get_num(), SENTINEL);
}

#[test]
fn write_deadline_is_fixed() {
    assert_eq!(WRITE_DEADLINE_MS, 100);
    assert_eq!(HANDSHAKE_READ_DEADLINE_MS, 10000);
    assert_eq!(STEADY_READ_DEADLINE_MS, 1000);
}

#[test]
fn silent_client_errors_and_match_continues() {
    // one competitor never prints `ready`: its readiness read times out,
    // it errors, and the match completes with the remaining competitor
    let mut healthy = Client::new(b"good.py".to_vec());
    let mut silent = Client::new(b"bad.py".to_vec());
    healthy.on_read_line(&b"ready".to_vec());
    silent.on_read_failed();
    assert!(silent.is_err());

    // round 1
    let mut nums: Vec<u32> = Vec::new();
    healthy.send_game();
    healthy.on_read_line(&b"7".to_vec());
    nums.push(healthy.get_num());
    assert_eq!(silent.send_game(), None);
    nums.push(silent.get_num());
    assert_eq!(nums, vec![7, SENTINEL]);

    let outcome = compute_outcome(&nums);
    // both values are unique; the healthy competitor's 7 sorts first and
    // is the sole scored winner
    assert_eq!(outcome.winners, vec![0, 1]);
    let mut board = Scoreboard::new(2);
    board.record(&outcome);
    assert_eq!(board.scores, vec![1, 0]);

    // termination skips the errored client
    assert!(healthy.send_end().is_some());
    assert!(silent.send_end().is_none());
}
