use fuzzer::handshake::{Action, HandshakeState};
use fuzzer::protocol::{parse_directive, signal_bytes, Directive, Signal};

fn apply_raw(st: &mut HandshakeState, msg: &[u8]) -> Action {
    let d = parse_directive(&msg.to_vec());
    st.apply_directive(&d)
}

#[test]
fn fresh_state_must_query() {
    let mut st = HandshakeState::new();
    assert!(!st.take_silent());
    assert!(!st.take_silent());
}

#[test]
fn signals_encode_to_their_wire_literals() {
    assert_eq!(signal_bytes(&Signal::Ready), b"ready".to_vec());
    assert_eq!(signal_bytes(&Signal::New), b"new".to_vec());
    assert_eq!(signal_bytes(&Signal::Synced), b"synced".to_vec());
}

#[test]
fn signal_reports_and_clears_novelty() {
    let mut st = HandshakeState::new();
    assert_eq!(st.write_signal(), Signal::Ready);
    st.note_coverage();
    st.note_coverage();
    // Repeated sets between two signals collapse to one notice.
    assert_eq!(st.write_signal(), Signal::New);
    assert_eq!(st.write_signal(), Signal::Ready);
}

#[test]
fn go_burst_runs_exactly_three_silent_generations() {
    // The solver pre-authorizes three generations beyond the one the
    // directive itself grants; the wait after those must hit the pipe.
    let mut st = HandshakeState::new();
    assert_eq!(apply_raw(&mut st, b"go:3"), Action::Run);
    assert!(st.take_silent());
    assert!(st.take_silent());
    assert!(st.take_silent());
    assert!(!st.take_silent());
}

#[test]
fn sync_then_go_acknowledges_once() {
    let mut st = HandshakeState::new();
    let mut acks = 0;
    let mut runs = 0;
    for msg in [b"sync".as_slice(), b"go".as_slice()] {
        match apply_raw(&mut st, msg) {
            Action::SyncThenAck => acks += 1,
            Action::Run => runs += 1,
            Action::Exit(code) => panic!("unexpected exit {}", code),
        }
    }
    assert_eq!(acks, 1);
    assert_eq!(runs, 1);
    assert!(!st.take_silent());
}

#[test]
fn bogus_directive_exits_nonzero() {
    let mut st = HandshakeState::new();
    let a = apply_raw(&mut st, b"bogus");
    assert_eq!(a, Action::Exit(1));
}

#[test]
fn stop_exits_zero_regardless_of_pacing() {
    let mut st = HandshakeState::new();
    assert_eq!(apply_raw(&mut st, b"stop"), Action::Exit(0));

    let mut paced = HandshakeState::new();
    assert_eq!(paced.apply_directive(&Directive::GoN(7)), Action::Run);
    assert_eq!(apply_raw(&mut paced, b"stop"), Action::Exit(0));
}

#[test]
fn go_authorizes_single_generation() {
    let mut st = HandshakeState::new();
    assert_eq!(apply_raw(&mut st, b"go"), Action::Run);
    assert!(!st.take_silent());
}

#[test]
fn generation_id_grows_by_one() {
    assert_eq!(fuzzer::next_generation(0), 1);
    assert_eq!(fuzzer::next_generation(41), 42);
}
