use netsync::common::Vec2;
use netsync::net_manage::{Endpoint, UdpConnection, OUTBOUND_QUEUE_MAX};
use netsync::net_message::{CUdpType, NetworkMessage};
use netsync::net_reconciliation::{
    store_game_state, ObjectState, ReconcileBuffer, StateType, BUFFER_SIZE,
};

fn record_of(i: u32) -> Vec<ObjectState> {
    vec![ObjectState(StateType::InputState {
        encoded_input: (i % 65536) as u16,
        mouse_delta: Vec2 { x: i as i64, y: 0 },
    })]
}

fn recorded_mask(buffer: &ReconcileBuffer, seq: u16) -> Option<u16> {
    buffer.lookup(seq).map(|states| match states[0].0 {
        StateType::InputState { encoded_input, .. } => encoded_input,
        StateType::PlayerState { .. } => panic!("unexpected snapshot"),
    })
}

#[test]
fn capacity_keeps_one_cycle_and_evicts_the_oldest() {
    let k: u32 = 5;
    let mut buffer = ReconcileBuffer::new();
    let total = BUFFER_SIZE as u32 + k;
    for i in 0..total {
        store_game_state(record_of(i), &mut buffer);
        buffer.increment_sequence_num();
    }
    assert_eq!(buffer.buffer.len(), BUFFER_SIZE as usize);
    // the oldest k records were evicted: their slots hold the newer cycle
    for j in 0..k {
        let expect = (BUFFER_SIZE as u32 + j) % 65536;
        assert_eq!(recorded_mask(&buffer, j as u16), Some(expect as u16));
    }
    // the rest of the window still holds the first cycle's later records
    for j in k..BUFFER_SIZE as u32 {
        assert_eq!(recorded_mask(&buffer, j as u16), Some((j % 65536) as u16));
    }
}

#[test]
fn recording_twice_is_recording_once() {
    let mut once = ReconcileBuffer::new();
    store_game_state(record_of(9), &mut once);

    let mut twice = ReconcileBuffer::new();
    store_game_state(record_of(9), &mut twice);
    store_game_state(record_of(9), &mut twice);

    assert_eq!(once.buffer.len(), twice.buffer.len());
    assert_eq!(recorded_mask(&once, 0), recorded_mask(&twice, 0));
    assert_eq!(once.sequence_counter, twice.sequence_counter);
    assert_eq!(once.miss_predict_counter, twice.miss_predict_counter);
}

#[test]
fn sequence_counter_wraps() {
    let mut buffer = ReconcileBuffer::new();
    for _ in 0..BUFFER_SIZE - 1 {
        buffer.increment_sequence_num();
    }
    assert_eq!(buffer.sequence_counter, BUFFER_SIZE - 1);
    buffer.increment_sequence_num();
    assert_eq!(buffer.sequence_counter, 0);
}

#[test]
fn is_newer_is_reflexive() {
    let mut buffer = ReconcileBuffer::new();
    for a in [0u16, 1, 511, 512, 1023] {
        buffer.sequence_counter = a;
        assert!(buffer.seq_is_newer(a));
    }
}

#[test]
fn is_newer_is_antisymmetric_away_from_the_boundary() {
    let mut buffer = ReconcileBuffer::new();
    let pairs = [(3u16, 0u16), (0, 1023), (700, 500), (100, 900)];
    for (a, b) in pairs {
        buffer.sequence_counter = a;
        let ab = buffer.seq_is_newer(b);
        buffer.sequence_counter = b;
        let ba = buffer.seq_is_newer(a);
        assert_ne!(ab, ba);
    }
}

#[test]
fn is_newer_rejects_both_at_the_half_modulus() {
    let mut buffer = ReconcileBuffer::new();
    buffer.sequence_counter = 512;
    assert!(!buffer.seq_is_newer(0));
    buffer.sequence_counter = 0;
    assert!(!buffer.seq_is_newer(512));
}

#[test]
fn lookup_of_an_absent_slot_is_none() {
    let buffer = ReconcileBuffer::new();
    assert!(buffer.lookup(17).is_none());
}

#[test]
fn clearing_forgets_history_but_not_the_counter() {
    let mut buffer = ReconcileBuffer::new();
    store_game_state(record_of(1), &mut buffer);
    buffer.increment_sequence_num();
    buffer.clear_history();
    assert_eq!(buffer.buffer.len(), 0);
    assert_eq!(buffer.sequence_counter, 1);
}

#[test]
fn a_full_outbound_queue_drops_silently() {
    let mut conn: UdpConnection<CUdpType> =
        UdpConnection::new(Some(Endpoint { ip: 1, port: 1 }));
    for i in 0..(OUTBOUND_QUEUE_MAX as u32 + 10) {
        conn.add_message(NetworkMessage(CUdpType::Ping { start_time: i, last_rtt: 0 }));
    }
    let msgs = conn.get_current_messages();
    assert_eq!(msgs.len(), OUTBOUND_QUEUE_MAX);
    // the overflow was dropped, not the queued messages
    match msgs[OUTBOUND_QUEUE_MAX - 1].0 {
        CUdpType::Ping { start_time, .. } => {
            assert_eq!(start_time, OUTBOUND_QUEUE_MAX as u32 - 1)
        }
        _ => panic!("ping expected"),
    }
}
