use blockpong::codec::decode_frame;
use blockpong::codec::decode_snapshot;
use blockpong::codec::encode_frame;
use blockpong::codec::encode_snapshot;
use blockpong::codec::FrameStatus;
use blockpong::constants::KEY_MOVE_RIGHT;
use blockpong::constants::SCALE;
use blockpong::fanout::ReadCursor;
use blockpong::fanout::SnapshotSlot;
use blockpong::intake::IntakeQueue;
use blockpong::physics::step;
use blockpong::session::Session;
use blockpong::session::SessionAction;
use blockpong::session::SessionEvent;
use blockpong::session::SessionState;
use blockpong::world::create_world_data;
use blockpong::world::PlayerIntent;

#[test]
fn snapshot_round_trips_through_the_codec() {
    let w = create_world_data();
    let payload = encode_snapshot(&w);
    // 4-byte block count, 190 blocks of 24 bytes, two 17-byte paddles, a
    // 4-byte ball count, two 34-byte balls.
    assert_eq!(payload.len(), 4 + 24 * 190 + 34 + 4 + 34 * 2);
    let back = decode_snapshot(&payload).unwrap();
    assert_eq!(back, w);
}

#[test]
fn moved_world_round_trips_too() {
    let mut w = create_world_data();
    for _ in 0..30 {
        w = step(&w, &vec![PlayerIntent { player_id: 0, key_code: KEY_MOVE_RIGHT }]);
    }
    let payload = encode_snapshot(&w);
    assert_eq!(decode_snapshot(&payload).unwrap(), w);
}

#[test]
fn undersized_and_malformed_payloads_are_rejected() {
    assert!(decode_snapshot(&vec![]).is_none());
    assert!(decode_snapshot(&vec![0, 0, 0, 5]).is_none());
    let w = create_world_data();
    let mut payload = encode_snapshot(&w);
    // Corrupt the last ball's launch flag.
    let last = payload.len() - 1;
    payload[last] = 7;
    assert!(decode_snapshot(&payload).is_none());
    // Truncated payloads are undersized, not silently accepted.
    let whole = encode_snapshot(&w);
    let cut = whole[..whole.len() - 1].to_vec();
    assert!(decode_snapshot(&cut).is_none());
}

#[test]
fn frames_carry_a_big_endian_length_prefix() {
    let w = create_world_data();
    let frame = encode_frame(&w);
    let payload_len = 4 + 24 * 190 + 34 + 4 + 34 * 2;
    assert_eq!(frame.len(), 4 + payload_len);
    let n = payload_len as u32;
    assert_eq!(
        &frame[..4],
        &[(n >> 24) as u8, (n >> 16) as u8, (n >> 8) as u8, n as u8],
    );
}

#[test]
fn frame_decoding_tolerates_partial_reads() {
    let w = create_world_data();
    let frame = encode_frame(&w);
    assert!(matches!(decode_frame(&vec![]), FrameStatus::NeedMore));
    assert!(matches!(decode_frame(&frame[..3].to_vec()), FrameStatus::NeedMore));
    assert!(matches!(
        decode_frame(&frame[..frame.len() - 1].to_vec()),
        FrameStatus::NeedMore
    ));
    match decode_frame(&frame) {
        FrameStatus::Complete(decoded, consumed) => {
            assert_eq!(decoded, w);
            assert_eq!(consumed, frame.len());
        }
        _ => panic!("expected a complete frame"),
    }
    // A complete frame with a garbage payload is malformed, not pending.
    assert!(matches!(
        decode_frame(&vec![0, 0, 0, 2, 9, 9]),
        FrameStatus::Malformed
    ));
}

#[test]
fn intake_drains_in_arrival_order() {
    let mut q = IntakeQueue::new();
    assert_eq!(q.len(), 0);
    q.push(PlayerIntent { player_id: 0, key_code: 1 });
    q.push(PlayerIntent { player_id: 1, key_code: 2 });
    q.push(PlayerIntent { player_id: 0, key_code: 3 });
    assert_eq!(q.len(), 3);
    let drained = q.drain();
    assert_eq!(
        drained,
        vec![
            PlayerIntent { player_id: 0, key_code: 1 },
            PlayerIntent { player_id: 1, key_code: 2 },
            PlayerIntent { player_id: 0, key_code: 3 },
        ],
    );
    assert_eq!(q.len(), 0);
    assert!(q.drain().is_empty());
}

#[test]
fn slow_consumer_never_blocks_the_other() {
    // Scenario: two sessions attach to the fan-out; consumer A never reads,
    // consumer B keeps receiving strictly newer snapshots.
    let mut w = create_world_data();
    let mut slot = SnapshotSlot::new(w.clone());
    let _idle = ReadCursor::new();
    let mut b = ReadCursor::new();
    let first = b.poll(&slot).expect("initial snapshot visible");
    let mut last_x = first.paddles[1].position.x;
    for _ in 0..10 {
        w = step(&w, &vec![PlayerIntent { player_id: 0, key_code: KEY_MOVE_RIGHT }]);
        slot.publish(w.clone());
        let seen = b.poll(&slot).expect("fresh snapshot visible");
        assert!(seen.paddles[1].position.x > last_x);
        last_x = seen.paddles[1].position.x;
    }
    assert_eq!(last_x, 960 * SCALE + 10 * 5000);
    // Nothing new published: B sees nothing new rather than stale data.
    assert!(b.poll(&slot).is_none());
}

#[test]
fn coalescing_delivers_only_the_latest() {
    let w0 = create_world_data();
    let mut slot = SnapshotSlot::new(w0.clone());
    let mut lazy = ReadCursor::new();
    let w1 = step(&w0, &vec![PlayerIntent { player_id: 0, key_code: KEY_MOVE_RIGHT }]);
    let w2 = step(&w1, &vec![PlayerIntent { player_id: 0, key_code: KEY_MOVE_RIGHT }]);
    slot.publish(w1.clone());
    slot.publish(w2.clone());
    let seen = lazy.poll(&slot).unwrap();
    assert_eq!(seen, w2);
    assert!(lazy.poll(&slot).is_none());
}

#[test]
fn session_walks_its_state_machine() {
    let mut s = Session::new(1);
    assert_eq!(s.state, SessionState::Connecting);
    assert_eq!(s.handle(SessionEvent::Opened), SessionAction::SendPlayerId);
    assert_eq!(s.state, SessionState::IdAssigned);
    assert_eq!(s.handle(SessionEvent::IdSent), SessionAction::Ignore);
    assert_eq!(s.state, SessionState::Streaming);
    assert_eq!(
        s.handle(SessionEvent::KeyRead(32)),
        SessionAction::ForwardIntent(PlayerIntent { player_id: 1, key_code: 32 }),
    );
    assert_eq!(s.handle(SessionEvent::SnapshotReady), SessionAction::SendSnapshot);
    assert_eq!(s.handle(SessionEvent::FrameSent), SessionAction::Ignore);
    assert_eq!(s.state, SessionState::Streaming);
}

#[test]
fn io_errors_close_a_session_for_good() {
    let mut s = Session::new(0);
    s.handle(SessionEvent::Opened);
    s.handle(SessionEvent::IdSent);
    assert_eq!(s.handle(SessionEvent::IoError), SessionAction::Shutdown);
    assert_eq!(s.state, SessionState::Closed);
    // Closed is absorbing: later events do nothing.
    assert_eq!(s.handle(SessionEvent::KeyRead(5)), SessionAction::Ignore);
    assert_eq!(s.state, SessionState::Closed);
}

#[test]
fn protocol_violations_close_a_session() {
    let mut s = Session::new(0);
    assert_eq!(s.handle(SessionEvent::KeyRead(1)), SessionAction::Shutdown);
    assert_eq!(s.state, SessionState::Closed);
}
