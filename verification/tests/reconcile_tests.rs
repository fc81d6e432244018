use netsync::camera::CameraInfo;
use netsync::common::{Id, Vec2, Vec3};
use netsync::net_reconciliation::{
    store_game_state, ObjectState, ReconcileBuffer, StateType, MISS_PREDICT_LIMIT,
};
use netsync::player::{
    apply_collision_response, predict_player_tick, AnimationState, ContactHit, Player,
    PlayerInfo, PredictedPlayerState, YawRotation, INPUT_FORWARD, INPUT_JUMP, INPUT_RIGHT,
    INPUT_RUN, JUMP_IMPULSE, RUN_SPEED, WALK_SPEED,
};
use netsync::reconcile::reconcile_player;

fn ground() -> Option<ContactHit> {
    Some(ContactHit {
        distance: 1_000_000_000,
        normal: Vec3 { x: 0, y: 1000, z: 0 },
    })
}

fn zero_state() -> PredictedPlayerState {
    PredictedPlayerState {
        position: Vec3 { x: 0, y: 0, z: 0 },
        linear_velocity: Vec3 { x: 0, y: 0, z: 0 },
        yaw: 0,
        pitch: 0,
    }
}

fn snapshot(position: Vec3) -> Player {
    Player {
        position,
        linear_velocity: Vec3 { x: WALK_SPEED, y: 0, z: 0 },
        yaw: 0,
        pitch: 0,
        animation_state: AnimationState::Walking,
    }
}

fn frame(position: Vec3, keymask: u16) -> Vec<ObjectState> {
    vec![
        ObjectState(StateType::PlayerState { player: snapshot(position) }),
        ObjectState(StateType::InputState {
            encoded_input: keymask,
            mouse_delta: Vec2 { x: 0, y: 0 },
        }),
    ]
}

#[test]
fn one_walk_tick_moves_a_unit_and_a_half() {
    let mut state = zero_state();
    predict_player_tick(
        &mut state,
        INPUT_RIGHT,
        Vec2 { x: 0, y: 0 },
        &YawRotation::identity(),
        ground(),
    );
    assert_eq!(state.position, Vec3 { x: 1500, y: 0, z: 0 });
    assert_eq!(state.linear_velocity, Vec3 { x: WALK_SPEED, y: 0, z: 0 });
    // forward is the negative depth axis at yaw zero
    let mut fwd = zero_state();
    predict_player_tick(
        &mut fwd,
        INPUT_FORWARD,
        Vec2 { x: 0, y: 0 },
        &YawRotation::identity(),
        ground(),
    );
    assert_eq!(fwd.position, Vec3 { x: 0, y: 0, z: -1500 });
}

#[test]
fn running_and_diagonals_scale_the_speed() {
    let mut run = zero_state();
    predict_player_tick(
        &mut run,
        INPUT_RIGHT | INPUT_RUN,
        Vec2 { x: 0, y: 0 },
        &YawRotation::identity(),
        ground(),
    );
    assert_eq!(run.position.x, RUN_SPEED);

    let mut diag = zero_state();
    predict_player_tick(
        &mut diag,
        INPUT_RIGHT | INPUT_FORWARD,
        Vec2 { x: 0, y: 0 },
        &YawRotation::identity(),
        ground(),
    );
    // each diagonal leg is scaled by 707/1000 before the walk speed
    assert_eq!(diag.position, Vec3 { x: 1060, y: 0, z: -1060 });
}

#[test]
fn jump_adds_its_impulse() {
    let mut state = zero_state();
    predict_player_tick(
        &mut state,
        INPUT_JUMP,
        Vec2 { x: 0, y: 0 },
        &YawRotation::identity(),
        None,
    );
    // gravity bites first, then the jump impulse
    assert_eq!(state.linear_velocity.y, JUMP_IMPULSE - 3);
}

#[test]
fn collision_response_snaps_to_ground_and_clamps_travel() {
    let mut v = Vec3 { x: 3000, y: -500, z: 0 };
    apply_collision_response(&mut v, ground());
    assert_eq!(v.y, 0);

    // a wall straight ahead removes the penetrating component
    let mut w = Vec3 { x: 1000, y: 0, z: 0 };
    apply_collision_response(
        &mut w,
        Some(ContactHit {
            distance: 1_000_000_000,
            normal: Vec3 { x: -1000, y: 0, z: 0 },
        }),
    );
    assert_eq!(w.x, 0);

    // a close contact clamps the travel to the gap less the skin margin
    let mut c = Vec3 { x: 1000, y: 0, z: 0 };
    apply_collision_response(
        &mut c,
        Some(ContactHit {
            distance: 120,
            normal: Vec3 { x: 0, y: 0, z: -1000 },
        }),
    );
    assert_eq!(c.x, 100);
}

#[test]
fn reconciliation_triggers_on_the_limit_only() {
    let seq: u16 = 10;
    let mut buffer = ReconcileBuffer::new();
    buffer.sequence_counter = seq;
    store_game_state(frame(Vec3 { x: 1500, y: 0, z: 0 }, INPUT_RIGHT), &mut buffer);
    buffer.sequence_counter = 13;

    let mut info = PlayerInfo::new();
    info.current_player_id = Id(1);

    // the server agreeing leaves everything alone
    let agreeing = vec![(Id(1), snapshot(Vec3 { x: 1500, y: 0, z: 0 }))];
    assert!(reconcile_player(seq, &agreeing, &info, &mut buffer).is_none());
    assert_eq!(buffer.miss_predict_counter, 0);

    // sustained divergence counts up without touching history
    let diverging = vec![(Id(1), snapshot(Vec3 { x: 0, y: 0, z: 0 }))];
    for expected in 1..MISS_PREDICT_LIMIT {
        let fired = reconcile_player(seq, &diverging, &info, &mut buffer);
        assert!(fired.is_none());
        assert_eq!(buffer.miss_predict_counter, expected);
        match buffer.lookup(seq).unwrap()[0].0 {
            StateType::PlayerState { player } => {
                assert_eq!(player.position, Vec3 { x: 1500, y: 0, z: 0 })
            }
            _ => panic!("snapshot expected"),
        }
    }

    // the limit-th consecutive mismatch corrects exactly once and resets
    let fired = reconcile_player(seq, &diverging, &info, &mut buffer)
        .expect("the correction fires at the limit");
    assert_eq!(buffer.miss_predict_counter, 0);
    assert_eq!(fired.received_sequence_number, seq);
    match buffer.lookup(seq).unwrap()[0].0 {
        StateType::PlayerState { player } => {
            assert_eq!(player.position, Vec3 { x: 0, y: 0, z: 0 })
        }
        _ => panic!("snapshot expected"),
    }
}

#[test]
fn equality_resets_the_miss_counter() {
    let seq: u16 = 4;
    let mut buffer = ReconcileBuffer::new();
    buffer.sequence_counter = seq;
    store_game_state(frame(Vec3 { x: 1500, y: 0, z: 0 }, INPUT_RIGHT), &mut buffer);

    let mut info = PlayerInfo::new();
    info.current_player_id = Id(1);

    let diverging = vec![(Id(1), snapshot(Vec3 { x: 0, y: 0, z: 0 }))];
    let agreeing = vec![(Id(1), snapshot(Vec3 { x: 1500, y: 0, z: 0 }))];
    assert!(reconcile_player(seq, &diverging, &info, &mut buffer).is_none());
    assert!(reconcile_player(seq, &diverging, &info, &mut buffer).is_none());
    assert_eq!(buffer.miss_predict_counter, 2);
    assert!(reconcile_player(seq, &agreeing, &info, &mut buffer).is_none());
    assert_eq!(buffer.miss_predict_counter, 0);
}

#[test]
fn correction_replays_buffered_inputs_from_the_corrected_base() {
    // the client walked right for three ticks from the origin, but the
    // server says the tick at the tagged sequence ended at the origin
    let seq: u16 = 100;
    let mut buffer = ReconcileBuffer::new();
    buffer.sequence_counter = seq;
    store_game_state(frame(Vec3 { x: 1500, y: 0, z: 0 }, INPUT_RIGHT), &mut buffer);
    buffer.sequence_counter = 101;
    store_game_state(frame(Vec3 { x: 3000, y: 0, z: 0 }, INPUT_RIGHT), &mut buffer);
    buffer.sequence_counter = 102;
    store_game_state(frame(Vec3 { x: 4500, y: 0, z: 0 }, INPUT_RIGHT), &mut buffer);

    let mut info = PlayerInfo::new();
    info.current_player_id = Id(1);
    let authoritative = vec![(Id(1), snapshot(Vec3 { x: 0, y: 0, z: 0 }))];

    let mut fired = None;
    for _ in 0..MISS_PREDICT_LIMIT {
        fired = reconcile_player(seq, &authoritative, &info, &mut buffer);
    }
    let correction = fired.expect("the correction fires at the limit");

    let adopted = correction
        .apply(&mut buffer, &YawRotation::identity())
        .expect("the corrected frame carries a snapshot");
    // two buffered right-walk inputs replayed over free space from the
    // origin: the horizontal track is rebuilt, gravity pulls each tick
    assert_eq!(adopted.position.x, 3000);
    assert_eq!(adopted.linear_velocity.x, WALK_SPEED);
    match buffer.lookup(102).unwrap()[0].0 {
        StateType::PlayerState { player } => assert_eq!(player.position.x, 3000),
        _ => panic!("snapshot expected"),
    }
    match buffer.lookup(101).unwrap()[0].0 {
        StateType::PlayerState { player } => assert_eq!(player.position.x, 1500),
        _ => panic!("snapshot expected"),
    }
}
