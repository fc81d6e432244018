use netsync::camera::{apply_player_camera_input, CameraInfo, PITCH_LIMIT};
use netsync::chat::{Chat, ChatMessage, CHAT_HISTORY_LEN};
use netsync::common::{Id, Vec2, Vec3};
use netsync::net_manage::{Endpoint, StreamHandle, TcpConnection, UdpConnection};
use netsync::net_message::{
    encode_message_batch, CTcpType, CUdpType, NetworkMessage, STcpType, SUdpType,
};
use netsync::net_reconciliation::{
    store_game_state, ObjectState, ReconcileBuffer, StateType, MISS_PREDICT_LIMIT,
};
use netsync::net_system::{
    client_tcp_net_receive, client_udp_net_receive, client_udp_net_send,
    client_udp_net_send_finish, tcp_connection_send, tcp_connection_sent,
};
use netsync::net_tasks::{
    add_ping_message, build_connection_messages, client_handle_tcp_message,
    client_handle_udp_message,
};
use netsync::lobby::{handle_join, join_lobby};
use netsync::net_manage::Packet;
use netsync::player::{
    input_system, player_controller, AnimationState, PendingInputs, Player, PlayerInfo,
    YawRotation, INPUT_FORWARD, INPUT_JUMP, INPUT_RUN, WALK_SPEED,
};

fn sudp_blob(batch: Vec<SUdpType>) -> Packet {
    let wrapped: Vec<NetworkMessage<SUdpType>> =
        batch.iter().cloned().map(NetworkMessage).collect();
    Packet { bytes: encode_message_batch(&wrapped) }
}

fn stcp_blob(batch: Vec<STcpType>) -> Packet {
    let wrapped: Vec<NetworkMessage<STcpType>> =
        batch.iter().cloned().map(NetworkMessage).collect();
    Packet { bytes: encode_message_batch(&wrapped) }
}

fn walking(position: Vec3) -> Player {
    Player {
        position,
        linear_velocity: Vec3 { x: WALK_SPEED, y: 0, z: 0 },
        yaw: 0,
        pitch: 0,
        animation_state: AnimationState::Walking,
    }
}

#[test]
fn first_datagram_establishes_the_endpoint() {
    let mut conn: UdpConnection<CUdpType> = UdpConnection::new(None);
    let addr = Endpoint { ip: 0x7F000001, port: 4444 };
    client_udp_net_receive(&mut conn, vec![], addr);
    assert_eq!(conn.socket, Some(addr));
    assert_eq!(conn.input_packet_buffer.len(), 0);
    client_udp_net_receive(&mut conn, vec![9, 9], addr);
    assert_eq!(conn.input_packet_buffer.len(), 1);
}

#[test]
fn first_stream_read_establishes_the_handle() {
    let mut conn: TcpConnection<CTcpType> = TcpConnection::new(None);
    let stream = StreamHandle { id: 3 };
    client_tcp_net_receive(&mut conn, vec![], stream);
    assert_eq!(conn.stream, Some(stream));
    client_tcp_net_receive(&mut conn, vec![1], stream);
    assert_eq!(conn.input_packet_buffer.len(), 1);
}

#[test]
fn the_send_tags_the_batch_and_the_counter_advances() {
    let mut conn: UdpConnection<CUdpType> =
        UdpConnection::new(Some(Endpoint { ip: 1, port: 1 }));
    let mut buffer = ReconcileBuffer::new();
    assert!(client_udp_net_send(&mut conn, &buffer).is_none());

    conn.add_message(NetworkMessage(CUdpType::PlayerId { id: Id(4) }));
    let bytes = client_udp_net_send(&mut conn, &buffer).expect("a nonempty queue encodes");
    // the blob decodes back to the queue with the sequence tag appended
    let decoded = netsync::net_message::decode_message_batch::<CUdpType>(&bytes).unwrap();
    assert_eq!(decoded.len(), 2);
    assert!(matches!(decoded[1], CUdpType::Sequence { sequence_number: 0 }));

    client_udp_net_send_finish(&mut conn, &mut buffer, true);
    assert!(conn.is_empty_messages());
    assert_eq!(buffer.sequence_counter, 1);

    // a failed send keeps the queue and the counter: the counter only
    // advances after a successful outbound send
    conn.add_message(NetworkMessage(CUdpType::PlayerId { id: Id(4) }));
    let _ = client_udp_net_send(&mut conn, &buffer);
    client_udp_net_send_finish(&mut conn, &mut buffer, false);
    assert!(!conn.is_empty_messages());
    assert_eq!(buffer.sequence_counter, 1);
}

#[test]
fn pong_refreshes_the_round_trip() {
    let mut conn: UdpConnection<SUdpType> =
        UdpConnection::new(Some(Endpoint { ip: 1, port: 1 }));
    conn.input_packet_buffer.push_back(sudp_blob(vec![
        SUdpType::Sequence { sequence_number: 0 },
        SUdpType::Pong { initiation_time: 400, server_received_time: 450 },
    ]));
    let info = PlayerInfo::new();
    let mut buffer = ReconcileBuffer::new();
    let outcome = client_handle_udp_message(&mut conn, &info, &mut buffer, 1000);
    assert_eq!(conn.ping, 600);
    assert!(outcome.corrections.is_empty());
}

#[test]
fn an_agreeing_snapshot_fires_no_correction() {
    let mut conn: UdpConnection<SUdpType> =
        UdpConnection::new(Some(Endpoint { ip: 1, port: 1 }));
    let mut buffer = ReconcileBuffer::new();
    let mut info = PlayerInfo::new();
    info.current_player_id = Id(1);

    buffer.sequence_counter = 8;
    store_game_state(
        vec![ObjectState(StateType::PlayerState {
            player: walking(Vec3 { x: 1500, y: 0, z: 0 }),
        })],
        &mut buffer,
    );
    conn.input_packet_buffer.push_back(sudp_blob(vec![
        SUdpType::Sequence { sequence_number: 8 },
        SUdpType::Players { players: vec![(Id(1), walking(Vec3 { x: 1500, y: 0, z: 0 }))] },
    ]));
    let outcome = client_handle_udp_message(&mut conn, &info, &mut buffer, 0);
    assert!(outcome.corrections.is_empty());
    assert_eq!(buffer.miss_predict_counter, 0);
    let seen = outcome.players.expect("the snapshot map is handed back");
    assert_eq!(seen.len(), 1);
    assert_eq!(seen[0].0, Id(1));
}

#[test]
fn sustained_divergence_corrects_through_the_handler() {
    let mut conn: UdpConnection<SUdpType> =
        UdpConnection::new(Some(Endpoint { ip: 1, port: 1 }));
    let mut buffer = ReconcileBuffer::new();
    let mut info = PlayerInfo::new();
    info.current_player_id = Id(1);

    buffer.sequence_counter = 8;
    store_game_state(
        vec![
            ObjectState(StateType::PlayerState {
                player: walking(Vec3 { x: 1500, y: 0, z: 0 }),
            }),
            ObjectState(StateType::InputState {
                encoded_input: 0,
                mouse_delta: Vec2 { x: 0, y: 0 },
            }),
        ],
        &mut buffer,
    );
    buffer.sequence_counter = 9;

    for _ in 0..MISS_PREDICT_LIMIT {
        conn.input_packet_buffer.push_back(sudp_blob(vec![
            SUdpType::Sequence { sequence_number: 8 },
            SUdpType::Players {
                players: vec![(Id(1), walking(Vec3 { x: 0, y: 0, z: 0 }))],
            },
        ]));
    }
    let outcome = client_handle_udp_message(&mut conn, &info, &mut buffer, 0);
    assert_eq!(outcome.corrections.len(), 1);
    let correction = &outcome.corrections[0];
    assert_eq!(correction.received_sequence_number, 8);
    // the slot now carries the authoritative snapshot
    match buffer.lookup(8).unwrap()[0].0 {
        StateType::PlayerState { player } => {
            assert_eq!(player.position, Vec3 { x: 0, y: 0, z: 0 })
        }
        _ => panic!("snapshot expected"),
    }
    let adopted = correction
        .apply(&mut buffer, &YawRotation::identity())
        .expect("the corrected frame carries a snapshot");
    assert_eq!(adopted.position.x, 0);
}

#[test]
fn assigned_identity_resets_the_timeline() {
    let mut conn: TcpConnection<CTcpType> = TcpConnection::new(Some(StreamHandle { id: 1 }));
    let mut info = PlayerInfo::new();
    let mut chat = Chat::new();
    let mut buffer = ReconcileBuffer::new();
    store_game_state(vec![], &mut buffer);
    conn.input_packet_buffer.push_back(stcp_blob(vec![STcpType::PlayerId {
        player_uid: Id(77),
    }]));
    client_handle_tcp_message(&mut conn, &mut info, &mut chat, &mut buffer);
    assert_eq!(info.current_player_id, Id(77));
    assert_eq!(buffer.buffer.len(), 0);
}

#[test]
fn arriving_chat_replaces_the_window() {
    let mut conn: TcpConnection<CTcpType> = TcpConnection::new(Some(StreamHandle { id: 1 }));
    let mut info = PlayerInfo::new();
    let mut chat = Chat::new();
    let mut buffer = ReconcileBuffer::new();
    let mut lines: Vec<(Id, ChatMessage)> = Vec::new();
    for i in 0..(CHAT_HISTORY_LEN as u32 + 3) {
        lines.push((Id(i), ChatMessage { message: format!("line {}", i).into_bytes() }));
    }
    conn.input_packet_buffer.push_back(stcp_blob(vec![STcpType::Chat { messages: lines }]));
    client_handle_tcp_message(&mut conn, &mut info, &mut chat, &mut buffer);
    // the lines that fit the window survive, in arriving order
    assert_eq!(chat.chat_history.len(), CHAT_HISTORY_LEN);
    assert_eq!(chat.chat_history.front().unwrap().0, Id(0));
    assert_eq!(chat.chat_history.back().unwrap().0, Id(CHAT_HISTORY_LEN as u32 - 1));
}

#[test]
fn the_controller_queues_identity_and_input() {
    let mut info = PlayerInfo::new();
    info.current_player_id = Id(5);
    input_system(Vec2 { x: 10, y: -4 }, true, false, false, false, true, false, &mut info);
    assert_eq!(info.player_inputs, INPUT_FORWARD | INPUT_JUMP);

    let mut conn: UdpConnection<CUdpType> = UdpConnection::new(None);
    // without an endpoint nothing happens
    let recorded = player_controller(
        &mut info,
        Vec3 { x: 0, y: 0, z: 0 },
        Vec3 { x: 0, y: 0, z: 0 },
        CameraInfo { yaw: 0, pitch: 0 },
        &mut conn,
    );
    assert!(recorded.is_empty());
    assert!(conn.is_empty_messages());

    conn.socket = Some(Endpoint { ip: 1, port: 1 });
    let recorded = player_controller(
        &mut info,
        Vec3 { x: 0, y: 0, z: 0 },
        Vec3 { x: 0, y: 0, z: 0 },
        CameraInfo { yaw: 0, pitch: 0 },
        &mut conn,
    );
    assert_eq!(recorded.len(), 2);
    assert!(matches!(recorded[0].0, StateType::PlayerState { .. }));
    assert!(matches!(recorded[1].0, StateType::InputState { .. }));
    let msgs = conn.get_current_messages();
    assert_eq!(msgs.len(), 2);
    assert!(matches!(msgs[0].0, CUdpType::PlayerId { id: Id(5) }));
    assert!(matches!(msgs[1].0, CUdpType::Input { .. }));
    assert_eq!(info.accumulated_mouse_delta, Vec2 { x: 0, y: 0 });
}

#[test]
fn run_key_overrides_walking_state() {
    let mut info = PlayerInfo::new();
    input_system(Vec2 { x: 0, y: 0 }, true, false, false, false, false, true, &mut info);
    assert_eq!(info.player_inputs, INPUT_FORWARD | INPUT_RUN);
    assert!(!info
        .player_movement_state
        .contains(&netsync::player::MovementState::Walking));
    assert!(info
        .player_movement_state
        .contains(&netsync::player::MovementState::Running));

    input_system(Vec2 { x: 0, y: 0 }, false, false, false, false, false, false, &mut info);
    assert_eq!(info.player_inputs, 0);
    assert_eq!(info.player_movement_state, vec![netsync::player::MovementState::Idle]);
}

#[test]
fn pitch_clamps_at_a_quarter_turn() {
    let mut cam = CameraInfo { yaw: 0, pitch: 0 };
    apply_player_camera_input(Vec2 { x: 250, y: 999_999_999 }, &mut cam);
    assert_eq!(cam.pitch, PITCH_LIMIT);
    assert_eq!(cam.yaw, -250);
    apply_player_camera_input(Vec2 { x: 0, y: -999_999_999 }, &mut cam);
    assert_eq!(cam.pitch, -PITCH_LIMIT);
}

#[test]
fn the_ping_message_carries_time_and_last_round_trip() {
    let mut conn: UdpConnection<CUdpType> =
        UdpConnection::new(Some(Endpoint { ip: 1, port: 1 }));
    conn.ping = 42;
    add_ping_message(&mut conn, 12345);
    let msgs = conn.get_current_messages();
    assert!(matches!(
        msgs[0].0,
        CUdpType::Ping { start_time: 12345, last_rtt: 42 }
    ));
}

#[test]
fn snapshots_go_only_to_connections_with_a_round_trip_in_flight() {
    let mut active: UdpConnection<SUdpType> =
        UdpConnection::new(Some(Endpoint { ip: 1, port: 1 }));
    active.add_message(NetworkMessage(SUdpType::Sequence { sequence_number: 3 }));
    let idle: UdpConnection<SUdpType> = UdpConnection::new(Some(Endpoint { ip: 2, port: 2 }));
    let mut connections = vec![active, idle];
    let players = vec![(Id(1), walking(Vec3 { x: 0, y: 0, z: 0 }))];
    build_connection_messages(&mut connections, &players);
    assert_eq!(connections[0].get_current_messages().len(), 2);
    assert!(matches!(
        connections[0].get_current_messages()[1].0,
        SUdpType::Players { .. }
    ));
    assert!(connections[1].is_empty_messages());
}

#[test]
fn joining_assigns_an_identity_and_registers_a_backlog() {
    let mut conn: TcpConnection<CTcpType> = TcpConnection::new(Some(StreamHandle { id: 1 }));
    join_lobby(&mut conn);
    assert!(matches!(
        conn.get_current_messages()[0].0,
        CTcpType::Join { lobby_id: Id(1) }
    ));

    let mut server_conn: TcpConnection<STcpType> =
        TcpConnection::new(Some(StreamHandle { id: 1 }));
    let mut pending: Vec<(Id, PendingInputs)> = Vec::new();
    let id = handle_join(Id(1), &mut server_conn, &mut pending);
    assert_eq!(pending.len(), 1);
    assert_eq!(pending[0].0, id);
    assert!(pending[0].1.buffer.is_empty());
    match server_conn.get_current_messages()[0].0 {
        STcpType::PlayerId { player_uid } => assert_eq!(player_uid, id),
        _ => panic!("identity expected"),
    }
}

#[test]
fn a_sent_reliable_blob_empties_the_queue() {
    let mut conn: TcpConnection<CTcpType> = TcpConnection::new(Some(StreamHandle { id: 1 }));
    join_lobby(&mut conn);
    let bytes = tcp_connection_send(&conn).expect("a nonempty queue encodes");
    assert!(!bytes.is_empty());
    tcp_connection_sent(&mut conn, true);
    assert!(conn.is_empty_messages());
    assert!(tcp_connection_send(&conn).is_none());
}
