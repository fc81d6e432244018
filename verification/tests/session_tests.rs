use netsync::camera::CameraInfo;
use netsync::chat::Chat;
use netsync::common::{Id, Vec2, Vec3};
use netsync::lobby::{handle_join, join_lobby};
use netsync::net_manage::{Endpoint, StreamHandle, TcpConnection, UdpConnection};
use netsync::net_message::{CTcpType, CUdpType, STcpType, SUdpType};
use netsync::net_reconciliation::{store_game_state, ReconcileBuffer};
use netsync::net_system::{
    client_tcp_net_receive, client_udp_net_receive, client_udp_net_send,
    client_udp_net_send_finish, server_tcp_net_receive, server_udp_net_receive,
    tcp_connection_send, tcp_connection_sent, udp_connection_send, udp_connection_sent,
};
use netsync::net_tasks::{
    build_connection_messages, client_handle_tcp_message, client_handle_udp_message,
    server_handle_tcp_connection, server_handle_udp_message,
};
use netsync::player::{
    apply_player_movement_input, input_system, player_controller, predict_player_tick,
    AnimationState, ContactHit, PendingInputs, Player, PlayerInfo, PredictedPlayerState,
    YawRotation, INPUT_FORWARD,
};

/// One whole round trip through the verified pipeline: join, predict,
/// record, send, aggregate, snapshot, reconcile -- with the server
/// agreeing, so no correction fires.
#[test]
fn a_full_tick_round_trip_reconciles_cleanly() {
    let client_addr = Endpoint { ip: 0x0A000001, port: 5555 };
    let stream = StreamHandle { id: 1 };

    // --- join over the reliable channel
    let mut client_tcp: TcpConnection<CTcpType> = TcpConnection::new(Some(stream));
    join_lobby(&mut client_tcp);
    let join_blob = tcp_connection_send(&client_tcp).unwrap();
    tcp_connection_sent(&mut client_tcp, true);

    let mut server_tcps: Vec<TcpConnection<STcpType>> = Vec::new();
    server_tcp_net_receive(&mut server_tcps, join_blob, stream);
    let mut chat = Chat::new();
    let joins = server_handle_tcp_connection(&mut server_tcps[0], &mut chat);
    let mut pending: Vec<(Id, PendingInputs)> = Vec::new();
    let player_id = handle_join(joins[0], &mut server_tcps[0], &mut pending);
    let answer_blob = tcp_connection_send(&server_tcps[0]).unwrap();
    tcp_connection_sent(&mut server_tcps[0], true);

    let mut info = PlayerInfo::new();
    let mut buffer = ReconcileBuffer::new();
    client_tcp_net_receive(&mut client_tcp, answer_blob, stream);
    client_handle_tcp_message(&mut client_tcp, &mut info, &mut chat, &mut buffer);
    assert_eq!(info.current_player_id, player_id);

    // --- one predicted client tick: walk forward on flat ground
    input_system(Vec2 { x: 0, y: 0 }, true, false, false, false, false, false, &mut info);
    let mut predicted = PredictedPlayerState {
        position: Vec3 { x: 0, y: 0, z: 0 },
        linear_velocity: Vec3 { x: 0, y: 0, z: 0 },
        yaw: 0,
        pitch: 0,
    };
    let ground = Some(ContactHit {
        distance: 1_000_000_000,
        normal: Vec3 { x: 0, y: 1000, z: 0 },
    });
    predict_player_tick(
        &mut predicted,
        info.player_inputs,
        Vec2 { x: 0, y: 0 },
        &YawRotation::identity(),
        ground,
    );
    assert_eq!(predicted.position, Vec3 { x: 0, y: 0, z: -1500 });

    let mut client_udp: UdpConnection<CUdpType> =
        UdpConnection::new(Some(Endpoint { ip: 0x7F000001, port: 4444 }));
    let recorded = player_controller(
        &mut info,
        predicted.position,
        predicted.linear_velocity,
        CameraInfo { yaw: predicted.yaw, pitch: predicted.pitch },
        &mut client_udp,
    );
    store_game_state(recorded, &mut buffer);
    let tick_blob = client_udp_net_send(&mut client_udp, &buffer).unwrap();
    client_udp_net_send_finish(&mut client_udp, &mut buffer, true);

    // --- the server aggregates the tick and advances its ground truth
    let mut server_udps: Vec<UdpConnection<SUdpType>> = Vec::new();
    server_udp_net_receive(&mut server_udps, tick_blob, client_addr);
    server_handle_udp_message(&mut server_udps, &mut pending, 0);
    let input = pending[0].1.buffer.pop_front().expect("the tick's input arrived");
    assert_eq!(input.keymask, INPUT_FORWARD);

    let mut authoritative = Vec3 { x: 0, y: 0, z: 0 };
    let mut velocity = Vec3 { x: 0, y: 0, z: 0 };
    apply_player_movement_input(input.keymask, &mut velocity, &YawRotation::identity());
    authoritative.z += velocity.z;
    let snapshot = vec![(
        player_id,
        Player {
            position: authoritative,
            linear_velocity: velocity,
            yaw: 0,
            pitch: 0,
            animation_state: AnimationState::Walking,
        },
    )];
    build_connection_messages(&mut server_udps, &snapshot);
    let snapshot_blob = udp_connection_send(&server_udps[0]).unwrap();
    udp_connection_sent(&mut server_udps[0], true);

    // --- the client reconciles against the agreeing snapshot
    let mut inbox: UdpConnection<SUdpType> = UdpConnection::new(Some(client_addr));
    client_udp_net_receive(&mut client_udp, snapshot_blob.clone(), client_addr);
    inbox
        .input_packet_buffer
        .push_back(netsync::net_manage::Packet { bytes: snapshot_blob });
    let outcome = client_handle_udp_message(&mut inbox, &info, &mut buffer, 0);
    assert!(outcome.corrections.is_empty());
    assert_eq!(buffer.miss_predict_counter, 0);
    let seen = outcome.players.unwrap();
    assert_eq!(seen[0].1.position, Vec3 { x: 0, y: 0, z: -1500 });
}
