use netsync::chat::{Chat, ChatMessage, CHAT_HISTORY_LEN};
use netsync::common::{Id, Vec2};
use netsync::net_manage::{Endpoint, Packet, StreamHandle, TcpConnection, UdpConnection};
use netsync::net_message::{
    encode_message_batch, CTcpType, CUdpType, NetworkMessage, STcpType, SUdpType,
};
use netsync::net_system::{server_tcp_net_receive, server_udp_net_receive};
use netsync::net_tasks::{
    server_handle_tcp_connection, server_handle_udp_connection, server_handle_udp_message,
};
use netsync::player::PendingInputs;

fn blob(batch: Vec<CUdpType>) -> Packet {
    let wrapped: Vec<NetworkMessage<CUdpType>> =
        batch.iter().cloned().map(NetworkMessage).collect();
    Packet { bytes: encode_message_batch(&wrapped) }
}

#[test]
fn last_sequence_and_input_win_in_one_tick() {
    let mut conn: UdpConnection<SUdpType> =
        UdpConnection::new(Some(Endpoint { ip: 1, port: 2 }));
    conn.input_packet_buffer.push_back(blob(vec![
        CUdpType::Sequence { sequence_number: 5 },
        CUdpType::Input { keymask: 0b01, mouse_delta: Vec2 { x: 0, y: 0 } },
    ]));
    conn.input_packet_buffer.push_back(blob(vec![
        CUdpType::Sequence { sequence_number: 7 },
        CUdpType::Input { keymask: 0b10, mouse_delta: Vec2 { x: 0, y: 0 } },
    ]));

    let push = server_handle_udp_connection(&mut conn, 1000);
    assert!(push.is_none(), "no identity was reported");
    assert_eq!(conn.input_packet_buffer.len(), 0);
    // only the later tag is echoed
    let msgs = conn.get_current_messages();
    assert_eq!(msgs.len(), 1);
    match &msgs[0].0 {
        SUdpType::Sequence { sequence_number } => assert_eq!(*sequence_number, 7),
        other => panic!("unexpected echo: {:?}", other),
    }
}

#[test]
fn identified_input_reaches_the_player_backlog() {
    let mut conn: UdpConnection<SUdpType> =
        UdpConnection::new(Some(Endpoint { ip: 1, port: 2 }));
    conn.input_packet_buffer.push_back(blob(vec![
        CUdpType::PlayerId { id: Id(9) },
        CUdpType::Sequence { sequence_number: 5 },
        CUdpType::Input { keymask: 0b01, mouse_delta: Vec2 { x: 1, y: 2 } },
    ]));
    conn.input_packet_buffer.push_back(blob(vec![
        CUdpType::PlayerId { id: Id(9) },
        CUdpType::Sequence { sequence_number: 7 },
        CUdpType::Input { keymask: 0b10, mouse_delta: Vec2 { x: 3, y: 4 } },
    ]));
    let mut connections = vec![conn];
    let mut pending = vec![(Id(9), PendingInputs::new())];

    server_handle_udp_message(&mut connections, &mut pending, 1000);
    // one effective input for the whole drained batch: the last seen
    // wins, the earlier duplicate is discarded, not merged
    let backlog = &pending[0].1.buffer;
    assert_eq!(backlog.len(), 1);
    assert_eq!(backlog.front().unwrap().keymask, 0b10);
    assert_eq!(backlog.front().unwrap().mouse_delta, Vec2 { x: 3, y: 4 });
}

#[test]
fn ping_is_answered_with_a_stamped_pong() {
    let mut conn: UdpConnection<SUdpType> =
        UdpConnection::new(Some(Endpoint { ip: 1, port: 2 }));
    conn.input_packet_buffer.push_back(blob(vec![CUdpType::Ping {
        start_time: 400,
        last_rtt: 33,
    }]));
    let _ = server_handle_udp_connection(&mut conn, 1000);
    assert_eq!(conn.ping, 33);
    let msgs = conn.get_current_messages();
    assert_eq!(msgs.len(), 1);
    match &msgs[0].0 {
        SUdpType::Pong { initiation_time, server_received_time } => {
            assert_eq!(*initiation_time, 400);
            assert_eq!(*server_received_time, 1000);
        }
        other => panic!("unexpected answer: {:?}", other),
    }
}

#[test]
fn malformed_blobs_are_skipped_not_fatal() {
    let mut conn: UdpConnection<SUdpType> =
        UdpConnection::new(Some(Endpoint { ip: 1, port: 2 }));
    conn.input_packet_buffer.push_back(Packet { bytes: vec![255, 255, 1] });
    conn.input_packet_buffer.push_back(blob(vec![CUdpType::Sequence {
        sequence_number: 3,
    }]));
    let _ = server_handle_udp_connection(&mut conn, 0);
    let msgs = conn.get_current_messages();
    assert_eq!(msgs.len(), 1);
    match &msgs[0].0 {
        SUdpType::Sequence { sequence_number } => assert_eq!(*sequence_number, 3),
        other => panic!("unexpected echo: {:?}", other),
    }
}

#[test]
fn an_unknown_address_registers_exactly_one_connection() {
    let mut connections: Vec<UdpConnection<SUdpType>> = Vec::new();
    let addr = Endpoint { ip: 0x7F000001, port: 4444 };

    server_udp_net_receive(&mut connections, vec![1, 2, 3], addr);
    assert_eq!(connections.len(), 1);
    assert_eq!(connections[0].socket, Some(addr));
    assert_eq!(connections[0].input_packet_buffer.len(), 1);

    // a second datagram from the same address reuses the connection
    server_udp_net_receive(&mut connections, vec![4, 5], addr);
    assert_eq!(connections.len(), 1);
    assert_eq!(connections[0].input_packet_buffer.len(), 2);

    // a different address registers its own
    let other = Endpoint { ip: 0x7F000001, port: 4445 };
    server_udp_net_receive(&mut connections, vec![6], other);
    assert_eq!(connections.len(), 2);
    assert_eq!(connections[1].socket, Some(other));
}

#[test]
fn an_unknown_stream_registers_exactly_one_connection() {
    let mut connections: Vec<TcpConnection<STcpType>> = Vec::new();
    let stream = StreamHandle { id: 11 };
    server_tcp_net_receive(&mut connections, vec![1], stream);
    server_tcp_net_receive(&mut connections, vec![2], stream);
    assert_eq!(connections.len(), 1);
    assert_eq!(connections[0].input_packet_buffer.len(), 2);
}

#[test]
fn reliable_messages_feed_chat_and_collect_joins() {
    let mut conn: TcpConnection<STcpType> =
        TcpConnection::new(Some(StreamHandle { id: 1 }));
    let mut batch: Vec<NetworkMessage<CTcpType>> = Vec::new();
    for i in 0..(CHAT_HISTORY_LEN as u32 + 2) {
        batch.push(NetworkMessage(CTcpType::ChatMessage {
            player_id: Id(i),
            message: ChatMessage { message: vec![b'a' + (i % 26) as u8] },
        }));
    }
    batch.push(NetworkMessage(CTcpType::Join { lobby_id: Id(1) }));
    conn.input_packet_buffer.push_back(Packet { bytes: encode_message_batch(&batch) });

    let mut chat = Chat::new();
    let joins = server_handle_tcp_connection(&mut conn, &mut chat);
    assert_eq!(joins, vec![Id(1)]);
    // the oldest lines were evicted as the bound was reached
    assert_eq!(chat.chat_history.len(), CHAT_HISTORY_LEN);
    assert_eq!(chat.chat_history.front().unwrap().0, Id(2));
    assert_eq!(chat.chat_history.back().unwrap().0, Id(CHAT_HISTORY_LEN as u32 + 1));
}
