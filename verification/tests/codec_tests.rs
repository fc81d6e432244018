use netsync::chat::ChatMessage;
use netsync::codec::{read_i64, read_u16, read_u32, read_u64, write_i64, write_u16, write_u32, write_u64};
use netsync::common::{Id, Vec2, Vec3};
use netsync::net_message::{
    decode_message_batch, encode_message_batch, CTcpType, CUdpType, NetworkMessage, STcpType,
    SUdpType,
};
use netsync::player::{AnimationState, Player};

fn roundtrip_cudp(batch: Vec<CUdpType>) {
    let wrapped: Vec<NetworkMessage<CUdpType>> =
        batch.iter().cloned().map(NetworkMessage).collect();
    let bytes = encode_message_batch(&wrapped);
    let decoded = decode_message_batch::<CUdpType>(&bytes).expect("valid encoding");
    assert_eq!(decoded, batch);
}

#[test]
fn cudp_batch_round_trip() {
    roundtrip_cudp(vec![]);
    roundtrip_cudp(vec![
        CUdpType::PlayerId { id: Id(7) },
        CUdpType::Sequence { sequence_number: 1023 },
        CUdpType::Input {
            keymask: 0b110101,
            mouse_delta: Vec2 { x: -123456, y: 789 },
        },
        CUdpType::Ping { start_time: 4000000000, last_rtt: 17 },
    ]);
}

#[test]
fn sudp_batch_round_trip() {
    let players = vec![
        (
            Id(1),
            Player {
                position: Vec3 { x: 1500, y: 0, z: -2500 },
                linear_velocity: Vec3 { x: -1, y: i64::MIN, z: i64::MAX },
                yaw: -3141592,
                pitch: 1570796,
                animation_state: AnimationState::Running,
            },
        ),
        (
            Id(2),
            Player {
                position: Vec3 { x: 0, y: 0, z: 0 },
                linear_velocity: Vec3 { x: 0, y: 0, z: 0 },
                yaw: 0,
                pitch: 0,
                animation_state: AnimationState::Idle,
            },
        ),
    ];
    let batch = vec![
        SUdpType::Sequence { sequence_number: 99 },
        SUdpType::Players { players },
        SUdpType::Pong { initiation_time: 5, server_received_time: 6 },
    ];
    let wrapped: Vec<NetworkMessage<SUdpType>> =
        batch.iter().cloned().map(NetworkMessage).collect();
    let bytes = encode_message_batch(&wrapped);
    let decoded = decode_message_batch::<SUdpType>(&bytes).expect("valid encoding");
    assert_eq!(decoded, batch);
}

#[test]
fn ctcp_batch_round_trip() {
    let batch = vec![
        CTcpType::ChatMessage {
            player_id: Id(42),
            message: ChatMessage { message: b"hello world".to_vec() },
        },
        CTcpType::Join { lobby_id: Id(1) },
    ];
    let wrapped: Vec<NetworkMessage<CTcpType>> =
        batch.iter().cloned().map(NetworkMessage).collect();
    let bytes = encode_message_batch(&wrapped);
    let decoded = decode_message_batch::<CTcpType>(&bytes).expect("valid encoding");
    assert_eq!(decoded, batch);
}

#[test]
fn stcp_batch_round_trip() {
    let batch = vec![
        STcpType::PlayerId { player_uid: Id(31337) },
        STcpType::Chat {
            messages: vec![
                (Id(1), ChatMessage { message: b"hi".to_vec() }),
                (Id(2), ChatMessage { message: vec![] }),
            ],
        },
    ];
    let wrapped: Vec<NetworkMessage<STcpType>> =
        batch.iter().cloned().map(NetworkMessage).collect();
    let bytes = encode_message_batch(&wrapped);
    let decoded = decode_message_batch::<STcpType>(&bytes).expect("valid encoding");
    assert_eq!(decoded, batch);
}

#[test]
fn decode_rejects_truncated_blob() {
    let wrapped = vec![NetworkMessage(CUdpType::Sequence { sequence_number: 5 })];
    let mut bytes = encode_message_batch(&wrapped);
    bytes.pop();
    assert!(decode_message_batch::<CUdpType>(&bytes).is_err());
}

#[test]
fn decode_rejects_trailing_bytes() {
    let wrapped = vec![NetworkMessage(CUdpType::Sequence { sequence_number: 5 })];
    let mut bytes = encode_message_batch(&wrapped);
    bytes.push(0);
    assert!(decode_message_batch::<CUdpType>(&bytes).is_err());
}

#[test]
fn decode_rejects_unknown_tag() {
    // count = 1, then a tag no client message uses
    let bytes = vec![1u8, 0u8, 9u8];
    assert!(decode_message_batch::<CUdpType>(&bytes).is_err());
}

#[test]
fn decode_rejects_unknown_animation() {
    let players = vec![(
        Id(1),
        Player {
            position: Vec3 { x: 0, y: 0, z: 0 },
            linear_velocity: Vec3 { x: 0, y: 0, z: 0 },
            yaw: 0,
            pitch: 0,
            animation_state: AnimationState::Idle,
        },
    )];
    let wrapped = vec![NetworkMessage(SUdpType::Players { players })];
    let mut bytes = encode_message_batch(&wrapped);
    // the animation tag is the final byte of the lone player entry
    let last = bytes.len() - 1;
    bytes[last] = 200;
    assert!(decode_message_batch::<SUdpType>(&bytes).is_err());
}

#[test]
fn decode_rejects_bad_sign_byte() {
    let wrapped = vec![NetworkMessage(CUdpType::Input {
        keymask: 0,
        mouse_delta: Vec2 { x: 0, y: 0 },
    })];
    let mut bytes = encode_message_batch(&wrapped);
    // the x coordinate's sign byte follows the count, tag and keymask
    bytes[5] = 7;
    assert!(decode_message_batch::<CUdpType>(&bytes).is_err());
}

#[test]
fn decode_empty_input_is_error() {
    let bytes: Vec<u8> = vec![];
    assert!(decode_message_batch::<CUdpType>(&bytes).is_err());
}

#[test]
fn primitive_round_trips() {
    let mut out: Vec<u8> = Vec::new();
    write_u16(&mut out, 0xBEEF);
    write_u32(&mut out, 0xDEADBEEF);
    write_u64(&mut out, 0x0123456789ABCDEF);
    write_i64(&mut out, i64::MIN);
    write_i64(&mut out, -1);
    write_i64(&mut out, i64::MAX);
    let mut pos = 0usize;
    assert_eq!(read_u16(&out, &mut pos).unwrap(), 0xBEEF);
    assert_eq!(read_u32(&out, &mut pos).unwrap(), 0xDEADBEEF);
    assert_eq!(read_u64(&out, &mut pos).unwrap(), 0x0123456789ABCDEF);
    assert_eq!(read_i64(&out, &mut pos).unwrap(), i64::MIN);
    assert_eq!(read_i64(&out, &mut pos).unwrap(), -1);
    assert_eq!(read_i64(&out, &mut pos).unwrap(), i64::MAX);
    assert_eq!(pos, out.len());
}
