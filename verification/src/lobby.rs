//! Joining a lobby: the client's join request and the server's answer,
//! which assigns a fresh random identity.

use vstd::prelude::*;
use crate::common::Id;
use crate::net_manage::{spec_queue, TcpConnection};
use crate::net_message::{CTcpType, NetworkMessage, STcpType};
use crate::player::PendingInputs;

verus! {

/// The one lobby this game has.
pub const LOBBY_ID: u32 = 1;

/// Relies on rand::random: a uniformly drawn value; nothing more is
/// assumed of any one outcome.
#[verifier::external_body]
fn generate_random_u32() -> u32 {
    rand::random::<u32>()
}

/// Ask to join the lobby; before the reliable channel is established
/// nothing is sent.
pub fn join_lobby(connection: &mut TcpConnection<CTcpType>)
    ensures
        old(connection).stream is Some ==> final(connection).messages() == spec_queue(
            old(connection).messages(),
            (NetworkMessage(CTcpType::Join { lobby_id: (Id(LOBBY_ID)) })),
        ),
        old(connection).stream is None ==> final(connection).messages() == old(
            connection,
        ).messages(),
        final(connection).stream == old(connection).stream,
        final(connection).input_packet_buffer == old(connection).input_packet_buffer,
        final(connection).ping == old(connection).ping,
        old(connection).wf() ==> final(connection).wf(),
{
    if connection.stream.is_some() {
        connection.add_message(NetworkMessage(CTcpType::Join { lobby_id: Id(LOBBY_ID) }));
    }
}

/// Answer a join: draw a fresh identity, register an empty input
/// backlog for it, and tell the client its identity. Whatever identity
/// the draw produced, exactly these two effects happen with it.
pub fn handle_join(
    lobby_id: Id,
    connection: &mut TcpConnection<STcpType>,
    pending: &mut Vec<(Id, PendingInputs)>,
) -> (r: Id)
    ensures
        final(connection).messages() == spec_queue(
            old(connection).messages(),
            (NetworkMessage(STcpType::PlayerId { player_uid: r })),
        ),
        final(connection).stream == old(connection).stream,
        final(connection).input_packet_buffer == old(connection).input_packet_buffer,
        final(connection).ping == old(connection).ping,
        old(connection).wf() ==> final(connection).wf(),
        final(pending)@.len() == old(pending)@.len() + 1,
        forall|k: int| 0 <= k < old(pending)@.len() ==> final(pending)@[k] == old(pending)@[k],
        final(pending)@.last().0 == r,
        final(pending)@.last().1.buffer@ == Seq::<crate::player::PlayerInput>::empty(),
{
    let player_id = generate_random_u32();
    let id = Id(player_id);
    pending.push((id, PendingInputs::new()));
    connection.add_message(NetworkMessage(STcpType::PlayerId { player_uid: id }));
    id
}

} // verus!
