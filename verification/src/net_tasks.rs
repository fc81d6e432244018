//! Per-tick message handling: the server aggregator that drains each
//! connection's inbound packets into one effective input per tick, and
//! the client's ping bookkeeping.

use vstd::prelude::*;
use crate::common::{Id, Vec2};
use crate::chat::{server_add_chat_message, spec_taken, Chat, ChatMessage, CHAT_HISTORY_LEN};
use crate::net_manage::{packet_views, spec_queue, Packet, TcpConnection, UdpConnection};
use crate::net_message::{
    chats_view, spec_dec_batch, decode_message_batch, CTcpType, CTcpView, CUdpType,
    NetworkMessage, NetworkMessageType, STcpType, STcpView, SUdpType, SUdpView,
};
use crate::net_reconciliation::{ObjectState, ReconcileBuffer, BUFFER_SIZE};
use crate::player::{PendingInputs, Player, PlayerInfo, PlayerInput};
use crate::reconcile::{
    reconcile_player, spec_find_player, spec_reconcile_decision, ResimulatePlayer,
};

verus! {

/// The most packets one connection may have decoded in one tick; the
/// rest of its backlog is discarded, favoring the most recent input.
pub const MESSAGE_PER_TICK_MAX: usize = 20;

/// What one tick's drained batch boils down to for one connection:
/// the last-seen values win.
pub struct MessageBuffer {
    pub sequence_number: Option<u16>,
    pub player_id: Option<Id>,
    pub keymask: u16,
    pub mouse_delta: Vec2,
    /// A scheduled pong: the ping's start time and when it arrived.
    pub pong_message: Option<(u32, u32)>,
}

/// The accumulator before any packet is read.
pub open spec fn spec_empty_buffer() -> MessageBuffer {
    MessageBuffer {
        sequence_number: None,
        player_id: None,
        keymask: 0u16,
        mouse_delta: Vec2 { x: 0i64, y: 0i64 },
        pong_message: None,
    }
}

/// What one decoded message does to the accumulator and to the
/// connection's stored round-trip time: later values overwrite earlier
/// ones, and a ping schedules a pong stamped with the present time.
pub open spec fn spec_handle_message(
    mb: MessageBuffer,
    ping: u32,
    m: CUdpType,
    now_ms: u32,
) -> (MessageBuffer, u32) {
    match m {
        CUdpType::PlayerId { id } => ((MessageBuffer { player_id: Some(id), ..mb }), ping),
        CUdpType::Sequence { sequence_number } => (
            (MessageBuffer { sequence_number: Some(sequence_number), ..mb }),
            ping,
        ),
        CUdpType::Input { keymask, mouse_delta } => (
            (MessageBuffer { keymask, mouse_delta, ..mb }),
            ping,
        ),
        CUdpType::Ping { start_time, last_rtt } => (
            (MessageBuffer { pong_message: Some((start_time, now_ms)), ..mb }),
            last_rtt,
        ),
    }
}

/// One blob's messages folded in order.
pub open spec fn spec_handle_messages(
    mb: MessageBuffer,
    ping: u32,
    ms: Seq<CUdpType>,
    now_ms: u32,
) -> (MessageBuffer, u32)
    decreases ms.len(),
{
    if ms.len() == 0 {
        (mb, ping)
    } else {
        let step = spec_handle_message(mb, ping, ms[0], now_ms);
        spec_handle_messages(step.0, step.1, ms.drop_first(), now_ms)
    }
}

/// One blob: a malformed one is discarded whole; a decoded one is
/// folded into the accumulator, later values overwriting earlier ones.
pub open spec fn spec_handle_blob(
    mb: MessageBuffer,
    ping: u32,
    blob: Seq<u8>,
    now_ms: u32,
) -> (MessageBuffer, u32) {
    match spec_dec_batch::<CUdpType>(blob) {
        Some(ms) => spec_handle_messages(mb, ping, ms, now_ms),
        None => (mb, ping),
    }
}

/// A bounded run of blobs folded in order.
pub open spec fn spec_drain_blobs(
    mb: MessageBuffer,
    ping: u32,
    blobs: Seq<Seq<u8>>,
    now_ms: u32,
) -> (MessageBuffer, u32)
    decreases blobs.len(),
{
    if blobs.len() == 0 {
        (mb, ping)
    } else {
        let b = spec_handle_blob(mb, ping, blobs[0], now_ms);
        spec_drain_blobs(b.0, b.1, blobs.drop_first(), now_ms)
    }
}

/// How many packets a backlog of `n` has decoded in one tick.
pub open spec fn spec_drained(n: nat) -> nat {
    if n <= MESSAGE_PER_TICK_MAX {
        n
    } else {
        MESSAGE_PER_TICK_MAX as nat
    }
}

/// What one tick makes of one connection's backlog: the fold over the
/// drained prefix of its packets.
pub open spec fn spec_connection_outcome(c: UdpConnection<SUdpType>, now_ms: u32) -> (
    MessageBuffer,
    u32,
) {
    let blobs = packet_views(c.input_packet_buffer@).take(
        spec_drained(c.input_packet_buffer@.len()) as int,
    );
    spec_drain_blobs(spec_empty_buffer(), c.ping, blobs, now_ms)
}

/// The connection's outbound queue after the tick: a seen sequence
/// number is echoed, then any scheduled pong follows.
pub open spec fn spec_connection_messages_after(c: UdpConnection<SUdpType>, now_ms: u32) -> Seq<
    NetworkMessage<SUdpType>,
> {
    let o = spec_connection_outcome(c, now_ms);
    let msgs1 = match o.0.sequence_number {
        Some(n) => spec_queue(
            c.messages(),
            (NetworkMessage(SUdpType::Sequence { sequence_number: n })),
        ),
        None => c.messages(),
    };
    match o.0.pong_message {
        Some(p) => spec_queue(
            msgs1,
            (NetworkMessage(
                SUdpType::Pong { initiation_time: p.0, server_received_time: p.1 },
            )),
        ),
        None => msgs1,
    }
}

/// The one effective input the tick's drained batch yields: the
/// last-seen identity and input win, with earlier-in-batch values
/// discarded, not merged; an unidentified batch yields nothing.
pub open spec fn spec_connection_push(c: UdpConnection<SUdpType>, now_ms: u32) -> Option<
    (Id, PlayerInput),
> {
    let o = spec_connection_outcome(c, now_ms).0;
    match o.player_id {
        Some(id) => Some(
            (id, (PlayerInput { keymask: o.keymask, mouse_delta: o.mouse_delta })),
        ),
        None => None,
    }
}

/// Drain one connection for the tick: decode up to the per-tick bound
/// of packets, let the last-seen sequence and input win, echo the
/// sequence and answer any ping, discard the rest of the backlog, and
/// hand back the one effective input for the identified player, if any.
pub fn server_handle_udp_connection(c: &mut UdpConnection<SUdpType>, now_ms: u32) -> (r: Option<
    (Id, PlayerInput),
>)
    requires
        old(c).wf(),
    ensures
        final(c).wf(),
        final(c).socket == old(c).socket,
        final(c).input_packet_buffer@ == Seq::<Packet>::empty(),
        final(c).messages() == spec_connection_messages_after(*old(c), now_ms),
        final(c).ping == spec_connection_outcome(*old(c), now_ms).1,
        r == spec_connection_push(*old(c), now_ms),
{
    let ghost blobs = packet_views(old(c).input_packet_buffer@).take(
        spec_drained(old(c).input_packet_buffer@.len()) as int,
    );
    let mut mb = MessageBuffer {
        sequence_number: None,
        player_id: None,
        keymask: 0,
        mouse_delta: Vec2 { x: 0, y: 0 },
        pong_message: None,
    };
    let total: usize = if c.input_packet_buffer.len() < MESSAGE_PER_TICK_MAX {
        c.input_packet_buffer.len()
    } else {
        MESSAGE_PER_TICK_MAX
    };
    proof {
        assert(blobs =~= packet_views(old(c).input_packet_buffer@).take(total as int));
        assert(mb == spec_empty_buffer());
        assert(blobs.skip(0) =~= blobs);
        assert(c.input_packet_buffer@ =~= old(c).input_packet_buffer@.skip(0));
    }
    let mut k: usize = 0;
    while k < total
        invariant
            k <= total,
            total == spec_drained(old(c).input_packet_buffer@.len()),
            total <= old(c).input_packet_buffer@.len(),
            c.input_packet_buffer@ == old(c).input_packet_buffer@.skip(k as int),
            c.socket == old(c).socket,
            c.messages() == old(c).messages(),
            c.wf(),
            blobs == packet_views(old(c).input_packet_buffer@).take(total as int),
            spec_drain_blobs(spec_empty_buffer(), old(c).ping, blobs, now_ms)
                == spec_drain_blobs(mb, c.ping, blobs.skip(k as int), now_ms),
        decreases total - k,
    {
        proof {
            assert(blobs.skip(k as int)[0] == packet_views(old(c).input_packet_buffer@).index(
                k as int,
            ));
            assert(blobs.skip(k as int).drop_first() =~= blobs.skip(k as int + 1));
            assert(c.input_packet_buffer@[0] == old(c).input_packet_buffer@[k as int]);
        }
        let p = c.input_packet_buffer.pop_front().unwrap();
        proof {
            assert(c.input_packet_buffer@ =~= old(c).input_packet_buffer@.skip(k as int + 1));
            assert(p.bytes@ == blobs.skip(k as int)[0]);
        }
        match decode_message_batch::<CUdpType>(&p.bytes) {
            Ok(ms) => {
                let ghost msviews = crate::net_message::message_views(ms@);
                let ghost mb_blob = mb;
                let ghost ping_blob = c.ping;
                proof {
                    assert(msviews =~= ms@.map_values(|m: CUdpType| m.view_of()));
                    assert(msviews.skip(0) =~= msviews);
                }
                let mut idx: usize = 0;
                while idx < ms.len()
                    invariant
                        idx <= ms@.len(),
                        msviews == crate::net_message::message_views(ms@),
                        msviews.len() == ms@.len(),
                        spec_handle_messages(mb_blob, ping_blob, msviews, now_ms)
                            == spec_handle_messages(
                            mb,
                            c.ping,
                            msviews.skip(idx as int),
                            now_ms,
                        ),
                        c.socket == old(c).socket,
                        c.messages() == old(c).messages(),
                        c.input_packet_buffer@ == old(c).input_packet_buffer@.skip(
                            k as int + 1,
                        ),
                        c.wf(),
                    decreases ms@.len() - idx,
                {
                    proof {
                        assert(msviews.skip(idx as int)[0] == msviews[idx as int]);
                        assert(msviews[idx as int] == ms@[idx as int].view_of());
                        assert(msviews.skip(idx as int).drop_first() =~= msviews.skip(
                            idx as int + 1,
                        ));
                    }
                    match &ms[idx] {
                        CUdpType::PlayerId { id } => {
                            mb.player_id = Some(*id);
                        },
                        CUdpType::Sequence { sequence_number } => {
                            mb.sequence_number = Some(*sequence_number);
                        },
                        CUdpType::Input { keymask, mouse_delta } => {
                            mb.keymask = *keymask;
                            mb.mouse_delta = *mouse_delta;
                        },
                        CUdpType::Ping { start_time, last_rtt } => {
                            c.ping = *last_rtt;
                            mb.pong_message = Some((*start_time, now_ms));
                        },
                    }
                    idx = idx + 1;
                }
                proof {
                    assert(msviews.skip(msviews.len() as int) =~= Seq::<CUdpType>::empty());
                }
                proof {
                    assert(spec_handle_messages(mb_blob, ping_blob, msviews, now_ms) == (
                    mb,
                    c.ping,
                ));
                }
            },
            Err(_) => {},
        }
        k = k + 1;
    }
    proof {
        assert(blobs.skip(total as int) =~= Seq::<Seq<u8>>::empty());
    }
    if c.input_packet_buffer.len() > 0 {
        c.input_packet_buffer.clear();
    }
    proof {
        assert(c.input_packet_buffer@ =~= Seq::<Packet>::empty());
    }
    match &mb.sequence_number {
        Some(n) => {
            let msg = NetworkMessage(SUdpType::Sequence { sequence_number: *n });
            c.add_message(msg);
        },
        None => {},
    }
    match mb.pong_message {
        Some(p) => {
            c.add_message(
                NetworkMessage(
                    SUdpType::Pong { initiation_time: p.0, server_received_time: p.1 },
                ),
            );
        },
        None => {},
    }
    match mb.player_id {
        Some(id) => Some((id, PlayerInput { keymask: mb.keymask, mouse_delta: mb.mouse_delta })),
        None => None,
    }
}


/// The identities and backlogs of the server's players.
pub open spec fn pending_views(s: Seq<(Id, PendingInputs)>) -> Seq<(Id, Seq<PlayerInput>)> {
    s.map_values(|p: (Id, PendingInputs)| (p.0, p.1.buffer@))
}

/// One input appended to the first backlog owned by the identity; an
/// unknown identity's input is dropped.
pub open spec fn spec_push_input(
    s: Seq<(Id, Seq<PlayerInput>)>,
    id: Id,
    inp: PlayerInput,
) -> Seq<(Id, Seq<PlayerInput>)>
    decreases s.len(),
{
    if s.len() == 0 {
        s
    } else if s[0].0 == id {
        seq![(s[0].0, s[0].1.push(inp))] + s.drop_first()
    } else {
        seq![s[0]] + spec_push_input(s.drop_first(), id, inp)
    }
}

/// A prefix without the identity pushes the first match past it.
proof fn lemma_push_input_prefix(
    s: Seq<(Id, Seq<PlayerInput>)>,
    id: Id,
    inp: PlayerInput,
    i: int,
)
    requires
        0 <= i <= s.len(),
        forall|k: int| 0 <= k < i ==> (#[trigger] s[k]).0 != id,
    ensures
        i < s.len() && s[i].0 == id ==> spec_push_input(s, id, inp) == s.update(
            i,
            (s[i].0, s[i].1.push(inp)),
        ),
        i == s.len() ==> spec_push_input(s, id, inp) == s,
    decreases s.len(),
{
    if s.len() > 0 {
        if s[0].0 == id {
            assert(seq![(s[0].0, s[0].1.push(inp))] + s.drop_first() =~= s.update(
                0,
                (s[0].0, s[0].1.push(inp)),
            ));
        } else {
            let j = if i > 0 {
                i - 1
            } else {
                0
            };
            lemma_push_input_prefix(s.drop_first(), id, inp, j);
            if i < s.len() && s[i].0 == id {
                assert(s.drop_first()[i - 1] == s[i]);
                assert(seq![s[0]] + s.drop_first().update(
                    i - 1,
                    (s[i].0, s[i].1.push(inp)),
                ) =~= s.update(i, (s[i].0, s[i].1.push(inp))));
            } else {
                assert(seq![s[0]] + s.drop_first() =~= s);
            }
        }
    }
}

/// Append one input to the first backlog owned by the identity.
pub fn push_pending_input(pending: &mut Vec<(Id, PendingInputs)>, id: Id, inp: PlayerInput)
    ensures
        pending_views(final(pending)@) == spec_push_input(
            pending_views(old(pending)@),
            id,
            inp,
        ),
{
    let ghost views = pending_views(old(pending)@);
    let n = pending.len();
    let mut i: usize = 0;
    while i < n
        invariant
            n == pending@.len(),
            i <= n,
            pending@ == old(pending)@,
            views == pending_views(old(pending)@),
            forall|k: int| 0 <= k < i ==> (#[trigger] views[k]).0 != id,
        decreases n - i,
    {
        proof {
            assert(views[i as int].0 == pending@[i as int].0);
        }
        if pending[i].0 .0 == id.0 {
            proof {
                lemma_push_input_prefix(views, id, inp, i as int);
            }
            let entry = &mut pending[i];
            entry.1.buffer.push_back(inp);
            proof {
                assert(pending_views(final(pending)@) =~= views.update(
                    i as int,
                    (views[i as int].0, views[i as int].1.push(inp)),
                ));
            }
            return ;
        }
        i = i + 1;
    }
    proof {
        lemma_push_input_prefix(views, id, inp, n as int);
        assert(pending_views(pending@) =~= views);
    }
}

/// The players' backlogs once every connection's one effective input
/// landed, in connection order.
pub open spec fn spec_pending_after(
    conns: Seq<UdpConnection<SUdpType>>,
    p: Seq<(Id, Seq<PlayerInput>)>,
    now_ms: u32,
) -> Seq<(Id, Seq<PlayerInput>)>
    decreases conns.len(),
{
    if conns.len() == 0 {
        p
    } else {
        spec_pending_after(
            conns.drop_first(),
            match spec_connection_push(conns[0], now_ms) {
                Some(e) => spec_push_input(p, e.0, e.1),
                None => p,
            },
            now_ms,
        )
    }
}

/// One authoritative tick of inbound handling: every connection's
/// backlog is drained and answered, and the one effective input of
/// each identified player joins that player's pending backlog, in
/// connection order.
pub fn server_handle_udp_message(
    connections: &mut Vec<UdpConnection<SUdpType>>,
    pending: &mut Vec<(Id, PendingInputs)>,
    now_ms: u32,
)
    requires
        forall|j: int|
            0 <= j < old(connections)@.len() ==> (#[trigger] old(connections)@[j]).wf(),
    ensures
        final(connections)@.len() == old(connections)@.len(),
        forall|j: int|
            0 <= j < old(connections)@.len() ==> {
                let c0 = #[trigger] old(connections)@[j];
                let c1 = final(connections)@[j];
                &&& c1.wf()
                &&& c1.socket == c0.socket
                &&& c1.input_packet_buffer@ == Seq::<Packet>::empty()
                &&& c1.messages() == spec_connection_messages_after(c0, now_ms)
                &&& c1.ping == spec_connection_outcome(c0, now_ms).1
            },
        pending_views(final(pending)@) == spec_pending_after(
            old(connections)@,
            pending_views(old(pending)@),
            now_ms,
        ),
{
    let ghost conns0 = old(connections)@;
    let ghost p0 = pending_views(old(pending)@);
    proof {
        assert(conns0.skip(0) =~= conns0);
    }
    let n = connections.len();
    let mut j: usize = 0;
    while j < n
        invariant
            n == connections@.len(),
            n == conns0.len(),
            j <= n,
            forall|k: int| 0 <= k < conns0.len() ==> (#[trigger] conns0[k]).wf(),
            forall|k: int| j <= k < n ==> #[trigger] connections@[k] == conns0[k],
            forall|k: int|
                0 <= k < j ==> {
                    let c0 = #[trigger] conns0[k];
                    let c1 = connections@[k];
                    &&& c1.wf()
                    &&& c1.socket == c0.socket
                    &&& c1.input_packet_buffer@ == Seq::<Packet>::empty()
                    &&& c1.messages() == spec_connection_messages_after(c0, now_ms)
                    &&& c1.ping == spec_connection_outcome(c0, now_ms).1
                },
            spec_pending_after(conns0, p0, now_ms) == spec_pending_after(
                conns0.skip(j as int),
                pending_views(pending@),
                now_ms,
            ),
        decreases n - j,
    {
        proof {
            assert(conns0.skip(j as int)[0] == conns0[j as int]);
            assert(conns0.skip(j as int).drop_first() =~= conns0.skip(j as int + 1));
        }
        let c = &mut connections[j];
        match server_handle_udp_connection(c, now_ms) {
            Some(entry) => {
                push_pending_input(pending, entry.0, entry.1);
            },
            None => {},
        }
        j = j + 1;
    }
    proof {
        assert(conns0.skip(n as int) =~= Seq::<UdpConnection<SUdpType>>::empty());
    }
}


/// Whether a queue already carries a sequence echo this tick.
pub open spec fn spec_has_sequence(msgs: Seq<NetworkMessage<SUdpType>>) -> bool {
    exists|i: int| 0 <= i < msgs.len() && (#[trigger] msgs[i]).0 is Sequence
}

/// Whether the queue already carries a sequence echo this tick.
pub fn has_sequence_message(c: &UdpConnection<SUdpType>) -> (r: bool)
    ensures
        r == spec_has_sequence(c.messages()),
{
    let msgs = c.get_current_messages();
    let mut i: usize = 0;
    while i < msgs.len()
        invariant
            i <= msgs@.len(),
            msgs@ == c.messages(),
            forall|k: int| 0 <= k < i ==> !((#[trigger] msgs@[k]).0 is Sequence),
        decreases msgs@.len() - i,
    {
        match &msgs[i].0 {
            SUdpType::Sequence { .. } => {
                return true;
            },
            _ => {},
        }
        i = i + 1;
    }
    false
}

/// A copy of a snapshot map.
fn copy_players(players: &Vec<(Id, Player)>) -> (r: Vec<(Id, Player)>)
    ensures
        r@ == players@,
{
    let mut out: Vec<(Id, Player)> = Vec::new();
    let mut i: usize = 0;
    while i < players.len()
        invariant
            i <= players@.len(),
            out@ == players@.take(i as int),
        decreases players@.len() - i,
    {
        out.push(players[i]);
        proof {
            assert(out@ =~= players@.take(i as int + 1));
        }
        i = i + 1;
    }
    proof {
        assert(players@.take(players@.len() as int) =~= players@);
    }
    out
}

/// Attach the tick's authoritative snapshot to every connection that
/// reported a sequence number this tick; idle connections get nothing.
pub fn build_connection_messages(
    connections: &mut Vec<UdpConnection<SUdpType>>,
    players: &Vec<(Id, Player)>,
)
    requires
        players@.len() < 65536,
    ensures
        final(connections)@.len() == old(connections)@.len(),
        forall|j: int|
            0 <= j < old(connections)@.len() ==> {
                let c0 = #[trigger] old(connections)@[j];
                let c1 = final(connections)@[j];
                &&& c1.socket == c0.socket
                &&& c1.input_packet_buffer == c0.input_packet_buffer
                &&& c1.ping == c0.ping
                &&& (c0.wf() ==> c1.wf())
                &&& if spec_has_sequence(c0.messages()) {
                    if c0.messages().len() < crate::net_manage::OUTBOUND_QUEUE_MAX {
                        &&& c1.messages().len() == c0.messages().len() + 1
                        &&& c1.messages().take(c0.messages().len() as int) == c0.messages()
                        &&& c1.messages().last().0 matches SUdpType::Players {
                            players: pv,
                        } && pv@ == players@
                    } else {
                        c1.messages() == c0.messages()
                    }
                } else {
                    c1.messages() == c0.messages()
                }
            },
{
    let ghost conns0 = connections@;
    let n = connections.len();
    let mut j: usize = 0;
    while j < n
        invariant
            n == connections@.len(),
            n == conns0.len(),
            j <= n,
            players@.len() < 65536,
            forall|k: int| j <= k < n ==> #[trigger] connections@[k] == conns0[k],
            forall|k: int|
                0 <= k < j ==> {
                    let c0 = #[trigger] conns0[k];
                    let c1 = connections@[k];
                    &&& c1.socket == c0.socket
                    &&& c1.input_packet_buffer == c0.input_packet_buffer
                    &&& c1.ping == c0.ping
                    &&& (c0.wf() ==> c1.wf())
                    &&& if spec_has_sequence(c0.messages()) {
                        if c0.messages().len() < crate::net_manage::OUTBOUND_QUEUE_MAX {
                            &&& c1.messages().len() == c0.messages().len() + 1
                            &&& c1.messages().take(c0.messages().len() as int)
                                == c0.messages()
                            &&& c1.messages().last().0 matches SUdpType::Players {
                                players: pv,
                            } && pv@ == players@
                        } else {
                            c1.messages() == c0.messages()
                        }
                    } else {
                        c1.messages() == c0.messages()
                    }
                },
        decreases n - j,
    {
        let attach = has_sequence_message(&connections[j]);
        if attach {
            let snapshot = copy_players(players);
            let c = &mut connections[j];
            let ghost before = c.messages();
            c.add_message(NetworkMessage(SUdpType::Players { players: snapshot }));
            proof {
                if before.len() < crate::net_manage::OUTBOUND_QUEUE_MAX {
                    assert(c.messages().take(before.len() as int) =~= before);
                }
            }
        }
        j = j + 1;
    }
}

/// Queue this tick's ping, carrying the present time and the last
/// round trip seen.
pub fn add_ping_message(connection: &mut UdpConnection<CUdpType>, now_ms: u32)
    ensures
        final(connection).messages() == spec_queue(
            old(connection).messages(),
            (NetworkMessage(
                CUdpType::Ping { start_time: now_ms, last_rtt: old(connection).ping },
            )),
        ),
        final(connection).socket == old(connection).socket,
        final(connection).input_packet_buffer == old(connection).input_packet_buffer,
        final(connection).ping == old(connection).ping,
        old(connection).wf() ==> final(connection).wf(),
{
    let last_rtt = connection.ping;
    connection.add_message(
        NetworkMessage(CUdpType::Ping { start_time: now_ms, last_rtt }),
    );
}


/// The sequence number a decoded batch is tagged with: the last tag
/// wins.
pub open spec fn spec_last_sequence(ms: Seq<SUdpView>) -> Option<u16>
    decreases ms.len(),
{
    if ms.len() == 0 {
        None
    } else {
        match ms.last() {
            SUdpView::Sequence { sequence_number } => Some(sequence_number),
            _ => spec_last_sequence(ms.drop_last()),
        }
    }
}

/// The client tick's running state while inbound snapshots are
/// handled: the timeline, the miss count, the measured round trip, the
/// last snapshot map seen, and the corrections that fired.
pub struct ClientUdpState {
    pub history: Map<u16, Seq<ObjectState>>,
    pub miss: u16,
    pub ping: u32,
    pub players_seen: Option<Seq<(Id, Player)>>,
    pub corrections: Seq<(u16, Seq<ObjectState>)>,
}

/// What one server message does on the client: a snapshot map drives
/// one reconciliation pass against the batch's tagged sequence, a pong
/// yields a fresh round-trip measure, and the tag itself does nothing
/// further.
pub open spec fn spec_client_msg_step(
    st: ClientUdpState,
    m: SUdpView,
    seq: u16,
    my_id: Id,
    now_ms: u32,
) -> ClientUdpState {
    match m {
        SUdpView::Players { players } => {
            let d = spec_reconcile_decision(
                st.history,
                st.miss,
                seq,
                spec_find_player(players, my_id),
            );
            ClientUdpState {
                history: d.0,
                miss: d.1,
                players_seen: Some(players),
                corrections: if d.2 {
                    st.corrections.push((seq, d.0.index(seq)))
                } else {
                    st.corrections
                },
                ..st
            }
        },
        SUdpView::Pong { initiation_time, server_received_time } => ClientUdpState {
            ping: if now_ms >= initiation_time {
                (now_ms - initiation_time) as u32
            } else {
                0u32
            },
            ..st
        },
        SUdpView::Sequence { .. } => st,
    }
}

/// One batch's messages folded in order under its tagged sequence.
pub open spec fn spec_client_msgs(
    st: ClientUdpState,
    ms: Seq<SUdpView>,
    seq: u16,
    my_id: Id,
    now_ms: u32,
) -> ClientUdpState
    decreases ms.len(),
{
    if ms.len() == 0 {
        st
    } else {
        spec_client_msgs(
            spec_client_msg_step(st, ms[0], seq, my_id, now_ms),
            ms.drop_first(),
            seq,
            my_id,
            now_ms,
        )
    }
}

/// One blob on the client: a malformed blob, one without a sequence
/// tag, or one tagged out of the sequence modulus is discarded whole,
/// its pong included -- an out-of-range tag marks the batch as not
/// this protocol's, so nothing in it is believed.
pub open spec fn spec_client_blob(
    st: ClientUdpState,
    blob: Seq<u8>,
    my_id: Id,
    now_ms: u32,
) -> ClientUdpState {
    match spec_dec_batch::<SUdpType>(blob) {
        Some(ms) => match spec_last_sequence(ms) {
            Some(seq) => if seq < BUFFER_SIZE {
                spec_client_msgs(st, ms, seq, my_id, now_ms)
            } else {
                st
            },
            None => st,
        },
        None => st,
    }
}

/// The whole inbound queue folded in order.
pub open spec fn spec_client_drain(
    st: ClientUdpState,
    blobs: Seq<Seq<u8>>,
    my_id: Id,
    now_ms: u32,
) -> ClientUdpState
    decreases blobs.len(),
{
    if blobs.len() == 0 {
        st
    } else {
        spec_client_drain(
            spec_client_blob(st, blobs[0], my_id, now_ms),
            blobs.drop_first(),
            my_id,
            now_ms,
        )
    }
}

/// The corrections a handler pass produced, as plain values.
pub open spec fn corrections_views(s: Seq<ResimulatePlayer>) -> Seq<(u16, Seq<ObjectState>)> {
    s.map_values(|r: ResimulatePlayer| (r.received_sequence_number, r.object_states@))
}

/// What the client's inbound handling hands back: the latest snapshot
/// map for presentation, and the corrections to carry out.
pub struct ClientUdpOutcome {
    pub players: Option<Vec<(Id, Player)>>,
    pub corrections: Vec<ResimulatePlayer>,
}

/// The latest snapshot map seen, as a plain value.
pub open spec fn players_opt_view(p: Option<Vec<(Id, Player)>>) -> Option<Seq<(Id, Player)>> {
    match p {
        Some(v) => Some(v@),
        None => None,
    }
}

/// The sequence tag of one decoded batch: the last tag wins.
fn find_last_sequence(ms: &Vec<SUdpType>) -> (r: Option<u16>)
    ensures
        r == spec_last_sequence(crate::net_message::message_views(ms@)),
{
    let ghost views = crate::net_message::message_views(ms@);
    let mut found: Option<u16> = None;
    let mut i: usize = 0;
    while i < ms.len()
        invariant
            i <= ms@.len(),
            views == crate::net_message::message_views(ms@),
            views.len() == ms@.len(),
            found == spec_last_sequence(views.take(i as int)),
        decreases ms@.len() - i,
    {
        proof {
            assert(views.take(i as int + 1).drop_last() =~= views.take(i as int));
            assert(views.take(i as int + 1).last() == views[i as int]);
            assert(views[i as int] == ms@[i as int].view_of());
        }
        match &ms[i] {
            SUdpType::Sequence { sequence_number } => {
                found = Some(*sequence_number);
            },
            _ => {},
        }
        i = i + 1;
    }
    proof {
        assert(views.take(views.len() as int) =~= views);
    }
    found
}

/// Drain every inbound blob on the client: each well-formed batch is
/// handled under its tagged sequence, snapshot maps drive
/// reconciliation, pongs refresh the round trip, and the latest
/// snapshot map and any fired corrections are handed back.
pub fn client_handle_udp_message(
    connection: &mut UdpConnection<crate::net_message::SUdpType>,
    player_info: &PlayerInfo,
    reconcile_buffer: &mut ReconcileBuffer,
    now_ms: u32,
) -> (r: ClientUdpOutcome)
    requires
        old(reconcile_buffer).wf(),
    ensures
        final(reconcile_buffer).wf(),
        final(reconcile_buffer).sequence_counter == old(reconcile_buffer).sequence_counter,
        final(connection).socket == old(connection).socket,
        final(connection).messages() == old(connection).messages(),
        final(connection).input_packet_buffer@ == Seq::<Packet>::empty(),
        old(connection).wf() ==> final(connection).wf(),
        ({
            let st = spec_client_drain(
                (ClientUdpState {
                    history: old(reconcile_buffer).history(),
                    miss: old(reconcile_buffer).miss_predict_counter,
                    ping: old(connection).ping,
                    players_seen: None,
                    corrections: Seq::empty(),
                }),
                packet_views(old(connection).input_packet_buffer@),
                player_info.current_player_id,
                now_ms,
            );
            &&& final(reconcile_buffer).history() == st.history
            &&& final(reconcile_buffer).miss_predict_counter == st.miss
            &&& final(connection).ping == st.ping
            &&& players_opt_view(r.players) == st.players_seen
            &&& corrections_views(r.corrections@) == st.corrections
            &&& forall|k: int|
                0 <= k < r.corrections@.len() ==> (#[trigger] r.corrections@[k]).wf()
        }),
{
    let ghost blobs = packet_views(old(connection).input_packet_buffer@);
    let ghost st0 = ClientUdpState {
        history: old(reconcile_buffer).history(),
        miss: old(reconcile_buffer).miss_predict_counter,
        ping: old(connection).ping,
        players_seen: None,
        corrections: Seq::empty(),
    };
    let mut players_out: Option<Vec<(Id, Player)>> = None;
    let mut corrections: Vec<ResimulatePlayer> = Vec::new();
    let total = connection.input_packet_buffer.len();
    let mut k: usize = 0;
    proof {
        assert(blobs.skip(0) =~= blobs);
        assert(corrections_views(corrections@) =~= Seq::<(u16, Seq<ObjectState>)>::empty());
    }
    while k < total
        invariant
            k <= total,
            total == blobs.len(),
            reconcile_buffer.wf(),
            reconcile_buffer.sequence_counter == old(reconcile_buffer).sequence_counter,
            connection.socket == old(connection).socket,
            connection.messages() == old(connection).messages(),
            connection.input_packet_buffer@ == old(connection).input_packet_buffer@.skip(
                k as int,
            ),
            blobs == packet_views(old(connection).input_packet_buffer@),
            forall|q: int|
                0 <= q < corrections@.len() ==> (#[trigger] corrections@[q]).wf(),
            ({
                let st = ClientUdpState {
                    history: reconcile_buffer.history(),
                    miss: reconcile_buffer.miss_predict_counter,
                    ping: connection.ping,
                    players_seen: players_opt_view(players_out),
                    corrections: corrections_views(corrections@),
                };
                spec_client_drain(st0, blobs, player_info.current_player_id, now_ms)
                    == spec_client_drain(
                    st,
                    blobs.skip(k as int),
                    player_info.current_player_id,
                    now_ms,
                )
            }),
        decreases total - k,
    {
        proof {
            assert(blobs.skip(k as int)[0] == blobs[k as int]);
            assert(blobs.skip(k as int).drop_first() =~= blobs.skip(k as int + 1));
            assert(connection.input_packet_buffer@[0] == old(
                connection,
            ).input_packet_buffer@[k as int]);
        }
        let p = connection.input_packet_buffer.pop_front().unwrap();
        proof {
            assert(connection.input_packet_buffer@ =~= old(
                connection,
            ).input_packet_buffer@.skip(k as int + 1));
            assert(p.bytes@ == blobs[k as int]);
        }
        match decode_message_batch::<SUdpType>(&p.bytes) {
            Ok(ms) => {
                let ghost msviews = crate::net_message::message_views(ms@);
                match find_last_sequence(&ms) {
                    Some(seq) => {
                        if seq < BUFFER_SIZE {
                            let ghost st_blob = ClientUdpState {
                                history: reconcile_buffer.history(),
                                miss: reconcile_buffer.miss_predict_counter,
                                ping: connection.ping,
                                players_seen: players_opt_view(players_out),
                                corrections: corrections_views(corrections@),
                            };
                            proof {
                                assert(msviews.skip(0) =~= msviews);
                            }
                            let mut idx: usize = 0;
                            while idx < ms.len()
                                invariant
                                    idx <= ms@.len(),
                                    seq < BUFFER_SIZE,
                                    msviews == crate::net_message::message_views(ms@),
                                    msviews.len() == ms@.len(),
                                    reconcile_buffer.wf(),
                                    reconcile_buffer.sequence_counter == old(
                                        reconcile_buffer,
                                    ).sequence_counter,
                                    connection.socket == old(connection).socket,
                                    connection.messages() == old(connection).messages(),
                                    connection.input_packet_buffer@ == old(
                                        connection,
                                    ).input_packet_buffer@.skip(k as int + 1),
                                    forall|q: int|
                                        0 <= q < corrections@.len() ==> (
                                        #[trigger] corrections@[q]).wf(),
                                    ({
                                        let st = ClientUdpState {
                                            history: reconcile_buffer.history(),
                                            miss: reconcile_buffer.miss_predict_counter,
                                            ping: connection.ping,
                                            players_seen: players_opt_view(players_out),
                                            corrections: corrections_views(corrections@),
                                        };
                                        spec_client_msgs(
                                            st_blob,
                                            msviews,
                                            seq,
                                            player_info.current_player_id,
                                            now_ms,
                                        ) == spec_client_msgs(
                                            st,
                                            msviews.skip(idx as int),
                                            seq,
                                            player_info.current_player_id,
                                            now_ms,
                                        )
                                    }),
                                decreases ms@.len() - idx,
                            {
                                proof {
                                    assert(msviews.skip(idx as int)[0] == msviews[idx as int]);
                                    assert(msviews[idx as int] == ms@[idx as int].view_of());
                                    assert(msviews.skip(idx as int).drop_first()
                                        =~= msviews.skip(idx as int + 1));
                                }
                                match &ms[idx] {
                                    SUdpType::Players { players } => {
                                        let ghost hist_before = reconcile_buffer.history();
                                        let ghost corr_before = corrections_views(
                                            corrections@,
                                        );
                                        let fired = reconcile_player(
                                            seq,
                                            players,
                                            player_info,
                                            reconcile_buffer,
                                        );
                                        match fired {
                                            Some(c) => {
                                                corrections.push(c);
                                                proof {
                                                    assert(corrections_views(corrections@)
                                                        =~= corr_before.push(
                                                        (seq, reconcile_buffer.history().index(
                                                            seq,
                                                        )),
                                                    ));
                                                }
                                            },
                                            None => {},
                                        }
                                        players_out = Some(copy_players(players));
                                    },
                                    SUdpType::Pong { initiation_time, server_received_time } => {
                                        connection.ping = if now_ms >= *initiation_time {
                                            now_ms - *initiation_time
                                        } else {
                                            0
                                        };
                                    },
                                    SUdpType::Sequence { .. } => {},
                                }
                                idx = idx + 1;
                            }
                            proof {
                                assert(msviews.skip(msviews.len() as int) =~= Seq::<
                                    SUdpView,
                                >::empty());
                            }
                        }
                    },
                    None => {},
                }
            },
            Err(_) => {},
        }
        k = k + 1;
    }
    proof {
        assert(blobs.skip(total as int) =~= Seq::<Seq<u8>>::empty());
        assert(connection.input_packet_buffer@ =~= Seq::<Packet>::empty());
    }
    ClientUdpOutcome { players: players_out, corrections }
}


/// A copy of a byte string.
fn copy_bytes(v: &Vec<u8>) -> (r: Vec<u8>)
    ensures
        r@ == v@,
{
    let mut out: Vec<u8> = Vec::new();
    let mut i: usize = 0;
    while i < v.len()
        invariant
            i <= v@.len(),
            out@ == v@.take(i as int),
        decreases v@.len() - i,
    {
        out.push(v[i]);
        proof {
            assert(out@ =~= v@.take(i as int + 1));
        }
        i = i + 1;
    }
    proof {
        assert(v@.take(v@.len() as int) =~= v@);
    }
    out
}

/// A copy of a chat history list, line for line.
fn copy_chats(v: &Vec<(Id, ChatMessage)>) -> (r: Vec<(Id, ChatMessage)>)
    ensures
        r@.len() == v@.len(),
        chats_view(r@) == chats_view(v@),
{
    let mut out: Vec<(Id, ChatMessage)> = Vec::new();
    let mut i: usize = 0;
    while i < v.len()
        invariant
            i <= v@.len(),
            out@.len() == i,
            chats_view(out@) == chats_view(v@).take(i as int),
        decreases v@.len() - i,
    {
        let entry = &v[i];
        out.push((entry.0, ChatMessage { message: copy_bytes(&entry.1.message) }));
        proof {
            assert(chats_view(out@) =~= chats_view(v@).take(i as int + 1));
        }
        i = i + 1;
    }
    proof {
        assert(chats_view(v@).take(v@.len() as int) =~= chats_view(v@));
    }
    out
}

/// The client tick's running state while reliable messages are
/// handled: the chat history, the owned identity, and whether the
/// timeline was reset by a fresh identity.
pub struct ClientTcpState {
    pub chat: Seq<(Id, Seq<u8>)>,
    pub id: Id,
    pub cleared: bool,
}

/// What one reliable server message does on the client: a chat history
/// replaces the window's lines with as many of its own as fit, and an
/// assigned identity is adopted, resetting the timeline.
pub open spec fn spec_client_tcp_step(st: ClientTcpState, m: STcpView) -> ClientTcpState {
    match m {
        STcpView::Chat { messages } => ClientTcpState {
            chat: messages.take(spec_taken(messages.len()) as int),
            ..st
        },
        STcpView::PlayerId { player_uid } => ClientTcpState {
            id: player_uid,
            cleared: true,
            ..st
        },
    }
}

/// One batch's messages folded in order.
pub open spec fn spec_client_tcp_msgs(st: ClientTcpState, ms: Seq<STcpView>) -> ClientTcpState
    decreases ms.len(),
{
    if ms.len() == 0 {
        st
    } else {
        spec_client_tcp_msgs(spec_client_tcp_step(st, ms[0]), ms.drop_first())
    }
}

/// One blob: a malformed blob is discarded whole.
pub open spec fn spec_client_tcp_blob(st: ClientTcpState, blob: Seq<u8>) -> ClientTcpState {
    match spec_dec_batch::<STcpType>(blob) {
        Some(ms) => spec_client_tcp_msgs(st, ms),
        None => st,
    }
}

/// The whole inbound queue folded in order.
pub open spec fn spec_client_tcp_drain(st: ClientTcpState, blobs: Seq<Seq<u8>>) -> ClientTcpState
    decreases blobs.len(),
{
    if blobs.len() == 0 {
        st
    } else {
        spec_client_tcp_drain(spec_client_tcp_blob(st, blobs[0]), blobs.drop_first())
    }
}

/// Drain every inbound reliable blob on the client: chat histories
/// replace the window's lines, and an assigned identity is adopted,
/// resetting the timeline.
pub fn client_handle_tcp_message(
    connection: &mut TcpConnection<CTcpType>,
    player_info: &mut PlayerInfo,
    chat: &mut Chat,
    reconcile_buffer: &mut ReconcileBuffer,
)
    requires
        old(reconcile_buffer).wf(),
        old(chat).wf(),
    ensures
        final(reconcile_buffer).wf(),
        final(chat).wf(),
        final(connection).stream == old(connection).stream,
        final(connection).messages() == old(connection).messages(),
        final(connection).ping == old(connection).ping,
        final(connection).input_packet_buffer@ == Seq::<Packet>::empty(),
        old(connection).wf() ==> final(connection).wf(),
        final(player_info).player_inputs == old(player_info).player_inputs,
        final(player_info).mouse_delta == old(player_info).mouse_delta,
        final(player_info).accumulated_mouse_delta == old(player_info).accumulated_mouse_delta,
        final(player_info).player_movement_state == old(player_info).player_movement_state,
        final(reconcile_buffer).sequence_counter == old(reconcile_buffer).sequence_counter,
        final(reconcile_buffer).miss_predict_counter == old(
            reconcile_buffer,
        ).miss_predict_counter,
        ({
            let st = spec_client_tcp_drain(
                (ClientTcpState {
                    chat: chats_view(old(chat).chat_history@),
                    id: old(player_info).current_player_id,
                    cleared: false,
                }),
                packet_views(old(connection).input_packet_buffer@),
            );
            &&& chats_view(final(chat).chat_history@) == st.chat
            &&& final(player_info).current_player_id == st.id
            &&& if st.cleared {
                final(reconcile_buffer).history() == Map::<u16, Seq<ObjectState>>::empty()
            } else {
                final(reconcile_buffer).history() == old(reconcile_buffer).history()
            }
        }),
{
    let ghost blobs = packet_views(old(connection).input_packet_buffer@);
    let ghost st0 = ClientTcpState {
        chat: chats_view(old(chat).chat_history@),
        id: old(player_info).current_player_id,
        cleared: false,
    };
    let mut cleared: bool = false;
    let total = connection.input_packet_buffer.len();
    let mut k: usize = 0;
    proof {
        assert(blobs.skip(0) =~= blobs);
    }
    while k < total
        invariant
            k <= total,
            total == blobs.len(),
            reconcile_buffer.wf(),
            chat.wf(),
            reconcile_buffer.sequence_counter == old(reconcile_buffer).sequence_counter,
            reconcile_buffer.miss_predict_counter == old(
                reconcile_buffer,
            ).miss_predict_counter,
            connection.stream == old(connection).stream,
            connection.messages() == old(connection).messages(),
            connection.input_packet_buffer@ == old(connection).input_packet_buffer@.skip(
                k as int,
            ),
            connection.ping == old(connection).ping,
            blobs == packet_views(old(connection).input_packet_buffer@),
            player_info.player_inputs == old(player_info).player_inputs,
            player_info.mouse_delta == old(player_info).mouse_delta,
            player_info.accumulated_mouse_delta == old(player_info).accumulated_mouse_delta,
            player_info.player_movement_state == old(player_info).player_movement_state,
            if cleared {
                reconcile_buffer.history() == Map::<u16, Seq<ObjectState>>::empty()
            } else {
                reconcile_buffer.history() == old(reconcile_buffer).history()
            },
            spec_client_tcp_drain(st0, blobs) == spec_client_tcp_drain(
                (ClientTcpState {
                    chat: chats_view(chat.chat_history@),
                    id: player_info.current_player_id,
                    cleared,
                }),
                blobs.skip(k as int),
            ),
        decreases total - k,
    {
        proof {
            assert(blobs.skip(k as int)[0] == blobs[k as int]);
            assert(blobs.skip(k as int).drop_first() =~= blobs.skip(k as int + 1));
            assert(connection.input_packet_buffer@[0] == old(
                connection,
            ).input_packet_buffer@[k as int]);
        }
        let p = connection.input_packet_buffer.pop_front().unwrap();
        proof {
            assert(connection.input_packet_buffer@ =~= old(
                connection,
            ).input_packet_buffer@.skip(k as int + 1));
            assert(p.bytes@ == blobs[k as int]);
        }
        match decode_message_batch::<STcpType>(&p.bytes) {
            Ok(ms) => {
                let ghost msviews = crate::net_message::message_views(ms@);
                let ghost st_blob = ClientTcpState {
                    chat: chats_view(chat.chat_history@),
                    id: player_info.current_player_id,
                    cleared,
                };
                proof {
                    assert(msviews.skip(0) =~= msviews);
                }
                let mut idx: usize = 0;
                while idx < ms.len()
                    invariant
                        idx <= ms@.len(),
                        msviews == crate::net_message::message_views(ms@),
                        msviews.len() == ms@.len(),
                        reconcile_buffer.wf(),
                        chat.wf(),
                        reconcile_buffer.sequence_counter == old(
                            reconcile_buffer,
                        ).sequence_counter,
                        reconcile_buffer.miss_predict_counter == old(
                            reconcile_buffer,
                        ).miss_predict_counter,
                        connection.stream == old(connection).stream,
                        connection.messages() == old(connection).messages(),
                        connection.ping == old(connection).ping,
                        connection.input_packet_buffer@ == old(
                            connection,
                        ).input_packet_buffer@.skip(k as int + 1),
                        player_info.player_inputs == old(player_info).player_inputs,
                        player_info.mouse_delta == old(player_info).mouse_delta,
                        player_info.accumulated_mouse_delta == old(
                            player_info,
                        ).accumulated_mouse_delta,
                        player_info.player_movement_state == old(
                            player_info,
                        ).player_movement_state,
                        if cleared {
                            reconcile_buffer.history() == Map::<u16, Seq<ObjectState>>::empty()
                        } else {
                            reconcile_buffer.history() == old(reconcile_buffer).history()
                        },
                        spec_client_tcp_msgs(st_blob, msviews) == spec_client_tcp_msgs(
                            (ClientTcpState {
                                chat: chats_view(chat.chat_history@),
                                id: player_info.current_player_id,
                                cleared,
                            }),
                            msviews.skip(idx as int),
                        ),
                    decreases ms@.len() - idx,
                {
                    proof {
                        assert(msviews.skip(idx as int)[0] == msviews[idx as int]);
                        assert(msviews[idx as int] == ms@[idx as int].view_of());
                        assert(msviews.skip(idx as int).drop_first() =~= msviews.skip(
                            idx as int + 1,
                        ));
                    }
                    match &ms[idx] {
                        STcpType::Chat { messages } => {
                            let mut arrived = copy_chats(messages);
                            let ghost arrived0 = arrived@;
                            crate::chat::add_chat_message(&mut arrived, chat);
                            proof {
                                assert(chats_view(chat.chat_history@) =~= chats_view(
                                    arrived0,
                                ).take(spec_taken(arrived0.len() as nat) as int));
                            }
                        },
                        STcpType::PlayerId { player_uid } => {
                            crate::player::set_player_id(
                                player_info,
                                *player_uid,
                                reconcile_buffer,
                            );
                            cleared = true;
                        },
                    }
                    idx = idx + 1;
                }
                proof {
                    assert(msviews.skip(msviews.len() as int) =~= Seq::<STcpView>::empty());
                }
            },
            Err(_) => {},
        }
        k = k + 1;
    }
    proof {
        assert(blobs.skip(total as int) =~= Seq::<Seq<u8>>::empty());
        assert(connection.input_packet_buffer@ =~= Seq::<Packet>::empty());
    }
}

/// The server tick's running state while one connection's reliable
/// messages are handled: the chat history and the join requests seen.
pub struct ServerTcpState {
    pub chat: Seq<(Id, Seq<u8>)>,
    pub joins: Seq<Id>,
}

/// A history with one line appended, the oldest leaving past the
/// bound, as plain values.
pub open spec fn spec_history_append_view(
    h: Seq<(Id, Seq<u8>)>,
    entry: (Id, Seq<u8>),
) -> Seq<(Id, Seq<u8>)> {
    let grown = h.push(entry);
    if grown.len() > CHAT_HISTORY_LEN {
        grown.drop_first()
    } else {
        grown
    }
}

/// What one reliable client message does on the server: a chat line
/// joins the history, and a join request is noted for the lobby logic.
pub open spec fn spec_server_tcp_step(st: ServerTcpState, m: CTcpView) -> ServerTcpState {
    match m {
        CTcpView::ChatMessage { player_id, message } => ServerTcpState {
            chat: spec_history_append_view(st.chat, (player_id, message)),
            ..st
        },
        CTcpView::Join { lobby_id } => ServerTcpState { joins: st.joins.push(lobby_id), ..st },
    }
}

/// One batch's messages folded in order.
pub open spec fn spec_server_tcp_msgs(st: ServerTcpState, ms: Seq<CTcpView>) -> ServerTcpState
    decreases ms.len(),
{
    if ms.len() == 0 {
        st
    } else {
        spec_server_tcp_msgs(spec_server_tcp_step(st, ms[0]), ms.drop_first())
    }
}

/// One blob: a malformed blob is discarded whole.
pub open spec fn spec_server_tcp_blob(st: ServerTcpState, blob: Seq<u8>) -> ServerTcpState {
    match spec_dec_batch::<CTcpType>(blob) {
        Some(ms) => spec_server_tcp_msgs(st, ms),
        None => st,
    }
}

/// A bounded run of blobs folded in order.
pub open spec fn spec_server_tcp_drain(st: ServerTcpState, blobs: Seq<Seq<u8>>) -> ServerTcpState
    decreases blobs.len(),
{
    if blobs.len() == 0 {
        st
    } else {
        spec_server_tcp_drain(spec_server_tcp_blob(st, blobs[0]), blobs.drop_first())
    }
}

/// Drain up to the per-tick bound of one connection's reliable blobs:
/// chat lines join the shared history, and the join requests seen are
/// handed back for the lobby logic to answer.
pub fn server_handle_tcp_connection(c: &mut TcpConnection<STcpType>, chat: &mut Chat) -> (r: Vec<
    Id,
>)
    requires
        old(chat).wf(),
    ensures
        final(chat).wf(),
        final(c).stream == old(c).stream,
        final(c).messages() == old(c).messages(),
        final(c).ping == old(c).ping,
        final(c).input_packet_buffer@ == old(c).input_packet_buffer@.skip(
            spec_drained(old(c).input_packet_buffer@.len()) as int,
        ),
        old(c).wf() ==> final(c).wf(),
        ({
            let st = spec_server_tcp_drain(
                (ServerTcpState {
                    chat: chats_view(old(chat).chat_history@),
                    joins: Seq::empty(),
                }),
                packet_views(old(c).input_packet_buffer@).take(
                    spec_drained(old(c).input_packet_buffer@.len()) as int,
                ),
            );
            &&& chats_view(final(chat).chat_history@) == st.chat
            &&& r@ == st.joins
        }),
{
    let ghost blobs = packet_views(old(c).input_packet_buffer@).take(
        spec_drained(old(c).input_packet_buffer@.len()) as int,
    );
    let ghost st0 = ServerTcpState {
        chat: chats_view(old(chat).chat_history@),
        joins: Seq::empty(),
    };
    let mut joins: Vec<Id> = Vec::new();
    let total: usize = if c.input_packet_buffer.len() < MESSAGE_PER_TICK_MAX {
        c.input_packet_buffer.len()
    } else {
        MESSAGE_PER_TICK_MAX
    };
    proof {
        assert(blobs =~= packet_views(old(c).input_packet_buffer@).take(total as int));
        assert(blobs.skip(0) =~= blobs);
    }
    let mut k: usize = 0;
    while k < total
        invariant
            k <= total,
            total == spec_drained(old(c).input_packet_buffer@.len()),
            total <= old(c).input_packet_buffer@.len(),
            chat.wf(),
            c.stream == old(c).stream,
            c.messages() == old(c).messages(),
            c.ping == old(c).ping,
            c.input_packet_buffer@ == old(c).input_packet_buffer@.skip(k as int),
            blobs == packet_views(old(c).input_packet_buffer@).take(total as int),
            spec_server_tcp_drain(st0, blobs) == spec_server_tcp_drain(
                (ServerTcpState { chat: chats_view(chat.chat_history@), joins: joins@ }),
                blobs.skip(k as int),
            ),
        decreases total - k,
    {
        proof {
            assert(blobs.skip(k as int)[0] == packet_views(
                old(c).input_packet_buffer@,
            ).index(k as int));
            assert(blobs.skip(k as int).drop_first() =~= blobs.skip(k as int + 1));
            assert(c.input_packet_buffer@[0] == old(c).input_packet_buffer@[k as int]);
        }
        let p = c.input_packet_buffer.pop_front().unwrap();
        proof {
            assert(c.input_packet_buffer@ =~= old(c).input_packet_buffer@.skip(k as int + 1));
            assert(p.bytes@ == blobs.skip(k as int)[0]);
        }
        match decode_message_batch::<CTcpType>(&p.bytes) {
            Ok(ms) => {
                let ghost msviews = crate::net_message::message_views(ms@);
                let ghost st_blob = ServerTcpState {
                    chat: chats_view(chat.chat_history@),
                    joins: joins@,
                };
                proof {
                    assert(msviews.skip(0) =~= msviews);
                }
                let mut idx: usize = 0;
                while idx < ms.len()
                    invariant
                        idx <= ms@.len(),
                        msviews == crate::net_message::message_views(ms@),
                        msviews.len() == ms@.len(),
                        chat.wf(),
                        c.stream == old(c).stream,
                        c.messages() == old(c).messages(),
                        c.ping == old(c).ping,
                        c.input_packet_buffer@ == old(c).input_packet_buffer@.skip(
                            k as int + 1,
                        ),
                        spec_server_tcp_msgs(st_blob, msviews) == spec_server_tcp_msgs(
                            (ServerTcpState {
                                chat: chats_view(chat.chat_history@),
                                joins: joins@,
                            }),
                            msviews.skip(idx as int),
                        ),
                    decreases ms@.len() - idx,
                {
                    proof {
                        assert(msviews.skip(idx as int)[0] == msviews[idx as int]);
                        assert(msviews[idx as int] == ms@[idx as int].view_of());
                        assert(msviews.skip(idx as int).drop_first() =~= msviews.skip(
                            idx as int + 1,
                        ));
                    }
                    match &ms[idx] {
                        CTcpType::ChatMessage { player_id, message } => {
                            let line = ChatMessage {
                                message: copy_bytes(&message.message),
                            };
                            let ghost chat_before = chats_view(chat.chat_history@);
                            server_add_chat_message((*player_id, line), chat);
                            proof {
                                assert(chats_view(chat.chat_history@)
                                    =~= spec_history_append_view(
                                    chat_before,
                                    (*player_id, message.message@),
                                ));
                            }
                        },
                        CTcpType::Join { lobby_id } => {
                            joins.push(*lobby_id);
                        },
                    }
                    idx = idx + 1;
                }
                proof {
                    assert(msviews.skip(msviews.len() as int) =~= Seq::<CTcpView>::empty());
                }
            },
            Err(_) => {},
        }
        k = k + 1;
    }
    proof {
        assert(blobs.skip(total as int) =~= Seq::<Seq<u8>>::empty());
    }
    joins
}


/// One reliable tick over a run of connections, starting at the given
/// index: the chat history threads through them in order, and every
/// connection's join requests are collected beside its index.
pub open spec fn spec_tcp_tick(
    conns: Seq<TcpConnection<STcpType>>,
    chat: Seq<(Id, Seq<u8>)>,
    base: int,
) -> (Seq<(Id, Seq<u8>)>, Seq<(int, Id)>)
    decreases conns.len(),
{
    if conns.len() == 0 {
        (chat, Seq::empty())
    } else {
        let st = spec_server_tcp_drain(
            (ServerTcpState { chat, joins: Seq::empty() }),
            packet_views(conns[0].input_packet_buffer@).take(
                spec_drained(conns[0].input_packet_buffer@.len()) as int,
            ),
        );
        let rest = spec_tcp_tick(conns.drop_first(), st.chat, base + 1);
        (rest.0, st.joins.map_values(|id: Id| (base, id)) + rest.1)
    }
}

/// The collected join requests, as plain values.
pub open spec fn join_views(s: Seq<(usize, Id)>) -> Seq<(int, Id)> {
    s.map_values(|p: (usize, Id)| (p.0 as int, p.1))
}

/// One reliable tick over every connection: chat lines join the shared
/// history in connection order, and exactly the join requests each
/// connection's drained batch carried come back beside its index, for
/// the lobby logic to answer on that connection.
pub fn server_handle_tcp_message(
    connections: &mut Vec<TcpConnection<STcpType>>,
    chat: &mut Chat,
) -> (r: Vec<(usize, Id)>)
    requires
        old(chat).wf(),
    ensures
        final(chat).wf(),
        final(connections)@.len() == old(connections)@.len(),
        forall|j: int|
            0 <= j < old(connections)@.len() ==> {
                let c0 = #[trigger] old(connections)@[j];
                let c1 = final(connections)@[j];
                &&& c1.stream == c0.stream
                &&& c1.messages() == c0.messages()
                &&& c1.ping == c0.ping
                &&& c1.input_packet_buffer@ == c0.input_packet_buffer@.skip(
                    spec_drained(c0.input_packet_buffer@.len()) as int,
                )
                &&& (c0.wf() ==> c1.wf())
            },
        chats_view(final(chat).chat_history@) == spec_tcp_tick(
            old(connections)@,
            chats_view(old(chat).chat_history@),
            0,
        ).0,
        join_views(r@) == spec_tcp_tick(
            old(connections)@,
            chats_view(old(chat).chat_history@),
            0,
        ).1,
        forall|k: int|
            0 <= k < r@.len() ==> 0 <= (#[trigger] r@[k]).0 < old(connections)@.len(),
{
    let ghost conns0 = connections@;
    let ghost chat0 = chats_view(old(chat).chat_history@);
    proof {
        assert(conns0.skip(0) =~= conns0);
        assert(join_views(Seq::<(usize, Id)>::empty()) =~= Seq::<(int, Id)>::empty());
    }
    let mut joins: Vec<(usize, Id)> = Vec::new();
    let n = connections.len();
    let mut j: usize = 0;
    while j < n
        invariant
            n == connections@.len(),
            n == conns0.len(),
            j <= n,
            chat.wf(),
            forall|k: int| j <= k < n ==> #[trigger] connections@[k] == conns0[k],
            forall|k: int|
                0 <= k < j ==> {
                    let c0 = #[trigger] conns0[k];
                    let c1 = connections@[k];
                    &&& c1.stream == c0.stream
                    &&& c1.messages() == c0.messages()
                    &&& c1.ping == c0.ping
                    &&& c1.input_packet_buffer@ == c0.input_packet_buffer@.skip(
                        spec_drained(c0.input_packet_buffer@.len()) as int,
                    )
                    &&& (c0.wf() ==> c1.wf())
                },
            forall|k: int| 0 <= k < joins@.len() ==> 0 <= (#[trigger] joins@[k]).0 < n,
            spec_tcp_tick(conns0, chat0, 0).0 == spec_tcp_tick(
                conns0.skip(j as int),
                chats_view(chat.chat_history@),
                j as int,
            ).0,
            spec_tcp_tick(conns0, chat0, 0).1 == join_views(joins@) + spec_tcp_tick(
                conns0.skip(j as int),
                chats_view(chat.chat_history@),
                j as int,
            ).1,
        decreases n - j,
    {
        proof {
            assert(conns0.skip(j as int)[0] == conns0[j as int]);
            assert(conns0.skip(j as int).drop_first() =~= conns0.skip(j as int + 1));
        }
        let ghost joins_before = join_views(joins@);
        let ghost chat_before = chats_view(chat.chat_history@);
        let c = &mut connections[j];
        let requested = server_handle_tcp_connection(c, chat);
        let ghost st = spec_server_tcp_drain(
            (ServerTcpState { chat: chat_before, joins: Seq::empty() }),
            packet_views(conns0[j as int].input_packet_buffer@).take(
                spec_drained(conns0[j as int].input_packet_buffer@.len()) as int,
            ),
        );
        let ghost mapped = st.joins.map_values(|id: Id| (j as int, id));
        proof {
            assert(requested@ == st.joins);
            assert(st.joins.take(0).map_values(|id: Id| (j as int, id)) =~= Seq::<(
                int,
                Id,
            )>::empty());
        }
        let mut q: usize = 0;
        while q < requested.len()
            invariant
                j < n,
                q <= requested@.len(),
                requested@ == st.joins,
                mapped == st.joins.map_values(|id: Id| (j as int, id)),
                forall|k: int| 0 <= k < joins@.len() ==> 0 <= (#[trigger] joins@[k]).0 < n,
                join_views(joins@) == joins_before + st.joins.take(q as int).map_values(
                    |id: Id| (j as int, id),
                ),
            decreases requested@.len() - q,
        {
            joins.push((j, requested[q]));
            proof {
                assert(st.joins.take(q as int + 1).map_values(|id: Id| (j as int, id))
                    =~= st.joins.take(q as int).map_values(|id: Id| (j as int, id)).push(
                    ((j as int), st.joins[q as int]),
                ));
                assert(join_views(joins@) =~= (joins_before + st.joins.take(
                    q as int,
                ).map_values(|id: Id| (j as int, id))).push(((j as int), st.joins[q as int])));
            }
            q = q + 1;
        }
        proof {
            assert(st.joins.take(st.joins.len() as int) =~= st.joins);
            assert(join_views(joins@) == joins_before + mapped);
            let rest = spec_tcp_tick(
                conns0.skip(j as int + 1),
                chats_view(chat.chat_history@),
                j as int + 1,
            );
            assert(joins_before + (mapped + rest.1) =~= (joins_before + mapped) + rest.1);
        }
        j = j + 1;
    }
    proof {
        assert(conns0.skip(n as int) =~= Seq::<TcpConnection<STcpType>>::empty());
        assert(join_views(joins@) + Seq::<(int, Id)>::empty() =~= join_views(joins@));
    }
    joins
}

} // verus!
