//! Moving payloads between the network edge and the connections: each
//! inbound payload either establishes a connection's endpoint or joins
//! its decode queue, and each tick's queued messages become one blob to
//! hand to the transport.

use vstd::prelude::*;
use crate::net_manage::{Endpoint, Packet, StreamHandle, TcpConnection, UdpConnection};
use crate::net_message::{
    batch_views, encode_message_batch, spec_batch_wf, spec_enc_batch, CTcpType, CUdpType,
    NetworkMessage, NetworkMessageType, STcpType, SUdpType,
};
use crate::net_manage::spec_queue;
use crate::net_reconciliation::{sequence_message, ReconcileBuffer, BUFFER_SIZE};

verus! {

/// One inbound datagram on the client: the first one establishes the
/// server's endpoint, every later one queues for decode.
pub fn client_udp_net_receive(
    connection: &mut UdpConnection<CUdpType>,
    bytes: Vec<u8>,
    addr: Endpoint,
)
    ensures
        old(connection).socket is Some ==> {
            &&& final(connection).socket == old(connection).socket
            &&& final(connection).input_packet_buffer@ == old(
                connection,
            ).input_packet_buffer@.push((Packet { bytes }))
        },
        old(connection).socket is None ==> {
            &&& final(connection).socket == Some(addr)
            &&& final(connection).input_packet_buffer@ == old(
                connection,
            ).input_packet_buffer@
        },
        final(connection).messages() == old(connection).messages(),
        final(connection).ping == old(connection).ping,
        old(connection).wf() ==> final(connection).wf(),
{
    match connection.socket {
        Some(_) => {
            connection.input_packet_buffer.push_back(Packet { bytes });
        },
        None => {
            connection.socket = Some(addr);
        },
    }
}

/// One inbound stream read on the client: the first one establishes the
/// stream handle, every later one queues for decode.
pub fn client_tcp_net_receive(
    connection: &mut TcpConnection<CTcpType>,
    bytes: Vec<u8>,
    stream: StreamHandle,
)
    ensures
        old(connection).stream is Some ==> {
            &&& final(connection).stream == old(connection).stream
            &&& final(connection).input_packet_buffer@ == old(
                connection,
            ).input_packet_buffer@.push((Packet { bytes }))
        },
        old(connection).stream is None ==> {
            &&& final(connection).stream == Some(stream)
            &&& final(connection).input_packet_buffer@ == old(
                connection,
            ).input_packet_buffer@
        },
        final(connection).messages() == old(connection).messages(),
        final(connection).ping == old(connection).ping,
        old(connection).wf() ==> final(connection).wf(),
{
    match connection.stream {
        Some(_) => {
            connection.input_packet_buffer.push_back(Packet { bytes });
        },
        None => {
            connection.stream = Some(stream);
        },
    }
}

/// The first connection registered for an endpoint, if any.
pub open spec fn spec_find_udp_conn(
    conns: Seq<UdpConnection<SUdpType>>,
    addr: Endpoint,
) -> int
    decreases conns.len(),
{
    if conns.len() == 0 {
        -1
    } else if conns[0].socket == Some(addr) {
        0
    } else {
        let r = spec_find_udp_conn(conns.drop_first(), addr);
        if r == -1 {
            -1
        } else {
            r + 1
        }
    }
}

/// A prefix without a match pushes the first match past it.
proof fn lemma_find_udp_conn_prefix(conns: Seq<UdpConnection<SUdpType>>, addr: Endpoint, i: int)
    requires
        0 <= i <= conns.len(),
        forall|k: int| 0 <= k < i ==> (#[trigger] conns[k]).socket != Some(addr),
    ensures
        i < conns.len() && conns[i].socket == Some(addr) ==> spec_find_udp_conn(conns, addr)
            == i,
        i == conns.len() ==> spec_find_udp_conn(conns, addr) == -1,
    decreases conns.len(),
{
    if conns.len() > 0 {
        if conns[0].socket == Some(addr) {
        } else {
            lemma_find_udp_conn_prefix(
                conns.drop_first(),
                addr,
                if i > 0 {
                    i - 1
                } else {
                    0
                },
            );
        }
    }
}

/// One inbound datagram on the server: a never-seen endpoint registers
/// exactly one new connection carrying the payload; a known endpoint's
/// first registered connection queues it.
pub fn server_udp_net_receive(
    connections: &mut Vec<UdpConnection<SUdpType>>,
    bytes: Vec<u8>,
    socket: Endpoint,
)
    ensures
        ({
            let j = spec_find_udp_conn(old(connections)@, socket);
            if j == -1 {
                &&& final(connections)@.len() == old(connections)@.len() + 1
                &&& forall|k: int|
                    0 <= k < old(connections)@.len() ==> final(connections)@[k] == old(
                        connections,
                    )@[k]
                &&& final(connections)@.last().socket == Some(socket)
                &&& final(connections)@.last().input_packet_buffer@ == seq![
                    (Packet { bytes }),
                ]
                &&& final(connections)@.last().messages() == Seq::<
                    NetworkMessage<SUdpType>,
                >::empty()
                &&& final(connections)@.last().ping == 0
                &&& final(connections)@.last().wf()
            } else {
                &&& final(connections)@.len() == old(connections)@.len()
                &&& forall|k: int|
                    0 <= k < old(connections)@.len() && k != j ==> final(connections)@[k]
                        == old(connections)@[k]
                &&& final(connections)@[j].socket == old(connections)@[j].socket
                &&& final(connections)@[j].input_packet_buffer@ == old(
                    connections,
                )@[j].input_packet_buffer@.push((Packet { bytes }))
                &&& final(connections)@[j].messages() == old(connections)@[j].messages()
                &&& final(connections)@[j].ping == old(connections)@[j].ping
            }
        }),
{
    let n = connections.len();
    let mut i: usize = 0;
    while i < n
        invariant
            n == connections@.len(),
            i <= n,
            connections@ == old(connections)@,
            forall|k: int| 0 <= k < i ==> (#[trigger] connections@[k]).socket != Some(socket),
        decreases n - i,
    {
        let matches_here = match &connections[i].socket {
            Some(s) => s.ip == socket.ip && s.port == socket.port,
            None => false,
        };
        if matches_here {
            proof {
                lemma_find_udp_conn_prefix(connections@, socket, i as int);
            }
            let c = &mut connections[i];
            c.input_packet_buffer.push_back(Packet { bytes });
            return ;
        }
        i = i + 1;
    }
    proof {
        lemma_find_udp_conn_prefix(connections@, socket, n as int);
    }
    let mut conn = UdpConnection::<SUdpType>::new(Some(socket));
    conn.input_packet_buffer.push_back(Packet { bytes });
    connections.push(conn);
}

/// The first connection registered for a stream, if any.
pub open spec fn spec_find_tcp_conn(
    conns: Seq<TcpConnection<STcpType>>,
    stream: StreamHandle,
) -> int
    decreases conns.len(),
{
    if conns.len() == 0 {
        -1
    } else if conns[0].stream == Some(stream) {
        0
    } else {
        let r = spec_find_tcp_conn(conns.drop_first(), stream);
        if r == -1 {
            -1
        } else {
            r + 1
        }
    }
}

/// A prefix without a match pushes the first match past it.
proof fn lemma_find_tcp_conn_prefix(
    conns: Seq<TcpConnection<STcpType>>,
    stream: StreamHandle,
    i: int,
)
    requires
        0 <= i <= conns.len(),
        forall|k: int| 0 <= k < i ==> (#[trigger] conns[k]).stream != Some(stream),
    ensures
        i < conns.len() && conns[i].stream == Some(stream) ==> spec_find_tcp_conn(
            conns,
            stream,
        ) == i,
        i == conns.len() ==> spec_find_tcp_conn(conns, stream) == -1,
    decreases conns.len(),
{
    if conns.len() > 0 {
        if conns[0].stream == Some(stream) {
        } else {
            lemma_find_tcp_conn_prefix(
                conns.drop_first(),
                stream,
                if i > 0 {
                    i - 1
                } else {
                    0
                },
            );
        }
    }
}

/// One inbound stream read on the server: a never-seen stream registers
/// exactly one new connection carrying the payload; a known stream's
/// first registered connection queues it.
pub fn server_tcp_net_receive(
    connections: &mut Vec<TcpConnection<STcpType>>,
    bytes: Vec<u8>,
    stream: StreamHandle,
)
    ensures
        ({
            let j = spec_find_tcp_conn(old(connections)@, stream);
            if j == -1 {
                &&& final(connections)@.len() == old(connections)@.len() + 1
                &&& forall|k: int|
                    0 <= k < old(connections)@.len() ==> final(connections)@[k] == old(
                        connections,
                    )@[k]
                &&& final(connections)@.last().stream == Some(stream)
                &&& final(connections)@.last().input_packet_buffer@ == seq![
                    (Packet { bytes }),
                ]
                &&& final(connections)@.last().messages() == Seq::<
                    NetworkMessage<STcpType>,
                >::empty()
                &&& final(connections)@.last().ping == 0
                &&& final(connections)@.last().wf()
            } else {
                &&& final(connections)@.len() == old(connections)@.len()
                &&& forall|k: int|
                    0 <= k < old(connections)@.len() && k != j ==> final(connections)@[k]
                        == old(connections)@[k]
                &&& final(connections)@[j].stream == old(connections)@[j].stream
                &&& final(connections)@[j].input_packet_buffer@ == old(
                    connections,
                )@[j].input_packet_buffer@.push((Packet { bytes }))
                &&& final(connections)@[j].messages() == old(connections)@[j].messages()
                &&& final(connections)@[j].ping == old(connections)@[j].ping
            }
        }),
{
    let n = connections.len();
    let mut i: usize = 0;
    while i < n
        invariant
            n == connections@.len(),
            i <= n,
            connections@ == old(connections)@,
            forall|k: int| 0 <= k < i ==> (#[trigger] connections@[k]).stream != Some(stream),
        decreases n - i,
    {
        let matches_here = match &connections[i].stream {
            Some(s) => s.id == stream.id,
            None => false,
        };
        if matches_here {
            proof {
                lemma_find_tcp_conn_prefix(connections@, stream, i as int);
            }
            let c = &mut connections[i];
            c.input_packet_buffer.push_back(Packet { bytes });
            return ;
        }
        i = i + 1;
    }
    proof {
        lemma_find_tcp_conn_prefix(connections@, stream, n as int);
    }
    let mut conn = TcpConnection::<STcpType>::new(Some(stream));
    conn.input_packet_buffer.push_back(Packet { bytes });
    connections.push(conn);
}


/// The blob for a datagram connection's queued messages, or nothing
/// when the queue is empty.
pub fn udp_connection_send<T: NetworkMessageType>(connection: &UdpConnection<T>) -> (r: Option<
    Vec<u8>,
>)
    requires
        connection.wf(),
    ensures
        match r {
            Some(b) => connection.messages().len() > 0 && b@ == spec_enc_batch::<T>(
                batch_views(connection.messages()),
            ),
            None => connection.messages().len() == 0,
        },
{
    if connection.is_empty_messages() {
        return None;
    }
    Some(encode_message_batch(connection.get_current_messages()))
}

/// After the transport's answer: a sent queue is dropped, an unsent one
/// stays for the next tick.
pub fn udp_connection_sent<T: NetworkMessageType>(connection: &mut UdpConnection<T>, sent: bool)
    ensures
        sent ==> final(connection).messages() == Seq::<NetworkMessage<T>>::empty(),
        !sent ==> final(connection).messages() == old(connection).messages(),
        final(connection).socket == old(connection).socket,
        final(connection).input_packet_buffer == old(connection).input_packet_buffer,
        final(connection).ping == old(connection).ping,
        old(connection).wf() ==> final(connection).wf(),
{
    if sent {
        connection.clear_messages();
    }
}

/// The blob for a stream connection's queued messages, or nothing when
/// the queue is empty.
pub fn tcp_connection_send<T: NetworkMessageType>(connection: &TcpConnection<T>) -> (r: Option<
    Vec<u8>,
>)
    requires
        connection.wf(),
    ensures
        match r {
            Some(b) => connection.messages().len() > 0 && b@ == spec_enc_batch::<T>(
                batch_views(connection.messages()),
            ),
            None => connection.messages().len() == 0,
        },
{
    if connection.is_empty_messages() {
        return None;
    }
    Some(encode_message_batch(connection.get_current_messages()))
}

/// After the transport's answer: a sent queue is dropped, an unsent one
/// stays for the next tick.
pub fn tcp_connection_sent<T: NetworkMessageType>(connection: &mut TcpConnection<T>, sent: bool)
    ensures
        sent ==> final(connection).messages() == Seq::<NetworkMessage<T>>::empty(),
        !sent ==> final(connection).messages() == old(connection).messages(),
        final(connection).stream == old(connection).stream,
        final(connection).input_packet_buffer == old(connection).input_packet_buffer,
        final(connection).ping == old(connection).ping,
        old(connection).wf() ==> final(connection).wf(),
{
    if sent {
        connection.clear_messages();
    }
}

/// The client's per-tick unreliable send: a nonempty queue is tagged
/// with the current sequence number and serialized as one blob.
pub fn client_udp_net_send(
    connection: &mut UdpConnection<CUdpType>,
    reconcile_buffer: &ReconcileBuffer,
) -> (r: Option<Vec<u8>>)
    requires
        old(connection).wf(),
    ensures
        final(connection).wf(),
        final(connection).socket == old(connection).socket,
        final(connection).input_packet_buffer == old(connection).input_packet_buffer,
        final(connection).ping == old(connection).ping,
        old(connection).messages().len() == 0 ==> r is None && final(connection).messages()
            == old(connection).messages(),
        old(connection).messages().len() > 0 ==> {
            &&& final(connection).messages() == spec_queue(
                old(connection).messages(),
                (NetworkMessage(
                    CUdpType::Sequence {
                        sequence_number: reconcile_buffer.sequence_counter,
                    },
                )),
            )
            &&& match r {
                Some(b) => b@ == spec_enc_batch::<CUdpType>(
                    batch_views(final(connection).messages()),
                ),
                None => false,
            }
        },
{
    if connection.is_empty_messages() {
        return None;
    }
    sequence_message(connection, reconcile_buffer);
    Some(encode_message_batch(connection.get_current_messages()))
}

/// After the client's unreliable send attempt: a delivered blob empties
/// the queue and steps the owned sequence counter; a failed attempt
/// leaves both alone, so the counter only ever advances after a
/// successful outbound send.
pub fn client_udp_net_send_finish(
    connection: &mut UdpConnection<CUdpType>,
    reconcile_buffer: &mut ReconcileBuffer,
    sent: bool,
)
    requires
        old(reconcile_buffer).wf(),
    ensures
        sent ==> final(connection).messages() == Seq::<NetworkMessage<CUdpType>>::empty(),
        !sent ==> final(connection).messages() == old(connection).messages(),
        final(connection).socket == old(connection).socket,
        final(connection).input_packet_buffer == old(connection).input_packet_buffer,
        final(connection).ping == old(connection).ping,
        old(connection).wf() ==> final(connection).wf(),
        final(reconcile_buffer).wf(),
        sent ==> final(reconcile_buffer).sequence_counter == (old(
            reconcile_buffer,
        ).sequence_counter + 1) % (BUFFER_SIZE as int),
        !sent ==> final(reconcile_buffer).sequence_counter == old(
            reconcile_buffer,
        ).sequence_counter,
        final(reconcile_buffer).history() == old(reconcile_buffer).history(),
        final(reconcile_buffer).miss_predict_counter == old(
            reconcile_buffer,
        ).miss_predict_counter,
{
    if sent {
        connection.clear_messages();
        reconcile_buffer.increment_sequence_num();
    }
}

} // verus!
