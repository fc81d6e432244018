//! Per-peer connections: an optional established endpoint, a FIFO of raw
//! inbound payloads awaiting decode, and the typed messages accumulating
//! for the next send.

use vstd::prelude::*;
use std::collections::VecDeque;
use crate::net_message::{NetworkMessage, NetworkMessageType};

verus! {

/// The most messages a connection queues for one send; one more is
/// silently dropped, as the loss-tolerant design allows, so that a queue
/// always fits the wire count field.
pub const OUTBOUND_QUEUE_MAX: usize = 65535;

/// A remote endpoint as plain values: a host address and a port.
#[derive(Clone, Copy, Debug, PartialEq, Eq, Structural)]
pub struct Endpoint {
    pub ip: u32,
    pub port: u16,
}

/// A handle standing for one accepted reliable stream.
#[derive(Clone, Copy, Debug, PartialEq, Eq, Structural)]
pub struct StreamHandle {
    pub id: u64,
}

/// One raw inbound payload, as read from the network.
#[derive(Clone, Debug, PartialEq, Eq)]
pub struct Packet {
    pub bytes: Vec<u8>,
}

/// What queueing one message does: it is appended unless the queue is
/// at its bound, in which case it is silently dropped.
pub open spec fn spec_queue<T: NetworkMessageType>(
    msgs: Seq<NetworkMessage<T>>,
    m: NetworkMessage<T>,
) -> Seq<NetworkMessage<T>> {
    if msgs.len() < OUTBOUND_QUEUE_MAX {
        msgs.push(m)
    } else {
        msgs
    }
}

/// The payloads of a queue of packets.
pub open spec fn packet_views(s: Seq<Packet>) -> Seq<Seq<u8>> {
    s.map_values(|p: Packet| p.bytes@)
}

/// A connection over the loss-tolerant datagram channel, carrying one
/// message kind.
pub struct UdpConnection<T: NetworkMessageType> {
    /// The remote endpoint, absent until the first datagram arrives.
    pub socket: Option<Endpoint>,
    /// Raw inbound payloads awaiting decode, oldest first.
    pub input_packet_buffer: VecDeque<Packet>,
    pub output_message: Vec<NetworkMessage<T>>,
    /// Smoothed round-trip time estimate, milliseconds.
    pub ping: u32,
}

impl<T: NetworkMessageType> UdpConnection<T> {
    /// The queued outbound messages, oldest first.
    pub open spec fn messages(self) -> Seq<NetworkMessage<T>> {
        self.output_message@
    }

    /// The outbound queue never outgrows the wire count field and every
    /// queued message is encodable.
    pub open spec fn wf(self) -> bool {
        &&& self.messages().len() <= OUTBOUND_QUEUE_MAX
        &&& forall|i: int|
            0 <= i < self.messages().len() ==> T::wfv(
                (#[trigger] self.messages()[i]).0.view_of(),
            )
    }

    /// A fresh connection with nothing queued either way.
    pub fn new(ip_addrs: Option<Endpoint>) -> (r: UdpConnection<T>)
        ensures
            r.socket == ip_addrs,
            r.input_packet_buffer@ == Seq::<Packet>::empty(),
            r.messages() == Seq::<NetworkMessage<T>>::empty(),
            r.ping == 0,
            r.wf(),
    {
        UdpConnection {
            socket: ip_addrs,
            input_packet_buffer: VecDeque::new(),
            output_message: Vec::new(),
            ping: 0,
        }
    }

    /// Queue a message for the next send; a full queue drops it.
    pub fn add_message(&mut self, message: NetworkMessage<T>)
        ensures
            final(self).messages() == spec_queue(old(self).messages(), message),
            final(self).socket == old(self).socket,
            final(self).input_packet_buffer == old(self).input_packet_buffer,
            final(self).ping == old(self).ping,
            old(self).wf() && T::wfv(message.0.view_of()) ==> final(self).wf(),
    {
        if self.output_message.len() < OUTBOUND_QUEUE_MAX {
            self.output_message.push(message);
        }
    }

    /// The messages waiting for the next send.
    pub fn get_current_messages(&self) -> (r: &Vec<NetworkMessage<T>>)
        ensures
            r@ == self.messages(),
    {
        &self.output_message
    }

    /// Whether nothing is queued to send.
    pub fn is_empty_messages(&self) -> (r: bool)
        ensures
            r == (self.messages().len() == 0),
    {
        self.output_message.is_empty()
    }

    /// Drop everything queued, after a successful send.
    pub fn clear_messages(&mut self)
        ensures
            final(self).messages() == Seq::<NetworkMessage<T>>::empty(),
            final(self).socket == old(self).socket,
            final(self).input_packet_buffer == old(self).input_packet_buffer,
            final(self).ping == old(self).ping,
            final(self).wf(),
    {
        self.output_message.clear();
    }
}

/// A connection over the ordered stream channel, carrying one message
/// kind.
pub struct TcpConnection<T: NetworkMessageType> {
    /// The accepted stream, absent until the connection is established.
    pub stream: Option<StreamHandle>,
    /// Raw inbound payloads awaiting decode, oldest first.
    pub input_packet_buffer: VecDeque<Packet>,
    pub output_message: Vec<NetworkMessage<T>>,
    /// Smoothed round-trip time estimate, milliseconds.
    pub ping: u32,
}

impl<T: NetworkMessageType> TcpConnection<T> {
    /// The queued outbound messages, oldest first.
    pub open spec fn messages(self) -> Seq<NetworkMessage<T>> {
        self.output_message@
    }

    /// The outbound queue never outgrows the wire count field and every
    /// queued message is encodable.
    pub open spec fn wf(self) -> bool {
        &&& self.messages().len() <= OUTBOUND_QUEUE_MAX
        &&& forall|i: int|
            0 <= i < self.messages().len() ==> T::wfv(
                (#[trigger] self.messages()[i]).0.view_of(),
            )
    }

    /// A fresh connection with nothing queued either way.
    pub fn new(stream: Option<StreamHandle>) -> (r: TcpConnection<T>)
        ensures
            r.stream == stream,
            r.input_packet_buffer@ == Seq::<Packet>::empty(),
            r.messages() == Seq::<NetworkMessage<T>>::empty(),
            r.ping == 0,
            r.wf(),
    {
        TcpConnection {
            stream,
            input_packet_buffer: VecDeque::new(),
            output_message: Vec::new(),
            ping: 0,
        }
    }

    /// Queue a message for the next send; a full queue drops it.
    pub fn add_message(&mut self, message: NetworkMessage<T>)
        ensures
            final(self).messages() == spec_queue(old(self).messages(), message),
            final(self).stream == old(self).stream,
            final(self).input_packet_buffer == old(self).input_packet_buffer,
            final(self).ping == old(self).ping,
            old(self).wf() && T::wfv(message.0.view_of()) ==> final(self).wf(),
    {
        if self.output_message.len() < OUTBOUND_QUEUE_MAX {
            self.output_message.push(message);
        }
    }

    /// The messages waiting for the next send.
    pub fn get_current_messages(&self) -> (r: &Vec<NetworkMessage<T>>)
        ensures
            r@ == self.messages(),
    {
        &self.output_message
    }

    /// Whether nothing is queued to send.
    pub fn is_empty_messages(&self) -> (r: bool)
        ensures
            r == (self.messages().len() == 0),
    {
        self.output_message.is_empty()
    }

    /// Drop everything queued, after a successful send.
    pub fn clear_messages(&mut self)
        ensures
            final(self).messages() == Seq::<NetworkMessage<T>>::empty(),
            final(self).stream == old(self).stream,
            final(self).input_packet_buffer == old(self).input_packet_buffer,
            final(self).ping == old(self).ping,
            final(self).wf(),
    {
        self.output_message.clear();
    }
}

} // verus!
