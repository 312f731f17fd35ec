//! The client's queue of datagrams that have arrived from the server.

use crate::address::SocketAddress;
use std::collections::VecDeque;
use vstd::prelude::*;

verus! {

/// Why a client socket could not do what it was asked.
#[derive(Clone, Copy, PartialEq, Eq, Debug, Structural)]
pub enum ClientSocketError {
    /// A datagram could not be taken from the socket.
    Message,
    /// A datagram could not be sent.
    SendError,
}

/// The address of the server, which is known once the session is open.
#[derive(Clone, Copy, PartialEq, Eq, Debug, Structural)]
pub enum ServerAddr {
    /// The address of the server.
    Found(SocketAddress),
    /// The address is not known yet.
    Finding,
}

/// What a receiver holds, as mathematics sees it.
pub struct PacketQueueView {
    /// The datagrams that have arrived and were not handed out yet.
    pub queue: Seq<Seq<u8>>,
    /// The datagram that was handed out last.
    pub last_payload: Option<Seq<u8>>,
    /// The address of the server.
    pub server_addr: ServerAddr,
}

/// Hands out the datagrams that have arrived from the server, in the order
/// of their arrival.
pub struct PacketReceiverImpl {
    message_queue: VecDeque<Vec<u8>>,
    server_addr: ServerAddr,
    last_payload: Option<Vec<u8>>,
}

/// The datagrams that a queue of buffers holds.
pub open spec fn payload_views(queue: Seq<Vec<u8>>) -> Seq<Seq<u8>> {
    queue.map_values(|payload: Vec<u8>| payload@)
}

impl View for PacketReceiverImpl {
    type V = PacketQueueView;

    closed spec fn view(&self) -> PacketQueueView {
        PacketQueueView {
            queue: payload_views(self.message_queue@),
            last_payload: match self.last_payload {
                Some(payload) => Some(payload@),
                None => None,
            },
            server_addr: self.server_addr,
        }
    }
}

impl PacketReceiverImpl {
    /// A receiver over the datagrams in `message_queue`, which has handed
    /// out none yet.
    pub fn new(message_queue: VecDeque<Vec<u8>>, server_addr: ServerAddr) -> (receiver: Self)
        ensures
            receiver@ == (PacketQueueView {
                queue: payload_views(message_queue@),
                last_payload: None,
                server_addr,
            }),
    {
        PacketReceiverImpl { message_queue, server_addr, last_payload: None }
    }

    /// A datagram has arrived.
    pub fn push(&mut self, payload: Vec<u8>)
        ensures
            final(self)@ == (PacketQueueView {
                queue: old(self)@.queue.push(payload@),
                ..old(self)@
            }),
    {
        self.message_queue.push_back(payload);
        assert(self@.queue =~= old(self)@.queue.push(payload@));
    }

    /// The address of the server has become known.
    pub fn set_server_addr(&mut self, server_addr: ServerAddr)
        ensures
            final(self)@ == (PacketQueueView { server_addr, ..old(self)@ }),
    {
        self.server_addr = server_addr;
    }

    /// Hands out the datagram that arrived first, if there is one, and
    /// keeps it as the last one handed out. It never fails.
    pub fn receive(&mut self) -> (payload: Result<Option<&Vec<u8>>, ClientSocketError>)
        ensures
            final(self)@.server_addr == old(self)@.server_addr,
            old(self)@.queue.len() > 0 ==> {
                &&& payload matches Ok(Some(bytes))
                &&& bytes@ == old(self)@.queue[0]
                &&& final(self)@.queue == old(self)@.queue.skip(1)
                &&& final(self)@.last_payload == Some(old(self)@.queue[0])
            },
            old(self)@.queue.len() == 0 ==> {
                &&& payload matches Ok(None)
                &&& final(self)@ == old(self)@
            },
    {
        let ghost queue = self.message_queue@;
        match self.message_queue.pop_front() {
            Some(payload) => {
                proof {
                    assert(payload_views(queue)[0] == queue[0]@);
                    assert(self.message_queue@ =~= queue.skip(1));
                    assert(payload_views(self.message_queue@) =~= payload_views(queue).skip(1));
                }
                self.last_payload = Some(payload);
                Ok(self.last_payload.as_ref())
            },
            None => Ok(None),
        }
    }

    /// The address of the server.
    pub fn server_addr(&self) -> (server_addr: ServerAddr)
        ensures
            server_addr == self@.server_addr,
    {
        self.server_addr
    }
}

} // verus!
