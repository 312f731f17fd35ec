//! The sending end of a reliable channel that carries requests and their
//! responses beside plain messages.
//!
//! A request or a response travels as a message whose payload ends in
//! three bytes: one that tells request from response, and the local id of
//! the request in little-endian order.

use crate::bit_writer::BitWriter;
use crate::bytes::copy_bytes;
use crate::channel::{sender_write, ChannelSenderView};
use crate::channel_error::ChannelProtocolError;
use crate::message::{MessageContainer, MessageIndex, MessageView};
use crate::reliable_sender::{
    due_items, next_message_index, refreshed, without_index, OutgoingView, ReliableSender,
    ReliableSenderView, MAX_OUTSTANDING,
};
use crate::request::{
    after_response, id_in_use, is_first_free, GlobalRequestId, LocalRequestId, LocalResponseId,
    RequestSender, RequestTag, RequestsView, MAX_REQUESTS,
};
use crate::reliable_receiver::index_after;
use vstd::prelude::*;

verus! {

/// The three bytes that a tag takes at the end of a payload.
pub open spec fn tag_bytes(tag: RequestTag) -> Seq<u8> {
    seq![
        if tag.is_request {
            1u8
        } else {
            0u8
        },
        (tag.id % 256) as u8,
        (tag.id / 256) as u8,
    ]
}

/// A message with a tag at the end of its payload.
pub open spec fn tagged(message: MessageView, tag: RequestTag) -> MessageView {
    MessageView { payload: message.payload + tag_bytes(tag), ..message }
}

/// The tag at the end of a payload and the message without it; nothing
/// for a payload of fewer than three bytes, or whose first tag byte is
/// neither 0 nor 1.
pub open spec fn untagged(message: MessageView) -> Option<(RequestTag, MessageView)> {
    let length = message.payload.len() as int;
    if length < 3 || message.payload[length - 3] > 1 {
        None
    } else {
        Some(
            (
                RequestTag {
                    is_request: message.payload[length - 3] == 1,
                    id: (message.payload[length - 2] + 256 * message.payload[length - 1]) as u16,
                },
                MessageView { payload: message.payload.take(length - 3), ..message },
            ),
        )
    }
}

/// Puts a tag at the end of the payload of a message.
pub fn tag_message(message: &MessageContainer, tag: RequestTag) -> (result: MessageContainer)
    ensures
        result@ == tagged(message@, tag),
{
    let mut payload = copy_bytes(message.payload().as_slice());
    payload.push(if tag.is_request {
        1
    } else {
        0
    });
    payload.push((tag.id % 256) as u8);
    payload.push((tag.id / 256) as u8);
    assert(payload@ =~= message@.payload + tag_bytes(tag));
    let entities = copy_handles(message.entities());
    MessageContainer::new(message.kind(), payload, entities)
}

/// A fresh vector with the given handles.
fn copy_handles(handles: &Vec<u16>) -> (copy: Vec<u16>)
    ensures
        copy@ == handles@,
{
    let mut copy: Vec<u16> = Vec::new();
    let mut i: usize = 0;
    while i < handles.len()
        invariant
            i <= handles.len(),
            copy@ == handles@.take(i as int),
        decreases handles.len() - i,
    {
        copy.push(handles[i]);
        assert(copy@ =~= handles@.take(i + 1));
        i += 1;
    }
    assert(handles@.take(handles.len() as int) =~= handles@);
    copy
}

/// Takes the tag from the end of the payload of a message.
pub fn untag_message(message: &MessageContainer) -> (result: Option<(RequestTag, MessageContainer)>)
    ensures
        match untagged(message@) {
            Some((tag, rest)) => result matches Some(found) && found.0 == tag && found.1@ == rest,
            None => result is None,
        },
{
    let payload = message.payload();
    let length = payload.len();
    if length < 3 || payload[length - 3] > 1 {
        return None;
    }
    let is_request = payload[length - 3] == 1;
    let id: u16 = payload[length - 2] as u16 + 256 * (payload[length - 1] as u16);
    let body = vstd::slice::slice_subrange(payload.as_slice(), 0, length - 3);
    let rest = copy_bytes(body);
    assert(rest@ =~= message@.payload.take(length - 3));
    let entities = copy_handles(message.entities());
    Some((RequestTag { is_request, id }, MessageContainer::new(message.kind(), rest, entities)))
}

/// Taking the tag from a message gives back the tag that was put on it
/// and the message as it was.
pub proof fn lemma_tag_round_trip(message: MessageView, tag: RequestTag)
    ensures
        untagged(tagged(message, tag)) == Some((tag, message)),
{
    let with = tagged(message, tag);
    assert(with.payload.take(with.payload.len() - 3) =~= message.payload);
}

/// The sending end of a reliable channel with its requests.
pub struct MessageChannelSender {
    sender: ReliableSender,
    requests: RequestSender,
}

impl MessageChannelSender {
    /// The messages that wait for their acknowledgement.
    pub closed spec fn messages(&self) -> ReliableSenderView {
        self.sender@
    }

    /// The requests that wait for their response.
    pub closed spec fn requests(&self) -> RequestsView {
        self.requests@
    }

    /// Both parts are in order.
    pub closed spec fn wf(&self) -> bool {
        self.sender.wf() && self.requests.wf()
    }

    /// A sender with nothing to send and no request waiting.
    pub fn new() -> (sender: Self)
        ensures
            sender.wf(),
            sender.messages() == (ReliableSenderView { next_index: 0, sending: Seq::empty() }),
            sender.requests() == (RequestsView { next_local_id: 0, waiting: Seq::empty() }),
    {
        MessageChannelSender { sender: ReliableSender::new(), requests: RequestSender::new() }
    }

    /// Queues a message.
    pub fn send_message(&mut self, message: MessageContainer) -> (outcome: Result<
        MessageIndex,
        ChannelProtocolError,
    >)
        requires
            old(self).wf(),
        ensures
            final(self).wf(),
            final(self).requests() == old(self).requests(),
            old(self).messages().sending.len() >= MAX_OUTSTANDING ==> outcome is Err && final(
                self).messages() == old(self).messages(),
            old(self).messages().sending.len() < MAX_OUTSTANDING ==> outcome == Ok::<
                MessageIndex,
                ChannelProtocolError,
            >(old(self).messages().next_index) && final(self).messages() == (ReliableSenderView {
                next_index: next_message_index(old(self).messages().next_index),
                sending: old(self).messages().sending.push(
                    OutgoingView {
                        index: old(self).messages().next_index,
                        message: message@,
                        last_sent: None,
                        due: true,
                        sends: 0,
                    },
                ),
            }),
    {
        self.sender.send_message(message)
    }

    /// Takes note of the time: every message whose acknowledgement has
    /// been waited for `resend_timeout_millis` or longer is due again.
    pub fn collect_messages(&mut self, now: u64, resend_timeout_millis: u64)
        requires
            old(self).wf(),
        ensures
            final(self).wf(),
            final(self).requests() == old(self).requests(),
            final(self).messages().next_index == old(self).messages().next_index,
            final(self).messages().sending.len() == old(self).messages().sending.len(),
            forall|i: int|
                0 <= i < old(self).messages().sending.len() ==> #[trigger] final(
                    self).messages().sending[i] == refreshed(
                    old(self).messages().sending[i],
                    now,
                    resend_timeout_millis,
                ),
    {
        self.sender.collect_messages(now, resend_timeout_millis);
    }

    /// Whether a message is due.
    pub fn has_messages(&self) -> (waiting: bool)
        requires
            self.wf(),
        ensures
            waiting == (due_items(self.messages().sending).len() > 0),
    {
        self.sender.has_messages()
    }

    /// The delivery of the message with `message_index` was acknowledged.
    pub fn notify_message_delivered(&mut self, message_index: &MessageIndex)
        requires
            old(self).wf(),
        ensures
            final(self).wf(),
            final(self).requests() == old(self).requests(),
            final(self).messages() == (ReliableSenderView {
                next_index: old(self).messages().next_index,
                sending: without_index(old(self).messages().sending, *message_index),
            }),
    {
        self.sender.notify_message_delivered(message_index);
    }

    /// Queues a request: it gets the first free local id and travels with
    /// it. Fails, and changes nothing, where as many requests or messages
    /// wait as may.
    pub fn send_outgoing_request(&mut self, global_request_id: GlobalRequestId, request: MessageContainer) -> (outcome:
        Result<LocalRequestId, ChannelProtocolError>)
        requires
            old(self).wf(),
        ensures
            final(self).wf(),
            old(self).requests().waiting.len() >= MAX_REQUESTS || old(
                self).messages().sending.len() >= MAX_OUTSTANDING ==> outcome == Err::<
                LocalRequestId,
                ChannelProtocolError,
            >(ChannelProtocolError::TooManyOutstanding) && final(self).messages() == old(
                self).messages() && final(self).requests() == old(self).requests(),
            old(self).requests().waiting.len() < MAX_REQUESTS && old(
                self).messages().sending.len() < MAX_OUTSTANDING ==> (outcome matches Ok(id)
                && is_first_free(
                old(self).requests().waiting,
                old(self).requests().next_local_id,
                (id - old(self).requests().next_local_id) % 65536,
            ) && final(self).requests() == (RequestsView {
                next_local_id: index_after(id, 1),
                waiting: old(self).requests().waiting.push((id, global_request_id)),
            }) && final(self).messages() == (ReliableSenderView {
                next_index: next_message_index(old(self).messages().next_index),
                sending: old(self).messages().sending.push(
                    OutgoingView {
                        index: old(self).messages().next_index,
                        message: tagged(request@, RequestTag { is_request: true, id }),
                        last_sent: None,
                        due: true,
                        sends: 0,
                    },
                ),
            })),
    {
        proof {
            self.sender.lemma_bounded();
        }
        if !self.sender.has_room() {
            return Err(ChannelProtocolError::TooManyOutstanding);
        }
        let id = match self.requests.send_request(global_request_id) {
            Ok(id) => id,
            Err(error) => {
                return Err(error);
            },
        };
        let message = tag_message(&request, RequestTag { is_request: true, id });
        match self.sender.send_message(message) {
            Ok(_) => Ok(id),
            Err(error) => Err(error),
        }
    }

    /// Queues the response to the request that arrived with local id
    /// `local_response_id`: it travels with this id. Fails, and changes
    /// nothing, where as many messages wait as may.
    pub fn send_outgoing_response(&mut self, local_response_id: LocalResponseId, response: MessageContainer) -> (outcome:
        Result<MessageIndex, ChannelProtocolError>)
        requires
            old(self).wf(),
        ensures
            final(self).wf(),
            final(self).requests() == old(self).requests(),
            old(self).messages().sending.len() >= MAX_OUTSTANDING ==> outcome == Err::<
                MessageIndex,
                ChannelProtocolError,
            >(ChannelProtocolError::TooManyOutstanding) && final(self).messages() == old(
                self).messages(),
            old(self).messages().sending.len() < MAX_OUTSTANDING ==> outcome == Ok::<
                MessageIndex,
                ChannelProtocolError,
            >(old(self).messages().next_index) && final(self).messages() == (ReliableSenderView {
                next_index: next_message_index(old(self).messages().next_index),
                sending: old(self).messages().sending.push(
                    OutgoingView {
                        index: old(self).messages().next_index,
                        message: tagged(
                            response@,
                            RequestTag { is_request: false, id: local_response_id },
                        ),
                        last_sent: None,
                        due: true,
                        sends: 0,
                    },
                ),
            }),
    {
        let message = tag_message(
            &response,
            RequestTag { is_request: false, id: local_response_id },
        );
        self.sender.send_message(message)
    }

    /// Takes the response to the request with local id
    /// `local_request_id`: gives the global id of the request and frees
    /// its local id. Gives nothing where no request waits under this id.
    pub fn process_incoming_response(&mut self, local_request_id: &LocalRequestId) -> (global: Option<
        GlobalRequestId,
    >)
        requires
            old(self).wf(),
        ensures
            final(self).wf(),
            final(self).messages() == old(self).messages(),
            final(self).requests().next_local_id == old(self).requests().next_local_id,
            (global, final(self).requests().waiting) == after_response(
                old(self).requests().waiting,
                *local_request_id,
            ),
            !id_in_use(final(self).requests().waiting, *local_request_id),
    {
        self.requests.process_incoming_response(local_request_id)
    }

    /// The connection is lost: every request that waits fails, and their
    /// global ids are handed back in the order in which they were issued.
    pub fn connection_lost(&mut self) -> (failed: Vec<GlobalRequestId>)
        requires
            old(self).wf(),
        ensures
            final(self).wf(),
            final(self).messages() == old(self).messages(),
            final(self).requests() == (RequestsView {
                next_local_id: old(self).requests().next_local_id,
                waiting: Seq::empty(),
            }),
            failed@ == old(self).requests().waiting.map_values(
                |e: (LocalRequestId, GlobalRequestId)| e.1,
            ),
    {
        self.requests.connection_lost()
    }

    /// Writes the run of this channel into a datagram, as many of its due
    /// messages as fit in `budget` bits, and hands back their indices.
    pub fn write_messages(&mut self, writer: &mut BitWriter, budget: u64, now: u64) -> (written: Vec<
        MessageIndex,
    >)
        requires
            old(self).wf(),
            old(writer).wf(),
        ensures
            final(self).wf(),
            final(writer).wf(),
            final(self).requests() == old(self).requests(),
            ({
                let expected = sender_write(
                    ChannelSenderView::Reliable(old(self).messages()),
                    budget,
                    now,
                );
                &&& ChannelSenderView::Reliable(final(self).messages()) == expected.after
                &&& final(writer)@ == old(writer)@ + expected.bits
                &&& expected.indices == Some(written@)
            }),
    {
        let ghost before = self.sender@;
        let written = self.sender.write_messages(writer, budget, now);
        proof {
            if budget >= 1 {
                let items = due_items(before.sending);
                crate::chunk::lemma_fitting_count(items, written@.len(), budget as nat);
                assert(self.sender@.sending =~= crate::channel::marked_sent(
                    before.sending,
                    written@.len(),
                    now,
                ));
                assert(written@ =~= crate::channel::item_indices(items.take(written@.len() as int)));
            } else {
                assert(writer@ =~= old(writer)@ + Seq::<bool>::empty());
                assert(written@ =~= Seq::<MessageIndex>::empty());
            }
        }
        written
    }
}

} // verus!
