//! Requests and their responses over a reliable channel.
//!
//! A request is known to its caller by a global id and travels under a
//! local id of 16 bits. The response bears the local id of its request;
//! when it arrives the local id is free again. When the connection is
//! lost, every request that still waits fails, and its local id is free
//! as well.

use crate::bit_reader::{BitReader, DecodeError};
use crate::bit_writer::BitWriter;
use crate::bits::{bits_value, lemma_uint_round_trip, uint_bits};
use crate::channel_error::ChannelProtocolError;
use crate::encoding::Decoded;
use crate::reliable_receiver::index_after;
use vstd::prelude::*;

verus! {

/// The id by which the caller knows a request.
pub type GlobalRequestId = u64;

/// The id under which a request travels.
pub type LocalRequestId = u16;

/// The id under which the response to a request travels: the local id of
/// the request.
pub type LocalResponseId = u16;

/// The largest number of requests that may wait for their response at
/// once.
pub const MAX_REQUESTS: usize = 32768;

/// Whether a message is a request or a response, and the local id that it
/// bears.
#[derive(Clone, Copy, PartialEq, Eq, Debug, Structural)]
pub struct RequestTag {
    /// Whether the message is a request; a response otherwise.
    pub is_request: bool,
    /// The local id of the request.
    pub id: LocalRequestId,
}

/// The bits of a tag: the bit that tells request from response, then the
/// local id.
pub open spec fn tag_bits(tag: RequestTag) -> Seq<bool> {
    seq![tag.is_request] + uint_bits(tag.id as nat, 16)
}

/// Decodes a tag.
pub open spec fn parse_tag(bits: Seq<bool>) -> Decoded<RequestTag> {
    if bits.len() < 17 {
        Err(DecodeError::Truncated)
    } else {
        Ok(
            (
                RequestTag { is_request: bits[0], id: bits_value(bits.subrange(1, 17)) as u16 },
                17,
            ),
        )
    }
}

impl RequestTag {
    /// Writes the tag.
    pub fn ser(&self, writer: &mut BitWriter)
        requires
            old(writer).wf(),
        ensures
            final(writer).wf(),
            final(writer)@ == old(writer)@ + tag_bits(*self),
    {
        writer.write_bool(self.is_request);
        writer.write_u16(self.id);
        assert(writer@ =~= old(writer)@ + tag_bits(*self));
    }

    /// Reads a tag. Fails, and reads nothing, where the input ends within
    /// it.
    pub fn de(reader: &mut BitReader) -> (tag: Result<RequestTag, DecodeError>)
        requires
            old(reader).wf(),
        ensures
            final(reader).wf(),
            match parse_tag(old(reader)@) {
                Ok((t, used)) => tag == Ok::<RequestTag, DecodeError>(t) && final(reader)@ == old(
                    reader)@.skip(used as int),
                Err(error) => tag == Err::<RequestTag, DecodeError>(error) && final(reader)@
                    == old(reader)@,
            },
    {
        let mut attempt = *reader;
        let is_request = match attempt.read_bool() {
            Ok(flag) => flag,
            Err(error) => {
                return Err(error);
            },
        };
        let id = match attempt.read_u16() {
            Ok(id) => id,
            Err(error) => {
                return Err(error);
            },
        };
        proof {
            assert(old(reader)@.skip(1).take(16) =~= old(reader)@.subrange(1, 17));
            assert(attempt@ =~= old(reader)@.skip(17));
        }
        *reader = attempt;
        Ok(RequestTag { is_request, id })
    }
}

/// Reading a tag gives back the tag that was written, whatever follows.
pub proof fn lemma_tag_round_trip(tag: RequestTag, rest: Seq<bool>)
    ensures
        parse_tag(tag_bits(tag) + rest) == Ok::<(RequestTag, nat), DecodeError>((tag, 17)),
{
    let bits = tag_bits(tag) + rest;
    assert(bits.subrange(1, 17) =~= uint_bits(tag.id as nat, 16));
    vstd::arithmetic::power2::lemma2_to64();
    lemma_uint_round_trip(tag.id as nat, 16);
}

/// The requests that wait for their response, as mathematics sees them.
pub struct RequestsView {
    /// The local id at which the search for a free id begins.
    pub next_local_id: LocalRequestId,
    /// The requests that wait, each with its local and its global id, in
    /// the order in which they were issued.
    pub waiting: Seq<(LocalRequestId, GlobalRequestId)>,
}

/// The sending side of requests: it knows which local id stands for
/// which request.
pub struct RequestSender {
    next_local_id: LocalRequestId,
    waiting: Vec<(LocalRequestId, GlobalRequestId)>,
}

/// Whether a local id is in use.
pub open spec fn id_in_use(waiting: Seq<(LocalRequestId, GlobalRequestId)>, id: LocalRequestId) -> bool {
    exists|i: int| 0 <= i < waiting.len() && (#[trigger] waiting[i]).0 == id
}

/// No local id is in use twice.
pub open spec fn distinct_ids(waiting: Seq<(LocalRequestId, GlobalRequestId)>) -> bool {
    forall|i: int, j: int|
        0 <= i < waiting.len() && 0 <= j < waiting.len() && i != j ==> waiting[i].0 != waiting[j].0
}

/// The first free local id at or after `start`: the id at `distance`
/// after it, where every id before that is in use.
pub open spec fn is_first_free(
    waiting: Seq<(LocalRequestId, GlobalRequestId)>,
    start: LocalRequestId,
    distance: int,
) -> bool {
    &&& 0 <= distance < 65536
    &&& !id_in_use(waiting, index_after(start, distance))
    &&& forall|k: int| 0 <= k < distance ==> id_in_use(waiting, #[trigger] index_after(start, k))
}

/// The place of the request that waits under a local id.
pub open spec fn id_position(waiting: Seq<(LocalRequestId, GlobalRequestId)>, id: LocalRequestId) -> int {
    choose|i: int| 0 <= i < waiting.len() && (#[trigger] waiting[i]).0 == id
}

/// What the arrival of the response to the request with local id `id`
/// gives: the global id of the request and the requests that still wait,
/// or nothing where no request waits under this id.
pub open spec fn after_response(waiting: Seq<(LocalRequestId, GlobalRequestId)>, id: LocalRequestId) -> (
    Option<GlobalRequestId>,
    Seq<(LocalRequestId, GlobalRequestId)>,
) {
    if id_in_use(waiting, id) {
        let i = id_position(waiting, id);
        (Some(waiting[i].1), waiting.remove(i))
    } else {
        (None, waiting)
    }
}

impl View for RequestSender {
    type V = RequestsView;

    closed spec fn view(&self) -> RequestsView {
        RequestsView { next_local_id: self.next_local_id, waiting: self.waiting@ }
    }
}

impl RequestSender {
    /// No local id is in use twice, and no more requests wait than may.
    pub closed spec fn wf(&self) -> bool {
        distinct_ids(self.waiting@) && self.waiting@.len() <= MAX_REQUESTS
    }

    /// A sender on which no request waits.
    pub fn new() -> (sender: Self)
        ensures
            sender.wf(),
            sender@ == (RequestsView { next_local_id: 0, waiting: Seq::empty() }),
    {
        RequestSender { next_local_id: 0, waiting: Vec::new() }
    }

    /// The place of a local id among the requests that wait.
    fn position(&self, id: LocalRequestId) -> (found: Option<usize>)
        ensures
            match found {
                Some(i) => i < self.waiting@.len() && self.waiting@[i as int].0 == id,
                None => !id_in_use(self.waiting@, id),
            },
    {
        let mut i: usize = 0;
        while i < self.waiting.len()
            invariant
                i <= self.waiting.len(),
                forall|j: int| 0 <= j < i ==> (#[trigger] self.waiting@[j]).0 != id,
            decreases self.waiting.len() - i,
        {
            if self.waiting[i].0 == id {
                return Some(i);
            }
            i += 1;
        }
        None
    }

    /// Issues a request: it gets the first free local id at or after the
    /// next one, and waits for its response. Fails, and changes nothing,
    /// where as many requests wait as may.
    pub fn send_request(&mut self, global_request_id: GlobalRequestId) -> (outcome: Result<
        LocalRequestId,
        ChannelProtocolError,
    >)
        requires
            old(self).wf(),
        ensures
            final(self).wf(),
            old(self)@.waiting.len() >= MAX_REQUESTS ==> outcome == Err::<
                LocalRequestId,
                ChannelProtocolError,
            >(ChannelProtocolError::TooManyOutstanding) && final(self)@ == old(self)@,
            old(self)@.waiting.len() < MAX_REQUESTS ==> (outcome matches Ok(id) && is_first_free(
                old(self)@.waiting,
                old(self)@.next_local_id,
                (id - old(self)@.next_local_id) % 65536,
            ) && final(self)@ == (RequestsView {
                next_local_id: index_after(id, 1),
                waiting: old(self)@.waiting.push((id, global_request_id)),
            })),
    {
        if self.waiting.len() >= MAX_REQUESTS {
            return Err(ChannelProtocolError::TooManyOutstanding);
        }
        let start = self.next_local_id;
        let mut id: LocalRequestId = start;
        let mut distance: u32 = 0;
        let ghost waiting = self.waiting@;
        loop
            invariant
                self.wf(),
                waiting == self.waiting@,
                self.waiting@ == old(self).waiting@,
                self.waiting@.len() < MAX_REQUESTS,
                start == old(self).next_local_id,
                distance < 65536,
                id == index_after(start, distance as int),
                forall|k: int| 0 <= k < distance ==> id_in_use(waiting, #[trigger] index_after(start, k)),
            decreases 65536 - distance,
        {
            match self.position(id) {
                None => {
                    self.waiting.push((id, global_request_id));
                    self.next_local_id = if id == 65535 {
                        0
                    } else {
                        id + 1
                    };
                    proof {
                        let after = self.waiting@;
                        assert forall|i: int, j: int|
                            0 <= i < after.len() && 0 <= j < after.len() && i != j implies after[i].0
                            != after[j].0 by {
                            if i < waiting.len() && j < waiting.len() {
                                assert(waiting[i].0 != waiting[j].0);
                            } else if i < waiting.len() {
                                assert(waiting[i].0 != id);
                            } else {
                                assert(waiting[j].0 != id);
                            }
                        }
                        assert((id - start) % 65536 == distance as int);
                    }
                    return Ok(id);
                },
                Some(_) => {},
            }
            if distance == 65535 {
                proof {
                    lemma_too_many_ids(waiting, start);
                }
                return Err(ChannelProtocolError::TooManyOutstanding);
            }
            id = if id == 65535 {
                0
            } else {
                id + 1
            };
            distance = distance + 1;
        }
    }

    /// Takes the response to the request with local id
    /// `local_request_id`: gives the global id of the request, which
    /// waits no longer, so that its local id is free. Gives nothing, and
    /// changes nothing, where no request waits under this id.
    pub fn process_incoming_response(&mut self, local_request_id: &LocalRequestId) -> (global: Option<
        GlobalRequestId,
    >)
        requires
            old(self).wf(),
        ensures
            final(self).wf(),
            final(self)@.next_local_id == old(self)@.next_local_id,
            (global, final(self)@.waiting) == after_response(old(self)@.waiting, *local_request_id),
            !id_in_use(final(self)@.waiting, *local_request_id),
    {
        match self.position(*local_request_id) {
            Some(i) => {
                let ghost before = self.waiting@;
                proof {
                    let chosen = id_position(before, *local_request_id);
                    assert(before[i as int].0 == *local_request_id);
                    assert(chosen == i);
                }
                let entry = self.waiting.remove(i);
                proof {
                    let after = self.waiting@;
                    assert(after =~= before.remove(i as int));
                    assert forall|x: int, y: int|
                        0 <= x < after.len() && 0 <= y < after.len() && x != y implies after[x].0
                        != after[y].0 by {
                        let bx = if x < i { x } else { x + 1 };
                        let by = if y < i { y } else { y + 1 };
                        assert(after[x] == before[bx]);
                        assert(after[y] == before[by]);
                    }
                    assert forall|x: int| 0 <= x < after.len() implies (#[trigger] after[x]).0
                        != *local_request_id by {
                        let bx = if x < i { x } else { x + 1 };
                        assert(after[x] == before[bx]);
                    }
                }
                Some(entry.1)
            },
            None => None,
        }
    }

    /// The connection is lost: every request that waits fails. Their
    /// global ids are handed back in the order in which the requests were
    /// issued, and every local id is free.
    pub fn connection_lost(&mut self) -> (failed: Vec<GlobalRequestId>)
        requires
            old(self).wf(),
        ensures
            final(self).wf(),
            final(self)@ == (RequestsView {
                next_local_id: old(self)@.next_local_id,
                waiting: Seq::empty(),
            }),
            failed@ == old(self)@.waiting.map_values(|e: (LocalRequestId, GlobalRequestId)| e.1),
    {
        let mut failed: Vec<GlobalRequestId> = Vec::new();
        let mut i: usize = 0;
        let ghost ids = old(self)@.waiting.map_values(|e: (LocalRequestId, GlobalRequestId)| e.1);
        while i < self.waiting.len()
            invariant
                i <= self.waiting.len(),
                self.waiting@ == old(self).waiting@,
                self.next_local_id == old(self).next_local_id,
                ids == old(self)@.waiting.map_values(|e: (LocalRequestId, GlobalRequestId)| e.1),
                failed@ == ids.take(i as int),
            decreases self.waiting.len() - i,
        {
            failed.push(self.waiting[i].1);
            assert(failed@ =~= ids.take(i + 1));
            i += 1;
        }
        assert(ids.take(i as int) =~= ids);
        self.waiting.clear();
        failed
    }

    /// The number of requests that wait for their response.
    pub fn outstanding(&self) -> (count: usize)
        ensures
            count == self@.waiting.len(),
    {
        self.waiting.len()
    }
}

/// Where every local id is in use, more requests wait than may.
proof fn lemma_too_many_ids(waiting: Seq<(LocalRequestId, GlobalRequestId)>, start: LocalRequestId)
    requires
        forall|k: int| 0 <= k < 65536 ==> id_in_use(waiting, #[trigger] index_after(start, k)),
    ensures
        waiting.len() >= 65536,
{
    let ids = waiting.map_values(|e: (LocalRequestId, GlobalRequestId)| e.0).to_set();
    let all = Set::new(|id: LocalRequestId| true);
    assert forall|id: LocalRequestId| ids.contains(id) by {
        let k = (id - start) % 65536;
        assert(index_after(start, k) == id);
        assert(id_in_use(waiting, id));
        let i = choose|i: int| 0 <= i < waiting.len() && (#[trigger] waiting[i]).0 == id;
        assert(waiting.map_values(|e: (LocalRequestId, GlobalRequestId)| e.0)[i] == id);
    }
    assert(ids =~= all);
    waiting.map_values(|e: (LocalRequestId, GlobalRequestId)| e.0).lemma_cardinality_of_set();
    lemma_all_ids(65536);
    assert(Set::new(|id: LocalRequestId| id < 65536) =~= all);
}

/// There are as many local ids below a bound as the bound says.
proof fn lemma_all_ids(bound: nat)
    requires
        bound <= 65536,
    ensures
        Set::new(|id: LocalRequestId| id < bound).finite(),
        Set::new(|id: LocalRequestId| id < bound).len() == bound,
    decreases bound,
{
    let ids = Set::new(|id: LocalRequestId| id < bound);
    if bound == 0 {
        assert(ids =~= Set::<LocalRequestId>::empty());
    } else {
        let fewer = Set::new(|id: LocalRequestId| id < bound - 1);
        lemma_all_ids((bound - 1) as nat);
        assert(ids =~= fewer.insert((bound - 1) as LocalRequestId));
    }
}

/// A request that was issued is answered by the response that bears its
/// local id, and by it alone: the response gives the global id of the
/// request, and a second response under the same id gives nothing.
pub proof fn lemma_response_answers_once(
    waiting: Seq<(LocalRequestId, GlobalRequestId)>,
    id: LocalRequestId,
    global: GlobalRequestId,
)
    requires
        distinct_ids(waiting),
        !id_in_use(waiting, id),
    ensures
        after_response(waiting.push((id, global)), id).0 == Some(global),
        after_response(waiting.push((id, global)), id).1 == waiting,
        after_response(after_response(waiting.push((id, global)), id).1, id).0 is None,
{
    let issued = waiting.push((id, global));
    assert(issued[waiting.len() as int].0 == id);
    let i = id_position(issued, id);
    if i < waiting.len() {
        assert(waiting[i].0 == id);
    }
    assert(issued.remove(i) =~= waiting);
}

/// A response leaves every other request waiting.
pub proof fn lemma_response_leaves_others(
    waiting: Seq<(LocalRequestId, GlobalRequestId)>,
    id: LocalRequestId,
    other: LocalRequestId,
)
    requires
        other != id,
        id_in_use(waiting, other),
    ensures
        id_in_use(after_response(waiting, id).1, other),
{
    let j = id_position(waiting, other);
    if id_in_use(waiting, id) {
        let i = id_position(waiting, id);
        let after = waiting.remove(i);
        assert(waiting[j].0 == other);
        assert(waiting[i].0 == id);
        assert(after_response(waiting, id).1 == after);
        if j < i {
            assert(after[j] == waiting[j]);
            assert(0 <= j < after.len() && after[j].0 == other);
        } else {
            assert(after[j - 1] == waiting[j]);
            assert(0 <= j - 1 < after.len() && after[j - 1].0 == other);
        }
    } else {
        assert(waiting[j].0 == other);
    }
}

} // verus!
