//! The run of messages that one channel contributes to a datagram.
//!
//! Each message of the run is preceded by a bit that is set, and a bit
//! that is clear ends the run. A message of a reliable channel bears its
//! index in front.

use crate::bit_reader::{BitReader, DecodeError};
use crate::bit_writer::BitWriter;
use crate::bits::uint_bits;
use crate::bits::lemma_uint_round_trip;
use crate::message::{
    indexed_message_bits, lemma_message_round_trip, lemma_parse_message_used, message_bits,
    parse_indexed_message, MessageContainer, MessageIndex, MessageKinds, MessageView,
};
use std::collections::VecDeque;
use vstd::prelude::*;

verus! {

/// A message as it stands in a run, with its index if the channel gives
/// one.
pub struct WireItem {
    /// The index of the message in its channel, for a reliable channel.
    pub index: Option<MessageIndex>,
    /// The message.
    pub message: MessageView,
}

/// The bits of a message in a run.
pub open spec fn item_bits(item: WireItem) -> Seq<bool> {
    match item.index {
        Some(index) => indexed_message_bits(index, item.message),
        None => message_bits(item.message),
    }
}

/// The bits of the messages of a run, each behind a bit that is set.
pub open spec fn run_bits(items: Seq<WireItem>) -> Seq<bool>
    decreases items.len(),
{
    if items.len() == 0 {
        Seq::empty()
    } else {
        run_bits(items.drop_last()) + seq![true] + item_bits(items.last())
    }
}

/// The bits of a run with the bit that ends it.
pub open spec fn chunk_bits(items: Seq<WireItem>) -> Seq<bool> {
    run_bits(items) + seq![false]
}

/// Whether the first `count` of `items` are all that fit in a run of at
/// most `budget` bits: they fit together with the bit that ends the run,
/// and one more would not.
pub open spec fn fills_budget(items: Seq<WireItem>, count: nat, budget: nat) -> bool {
    &&& count <= items.len()
    &&& chunk_bits(items.take(count as int)).len() <= budget
    &&& count < items.len() ==> chunk_bits(items.take((count + 1) as int)).len() > budget
}

/// The messages of a run that bear no index.
pub open spec fn plain_items(messages: Seq<MessageView>) -> Seq<WireItem> {
    messages.map_values(|m: MessageView| WireItem { index: None, message: m })
}

/// A longer run takes more bits.
pub proof fn lemma_run_grows(items: Seq<WireItem>, shorter: int, longer: int)
    requires
        0 <= shorter <= longer <= items.len(),
    ensures
        run_bits(items.take(shorter)).len() <= run_bits(items.take(longer)).len(),
    decreases longer - shorter,
{
    if shorter < longer {
        assert(items.take(longer).drop_last() =~= items.take(longer - 1));
        lemma_run_grows(items, shorter, longer - 1);
    }
}

/// At most one number of messages fills a budget.
pub proof fn lemma_fills_budget_unique(items: Seq<WireItem>, a: nat, b: nat, budget: nat)
    requires
        fills_budget(items, a, budget),
        fills_budget(items, b, budget),
    ensures
        a == b,
{
    if a < b {
        lemma_run_grows(items, (a + 1) as int, b as int);
    } else if b < a {
        lemma_run_grows(items, (b + 1) as int, a as int);
    }
}

/// The number of messages at the beginning of `items` that fill a budget.
pub open spec fn fitting_count(items: Seq<WireItem>, budget: nat) -> nat {
    choose|count: nat| fills_budget(items, count, budget)
}

/// A number of messages that fills a budget is the number that does.
pub proof fn lemma_fitting_count(items: Seq<WireItem>, count: nat, budget: nat)
    requires
        fills_budget(items, count, budget),
    ensures
        fitting_count(items, budget) == count,
{
    lemma_fills_budget_unique(items, fitting_count(items, budget), count, budget);
}

/// Writes one message of a run behind the bit that announces it.
pub fn write_item(writer: &mut BitWriter, index: Option<MessageIndex>, message: &MessageContainer)
    requires
        old(writer).wf(),
    ensures
        final(writer).wf(),
        final(writer)@ == old(writer)@ + seq![true] + item_bits(
            WireItem { index, message: message@ },
        ),
{
    writer.write_bit(true);
    match index {
        Some(i) => {
            writer.write_u16(i);
        },
        None => {},
    }
    message.write(writer);
    assert(writer@ =~= old(writer)@ + seq![true] + item_bits(
        WireItem { index, message: message@ },
    ));
}

/// The number of bits that one message of a run takes, with the bit that
/// announces it; `None` if that number does not fit in 64 bits.
pub fn item_cost(indexed: bool, message: &MessageContainer) -> (cost: Option<u64>)
    ensures
        ({
            let index: Option<MessageIndex> = if indexed {
                Some(0u16)
            } else {
                None
            };
            let bits = 1 + item_bits(WireItem { index, message: message@ }).len();
            match cost {
                Some(n) => n == bits,
                None => bits > u64::MAX,
            }
        }),
{
    let head: u64 = if indexed {
        17
    } else {
        1
    };
    match message.bit_length() {
        Some(n) => n.checked_add(head),
        None => None,
    }
}

/// The number of bits of a message in a run does not depend on its index.
pub proof fn lemma_item_len(index: MessageIndex, other: MessageIndex, message: MessageView)
    ensures
        item_bits(WireItem { index: Some(index), message }).len() == item_bits(
            WireItem { index: Some(other), message },
        ).len(),
{
}

/// What decoding a run of a reliable channel gives.
pub struct RunParse {
    /// The messages that were read, with their indices, in order.
    pub items: Seq<(MessageIndex, MessageView)>,
    /// The number of bits that were read.
    pub used: nat,
    /// Why reading stopped before the end of the run, if it did.
    pub error: Option<DecodeError>,
}

/// Decodes the run of a reliable channel. Reading stops at the first
/// thing that cannot be decoded; the messages before it stand.
#[verifier::opaque]
pub open spec fn parse_run(kinds: &MessageKinds, bits: Seq<bool>) -> RunParse
    decreases bits.len(),
{
    if bits.len() == 0 {
        RunParse { items: Seq::empty(), used: 0, error: Some(DecodeError::Truncated) }
    } else if !bits[0] {
        RunParse { items: Seq::empty(), used: 1, error: None }
    } else {
        match parse_indexed_message(kinds, bits.skip(1)) {
            Err(error) => RunParse { items: Seq::empty(), used: 1, error: Some(error) },
            Ok((item, used)) => if used >= bits.len() {
                RunParse { items: seq![item], used: 1 + used, error: Some(DecodeError::Truncated) }
            } else {
                let rest = parse_run(kinds, bits.skip((1 + used) as int));
                RunParse {
                    items: seq![item] + rest.items,
                    used: 1 + used + rest.used,
                    error: rest.error,
                }
            },
        }
    }
}

/// The outcome of decoding a run of which `items` were read from the
/// first `used` bits, from the outcome of decoding the rest of it.
pub open spec fn run_after(items: Seq<(MessageIndex, MessageView)>, used: nat, rest: RunParse) -> RunParse {
    RunParse { items: items + rest.items, used: used + rest.used, error: rest.error }
}

/// What decoding a run gives, by its first bit and the message after it.
pub proof fn lemma_run_step(kinds: &MessageKinds, bits: Seq<bool>)
    ensures
        bits.len() == 0 ==> parse_run(kinds, bits) == (RunParse {
            items: Seq::empty(),
            used: 0,
            error: Some(DecodeError::Truncated),
        }),
        bits.len() > 0 && !bits[0] ==> parse_run(kinds, bits) == (RunParse {
            items: Seq::empty(),
            used: 1,
            error: None,
        }),
        bits.len() > 0 && bits[0] ==> match parse_indexed_message(kinds, bits.skip(1)) {
            Err(error) => parse_run(kinds, bits) == (RunParse {
                items: Seq::empty(),
                used: 1,
                error: Some(error),
            }),
            Ok((item, used)) => 1 + used <= bits.len() && parse_run(kinds, bits) == run_after(
                seq![item],
                1 + used,
                parse_run(kinds, bits.skip((1 + used) as int)),
            ),
        },
{
    reveal_with_fuel(parse_run, 2);
    if bits.len() > 0 && bits[0] {
        let body = bits.skip(1);
        if body.len() >= 16 {
            lemma_parse_message_used(kinds, body.skip(16));
        }
        if let Ok((item, used)) = parse_indexed_message(kinds, body) {
            if used >= bits.len() {
                assert(bits.skip((1 + used) as int).len() == 0);
                assert(seq![item] + Seq::<(MessageIndex, MessageView)>::empty() =~= seq![item]);
            }
        }
    }
}

/// The messages that a list of indexed containers holds.
pub open spec fn indexed_views(items: Seq<(MessageIndex, MessageContainer)>) -> Seq<
    (MessageIndex, MessageView),
> {
    items.map_values(|item: (MessageIndex, MessageContainer)| (item.0, item.1@))
}

/// Reads one message of a reliable channel with its index. Fails, and
/// reads nothing, where it cannot be decoded.
pub fn read_indexed_message(kinds: &MessageKinds, reader: &mut BitReader) -> (item: Result<
    (MessageIndex, MessageContainer),
    DecodeError,
>)
    requires
        old(reader).wf(),
    ensures
        final(reader).wf(),
        match parse_indexed_message(kinds, old(reader)@) {
            Ok((parsed, used)) => item matches Ok(read) && read.0 == parsed.0 && read.1@ == parsed.1
                && final(reader)@ == old(reader)@.skip(used as int),
            Err(error) => item matches Err(e) && e == error && final(reader)@ == old(reader)@,
        },
{
    let mut attempt = *reader;
    let index = match attempt.read_u16() {
        Ok(index) => index,
        Err(error) => {
            return Err(error);
        },
    };
    let message = match MessageContainer::read(kinds, &mut attempt) {
        Ok(message) => message,
        Err(error) => {
            return Err(error);
        },
    };
    proof {
        let used = crate::message::parse_message(kinds, old(reader)@.skip(16)).unwrap().1;
        lemma_parse_message_used(kinds, old(reader)@.skip(16));
        assert(attempt@ =~= old(reader)@.skip((used + 16) as int));
    }
    *reader = attempt;
    Ok((index, message))
}

/// Reads the run of a reliable channel from a datagram. Reading stops at
/// the first thing that cannot be decoded: the messages before it are
/// handed back together with the failure.
pub fn read_run(kinds: &MessageKinds, reader: &mut BitReader) -> (outcome: (
    VecDeque<(MessageIndex, MessageContainer)>,
    Option<DecodeError>,
))
    requires
        old(reader).wf(),
    ensures
        final(reader).wf(),
        indexed_views(outcome.0@) == parse_run(kinds, old(reader)@).items,
        outcome.1 == parse_run(kinds, old(reader)@).error,
        final(reader)@ == old(reader)@.skip(parse_run(kinds, old(reader)@).used as int),
{
    let ghost whole = parse_run(kinds, old(reader)@);
    let ghost mut used: nat = 0;
    let mut items: VecDeque<(MessageIndex, MessageContainer)> = VecDeque::new();
    proof {
        assert(reader@ =~= old(reader)@.skip(0));
        assert(whole.items =~= indexed_views(items@) + whole.items);
    }
    loop
        invariant
            reader.wf(),
            whole == parse_run(kinds, old(reader)@),
            used <= old(reader)@.len(),
            reader@ == old(reader)@.skip(used as int),
            whole == run_after(indexed_views(items@), used, parse_run(kinds, reader@)),
        decreases reader@.len(),
    {
        let ghost cur = reader@;
        let ghost taken = indexed_views(items@);
        proof {
            lemma_run_step(kinds, cur);
        }
        let more = match reader.read_bool() {
            Ok(flag) => flag,
            Err(error) => {
                proof {
                    assert(whole.items =~= taken);
                }
                return (items, Some(error));
            },
        };
        if !more {
            proof {
                assert(whole.items =~= taken);
                assert(reader@ =~= old(reader)@.skip((used + 1) as int));
            }
            return (items, None);
        }
        let item = match read_indexed_message(kinds, reader) {
            Ok(item) => item,
            Err(error) => {
                proof {
                    assert(whole.items =~= taken);
                    assert(reader@ =~= old(reader)@.skip((used + 1) as int));
                }
                return (items, Some(error));
            },
        };
        let ghost size = parse_indexed_message(kinds, cur.skip(1)).unwrap().1;
        let ghost parsed = (item.0, item.1@);
        items.push_back(item);
        proof {
            assert(indexed_views(items@) =~= taken.push(parsed));
            assert(reader@ =~= cur.skip((1 + size) as int));
            assert(reader@ =~= old(reader)@.skip((used + 1 + size) as int));
            assert(whole.items =~= taken.push(parsed) + parse_run(kinds, reader@).items);
            used = used + 1 + size;
        }
    }
}

/// Decoding the run of a reliable channel takes no more bits than there
/// are.
pub proof fn lemma_run_used(kinds: &MessageKinds, bits: Seq<bool>)
    ensures
        parse_run(kinds, bits).used <= bits.len(),
        parse_run(kinds, bits).error is None ==> parse_run(kinds, bits).used >= 1,
    decreases bits.len(),
{
    lemma_run_step(kinds, bits);
    if bits.len() > 0 && bits[0] {
        if let Ok((item, used)) = parse_indexed_message(kinds, bits.skip(1)) {
            lemma_run_used(kinds, bits.skip((1 + used) as int));
        }
    }
}

/// The messages of a reliable channel as they stand in a run.
pub open spec fn indexed_wire_items(items: Seq<(MessageIndex, MessageView)>) -> Seq<WireItem> {
    items.map_values(|e: (MessageIndex, MessageView)| WireItem { index: Some(e.0), message: e.1 })
}

/// Whether the registry holds the kind of every message, and knows of
/// each the entities that the message refers to.
pub open spec fn all_known(kinds: &MessageKinds, items: Seq<(MessageIndex, MessageView)>) -> bool {
    forall|i: int|
        0 <= i < items.len() ==> (#[trigger] items[i]).1.payload.len() <= u64::MAX
            && kinds.relations(items[i].1.kind, items[i].1.payload) == Some(items[i].1.entities)
}

/// The bits of a run begin with the bit that announces the first message
/// and the bits of that message.
pub proof fn lemma_run_bits_first(items: Seq<WireItem>)
    requires
        items.len() > 0,
    ensures
        run_bits(items) == seq![true] + item_bits(items[0]) + run_bits(items.skip(1)),
    decreases items.len(),
{
    if items.len() == 1 {
        assert(items.drop_last() =~= Seq::empty());
        assert(items.skip(1) =~= Seq::empty());
        assert(run_bits(items) =~= seq![true] + item_bits(items[0]) + run_bits(items.skip(1)));
    } else {
        let front = items.drop_last();
        lemma_run_bits_first(front);
        assert(front.skip(1) =~= items.skip(1).drop_last());
        assert(items.skip(1).last() == items.last());
        assert(run_bits(items) =~= seq![true] + item_bits(items[0]) + run_bits(items.skip(1)));
    }
}

/// Reading a message of a reliable channel gives back the index and the
/// message that were written, whatever follows them.
pub proof fn lemma_indexed_message_round_trip(
    kinds: &MessageKinds,
    index: MessageIndex,
    message: MessageView,
    rest: Seq<bool>,
)
    requires
        message.payload.len() <= u64::MAX,
        kinds.relations(message.kind, message.payload) == Some(message.entities),
    ensures
        parse_indexed_message(kinds, indexed_message_bits(index, message) + rest) == Ok::<
            ((MessageIndex, MessageView), nat),
            DecodeError,
        >(((index, message), indexed_message_bits(index, message).len())),
{
    let bits = indexed_message_bits(index, message) + rest;
    assert(bits.take(16) =~= uint_bits(index as nat, 16));
    vstd::arithmetic::power2::lemma2_to64();
    lemma_uint_round_trip(index as nat, 16);
    assert(bits.skip(16) =~= message_bits(message) + rest);
    lemma_message_round_trip(kinds, message, rest);
}

/// What a reliable sender writes into a datagram, the receiver reads out
/// of it: reading a run gives back the messages that were written with
/// their indices, in order and to the end of the run, whatever follows
/// it.
pub proof fn lemma_run_round_trip(
    kinds: &MessageKinds,
    items: Seq<(MessageIndex, MessageView)>,
    rest: Seq<bool>,
)
    requires
        all_known(kinds, items),
    ensures
        parse_run(kinds, chunk_bits(indexed_wire_items(items)) + rest) == (RunParse {
            items,
            used: chunk_bits(indexed_wire_items(items)).len(),
            error: None,
        }),
    decreases items.len(),
{
    let wire = indexed_wire_items(items);
    let bits = chunk_bits(wire) + rest;
    lemma_run_step(kinds, bits);
    if items.len() == 0 {
        assert(wire =~= Seq::empty());
        assert(bits[0] == false);
        assert(items =~= Seq::empty());
    } else {
        let first = items[0];
        let tail = items.skip(1);
        let tail_wire = indexed_wire_items(tail);
        let piece = indexed_message_bits(first.0, first.1);
        let after = chunk_bits(tail_wire) + rest;
        assert(tail_wire =~= wire.skip(1));
        assert(bits == seq![true] + (piece + after)) by {
            lemma_run_bits_first(wire);
            assert(bits =~= seq![true] + (piece + after));
        }
        assert(bits.skip(1) == piece + after) by {
            assert(bits.skip(1) =~= piece + after);
        }
        assert(parse_indexed_message(kinds, piece + after) == Ok::<
            ((MessageIndex, MessageView), nat),
            DecodeError,
        >((first, piece.len()))) by {
            lemma_indexed_message_round_trip(kinds, first.0, first.1, after);
        }
        assert(bits.skip((1 + piece.len()) as int) == after) by {
            assert(bits.skip((1 + piece.len()) as int) =~= after);
        }
        assert(all_known(kinds, tail)) by {
            assert forall|i: int| 0 <= i < tail.len() implies (#[trigger] tail[i]).1.payload.len()
                <= u64::MAX && kinds.relations(tail[i].1.kind, tail[i].1.payload) == Some(
                tail[i].1.entities,
            ) by {
                assert(tail[i] == items[i + 1]);
            }
        }
        lemma_run_round_trip(kinds, tail, rest);
        assert(seq![first] + tail =~= items);
        assert(chunk_bits(wire).len() == 1 + piece.len() + chunk_bits(tail_wire).len()) by {
            lemma_run_bits_first(wire);
        }
    }
}

} // verus!
