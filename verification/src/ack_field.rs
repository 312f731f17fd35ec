//! Which datagrams of the peer have arrived: the index of the newest one
//! and a field of 32 bits for the 32 before it.
//!
//! Indices wrap at 16 bits. An index that arrives is taken for the
//! datagram nearest to the newest one that bears this index: ahead of it
//! if the signed distance is positive, behind it otherwise. The law at the
//! end of this module says what the bits mean in these terms.

use crate::wrapping_number::{spec_wrapping_diff, wrapping_diff};
use vstd::prelude::*;

verus! {

/// What one end knows of the datagrams that arrived from the other.
#[derive(Clone, Copy, PartialEq, Eq, Debug, Structural)]
pub struct ReceiveState {
    /// Whether any datagram has arrived.
    pub received_any: bool,
    /// The index of the newest datagram that has arrived.
    pub last_index: u16,
    /// Bit `k` is set if the datagram `k + 1` before the newest has
    /// arrived.
    pub bitfield: u32,
}

/// Bit `k` of a field.
pub open spec fn field_bit(field: u32, k: u32) -> bool {
    (field >> k) & 1 == 1
}

/// The state before any datagram has arrived.
pub open spec fn initial_receive_state() -> ReceiveState {
    ReceiveState { received_any: false, last_index: 65535, bitfield: 0 }
}

/// The field after the newest datagram has moved ahead by `distance`: the
/// bits move up by as much, and the bit of the datagram that was the
/// newest is set.
pub open spec fn advanced_field(field: u32, distance: u32) -> u32 {
    let moved: u32 = if distance >= 32 {
        0
    } else {
        field << distance
    };
    if 1 <= distance <= 32 {
        moved | (1u32 << ((distance - 1) as u32))
    } else {
        moved
    }
}

/// The state after the datagram with `index` has arrived.
///
/// The first datagram to arrive is the newest. After that a datagram
/// ahead of the newest becomes the newest, and one behind it sets its bit
/// if it is among the 32 before the newest.
pub open spec fn fold_index(state: ReceiveState, index: u16) -> ReceiveState {
    let distance = spec_wrapping_diff(state.last_index, index);
    if !state.received_any {
        ReceiveState { received_any: true, last_index: index, bitfield: 0 }
    } else if distance > 0 {
        ReceiveState {
            received_any: true,
            last_index: index,
            bitfield: advanced_field(state.bitfield, distance as u32),
        }
    } else if distance < 0 && -distance <= 32 {
        ReceiveState { bitfield: state.bitfield | (1u32 << ((-distance - 1) as u32)), ..state }
    } else {
        state
    }
}

/// The state after the datagrams with `indices` have arrived in this
/// order.
pub open spec fn fold_indices(indices: Seq<u16>) -> ReceiveState
    decreases indices.len(),
{
    if indices.len() == 0 {
        initial_receive_state()
    } else {
        fold_index(fold_indices(indices.drop_last()), indices.last())
    }
}

/// The number of the newest datagram that has arrived, counted without
/// wrapping: the first to arrive has its index as its number, and every
/// later one the number nearest to the newest that its index allows.
pub open spec fn newest_number(indices: Seq<u16>) -> int
    decreases indices.len(),
{
    if indices.len() == 0 {
        -1
    } else if indices.len() == 1 {
        indices[0] as int
    } else {
        let before = newest_number(indices.drop_last());
        let number = before + spec_wrapping_diff(
            fold_indices(indices.drop_last()).last_index,
            indices.last(),
        );
        if number > before {
            number
        } else {
            before
        }
    }
}

/// The number, counted without wrapping, of the datagram that arrives
/// with `index` after the datagrams with `indices` have arrived.
pub open spec fn arrival_number(indices: Seq<u16>, index: u16) -> int {
    if indices.len() == 0 {
        index as int
    } else {
        newest_number(indices) + spec_wrapping_diff(fold_indices(indices).last_index, index)
    }
}

/// The numbers, counted without wrapping, of the datagrams that have
/// arrived.
pub open spec fn arrived_numbers(indices: Seq<u16>) -> Set<int>
    decreases indices.len(),
{
    if indices.len() == 0 {
        Set::empty()
    } else {
        arrived_numbers(indices.drop_last()).insert(
            arrival_number(indices.drop_last(), indices.last()),
        )
    }
}

/// Takes the arrival of the datagram with `index`.
pub fn fold(state: ReceiveState, index: u16) -> (next: ReceiveState)
    ensures
        next == fold_index(state, index),
{
    if !state.received_any {
        return ReceiveState { received_any: true, last_index: index, bitfield: 0 };
    }
    let distance = wrapping_diff(state.last_index, index);
    if distance > 0 {
        let moved: u32 = if distance >= 32 {
            0
        } else {
            state.bitfield << (distance as u32)
        };
        let bitfield: u32 = if distance <= 32 {
            moved | (1u32 << ((distance - 1) as u32))
        } else {
            moved
        };
        ReceiveState { received_any: true, last_index: index, bitfield }
    } else if distance < 0 && distance >= -32 {
        let behind: u32 = (-(distance as i32) - 1) as u32;
        ReceiveState {
            received_any: state.received_any,
            last_index: state.last_index,
            bitfield: state.bitfield | (1u32 << behind),
        }
    } else {
        state
    }
}

/// The bits of a field that has moved up.
proof fn lemma_shifted_bit(field: u32, distance: u32, k: u32)
    by (bit_vector)
    requires
        distance < 32,
        k < 32,
    ensures
        ((field << distance) >> k) & 1 == 1 <==> (k >= distance && (field >> ((k - distance) as u32))
            & 1 == 1),
{
}

/// The bits of a field in which one more bit was set.
proof fn lemma_set_bit(field: u32, j: u32, k: u32)
    by (bit_vector)
    requires
        j < 32,
        k < 32,
    ensures
        ((field | (1u32 << j)) >> k) & 1 == 1 <==> (k == j || (field >> k) & 1 == 1),
{
}

/// No bit of the empty field is set.
proof fn lemma_zero_bit(k: u32)
    by (bit_vector)
    requires
        k < 32,
    ensures
        !((0u32 >> k) & 1 == 1),
{
}

/// What each bit of the field is after one more arrival.
proof fn lemma_fold_bit(state: ReceiveState, index: u16, k: u32)
    requires
        k < 32,
        state.received_any,
    ensures
        ({
            let distance = spec_wrapping_diff(state.last_index, index);
            let next = fold_index(state, index);
            if distance > 0 {
                field_bit(next.bitfield, k) <==> (if k + 1 < distance {
                    false
                } else if k + 1 == distance {
                    true
                } else {
                    field_bit(state.bitfield, (k - distance) as u32)
                })
            } else {
                field_bit(next.bitfield, k) <==> (field_bit(state.bitfield, k) || k + 1
                    == -distance)
            }
        }),
{
    let distance = spec_wrapping_diff(state.last_index, index);
    if distance > 0 {
        let d = distance as u32;
        let moved: u32 = if d >= 32 {
            0
        } else {
            state.bitfield << d
        };
        if d >= 32 {
            lemma_zero_bit(k);
        } else {
            lemma_shifted_bit(state.bitfield, d, k);
        }
        if d <= 32 {
            lemma_set_bit(moved, (d - 1) as u32, k);
        }
    } else if distance < 0 && -distance <= 32 {
        lemma_set_bit(state.bitfield, (-distance - 1) as u32, k);
    }
}

/// Whether a state says of the datagrams with the numbers `arrived`, of
/// which `newest` is the newest, what it is meant to say.
pub open spec fn state_reports(state: ReceiveState, newest: int, arrived: Set<int>) -> bool {
    &&& state.received_any
    &&& state.last_index as int == newest % 65536
    &&& arrived.contains(newest)
    &&& forall|n: int| #[trigger] arrived.contains(n) ==> n <= newest
    &&& forall|k: u32|
        k < 32 ==> (#[trigger] field_bit(state.bitfield, k) <==> arrived.contains(newest - (k + 1)))
}

/// One more arrival keeps the state true to the datagrams that have
/// arrived.
proof fn lemma_fold_step(state: ReceiveState, index: u16, newest: int, arrived: Set<int>)
    requires
        state_reports(state, newest, arrived),
    ensures
        ({
            let number = newest + spec_wrapping_diff(state.last_index, index);
            state_reports(
                fold_index(state, index),
                if number > newest {
                    number
                } else {
                    newest
                },
                arrived.insert(number),
            )
        }),
{
    let distance = spec_wrapping_diff(state.last_index, index);
    let number = newest + distance;
    let next = fold_index(state, index);
    let after = if number > newest {
        number
    } else {
        newest
    };
    let more = arrived.insert(number);
    assert forall|k: u32| k < 32 implies (#[trigger] field_bit(next.bitfield, k) <==> more.contains(
        after - (k + 1),
    )) by {
        lemma_fold_bit(state, index, k);
        if distance > 0 {
            if k + 1 < distance {
                assert(!arrived.contains(after - (k + 1)));
            } else if k + 1 > distance {
                let j = (k - distance) as u32;
                assert(field_bit(state.bitfield, j) <==> arrived.contains(newest - (j + 1)));
            }
        } else {
            assert(field_bit(state.bitfield, k) <==> arrived.contains(newest - (k + 1)));
        }
    }
}

/// The meaning of the state after any arrivals: the index of the newest
/// datagram is its number modulo 2^16, the newest has arrived and no
/// number that has arrived is greater, and bit `k` of the field is set
/// exactly if the datagram `k + 1` before the newest has arrived.
pub proof fn lemma_ack_bitfield(indices: Seq<u16>)
    requires
        indices.len() > 0,
    ensures
        state_reports(fold_indices(indices), newest_number(indices), arrived_numbers(indices)),
    decreases indices.len(),
{
    let front = indices.drop_last();
    let index = indices.last();
    if indices.len() == 1 {
        assert(front.len() == 0);
        assert(arrived_numbers(indices) =~= set![index as int]);
        assert forall|k: u32| k < 32 implies !#[trigger] field_bit(0u32, k) by {
            lemma_zero_bit(k);
        }
    } else {
        lemma_ack_bitfield(front);
        lemma_fold_step(
            fold_indices(front),
            index,
            newest_number(front),
            arrived_numbers(front),
        );
    }
}

/// A bit of the field is set only for an index that has arrived: the one
/// `k + 1` before the newest, modulo 2^16.
pub proof fn lemma_ack_bit_names_an_arrival(indices: Seq<u16>, k: u32)
    requires
        k < 32,
        indices.len() > 0,
        field_bit(fold_indices(indices).bitfield, k),
    ensures
        exists|j: int|
            0 <= j < indices.len() && #[trigger] indices[j] as int == (fold_indices(
                indices,
            ).last_index - (k + 1)) % 65536,
{
    lemma_ack_bitfield(indices);
    lemma_arrival_has_index(indices, newest_number(indices) - (k + 1));
    let j = choose|j: int|
        0 <= j < indices.len() && #[trigger] indices[j] as int == (newest_number(indices) - (k
            + 1)) % 65536;
    assert(indices[j] as int == (fold_indices(indices).last_index - (k + 1)) % 65536);
}

/// The datagram that arrives with an index has a number that is this
/// index modulo 2^16.
proof fn lemma_number_has_index(newest: int, last: u16, index: u16)
    requires
        last as int == newest % 65536,
    ensures
        (newest + spec_wrapping_diff(last, index)) % 65536 == index as int,
{
    let q = newest / 65536;
    let distance = spec_wrapping_diff(last, index);
    let c: int = (distance - (index - last)) / 65536;
    assert(distance == index - last + 65536 * c);
    assert(newest == 65536 * q + last);
    vstd::arithmetic::div_mod::lemma_fundamental_div_mod_converse(
        newest + distance,
        65536,
        q + c,
        index as int,
    );
}

/// Every number that has arrived is the number of one of the arrivals,
/// which bore that number modulo 2^16 as its index.
pub proof fn lemma_arrival_has_index(indices: Seq<u16>, number: int)
    requires
        arrived_numbers(indices).contains(number),
    ensures
        exists|j: int| 0 <= j < indices.len() && #[trigger] indices[j] as int == number % 65536,
    decreases indices.len(),
{
    if indices.len() > 0 {
        let front = indices.drop_last();
        let index = indices.last();
        if arrived_numbers(front).contains(number) {
            lemma_arrival_has_index(front, number);
            let j = choose|j: int| 0 <= j < front.len() && #[trigger] front[j] as int == number % 65536;
            assert(indices[j] == front[j]);
        } else {
            assert(number == arrival_number(front, index));
            if front.len() > 0 {
                lemma_ack_bitfield(front);
                lemma_number_has_index(newest_number(front), fold_indices(front).last_index, index);
            }
            assert(indices[indices.len() - 1] as int == number % 65536);
        }
    }
}

} // verus!
