//! What a client presents to be let in, as it travels behind timestamp
//! and digest in the request to validate.
//!
//! The client may present bytes, header fields, both or neither. Each of
//! the two is preceded by a bit that says whether it is there. The header
//! fields are their number, then name and value of each field, every one
//! with its length in front.

use crate::bit_reader::{BitReader, DecodeError};
use crate::bit_writer::BitWriter;
use crate::encoding::{
    byte_string_bits, lemma_byte_string_round_trip, lemma_varint_groups_used,
    lemma_varint_round_trip, parse_byte_string, parse_varint, varint_bits, Decoded,
};
use crate::response::{header_list, HeaderList};
use vstd::prelude::*;

verus! {

/// What a client presents, as mathematics sees it.
pub struct AuthView {
    /// The bytes presented.
    pub bytes: Option<Seq<u8>>,
    /// The header fields presented.
    pub headers: Option<HeaderList>,
}

/// What a client presents to be let in.
pub struct AuthPayload {
    /// The bytes presented.
    pub bytes: Option<Vec<u8>>,
    /// The header fields presented, names with their values.
    pub headers: Option<Vec<(Vec<u8>, Vec<u8>)>>,
}

impl View for AuthPayload {
    type V = AuthView;

    open spec fn view(&self) -> AuthView {
        AuthView {
            bytes: match self.bytes {
                Some(bytes) => Some(bytes@),
                None => None,
            },
            headers: match self.headers {
                Some(headers) => Some(header_list(headers@)),
                None => None,
            },
        }
    }
}

/// The bits of header fields: name and value of each, in order.
pub open spec fn fields_bits(fields: HeaderList) -> Seq<bool>
    decreases fields.len(),
{
    if fields.len() == 0 {
        Seq::empty()
    } else {
        fields_bits(fields.drop_last()) + byte_string_bits(fields.last().0) + byte_string_bits(
            fields.last().1,
        )
    }
}

/// The bits of what a client presents.
pub open spec fn auth_bits(auth: AuthView) -> Seq<bool> {
    (match auth.bytes {
        Some(bytes) => seq![true] + byte_string_bits(bytes),
        None => seq![false],
    }) + (match auth.headers {
        Some(fields) => seq![true] + varint_bits(fields.len()) + fields_bits(fields),
        None => seq![false],
    })
}

/// Decodes `count` header fields.
#[verifier::opaque]
pub open spec fn parse_fields(bits: Seq<bool>, count: nat) -> Decoded<HeaderList>
    decreases count,
{
    if count == 0 {
        Ok((Seq::empty(), 0))
    } else {
        match parse_byte_string(bits) {
            Err(error) => Err(error),
            Ok((name, used)) => match parse_byte_string(bits.skip(used as int)) {
                Err(error) => Err(error),
                Ok((value, more)) => match parse_fields(
                    bits.skip((used + more) as int),
                    (count - 1) as nat,
                ) {
                    Err(error) => Err(error),
                    Ok((rest, tail)) => Ok((seq![(name, value)] + rest, used + more + tail)),
                },
            },
        }
    }
}

/// Decodes header fields with their number in front.
pub open spec fn parse_field_list(bits: Seq<bool>) -> Decoded<HeaderList> {
    match parse_varint(bits) {
        Err(error) => Err(error),
        Ok((count, used)) => match parse_fields(bits.skip(used as int), count as nat) {
            Err(error) => Err(error),
            Ok((fields, more)) => Ok((fields, used + more)),
        },
    }
}

/// Decodes bytes that are preceded by a bit which says whether they are
/// there.
pub open spec fn parse_optional_bytes(bits: Seq<bool>) -> Decoded<Option<Seq<u8>>> {
    if bits.len() == 0 {
        Err(DecodeError::Truncated)
    } else if !bits[0] {
        Ok((None, 1))
    } else {
        match parse_byte_string(bits.skip(1)) {
            Err(error) => Err(error),
            Ok((value, used)) => Ok((Some(value), used + 1)),
        }
    }
}

/// Decodes header fields that are preceded by a bit which says whether
/// they are there.
pub open spec fn parse_optional_fields(bits: Seq<bool>) -> Decoded<Option<HeaderList>> {
    if bits.len() == 0 {
        Err(DecodeError::Truncated)
    } else if !bits[0] {
        Ok((None, 1))
    } else {
        match parse_field_list(bits.skip(1)) {
            Err(error) => Err(error),
            Ok((value, used)) => Ok((Some(value), used + 1)),
        }
    }
}

/// Decodes what a client presents.
pub open spec fn parse_auth(bits: Seq<bool>) -> Decoded<AuthView> {
    match parse_optional_bytes(bits) {
        Err(error) => Err(error),
        Ok((bytes, used)) => match parse_optional_fields(bits.skip(used as int)) {
            Err(error) => Err(error),
            Ok((headers, more)) => Ok((AuthView { bytes, headers }, used + more)),
        },
    }
}

/// The outcome of decoding header fields of which `fields` were read from
/// the first `used` bits, from the outcome of decoding the rest.
pub open spec fn fields_after(fields: HeaderList, used: nat, rest: Decoded<HeaderList>) -> Decoded<HeaderList> {
    match rest {
        Ok((more, tail)) => Ok((fields + more, used + tail)),
        Err(error) => Err(error),
    }
}

/// What decoding header fields gives, by the first field.
pub proof fn lemma_fields_step(bits: Seq<bool>, count: nat)
    requires
        count > 0,
    ensures
        match parse_byte_string(bits) {
            Err(error) => parse_fields(bits, count) == Err::<(HeaderList, nat), DecodeError>(error),
            Ok((name, used)) => used <= bits.len() && match parse_byte_string(bits.skip(used as int)) {
                Err(error) => parse_fields(bits, count) == Err::<(HeaderList, nat), DecodeError>(
                    error,
                ),
                Ok((value, more)) => used + more <= bits.len() && parse_fields(bits, count)
                    == fields_after(
                    seq![(name, value)],
                    used + more,
                    parse_fields(bits.skip((used + more) as int), (count - 1) as nat),
                ),
            },
        },
{
    reveal_with_fuel(parse_fields, 2);
    lemma_byte_string_used(bits);
    if let Ok((name, used)) = parse_byte_string(bits) {
        lemma_byte_string_used(bits.skip(used as int));
    }
}

/// Decoding no header fields takes no bits.
pub proof fn lemma_fields_none(bits: Seq<bool>)
    ensures
        parse_fields(bits, 0) == Ok::<(HeaderList, nat), DecodeError>((Seq::empty(), 0)),
{
    reveal_with_fuel(parse_fields, 1);
}

/// Decoding header fields takes no more bits than there are.
pub proof fn lemma_fields_used(bits: Seq<bool>, count: nat)
    ensures
        parse_fields(bits, count) matches Ok((fields, used)) ==> used <= bits.len(),
    decreases count,
{
    if count > 0 {
        lemma_fields_step(bits, count);
        if let Ok((name, used)) = parse_byte_string(bits) {
            if let Ok((value, more)) = parse_byte_string(bits.skip(used as int)) {
                lemma_fields_used(bits.skip((used + more) as int), (count - 1) as nat);
            }
        }
    } else {
        lemma_fields_none(bits);
    }
}

/// Decoding a byte string takes no more bits than there are.
pub proof fn lemma_byte_string_used(bits: Seq<bool>)
    ensures
        parse_byte_string(bits) matches Ok((bytes, used)) ==> 8 <= used <= bits.len(),
{
    lemma_varint_groups_used(bits, 10);
}

impl AuthPayload {
    /// Writes what the client presents.
    pub fn ser(&self, writer: &mut BitWriter)
        requires
            old(writer).wf(),
        ensures
            final(writer).wf(),
            final(writer)@ == old(writer)@ + auth_bits(self@),
    {
        match &self.bytes {
            Some(bytes) => {
                writer.write_bit(true);
                writer.write_bytes(bytes.as_slice());
            },
            None => {
                writer.write_bit(false);
            },
        }
        let ghost middle = writer@;
        match &self.headers {
            Some(headers) => {
                writer.write_bit(true);
                writer.write_varint(headers.len() as u64);
                let ghost start = writer@;
                let ghost fields = header_list(headers@);
                let mut i: usize = 0;
                assert(fields.take(0) =~= Seq::empty());
                assert(writer@ =~= start + fields_bits(fields.take(0)));
                while i < headers.len()
                    invariant
                        i <= headers.len(),
                        writer.wf(),
                        fields == header_list(headers@),
                        writer@ == start + fields_bits(fields.take(i as int)),
                    decreases headers.len() - i,
                {
                    writer.write_bytes(headers[i].0.as_slice());
                    writer.write_bytes(headers[i].1.as_slice());
                    proof {
                        assert(fields.take(i + 1).drop_last() =~= fields.take(i as int));
                        assert(fields.take(i + 1).last() == fields[i as int]);
                        assert(writer@ =~= start + fields_bits(fields.take(i + 1)));
                    }
                    i += 1;
                }
                proof {
                    assert(fields.take(i as int) =~= fields);
                    assert(writer@ =~= middle + (seq![true] + varint_bits(fields.len())
                        + fields_bits(fields)));
                }
            },
            None => {
                writer.write_bit(false);
            },
        }
        assert(writer@ =~= old(writer)@ + auth_bits(self@));
    }

    /// Reads header fields with their number in front.
    fn read_field_list(reader: &mut BitReader) -> (fields: Result<
        Vec<(Vec<u8>, Vec<u8>)>,
        DecodeError,
    >)
        requires
            old(reader).wf(),
        ensures
            final(reader).wf(),
            match parse_field_list(old(reader)@) {
                Ok((expected, used)) => fields matches Ok(list) && header_list(list@) == expected
                    && final(reader)@ == old(reader)@.skip(used as int),
                Err(error) => fields matches Err(e) && e == error && final(reader)@ == old(
                    reader)@,
            },
    {
        let mut attempt = *reader;
        let count = match attempt.read_varint() {
            Ok(count) => count,
            Err(error) => {
                return Err(error);
            },
        };
        let ghost head = parse_varint(old(reader)@).unwrap().1;
        let ghost body = attempt@;
        let ghost whole = parse_fields(body, count as nat);
        let ghost mut used: nat = 0;
        let mut list: Vec<(Vec<u8>, Vec<u8>)> = Vec::new();
        let mut i: u64 = 0;
        proof {
            lemma_varint_groups_used(old(reader)@, 10);
            assert(attempt@ =~= body.skip(0));
            match whole {
                Ok((more, tail)) => {
                    assert(header_list(list@) + more =~= more);
                },
                Err(_) => {},
            }
        }
        while i < count
            invariant
                i <= count,
                attempt.wf(),
                reader.wf(),
                *reader == *old(reader),
                parse_varint(old(reader)@) == Ok::<(u64, nat), DecodeError>((count, head)),
                head <= old(reader)@.len(),
                body == old(reader)@.skip(head as int),
                used <= body.len(),
                attempt@ == body.skip(used as int),
                whole == parse_fields(body, count as nat),
                whole == fields_after(
                    header_list(list@),
                    used,
                    parse_fields(attempt@, (count - i) as nat),
                ),
            decreases count - i,
        {
            let ghost cur = attempt@;
            let ghost done = header_list(list@);
            proof {
                lemma_fields_step(cur, (count - i) as nat);
            }
            let name = match attempt.read_bytes() {
                Ok(name) => name,
                Err(error) => {
                    return Err(error);
                },
            };
            let value = match attempt.read_bytes() {
                Ok(value) => value,
                Err(error) => {
                    return Err(error);
                },
            };
            let ghost field = (name@, value@);
            let ghost taken = parse_byte_string(cur).unwrap().1 + parse_byte_string(
                cur.skip(parse_byte_string(cur).unwrap().1 as int),
            ).unwrap().1;
            list.push((name, value));
            proof {
                assert(header_list(list@) =~= done.push(field));
                assert(attempt@ =~= cur.skip(taken as int));
                assert(attempt@ =~= body.skip((used + taken) as int));
                match parse_fields(attempt@, (count - i - 1) as nat) {
                    Ok((more, tail)) => {
                        assert(done + (seq![field] + more) =~= done.push(field) + more);
                    },
                    Err(_) => {},
                }
                used = used + taken;
            }
            i += 1;
        }
        proof {
            lemma_fields_none(attempt@);
            assert(header_list(list@) + Seq::<(Seq<u8>, Seq<u8>)>::empty() =~= header_list(list@));
            assert(attempt@ =~= old(reader)@.skip((head + used) as int));
        }
        *reader = attempt;
        Ok(list)
    }

    /// Reads bytes that are preceded by a bit which says whether they are
    /// there.
    fn read_optional_bytes(reader: &mut BitReader) -> (bytes: Result<Option<Vec<u8>>, DecodeError>)
        requires
            old(reader).wf(),
        ensures
            final(reader).wf(),
            match parse_optional_bytes(old(reader)@) {
                Ok((expected, used)) => used <= old(reader)@.len() && final(reader)@ == old(
                    reader)@.skip(used as int) && match expected {
                    Some(value) => bytes matches Ok(Some(read)) && read@ == value,
                    None => bytes matches Ok(None),
                },
                Err(error) => bytes matches Err(e) && e == error && final(reader)@ == old(
                    reader)@,
            },
    {
        let mut attempt = *reader;
        let present = match attempt.read_bool() {
            Ok(flag) => flag,
            Err(error) => {
                return Err(error);
            },
        };
        if !present {
            *reader = attempt;
            return Ok(None);
        }
        let bytes = match attempt.read_bytes() {
            Ok(bytes) => bytes,
            Err(error) => {
                return Err(error);
            },
        };
        proof {
            lemma_byte_string_used(old(reader)@.skip(1));
            let used = parse_byte_string(old(reader)@.skip(1)).unwrap().1;
            assert(attempt@ =~= old(reader)@.skip((used + 1) as int));
        }
        *reader = attempt;
        Ok(Some(bytes))
    }

    /// Reads header fields that are preceded by a bit which says whether
    /// they are there.
    fn read_optional_fields(reader: &mut BitReader) -> (fields: Result<
        Option<Vec<(Vec<u8>, Vec<u8>)>>,
        DecodeError,
    >)
        requires
            old(reader).wf(),
        ensures
            final(reader).wf(),
            match parse_optional_fields(old(reader)@) {
                Ok((expected, used)) => used <= old(reader)@.len() && final(reader)@ == old(
                    reader)@.skip(used as int) && match expected {
                    Some(value) => fields matches Ok(Some(read)) && header_list(read@) == value,
                    None => fields matches Ok(None),
                },
                Err(error) => fields matches Err(e) && e == error && final(reader)@ == old(
                    reader)@,
            },
    {
        let mut attempt = *reader;
        let present = match attempt.read_bool() {
            Ok(flag) => flag,
            Err(error) => {
                return Err(error);
            },
        };
        if !present {
            *reader = attempt;
            return Ok(None);
        }
        let list = match AuthPayload::read_field_list(&mut attempt) {
            Ok(list) => list,
            Err(error) => {
                return Err(error);
            },
        };
        proof {
            let body = old(reader)@.skip(1);
            lemma_field_list_used(body);
            let used = parse_field_list(body).unwrap().1;
            assert(attempt@ =~= old(reader)@.skip((used + 1) as int));
        }
        *reader = attempt;
        Ok(Some(list))
    }

    /// Reads what a client presents. Fails, and reads nothing, where the
    /// input ends too early or cannot be decoded.
    pub fn de(reader: &mut BitReader) -> (auth: Result<AuthPayload, DecodeError>)
        requires
            old(reader).wf(),
        ensures
            final(reader).wf(),
            match parse_auth(old(reader)@) {
                Ok((expected, used)) => auth matches Ok(read) && read@ == expected && final(
                    reader)@ == old(reader)@.skip(used as int),
                Err(error) => auth matches Err(e) && e == error && final(reader)@ == old(reader)@,
            },
    {
        let mut attempt = *reader;
        let bytes = match AuthPayload::read_optional_bytes(&mut attempt) {
            Ok(bytes) => bytes,
            Err(error) => {
                return Err(error);
            },
        };
        let ghost first = parse_optional_bytes(old(reader)@).unwrap().1;
        let ghost middle = attempt@;
        let headers = match AuthPayload::read_optional_fields(&mut attempt) {
            Ok(headers) => headers,
            Err(error) => {
                return Err(error);
            },
        };
        proof {
            let second = parse_optional_fields(middle).unwrap().1;
            assert(attempt@ =~= old(reader)@.skip((first + second) as int));
        }
        *reader = attempt;
        Ok(AuthPayload { bytes, headers })
    }
}

/// Decoding header fields with their number in front takes no more bits
/// than there are.
pub proof fn lemma_field_list_used(bits: Seq<bool>)
    ensures
        parse_field_list(bits) matches Ok((fields, used)) ==> used <= bits.len(),
{
    lemma_varint_groups_used(bits, 10);
    if let Ok((count, used)) = parse_varint(bits) {
        lemma_fields_used(bits.skip(used as int), count as nat);
    }
}

/// The bits of header fields begin with the bits of the first field.
pub proof fn lemma_fields_bits_first(fields: HeaderList)
    requires
        fields.len() > 0,
    ensures
        fields_bits(fields) == byte_string_bits(fields[0].0) + byte_string_bits(fields[0].1)
            + fields_bits(fields.skip(1)),
    decreases fields.len(),
{
    if fields.len() == 1 {
        assert(fields.drop_last() =~= Seq::empty());
        assert(fields.skip(1) =~= Seq::empty());
        assert(fields_bits(fields) =~= byte_string_bits(fields[0].0) + byte_string_bits(
            fields[0].1,
        ) + fields_bits(fields.skip(1)));
    } else {
        let front = fields.drop_last();
        lemma_fields_bits_first(front);
        assert(front.skip(1) =~= fields.skip(1).drop_last());
        assert(fields.skip(1).last() == fields.last());
        assert(fields_bits(fields) =~= byte_string_bits(fields[0].0) + byte_string_bits(
            fields[0].1,
        ) + fields_bits(fields.skip(1)));
    }
}

/// Whether names and values are short enough for their lengths to be
/// written.
pub open spec fn fields_fit(fields: HeaderList) -> bool {
    forall|i: int|
        0 <= i < fields.len() ==> (#[trigger] fields[i]).0.len() <= u64::MAX && fields[i].1.len()
            <= u64::MAX
}

/// Reading header fields gives back the fields that were written,
/// whatever follows them.
pub proof fn lemma_fields_round_trip(fields: HeaderList, rest: Seq<bool>)
    requires
        fields_fit(fields),
    ensures
        parse_fields(fields_bits(fields) + rest, fields.len()) == Ok::<
            (HeaderList, nat),
            DecodeError,
        >((fields, fields_bits(fields).len())),
    decreases fields.len(),
{
    let bits = fields_bits(fields) + rest;
    if fields.len() == 0 {
        assert(fields =~= Seq::empty());
        lemma_fields_none(bits);
    } else {
        let name = fields[0].0;
        let value = fields[0].1;
        let tail = fields.skip(1);
        let after_value = fields_bits(tail) + rest;
        let after_name = byte_string_bits(value) + after_value;
        let used = byte_string_bits(name).len();
        let more = byte_string_bits(value).len();
        assert(bits == byte_string_bits(name) + after_name) by {
            lemma_fields_bits_first(fields);
            assert(bits =~= byte_string_bits(name) + after_name);
        }
        assert(parse_byte_string(bits) == Ok::<(Seq<u8>, nat), DecodeError>((name, used))) by {
            lemma_byte_string_round_trip(name, after_name);
        }
        assert(bits.skip(used as int) == after_name) by {
            assert(bits.skip(used as int) =~= after_name);
        }
        assert(parse_byte_string(after_name) == Ok::<(Seq<u8>, nat), DecodeError>((value, more)))
            by {
            lemma_byte_string_round_trip(value, after_value);
        }
        assert(bits.skip((used + more) as int) == after_value) by {
            assert(bits.skip((used + more) as int) =~= after_value);
        }
        assert(fields_fit(tail)) by {
            assert forall|i: int| 0 <= i < tail.len() implies (#[trigger] tail[i]).0.len()
                <= u64::MAX && tail[i].1.len() <= u64::MAX by {
                assert(tail[i] == fields[i + 1]);
            }
        }
        lemma_fields_round_trip(tail, rest);
        lemma_fields_step(bits, fields.len());
        assert(seq![(name, value)] + tail =~= fields);
        assert(fields_bits(fields).len() == used + more + fields_bits(tail).len()) by {
            lemma_fields_bits_first(fields);
        }
    }
}

/// Reading header fields with their number in front gives back the
/// fields that were written, whatever follows them.
pub proof fn lemma_field_list_round_trip(fields: HeaderList, rest: Seq<bool>)
    requires
        fields.len() <= u64::MAX,
        fields_fit(fields),
    ensures
        parse_field_list(varint_bits(fields.len()) + fields_bits(fields) + rest) == Ok::<
            (HeaderList, nat),
            DecodeError,
        >((fields, (varint_bits(fields.len()).len() + fields_bits(fields).len()) as nat)),
{
    let bits = varint_bits(fields.len()) + fields_bits(fields) + rest;
    let body = fields_bits(fields) + rest;
    let head = varint_bits(fields.len()).len();
    assert(bits == varint_bits(fields.len()) + body) by {
        assert(bits =~= varint_bits(fields.len()) + body);
    }
    assert(parse_varint(bits) == Ok::<(u64, nat), DecodeError>((fields.len() as u64, head))) by {
        lemma_varint_round_trip(fields.len() as u64, body);
    }
    assert(bits.skip(head as int) == body) by {
        assert(bits.skip(head as int) =~= body);
    }
    lemma_fields_round_trip(fields, rest);
}

/// Reading what a client presents gives back what was written, whatever
/// follows it.
pub proof fn lemma_auth_round_trip(auth: AuthView, rest: Seq<bool>)
    requires
        auth.bytes matches Some(bytes) ==> bytes.len() <= u64::MAX,
        auth.headers matches Some(fields) ==> fields.len() <= u64::MAX && fields_fit(fields),
    ensures
        parse_auth(auth_bits(auth) + rest) == Ok::<(AuthView, nat), DecodeError>(
            (auth, auth_bits(auth).len()),
        ),
{
    let first = match auth.bytes {
        Some(bytes) => seq![true] + byte_string_bits(bytes),
        None => seq![false],
    };
    let second = match auth.headers {
        Some(fields) => seq![true] + varint_bits(fields.len()) + fields_bits(fields),
        None => seq![false],
    };
    let bits = auth_bits(auth) + rest;
    let middle = second + rest;
    assert(bits == first + middle) by {
        assert(bits =~= first + middle);
    }
    assert(parse_optional_bytes(bits) == Ok::<(Option<Seq<u8>>, nat), DecodeError>(
        (auth.bytes, first.len()),
    )) by {
        match auth.bytes {
            Some(bytes) => {
                assert(bits.skip(1) =~= byte_string_bits(bytes) + middle);
                lemma_byte_string_round_trip(bytes, middle);
            },
            None => {},
        }
    }
    assert(bits.skip(first.len() as int) == middle) by {
        assert(bits.skip(first.len() as int) =~= middle);
    }
    assert(parse_optional_fields(middle) == Ok::<(Option<HeaderList>, nat), DecodeError>(
        (auth.headers, second.len()),
    )) by {
        match auth.headers {
            Some(fields) => {
                assert(middle.skip(1) =~= varint_bits(fields.len()) + fields_bits(fields) + rest);
                lemma_field_list_round_trip(fields, rest);
            },
            None => {},
        }
    }
}

} // verus!
