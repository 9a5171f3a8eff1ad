//! The wire format of a tag tree, as functions from a buffer and a position
//! to what stands there and where it ends.

use super::model::{closed_by_end, id_of, sound, sound_body, Body, Tag};
use super::{Error, MAX_DEPTH_NEST};
use crate::cursor::{be_value, signed16, signed32, signed64, signed8};
use vstd::prelude::*;

verus! {

/// The bound on nesting, on the members of a compound and on the elements
/// of a list.
pub open spec fn limit() -> nat {
    MAX_DEPTH_NEST as nat
}

/// Whether `n` bytes stand at `pos`.
pub open spec fn room(bytes: Seq<u8>, pos: nat, n: nat) -> bool {
    pos + n <= bytes.len()
}

/// The `n` bytes at `pos`.
pub open spec fn field(bytes: Seq<u8>, pos: nat, n: nat) -> Seq<u8> {
    bytes.subrange(pos as int, (pos + n) as int)
}

/// The big-endian unsigned integer in the `n` bytes at `pos`.
pub open spec fn unsigned_at(bytes: Seq<u8>, pos: nat, n: nat) -> nat {
    be_value(field(bytes, pos, n))
}

/// A string: a 16-bit unsigned length and that many bytes.
pub open spec fn decode_string(bytes: Seq<u8>, pos: nat) -> Result<(Seq<u8>, nat), Error> {
    if !room(bytes, pos, 2) {
        Err(Error::TruncatedString)
    } else {
        let n = unsigned_at(bytes, pos, 2);
        if !room(bytes, pos + 2, n) {
            Err(Error::EndOfBytes)
        } else {
            Ok((field(bytes, pos + 2, n), pos + 2 + n))
        }
    }
}

/// The length field of an array or a list: a 32-bit signed count, not
/// negative, of items of at least `width` bytes each that the rest of the
/// buffer can hold. Gives the count and the position behind the field.
pub open spec fn decode_length(bytes: Seq<u8>, pos: nat, width: nat) -> Result<(nat, nat), Error> {
    if !room(bytes, pos, 4) {
        Err(Error::TruncatedPrimitive)
    } else {
        let n = signed32(unsigned_at(bytes, pos, 4));
        if n < 0 {
            Err(Error::NegativeLength(n as i32))
        } else if !room(bytes, pos + 4, n as nat * width) {
            Err(Error::EndOfBytes)
        } else {
            Ok((n as nat, pos + 4))
        }
    }
}

/// The `n` 32-bit integers that stand at `pos`.
pub open spec fn ints_at(bytes: Seq<u8>, pos: nat, n: nat) -> Seq<i32> {
    Seq::new(n, |i: int| signed32(unsigned_at(bytes, (pos + 4 * i) as nat, 4)) as i32)
}

/// The `n` 64-bit integers that stand at `pos`.
pub open spec fn longs_at(bytes: Seq<u8>, pos: nat, n: nat) -> Seq<i64> {
    Seq::new(n, |i: int| signed64(unsigned_at(bytes, (pos + 8 * i) as nat, 8)) as i64)
}

/// A fixed-width body of kind `id`, 1 to 6, in its `width` bytes at `pos`.
pub open spec fn primitive_at(bytes: Seq<u8>, pos: nat, id: u8) -> Body {
    if id == 1 {
        Body::Byte(signed8(unsigned_at(bytes, pos, 1)) as i8)
    } else if id == 2 {
        Body::Short(signed16(unsigned_at(bytes, pos, 2)) as i16)
    } else if id == 3 {
        Body::Int(signed32(unsigned_at(bytes, pos, 4)) as i32)
    } else if id == 4 {
        Body::Long(signed64(unsigned_at(bytes, pos, 8)) as i64)
    } else if id == 5 {
        Body::Float(unsigned_at(bytes, pos, 4) as u32)
    } else {
        Body::Double(unsigned_at(bytes, pos, 8) as u64)
    }
}

/// The width in bytes of a fixed-width body of kind `id`, 1 to 6.
pub open spec fn width_of(id: u8) -> nat {
    if id == 1 {
        1
    } else if id == 2 {
        2
    } else if id == 3 || id == 5 {
        4
    } else {
        8
    }
}

/// The body of kind `id` that stands at `pos`, under `depth` enclosing
/// containers, and the position behind it.
pub open spec fn decode_payload(bytes: Seq<u8>, pos: nat, id: u8, depth: nat) -> Result<
    (Body, nat),
    Error,
>
    decreases limit() - depth, 0nat, 0nat,
{
    if 1 <= id <= 6 {
        if room(bytes, pos, width_of(id)) {
            Ok((primitive_at(bytes, pos, id), pos + width_of(id)))
        } else {
            Err(Error::TruncatedPrimitive)
        }
    } else if id == 7 {
        match decode_length(bytes, pos, 1) {
            Ok((n, p)) => Ok((Body::BArray(field(bytes, p, n)), p + n)),
            Err(e) => Err(e),
        }
    } else if id == 8 {
        match decode_string(bytes, pos) {
            Ok((s, p)) => Ok((Body::String(s), p)),
            Err(e) => Err(e),
        }
    } else if id == 9 {
        if depth >= limit() {
            Err(Error::ExceedsMaxNestingDepth(513))
        } else {
            decode_list(bytes, pos, depth + 1)
        }
    } else if id == 10 {
        if depth >= limit() {
            Err(Error::ExceedsMaxNestingDepth(513))
        } else {
            match decode_members(bytes, pos, limit(), depth + 1) {
                Ok((members, p)) => Ok((Body::Compound(members), p)),
                Err(e) => Err(e),
            }
        }
    } else if id == 11 {
        match decode_length(bytes, pos, 4) {
            Ok((n, p)) => Ok((Body::IArray(ints_at(bytes, p, n)), p + 4 * n)),
            Err(e) => Err(e),
        }
    } else if id == 12 {
        match decode_length(bytes, pos, 8) {
            Ok((n, p)) => Ok((Body::LArray(longs_at(bytes, p, n)), p + 8 * n)),
            Err(e) => Err(e),
        }
    } else {
        Err(Error::InvalidType)
    }
}

/// A list whose elements stand under `depth` containers, the list counted:
/// the element id, the length, and that many bodies without name or id.
pub open spec fn decode_list(bytes: Seq<u8>, pos: nat, depth: nat) -> Result<(Body, nat), Error>
    decreases limit() - depth, 2nat, 0nat,
    when depth <= limit()
{
    if !room(bytes, pos, 1) {
        Err(Error::TruncatedPrimitive)
    } else {
        let id = bytes[pos as int];
        match decode_length(bytes, pos + 1, 1) {
            Err(e) => Err(e),
            Ok((n, p)) => if n > limit() {
                Err(Error::ExceedsMaxNestingDepth(n as i32))
            } else if id > 12 || (id == 0 && n > 0) {
                Err(Error::InvalidListType(id))
            } else {
                match decode_elements(bytes, p, id, n, depth) {
                    Ok((items, q)) => Ok((Body::List { id, items }, q)),
                    Err(e) => Err(e),
                }
            },
        }
    }
}

/// `count` bodies of kind `id` in a row.
pub open spec fn decode_elements(
    bytes: Seq<u8>,
    pos: nat,
    id: u8,
    count: nat,
    depth: nat,
) -> Result<(Seq<Body>, nat), Error>
    decreases limit() - depth, 1nat, count,
    when depth <= limit()
{
    if count == 0 {
        Ok((Seq::empty(), pos))
    } else {
        match decode_payload(bytes, pos, id, depth) {
            Err(e) => Err(e),
            Ok((first, p)) => match decode_elements(bytes, p, id, (count - 1) as nat, depth) {
                Err(e) => Err(e),
                Ok((rest, q)) => Ok((seq![first] + rest, q)),
            },
        }
    }
}

/// The members of a compound, up to its End tag and with it, of which at
/// most `budget` may follow.
pub open spec fn decode_members(bytes: Seq<u8>, pos: nat, budget: nat, depth: nat) -> Result<
    (Seq<Tag>, nat),
    Error,
>
    decreases limit() - depth, 3nat, budget,
    when depth <= limit()
{
    if budget == 0 {
        Err(Error::ExceedsMaxNestingDepth(513))
    } else {
        match decode_tag(bytes, pos, depth) {
            Err(e) => Err(e),
            Ok((first, p)) => if first.body is End {
                Ok((seq![first], p))
            } else {
                match decode_members(bytes, p, (budget - 1) as nat, depth) {
                    Err(e) => Err(e),
                    Ok((rest, q)) => Ok((seq![first] + rest, q)),
                }
            },
        }
    }
}

/// A named tag under `depth` enclosing containers: a type id, and unless
/// that is 0, a name and the body of that kind.
pub open spec fn decode_tag(bytes: Seq<u8>, pos: nat, depth: nat) -> Result<(Tag, nat), Error>
    decreases limit() - depth, 2nat, 0nat,
    when depth <= limit()
{
    if !room(bytes, pos, 1) {
        Err(Error::InvalidType)
    } else {
        let id = bytes[pos as int];
        if id == 0 {
            Ok((Tag { name: Seq::empty(), body: Body::End }, pos + 1))
        } else if id > 12 {
            Err(Error::InvalidType)
        } else {
            match decode_string(bytes, pos + 1) {
                Err(e) => Err(e),
                Ok((name, p)) => match decode_payload(bytes, p, id, depth) {
                    Err(e) => Err(e),
                    Ok((body, q)) => Ok((Tag { name, body }, q)),
                },
            }
        }
    }
}

/// The tag tree that a buffer holds at its start.
pub open spec fn decode(bytes: Seq<u8>) -> Result<Tag, Error> {
    match decode_tag(bytes, 0, 0) {
        Ok((tag, _)) => Ok(tag),
        Err(e) => Err(e),
    }
}

/// A body that decodes under the id `id` is of that kind and sound.
pub proof fn lemma_payload_sound(bytes: Seq<u8>, pos: nat, id: u8, depth: nat)
    requires
        1 <= id <= 12,
    ensures
        decode_payload(bytes, pos, id, depth) matches Ok((body, _)) ==> id_of(body) == id
            && sound_body(body),
    decreases limit() - depth, 0nat, 0nat,
{
    if id == 9 && depth < limit() {
        lemma_list_sound(bytes, pos, depth + 1);
    } else if id == 10 && depth < limit() {
        lemma_members_sound(bytes, pos, limit(), depth + 1);
    }
}

/// A list that decodes is uniform, and each of its elements is sound.
pub proof fn lemma_list_sound(bytes: Seq<u8>, pos: nat, depth: nat)
    requires
        depth <= limit(),
    ensures
        decode_list(bytes, pos, depth) matches Ok((body, _)) ==> body is List && sound_body(body),
    decreases limit() - depth, 2nat, 0nat,
{
    if room(bytes, pos, 1) {
        let id = bytes[pos as int];
        if let Ok((n, p)) = decode_length(bytes, pos + 1, 1) {
            if n <= limit() && !(id > 12 || (id == 0 && n > 0)) {
                lemma_elements_sound(bytes, p, id, n, depth);
            }
        }
    }
}

/// Elements that decode in a row are as many as were asked for, each of the
/// kind asked for and sound.
pub proof fn lemma_elements_sound(bytes: Seq<u8>, pos: nat, id: u8, count: nat, depth: nat)
    requires
        depth <= limit(),
        1 <= id <= 12 || count == 0,
    ensures
        decode_elements(bytes, pos, id, count, depth) matches Ok((items, _)) ==> {
            &&& items.len() == count
            &&& forall|i: int|
                0 <= i < items.len() ==> id_of(#[trigger] items[i]) == id && sound_body(items[i])
        },
    decreases limit() - depth, 1nat, count,
{
    if count > 0 {
        lemma_payload_sound(bytes, pos, id, depth);
        if let Ok((first, p)) = decode_payload(bytes, pos, id, depth) {
            lemma_elements_sound(bytes, p, id, (count - 1) as nat, depth);
        }
    }
}

/// Members that decode are closed by their one End tag, at most `budget`
/// of them, each sound.
pub proof fn lemma_members_sound(bytes: Seq<u8>, pos: nat, budget: nat, depth: nat)
    requires
        depth <= limit(),
    ensures
        decode_members(bytes, pos, budget, depth) matches Ok((members, _)) ==> {
            &&& closed_by_end(members)
            &&& members.len() <= budget
            &&& forall|i: int|
                0 <= i < members.len() ==> sound_body((#[trigger] members[i]).body)
        },
    decreases limit() - depth, 3nat, budget,
{
    if budget > 0 {
        lemma_tag_sound(bytes, pos, depth);
        if let Ok((first, p)) = decode_tag(bytes, pos, depth) {
            if !(first.body is End) {
                lemma_members_sound(bytes, p, (budget - 1) as nat, depth);
            }
        }
    }
}

/// A tag that decodes is sound.
pub proof fn lemma_tag_sound(bytes: Seq<u8>, pos: nat, depth: nat)
    requires
        depth <= limit(),
    ensures
        decode_tag(bytes, pos, depth) matches Ok((tag, _)) ==> sound(tag),
    decreases limit() - depth, 2nat, 0nat,
{
    if room(bytes, pos, 1) {
        let id = bytes[pos as int];
        if 1 <= id <= 12 {
            if let Ok((name, p)) = decode_string(bytes, pos + 1) {
                lemma_payload_sound(bytes, p, id, depth);
            }
        }
    }
}

/// A body that decodes ends behind its start and inside the buffer.
pub proof fn lemma_payload_advances(bytes: Seq<u8>, pos: nat, id: u8, depth: nat)
    requires
        1 <= id <= 12,
    ensures
        decode_payload(bytes, pos, id, depth) matches Ok((_, end)) ==> pos < end <= bytes.len(),
    decreases limit() - depth, 0nat, 0nat,
{
    if id == 9 && depth < limit() {
        lemma_list_advances(bytes, pos, depth + 1);
    } else if id == 10 && depth < limit() {
        lemma_members_advance(bytes, pos, limit(), depth + 1);
    }
}

/// A list that decodes ends behind its start and inside the buffer.
pub proof fn lemma_list_advances(bytes: Seq<u8>, pos: nat, depth: nat)
    requires
        depth <= limit(),
    ensures
        decode_list(bytes, pos, depth) matches Ok((_, end)) ==> pos < end <= bytes.len(),
    decreases limit() - depth, 2nat, 0nat,
{
    if room(bytes, pos, 1) {
        let id = bytes[pos as int];
        if let Ok((n, p)) = decode_length(bytes, pos + 1, 1) {
            if n <= limit() && !(id > 12 || (id == 0 && n > 0)) {
                lemma_elements_advance(bytes, p, id, n, depth);
            }
        }
    }
}

/// Elements that decode in a row end inside the buffer, not before their
/// start.
pub proof fn lemma_elements_advance(bytes: Seq<u8>, pos: nat, id: u8, count: nat, depth: nat)
    requires
        depth <= limit(),
        1 <= id <= 12 || count == 0,
        pos <= bytes.len(),
    ensures
        decode_elements(bytes, pos, id, count, depth) matches Ok((_, end)) ==> pos <= end
            <= bytes.len(),
    decreases limit() - depth, 1nat, count,
{
    if count > 0 {
        lemma_payload_advances(bytes, pos, id, depth);
        if let Ok((first, p)) = decode_payload(bytes, pos, id, depth) {
            lemma_elements_advance(bytes, p, id, (count - 1) as nat, depth);
        }
    }
}

/// Members that decode end behind their start and inside the buffer.
pub proof fn lemma_members_advance(bytes: Seq<u8>, pos: nat, budget: nat, depth: nat)
    requires
        depth <= limit(),
    ensures
        decode_members(bytes, pos, budget, depth) matches Ok((_, end)) ==> pos < end
            <= bytes.len(),
    decreases limit() - depth, 3nat, budget,
{
    if budget > 0 {
        lemma_tag_advances(bytes, pos, depth);
        if let Ok((first, p)) = decode_tag(bytes, pos, depth) {
            if !(first.body is End) {
                lemma_members_advance(bytes, p, (budget - 1) as nat, depth);
            }
        }
    }
}

/// A tag that decodes ends behind its start and inside the buffer: no
/// read goes past the end.
pub proof fn lemma_tag_advances(bytes: Seq<u8>, pos: nat, depth: nat)
    requires
        depth <= limit(),
    ensures
        decode_tag(bytes, pos, depth) matches Ok((_, end)) ==> pos < end <= bytes.len(),
    decreases limit() - depth, 2nat, 0nat,
{
    if room(bytes, pos, 1) {
        let id = bytes[pos as int];
        if 1 <= id <= 12 {
            if let Ok((name, p)) = decode_string(bytes, pos + 1) {
                lemma_payload_advances(bytes, p, id, depth);
            }
        }
    }
}

/// In every tree that a buffer decodes to, each compound holds exactly one
/// End tag, as its last member, and each element of a list with a nonzero
/// element id is of the kind that the id names.
pub proof fn decoded_tree_is_sound(bytes: Seq<u8>)
    ensures
        decode(bytes) matches Ok(tag) ==> sound(tag),
{
    lemma_tag_sound(bytes, 0, 0);
}

} // verus!
