//! Named Binary Tags: the tree, its decoder and its errors.

use crate::cursor::{be_value, signed16, signed32, signed64, ByteCursor};
use crate::text::{decimal, push_decimal};
use vstd::prelude::*;
use vstd::slice::slice_to_vec;
use vstd::string::{StrSliceExecFns, StringExecFns};
use vstd::utf8::encode_utf8;

pub mod grammar;
pub mod model;
pub mod query;

use grammar::{
    decode_elements, decode_length, decode_list, decode_members, decode_payload, decode_string,
    decode_tag, field, ints_at, lemma_tag_advances, lemma_tag_sound, limit, longs_at, room,
    unsigned_at,
};
use model::{sound, Body, Tag};

verus! {

/// The most containers that may enclose a tag, the most members a compound
/// may have, and the most elements a list may have.
pub const MAX_DEPTH_NEST: i32 = 512;

pub type TAGByte = u8;

pub type TAGShort = i16;

pub type TAGInt = i32;

pub type TAGLong = i64;

/// The bit pattern of a 32-bit IEEE-754 number.
pub type TAGFloat = u32;

/// The bit pattern of a 64-bit IEEE-754 number.
pub type TAGDouble = u64;

#[derive(Debug, PartialEq, Eq)]
pub struct TAGByteArray {
    pub body: Vec<TAGByte>,
}

#[derive(Debug, PartialEq, Eq)]
pub struct TAGString {
    pub str: Vec<TAGByte>,
}

#[derive(Debug, PartialEq, Eq)]
pub struct TAGList {
    pub id: TAGByte,
    pub tags: Vec<Payload>,
}

#[derive(Debug, PartialEq, Eq)]
pub struct TAGCompound {
    pub tags: Vec<NBT>,
}

#[derive(Debug, PartialEq, Eq)]
pub struct TAGIArray {
    pub ints: Vec<TAGInt>,
}

#[derive(Debug, PartialEq, Eq)]
pub struct TAGLArray {
    pub longs: Vec<TAGLong>,
}

#[derive(Debug, PartialEq, Eq)]
pub enum Payload {
    End,
    Byte(i8),
    Short(TAGShort),
    Int(TAGInt),
    Long(TAGLong),
    Float(TAGFloat),
    Double(TAGDouble),
    BArray(TAGByteArray),
    String(TAGString),
    List(TAGList),
    Compound(TAGCompound),
    IArray(TAGIArray),
    LArray(TAGLArray),
}

#[derive(Debug, PartialEq, Eq)]
pub struct NBT {
    pub name: TAGString,
    pub payload: Payload,
}

#[derive(Debug, Clone, Copy, PartialEq, Eq)]
pub enum Error {
    /// A declared length reaches past the end of the buffer.
    EndOfBytes,
    /// A tag starts with no type id, or with one above 12.
    InvalidType,
    /// A list declares elements of a kind that cannot be one.
    InvalidListType(TAGByte),
    /// A declared length is below zero.
    NegativeLength(i32),
    /// A list or a compound has too many entries, or containers are nested
    /// too deep.
    ExceedsMaxNestingDepth(i32),
    /// The length field of a string is cut short.
    TruncatedString,
    /// A fixed-width field is cut short.
    TruncatedPrimitive,
}

/// What a stored payload stands for.
pub open spec fn body_of(payload: Payload) -> Body
    decreases payload,
{
    match payload {
        Payload::End => Body::End,
        Payload::Byte(v) => Body::Byte(v),
        Payload::Short(v) => Body::Short(v),
        Payload::Int(v) => Body::Int(v),
        Payload::Long(v) => Body::Long(v),
        Payload::Float(v) => Body::Float(v),
        Payload::Double(v) => Body::Double(v),
        Payload::BArray(a) => Body::BArray(a.body@),
        Payload::String(s) => Body::String(s.str@),
        Payload::List(l) => Body::List {
            id: l.id,
            items: Seq::new(
                l.tags@.len(),
                |i: int|
                    if 0 <= i < l.tags@.len() {
                        body_of(l.tags@[i])
                    } else {
                        Body::End
                    },
            ),
        },
        Payload::Compound(c) => Body::Compound(
            Seq::new(
                c.tags@.len(),
                |i: int|
                    if 0 <= i < c.tags@.len() {
                        Tag { name: c.tags@[i].name.str@, body: body_of(c.tags@[i].payload) }
                    } else {
                        Tag { name: Seq::empty(), body: Body::End }
                    },
            ),
        ),
        Payload::IArray(a) => Body::IArray(a.ints@),
        Payload::LArray(a) => Body::LArray(a.longs@),
    }
}

impl View for TAGString {
    type V = Seq<u8>;

    open spec fn view(&self) -> Seq<u8> {
        self.str@
    }
}

impl TAGString {
    /// The string of the bytes that spell `text` in UTF-8.
    pub fn new(text: &str) -> (s: TAGString)
        ensures
            s@ == encode_utf8(text@),
    {
        TAGString { str: text.as_bytes_vec() }
    }
}

impl View for Payload {
    type V = Body;

    open spec fn view(&self) -> Body {
        body_of(*self)
    }
}

impl View for NBT {
    type V = Tag;

    open spec fn view(&self) -> Tag {
        Tag { name: self.name.str@, body: body_of(self.payload) }
    }
}

/// The trees that a vector of tags stands for.
pub open spec fn tags_of(tags: Seq<NBT>) -> Seq<Tag> {
    Seq::new(tags.len(), |i: int| tags[i]@)
}

/// The bodies that a vector of payloads stands for.
pub open spec fn bodies_of(payloads: Seq<Payload>) -> Seq<Body> {
    Seq::new(payloads.len(), |i: int| payloads[i]@)
}

/// A list stands for the bodies of its elements, a compound for the trees
/// of its members.
pub proof fn lemma_body_of_containers(payload: Payload)
    ensures
        payload matches Payload::List(l) ==> payload@ == (Body::List {
            id: l.id,
            items: bodies_of(l.tags@),
        }),
        payload matches Payload::Compound(c) ==> payload@ == Body::Compound(tags_of(c.tags@)),
{
    match payload {
        Payload::List(l) => {
            assert(payload@->List_items =~= bodies_of(l.tags@));
        },
        Payload::Compound(c) => {
            assert(payload@->Compound_0 =~= tags_of(c.tags@));
        },
        _ => {},
    }
}

/// What comes of items already read and of the reading of the rest: the
/// items in a row if the rest can be read, its error if it cannot.
pub open spec fn prepend<T>(done: Seq<T>, rest: Result<(Seq<T>, nat), Error>) -> Result<
    (Seq<T>, nat),
    Error,
> {
    match rest {
        Ok((items, end)) => Ok((done + items, end)),
        Err(e) => Err(e),
    }
}

/// A one-byte field spells its byte.
pub proof fn lemma_be_value_one(s: Seq<u8>)
    requires
        s.len() == 1,
    ensures
        be_value(s) == s[0],
{
    reveal_with_fuel(be_value, 2);
}

/// A decoder over a buffer that it owns, with a cursor into it.
pub struct Parser {
    bytes: ByteCursor,
}

impl Parser {
    /// The buffer.
    pub closed spec fn data(&self) -> Seq<u8> {
        self.bytes.data()
    }

    /// The position of the cursor in the buffer.
    pub closed spec fn offset(&self) -> nat {
        self.bytes.offset()
    }

    fn nbt_byte(&mut self) -> (r: Result<TAGByte, Error>)
        ensures
            final(self).data() == old(self).data(),
            match r {
                Ok(v) => {
                    &&& room(old(self).data(), old(self).offset(), 1)
                    &&& v == old(self).data()[old(self).offset() as int]
                    &&& final(self).offset() == old(self).offset() + 1
                },
                Err(e) => !room(old(self).data(), old(self).offset(), 1) && e
                    == Error::TruncatedPrimitive,
            },
    {
        match self.bytes.read_u8() {
            Some(v) => Ok(v),
            None => Err(Error::TruncatedPrimitive),
        }
    }

    fn nbt_short(&mut self) -> (r: Result<TAGShort, Error>)
        ensures
            final(self).data() == old(self).data(),
            match r {
                Ok(v) => {
                    &&& room(old(self).data(), old(self).offset(), 2)
                    &&& v as int == signed16(unsigned_at(old(self).data(), old(self).offset(), 2))
                    &&& final(self).offset() == old(self).offset() + 2
                },
                Err(e) => !room(old(self).data(), old(self).offset(), 2) && e
                    == Error::TruncatedPrimitive,
            },
    {
        match self.bytes.read_i16() {
            Some(v) => Ok(v),
            None => Err(Error::TruncatedPrimitive),
        }
    }

    fn nbt_int(&mut self) -> (r: Result<TAGInt, Error>)
        ensures
            final(self).data() == old(self).data(),
            match r {
                Ok(v) => {
                    &&& room(old(self).data(), old(self).offset(), 4)
                    &&& v as int == signed32(unsigned_at(old(self).data(), old(self).offset(), 4))
                    &&& final(self).offset() == old(self).offset() + 4
                },
                Err(e) => !room(old(self).data(), old(self).offset(), 4) && e
                    == Error::TruncatedPrimitive,
            },
    {
        match self.bytes.read_i32() {
            Some(v) => Ok(v),
            None => Err(Error::TruncatedPrimitive),
        }
    }

    fn nbt_long(&mut self) -> (r: Result<TAGLong, Error>)
        ensures
            final(self).data() == old(self).data(),
            match r {
                Ok(v) => {
                    &&& room(old(self).data(), old(self).offset(), 8)
                    &&& v as int == signed64(unsigned_at(old(self).data(), old(self).offset(), 8))
                    &&& final(self).offset() == old(self).offset() + 8
                },
                Err(e) => !room(old(self).data(), old(self).offset(), 8) && e
                    == Error::TruncatedPrimitive,
            },
    {
        match self.bytes.read_i64() {
            Some(v) => Ok(v),
            None => Err(Error::TruncatedPrimitive),
        }
    }

    fn nbt_float(&mut self) -> (r: Result<TAGFloat, Error>)
        ensures
            final(self).data() == old(self).data(),
            match r {
                Ok(v) => {
                    &&& room(old(self).data(), old(self).offset(), 4)
                    &&& v as nat == unsigned_at(old(self).data(), old(self).offset(), 4)
                    &&& final(self).offset() == old(self).offset() + 4
                },
                Err(e) => !room(old(self).data(), old(self).offset(), 4) && e
                    == Error::TruncatedPrimitive,
            },
    {
        match self.bytes.read_u32() {
            Some(v) => Ok(v),
            None => Err(Error::TruncatedPrimitive),
        }
    }

    fn nbt_double(&mut self) -> (r: Result<TAGDouble, Error>)
        ensures
            final(self).data() == old(self).data(),
            match r {
                Ok(v) => {
                    &&& room(old(self).data(), old(self).offset(), 8)
                    &&& v as nat == unsigned_at(old(self).data(), old(self).offset(), 8)
                    &&& final(self).offset() == old(self).offset() + 8
                },
                Err(e) => !room(old(self).data(), old(self).offset(), 8) && e
                    == Error::TruncatedPrimitive,
            },
    {
        match self.bytes.read_u64() {
            Some(v) => Ok(v),
            None => Err(Error::TruncatedPrimitive),
        }
    }

    /// Whether `length` items of `width` bytes each can stand at the cursor.
    fn check_length(&self, length: TAGInt, width: usize) -> (r: Result<(), Error>)
        requires
            1 <= width <= 8,
        ensures
            r == if length < 0 {
                Err::<(), Error>(Error::NegativeLength(length))
            } else if !room(self.data(), self.offset(), length as nat * width as nat) {
                Err::<(), Error>(Error::EndOfBytes)
            } else {
                Ok::<(), Error>(())
            },
    {
        if length < 0 {
            return Err(Error::NegativeLength(length));
        }
        assert(length as nat * width as nat <= 8 * 0x7fff_ffff) by (nonlinear_arith)
            requires
                0 <= length <= 0x7fff_ffff,
                1 <= width <= 8,
        ;
        let end: u64 = self.bytes.len() as u64;
        let at: u64 = self.bytes.position();
        if at > end || length as u64 * width as u64 > end - at {
            return Err(Error::EndOfBytes);
        }
        Ok(())
    }

    /// Reads a length field and checks it against the rest of the buffer.
    fn nbt_length(&mut self, width: usize) -> (r: Result<TAGInt, Error>)
        requires
            1 <= width <= 8,
        ensures
            final(self).data() == old(self).data(),
            match decode_length(old(self).data(), old(self).offset(), width as nat) {
                Ok((n, p)) => r == Ok::<TAGInt, Error>(n as i32) && n <= i32::MAX
                    && final(self).offset() == p,
                Err(e) => r == Err::<TAGInt, Error>(e),
            },
    {
        let length: TAGInt = self.nbt_int()?;
        self.check_length(length, width)?;
        Ok(length)
    }

    fn nbt_barray(&mut self) -> (r: Result<TAGByteArray, Error>)
        ensures
            final(self).data() == old(self).data(),
            match decode_payload(old(self).data(), old(self).offset(), 7, 0) {
                Ok((body, p)) => r matches Ok(a) && Body::BArray(a.body@) == body
                    && final(self).offset() == p,
                Err(e) => r == Err::<TAGByteArray, Error>(e),
            },
    {
        let length: TAGInt = self.nbt_length(1)?;
        match self.bytes.read_bytes(length as usize) {
            Some(body) => Ok(TAGByteArray { body }),
            None => Err(Error::EndOfBytes),
        }
    }

    fn nbt_string(&mut self) -> (r: Result<TAGString, Error>)
        ensures
            final(self).data() == old(self).data(),
            match decode_string(old(self).data(), old(self).offset()) {
                Ok((s, p)) => r matches Ok(t) && t@ == s && final(self).offset() == p,
                Err(e) => r == Err::<TAGString, Error>(e),
            },
    {
        let length: u16 = match self.bytes.read_u16() {
            Some(length) => length,
            None => return Err(Error::TruncatedString),
        };
        if length as usize > self.bytes.remaining() {
            return Err(Error::EndOfBytes);
        }
        match self.bytes.read_bytes(length as usize) {
            Some(str) => Ok(TAGString { str }),
            None => Err(Error::EndOfBytes),
        }
    }

    fn nbt_iarray(&mut self) -> (r: Result<TAGIArray, Error>)
        ensures
            final(self).data() == old(self).data(),
            match decode_payload(old(self).data(), old(self).offset(), 11, 0) {
                Ok((body, p)) => r matches Ok(a) && Body::IArray(a.ints@) == body
                    && final(self).offset() == p,
                Err(e) => r == Err::<TAGIArray, Error>(e),
            },
    {
        let length: TAGInt = self.nbt_length(4)?;
        let ghost data = self.data();
        let ghost start = self.offset();
        let mut ints: Vec<TAGInt> = Vec::new();
        let mut i: TAGInt = 0;
        while i < length
            invariant
                0 <= i <= length,
                self.data() == data,
                self.offset() == start + 4 * i,
                room(data, start, length as nat * 4),
                ints@ == ints_at(data, start, i as nat),
            decreases length - i,
        {
            let v: TAGInt = self.nbt_int()?;
            ints.push(v);
            i += 1;
            assert(ints@ =~= ints_at(data, start, i as nat));
        }
        Ok(TAGIArray { ints })
    }

    fn nbt_larray(&mut self) -> (r: Result<TAGLArray, Error>)
        ensures
            final(self).data() == old(self).data(),
            match decode_payload(old(self).data(), old(self).offset(), 12, 0) {
                Ok((body, p)) => r matches Ok(a) && Body::LArray(a.longs@) == body
                    && final(self).offset() == p,
                Err(e) => r == Err::<TAGLArray, Error>(e),
            },
    {
        let length: TAGInt = self.nbt_length(8)?;
        let ghost data = self.data();
        let ghost start = self.offset();
        let mut longs: Vec<TAGLong> = Vec::new();
        let mut i: TAGInt = 0;
        while i < length
            invariant
                0 <= i <= length,
                self.data() == data,
                self.offset() == start + 8 * i,
                room(data, start, length as nat * 8),
                longs@ == longs_at(data, start, i as nat),
            decreases length - i,
        {
            let v: TAGLong = self.nbt_long()?;
            longs.push(v);
            i += 1;
            assert(longs@ =~= longs_at(data, start, i as nat));
        }
        Ok(TAGLArray { longs })
    }

    /// Reads the body of kind `id` of a tag that `depth` containers enclose.
    fn nbt_payload(&mut self, id: TAGByte, depth: usize) -> (r: Result<Payload, Error>)
        requires
            1 <= id <= 12,
            depth <= limit(),
        ensures
            final(self).data() == old(self).data(),
            match decode_payload(old(self).data(), old(self).offset(), id, depth as nat) {
                Ok((body, p)) => r matches Ok(v) && v@ == body && final(self).offset() == p,
                Err(e) => r == Err::<Payload, Error>(e),
            },
        decreases limit() - depth, 0nat,
    {
        proof {
            if room(self.data(), self.offset(), 1) {
                lemma_be_value_one(field(self.data(), self.offset(), 1));
            }
        }
        match id {
            1 => match self.bytes.read_i8() {
                Some(v) => Ok(Payload::Byte(v)),
                None => Err(Error::TruncatedPrimitive),
            },
            2 => Ok(Payload::Short(self.nbt_short()?)),
            3 => Ok(Payload::Int(self.nbt_int()?)),
            4 => Ok(Payload::Long(self.nbt_long()?)),
            5 => Ok(Payload::Float(self.nbt_float()?)),
            6 => Ok(Payload::Double(self.nbt_double()?)),
            7 => Ok(Payload::BArray(self.nbt_barray()?)),
            8 => Ok(Payload::String(self.nbt_string()?)),
            9 => {
                if depth >= MAX_DEPTH_NEST as usize {
                    return Err(Error::ExceedsMaxNestingDepth(MAX_DEPTH_NEST + 1));
                }
                Ok(Payload::List(self.nbt_list(depth + 1)?))
            },
            10 => {
                if depth >= MAX_DEPTH_NEST as usize {
                    return Err(Error::ExceedsMaxNestingDepth(MAX_DEPTH_NEST + 1));
                }
                Ok(Payload::Compound(self.nbt_compound(depth + 1)?))
            },
            11 => Ok(Payload::IArray(self.nbt_iarray()?)),
            _ => Ok(Payload::LArray(self.nbt_larray()?)),
        }
    }

    /// Reads a list whose elements `depth` containers enclose, the list
    /// among them.
    fn nbt_list(&mut self, depth: usize) -> (r: Result<TAGList, Error>)
        requires
            depth <= limit(),
        ensures
            final(self).data() == old(self).data(),
            match decode_list(old(self).data(), old(self).offset(), depth as nat) {
                Ok((body, p)) => r matches Ok(l) && Payload::List(l)@ == body
                    && final(self).offset() == p,
                Err(e) => r == Err::<TAGList, Error>(e),
            },
        decreases limit() - depth, 2nat,
    {
        let id: TAGByte = self.nbt_byte()?;
        let length: TAGInt = self.nbt_length(1)?;
        if length > MAX_DEPTH_NEST {
            return Err(Error::ExceedsMaxNestingDepth(length));
        }
        if id > 12 || (id == 0 && length > 0) {
            return Err(Error::InvalidListType(id));
        }
        let ghost data = self.data();
        let ghost start = self.offset();
        let ghost whole = decode_elements(data, start, id, length as nat, depth as nat);
        let mut tags: Vec<Payload> = Vec::new();
        let mut i: TAGInt = 0;
        assert(bodies_of(tags@) + Seq::<Body>::empty() =~= Seq::<Body>::empty());
        while i < length
            invariant
                0 <= i <= length,
                1 <= id <= 12 || length == 0,
                depth <= limit(),
                self.data() == data,
                data == old(self).data(),
                decode_list(data, old(self).offset(), depth as nat) == match whole {
                    Ok((items, end)) => Ok((Body::List { id, items }, end)),
                    Err(e) => Err(e),
                },
                whole == prepend(
                    bodies_of(tags@),
                    decode_elements(data, self.offset(), id, (length - i) as nat, depth as nat),
                ),
            decreases length - i,
        {
            let ghost done = bodies_of(tags@);
            let item: Payload = self.nbt_payload(id, depth)?;
            tags.push(item);
            i += 1;
            proof {
                let rest = decode_elements(
                    data,
                    self.offset(),
                    id,
                    (length - i) as nat,
                    depth as nat,
                );
                assert(bodies_of(tags@) =~= done + seq![item@]);
                if let Ok((items, end)) = rest {
                    assert(done + (seq![item@] + items) =~= bodies_of(tags@) + items);
                }
            }
        }
        proof {
            assert(bodies_of(tags@) + Seq::<Body>::empty() =~= bodies_of(tags@));
            lemma_body_of_containers(Payload::List(TAGList { id, tags }));
        }
        Ok(TAGList { id, tags })
    }

    /// Reads the members of a compound that `depth` containers enclose, the
    /// compound among them.
    fn nbt_compound(&mut self, depth: usize) -> (r: Result<TAGCompound, Error>)
        requires
            depth <= limit(),
        ensures
            final(self).data() == old(self).data(),
            match decode_members(old(self).data(), old(self).offset(), limit(), depth as nat) {
                Ok((members, p)) => r matches Ok(c) && Payload::Compound(c)@ == Body::Compound(
                    members,
                ) && final(self).offset() == p,
                Err(e) => r == Err::<TAGCompound, Error>(e),
            },
        decreases limit() - depth, 2nat,
    {
        let ghost data = self.data();
        let ghost whole = decode_members(data, self.offset(), limit(), depth as nat);
        let mut compound = TAGCompound { tags: Vec::new() };
        let mut i: TAGInt = 0;
        assert(tags_of(compound.tags@) + Seq::<Tag>::empty() =~= Seq::<Tag>::empty());
        while i < MAX_DEPTH_NEST
            invariant
                0 <= i <= MAX_DEPTH_NEST,
                depth <= limit(),
                self.data() == data,
                data == old(self).data(),
                whole == decode_members(data, old(self).offset(), limit(), depth as nat),
                whole == prepend(
                    tags_of(compound.tags@),
                    decode_members(data, self.offset(), (limit() - i) as nat, depth as nat),
                ),
            decreases MAX_DEPTH_NEST - i,
        {
            let ghost done = tags_of(compound.tags@);
            let tag: NBT = self.consume(depth)?;
            let ghost first = tag@;
            let closes: bool = match tag.payload {
                Payload::End => true,
                _ => false,
            };
            compound.tags.push(tag);
            i += 1;
            proof {
                assert(tags_of(compound.tags@) =~= done + seq![first]);
                if closes {
                    lemma_body_of_containers(Payload::Compound(compound));
                } else {
                    let rest = decode_members(
                        data,
                        self.offset(),
                        (limit() - i) as nat,
                        depth as nat,
                    );
                    if let Ok((members, end)) = rest {
                        assert(done + (seq![first] + members) =~= tags_of(compound.tags@)
                            + members);
                    }
                }
            }
            if closes {
                return Ok(compound);
            }
        }
        Err(Error::ExceedsMaxNestingDepth(MAX_DEPTH_NEST + 1))
    }

    /// Reads a named tag that `depth` containers enclose.
    fn consume(&mut self, depth: usize) -> (r: Result<NBT, Error>)
        requires
            depth <= limit(),
        ensures
            final(self).data() == old(self).data(),
            match decode_tag(old(self).data(), old(self).offset(), depth as nat) {
                Ok((tag, p)) => r matches Ok(t) && t@ == tag && final(self).offset() == p,
                Err(e) => r == Err::<NBT, Error>(e),
            },
        decreases limit() - depth, 1nat,
    {
        let byte: TAGByte = match self.nbt_byte() {
            Ok(byte) => byte,
            Err(_) => return Err(Error::InvalidType),
        };
        if byte == 0 {
            return Ok(NBT { name: TAGString { str: Vec::new() }, payload: Payload::End });
        }
        if byte > 12 {
            return Err(Error::InvalidType);
        }
        let name: TAGString = self.nbt_string()?;
        let payload: Payload = self.nbt_payload(byte, depth)?;
        Ok(NBT { name, payload })
    }

    /// Whether the cursor stands at the end of the buffer.
    pub fn at_end(&self) -> (r: bool)
        ensures
            r == (self.offset() == self.data().len()),
    {
        self.bytes.position() == self.bytes.len() as u64
    }

    /// Decodes the tag at the cursor into `root` and moves the cursor behind
    /// it. On an error, `root` and the cursor stay as they were.
    pub fn parse(&mut self, root: &mut NBT) -> (r: Result<(), Error>)
        ensures
            final(self).data() == old(self).data(),
            match decode_tag(old(self).data(), old(self).offset(), 0) {
                Ok((tag, p)) => r is Ok && final(root)@ == tag && sound(tag)
                    && final(self).offset() == p && old(self).offset() < p <= old(
                    self,
                ).data().len(),
                Err(e) => r == Err::<(), Error>(e) && *final(root) == *old(root)
                    && final(self).offset() == old(self).offset(),
            },
    {
        let start: u64 = self.bytes.position();
        proof {
            lemma_tag_sound(self.data(), self.offset(), 0);
            lemma_tag_advances(self.data(), self.offset(), 0);
        }
        match self.consume(0) {
            Ok(nbt) => {
                root.name = nbt.name;
                root.payload = nbt.payload;
                Ok(())
            },
            Err(e) => {
                self.bytes.seek(start);
                Err(e)
            },
        }
    }

    pub fn new(bytes: Vec<u8>) -> (p: Parser)
        ensures
            p.data() == bytes@,
            p.offset() == 0,
    {
        Parser { bytes: ByteCursor::new(bytes) }
    }
}

impl Default for NBT {
    /// An End tag without a name.
    fn default() -> (t: NBT)
        ensures
            t@ == (Tag { name: Seq::empty(), body: Body::End }),
    {
        NBT { name: TAGString { str: Vec::new() }, payload: Payload::End }
    }
}

impl Clone for TAGByteArray {
    fn clone(&self) -> (r: TAGByteArray)
        ensures
            r.body@ == self.body@,
    {
        TAGByteArray { body: slice_to_vec(self.body.as_slice()) }
    }
}

impl Clone for TAGString {
    fn clone(&self) -> (r: TAGString)
        ensures
            r@ == self@,
    {
        TAGString { str: slice_to_vec(self.str.as_slice()) }
    }
}

impl Clone for TAGIArray {
    fn clone(&self) -> (r: TAGIArray)
        ensures
            r.ints@ == self.ints@,
    {
        TAGIArray { ints: slice_to_vec(self.ints.as_slice()) }
    }
}

impl Clone for TAGLArray {
    fn clone(&self) -> (r: TAGLArray)
        ensures
            r.longs@ == self.longs@,
    {
        TAGLArray { longs: slice_to_vec(self.longs.as_slice()) }
    }
}

impl Clone for TAGList {
    fn clone(&self) -> (r: TAGList)
        ensures
            r.id == self.id,
            bodies_of(r.tags@) == bodies_of(self.tags@),
        decreases self,
    {
        let mut tags: Vec<Payload> = Vec::new();
        let mut i: usize = 0;
        while i < self.tags.len()
            invariant
                i <= self.tags.len(),
                tags@.len() == i,
                forall|j: int| 0 <= j < i ==> (#[trigger] tags@[j])@ == self.tags@[j]@,
            decreases self.tags.len() - i,
        {
            let item: Payload = self.tags[i].clone();
            tags.push(item);
            i += 1;
        }
        assert(bodies_of(tags@) =~= bodies_of(self.tags@));
        TAGList { id: self.id, tags }
    }
}

impl Clone for TAGCompound {
    fn clone(&self) -> (r: TAGCompound)
        ensures
            tags_of(r.tags@) == tags_of(self.tags@),
        decreases self,
    {
        let mut tags: Vec<NBT> = Vec::new();
        let mut i: usize = 0;
        while i < self.tags.len()
            invariant
                i <= self.tags.len(),
                tags@.len() == i,
                forall|j: int| 0 <= j < i ==> (#[trigger] tags@[j])@ == self.tags@[j]@,
            decreases self.tags.len() - i,
        {
            let tag: NBT = self.tags[i].clone();
            tags.push(tag);
            i += 1;
        }
        assert(tags_of(tags@) =~= tags_of(self.tags@));
        TAGCompound { tags }
    }
}

impl Clone for Payload {
    fn clone(&self) -> (r: Payload)
        ensures
            r@ == self@,
        decreases self,
    {
        let r = match self {
            Payload::End => Payload::End,
            Payload::Byte(v) => Payload::Byte(*v),
            Payload::Short(v) => Payload::Short(*v),
            Payload::Int(v) => Payload::Int(*v),
            Payload::Long(v) => Payload::Long(*v),
            Payload::Float(v) => Payload::Float(*v),
            Payload::Double(v) => Payload::Double(*v),
            Payload::BArray(a) => Payload::BArray(a.clone()),
            Payload::String(s) => Payload::String(s.clone()),
            Payload::List(l) => Payload::List(l.clone()),
            Payload::Compound(c) => Payload::Compound(c.clone()),
            Payload::IArray(a) => Payload::IArray(a.clone()),
            Payload::LArray(a) => Payload::LArray(a.clone()),
        };
        proof {
            lemma_body_of_containers(*self);
            lemma_body_of_containers(r);
        }
        r
    }
}

impl Clone for NBT {
    fn clone(&self) -> (r: NBT)
        ensures
            r@ == self@,
        decreases self,
    {
        NBT { name: self.name.clone(), payload: self.payload.clone() }
    }
}

impl Error {
    /// What the error says in words.
    pub open spec fn text(&self) -> Seq<char> {
        match *self {
            Error::EndOfBytes => "Reached end of byte sequence while attempting to parse!"@,
            Error::InvalidType => "Encountered an invalid opcode byte sequence."@,
            Error::InvalidListType(id) => "List cannot contain elements of type '"@ + decimal(
                id as int,
            ) + "'."@,
            Error::NegativeLength(length) => decimal(length as int)
                + " is an invalid length due to being negative."@,
            Error::ExceedsMaxNestingDepth(length) => 
                "Tag with nested tags exceeds maximum allowed nesting depth of "@
                + decimal(MAX_DEPTH_NEST as int) + ". Length of tag: "@ + decimal(length as int),
            Error::TruncatedString => "String NBT length field is invalid"@,
            Error::TruncatedPrimitive => "Unable to read a NBT value: its bytes are cut short."@,
        }
    }

    /// The error in words.
    pub fn message(&self) -> (s: String)
        ensures
            s@ == self.text(),
    {
        match self {
            Error::EndOfBytes => String::from_str(
                "Reached end of byte sequence while attempting to parse!",
            ),
            Error::InvalidType => String::from_str("Encountered an invalid opcode byte sequence."),
            Error::InvalidListType(id) => {
                let mut s = String::from_str("List cannot contain elements of type '");
                push_decimal(&mut s, *id as i64);
                s.append("'.");
                s
            },
            Error::NegativeLength(length) => {
                let mut s = String::new();
                push_decimal(&mut s, *length as i64);
                s.append(" is an invalid length due to being negative.");
                assert(s@ =~= self.text());
                s
            },
            Error::ExceedsMaxNestingDepth(length) => {
                let mut s = String::from_str(
                    "Tag with nested tags exceeds maximum allowed nesting depth of ",
                );
                push_decimal(&mut s, MAX_DEPTH_NEST as i64);
                s.append(". Length of tag: ");
                push_decimal(&mut s, *length as i64);
                s
            },
            Error::TruncatedString => String::from_str("String NBT length field is invalid"),
            Error::TruncatedPrimitive => String::from_str(
                "Unable to read a NBT value: its bytes are cut short.",
            ),
        }
    }
}

} // verus!
