//! The mathematical picture of a tag tree: what a decoded tree is, apart
//! from how it is stored.

use vstd::prelude::*;

verus! {

/// What a tag carries, by kind.
pub enum Body {
    End,
    Byte(i8),
    Short(i16),
    Int(i32),
    Long(i64),
    /// The IEEE-754 bit pattern of a 32-bit float.
    Float(u32),
    /// The IEEE-754 bit pattern of a 64-bit float.
    Double(u64),
    BArray(Seq<u8>),
    String(Seq<u8>),
    List { id: u8, items: Seq<Body> },
    Compound(Seq<Tag>),
    IArray(Seq<i32>),
    LArray(Seq<i64>),
}

/// A named tag.
pub struct Tag {
    pub name: Seq<u8>,
    pub body: Body,
}

/// The type id under which a body is written.
pub open spec fn id_of(body: Body) -> u8 {
    match body {
        Body::End => 0,
        Body::Byte(_) => 1,
        Body::Short(_) => 2,
        Body::Int(_) => 3,
        Body::Long(_) => 4,
        Body::Float(_) => 5,
        Body::Double(_) => 6,
        Body::BArray(_) => 7,
        Body::String(_) => 8,
        Body::List { .. } => 9,
        Body::Compound(_) => 10,
        Body::IArray(_) => 11,
        Body::LArray(_) => 12,
    }
}

/// A compound's members end with an End tag and hold no other.
pub open spec fn closed_by_end(members: Seq<Tag>) -> bool {
    &&& members.len() > 0
    &&& members.last().body is End
    &&& forall|i: int| 0 <= i < members.len() - 1 ==> !((#[trigger] members[i]).body is End)
}

/// Every element of a list with a nonzero element id is of that kind.
pub open spec fn uniform(id: u8, items: Seq<Body>) -> bool {
    id > 0 ==> forall|i: int| 0 <= i < items.len() ==> id_of(#[trigger] items[i]) == id
}

/// Every compound in `body` is closed by its one End tag, and every list in
/// it is uniform.
pub open spec fn sound_body(body: Body) -> bool
    decreases body,
{
    match body {
        Body::List { id, items } => {
            &&& uniform(id, items)
            &&& forall|i: int| 0 <= i < items.len() ==> sound_body(#[trigger] items[i])
        },
        Body::Compound(members) => {
            &&& closed_by_end(members)
            &&& forall|i: int| 0 <= i < members.len() ==> sound_body((#[trigger] members[i]).body)
        },
        _ => true,
    }
}

/// The same, of a named tag.
pub open spec fn sound(tag: Tag) -> bool {
    sound_body(tag.body)
}

} // verus!
