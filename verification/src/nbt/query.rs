//! Search of a tag tree by name.

use super::model::{Body, Tag};
use super::{lemma_body_of_containers, tags_of, Payload, TAGString, NBT};
use vstd::prelude::*;
use vstd::string::StringExecFns;

verus! {

#[derive(Debug, Clone, Copy, PartialEq, Eq)]
pub enum Error {
    /// Nothing in the tree bears the name.
    NotFound,
}

impl Error {
    /// What the error says in words.
    pub open spec fn text(&self) -> Seq<char> {
        "not found"@
    }

    /// The error in words.
    pub fn message(&self) -> (s: String)
        ensures
            s@ == self.text(),
    {
        String::from_str("not found")
    }
}

/// The tags named `name` in the tree under `tag`, parents before children
/// and members in their order. A tag that bears the name is not searched
/// further; below another, the search goes on into the members of a
/// compound and into the members of each compound that is an element of a
/// list.
pub open spec fn matches_in(name: Seq<u8>, tag: Tag) -> Seq<Tag>
    decreases tag, 0nat,
{
    if tag.name == name {
        seq![tag]
    } else {
        match tag.body {
            Body::Compound(members) => matches_among(name, members, members.len()),
            Body::List { id, items } => matches_under(name, items, items.len()),
            _ => Seq::empty(),
        }
    }
}

/// The matches in the first `upto` of `members`.
pub open spec fn matches_among(name: Seq<u8>, members: Seq<Tag>, upto: nat) -> Seq<Tag>
    decreases members, upto,
{
    if upto == 0 || upto > members.len() {
        Seq::empty()
    } else {
        matches_among(name, members, (upto - 1) as nat) + matches_in(name, members[upto - 1])
    }
}

/// The matches in the members of the compounds among the first `upto` of
/// `items`.
pub open spec fn matches_under(name: Seq<u8>, items: Seq<Body>, upto: nat) -> Seq<Tag>
    decreases items, upto,
{
    if upto == 0 || upto > items.len() {
        Seq::empty()
    } else {
        matches_under(name, items, (upto - 1) as nat) + (match items[upto - 1] {
            Body::Compound(members) => matches_among(name, members, members.len()),
            _ => Seq::empty(),
        })
    }
}

/// Whether two byte strings are the same.
pub fn same_bytes(a: &Vec<u8>, b: &Vec<u8>) -> (r: bool)
    ensures
        r == (a@ == b@),
{
    if a.len() != b.len() {
        return false;
    }
    let mut i: usize = 0;
    while i < a.len()
        invariant
            i <= a.len(),
            a.len() == b.len(),
            a@.subrange(0, i as int) == b@.subrange(0, i as int),
        decreases a.len() - i,
    {
        if a[i] != b[i] {
            return false;
        }
        i += 1;
        assert(a@.subrange(0, i as int) =~= a@.subrange(0, i - 1).push(a@[i - 1]));
        assert(b@.subrange(0, i as int) =~= b@.subrange(0, i - 1).push(b@[i - 1]));
    }
    assert(a@ =~= a@.subrange(0, i as int));
    assert(b@ =~= b@.subrange(0, i as int));
    true
}

/// Moves the matches in `members` to the end of `found`.
fn collect_among(name: &TAGString, members: Vec<NBT>, found: &mut Vec<NBT>)
    ensures
        tags_of(final(found)@) == tags_of(old(found)@) + matches_among(
            name@,
            tags_of(members@),
            members@.len(),
        ),
    decreases members, 1nat,
{
    let ghost all = members@;
    let ghost before = tags_of(found@);
    assert(before + Seq::<Tag>::empty() =~= before);
    for nbt in it: members
        invariant
            it.seq() == all,
            all == members@,
            tags_of(found@) == before + matches_among(name@, tags_of(all), it.index() as nat),
    {
        let ghost sofar = matches_among(name@, tags_of(all), it.index() as nat);
        let ghost mine = matches_in(name@, nbt@);
        collect(name, nbt, found);
        assert((before + sofar) + mine =~= before + (sofar + mine));
    }
}

/// Moves the matches under `tag` to the end of `found`.
fn collect(name: &TAGString, tag: NBT, found: &mut Vec<NBT>)
    ensures
        tags_of(final(found)@) == tags_of(old(found)@) + matches_in(name@, tag@),
    decreases tag, 0nat,
{
    let ghost before = tags_of(found@);
    if same_bytes(&tag.name.str, &name.str) {
        let ghost hit = tag@;
        found.push(tag);
        assert(tags_of(found@) =~= before + seq![hit]);
    } else {
        proof {
            lemma_body_of_containers(tag.payload);
        }
        match tag.payload {
            Payload::Compound(compound) => {
                collect_among(name, compound.tags, found);
            },
            Payload::List(list) => {
                let ghost all = list.tags@;
                let ghost items = super::bodies_of(all);
                assert(before + Seq::<Tag>::empty() =~= before);
                for item in it: list.tags
                    invariant
                        it.seq() == all,
                        all == list.tags@,
                        tag.payload == Payload::List(list),
                        items == super::bodies_of(all),
                        tags_of(found@) == before + matches_under(
                            name@,
                            items,
                            it.index() as nat,
                        ),
                {
                    let ghost sofar = matches_under(name@, items, it.index() as nat);
                    proof {
                        lemma_body_of_containers(item);
                    }
                    match item {
                        Payload::Compound(compound) => {
                            let ghost mine = matches_among(
                                name@,
                                tags_of(compound.tags@),
                                compound.tags@.len(),
                            );
                            assert(decreases_to!(tag => compound.tags)) by {
                                assert(decreases_to!(tag.payload => tag.payload->List_0));
                                assert(decreases_to!(list.tags => list.tags@[it.index()]));
                                assert(decreases_to!(item => item->Compound_0));
                            }
                            collect_among(name, compound.tags, found);
                            assert((before + sofar) + mine =~= before + (sofar + mine));
                        },
                        _ => {
                            assert(sofar + Seq::<Tag>::empty() =~= sofar);
                        },
                    }
                }
            },
            _ => {
                assert(before + Seq::<Tag>::empty() =~= before);
            },
        }
    }
}

/// Every tag named `name` in the tree under `root`, in the order in which
/// a walk from the root meets them. That none is found is no error.
pub fn find_many_by_name(name: &TAGString, root: NBT) -> (found: Vec<NBT>)
    ensures
        tags_of(found@) == matches_in(name@, root@),
        forall|i: int| 0 <= i < found@.len() ==> reached(name@, root@, (#[trigger] found@[i])@),
{
    proof {
        found_tags_are_named_and_apart(name@, root@);
    }
    let mut found: Vec<NBT> = Vec::new();
    assert(tags_of(found@) + matches_in(name@, root@) =~= matches_in(name@, root@));
    collect(name, root, &mut found);
    assert forall|i: int| 0 <= i < found@.len() implies reached(
        name@,
        root@,
        (#[trigger] found@[i])@,
    ) by {
        assert(found@[i]@ == tags_of(found@)[i]);
    }
    found
}

/// The matches among fewer members come first among those of more.
proof fn lemma_among_grows(name: Seq<u8>, members: Seq<Tag>, fewer: nat, more: nat)
    requires
        fewer <= more <= members.len(),
    ensures
        matches_among(name, members, fewer).is_prefix_of(matches_among(name, members, more)),
    decreases more,
{
    if fewer < more {
        lemma_among_grows(name, members, fewer, (more - 1) as nat);
    }
}

/// The matches under fewer items come first among those under more.
proof fn lemma_under_grows(name: Seq<u8>, items: Seq<Body>, fewer: nat, more: nat)
    requires
        fewer <= more <= items.len(),
    ensures
        matches_under(name, items, fewer).is_prefix_of(matches_under(name, items, more)),
    decreases more,
{
    if fewer < more {
        lemma_under_grows(name, items, fewer, (more - 1) as nat);
    }
}

/// The first match among `members`, if there is one.
fn first_among<'a>(name: &TAGString, members: &'a Vec<NBT>) -> (r: Option<&'a NBT>)
    ensures
        match r {
            Some(t) => matches_among(name@, tags_of(members@), members@.len()).len() > 0 && t@
                == matches_among(name@, tags_of(members@), members@.len())[0],
            None => matches_among(name@, tags_of(members@), members@.len()).len() == 0,
        },
    decreases members, 1nat,
{
    let mut i: usize = 0;
    while i < members.len()
        invariant
            i <= members.len(),
            matches_among(name@, tags_of(members@), i as nat).len() == 0,
        decreases members.len() - i,
    {
        let hit: Option<&NBT> = first_in(name, &members[i]);
        if hit.is_some() {
            proof {
                lemma_among_grows(
                    name@,
                    tags_of(members@),
                    (i + 1) as nat,
                    members@.len(),
                );
            }
            return hit;
        }
        i += 1;
    }
    None
}

/// The first match under `tag`, if there is one.
fn first_in<'a>(name: &TAGString, tag: &'a NBT) -> (r: Option<&'a NBT>)
    ensures
        match r {
            Some(t) => matches_in(name@, tag@).len() > 0 && t@ == matches_in(name@, tag@)[0],
            None => matches_in(name@, tag@).len() == 0,
        },
    decreases tag, 0nat,
{
    if same_bytes(&tag.name.str, &name.str) {
        return Some(tag);
    }
    proof {
        lemma_body_of_containers(tag.payload);
    }
    match &tag.payload {
        Payload::Compound(compound) => first_among(name, &compound.tags),
        Payload::List(list) => {
            let ghost items = super::bodies_of(list.tags@);
            let mut i: usize = 0;
            while i < list.tags.len()
                invariant
                    i <= list.tags.len(),
                    tag.payload == Payload::List(*list),
                    tag@.name != name@,
                    tag@.body == (Body::List { id: list.id, items }),
                    items == super::bodies_of(list.tags@),
                    matches_under(name@, items, i as nat).len() == 0,
                decreases list.tags.len() - i,
            {
                proof {
                    lemma_body_of_containers(list.tags@[i as int]);
                }
                match &list.tags[i] {
                    Payload::Compound(compound) => {
                        assert(decreases_to!(tag => compound.tags)) by {
                            assert(decreases_to!(tag.payload => tag.payload->List_0));
                            assert(decreases_to!(list.tags => list.tags@[i as int]));
                            assert(decreases_to!(list.tags@[i as int] => list.tags@[i as int]->Compound_0));
                        }
                        let hit: Option<&NBT> = first_among(name, &compound.tags);
                        if hit.is_some() {
                            proof {
                                assert(items[i as int] == Body::Compound(
                                    tags_of(compound.tags@),
                                ));
                                assert(matches_under(name@, items, (i + 1) as nat)
                                    =~= matches_among(
                                    name@,
                                    tags_of(compound.tags@),
                                    compound.tags@.len(),
                                ));
                                lemma_under_grows(name@, items, (i + 1) as nat, items.len());
                            }
                            return hit;
                        }
                    },
                    _ => {},
                }
                i += 1;
            }
            None
        },
        _ => None,
    }
}

/// The first tag named `name` that a walk from `root` meets, or `NotFound`
/// if the tree holds none.
pub fn find_first_by_name(name: TAGString, root: &NBT) -> (r: Result<NBT, Error>)
    ensures
        match r {
            Ok(t) => matches_in(name@, root@).len() > 0 && t@ == matches_in(name@, root@)[0],
            Err(e) => e == Error::NotFound && matches_in(name@, root@).len() == 0,
        },
{
    match first_in(&name, root) {
        Some(t) => Ok(t.clone()),
        None => Err(Error::NotFound),
    }
}

/// The members of the compounds among the first `upto` of `items`, in a
/// row.
pub open spec fn members_under(items: Seq<Body>, upto: nat) -> Seq<Tag>
    decreases upto,
{
    if upto == 0 || upto > items.len() {
        Seq::empty()
    } else {
        members_under(items, (upto - 1) as nat) + (match items[upto - 1] {
            Body::Compound(members) => members,
            _ => Seq::empty(),
        })
    }
}

/// The named tags one step below `tag`: the members of a compound, and the
/// members of the compounds that a list holds.
pub open spec fn children(tag: Tag) -> Seq<Tag> {
    match tag.body {
        Body::Compound(members) => members,
        Body::List { id, items } => members_under(items, items.len()),
        _ => Seq::empty(),
    }
}

/// `chain` leads from its first tag down to its last, each tag a child of
/// the one before it, and none of them but the last may bear `name`.
pub open spec fn descent(name: Seq<u8>, chain: Seq<Tag>) -> bool {
    &&& chain.len() > 0
    &&& forall|k: int|
        0 <= k < chain.len() - 1 ==> (#[trigger] chain[k]).name != name && children(
            chain[k],
        ).contains(chain[k + 1])
}

/// `found` bears `name` and is reached from `root` through tags that do
/// not bear it.
pub open spec fn reached(name: Seq<u8>, root: Tag, found: Tag) -> bool {
    &&& found.name == name
    &&& exists|chain: Seq<Tag>| #[trigger]
        descent(name, chain) && chain[0] == root && chain.last() == found
}

proof fn lemma_contains_either<T>(a: Seq<T>, b: Seq<T>, x: T)
    requires
        a.contains(x) || b.contains(x),
    ensures
        (a + b).contains(x),
{
    if a.contains(x) {
        let i = choose|i: int| 0 <= i < a.len() && a[i] == x;
        assert((a + b)[i] == x);
    } else {
        let i = choose|i: int| 0 <= i < b.len() && b[i] == x;
        assert((a + b)[a.len() + i] == x);
    }
}

proof fn lemma_descent_below(name: Seq<u8>, top: Tag, chain: Seq<Tag>)
    requires
        descent(name, chain),
        top.name != name,
        children(top).contains(chain[0]),
    ensures
        descent(name, seq![top] + chain),
        (seq![top] + chain)[0] == top,
        (seq![top] + chain).last() == chain.last(),
{
    let longer = seq![top] + chain;
    assert forall|k: int| 0 <= k < longer.len() - 1 implies (#[trigger] longer[k]).name != name
        && children(longer[k]).contains(longer[k + 1]) by {
        if k > 0 {
            assert(longer[k] == chain[k - 1]);
            assert(longer[k + 1] == chain[k]);
        }
    }
}

proof fn lemma_chain_in(name: Seq<u8>, tag: Tag, i: int) -> (chain: Seq<Tag>)
    requires
        0 <= i < matches_in(name, tag).len(),
    ensures
        descent(name, chain),
        chain[0] == tag,
        chain.last() == matches_in(name, tag)[i],
        chain.last().name == name,
    decreases tag, 0nat,
{
    if tag.name == name {
        seq![tag]
    } else {
        match tag.body {
            Body::Compound(members) => {
                let below = lemma_chain_among(name, members, members.len(), i);
                lemma_descent_below(name, tag, below);
                seq![tag] + below
            },
            Body::List { id, items } => {
                let below = lemma_chain_under(name, items, items.len(), i);
                lemma_descent_below(name, tag, below);
                seq![tag] + below
            },
            _ => Seq::empty(),
        }
    }
}

proof fn lemma_chain_among(name: Seq<u8>, members: Seq<Tag>, upto: nat, i: int) -> (chain: Seq<
    Tag,
>)
    requires
        upto <= members.len(),
        0 <= i < matches_among(name, members, upto).len(),
    ensures
        descent(name, chain),
        members.contains(chain[0]),
        chain.last() == matches_among(name, members, upto)[i],
        chain.last().name == name,
    decreases members, upto,
{
    let earlier = matches_among(name, members, (upto - 1) as nat);
    if i < earlier.len() {
        lemma_chain_among(name, members, (upto - 1) as nat, i)
    } else {
        let chain = lemma_chain_in(name, members[upto - 1], i - earlier.len());
        assert(members[upto - 1] == chain[0]);
        chain
    }
}

proof fn lemma_chain_under(name: Seq<u8>, items: Seq<Body>, upto: nat, i: int) -> (chain: Seq<
    Tag,
>)
    requires
        upto <= items.len(),
        0 <= i < matches_under(name, items, upto).len(),
    ensures
        descent(name, chain),
        members_under(items, upto).contains(chain[0]),
        chain.last() == matches_under(name, items, upto)[i],
        chain.last().name == name,
    decreases items, upto,
{
    let earlier = matches_under(name, items, (upto - 1) as nat);
    let before = members_under(items, (upto - 1) as nat);
    if i < earlier.len() {
        let chain = lemma_chain_under(name, items, (upto - 1) as nat, i);
        lemma_contains_either(before, members_under(items, upto).skip(before.len() as int), chain[0]);
        assert(members_under(items, upto) =~= before + members_under(items, upto).skip(
            before.len() as int,
        ));
        chain
    } else {
        match items[upto - 1] {
            Body::Compound(members) => {
                let chain = lemma_chain_among(name, members, members.len(), i - earlier.len());
                lemma_contains_either(before, members, chain[0]);
                chain
            },
            _ => Seq::empty(),
        }
    }
}

/// Every tag that a search finds bears the name searched for, and is
/// reached from the root through tags that do not bear it: no tag found
/// lies below another.
pub proof fn found_tags_are_named_and_apart(name: Seq<u8>, root: Tag)
    ensures
        forall|i: int|
            0 <= i < matches_in(name, root).len() ==> reached(
                name,
                root,
                #[trigger] matches_in(name, root)[i],
            ),
{
    assert forall|i: int| 0 <= i < matches_in(name, root).len() implies reached(
        name,
        root,
        #[trigger] matches_in(name, root)[i],
    ) by {
        let chain = lemma_chain_in(name, root, i);
        assert(descent(name, chain) && chain[0] == root && chain.last() == matches_in(
            name,
            root,
        )[i]);
    }
}

/// A search is a function of the name and the tree: two searches of one
/// tree for one name find the same tags in the same order.
pub proof fn search_is_repeatable(name: Seq<u8>, root: Tag, first: Seq<Tag>, second: Seq<Tag>)
    requires
        first == matches_in(name, root),
        second == matches_in(name, root),
    ensures
        first == second,
{
}

} // verus!
