use rave::nbt::query::{find_first_by_name, find_many_by_name, same_bytes, Error};
use rave::nbt::{Payload, TAGCompound, TAGList, TAGString, NBT};

fn text(s: &str) -> TAGString {
    TAGString { str: s.as_bytes().to_vec() }
}

fn end() -> NBT {
    NBT { name: text(""), payload: Payload::End }
}

fn int_tag(name: &str, v: i32) -> NBT {
    NBT { name: text(name), payload: Payload::Int(v) }
}

fn compound(name: &str, mut members: Vec<NBT>) -> NBT {
    members.push(end());
    NBT { name: text(name), payload: Payload::Compound(TAGCompound { tags: members }) }
}

fn level() -> NBT {
    compound("", vec![compound("Level", vec![int_tag("xPos", 3), int_tag("zPos", 5)])])
}

#[test]
fn search_hit_finds_the_int() {
    let found = find_many_by_name(&text("xPos"), level());
    assert_eq!(found, vec![int_tag("xPos", 3)]);
}

#[test]
fn search_no_hit_is_empty() {
    let found = find_many_by_name(&text("yPos"), level());
    assert!(found.is_empty());
}

#[test]
fn every_found_tag_bears_the_name() {
    let tree = compound(
        "r",
        vec![int_tag("a", 1), compound("b", vec![int_tag("a", 2), int_tag("c", 3)]), int_tag("a", 4)],
    );
    let found = find_many_by_name(&text("a"), tree);
    assert_eq!(found, vec![int_tag("a", 1), int_tag("a", 2), int_tag("a", 4)]);
    for tag in found.iter() {
        assert_eq!(tag.name, text("a"));
    }
}

#[test]
fn a_match_is_not_searched_further() {
    let inner = compound("a", vec![int_tag("a", 1)]);
    let tree = compound("r", vec![inner, int_tag("a", 2)]);
    let found = find_many_by_name(&text("a"), tree);
    assert_eq!(found, vec![compound("a", vec![int_tag("a", 1)]), int_tag("a", 2)]);
}

#[test]
fn the_root_itself_can_match() {
    let found = find_many_by_name(&text(""), level());
    assert_eq!(found, vec![level()]);
}

#[test]
fn compounds_in_a_list_are_searched() {
    let first = Payload::Compound(TAGCompound { tags: vec![int_tag("x", 1), end()] });
    let second = Payload::Compound(TAGCompound { tags: vec![int_tag("y", 2), int_tag("x", 3), end()] });
    let list = NBT {
        name: text("l"),
        payload: Payload::List(TAGList { id: 10, tags: vec![first, second] }),
    };
    let tree = compound("r", vec![int_tag("x", 0), list, int_tag("x", 4)]);
    let found = find_many_by_name(&text("x"), tree);
    assert_eq!(found, vec![int_tag("x", 0), int_tag("x", 1), int_tag("x", 3), int_tag("x", 4)]);
}

#[test]
fn lists_of_other_kinds_hold_no_match() {
    let inner = Payload::List(TAGList {
        id: 10,
        tags: vec![Payload::Compound(TAGCompound { tags: vec![int_tag("x", 1), end()] })],
    });
    let list = NBT {
        name: text("l"),
        payload: Payload::List(TAGList { id: 9, tags: vec![inner] }),
    };
    let ints = NBT {
        name: text("i"),
        payload: Payload::List(TAGList { id: 3, tags: vec![Payload::Int(1)] }),
    };
    let tree = compound("r", vec![list, ints]);
    assert!(find_many_by_name(&text("x"), tree).is_empty());
}

#[test]
fn a_leaf_that_does_not_match_gives_nothing() {
    assert!(find_many_by_name(&text("x"), int_tag("y", 1)).is_empty());
    assert_eq!(find_many_by_name(&text("y"), int_tag("y", 1)), vec![int_tag("y", 1)]);
}

#[test]
fn searching_twice_finds_the_same() {
    let first = find_many_by_name(&text("zPos"), level());
    let second = find_many_by_name(&text("zPos"), level());
    assert_eq!(first, second);
    assert_eq!(first, vec![int_tag("zPos", 5)]);
}

#[test]
fn find_first_gives_the_first_in_walk_order() {
    let tree = compound(
        "r",
        vec![compound("b", vec![int_tag("a", 2)]), int_tag("a", 4)],
    );
    assert_eq!(find_first_by_name(text("a"), &tree), Ok(int_tag("a", 2)));
    assert_eq!(find_first_by_name(text("r"), &tree).unwrap(), tree);
}

#[test]
fn find_first_in_a_list_of_compounds() {
    let first = Payload::Compound(TAGCompound { tags: vec![int_tag("y", 1), end()] });
    let second = Payload::Compound(TAGCompound { tags: vec![int_tag("x", 3), end()] });
    let list = NBT {
        name: text("l"),
        payload: Payload::List(TAGList { id: 10, tags: vec![first, second] }),
    };
    let tree = compound("r", vec![list, int_tag("x", 4)]);
    assert_eq!(find_first_by_name(text("x"), &tree), Ok(int_tag("x", 3)));
}

#[test]
fn find_first_without_a_match_is_not_found() {
    assert_eq!(find_first_by_name(text("yPos"), &level()), Err(Error::NotFound));
}

#[test]
fn tag_string_holds_the_utf8_bytes() {
    assert_eq!(TAGString::new("xPos"), text("xPos"));
    assert_eq!(TAGString::new("é").str, vec![0xc3, 0xa9]);
    assert!(TAGString::new("").str.is_empty());
}

#[test]
fn same_bytes_compares_bytewise() {
    assert!(same_bytes(&vec![], &vec![]));
    assert!(same_bytes(&vec![1, 2, 3], &vec![1, 2, 3]));
    assert!(!same_bytes(&vec![1, 2, 3], &vec![1, 2, 4]));
    assert!(!same_bytes(&vec![1, 2], &vec![1, 2, 3]));
}
