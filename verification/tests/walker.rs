use flate2::write::ZlibEncoder;
use flate2::Compression;
use rave::config::{Command, Configuration, Index, Method, Scope, Value};
use rave::gestalt::directory::region_files;
use rave::gestalt::{
    chunks_in_bundle, chunks_in_world, plural, run, Error, FileRead, Gestalt, Outcome, WorldData,
};
use rave::nbt::{Payload, TAGString, NBT};
use rave::region::Error as RegionError;
use std::io::Write;

fn zlib(data: &[u8]) -> Vec<u8> {
    let mut encoder = ZlibEncoder::new(Vec::new(), Compression::default());
    encoder.write_all(data).unwrap();
    encoder.finish().unwrap()
}

/// The bytes of `{"": {<name>: <value> as int}}`.
fn tree(name: &str, value: i32) -> Vec<u8> {
    let mut raw = vec![10, 0, 0, 3];
    raw.extend_from_slice(&(name.len() as u16).to_be_bytes());
    raw.extend_from_slice(name.as_bytes());
    raw.extend_from_slice(&value.to_be_bytes());
    raw.push(0);
    raw
}

/// A region file with one chunk for each tree, from sector 2 on.
fn region(trees: &[Vec<u8>]) -> Vec<u8> {
    let mut file = vec![0u8; 8192 + 4096 * trees.len()];
    for (i, raw) in trees.iter().enumerate() {
        let offset = 2 + i;
        file[4 * i + 2] = offset as u8;
        file[4 * i + 3] = 1;
        let payload = zlib(raw);
        let at = offset * 4096;
        file[at..at + 4].copy_from_slice(&(payload.len() as u32 + 1).to_be_bytes());
        file[at + 4] = 2;
        file[at + 5..at + 5 + payload.len()].copy_from_slice(&payload);
    }
    file
}

fn config(command: Value<Command>) -> Configuration {
    Configuration { command, save_root: Value::User(String::from("/saves/w")), index: Value::Unset }
}

fn search(name: &str) -> Configuration {
    config(Value::User(Command::Search(Method::Name(String::from(name)))))
}

fn int_tag(name: &str, v: i32) -> NBT {
    NBT { name: TAGString { str: name.as_bytes().to_vec() }, payload: Payload::Int(v) }
}

fn world() -> WorldData {
    WorldData {
        overworld: vec![Ok(region(&[tree("x", 1), tree("y", 2)])), Ok(region(&[tree("x", 3)]))],
        nether: vec![Ok(Vec::new())],
        the_end: vec![Ok(region(&[tree("y", 4)]))],
    }
}

#[test]
fn value_gives_what_is_set() {
    assert_eq!(Value::User(3).value(), Some(&3));
    assert_eq!(Value::Default(4).value(), Some(&4));
    assert_eq!(Value::<u8>::Unset.value(), None);
}

#[test]
fn region_files_lie_below_the_root() {
    let bundle = region_files(&config(Value::Default(Command::List(Scope::All))));
    assert_eq!(bundle.overworld, vec![String::from("/saves/w/region")]);
    assert_eq!(bundle.nether, vec![String::from("/saves/w/DIM-1/region")]);
    assert_eq!(bundle.the_end, vec![String::from("/saves/w/DIM1/region")]);
}

#[test]
fn plural_is_s_but_for_one() {
    assert_eq!(plural(0), 's');
    assert_eq!(plural(1), ' ');
    assert_eq!(plural(2), 's');
}

#[test]
fn chunks_of_a_dimension_come_file_after_file() {
    let files: Vec<FileRead> = world().overworld;
    let chunks = chunks_in_world(files).ok().unwrap();
    assert_eq!(chunks.len(), 3);
    let names: Vec<i32> = chunks
        .iter()
        .map(|c| match &c.nbt().payload {
            Payload::Compound(c) => match c.tags[0].payload {
                Payload::Int(v) => v,
                _ => -1,
            },
            _ => -1,
        })
        .collect();
    assert_eq!(names, vec![1, 2, 3]);
}

#[test]
fn a_failed_read_is_a_read_file_error() {
    let files: Vec<FileRead> = vec![Ok(region(&[tree("x", 1)])), Err(String::from("denied"))];
    match chunks_in_world(files) {
        Err(Error::ReadFile(detail)) => assert_eq!(detail, "denied"),
        _ => panic!("no read error"),
    }
}

#[test]
fn the_first_failure_in_file_order_wins() {
    let files: Vec<FileRead> = vec![Ok(vec![0u8; 10]), Err(String::from("denied"))];
    match chunks_in_world(files) {
        Err(Error::Region(report)) => assert_eq!(report.err, RegionError::Header),
        _ => panic!("no region error"),
    }
}

#[test]
fn bundle_goes_overworld_nether_end() {
    let chunks = chunks_in_bundle(world()).ok().unwrap();
    assert_eq!(chunks.len(), 4);
    let mut bad = world();
    bad.nether = vec![Err(String::from("no nether"))];
    bad.the_end = vec![Err(String::from("no end"))];
    match chunks_in_bundle(bad) {
        Err(Error::ReadFile(detail)) => assert_eq!(detail, "no nether"),
        _ => panic!("no read error"),
    }
}

#[test]
fn run_lists_every_chunk() {
    match run(config(Value::Default(Command::List(Scope::All))), world()) {
        Ok(Outcome::Listed(chunks)) => assert_eq!(chunks.len(), 4),
        _ => panic!("no listing"),
    }
    match run(config(Value::User(Command::List(Scope::Region))), world()) {
        Ok(Outcome::Listed(chunks)) => assert_eq!(chunks.len(), 4),
        _ => panic!("no listing"),
    }
}

#[test]
fn run_searches_each_dimension() {
    match run(search("x"), world()) {
        Ok(Outcome::Searched(overworld, nether, the_end)) => {
            assert_eq!(overworld.results, vec![int_tag("x", 1), int_tag("x", 3)]);
            assert_eq!(overworld.visited_nodes, 1);
            assert!(nether.results.is_empty());
            assert_eq!(nether.visited_nodes, 0);
            assert!(the_end.results.is_empty());
            assert_eq!(the_end.visited_nodes, 1);
        }
        _ => panic!("no search"),
    }
}

#[test]
fn search_fails_on_the_first_dimension_that_fails() {
    let mut bad = world();
    bad.overworld.push(Err(String::from("gone")));
    bad.nether = vec![Ok(vec![1])];
    match run(search("x"), bad) {
        Err(Error::ReadFile(detail)) => assert_eq!(detail, "gone"),
        _ => panic!("no read error"),
    }
}

#[test]
fn find_nbt_under_a_list_command_is_a_command_error() {
    let mut gestalt = Gestalt::new(&search("x"));
    let listing = config(Value::Default(Command::List(Scope::All)));
    match gestalt.find_nbt(&listing, Vec::new()) {
        Err(Error::Command(detail)) => assert_eq!(
            detail,
            "Gestalt::find() should not be called on anything but a config::Command::Search"
        ),
        _ => panic!("no command error"),
    }
    assert!(gestalt.fast_find(&Method::Name(String::from("x"))).is_ok());
}

#[test]
fn search_names_are_compared_as_utf8_bytes() {
    let files: Vec<FileRead> = vec![Ok(region(&[tree("é", 1), tree("e", 2)]))];
    let mut gestalt = Gestalt::new(&search("é"));
    let found = gestalt.find_nbt(&search("é"), files).ok().unwrap();
    assert_eq!(found.results, vec![int_tag("é", 1)]);
    assert_eq!(found.visited_nodes, 1);
}

#[test]
fn index_and_scope_are_plain_choices() {
    let c = Configuration {
        command: Value::Default(Command::List(Scope::Region)),
        save_root: Value::Unset,
        index: Value::User(Index::Value(3)),
    };
    assert!(matches!(c.index.value(), Some(Index::Value(3))));
    assert!(matches!(c.command.value(), Some(Command::List(Scope::Region))));
    assert!(c.save_root.value().is_none());
    assert!(matches!(Value::User(Index::First).value(), Some(Index::First)));
    assert!(matches!(Value::User(Index::All).value(), Some(Index::All)));
}

#[test]
fn engine_accepts_a_search() {
    assert!(rave::engine::run(search("x")).is_ok());
    let mut engine = rave::engine::Engine::new(&search("x"));
    assert!(engine.search(search("y")).is_ok());
}
