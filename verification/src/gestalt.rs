//! The walker over a save: every region file of the three dimensions, in
//! the order overworld, nether, end.

use crate::config::{Command, Configuration, Method};
use crate::nbt::model::Tag;
use crate::nbt::query::{find_many_by_name, matches_in};
use crate::nbt::{tags_of, TAGString, NBT};
use crate::region::report::{rendering, Account, Report};
use crate::region::{chunks_of, decode_region, Chunk, ChunkModel, Parser};
use vstd::prelude::*;
use vstd::string::StringExecFns;
use vstd::utf8::encode_utf8;

pub mod directory;

verus! {

#[derive(Debug, PartialEq, Eq)]
pub enum Error {
    Search(crate::nbt::query::Error),
    /// A directory could not be listed or a file could not be read; the
    /// words are those of the operating system.
    ReadFile(String),
    Region(Report),
    Command(String),
    Finding,
}

/// What an error says.
pub enum Trouble {
    Search(crate::nbt::query::Error),
    ReadFile(Seq<char>),
    Region(Account),
    Command(Seq<char>),
    Finding,
}

impl View for Error {
    type V = Trouble;

    open spec fn view(&self) -> Trouble {
        match *self {
            Error::Search(e) => Trouble::Search(e),
            Error::ReadFile(detail) => Trouble::ReadFile(detail@),
            Error::Region(report) => Trouble::Region(report@),
            Error::Command(detail) => Trouble::Command(detail@),
            Error::Finding => Trouble::Finding,
        }
    }
}

/// A region file as the walker is handed it: its bytes, or the words in
/// which reading it, or listing its directory, failed.
pub type FileRead = Result<Vec<u8>, String>;

/// The region files of a save as they were read, by dimension, each in the
/// order of its directory. Nothing follows a failed read.
pub struct WorldData {
    pub overworld: Vec<FileRead>,
    pub nether: Vec<FileRead>,
    pub the_end: Vec<FileRead>,
}

/// What a read file is.
pub open spec fn file_of(file: FileRead) -> Result<Seq<u8>, Seq<char>> {
    match file {
        Ok(bytes) => Ok(bytes@),
        Err(detail) => Err(detail@),
    }
}

/// What the read files of a vector are.
pub open spec fn files_of(files: Seq<FileRead>) -> Seq<Result<Seq<u8>, Seq<char>>> {
    Seq::new(files.len(), |i: int| file_of(files[i]))
}

/// The chunks of the files from `from` on, file after file, or the first
/// failure: of a read, or of the decoding of a file that was read.
pub open spec fn chunks_of_files(files: Seq<Result<Seq<u8>, Seq<char>>>, from: nat) -> Result<
    Seq<ChunkModel>,
    Trouble,
>
    decreases files.len() - from,
{
    if from >= files.len() {
        Ok(Seq::empty())
    } else {
        match files[from as int] {
            Err(detail) => Err(Trouble::ReadFile(detail)),
            Ok(bytes) => match decode_region(bytes) {
                Err(report) => Err(Trouble::Region(report)),
                Ok(chunks) => match chunks_of_files(files, from + 1) {
                    Err(e) => Err(e),
                    Ok(rest) => Ok(chunks + rest),
                },
            },
        }
    }
}

/// The chunks of a whole save: those of the overworld, then those of the
/// nether, then those of the end, or the first failure in that order.
pub open spec fn chunks_of_world(
    overworld: Seq<Result<Seq<u8>, Seq<char>>>,
    nether: Seq<Result<Seq<u8>, Seq<char>>>,
    the_end: Seq<Result<Seq<u8>, Seq<char>>>,
) -> Result<Seq<ChunkModel>, Trouble> {
    match chunks_of_files(overworld, 0) {
        Err(e) => Err(e),
        Ok(first) => match chunks_of_files(nether, 0) {
            Err(e) => Err(e),
            Ok(second) => match chunks_of_files(the_end, 0) {
                Err(e) => Err(e),
                Ok(third) => Ok(first + second + third),
            },
        },
    }
}

/// The tags named `name` in the first `upto` of `chunks`, chunk after
/// chunk.
pub open spec fn matches_in_chunks(name: Seq<u8>, chunks: Seq<ChunkModel>, upto: nat) -> Seq<Tag>
    decreases upto,
{
    if upto == 0 || upto > chunks.len() {
        Seq::empty()
    } else {
        matches_in_chunks(name, chunks, (upto - 1) as nat) + matches_in(
            name,
            chunks[upto - 1].root,
        )
    }
}

/// The number of chunks among the first `upto` of `chunks` that hold no
/// tag named `name`.
pub open spec fn misses_in_chunks(name: Seq<u8>, chunks: Seq<ChunkModel>, upto: nat) -> nat
    decreases upto,
{
    if upto == 0 || upto > chunks.len() {
        0
    } else {
        misses_in_chunks(name, chunks, (upto - 1) as nat) + if matches_in(
            name,
            chunks[upto - 1].root,
        ).len() == 0 {
            1nat
        } else {
            0nat
        }
    }
}

/// What a search of some files found.
#[derive(Debug, PartialEq, Eq)]
pub struct Findings {
    /// The tags of the name searched for, in the order of the walk.
    pub results: Vec<NBT>,
    /// The number of chunks that held none.
    pub visited_nodes: usize,
}

/// What a search found.
pub struct Found {
    pub results: Seq<Tag>,
    pub visited_nodes: nat,
}

impl View for Findings {
    type V = Found;

    open spec fn view(&self) -> Found {
        Found { results: tags_of(self.results@), visited_nodes: self.visited_nodes as nat }
    }
}

/// What a search for `name` finds in the chunks of `files`, or the failure
/// that keeps the chunks from being had.
pub open spec fn found_in_files(name: Seq<u8>, files: Seq<Result<Seq<u8>, Seq<char>>>) -> Result<
    Found,
    Trouble,
> {
    match chunks_of_files(files, 0) {
        Err(e) => Err(e),
        Ok(chunks) => Ok(
            Found {
                results: matches_in_chunks(name, chunks, chunks.len()),
                visited_nodes: misses_in_chunks(name, chunks, chunks.len()),
            },
        ),
    }
}

/// What a run gives back.
#[derive(Debug, PartialEq, Eq)]
pub enum Outcome {
    /// Every chunk of the save.
    Listed(Vec<Chunk>),
    /// What the search found in the overworld, in the nether and in the
    /// end.
    Searched(Findings, Findings, Findings),
}

/// The words of the error that comes of a search under a command that is
/// none.
pub open spec fn not_a_search() -> Seq<char> {
    "Gestalt::find() should not be called on anything but a config::Command::Search"@
}

pub struct Gestalt {}

/// The ending of a noun for `i` things.
pub fn plural(i: usize) -> (c: char)
    ensures
        c == if i == 1 {
            ' '
        } else {
            's'
        },
{
    if i == 1 {
        ' '
    } else {
        's'
    }
}

/// The chunks of the region files of one dimension, file after file, or
/// the first failure.
pub fn chunks_in_world(world: Vec<FileRead>) -> (r: Result<Vec<Chunk>, Error>)
    ensures
        match chunks_of_files(files_of(world@), 0) {
            Ok(chunks) => r matches Ok(v) && chunks_of(v@) == chunks,
            Err(e) => r matches Err(x) && x@ == e,
        },
{
    let ghost files = files_of(world@);
    let ghost all = world@;
    let mut chunks: Vec<Chunk> = Vec::new();
    assert(chunks_of(chunks@) + Seq::<ChunkModel>::empty() =~= Seq::<ChunkModel>::empty());
    for file in it: world
        invariant
            it.seq() == all,
            files == files_of(all),
            chunks_of_files(files, 0) == match chunks_of_files(files, it.index() as nat) {
                Ok(rest) => Ok(chunks_of(chunks@) + rest),
                Err(e) => Err(e),
            },
    {
        let ghost done = chunks_of(chunks@);
        let ghost at = it.index();
        assert(files[at] == file_of(file));
        let buffer: Vec<u8> = match file {
            Ok(b) => b,
            Err(e) => return Err(Error::ReadFile(e)),
        };
        let mut region: Vec<Chunk> = match Parser::new(buffer).parse() {
            Ok(r) => r,
            Err(e) => return Err(Error::Region(e)),
        };
        let ghost fresh = chunks_of(region@);
        chunks.append(&mut region);
        proof {
            assert(chunks_of(chunks@) =~= done + fresh);
            if let Ok(rest) = chunks_of_files(files, (at + 1) as nat) {
                assert(done + (fresh + rest) =~= chunks_of(chunks@) + rest);
            }
        }
    }
    assert(chunks_of(chunks@) + Seq::<ChunkModel>::empty() =~= chunks_of(chunks@));
    Ok(chunks)
}

/// The chunks of a save: those of the overworld, of the nether and of the
/// end, in this order, or the first failure.
pub fn chunks_in_bundle(world_bundle: WorldData) -> (r: Result<Vec<Chunk>, Error>)
    ensures
        match chunks_of_world(
            files_of(world_bundle.overworld@),
            files_of(world_bundle.nether@),
            files_of(world_bundle.the_end@),
        ) {
            Ok(chunks) => r matches Ok(v) && chunks_of(v@) == chunks,
            Err(e) => r matches Err(x) && x@ == e,
        },
{
    let mut chunks: Vec<Chunk> = Vec::new();
    let mut overworld: Vec<Chunk> = chunks_in_world(world_bundle.overworld)?;
    let ghost first = chunks_of(overworld@);
    chunks.append(&mut overworld);
    let mut nether: Vec<Chunk> = chunks_in_world(world_bundle.nether)?;
    let ghost second = chunks_of(nether@);
    chunks.append(&mut nether);
    let mut the_end: Vec<Chunk> = chunks_in_world(world_bundle.the_end)?;
    let ghost third = chunks_of(the_end@);
    chunks.append(&mut the_end);
    assert(chunks_of(chunks@) =~= first + second + third);
    Ok(chunks)
}

impl Gestalt {
    pub fn new(config: &Configuration) -> Gestalt {
        Gestalt {  }
    }

    /// A search that stops at the first result. It does no work yet.
    pub fn fast_find(&mut self, method: &Method) -> (r: Result<(), Error>)
        ensures
            r is Ok,
    {
        Ok(())
    }

    /// Searches the chunks of `file_list` for the name that the search
    /// command of `config` gives.
    pub fn find_nbt(&mut self, config: &Configuration, file_list: Vec<FileRead>) -> (r: Result<
        Findings,
        Error,
    >)
        requires
            config.command.chosen().is_some(),
        ensures
            match config.command.chosen().unwrap() {
                Command::Search(Method::Name(name)) => match found_in_files(
                    encode_utf8(name@),
                    files_of(file_list@),
                ) {
                    Ok(found) => r matches Ok(f) && f@ == found,
                    Err(e) => r matches Err(x) && x@ == e,
                },
                Command::List(_) => r matches Err(x) && x@ == Trouble::Command(not_a_search()),
            },
    {
        let method: &Method = match config.command.value() {
            Some(Command::Search(method)) => method,
            _ => return Err(
                Error::Command(
                    String::from_str(
                        "Gestalt::find() should not be called on anything but a config::Command::Search",
                    ),
                ),
            ),
        };
        let name: TAGString = match method {
            Method::Name(name) => TAGString::new(name.as_str()),
        };
        let region: Vec<Chunk> = chunks_in_world(file_list)?;
        let ghost chunks = chunks_of(region@);
        let ghost all = region@;
        let total: usize = region.len();
        let mut results: Vec<NBT> = Vec::new();
        let mut visited_nodes: usize = 0;
        for chunk in it: region
            invariant
                it.seq() == all,
                chunks == chunks_of(all),
                all.len() == total,
                tags_of(results@) == matches_in_chunks(name@, chunks, it.index() as nat),
                visited_nodes == misses_in_chunks(name@, chunks, it.index() as nat),
                visited_nodes <= it.index(),
        {
            let ghost sofar = tags_of(results@);
            proof {
                chunk.lemma_view();
                assert(chunks[it.index() as int] == chunk@);
            }
            let mut nbts: Vec<NBT> = find_many_by_name(&name, chunk.nbt_owned());
            if nbts.len() == 0 {
                visited_nodes += 1;
            }
            let ghost fresh = tags_of(nbts@);
            results.append(&mut nbts);
            assert(tags_of(results@) =~= sofar + fresh);
        }
        Ok(Findings { results, visited_nodes })
    }

    /// Searches the three dimensions of a save, one after the other.
    pub fn search(&mut self, config: Configuration, world: WorldData) -> (r: Result<
        Outcome,
        Error,
    >)
        requires
            config.command.chosen().is_some(),
        ensures
            searched(config, world, r),
    {
        let overworld: Findings = self.find_nbt(&config, world.overworld)?;
        let nether: Findings = self.find_nbt(&config, world.nether)?;
        let the_end: Findings = self.find_nbt(&config, world.the_end)?;
        Ok(Outcome::Searched(overworld, nether, the_end))
    }

    /// Lists every chunk of a save.
    pub fn list(&mut self, config: Configuration, world: WorldData) -> (r: Result<Outcome, Error>)
        ensures
            listed(world, r),
    {
        let chunks: Vec<Chunk> = chunks_in_bundle(world)?;
        Ok(Outcome::Listed(chunks))
    }
}

/// `r` is what a search of `world` under `config` gives: what was found in
/// each dimension, or the first failure, the overworld first and the end
/// last.
pub open spec fn searched(config: Configuration, world: WorldData, r: Result<Outcome, Error>) -> bool {
    match config.command.chosen().unwrap() {
        Command::List(_) => r matches Err(x) && x@ == Trouble::Command(not_a_search()),
        Command::Search(Method::Name(name)) => {
            let bytes = encode_utf8(name@);
            match found_in_files(bytes, files_of(world.overworld@)) {
                Err(e) => r matches Err(x) && x@ == e,
                Ok(first) => match found_in_files(bytes, files_of(world.nether@)) {
                    Err(e) => r matches Err(x) && x@ == e,
                    Ok(second) => match found_in_files(bytes, files_of(world.the_end@)) {
                        Err(e) => r matches Err(x) && x@ == e,
                        Ok(third) => r matches Ok(Outcome::Searched(a, b, c)) && a@ == first
                            && b@ == second && c@ == third,
                    },
                },
            }
        },
    }
}

/// `r` is what a listing of `world` gives: its chunks, or the first
/// failure.
pub open spec fn listed(world: WorldData, r: Result<Outcome, Error>) -> bool {
    match chunks_of_world(
        files_of(world.overworld@),
        files_of(world.nether@),
        files_of(world.the_end@),
    ) {
        Ok(chunks) => r matches Ok(Outcome::Listed(v)) && chunks_of(v@) == chunks,
        Err(e) => r matches Err(x) && x@ == e,
    }
}

/// Does what the command of `config` asks for on the region files of a
/// save: lists its chunks, or searches them for a name.
pub fn run(config: Configuration, world: WorldData) -> (r: Result<Outcome, Error>)
    requires
        config.command.chosen().is_some(),
    ensures
        match config.command.chosen().unwrap() {
            Command::List(_) => listed(world, r),
            Command::Search(_) => searched(config, world, r),
        },
{
    let mut gestalt = Gestalt::new(&config);
    let lists: bool = match config.command.value() {
        Some(Command::List(_)) => true,
        _ => false,
    };
    if lists {
        gestalt.list(config, world)
    } else {
        gestalt.search(config, world)
    }
}

impl Trouble {
    /// What the error says in words, where `lit` says of each line of a
    /// report whether colour was to be had for it.
    pub open spec fn text(&self, lit: Seq<bool>) -> Seq<char> {
        match *self {
            Trouble::Search(e) => "search: "@ + e.text(),
            Trouble::ReadFile(detail) => "reading: "@ + detail,
            Trouble::Region(report) => rendering(report, lit),
            Trouble::Command(detail) => "command: "@ + detail,
            Trouble::Finding => "query gave no results"@,
        }
    }
}

impl Error {
    /// The error in words.
    pub fn message(&self) -> (s: String)
        ensures
            exists|lit: Seq<bool>| s@ == #[trigger] self@.text(lit),
            !(self is Region) ==> s@ == self@.text(Seq::empty()),
    {
        let s: String = match self {
            Error::Search(e) => {
                let mut s = String::from_str("search: ");
                let inner: String = e.message();
                s.append(inner.as_str());
                s
            },
            Error::ReadFile(detail) => {
                let mut s = String::from_str("reading: ");
                s.append(detail.as_str());
                s
            },
            Error::Region(report) => {
                let s: String = report.render();
                proof {
                    let lit = choose|lit: Seq<bool>|
                        lit.len() == report@.responsible.len() && s@ == #[trigger] rendering(
                            report@,
                            lit,
                        );
                    assert(s@ == self@.text(lit));
                }
                return s;
            },
            Error::Command(detail) => {
                let mut s = String::from_str("command: ");
                s.append(detail.as_str());
                s
            },
            Error::Finding => String::from_str("query gave no results"),
        };
        assert(s@ == self@.text(Seq::empty()));
        s
    }
}

} // verus!
