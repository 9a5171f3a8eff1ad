//! Region files: a directory of chunk locations and timestamps in the first
//! two sectors, and behind them the chunks, each a compressed tag tree.

use crate::cursor::{signed32, ByteCursor};
use crate::nbt;
use crate::nbt::grammar::{decode, field, room, unsigned_at};
use crate::nbt::model::Tag;
use crate::nbt::NBT;
use crate::text::{decimal, hex, push_decimal, push_hex};
use vstd::prelude::*;
use vstd::string::StringExecFns;

pub mod codec;
pub mod header;
pub mod report;

use codec::{inflate, zlib_inflated};
use header::{
    by_offset, present, retained, sort_chunk_data_by_location, ChunkHeaderPair, Location,
    Timestamp,
};
use report::{account_of, Account, Report};

verus! {

#[derive(Debug, PartialEq, Eq)]
pub enum Error {
    /// The directory entries could not be put in order.
    SortFailure,
    /// The first two sectors, which hold the directory, are not all there.
    Header,
    /// The length of a chunk cannot be read, is 0, or reaches past the end
    /// of the file.
    ChunkLength,
    /// The compression id of a chunk cannot be read.
    Compression,
    /// A chunk is compressed in a way that is not supported.
    CompressionType(u8),
    /// The payload of a chunk could not be decompressed.
    Decompress(u8, String),
    /// The decompressed payload of a chunk is no tag tree.
    ChunkNBT(nbt::Error),
}

/// What an error says.
pub enum Failure {
    SortFailure,
    Header,
    ChunkLength,
    Compression,
    CompressionType(u8),
    Decompress(u8, Seq<char>),
    ChunkNBT(nbt::Error),
}

impl View for Error {
    type V = Failure;

    open spec fn view(&self) -> Failure {
        match *self {
            Error::SortFailure => Failure::SortFailure,
            Error::Header => Failure::Header,
            Error::ChunkLength => Failure::ChunkLength,
            Error::Compression => Failure::Compression,
            Error::CompressionType(id) => Failure::CompressionType(id),
            Error::Decompress(id, detail) => Failure::Decompress(id, detail@),
            Error::ChunkNBT(e) => Failure::ChunkNBT(e),
        }
    }
}

impl Failure {
    /// What the error says in words.
    pub open spec fn text(&self) -> Seq<char> {
        match *self {
            Failure::SortFailure => "unable to sort chunks"@,
            Failure::Header => "unable to parse chunk directory"@,
            Failure::ChunkLength => "unable to parse chunk length"@,
            Failure::Compression => "unable to parse compression"@,
            Failure::CompressionType(id) => "invalid compression type: "@ + hex(id as nat),
            Failure::Decompress(id, detail) => "failed decompression of type "@ + decimal(
                id as int,
            ) + ": "@ + detail,
            Failure::ChunkNBT(e) => "failed parsing chunk nbt: "@ + e.text(),
        }
    }
}

impl Error {
    /// The error in words.
    pub fn message(&self) -> (s: String)
        ensures
            s@ == self@.text(),
    {
        match self {
            Error::SortFailure => String::from_str("unable to sort chunks"),
            Error::Header => String::from_str("unable to parse chunk directory"),
            Error::ChunkLength => String::from_str("unable to parse chunk length"),
            Error::Compression => String::from_str("unable to parse compression"),
            Error::CompressionType(id) => {
                let mut s = String::from_str("invalid compression type: ");
                push_hex(&mut s, *id as u64);
                s
            },
            Error::Decompress(id, detail) => {
                let mut s = String::from_str("failed decompression of type ");
                push_decimal(&mut s, *id as i64);
                s.append(": ");
                s.append(detail.as_str());
                s
            },
            Error::ChunkNBT(e) => {
                let mut s = String::from_str("failed parsing chunk nbt: ");
                let inner: String = e.message();
                s.append(inner.as_str());
                s
            },
        }
    }
}

/// The number of entries in the directory.
pub const ENTRIES: usize = 1024;

/// The number of bytes in a sector.
pub const BOUNDARY: usize = 4096;

pub const GZIP: u8 = 1;

pub const ZLIB: u8 = 2;

pub const NONE: u8 = 3;

pub const LZ4: u8 = 4;

pub const CUSTOM: u8 = 127;

/// A chunk: its directory entry and the tag tree that it holds.
#[derive(Debug, PartialEq, Eq)]
pub struct Chunk {
    hdr_pair: ChunkHeaderPair,
    root: NBT,
}

/// What a chunk is.
pub struct ChunkModel {
    pub header: ChunkHeaderPair,
    pub root: Tag,
}

impl View for Chunk {
    type V = ChunkModel;

    closed spec fn view(&self) -> ChunkModel {
        ChunkModel { header: self.hdr_pair, root: self.root@ }
    }
}

/// What the chunks of a vector are.
pub open spec fn chunks_of(chunks: Seq<Chunk>) -> Seq<ChunkModel> {
    Seq::new(chunks.len(), |i: int| chunks[i]@)
}

/// The location in entry `i` of the directory: three bytes of offset and
/// one of length.
pub open spec fn location_at(bytes: Seq<u8>, i: nat) -> Location {
    Location { offset: unsigned_at(bytes, 4 * i, 3) as u32, sector: bytes[(4 * i + 3) as int] }
}

/// The timestamp in entry `i` of the directory, which stands in the second
/// sector.
pub open spec fn timestamp_at(bytes: Seq<u8>, i: nat) -> Timestamp {
    Timestamp { entry: signed32(unsigned_at(bytes, 4096 + 4 * i, 4)) as i32 }
}

/// The directory of a file that holds its first two sectors.
pub open spec fn entries(bytes: Seq<u8>) -> Seq<ChunkHeaderPair> {
    Seq::new(
        1024,
        |i: int|
            ChunkHeaderPair {
                location: location_at(bytes, i as nat),
                timestamp: timestamp_at(bytes, i as nat),
            },
    )
}

/// The entries of the chunks of a file, in the order in which they are
/// read.
pub open spec fn reading_order(bytes: Seq<u8>) -> Seq<ChunkHeaderPair> {
    by_offset(retained(entries(bytes), 1024))
}

/// The chunk that comes of a payload once it went through the
/// decompressor: its tree if it was decompressed and decodes, else the
/// error of the step that failed.
pub open spec fn unpacked(
    header: ChunkHeaderPair,
    compression: u8,
    inflated: Result<Seq<u8>, Seq<char>>,
) -> Result<ChunkModel, Failure> {
    match inflated {
        Err(detail) => Err(Failure::Decompress(compression, detail)),
        Ok(raw) => match decode(raw) {
            Err(e) => Err(Failure::ChunkNBT(e)),
            Ok(root) => Ok(ChunkModel { header, root }),
        },
    }
}

/// The chunk of the entry `header`, or the error and the place of the
/// cursor when it struck. The chunk starts at the sector that the entry
/// names, with four bytes of length and one of compression id.
pub open spec fn decode_chunk(bytes: Seq<u8>, header: ChunkHeaderPair) -> Result<
    ChunkModel,
    (Failure, nat),
> {
    let start = header.location.offset as nat * 4096;
    if !room(bytes, start, 4) {
        Err((Failure::ChunkLength, bytes.len()))
    } else if unsigned_at(bytes, start, 4) == 0 {
        Err((Failure::ChunkLength, start + 4))
    } else if !room(bytes, start + 4, 1) {
        Err((Failure::Compression, bytes.len()))
    } else {
        let length = (unsigned_at(bytes, start, 4) - 1) as nat;
        let compression = bytes[(start + 4) as int];
        if compression != 2 {
            Err((Failure::CompressionType(compression), start + 5))
        } else if !room(bytes, start + 5, length) {
            Err((Failure::ChunkLength, start + 5))
        } else {
            match unpacked(header, compression, zlib_inflated(field(bytes, start + 5, length))) {
                Ok(chunk) => Ok(chunk),
                Err(e) => Err((e, start + 5)),
            }
        }
    }
}

/// The chunks of the entries from `from` on, or the report of the first
/// that fails.
pub open spec fn decode_chunks(bytes: Seq<u8>, headers: Seq<ChunkHeaderPair>, from: nat) -> Result<
    Seq<ChunkModel>,
    Account,
>
    decreases headers.len() - from,
{
    if from >= headers.len() {
        Ok(Seq::empty())
    } else {
        match decode_chunk(bytes, headers[from as int]) {
            Err((e, cursor)) => Err(account_of(e, bytes, cursor)),
            Ok(chunk) => match decode_chunks(bytes, headers, from + 1) {
                Err(report) => Err(report),
                Ok(rest) => Ok(seq![chunk] + rest),
            },
        }
    }
}

/// The chunks of a region file in ascending order of offset, or the report
/// of the first failure. A file without a byte holds no chunk.
pub open spec fn decode_region(bytes: Seq<u8>) -> Result<Seq<ChunkModel>, Account> {
    if bytes.len() == 0 {
        Ok(Seq::empty())
    } else if bytes.len() < 8192 {
        Err(account_of(Failure::Header, bytes, bytes.len()))
    } else {
        decode_chunks(bytes, reading_order(bytes), 0)
    }
}

/// Every entry that is retained stands for a chunk.
pub proof fn lemma_retained_present(all: Seq<ChunkHeaderPair>, upto: nat)
    ensures
        forall|i: int|
            0 <= i < retained(all, upto).len() ==> present(#[trigger] retained(all, upto)[i])
                && all.contains(retained(all, upto)[i]),
    decreases upto,
{
    if !(upto == 0 || upto > all.len()) {
        let fewer = retained(all, (upto - 1) as nat);
        let kept = retained(all, upto);
        lemma_retained_present(all, (upto - 1) as nat);
        assert(all.contains(all[upto - 1]));
        assert forall|i: int| 0 <= i < kept.len() implies present(#[trigger] kept[i])
            && all.contains(kept[i]) by {
            if i < fewer.len() {
                assert(kept[i] == fewer[i]);
            }
        }
    }
}

/// Where no entry stands for a chunk, none is retained.
pub proof fn lemma_retained_none(all: Seq<ChunkHeaderPair>, upto: nat)
    requires
        forall|i: int| 0 <= i < all.len() ==> !present(#[trigger] all[i]),
    ensures
        retained(all, upto).len() == 0,
    decreases upto,
{
    if !(upto == 0 || upto > all.len()) {
        lemma_retained_none(all, (upto - 1) as nat);
    }
}

/// The chunks that are decoded bear the entries they were asked for, in
/// their order.
pub proof fn lemma_chunks_bear_headers(bytes: Seq<u8>, headers: Seq<ChunkHeaderPair>, from: nat)
    requires
        from <= headers.len(),
    ensures
        decode_chunks(bytes, headers, from) matches Ok(chunks) ==> {
            &&& chunks.len() == headers.len() - from
            &&& forall|j: int|
                0 <= j < chunks.len() ==> (#[trigger] chunks[j]).header == headers[from + j]
        },
    decreases headers.len() - from,
{
    if from < headers.len() {
        lemma_chunks_bear_headers(bytes, headers, from + 1);
    }
}

/// The chunks of a file come in the order of its directory read by
/// ascending offset: one chunk for each offset at which the directory
/// names a chunk, under the entry written last for that offset.
pub proof fn chunks_follow_the_directory(bytes: Seq<u8>)
    requires
        bytes.len() > 0,
    ensures
        decode_region(bytes) matches Ok(chunks) ==> {
            &&& chunks.len() == reading_order(bytes).len()
            &&& forall|j: int|
                0 <= j < chunks.len() ==> (#[trigger] chunks[j]).header == reading_order(
                    bytes,
                )[j]
            &&& forall|i: int, j: int|
                0 <= i < j < chunks.len() ==> (#[trigger] chunks[i]).header.location.offset < (
                #[trigger] chunks[j]).header.location.offset
        },
{
    if bytes.len() >= 8192 {
        lemma_chunks_bear_headers(bytes, reading_order(bytes), 0);
        header::sorting_keeps_the_last_of_each_offset(retained(entries(bytes), 1024));
    }
}

/// Every chunk of a file lies behind the two sectors of the directory,
/// unless the directory itself names a chunk in its second sector.
pub proof fn chunks_lie_behind_the_directory(bytes: Seq<u8>)
    requires
        forall|i: int|
            0 <= i < 1024 && present(#[trigger] entries(bytes)[i]) ==> entries(
                bytes,
            )[i].location.offset != 1,
    ensures
        decode_region(bytes) matches Ok(chunks) ==> forall|j: int|
            0 <= j < chunks.len() ==> (#[trigger] chunks[j]).header.location.offset >= 2,
{
    if bytes.len() >= 8192 {
        let all = entries(bytes);
        let kept = retained(all, 1024);
        let order = reading_order(bytes);
        chunks_follow_the_directory(bytes);
        header::sorting_keeps_the_last_of_each_offset(kept);
        lemma_retained_present(all, 1024);
        if let Ok(chunks) = decode_region(bytes) {
            assert forall|j: int| 0 <= j < chunks.len() implies (
            #[trigger] chunks[j]).header.location.offset >= 2 by {
                let h = order[j];
                let i = choose|i: int| header::last_at_offset(kept, i) && kept[i] == h;
                assert(present(kept[i]) && all.contains(kept[i]));
                let k = choose|k: int| 0 <= k < all.len() && all[k] == kept[i];
                assert(present(entries(bytes)[k]));
            }
        }
    }
}

/// A file whose directory names no chunk holds none, and that is no error.
pub proof fn a_directory_without_chunks_gives_none(bytes: Seq<u8>)
    requires
        bytes.len() >= 8192,
        forall|i: int| 0 <= i < 1024 ==> !present(#[trigger] entries(bytes)[i]),
    ensures
        decode_region(bytes) == Ok::<Seq<ChunkModel>, Account>(Seq::empty()),
{
    lemma_retained_none(entries(bytes), 1024);
    assert(retained(entries(bytes), 1024) =~= Seq::<ChunkHeaderPair>::empty());
    assert(by_offset(Seq::<ChunkHeaderPair>::empty()) =~= Seq::<ChunkHeaderPair>::empty());
}

impl Chunk {
    pub fn new(hdr_pair: ChunkHeaderPair, root: NBT) -> (chunk: Chunk)
        ensures
            chunk@ == (ChunkModel { header: hdr_pair, root: root@ }),
            chunk.tree() == root,
    {
        Chunk { hdr_pair, root }
    }

    /// The tree as it is stored.
    pub closed spec fn tree(&self) -> NBT {
        self.root
    }

    /// The view of a chunk is its entry and the view of its tree.
    pub proof fn lemma_view(&self)
        ensures
            self@.root == self.tree()@,
    {
    }

    /// The directory entry of the chunk.
    pub fn header(&self) -> (h: ChunkHeaderPair)
        ensures
            h == self@.header,
    {
        self.hdr_pair
    }

    pub fn nbt(&self) -> (root: &NBT)
        ensures
            *root == self.tree(),
    {
        &self.root
    }

    pub fn nbt_mut(&mut self) -> (root: &mut NBT)
        ensures
            *root == old(self).tree(),
            final(self).tree() == *final(root),
            final(self)@.header == old(self)@.header,
    {
        &mut self.root
    }

    pub fn nbt_owned(self) -> (root: NBT)
        ensures
            root == self.tree(),
    {
        self.root
    }

    /// The chunk of `hdr_pair` from what the decompressor made of its
    /// payload.
    pub fn from_inflated(
        hdr_pair: ChunkHeaderPair,
        compression: u8,
        inflated: Result<Vec<u8>, String>,
    ) -> (r: Result<Chunk, Error>)
        ensures
            match unpacked(
                hdr_pair,
                compression,
                match inflated {
                    Ok(raw) => Ok(raw@),
                    Err(detail) => Err(detail@),
                },
            ) {
                Ok(chunk) => r matches Ok(c) && c@ == chunk,
                Err(e) => r matches Err(x) && x@ == e,
            },
    {
        match inflated {
            Err(detail) => Err(Error::Decompress(compression, detail)),
            Ok(nbt_data) => {
                let mut root = NBT::default();
                match nbt::Parser::new(nbt_data).parse(&mut root) {
                    Err(e) => Err(Error::ChunkNBT(e)),
                    Ok(()) => Ok(Chunk { hdr_pair, root }),
                }
            },
        }
    }
}

/// A decoder over the bytes of one region file.
pub struct Parser {
    bytes: ByteCursor,
}

impl Parser {
    /// The bytes of the file.
    pub closed spec fn data(&self) -> Seq<u8> {
        self.bytes.data()
    }

    pub fn new(bytes: Vec<u8>) -> (p: Parser)
        ensures
            p.data() == bytes@,
    {
        Parser { bytes: ByteCursor::new(bytes) }
    }

    /// Reads the locations of the directory from the start of the file.
    fn locations(&mut self) -> (r: Result<Vec<Location>, Error>)
        requires
            old(self).bytes.offset() == 0,
        ensures
            final(self).data() == old(self).data(),
            match r {
                Ok(locations) => {
                    &&& old(self).data().len() >= 4096
                    &&& final(self).bytes.offset() == 4096
                    &&& locations@.len() == 1024
                    &&& forall|i: int|
                        0 <= i < 1024 ==> #[trigger] locations@[i] == location_at(
                            old(self).data(),
                            i as nat,
                        )
                },
                Err(e) => {
                    &&& e == Error::Header
                    &&& old(self).data().len() < 4096
                    &&& final(self).bytes.offset() == old(self).data().len()
                },
            },
    {
        let ghost data = self.data();
        let mut locations: Vec<Location> = Vec::new();
        let mut i: usize = 0;
        while i < ENTRIES
            invariant
                i <= ENTRIES,
                self.data() == data,
                data == old(self).data(),
                self.bytes.offset() == 4 * i,
                4 * i <= data.len(),
                locations@.len() == i,
                forall|k: int|
                    0 <= k < i ==> #[trigger] locations@[k] == location_at(data, k as nat),
            decreases ENTRIES - i,
        {
            let offset: u32 = match self.bytes.read_u24() {
                Some(offset) => offset,
                None => return Err(Error::Header),
            };
            let sector: u8 = match self.bytes.read_u8() {
                Some(sector) => sector,
                None => return Err(Error::Header),
            };
            locations.push(Location { offset, sector });
            i += 1;
        }
        Ok(locations)
    }

    /// Reads the timestamps of the directory from the second sector.
    fn timestamps(&mut self) -> (r: Result<Vec<Timestamp>, Error>)
        requires
            old(self).bytes.offset() == 4096,
            old(self).data().len() >= 4096,
        ensures
            final(self).data() == old(self).data(),
            match r {
                Ok(timestamps) => {
                    &&& old(self).data().len() >= 8192
                    &&& final(self).bytes.offset() == 8192
                    &&& timestamps@.len() == 1024
                    &&& forall|i: int|
                        0 <= i < 1024 ==> #[trigger] timestamps@[i] == timestamp_at(
                            old(self).data(),
                            i as nat,
                        )
                },
                Err(e) => {
                    &&& e == Error::Header
                    &&& old(self).data().len() < 8192
                    &&& final(self).bytes.offset() == old(self).data().len()
                },
            },
    {
        let ghost data = self.data();
        let mut timestamps: Vec<Timestamp> = Vec::new();
        let mut i: usize = 0;
        while i < ENTRIES
            invariant
                i <= ENTRIES,
                self.data() == data,
                data == old(self).data(),
                self.bytes.offset() == 4096 + 4 * i,
                4096 + 4 * i <= data.len(),
                timestamps@.len() == i,
                forall|k: int|
                    0 <= k < i ==> #[trigger] timestamps@[k] == timestamp_at(data, k as nat),
            decreases ENTRIES - i,
        {
            let entry: i32 = match self.bytes.read_i32() {
                Some(entry) => entry,
                None => return Err(Error::Header),
            };
            timestamps.push(Timestamp { entry });
            i += 1;
        }
        Ok(timestamps)
    }

    /// Reads the chunk of `hdr_pair` at the cursor, which stands at the
    /// start of the chunk's first sector.
    fn chunk(&mut self, hdr_pair: ChunkHeaderPair) -> (r: Result<Chunk, Error>)
        requires
            old(self).bytes.offset() == hdr_pair.location.offset as nat * 4096,
        ensures
            final(self).data() == old(self).data(),
            match decode_chunk(old(self).data(), hdr_pair) {
                Ok(chunk) => r matches Ok(c) && c@ == chunk,
                Err((e, cursor)) => r matches Err(x) && x@ == e && final(self).bytes.offset()
                    == cursor,
            },
    {
        let raw_length: u32 = match self.bytes.read_u32() {
            Some(raw_length) => raw_length,
            None => return Err(Error::ChunkLength),
        };
        if raw_length == 0 {
            return Err(Error::ChunkLength);
        }
        let length: usize = (raw_length - 1) as usize;
        let compression: u8 = match self.bytes.read_u8() {
            Some(compression) => compression,
            None => return Err(Error::Compression),
        };
        match compression {
            ZLIB => {
                let inflated: Result<Vec<u8>, String> = match self.bytes.peek(length) {
                    Some(payload) => inflate(payload),
                    None => return Err(Error::ChunkLength),
                };
                Chunk::from_inflated(hdr_pair, compression, inflated)
            },
            _ => Err(Error::CompressionType(compression)),
        }
    }

    /// Decodes the file: its chunks in ascending order of offset, or the
    /// report of the first failure. Each call reads the file from its
    /// start.
    pub fn parse(&mut self) -> (r: Result<Vec<Chunk>, Report>)
        ensures
            final(self).data() == old(self).data(),
            match decode_region(old(self).data()) {
                Ok(chunks) => r matches Ok(v) && chunks_of(v@) == chunks,
                Err(report) => r matches Err(x) && x@ == report,
            },
    {
        if self.bytes.len() == 0 {
            return Ok(Vec::new());
        }
        self.bytes.seek(0);
        let locations: Vec<Location> = match self.locations() {
            Ok(locs) => locs,
            Err(e) => return Err(Report::new(e, &self.bytes)),
        };
        let timestamps: Vec<Timestamp> = match self.timestamps() {
            Ok(times) => times,
            Err(e) => return Err(Report::new(e, &self.bytes)),
        };
        let ghost data = self.data();
        let mut chunk_data: Vec<ChunkHeaderPair> = Vec::new();
        let mut i: usize = 0;
        while i < ENTRIES
            invariant
                i <= ENTRIES,
                locations@.len() == 1024,
                timestamps@.len() == 1024,
                forall|k: int|
                    0 <= k < 1024 ==> #[trigger] locations@[k] == location_at(data, k as nat),
                forall|k: int|
                    0 <= k < 1024 ==> #[trigger] timestamps@[k] == timestamp_at(data, k as nat),
                chunk_data@ == retained(entries(data), i as nat),
            decreases ENTRIES - i,
        {
            let location: Location = locations[i];
            let timestamp: Timestamp = timestamps[i];
            if location.offset != 0 && location.sector != 0 {
                chunk_data.push(ChunkHeaderPair { location, timestamp });
            }
            i += 1;
        }
        let chunk_data: Vec<ChunkHeaderPair> = sort_chunk_data_by_location(chunk_data);
        let mut chunks: Vec<Chunk> = Vec::new();
        let mut at: usize = 0;
        assert(chunks_of(chunks@) + Seq::<ChunkModel>::empty() =~= Seq::<ChunkModel>::empty());
        while at < chunk_data.len()
            invariant
                at <= chunk_data.len(),
                self.data() == data,
                data == old(self).data(),
                data.len() >= 8192,
                chunk_data@ == reading_order(data),
                decode_region(data) == match decode_chunks(data, chunk_data@, at as nat) {
                    Ok(rest) => Ok(chunks_of(chunks@) + rest),
                    Err(report) => Err(report),
                },
            decreases chunk_data.len() - at,
        {
            let data: ChunkHeaderPair = chunk_data[at];
            let offset: u64 = data.location.offset as u64 * BOUNDARY as u64;
            self.bytes.seek(offset);
            let ghost done = chunks_of(chunks@);
            match self.chunk(data) {
                Ok(chunk) => {
                    chunks.push(chunk);
                    proof {
                        assert(chunks_of(chunks@) =~= done + seq![chunk@]);
                        if let Ok(rest) = decode_chunks(
                            self.data(),
                            chunk_data@,
                            (at + 1) as nat,
                        ) {
                            assert(done + (seq![chunk@] + rest) =~= chunks_of(chunks@) + rest);
                        }
                    }
                },
                Err(e) => return Err(Report::new(e, &self.bytes)),
            }
            at += 1;
        }
        assert(chunks_of(chunks@) + Seq::<ChunkModel>::empty() =~= chunks_of(chunks@));
        Ok(chunks)
    }
}

} // verus!
