//! The directory of a region file: where each chunk lies and when it was
//! last written, and the order in which the chunks are read.

use vstd::prelude::*;

verus! {

/// Where a chunk lies: its first sector, counted from the start of the
/// file, and its length in sectors.
#[derive(Clone, Copy, Debug, PartialEq, Eq)]
pub struct Location {
    pub offset: u32,
    pub sector: u8,
}

/// When a chunk was last written, in seconds of the epoch.
#[derive(Clone, Copy, Debug, PartialEq, Eq)]
pub struct Timestamp {
    pub entry: i32,
}

/// One entry of the directory.
#[derive(Clone, Copy, Debug, PartialEq, Eq)]
pub struct ChunkHeaderPair {
    pub location: Location,
    pub timestamp: Timestamp,
}

impl Default for ChunkHeaderPair {
    /// The entry of a chunk that is absent.
    fn default() -> (h: ChunkHeaderPair)
        ensures
            h == (ChunkHeaderPair {
                location: Location { offset: 0, sector: 0 },
                timestamp: Timestamp { entry: 0 },
            }),
    {
        ChunkHeaderPair {
            location: Location { offset: 0, sector: 0 },
            timestamp: Timestamp { entry: 0 },
        }
    }
}

/// An entry stands for a chunk if neither its offset nor its length is 0.
pub open spec fn present(h: ChunkHeaderPair) -> bool {
    h.location.offset != 0 && h.location.sector != 0
}

/// The entries among the first `upto` of `entries` that stand for a chunk,
/// in their order.
pub open spec fn retained(entries: Seq<ChunkHeaderPair>, upto: nat) -> Seq<ChunkHeaderPair>
    decreases upto,
{
    if upto == 0 || upto > entries.len() {
        Seq::empty()
    } else if present(entries[upto - 1]) {
        retained(entries, (upto - 1) as nat).push(entries[upto - 1])
    } else {
        retained(entries, (upto - 1) as nat)
    }
}

/// Each entry lies at a higher offset than the one before it.
pub open spec fn ascending(pairs: Seq<ChunkHeaderPair>) -> bool {
    forall|i: int, j: int|
        0 <= i < j < pairs.len() ==> (#[trigger] pairs[i]).location.offset < (
        #[trigger] pairs[j]).location.offset
}

/// `sorted`, which ascends, with `h` put in its place: in that of the entry
/// at the same offset if there is one, else between its neighbours.
pub open spec fn placed(sorted: Seq<ChunkHeaderPair>, h: ChunkHeaderPair) -> Seq<ChunkHeaderPair>
    decreases sorted.len(),
{
    if sorted.len() == 0 {
        seq![h]
    } else if sorted.last().location.offset < h.location.offset {
        sorted.push(h)
    } else if sorted.last().location.offset == h.location.offset {
        sorted.drop_last().push(h)
    } else {
        placed(sorted.drop_last(), h).push(sorted.last())
    }
}

/// `pairs` in ascending order of offset, where of several entries at one
/// offset the last one stays.
pub open spec fn by_offset(pairs: Seq<ChunkHeaderPair>) -> Seq<ChunkHeaderPair>
    decreases pairs.len(),
{
    if pairs.len() == 0 {
        Seq::empty()
    } else {
        placed(by_offset(pairs.drop_last()), pairs.last())
    }
}

/// `pairs[i]` is the last entry of `pairs` at its offset.
pub open spec fn last_at_offset(pairs: Seq<ChunkHeaderPair>, i: int) -> bool {
    &&& 0 <= i < pairs.len()
    &&& forall|k: int|
        i < k < pairs.len() ==> (#[trigger] pairs[k]).location.offset != pairs[i].location.offset
}

/// `sorted` ascends, holds for each offset that occurs in `pairs` the last
/// entry of `pairs` at that offset, and holds nothing else.
pub open spec fn sorted_last_wins(pairs: Seq<ChunkHeaderPair>, sorted: Seq<ChunkHeaderPair>) -> bool {
    &&& ascending(sorted)
    &&& forall|j: int|
        0 <= j < sorted.len() ==> exists|i: int|
            last_at_offset(pairs, i) && pairs[i] == #[trigger] sorted[j]
    &&& forall|i: int|
        0 <= i < pairs.len() ==> exists|j: int|
            0 <= j < sorted.len() && (#[trigger] sorted[j]).location.offset == (
            #[trigger] pairs[i]).location.offset
}

/// Putting an entry in its place keeps the order, keeps every other entry
/// unless it lay at the same offset, and adds the entry itself.
pub proof fn lemma_placed(sorted: Seq<ChunkHeaderPair>, h: ChunkHeaderPair)
    requires
        ascending(sorted),
    ensures
        ascending(placed(sorted, h)),
        placed(sorted, h).contains(h),
        forall|x: ChunkHeaderPair| #[trigger]
            placed(sorted, h).contains(x) ==> x == h || (sorted.contains(x) && x.location.offset
                != h.location.offset),
        forall|x: ChunkHeaderPair| #[trigger]
            sorted.contains(x) && x.location.offset != h.location.offset ==> placed(
                sorted,
                h,
            ).contains(x),
    decreases sorted.len(),
{
    let out = placed(sorted, h);
    if sorted.len() == 0 {
        assert(out[0] == h);
    } else if sorted.last().location.offset < h.location.offset {
        assert(out[sorted.len() as int] == h);
        assert forall|x: ChunkHeaderPair| #[trigger]
            sorted.contains(x) && x.location.offset != h.location.offset implies out.contains(
            x,
        ) by {
            let i = choose|i: int| 0 <= i < sorted.len() && sorted[i] == x;
            assert(out[i] == x);
        }
    } else if sorted.last().location.offset == h.location.offset {
        assert(out[sorted.len() - 1] == h);
        assert forall|x: ChunkHeaderPair| #[trigger]
            sorted.contains(x) && x.location.offset != h.location.offset implies out.contains(
            x,
        ) by {
            let i = choose|i: int| 0 <= i < sorted.len() && sorted[i] == x;
            assert(out[i] == x);
        }
        assert forall|x: ChunkHeaderPair| #[trigger] out.contains(x) implies x == h || (
        sorted.contains(x) && x.location.offset != h.location.offset) by {
            let i = choose|i: int| 0 <= i < out.len() && out[i] == x;
            if i < sorted.len() - 1 {
                assert(sorted[i] == x);
            }
        }
    } else {
        let front = sorted.drop_last();
        let mid = placed(front, h);
        lemma_placed(front, h);
        assert forall|i: int, j: int| 0 <= i < j < out.len() implies (
        #[trigger] out[i]).location.offset < (#[trigger] out[j]).location.offset by {
            if j == out.len() - 1 {
                assert(mid.contains(out[i]));
                if out[i] != h {
                    let k = choose|k: int| 0 <= k < front.len() && front[k] == out[i];
                    assert(sorted[k] == out[i]);
                }
            }
        }
        let at = choose|i: int| 0 <= i < mid.len() && mid[i] == h;
        assert(out[at] == h);
        assert forall|x: ChunkHeaderPair| #[trigger] out.contains(x) implies x == h || (
        sorted.contains(x) && x.location.offset != h.location.offset) by {
            let i = choose|i: int| 0 <= i < out.len() && out[i] == x;
            if i < mid.len() {
                assert(mid.contains(x));
                if x != h {
                    let k = choose|k: int| 0 <= k < front.len() && front[k] == x;
                    assert(sorted[k] == x);
                }
            } else {
                assert(sorted[sorted.len() - 1] == x);
            }
        }
        assert forall|x: ChunkHeaderPair| #[trigger]
            sorted.contains(x) && x.location.offset != h.location.offset implies out.contains(
            x,
        ) by {
            let i = choose|i: int| 0 <= i < sorted.len() && sorted[i] == x;
            if i < front.len() {
                assert(front[i] == x);
                assert(front.contains(x));
                let k = choose|k: int| 0 <= k < mid.len() && mid[k] == x;
                assert(out[k] == x);
            } else {
                assert(out[out.len() - 1] == x);
            }
        }
    }
}

proof fn lemma_sorted_ascends(pairs: Seq<ChunkHeaderPair>)
    ensures
        ascending(by_offset(pairs)),
    decreases pairs.len(),
{
    if pairs.len() > 0 {
        lemma_sorted_ascends(pairs.drop_last());
        lemma_placed(by_offset(pairs.drop_last()), pairs.last());
    }
}

/// The place in `pairs` from which the entry at `j` of the sorted sequence
/// comes.
proof fn lemma_sorted_from_last(pairs: Seq<ChunkHeaderPair>, j: int) -> (i: int)
    requires
        0 <= j < by_offset(pairs).len(),
    ensures
        last_at_offset(pairs, i),
        pairs[i] == by_offset(pairs)[j],
    decreases pairs.len(),
{
    let out = by_offset(pairs);
    let front = pairs.drop_last();
    let h = pairs.last();
    let prev = by_offset(front);
    let x = out[j];
    lemma_sorted_ascends(front);
    lemma_placed(prev, h);
    assert(out.contains(x));
    if x == h {
        pairs.len() - 1
    } else {
        assert(prev.contains(x) && x.location.offset != h.location.offset);
        let k = choose|k: int| 0 <= k < prev.len() && prev[k] == x;
        let i = lemma_sorted_from_last(front, k);
        assert forall|m: int| i < m < pairs.len() implies (
        #[trigger] pairs[m]).location.offset != pairs[i].location.offset by {
            if m < front.len() {
                assert(front[m] == pairs[m]);
            }
        }
        i
    }
}

/// The place in the sorted sequence of the offset of `pairs[i]`.
proof fn lemma_sorted_covers(pairs: Seq<ChunkHeaderPair>, i: int) -> (j: int)
    requires
        0 <= i < pairs.len(),
    ensures
        0 <= j < by_offset(pairs).len(),
        by_offset(pairs)[j].location.offset == pairs[i].location.offset,
    decreases pairs.len(),
{
    let out = by_offset(pairs);
    let front = pairs.drop_last();
    let h = pairs.last();
    let prev = by_offset(front);
    lemma_sorted_ascends(front);
    lemma_placed(prev, h);
    if pairs[i].location.offset == h.location.offset {
        choose|j: int| 0 <= j < out.len() && out[j] == h
    } else {
        let k = lemma_sorted_covers(front, i);
        assert(prev.contains(prev[k]));
        assert(out.contains(prev[k]));
        choose|j: int| 0 <= j < out.len() && out[j] == prev[k]
    }
}

/// Sorting by offset gives an ascending sequence that holds, for each
/// offset that occurs, the entry written last at that offset, and nothing
/// else.
pub proof fn sorting_keeps_the_last_of_each_offset(pairs: Seq<ChunkHeaderPair>)
    ensures
        sorted_last_wins(pairs, by_offset(pairs)),
{
    let out = by_offset(pairs);
    lemma_sorted_ascends(pairs);
    assert forall|j: int| 0 <= j < out.len() implies exists|i: int|
        last_at_offset(pairs, i) && pairs[i] == #[trigger] out[j] by {
        let i = lemma_sorted_from_last(pairs, j);
    }
    assert forall|i: int| 0 <= i < pairs.len() implies exists|j: int|
        0 <= j < out.len() && (#[trigger] out[j]).location.offset == (
        #[trigger] pairs[i]).location.offset by {
        let j = lemma_sorted_covers(pairs, i);
    }
}

/// Entries that ascend are in their sorted order already: to sort what was
/// sorted changes nothing.
pub proof fn sorting_twice_changes_nothing(pairs: Seq<ChunkHeaderPair>)
    ensures
        ascending(pairs) ==> by_offset(pairs) == pairs,
        by_offset(by_offset(pairs)) == by_offset(pairs),
{
    lemma_sorted_stays(pairs);
    sorting_keeps_the_last_of_each_offset(pairs);
    lemma_sorted_stays(by_offset(pairs));
}

proof fn lemma_sorted_stays(pairs: Seq<ChunkHeaderPair>)
    ensures
        ascending(pairs) ==> by_offset(pairs) == pairs,
    decreases pairs.len(),
{
    if ascending(pairs) && pairs.len() > 0 {
        let front = pairs.drop_last();
        lemma_sorted_stays(front);
        if front.len() > 0 {
            assert(front.last() == pairs[front.len() - 1]);
        }
        assert(front.push(pairs.last()) =~= pairs);
    }
}

/// Puts `h` in its place in `sorted`.
fn place(sorted: &mut Vec<ChunkHeaderPair>, h: ChunkHeaderPair)
    ensures
        final(sorted)@ == placed(old(sorted)@, h),
{
    let ghost whole = sorted@;
    let mut at: usize = sorted.len();
    assert(whole.subrange(0, at as int) =~= whole);
    assert(placed(whole, h) + whole.subrange(at as int, whole.len() as int) =~= placed(whole, h));
    while at > 0 && sorted[at - 1].location.offset > h.location.offset
        invariant
            at <= sorted.len(),
            sorted@ == whole,
            placed(whole, h) == placed(whole.subrange(0, at as int), h) + whole.subrange(
                at as int,
                whole.len() as int,
            ),
        decreases at,
    {
        let ghost upper = whole.subrange(0, at as int);
        at -= 1;
        proof {
            assert(upper.drop_last() =~= whole.subrange(0, at as int));
            assert(placed(upper, h) == placed(whole.subrange(0, at as int), h).push(
                upper.last(),
            ));
            assert(placed(whole.subrange(0, at as int), h).push(upper.last()) + whole.subrange(
                at + 1,
                whole.len() as int,
            ) =~= placed(whole.subrange(0, at as int), h) + whole.subrange(
                at as int,
                whole.len() as int,
            ));
        }
    }
    let ghost lower = whole.subrange(0, at as int);
    if at > 0 && sorted[at - 1].location.offset == h.location.offset {
        sorted.set(at - 1, h);
        assert(sorted@ =~= lower.drop_last().push(h) + whole.subrange(
            at as int,
            whole.len() as int,
        ));
    } else {
        sorted.insert(at, h);
        assert(sorted@ =~= lower.push(h) + whole.subrange(at as int, whole.len() as int));
        assert(lower.len() == 0 ==> lower.push(h) =~= seq![h]);
    }
}

/// The entries in ascending order of offset; of several at one offset the
/// last one stays.
pub fn sort_chunk_data_by_location(data: Vec<ChunkHeaderPair>) -> (r: Vec<ChunkHeaderPair>)
    ensures
        r@ == by_offset(data@),
        sorted_last_wins(data@, r@),
{
    let mut chunk_data: Vec<ChunkHeaderPair> = Vec::new();
    let mut i: usize = 0;
    assert(data@.subrange(0, 0) =~= Seq::<ChunkHeaderPair>::empty());
    while i < data.len()
        invariant
            i <= data.len(),
            chunk_data@ == by_offset(data@.subrange(0, i as int)),
        decreases data.len() - i,
    {
        place(&mut chunk_data, data[i]);
        i += 1;
        assert(data@.subrange(0, i as int).drop_last() =~= data@.subrange(0, i - 1));
    }
    assert(data@.subrange(0, i as int) =~= data@);
    proof {
        sorting_keeps_the_last_of_each_offset(data@);
    }
    chunk_data
}

} // verus!
