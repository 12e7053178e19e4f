//! What changed in a lane since subscribers last saw it.
use crate::bucket::PackedBucket;
use crate::config::CkfBuildError;
use crate::memory::{try_room, vec_capacity};
use crate::mutator::Write;
use vstd::prelude::*;
#[allow(unused_imports)]
use crate::memory::room_refused;

verus! {

/// Bits of one bitmap word.
pub const WORD_BITS: usize = 64;

/// Words of a bitmap with one bit per bucket.
pub open spec fn word_count(bucket_count: int) -> int {
    (bucket_count + 63) / 64
}

/// Whether the room for a part of a window over so many buckets was refused.
pub open spec fn window_room_refused(bucket_count: usize) -> bool {
    ||| room_refused::<u64>(word_count(bucket_count as int) as usize)
    ||| room_refused::<usize>(bucket_count)
    ||| room_refused::<u64>(bucket_count)
}

/// One bit of a bitmap.
pub open spec fn bit_at(words: Seq<u64>, index: usize) -> bool {
    words[index as int / 64] & (1u64 << ((index % 64) as u64)) != 0
}

/// Whether a bucket is among the touched ones.
pub open spec fn touches(touched: Seq<Write>, bucket: usize) -> bool {
    exists|i: int| 0 <= i < touched.len() && #[trigger] touched[i].0 == bucket
}

/// The touched buckets after one more write: only the first write to a bucket
/// says what was published.
pub open spec fn marked(touched: Seq<Write>, write: Write) -> Seq<Write> {
    if touches(touched, write.0) {
        touched
    } else {
        touched.push(write)
    }
}

/// The touched buckets after a run of writes.
pub open spec fn marked_all(touched: Seq<Write>, writes: Seq<Write>) -> Seq<Write>
    decreases writes.len(),
{
    if writes.len() == 0 {
        touched
    } else {
        marked(marked_all(touched, writes.drop_last()), writes.last())
    }
}

/// No bucket is touched twice.
pub open spec fn distinct(touched: Seq<Write>) -> bool {
    forall|i: int, j: int|
        0 <= i < j < touched.len() ==> #[trigger] touched[i].0 != #[trigger] touched[j].0
}

/// Every touched bucket lies in the lane.
pub open spec fn in_lane(touched: Seq<Write>, bucket_count: int) -> bool {
    forall|i: int| 0 <= i < touched.len() ==> (#[trigger] touched[i]).0 < bucket_count
}

/// The word that subscribers last saw in a bucket.
pub open spec fn published_word(lane: Seq<u64>, touched: Seq<Write>, bucket: int) -> u64 {
    if touches(touched, bucket as usize) {
        let i = choose|i: int| 0 <= i < touched.len() && #[trigger] touched[i].0 == bucket as usize;
        touched[i].1
    } else {
        lane[bucket]
    }
}

/// The lane that subscribers last saw: touched buckets as they were, all
/// others as they are.
pub open spec fn published(lane: Seq<u64>, touched: Seq<Write>) -> Seq<u64> {
    Seq::new(lane.len(), |bucket: int| published_word(lane, touched, bucket))
}

/// The published word of a touched bucket is the one recorded for it.
pub proof fn lemma_published_word(lane: Seq<u64>, touched: Seq<Write>, i: int)
    requires
        distinct(touched),
        0 <= i < touched.len(),
    ensures
        touches(touched, touched[i].0),
        published_word(lane, touched, touched[i].0 as int) == touched[i].1,
{
    let bucket = touched[i].0;
    let j = choose|j: int| 0 <= j < touched.len() && #[trigger] touched[j].0 == bucket;
    assert(touched[i].0 == bucket);
    if i < j {
        assert(touched[i].0 != touched[j].0);
    } else if j < i {
        assert(touched[j].0 != touched[i].0);
    }
}

/// No more buckets are touched than the lane has.
pub proof fn lemma_touched_at_most_all(touched: Seq<Write>, bucket_count: int)
    requires
        distinct(touched),
        in_lane(touched, bucket_count),
        0 <= bucket_count,
    ensures
        touched.len() <= bucket_count,
{
    let buckets = touched.map_values(|write: Write| write.0 as int);
    assert(buckets.no_duplicates()) by {
        assert forall|i: int, j: int|
            0 <= i < buckets.len() && 0 <= j < buckets.len() && i != j implies buckets[i]
            != buckets[j] by {
            if i < j {
                assert(touched[i].0 != touched[j].0);
            } else {
                assert(touched[j].0 != touched[i].0);
            }
        }
    }
    let all = vstd::set_lib::set_int_range(0, bucket_count);
    vstd::set_lib::lemma_int_range(0, bucket_count);
    buckets.unique_seq_to_set();
    assert forall|bucket: int| buckets.to_set().contains(bucket) implies all.contains(bucket) by {
        let i = choose|i: int| 0 <= i < buckets.len() && buckets[i] == bucket;
        assert(touched[i].0 < bucket_count);
    }
    vstd::set_lib::lemma_len_subset(buckets.to_set(), all);
}

/// Recording a write keeps the published lane.
pub proof fn lemma_marked(lane: Seq<u64>, touched: Seq<Write>, bucket: usize, value: u64)
    requires
        lane.len() <= usize::MAX,
        distinct(touched),
        in_lane(touched, lane.len() as int),
        bucket < lane.len(),
    ensures
        distinct(marked(touched, (bucket, lane[bucket as int]))),
        in_lane(marked(touched, (bucket, lane[bucket as int])), lane.len() as int),
        published(
            lane.update(bucket as int, value),
            marked(touched, (bucket, lane[bucket as int])),
        ) == published(lane, touched),
{
    let after = marked(touched, (bucket, lane[bucket as int]));
    let lane_after = lane.update(bucket as int, value);
    assert forall|place: int| 0 <= place < lane.len() implies #[trigger] published_word(
        lane_after,
        after,
        place,
    ) == published_word(lane, touched, place) by {
        if touches(touched, place as usize) {
            let i = choose|i: int|
                0 <= i < touched.len() && #[trigger] touched[i].0 == place as usize;
            assert(after[i] == touched[i]);
            lemma_published_word(lane, touched, i);
            lemma_published_word(lane_after, after, i);
        } else if place == bucket {
            let last = after.len() - 1;
            assert(after[last] == (bucket, lane[bucket as int]));
            lemma_published_word(lane_after, after, last);
        } else if touches(after, place as usize) {
            let i = choose|i: int| 0 <= i < after.len() && #[trigger] after[i].0 == place as usize;
            if i < touched.len() {
                assert(touched[i].0 == place as usize);
            }
            assert(false);
        }
    }
    assert(published(lane_after, after) =~= published(lane, touched));
}

/// With nothing touched, subscribers have seen the lane as it is.
pub proof fn lemma_published_untouched(lane: Seq<u64>)
    ensures
        published(lane, Seq::empty()) == lane,
{
    assert(published(lane, Seq::empty()) =~= lane);
}

/// Bytes that dirty tracking takes, for given sizes of its parts; a sum that a
/// `usize` cannot hold counts as the largest one.
pub open spec fn tracking_bytes(words: int, bucket_room: int, original_room: int) -> int {
    let bytes = words * 8 + bucket_room * vstd::layout::size_of::<usize>() + original_room * 8;
    if bytes > usize::MAX {
        usize::MAX as int
    } else {
        bytes
    }
}

/// Computes the bytes that dirty tracking takes, for given sizes of its parts.
pub fn tracking_byte_len(words: usize, bucket_room: usize, original_room: usize) -> (bytes: usize)
    ensures
        bytes == tracking_bytes(words as int, bucket_room as int, original_room as int),
{
    broadcast use vstd::layout::layout_of_primitives;

    let index_size: usize = core::mem::size_of::<usize>();
    assert(index_size <= 8);
    assert(bucket_room * index_size <= usize::MAX * 8) by (nonlinear_arith)
        requires
            bucket_room <= usize::MAX,
            index_size <= 8,
    ;
    let index_bytes: u128 = bucket_room as u128 * index_size as u128;
    let bytes: u128 = words as u128 * 8 + index_bytes + original_room as u128 * 8;
    if bytes > usize::MAX as u128 {
        usize::MAX
    } else {
        bytes as usize
    }
}

/// The buckets touched since the last publication, each with the word that was
/// published.
#[derive(Debug)]
pub struct DirtyWindow {
    bucket_count: usize,
    words: Vec<u64>,
    buckets: Vec<usize>,
    originals: Vec<u64>,
}

impl View for DirtyWindow {
    type V = Seq<Write>;

    /// The touched buckets with their published words, in order of first
    /// touch.
    closed spec fn view(&self) -> Seq<Write> {
        Seq::new(self.buckets@.len(), |i: int| (self.buckets@[i], self.originals@[i]))
    }
}

impl DirtyWindow {
    /// The bitmap, the list of buckets and the list of words agree.
    pub closed spec fn wf(self) -> bool {
        &&& self.words@.len() == word_count(self.bucket_count as int)
        &&& self.buckets@.len() == self.originals@.len()
        &&& distinct(self@)
        &&& in_lane(self@, self.bucket_count as int)
        &&& forall|bucket: usize|
            bucket < self.bucket_count ==> #[trigger] bit_at(self.words@, bucket) == touches(
                self@,
                bucket,
            )
    }

    /// Buckets of the lane that the window watches.
    pub closed spec fn bucket_count(self) -> usize {
        self.bucket_count
    }

    /// What well-formedness means for the touched buckets.
    pub proof fn lemma_wf(self)
        requires
            self.wf(),
        ensures
            distinct(self@),
            in_lane(self@, self.bucket_count() as int),
    {
    }

    /// A window over `bucket_count` untouched buckets, unless the allocator
    /// refuses it.
    pub fn new(bucket_count: usize) -> (result: Result<Self, CkfBuildError>)
        ensures
            match result {
                Ok(window) => {
                    &&& window.wf()
                    &&& window.bucket_count() == bucket_count
                    &&& window@ == Seq::<Write>::empty()
                },
                Err(error) => error == CkfBuildError::AllocationFailed && window_room_refused(
                    bucket_count,
                ),
            },
    {
        let mut words: Vec<u64> = Vec::new();
        if !try_room(&mut words, Self::words_needed(bucket_count)) {
            return Err(CkfBuildError::AllocationFailed);
        }
        let mut buckets: Vec<usize> = Vec::new();
        let mut originals: Vec<u64> = Vec::new();
        if !try_room(&mut buckets, bucket_count) {
            return Err(CkfBuildError::AllocationFailed);
        }
        if !try_room(&mut originals, bucket_count) {
            return Err(CkfBuildError::AllocationFailed);
        }
        Ok(Self::over(bucket_count, words, buckets, originals))
    }

    /// A window over `bucket_count` untouched buckets in memory that was
    /// granted for it.
    pub fn over(
        bucket_count: usize,
        words: Vec<u64>,
        buckets: Vec<usize>,
        originals: Vec<u64>,
    ) -> (window: Self)
        requires
            words@.len() == 0,
            buckets@.len() == 0,
            originals@.len() == 0,
        ensures
            window.wf(),
            window.bucket_count() == bucket_count,
            window@ == Seq::<Write>::empty(),
    {
        let mut words: Vec<u64> = words;
        words.resize(Self::words_needed(bucket_count), 0);
        let window = DirtyWindow { bucket_count, words, buckets, originals };
        proof {
            assert(window@ =~= Seq::<Write>::empty());
            assert forall|bucket: usize| bucket < bucket_count implies #[trigger] bit_at(
                window.words@,
                bucket,
            ) == touches(window@, bucket) by {
                let word = window.words@[bucket as int / 64];
                let shift = (bucket % 64) as u64;
                assert(word == 0);
                assert(word & (1u64 << shift) == 0) by (bit_vector)
                    requires
                        word == 0,
                ;
            }
        }
        window
    }

    /// Words of a bitmap with one bit per bucket.
    fn words_needed(bucket_count: usize) -> (count: usize)
        ensures
            count == word_count(bucket_count as int),
    {
        let count: usize = bucket_count / WORD_BITS;
        if bucket_count % WORD_BITS != 0 {
            count + 1
        } else {
            count
        }
    }

    /// Number of touched buckets.
    pub fn len(&self) -> (len: usize)
        ensures
            len == self@.len(),
    {
        self.buckets.len()
    }

    /// Records the word that stood in a bucket before its first write.
    pub fn mark(&mut self, bucket: usize, original: PackedBucket)
        requires
            old(self).wf(),
            bucket < old(self).bucket_count(),
        ensures
            final(self).wf(),
            final(self).bucket_count() == old(self).bucket_count(),
            final(self)@ == marked(old(self)@, (bucket, original.0)),
    {
        let word: usize = bucket / WORD_BITS;
        let bit: u64 = 1u64 << ((bucket % WORD_BITS) as u64);
        if self.words[word] & bit != 0 {
            assert(bit_at(self.words@, bucket));
            return;
        }
        let ghost before = *self;
        assert(!bit_at(before.words@, bucket));
        let value: u64 = self.words[word];
        self.words[word] = value | bit;
        self.buckets.push(bucket);
        self.originals.push(original.0);
        proof {
            assert(self@ =~= before@.push((bucket, original.0)));
            let shift = (bucket % 64) as u64;
            assert forall|other: usize| other < self.bucket_count implies #[trigger] bit_at(
                self.words@,
                other,
            ) == touches(self@, other) by {
                let index = other as int / 64;
                let other_shift = (other % 64) as u64;
                if index == word {
                    assert((value | (1u64 << shift)) & (1u64 << other_shift) != 0 <==> (value & (
                    1u64 << other_shift) != 0 || shift == other_shift)) by (bit_vector)
                        requires
                            shift < 64,
                            other_shift < 64,
                    ;
                }
                assert(bit_at(self.words@, other) == (bit_at(before.words@, other) || other
                    == bucket));
                if touches(before@, other) {
                    let i = choose|i: int|
                        0 <= i < before@.len() && #[trigger] before@[i].0 == other;
                    assert(self@[i].0 == other);
                }
                if other == bucket {
                    assert(self@[self@.len() - 1].0 == other);
                }
                if touches(self@, other) && other != bucket {
                    let i = choose|i: int| 0 <= i < self@.len() && #[trigger] self@[i].0 == other;
                    assert(before@[i].0 == other);
                }
            }
        }
    }

    /// Whether a bucket was touched.
    pub fn contains(&self, bucket: usize) -> (found: bool)
        requires
            self.wf(),
            bucket < self.bucket_count(),
        ensures
            found == touches(self@, bucket),
    {
        let word: usize = bucket / WORD_BITS;
        let bit: u64 = 1u64 << ((bucket % WORD_BITS) as u64);
        assert(bit_at(self.words@, bucket) == (self.words@[word as int] & bit != 0));
        self.words[word] & bit != 0
    }

    /// One touched bucket with its published word, in order of first touch.
    pub fn touched_with_originals(&self, index: usize) -> (entry: (
        usize,
        PackedBucket,
    ))
        requires
            self.wf(),
            index < self@.len(),
        ensures
            entry.0 == self@[index as int].0,
            entry.1.0 == self@[index as int].1,
            entry.0 < self.bucket_count(),
    {
        assert(self@[index as int].0 < self.bucket_count);
        (self.buckets[index], PackedBucket(self.originals[index]))
    }

    /// Forgets every touched bucket.
    pub fn clear(&mut self)
        requires
            old(self).wf(),
        ensures
            final(self).wf(),
            final(self).bucket_count() == old(self).bucket_count(),
            final(self)@ == Seq::<Write>::empty(),
    {
        let mut index: usize = 0;
        let ghost before = *self;
        assert(before@.skip(0) =~= before@);
        while index < self.buckets.len()
            invariant
                before.wf(),
                self.bucket_count == before.bucket_count,
                index <= self.buckets@.len(),
                self.buckets@ == before.buckets@,
                self.originals@ == before.originals@,
                self.words@.len() == word_count(self.bucket_count as int),
                forall|bucket: usize|
                    bucket < self.bucket_count ==> #[trigger] bit_at(self.words@, bucket) == touches(
                        before@.skip(index as int),
                        bucket,
                    ),
            decreases self.buckets@.len() - index,
        {
            let bucket: usize = self.buckets[index];
            let word: usize = bucket / WORD_BITS;
            assert(before@[index as int].0 == bucket);
            let value: u64 = self.words[word];
            let ghost words_before = self.words@;
            self.words[word] = value & !(1u64 << ((bucket % WORD_BITS) as u64));
            proof {
                let shift = (bucket % 64) as u64;
                let rest = before@.skip(index as int);
                let next = before@.skip(index + 1);
                assert forall|other: usize| other < self.bucket_count implies #[trigger] bit_at(
                    self.words@,
                    other,
                ) == touches(next, other) by {
                    let other_shift = (other % 64) as u64;
                    if other as int / 64 == word {
                        assert((value & !(1u64 << shift)) & (1u64 << other_shift) != 0 <==> (value
                            & (1u64 << other_shift) != 0 && shift != other_shift)) by (bit_vector)
                            requires
                                shift < 64,
                                other_shift < 64,
                        ;
                    }
                    assert(bit_at(self.words@, other) == (bit_at(words_before, other) && other
                        != bucket));
                    if touches(next, other) {
                        let i = choose|i: int| 0 <= i < next.len() && #[trigger] next[i].0 == other;
                        assert(rest[i + 1].0 == other);
                        assert(before@[index as int].0 != before@[index + 1 + i].0);
                    }
                    if touches(rest, other) && other != bucket {
                        let i = choose|i: int| 0 <= i < rest.len() && #[trigger] rest[i].0 == other;
                        assert(next[i - 1].0 == other);
                    }
                }
            }
            index = index + 1;
        }
        self.buckets.clear();
        self.originals.clear();
        proof {
            assert(self@ =~= Seq::<Write>::empty());
            assert(before@.skip(index as int) =~= Seq::<Write>::empty());
        }
    }

    /// Bytes that the window takes. How much room the lists have beyond what
    /// they hold is up to the allocator, so it is not said either that the
    /// bytes stay the same while buckets are marked and cleared.
    pub fn byte_len(&self) -> (bytes: usize)
        requires
            self.wf(),
        ensures
            exists|bucket_room: usize, original_room: usize|
                bucket_room >= self@.len() && original_room >= self@.len() && bytes
                    == #[trigger] tracking_bytes(
                    word_count(self.bucket_count() as int),
                    bucket_room as int,
                    original_room as int,
                ),
    {
        let bucket_room: usize = vec_capacity(&self.buckets);
        let original_room: usize = vec_capacity(&self.originals);
        let bytes: usize = tracking_byte_len(self.words.len(), bucket_room, original_room);
        assert(bytes == tracking_bytes(
            word_count(self.bucket_count() as int),
            bucket_room as int,
            original_room as int,
        ));
        bytes
    }
}

/// Progress of publication.
#[derive(Debug)]
pub struct PublicationWindow {
    pub dirty: DirtyWindow,
    pub sequence: u64,
    pub pending_events: usize,
    pub published_nonempty: bool,
}

impl PublicationWindow {
    /// A window in which nothing was published and nothing is pending.
    pub fn new(bucket_count: usize) -> (result: Result<Self, CkfBuildError>)
        ensures
            match result {
                Ok(window) => {
                    &&& window.dirty.wf()
                    &&& window.dirty.bucket_count() == bucket_count
                    &&& window.dirty@ == Seq::<Write>::empty()
                    &&& window.sequence == 0
                    &&& window.pending_events == 0
                    &&& !window.published_nonempty
                },
                Err(error) => error == CkfBuildError::AllocationFailed && window_room_refused(
                    bucket_count,
                ),
            },
    {
        let dirty = match DirtyWindow::new(bucket_count) {
            Ok(dirty) => dirty,
            Err(error) => {
                return Err(error);
            },
        };
        Ok(Self::over(dirty))
    }

    /// A window in which nothing was published and nothing is pending, with
    /// what it watches the lane by.
    pub fn over(dirty: DirtyWindow) -> (window: Self)
        ensures
            window == (PublicationWindow {
                dirty,
                sequence: 0,
                pending_events: 0,
                published_nonempty: false,
            }),
    {
        PublicationWindow { dirty, sequence: 0, pending_events: 0, published_nonempty: false }
    }
}

} // verus!
