use vstd::prelude::*;
use vstd::utf8::encode_utf8;

use crate::embedding::{all_finite, all_finite_bits};
use crate::membership::{filter_matches, MembershipView, VectorFilter, VectorMembership};
use crate::seqs::{compare_bytes, lemma_lex_order_equal, lemma_lex_order_flip, lemma_lex_order_range,
    lemma_lex_less_transitive, lex_less, lex_order,
};
use crate::digest::{sha256, sha256_spec};
use crate::encode::{extend_bytes, le_u16, le_u32, le_u64, push_le_u16, push_le_u32, push_le_u64};
use crate::text::{blank, is_blank, push_str, str_eq};
use crate::encode::{from_le_u16, from_le_u32, from_le_u64, lemma_le_roundtrips};
use crate::embedding::{finite_bits, is_finite_bits};
use crate::ids::{AuthorityGeneration, MemoryId, RevisionId, SpaceId};
use crate::text::string_from_utf8;
use crate::vector::{
    ann_segment_magic, has_magic, hex_lower, hex_spec, le_bits, push_le_bits, push_magic, read_array16,
    read_array32, read_bytes, read_u16, read_u32, read_u64,
};
use vstd::utf8::{decode_utf8, valid_utf8};
use crate::{invalid, invalid_value, DerivedError};

verus! {

/// More delta segments than this schedule a compaction.
pub const ANN_DELTA_COMPACTION_THRESHOLD: usize = 8;

/// A tombstone share above this percentage schedules a compaction.
pub const ANN_TOMBSTONE_RATIO_PERCENT: u64 = 20;

/// Whether a compaction is due: more than eight delta segments, or more than
/// a fifth of the targets (tombstoned plus live, saturating) tombstoned.
pub open spec fn compaction_due(delta_segments: int, tombstones: int, live_targets: int) -> bool {
    let total = if tombstones + live_targets > u64::MAX {
        u64::MAX as int
    } else {
        tombstones + live_targets
    };
    delta_segments > ANN_DELTA_COMPACTION_THRESHOLD || (total > 0 && tombstones * 100 > total
        * ANN_TOMBSTONE_RATIO_PERCENT)
}

pub fn should_schedule_ann_compaction(
    delta_segment_count: usize,
    tombstone_count: u64,
    live_target_count: u64,
) -> (scheduled: bool)
    ensures
        scheduled == compaction_due(
            delta_segment_count as int,
            tombstone_count as int,
            live_target_count as int,
        ),
{
    if delta_segment_count > ANN_DELTA_COMPACTION_THRESHOLD {
        return true;
    }
    let total_targets = tombstone_count.saturating_add(live_target_count);
    let tombstones = tombstone_count as u128;
    let total = total_targets as u128;
    let ratio = ANN_TOMBSTONE_RATIO_PERCENT as u128;
    total_targets > 0 && tombstones * 100 > total * ratio
}

/// What an ANN segment entry holds: the target it indexes, the membership
/// and the vector's values as `f32` bit patterns.
pub ghost struct EntryView {
    pub key: Seq<char>,
    pub membership: MembershipView,
    pub values: Seq<u32>,
}

/// The UTF-8 bytes of an entry's target key, by which entries are ordered.
pub open spec fn key_bytes(entry: EntryView) -> Seq<u8> {
    encode_utf8(entry.key)
}

/// An entry as `AnnSegmentEntry::new` makes it: non-empty finite values, a
/// non-empty key, and identifiers of their fixed lengths.
pub open spec fn entry_valid(entry: EntryView) -> bool {
    &&& entry.values.len() > 0
    &&& all_finite(entry.values)
    &&& entry.key.len() > 0
    &&& entry.membership.space_id.len() == 16
    &&& entry.membership.memory_id.len() == 16
    &&& entry.membership.revision_id.len() == 32
    &&& entry.membership.payload_hash.len() == 32
}

/// One vector of an ANN segment.
#[derive(Debug)]
pub struct AnnSegmentEntry {
    target_key: String,
    membership: VectorMembership,
    values: Vec<u32>,
}

impl View for AnnSegmentEntry {
    type V = EntryView;

    closed spec fn view(&self) -> EntryView {
        EntryView { key: self.target_key@, membership: self.membership@, values: self.values@ }
    }
}

impl Clone for AnnSegmentEntry {
    fn clone(&self) -> (copy: Self)
        ensures
            copy@ == self@,
    {
        AnnSegmentEntry {
            target_key: self.target_key.clone(),
            membership: self.membership,
            values: self.values.clone(),
        }
    }
}

impl AnnSegmentEntry {
    /// An entry; the values must be finite and non-empty, the key non-empty.
    pub fn new(target_key: &str, membership: VectorMembership, values: Vec<u32>) -> (result: Result<
        Self,
        DerivedError,
    >)
        ensures
            (values@.len() == 0 || !all_finite(values@)) ==> (result matches Err(error)
                && invalid_value(error, "ANN segment vector values must be finite and non-empty"@)),
            values@.len() > 0 && all_finite(values@) && target_key@.len() == 0 ==> (result matches Err(
                error,
            ) && invalid_value(error, "ANN segment target key must not be empty"@)),
            values@.len() > 0 && all_finite(values@) && target_key@.len() > 0 ==> (result matches Ok(
                entry,
            ) && entry@ == EntryView {
                key: target_key@,
                membership: membership@,
                values: values@,
            }),
            result matches Ok(entry) ==> entry.wf(),
    {
        if values.len() == 0 || !all_finite_bits(values.as_slice()) {
            return Err(invalid("ANN segment vector values must be finite and non-empty"));
        }
        if target_key.is_empty() {
            return Err(invalid("ANN segment target key must not be empty"));
        }
        proof {
            membership.lemma_lengths();
        }
        Ok(AnnSegmentEntry { target_key: crate::text::owned(target_key), membership, values })
    }

    /// What every entry that `new` makes satisfies.
    pub open spec fn wf(&self) -> bool {
        entry_valid(self@)
    }

    pub fn target_key(&self) -> (key: &str)
        ensures
            key@ == self@.key,
    {
        self.target_key.as_str()
    }

    pub fn membership(&self) -> (membership: VectorMembership)
        ensures
            membership@ == self@.membership,
    {
        self.membership
    }

    pub fn values(&self) -> (values: &[u32])
        ensures
            values@ == self@.values,
    {
        self.values.as_slice()
    }
}

/// The views of a sequence of entries.
pub open spec fn entry_views(entries: Seq<AnnSegmentEntry>) -> Seq<EntryView> {
    entries.map_values(|entry: AnnSegmentEntry| entry@)
}

/// Entries in strictly increasing order of their keys' bytes.
pub open spec fn keys_sorted(entries: Seq<EntryView>) -> bool {
    forall|i: int, j: int|
        0 <= i < j < entries.len() ==> lex_less(
            key_bytes(#[trigger] entries[i]),
            key_bytes(#[trigger] entries[j]),
        )
}

/// No later entry of `input` has the key of entry `i`.
pub open spec fn is_last_for_key(input: Seq<EntryView>, i: int) -> bool {
    forall|j: int| i < j < input.len() ==> key_bytes(#[trigger] input[j]) != key_bytes(input[i])
}

/// `output` holds, for each key of `input`, the last entry with that key,
/// in increasing order of the keys.
pub open spec fn latest_by_key(input: Seq<EntryView>, output: Seq<EntryView>) -> bool {
    &&& keys_sorted(output)
    &&& forall|k: int|
        #![trigger output[k]]
        0 <= k < output.len() ==> exists|i: int|
            0 <= i < input.len() && #[trigger] input[i] == output[k] && is_last_for_key(input, i)
    &&& forall|i: int|
        0 <= i < input.len() && is_last_for_key(input, i) ==> #[trigger] output.contains(input[i])
}

/// Inserts `entry` into sorted entries, replacing the entry with its key.
fn insert_latest(entries: &mut Vec<AnnSegmentEntry>, entry: AnnSegmentEntry)
    requires
        keys_sorted(entry_views(old(entries)@)),
    ensures
        keys_sorted(entry_views(final(entries)@)),
        entry_views(final(entries)@).contains(entry@),
        forall|x: EntryView|
            entry_views(old(entries)@).contains(x) && key_bytes(x) != key_bytes(entry@)
                ==> #[trigger] entry_views(final(entries)@).contains(x),
        forall|y: EntryView|
            #[trigger] entry_views(final(entries)@).contains(y) ==> y == entry@ || (entry_views(
                old(entries)@,
            ).contains(y) && key_bytes(y) != key_bytes(entry@)),
{
    let ghost before = entry_views(entries@);
    let ghost key = key_bytes(entry@);
    let mut position: usize = 0;
    let mut order: i8 = -1;
    while position < entries.len()
        invariant
            before == entry_views(entries@),
            keys_sorted(before),
            key == key_bytes(entry@),
            position <= entries@.len(),
            forall|i: int| 0 <= i < position ==> lex_less(key_bytes(#[trigger] before[i]), key),
        ensures
            position < entries@.len() ==> order == lex_order(
                key_bytes(before[position as int]),
                key,
            ) && order != -1,
        decreases entries@.len() - position,
    {
        let current = compare_bytes(entries[position].target_key.as_str().as_bytes(), entry.target_key.as_str().as_bytes());
        assert(before[position as int] == entries@[position as int]@);
        if current != -1 {
            order = current;
            break;
        }
        position = position + 1;
    }
    proof {
        if position < entries.len() {
            lemma_lex_order_range(key_bytes(before[position as int]), key);
        }
    }
    if position < entries.len() && order == 0 {
        proof {
            lemma_lex_order_equal(key_bytes(before[position as int]), key);
        }
        let ghost replaced = before[position as int];
        entries.set(position, entry);
        let ghost after = entry_views(entries@);
        assert(after =~= before.update(position as int, entry@));
        assert(after[position as int] == entry@);
        assert forall|x: EntryView|
            before.contains(x) && key_bytes(x) != key implies #[trigger] after.contains(x) by {
            let i = choose|i: int| 0 <= i < before.len() && before[i] == x;
            assert(i != position);
            assert(after[i] == x);
        }
        assert forall|y: EntryView| #[trigger] after.contains(y) implies y == entry@ || (
        before.contains(y) && key_bytes(y) != key) by {
            let i = choose|i: int| 0 <= i < after.len() && after[i] == y;
            if i != position {
                assert(before[i] == y);
                if i < position {
                    assert(lex_less(key_bytes(before[i]), key_bytes(before[position as int])));
                } else {
                    assert(lex_less(key_bytes(before[position as int]), key_bytes(before[i])));
                }
                lemma_lex_order_equal(key_bytes(before[i]), key);
            }
        }
    } else {
        proof {
            if position < entries.len() {
                lemma_lex_order_flip(key_bytes(before[position as int]), key);
            }
        }
        entries.insert(position, entry);
        let ghost after = entry_views(entries@);
        assert(after =~= before.insert(position as int, entry@));
        assert(after[position as int] == entry@);
        assert forall|i: int, j: int| 0 <= i < j < after.len() implies lex_less(
            key_bytes(#[trigger] after[i]),
            key_bytes(#[trigger] after[j]),
        ) by {
            if j == position {
                assert(after[i] == before[i]);
            } else if i == position {
                assert(after[j] == before[j - 1]);
                if j - 1 > position {
                    lemma_lex_less_transitive(
                        key,
                        key_bytes(before[position as int]),
                        key_bytes(before[j - 1]),
                    );
                }
            } else if j < position {
                assert(after[i] == before[i] && after[j] == before[j]);
            } else if i < position {
                assert(after[i] == before[i] && after[j] == before[j - 1]);
            } else {
                assert(after[i] == before[i - 1] && after[j] == before[j - 1]);
            }
        }
        assert forall|x: EntryView|
            before.contains(x) && key_bytes(x) != key implies #[trigger] after.contains(x) by {
            let i = choose|i: int| 0 <= i < before.len() && before[i] == x;
            if i < position {
                assert(after[i] == x);
            } else {
                assert(after[i + 1] == x);
            }
        }
        assert forall|y: EntryView| #[trigger] after.contains(y) implies y == entry@ || (
        before.contains(y) && key_bytes(y) != key) by {
            let i = choose|i: int| 0 <= i < after.len() && after[i] == y;
            if i < position {
                assert(before[i] == y);
                lemma_lex_order_equal(key_bytes(y), key);
            } else if i > position {
                assert(before[i - 1] == y);
                lemma_lex_order_equal(key_bytes(before[position as int]), key);
                if i - 1 > position {
                    lemma_lex_less_transitive(
                        key,
                        key_bytes(before[position as int]),
                        key_bytes(before[i - 1]),
                    );
                }
                lemma_lex_order_flip(key_bytes(y), key);
                lemma_lex_order_equal(key_bytes(y), key);
            }
        }
    }
}

/// What an ANN segment holds.
pub ghost struct SegmentView {
    pub producer_signature: Seq<char>,
    pub dimension: u32,
    pub entries: Seq<EntryView>,
}

/// An immutable ANN delta segment: the producer, the dimension and the
/// entries, one per target key, ordered by key.
#[derive(Debug)]
pub struct AnnSegmentV1 {
    producer_signature: String,
    dimension: u32,
    entries: Vec<AnnSegmentEntry>,
}

impl View for AnnSegmentV1 {
    type V = SegmentView;

    closed spec fn view(&self) -> SegmentView {
        SegmentView {
            producer_signature: self.producer_signature@,
            dimension: self.dimension,
            entries: entry_views(self.entries@),
        }
    }
}

/// Every entry of `entries` has `dimension` values.
pub open spec fn dimensions_agree(entries: Seq<EntryView>, dimension: int) -> bool {
    forall|i: int| 0 <= i < entries.len() ==> #[trigger] entries[i].values.len() == dimension
}

proof fn lemma_latest_step(input: Seq<EntryView>, n: int, before: Seq<EntryView>, after: Seq<EntryView>)
    requires
        0 <= n < input.len(),
        latest_by_key(input.take(n), before),
        keys_sorted(after),
        after.contains(input[n]),
        forall|x: EntryView|
            before.contains(x) && key_bytes(x) != key_bytes(input[n]) ==> #[trigger] after.contains(
                x,
            ),
        forall|y: EntryView| #[trigger]
            after.contains(y) ==> y == input[n] || (before.contains(y) && key_bytes(y)
                != key_bytes(input[n])),
    ensures
        latest_by_key(input.take(n + 1), after),
{
    let old_prefix = input.take(n);
    let prefix = input.take(n + 1);
    assert forall|k: int| #![trigger after[k]] 0 <= k < after.len() implies exists|i: int|
        0 <= i < prefix.len() && #[trigger] prefix[i] == after[k] && is_last_for_key(prefix, i) by {
        assert(after.contains(after[k]));
        if after[k] == input[n] {
            assert(prefix[n] == after[k]);
            assert(is_last_for_key(prefix, n));
        } else {
            let y = after[k];
            let m = choose|m: int| 0 <= m < before.len() && before[m] == y;
            let i = choose|i: int|
                0 <= i < old_prefix.len() && #[trigger] old_prefix[i] == before[m]
                    && is_last_for_key(old_prefix, i);
            assert(prefix[i] == old_prefix[i]);
            assert forall|j: int| i < j < prefix.len() implies key_bytes(#[trigger] prefix[j])
                != key_bytes(prefix[i]) by {
                if j < n {
                    assert(prefix[j] == old_prefix[j]);
                }
            }
        }
    }
    assert forall|i: int| 0 <= i < prefix.len() && is_last_for_key(prefix, i) implies #[trigger] after.contains(
        prefix[i],
    ) by {
        if i == n {
        } else {
            assert(prefix[i] == old_prefix[i]);
            assert(is_last_for_key(old_prefix, i)) by {
                assert forall|j: int| i < j < old_prefix.len() implies key_bytes(
                    #[trigger] old_prefix[j],
                ) != key_bytes(old_prefix[i]) by {
                    assert(prefix[j] == old_prefix[j]);
                }
            }
            assert(before.contains(old_prefix[i]));
            assert(prefix[n] == input[n]);
        }
    }
}

/// What building a segment from `producer_signature` and `entries` gives:
/// refusals for a blank producer, no vector, a dimension beyond `u32` and
/// disagreeing dimensions, in that order; otherwise the segment of the last
/// entry per key, ordered by key.
pub open spec fn build_outcome(
    result: Result<AnnSegmentV1, DerivedError>,
    producer_signature: Seq<char>,
    entries: Seq<EntryView>,
) -> bool {
    if is_blank(producer_signature) {
        result matches Err(error) && invalid_value(
            error,
            "ANN segment producer signature must not be empty"@,
        )
    } else if entries.len() == 0 || entries[0].values.len() == 0 {
        result matches Err(error) && invalid_value(error, "ANN segment must contain at least one vector"@)
    } else if entries[0].values.len() > u32::MAX {
        result matches Err(error) && invalid_value(error, "ANN segment dimension is out of range"@)
    } else if !dimensions_agree(entries, entries[0].values.len() as int) {
        result matches Err(error) && invalid_value(
            error,
            "ANN segment vectors have inconsistent dimensions"@,
        )
    } else {
        result matches Ok(segment) && segment@.producer_signature == producer_signature
            && segment@.dimension == entries[0].values.len() && latest_by_key(
            entries,
            segment@.entries,
        )
    }
}

impl AnnSegmentV1 {
    /// Builds a segment: one entry per target key, the last given for it,
    /// ordered by key. The producer must not be blank, there must be a
    /// vector, and all vectors must share the first one's dimension.
    pub fn build(producer_signature: &str, entries: Vec<AnnSegmentEntry>) -> (result: Result<
        Self,
        DerivedError,
    >)
        ensures
            build_outcome(result, producer_signature@, entry_views(entries@)),
    {
        if blank(producer_signature) {
            return Err(invalid("ANN segment producer signature must not be empty"));
        }
        if entries.len() == 0 || entries[0].values.len() == 0 {
            return Err(invalid("ANN segment must contain at least one vector"));
        }
        assert(entry_views(entries@)[0] == entries@[0]@);
        let dimension = entries[0].values.len();
        if dimension > 4294967295usize {
            return Err(invalid("ANN segment dimension is out of range"));
        }
        let ghost input = entry_views(entries@);
        let mut i: usize = 0;
        while i < entries.len()
            invariant
                input == entry_views(entries@),
                !is_blank(producer_signature@),
                entries@.len() > 0,
                dimension == entries@[0]@.values.len(),
                0 < dimension <= u32::MAX,
                i <= entries@.len(),
                forall|k: int| 0 <= k < i ==> #[trigger] input[k].values.len() == dimension,
            decreases entries@.len() - i,
        {
            assert(input[i as int] == entries@[i as int]@);
            if entries[i].values.len() != dimension {
                assert(input[i as int].values.len() != dimension);
                assert(!dimensions_agree(input, dimension as int));
                return Err(invalid("ANN segment vectors have inconsistent dimensions"));
            }
            i = i + 1;
        }
        let mut latest: Vec<AnnSegmentEntry> = Vec::new();
        let mut n: usize = 0;
        assert(input.take(0) =~= Seq::<EntryView>::empty());
        assert(entry_views(latest@) =~= Seq::<EntryView>::empty());
        while n < entries.len()
            invariant
                input == entry_views(entries@),
                n <= entries@.len(),
                latest_by_key(input.take(n as int), entry_views(latest@)),
            decreases entries@.len() - n,
        {
            let ghost before = entry_views(latest@);
            let entry = entries[n].clone();
            assert(entry@ == input[n as int]);
            insert_latest(&mut latest, entry);
            proof {
                lemma_latest_step(input, n as int, before, entry_views(latest@));
            }
            n = n + 1;
        }
        assert(input.take(entries@.len() as int) =~= input);
        Ok(
            AnnSegmentV1 {
                producer_signature: crate::text::owned(producer_signature),
                dimension: dimension as u32,
                entries: latest,
            },
        )
    }

    pub fn dimension(&self) -> (dimension: u32)
        ensures
            dimension == self@.dimension,
    {
        self.dimension
    }

    pub fn producer_signature(&self) -> (signature: &str)
        ensures
            signature@ == self@.producer_signature,
    {
        self.producer_signature.as_str()
    }

    pub fn entries(&self) -> (entries: &[AnnSegmentEntry])
        ensures
            entry_views(entries@) == self@.entries,
    {
        self.entries.as_slice()
    }

    pub fn vector_count(&self) -> (count: usize)
        ensures
            count == self@.entries.len(),
    {
        self.entries.len()
    }
}

/// A byte string behind its length as a little-endian `u32`.
pub open spec fn string_u32(bytes: Seq<u8>) -> Seq<u8> {
    le_u32(bytes.len() as u32) + bytes
}

/// The encoding of one entry.
pub open spec fn entry_bytes(entry: EntryView) -> Seq<u8> {
    string_u32(key_bytes(entry)) + entry.membership.space_id + entry.membership.memory_id
        + entry.membership.revision_id + le_u64(entry.membership.generation)
        + entry.membership.payload_hash + le_bits(entry.values)
}

/// The encodings of entries, one after another.
pub open spec fn entries_bytes(entries: Seq<EntryView>) -> Seq<u8>
    decreases entries.len(),
{
    if entries.len() == 0 {
        seq![]
    } else {
        entries_bytes(entries.drop_last()) + entry_bytes(entries.last())
    }
}

/// The canonical encoding of a segment: magic, format version, dimension,
/// producer, entry count, entries.
pub open spec fn segment_bytes(segment: SegmentView) -> Seq<u8> {
    ann_segment_magic() + le_u16(1) + le_u32(segment.dimension) + string_u32(
        encode_utf8(segment.producer_signature),
    ) + le_u32(segment.entries.len() as u32) + entries_bytes(segment.entries)
}

fn put_string_u32(out: &mut Vec<u8>, value: &[u8])
    ensures
        final(out)@ == old(out)@ + string_u32(value@),
{
    push_le_u32(out, value.len() as u32);
    extend_bytes(out, value);
    assert(out@ =~= old(out)@ + string_u32(value@));
}

fn push_entry(out: &mut Vec<u8>, entry: &AnnSegmentEntry)
    ensures
        final(out)@ == old(out)@ + entry_bytes(entry@),
{
    put_string_u32(out, entry.target_key.as_str().as_bytes());
    let membership = entry.membership;
    extend_bytes(out, membership.space_id().as_bytes().as_slice());
    extend_bytes(out, membership.memory_id().as_bytes().as_slice());
    extend_bytes(out, membership.revision_id().as_bytes().as_slice());
    push_le_u64(out, membership.authority_generation().value());
    extend_bytes(out, membership.payload_hash().as_slice());
    push_le_bits(out, entry.values.as_slice());
    assert(out@ =~= old(out)@ + entry_bytes(entry@));
}

impl AnnSegmentV1 {
    pub fn canonical_bytes(&self) -> (bytes: Vec<u8>)
        ensures
            bytes@ == segment_bytes(self@),
    {
        let mut bytes: Vec<u8> = Vec::new();
        push_magic(&mut bytes, 65u8, 78u8, 78u8);
        push_le_u16(&mut bytes, 1u16);
        push_le_u32(&mut bytes, self.dimension);
        put_string_u32(&mut bytes, self.producer_signature.as_str().as_bytes());
        push_le_u32(&mut bytes, self.entries.len() as u32);
        let ghost header = bytes@;
        let ghost entries = entry_views(self.entries@);
        let mut i: usize = 0;
        while i < self.entries.len()
            invariant
                entries == entry_views(self.entries@),
                i <= self.entries@.len(),
                bytes@ == header + entries_bytes(entries.take(i as int)),
            decreases self.entries@.len() - i,
        {
            push_entry(&mut bytes, &self.entries[i]);
            proof {
                assert(entries.take(i + 1).drop_last() =~= entries.take(i as int));
                assert(entries.take(i + 1).last() == self.entries@[i as int]@);
            }
            i = i + 1;
        }
        assert(entries.take(self.entries@.len() as int) =~= entries);
        assert(bytes@ =~= segment_bytes(self@));
        bytes
    }

    /// The content hash of the canonical encoding.
    pub fn hash(&self) -> (hash: [u8; 32])
        ensures
            hash@ == sha256_spec(segment_bytes(self@)),
    {
        let bytes = self.canonical_bytes();
        sha256(bytes.as_slice())
    }
}

/// The entries of several segments, one segment after another.
pub open spec fn segment_entries(segments: Seq<SegmentView>) -> Seq<EntryView>
    decreases segments.len(),
{
    if segments.len() == 0 {
        seq![]
    } else {
        segment_entries(segments.drop_last()) + segments.last().entries
    }
}

/// The target keys of entries, in order.
pub open spec fn entry_keys(entries: Seq<EntryView>) -> Seq<Seq<char>> {
    entries.map_values(|entry: EntryView| entry.key)
}

/// The entries a merged query considers, newest segment first: the first
/// entry of each target key, unless the key is tombstoned or the filter
/// refuses its membership.
pub open spec fn merged_candidates(
    entries: Seq<EntryView>,
    tombstones: Seq<Seq<char>>,
    filter: crate::membership::FilterView,
) -> Seq<EntryView>
    decreases entries.len(),
{
    if entries.len() == 0 {
        seq![]
    } else {
        let earlier = merged_candidates(entries.drop_last(), tombstones, filter);
        let last = entries.last();
        if !tombstones.contains(last.key) && !entry_keys(entries.drop_last()).contains(last.key)
            && filter_matches(filter, last.membership) {
            earlier.push(last)
        } else {
            earlier
        }
    }
}

/// The views of strings.
pub open spec fn string_views(strings: Seq<String>) -> Seq<Seq<char>> {
    strings.map_values(|value: String| value@)
}

/// Whether `key` is among `keys`.
pub fn contains_key(keys: &[String], key: &str) -> (found: bool)
    ensures
        found == string_views(keys@).contains(key@),
{
    let mut i: usize = 0;
    while i < keys.len()
        invariant
            i <= keys@.len(),
            forall|j: int| 0 <= j < i ==> #[trigger] keys@[j]@ != key@,
        decreases keys@.len() - i,
    {
        if str_eq(keys[i].as_str(), key) {
            assert(string_views(keys@)[i as int] == key@);
            return true;
        }
        i = i + 1;
    }
    assert forall|j: int| 0 <= j < keys@.len() implies #[trigger] string_views(keys@)[j] != key@ by {
        assert(keys@[j]@ != key@);
    }
    false
}

impl AnnSegmentV1 {
    /// The views of the segments that a merged query reads.
    pub open spec fn views(segments: Seq<&AnnSegmentV1>) -> Seq<SegmentView> {
        segments.map_values(|segment: &AnnSegmentV1| segment@)
    }

    /// The entries that a query across `segments` (newest first) scores:
    /// the newest entry of each target key, without tombstoned keys and
    /// memberships the filter refuses, in segment order.
    pub fn merge_candidates(
        segments: &[&AnnSegmentV1],
        tombstones: &[String],
        filter: &VectorFilter,
    ) -> (candidates: Vec<AnnSegmentEntry>)
        ensures
            entry_views(candidates@) == merged_candidates(
                segment_entries(Self::views(segments@)),
                string_views(tombstones@),
                filter@,
            ),
    {
        let ghost views = Self::views(segments@);
        let ghost dead = string_views(tombstones@);
        let mut candidates: Vec<AnnSegmentEntry> = Vec::new();
        let mut seen: Vec<String> = Vec::new();
        let mut s: usize = 0;
        assert(views.take(0) =~= Seq::<SegmentView>::empty());
        assert(entry_views(candidates@) =~= Seq::<EntryView>::empty());
        assert(string_views(seen@) =~= entry_keys(Seq::<EntryView>::empty()));
        while s < segments.len()
            invariant
                views == Self::views(segments@),
                dead == string_views(tombstones@),
                s <= segments@.len(),
                entry_views(candidates@) == merged_candidates(
                    segment_entries(views.take(s as int)),
                    dead,
                    filter@,
                ),
                string_views(seen@) == entry_keys(segment_entries(views.take(s as int))),
            decreases segments@.len() - s,
        {
            let segment = segments[s];
            assert(views[s as int] == segment@);
            let ghost done = segment_entries(views.take(s as int));
            let ghost own = segment@.entries;
            let mut e: usize = 0;
            assert(done + own.take(0) =~= done);
            while e < segment.entries.len()
                invariant
                    dead == string_views(tombstones@),
                    own == entry_views(segment.entries@),
                    e <= segment.entries@.len(),
                    entry_views(candidates@) == merged_candidates(done + own.take(e as int), dead, filter@),
                    string_views(seen@) == entry_keys(done + own.take(e as int)),
                decreases segment.entries@.len() - e,
            {
                let entry = &segment.entries[e];
                let ghost processed = done + own.take(e as int);
                assert(own[e as int] == entry@);
                assert(processed.push(entry@) =~= done + own.take(e + 1));
                assert((done + own.take(e + 1)).drop_last() =~= processed);
                let tombstoned = contains_key(tombstones, entry.target_key.as_str());
                let repeated = contains_key(seen.as_slice(), entry.target_key.as_str());
                if !tombstoned && !repeated && filter.matches(&entry.membership) {
                    candidates.push(entry.clone());
                }
                let ghost seen_before = seen@;
                seen.push(crate::text::owned(entry.target_key.as_str()));
                proof {
                    assert(string_views(seen@) =~= string_views(seen_before).push(entry@.key));
                    assert(entry_keys(processed.push(entry@)) =~= entry_keys(processed).push(
                        entry@.key,
                    ));
                    assert(entry_views(candidates@) =~= merged_candidates(
                        done + own.take(e + 1),
                        dead,
                        filter@,
                    ));
                    assert(string_views(seen@) =~= entry_keys(done + own.take(e + 1)));
                }
                e = e + 1;
            }
            proof {
                assert(own.take(segment.entries@.len() as int) =~= own);
                assert(views.take(s + 1).drop_last() =~= views.take(s as int));
                assert(views.take(s + 1).last() == segment@);
            }
            s = s + 1;
        }
        assert(views.take(segments@.len() as int) =~= views);
        candidates
    }
}

/// Where a segment lives under the derived directory:
/// `objects/ann/<first byte in hex>/<hash in hex>.usearch`.
pub open spec fn ann_segment_path_spec(hash: Seq<u8>) -> Seq<char> {
    "objects/ann/"@ + hex_spec(hash.take(1)) + "/"@ + hex_spec(hash) + ".usearch"@
}

pub fn ann_segment_relative_path(hash: &[u8; 32]) -> (path: String)
    ensures
        path@ == ann_segment_path_spec(hash@),
{
    let mut path = String::new();
    push_str(&mut path, "objects/ann/");
    let first = hex_lower(vstd::slice::slice_subrange(hash.as_slice(), 0, 1));
    push_str(&mut path, first.as_str());
    push_str(&mut path, "/");
    let all = hex_lower(hash.as_slice());
    push_str(&mut path, all.as_str());
    push_str(&mut path, ".usearch");
    path
}

/// A merged query never returns a tombstoned target, returns each target
/// at most once, and returns for a target the first (newest) entry with its
/// key, only where the filter accepts it.
pub proof fn law_merge_candidates(
    entries: Seq<EntryView>,
    tombstones: Seq<Seq<char>>,
    filter: crate::membership::FilterView,
)
    ensures
        forall|k: int|
            #![trigger merged_candidates(entries, tombstones, filter)[k]]
            0 <= k < merged_candidates(entries, tombstones, filter).len() ==> {
                let candidate = merged_candidates(entries, tombstones, filter)[k];
                &&& !tombstones.contains(candidate.key)
                &&& filter_matches(filter, candidate.membership)
                &&& exists|g: int|
                    0 <= g < entries.len() && #[trigger] entries[g] == candidate && !entry_keys(
                        entries.take(g),
                    ).contains(candidate.key)
            },
        forall|a: int, b: int|
            0 <= a < b < merged_candidates(entries, tombstones, filter).len()
                ==> #[trigger] merged_candidates(entries, tombstones, filter)[a].key
                != #[trigger] merged_candidates(entries, tombstones, filter)[b].key,
    decreases entries.len(),
{
    if entries.len() > 0 {
        let prefix = entries.drop_last();
        let last = entries.last();
        law_merge_candidates(prefix, tombstones, filter);
        let earlier = merged_candidates(prefix, tombstones, filter);
        let merged = merged_candidates(entries, tombstones, filter);
        assert(entries.take(entries.len() - 1) =~= prefix);
        assert forall|k: int| #![trigger earlier[k]] 0 <= k < earlier.len() implies exists|g: int|
            0 <= g < entries.len() && #[trigger] entries[g] == earlier[k] && !entry_keys(
                entries.take(g),
            ).contains(earlier[k].key) by {
            let g = choose|g: int|
                0 <= g < prefix.len() && #[trigger] prefix[g] == earlier[k] && !entry_keys(
                    prefix.take(g),
                ).contains(earlier[k].key);
            assert(entries[g] == prefix[g]);
            assert(entries.take(g) =~= prefix.take(g));
        }
        assert forall|k: int| 0 <= k < earlier.len() implies #[trigger] entry_keys(prefix).contains(
            earlier[k].key,
        ) by {
            let g = choose|g: int|
                0 <= g < prefix.len() && #[trigger] prefix[g] == earlier[k] && !entry_keys(
                    prefix.take(g),
                ).contains(earlier[k].key);
            assert(entry_keys(prefix)[g] == earlier[k].key);
        }
        if merged.len() > earlier.len() {
            assert(merged == earlier.push(last));
            assert(!entry_keys(entries.take(entries.len() - 1)).contains(last.key));
            assert(entries[entries.len() - 1] == last);
            assert forall|a: int, b: int| 0 <= a < b < merged.len() implies #[trigger] merged[a].key
                != #[trigger] merged[b].key by {
                if b == earlier.len() {
                    assert(entry_keys(prefix).contains(earlier[a].key));
                } else {
                    assert(merged[a] == earlier[a] && merged[b] == earlier[b]);
                }
            }
        }
    }
}

/// A built segment holds each target key once.
pub proof fn law_built_keys_are_distinct(entries: Seq<EntryView>)
    requires
        keys_sorted(entries),
    ensures
        forall|a: int, b: int|
            0 <= a < b < entries.len() ==> #[trigger] entries[a].key != #[trigger] entries[b].key,
{
    assert forall|a: int, b: int| 0 <= a < b < entries.len() implies #[trigger] entries[a].key
        != #[trigger] entries[b].key by {
        lemma_lex_order_equal(key_bytes(entries[a]), key_bytes(entries[b]));
    }
}

/// The refusal of a read past the end.
pub open spec fn truncated() -> Seq<char> {
    "vector payload: vector payload is truncated"@
}

/// Reads `count` bytes at `cursor`: the bytes and the cursor after them.
pub open spec fn spec_read_fixed(bytes: Seq<u8>, cursor: int, count: int) -> Result<(Seq<u8>, int), Seq<char>> {
    if cursor + count <= bytes.len() {
        Ok((bytes.subrange(cursor, cursor + count), cursor + count))
    } else {
        Err(truncated())
    }
}

/// Reads a little-endian `u32` at `cursor`.
pub open spec fn spec_read_u32(bytes: Seq<u8>, cursor: int) -> Result<(u32, int), Seq<char>> {
    if cursor + 4 <= bytes.len() {
        Ok((from_le_u32(bytes.subrange(cursor, cursor + 4)), cursor + 4))
    } else {
        Err(truncated())
    }
}

/// Reads a string behind its `u32` length at `cursor`.
pub open spec fn spec_read_string(bytes: Seq<u8>, cursor: int) -> Result<(Seq<char>, int), Seq<char>> {
    match spec_read_u32(bytes, cursor) {
        Err(message) => Err(message),
        Ok((length, start)) => if start + length > usize::MAX {
            Err("vector payload: encoded ANN string length overflow"@)
        } else if start + length > bytes.len() {
            Err("vector payload: encoded ANN string is truncated"@)
        } else if !valid_utf8(bytes.subrange(start, start + length)) {
            Err("vector payload: encoded ANN string is not UTF-8"@)
        } else {
            Ok((decode_utf8(bytes.subrange(start, start + length)), start + length))
        },
    }
}

/// Reads `count` finite values at `cursor`.
pub open spec fn spec_read_values(bytes: Seq<u8>, cursor: int, count: nat) -> Result<
    (Seq<u32>, int),
    Seq<char>,
>
    decreases count,
{
    if count == 0 {
        Ok((seq![], cursor))
    } else {
        match spec_read_values(bytes, cursor, (count - 1) as nat) {
            Err(message) => Err(message),
            Ok((values, next)) => match spec_read_u32(bytes, next) {
                Err(message) => Err(message),
                Ok((value, after)) => if finite_bits(value) {
                    Ok((values.push(value), after))
                } else {
                    Err("vector payload: ANN segment contains a non-finite value"@)
                },
            },
        }
    }
}

/// Reads one entry of `dimension` values at `cursor`.
pub open spec fn spec_read_entry(bytes: Seq<u8>, cursor: int, dimension: u32) -> Result<
    (EntryView, int),
    Seq<char>,
> {
    match spec_read_string(bytes, cursor) {
        Err(message) => Err(message),
        Ok((key, c1)) => match spec_read_fixed(bytes, c1, 16) {
            Err(message) => Err(message),
            Ok((space_id, c2)) => match spec_read_fixed(bytes, c2, 16) {
                Err(message) => Err(message),
                Ok((memory_id, c3)) => match spec_read_fixed(bytes, c3, 32) {
                    Err(message) => Err(message),
                    Ok((revision_id, c4)) => match spec_read_fixed(bytes, c4, 8) {
                        Err(message) => Err(message),
                        Ok((generation, c5)) => match spec_read_fixed(bytes, c5, 32) {
                            Err(message) => Err(message),
                            Ok((payload_hash, c6)) => match spec_read_values(
                                bytes,
                                c6,
                                dimension as nat,
                            ) {
                                Err(message) => Err(message),
                                Ok((values, c7)) => if values.len() == 0 || !all_finite(values) {
                                    Err("ANN segment vector values must be finite and non-empty"@)
                                } else if key.len() == 0 {
                                    Err("ANN segment target key must not be empty"@)
                                } else {
                                    Ok(
                                        (
                                            EntryView {
                                                key,
                                                membership: MembershipView {
                                                    space_id,
                                                    memory_id,
                                                    revision_id,
                                                    generation: from_le_u64(generation),
                                                    payload_hash,
                                                },
                                                values,
                                            },
                                            c7,
                                        ),
                                    )
                                },
                            },
                        },
                    },
                },
            },
        },
    }
}

/// Reads `count` entries at `cursor`.
pub open spec fn spec_read_entries(bytes: Seq<u8>, cursor: int, count: nat, dimension: u32) -> Result<
    (Seq<EntryView>, int),
    Seq<char>,
>
    decreases count,
{
    if count == 0 {
        Ok((seq![], cursor))
    } else {
        match spec_read_entries(bytes, cursor, (count - 1) as nat, dimension) {
            Err(message) => Err(message),
            Ok((entries, next)) => match spec_read_entry(bytes, next, dimension) {
                Err(message) => Err(message),
                Ok((entry, after)) => Ok((entries.push(entry), after)),
            },
        }
    }
}

/// Reads an encoded segment: its producer, dimension and entries as
/// encoded, or the refusal of the first thing that is wrong.
pub open spec fn parse_segment(bytes: Seq<u8>) -> Result<(Seq<char>, u32, Seq<EntryView>), Seq<char>> {
    if bytes.len() < 22 {
        Err("vector payload: ANN segment is truncated"@)
    } else if bytes.subrange(0, 8) != ann_segment_magic() {
        Err("vector payload: ANN segment magic does not match MEMANN01"@)
    } else if from_le_u16(bytes.subrange(8, 10)) != 1 {
        Err("vector payload: unsupported ANN segment format version"@)
    } else if from_le_u32(bytes.subrange(10, 14)) == 0 {
        Err("vector payload: ANN segment dimension must be positive"@)
    } else {
        let dimension = from_le_u32(bytes.subrange(10, 14));
        match spec_read_string(bytes, 14) {
            Err(message) => Err(message),
            Ok((producer, c1)) => match spec_read_u32(bytes, c1) {
                Err(message) => Err(message),
                Ok((count, c2)) => match spec_read_entries(bytes, c2, count as nat, dimension) {
                    Err(message) => Err(message),
                    Ok((entries, c3)) => {
                        let encoded = if entries.len() == 0 {
                            0
                        } else {
                            entries[0].values.len() as int
                        };
                        if c3 != bytes.len() || encoded != dimension {
                            Err("vector payload: ANN segment has an invalid encoded length"@)
                        } else {
                            Ok((producer, dimension, entries))
                        }
                    },
                },
            },
        }
    }
}

fn read_string_u32(bytes: &[u8], cursor: &mut usize) -> (result: Result<String, DerivedError>)
    requires
        *old(cursor) <= bytes@.len(),
    ensures
        match spec_read_string(bytes@, *old(cursor) as int) {
            Ok((value, next)) => result matches Ok(text) && text@ == value && *final(cursor) == next,
            Err(message) => result matches Err(error) && invalid_value(error, message),
        },
        result is Ok ==> *final(cursor) <= bytes@.len(),
{
    let length = read_u32(bytes, cursor)?;
    let start = *cursor;
    let end = match start.checked_add(length as usize) {
        Some(end) => end,
        None => {
            return Err(invalid("vector payload: encoded ANN string length overflow"));
        },
    };
    if end > bytes.len() {
        return Err(invalid("vector payload: encoded ANN string is truncated"));
    }
    let raw = read_bytes(bytes, cursor, length as usize)?;
    match string_from_utf8(raw) {
        Some(text) => {
            proof {
                vstd::utf8::encode_utf8_decode_utf8(text@);
            }
            Ok(text)
        },
        None => Err(invalid("vector payload: encoded ANN string is not UTF-8")),
    }
}

fn read_values(bytes: &[u8], cursor: &mut usize, count: u32) -> (result: Result<Vec<u32>, DerivedError>)
    requires
        *old(cursor) <= bytes@.len(),
    ensures
        match spec_read_values(bytes@, *old(cursor) as int, count as nat) {
            Ok((values, next)) => result matches Ok(read) && read@ == values && *final(cursor)
                == next,
            Err(message) => result matches Err(error) && invalid_value(error, message),
        },
        result is Ok ==> *final(cursor) <= bytes@.len(),
{
    let ghost start = *cursor as int;
    let mut values: Vec<u32> = Vec::new();
    let mut i: u32 = 0;
    while i < count
        invariant
            start == *old(cursor) as int,
            *cursor <= bytes@.len(),
            i <= count,
            spec_read_values(bytes@, start, i as nat) == Ok::<(Seq<u32>, int), Seq<char>>(
                (values@, *cursor as int),
            ),
        decreases count - i,
    {
        let ghost before = *cursor as int;
        let value = match read_u32(bytes, cursor) {
            Ok(value) => value,
            Err(error) => {
                proof {
                    assert(spec_read_u32(bytes@, before) == Err::<(u32, int), Seq<char>>(truncated()));
                    assert(spec_read_values(bytes@, start, (i + 1) as nat) == Err::<
                        (Seq<u32>, int),
                        Seq<char>,
                    >(truncated()));
                    lemma_values_error_persists(bytes@, start, (i + 1) as nat, count as nat);
                }
                return Err(error);
            },
        };
        if !is_finite_bits(value) {
            proof {
                assert(spec_read_values(bytes@, start, (i + 1) as nat) == Err::<
                    (Seq<u32>, int),
                    Seq<char>,
                >("vector payload: ANN segment contains a non-finite value"@));
                lemma_values_error_persists(bytes@, start, (i + 1) as nat, count as nat);
            }
            return Err(invalid("vector payload: ANN segment contains a non-finite value"));
        }
        values.push(value);
        i = i + 1;
    }
    Ok(values)
}

proof fn lemma_values_error_persists(bytes: Seq<u8>, cursor: int, n: nat, count: nat)
    requires
        n <= count,
        spec_read_values(bytes, cursor, n) is Err,
    ensures
        spec_read_values(bytes, cursor, count) == spec_read_values(bytes, cursor, n),
    decreases count - n,
{
    if n < count {
        lemma_values_error_persists(bytes, cursor, n + 1, count);
    }
}

proof fn lemma_entries_error_persists(bytes: Seq<u8>, cursor: int, n: nat, count: nat, dimension: u32)
    requires
        n <= count,
        spec_read_entries(bytes, cursor, n, dimension) is Err,
    ensures
        spec_read_entries(bytes, cursor, count, dimension) == spec_read_entries(
            bytes,
            cursor,
            n,
            dimension,
        ),
    decreases count - n,
{
    if n < count {
        lemma_entries_error_persists(bytes, cursor, n + 1, count, dimension);
    }
}

fn read_entry(bytes: &[u8], cursor: &mut usize, dimension: u32) -> (result: Result<
    AnnSegmentEntry,
    DerivedError,
>)
    requires
        *old(cursor) <= bytes@.len(),
    ensures
        match spec_read_entry(bytes@, *old(cursor) as int, dimension) {
            Ok((entry, next)) => result matches Ok(read) && read@ == entry && *final(cursor) == next,
            Err(message) => result matches Err(error) && invalid_value(error, message),
        },
        result is Ok ==> *final(cursor) <= bytes@.len(),
{
    let target_key = read_string_u32(bytes, cursor)?;
    let space_id = SpaceId::from_bytes(read_array16(bytes, cursor)?);
    let memory_id = MemoryId::from_bytes(read_array16(bytes, cursor)?);
    let revision_id = RevisionId::from_bytes(read_array32(bytes, cursor)?);
    let ghost generation_start = *cursor as int;
    let generation = read_u64(bytes, cursor)?;
    proof {
        if generation_start + 8 <= bytes@.len() {
            assert(spec_read_fixed(bytes@, generation_start, 8) == Ok::<(Seq<u8>, int), Seq<char>>(
                (bytes@.subrange(generation_start, generation_start + 8), generation_start + 8),
            ));
        }
    }
    let payload_hash = read_array32(bytes, cursor)?;
    let values = read_values(bytes, cursor, dimension)?;
    let membership = VectorMembership::from_parts(
        space_id,
        memory_id,
        revision_id,
        AuthorityGeneration::new(generation),
        payload_hash,
    );
    AnnSegmentEntry::new(target_key.as_str(), membership, values)
}

/// What reading a stored segment gives for decoded `producer_signature`
/// and `entries`: what building them gives when that fails or hashes to
/// `expected`, and a checksum error when the built segment hashes to
/// anything else.
pub open spec fn stored_segment_outcome(
    result: Result<AnnSegmentV1, DerivedError>,
    producer_signature: Seq<char>,
    entries: Seq<EntryView>,
    expected: Seq<u8>,
) -> bool {
    &&& result matches Ok(segment) ==> build_outcome(result, producer_signature, entries)
        && sha256_spec(segment_bytes(segment@)) == expected
    &&& result matches Err(error) ==> build_outcome(result, producer_signature, entries) || (
    invalid_value(error, "vector payload: ANN segment checksum does not match its path"@) && exists|
        built: AnnSegmentV1,
    |
        #[trigger] build_outcome(Ok(built), producer_signature, entries) && sha256_spec(
            segment_bytes(built@),
        ) != expected)
    &&& (exists|built: AnnSegmentV1| #[trigger]
        build_outcome(Ok(built), producer_signature, entries)) && (forall|built: AnnSegmentV1|
        #[trigger] build_outcome(Ok(built), producer_signature, entries) ==> sha256_spec(
            segment_bytes(built@),
        ) == expected) ==> result is Ok
}

impl AnnSegmentV1 {
    /// Reads the segment stored under `expected`: the bytes must be an
    /// encoded segment that builds, and the built segment must hash to
    /// `expected`.
    pub fn from_stored_bytes(bytes: &[u8], expected: &[u8; 32]) -> (result: Result<Self, DerivedError>)
        ensures
            match parse_segment(bytes@) {
                Err(message) => result matches Err(error) && invalid_value(error, message),
                Ok((producer, _dimension, entries)) => stored_segment_outcome(
                    result,
                    producer,
                    entries,
                    expected@,
                ),
            },
    {
        let segment = AnnSegmentV1::from_canonical_bytes(bytes)?;
        let hash = segment.hash();
        if !crate::ids::bytes_equal(hash.as_slice(), expected.as_slice()) {
            let error = invalid("vector payload: ANN segment checksum does not match its path");
            proof {
                if let Ok((producer, _dimension, entries)) = parse_segment(bytes@) {
                    assert(build_outcome(Ok(segment), producer, entries));
                }
            }
            return Err(error);
        }
        Ok(segment)
    }
}

impl AnnSegmentV1 {
    /// Reads an encoded segment and builds it, refusing anything else.
    pub fn from_canonical_bytes(bytes: &[u8]) -> (result: Result<Self, DerivedError>)
        ensures
            match parse_segment(bytes@) {
                Err(message) => result matches Err(error) && invalid_value(error, message),
                Ok((producer, _dimension, entries)) => build_outcome(result, producer, entries),
            },
    {
        if bytes.len() < 22 {
            return Err(invalid("vector payload: ANN segment is truncated"));
        }
        if !has_magic(bytes, 65u8, 78u8, 78u8) {
            return Err(invalid("vector payload: ANN segment magic does not match MEMANN01"));
        }
        let mut cursor: usize = 8;
        let version = read_u16(bytes, &mut cursor)?;
        if version != 1 {
            return Err(invalid("vector payload: unsupported ANN segment format version"));
        }
        let dimension = read_u32(bytes, &mut cursor)?;
        if dimension == 0 {
            return Err(invalid("vector payload: ANN segment dimension must be positive"));
        }
        let producer_signature = read_string_u32(bytes, &mut cursor)?;
        let count = read_u32(bytes, &mut cursor)?;
        let ghost entries_start = cursor as int;
        let mut entries: Vec<AnnSegmentEntry> = Vec::new();
        let mut i: u32 = 0;
        assert(entry_views(entries@) =~= Seq::<EntryView>::empty());
        assert(spec_read_entries(bytes@, entries_start, count as nat, dimension) is Err
            ==> parse_segment(bytes@) == Err::<(Seq<char>, u32, Seq<EntryView>), Seq<char>>(
            spec_read_entries(bytes@, entries_start, count as nat, dimension)->Err_0,
        ));
        while i < count
            invariant
                spec_read_entries(bytes@, entries_start, count as nat, dimension) is Err
                    ==> parse_segment(bytes@) == Err::<(Seq<char>, u32, Seq<EntryView>), Seq<char>>(
                    spec_read_entries(bytes@, entries_start, count as nat, dimension)->Err_0,
                ),
                cursor <= bytes@.len(),
                i <= count,
                spec_read_entries(bytes@, entries_start, i as nat, dimension) == Ok::<
                    (Seq<EntryView>, int),
                    Seq<char>,
                >((entry_views(entries@), cursor as int)),
            decreases count - i,
        {
            let ghost before_cursor = cursor as int;
            let entry = match read_entry(bytes, &mut cursor, dimension) {
                Ok(entry) => entry,
                Err(error) => {
                    proof {
                        assert(spec_read_entry(bytes@, before_cursor, dimension) is Err);
                        assert(spec_read_entries(bytes@, entries_start, (i + 1) as nat, dimension)
                            == Err::<(Seq<EntryView>, int), Seq<char>>(
                            spec_read_entry(bytes@, before_cursor, dimension)->Err_0,
                        ));
                        lemma_entries_error_persists(
                            bytes@,
                            entries_start,
                            (i + 1) as nat,
                            count as nat,
                            dimension,
                        );
                    }
                    return Err(error);
                },
            };
            let ghost before = entry_views(entries@);
            entries.push(entry);
            assert(entry_views(entries@) =~= before.push(entry@));
            i = i + 1;
        }
        let encoded: usize = if entries.len() == 0 {
            0
        } else {
            entries[0].values.len()
        };
        proof {
            if entries@.len() > 0 {
                assert(entry_views(entries@)[0] == entries@[0]@);
            }
        }
        if cursor != bytes.len() || encoded != dimension as usize {
            return Err(invalid("vector payload: ANN segment has an invalid encoded length"));
        }
        Self::build(producer_signature.as_str(), entries)
    }
}

/// An entry that encodes faithfully at `dimension`: its values fit the
/// dimension and are finite, its key is non-empty and short enough, and
/// its identifiers have their fixed lengths.
pub open spec fn entry_encodable(entry: EntryView, dimension: u32) -> bool {
    &&& entry.values.len() == dimension
    &&& entry.values.len() > 0
    &&& all_finite(entry.values)
    &&& entry.key.len() > 0
    &&& key_bytes(entry).len() <= u32::MAX
    &&& entry.membership.space_id.len() == 16
    &&& entry.membership.memory_id.len() == 16
    &&& entry.membership.revision_id.len() == 32
    &&& entry.membership.payload_hash.len() == 32
}

/// A segment as `build` makes it, small enough to encode: a producer that
/// is not blank, a positive dimension, at least one entry, every entry
/// encodable, the keys in increasing order.
pub open spec fn segment_encodable(segment: SegmentView) -> bool {
    &&& !is_blank(segment.producer_signature)
    &&& encode_utf8(segment.producer_signature).len() <= u32::MAX
    &&& segment.dimension > 0
    &&& 0 < segment.entries.len() <= u32::MAX
    &&& forall|i: int|
        0 <= i < segment.entries.len() ==> entry_encodable(
            #[trigger] segment.entries[i],
            segment.dimension,
        )
    &&& keys_sorted(segment.entries)
    &&& segment_bytes(segment).len() <= usize::MAX
}

proof fn lemma_read_u32_at(bytes: Seq<u8>, cursor: int, value: u32)
    requires
        0 <= cursor,
        cursor + 4 <= bytes.len(),
        bytes.subrange(cursor, cursor + 4) == le_u32(value),
    ensures
        spec_read_u32(bytes, cursor) == Ok::<(u32, int), Seq<char>>((value, cursor + 4)),
{
    lemma_le_roundtrips();
    assert(le_u32(value).len() == 4);
    assert(from_le_u32(le_u32(value)) == value);
}

proof fn lemma_read_string_at(bytes: Seq<u8>, cursor: int, text: Seq<char>)
    requires
        0 <= cursor,
        encode_utf8(text).len() <= u32::MAX,
        cursor + 4 + encode_utf8(text).len() <= bytes.len(),
        bytes.len() <= usize::MAX,
        bytes.subrange(cursor, cursor + 4 + encode_utf8(text).len()) == string_u32(
            encode_utf8(text),
        ),
    ensures
        spec_read_string(bytes, cursor) == Ok::<(Seq<char>, int), Seq<char>>(
            (text, cursor + 4 + encode_utf8(text).len()),
        ),
{
    lemma_le_roundtrips();
    let encoded = encode_utf8(text);
    let length = encoded.len() as int;
    let whole = bytes.subrange(cursor, cursor + 4 + length);
    assert(bytes.subrange(cursor, cursor + 4) =~= whole.subrange(0, 4));
    assert(whole.subrange(0, 4) =~= le_u32(length as u32));
    lemma_read_u32_at(bytes, cursor, length as u32);
    assert(bytes.subrange(cursor + 4, cursor + 4 + length) =~= whole.subrange(4, 4 + length));
    assert(whole.subrange(4, 4 + length) =~= encoded);
    vstd::utf8::encode_utf8_valid_utf8(text);
    vstd::utf8::encode_utf8_decode_utf8(text);
}

proof fn lemma_read_values_at(bytes: Seq<u8>, cursor: int, values: Seq<u32>)
    requires
        0 <= cursor,
        cursor + 4 * values.len() <= bytes.len(),
        bytes.subrange(cursor, cursor + 4 * values.len()) == le_bits(values),
        all_finite(values),
    ensures
        spec_read_values(bytes, cursor, values.len()) == Ok::<(Seq<u32>, int), Seq<char>>(
            (values, cursor + 4 * values.len()),
        ),
    decreases values.len(),
{
    if values.len() > 0 {
        let n = values.len() as int;
        let prefix = values.drop_last();
        crate::vector::lemma_le_bits(prefix);
        crate::vector::lemma_le_bits(values);
        lemma_le_roundtrips();
        let whole = bytes.subrange(cursor, cursor + 4 * n);
        assert(le_bits(values) == le_bits(prefix) + le_u32(values.last()));
        assert(bytes.subrange(cursor, cursor + 4 * (n - 1)) =~= whole.subrange(0, 4 * (n - 1)));
        assert(whole.subrange(0, 4 * (n - 1)) =~= le_bits(prefix));
        assert forall|i: int| 0 <= i < prefix.len() implies crate::embedding::finite_bits(
            #[trigger] prefix[i],
        ) by {
            assert(prefix[i] == values[i]);
        }
        lemma_read_values_at(bytes, cursor, prefix);
        assert(bytes.subrange(cursor + 4 * (n - 1), cursor + 4 * n) =~= whole.subrange(
            4 * (n - 1),
            4 * n,
        ));
        assert(whole.subrange(4 * (n - 1), 4 * n) =~= le_u32(values.last()));
        lemma_read_u32_at(bytes, cursor + 4 * (n - 1), values.last());
        assert(crate::embedding::finite_bits(values[n - 1]));
        assert(prefix.push(values.last()) =~= values);
    } else {
        assert(values =~= Seq::<u32>::empty());
    }
}

proof fn lemma_entry_bytes_len(entry: EntryView)
    requires
        entry.membership.space_id.len() == 16,
        entry.membership.memory_id.len() == 16,
        entry.membership.revision_id.len() == 32,
        entry.membership.payload_hash.len() == 32,
    ensures
        entry_bytes(entry).len() == 4 + key_bytes(entry).len() + 16 + 16 + 32 + 8 + 32 + 4
            * entry.values.len(),
{
    lemma_le_roundtrips();
    crate::vector::lemma_le_bits(entry.values);
}

proof fn lemma_read_entry_at(bytes: Seq<u8>, cursor: int, entry: EntryView, dimension: u32)
    requires
        0 <= cursor,
        entry_encodable(entry, dimension),
        cursor + entry_bytes(entry).len() <= bytes.len(),
        bytes.len() <= usize::MAX,
        bytes.subrange(cursor, cursor + entry_bytes(entry).len()) == entry_bytes(entry),
    ensures
        spec_read_entry(bytes, cursor, dimension) == Ok::<(EntryView, int), Seq<char>>(
            (entry, cursor + entry_bytes(entry).len()),
        ),
{
    lemma_le_roundtrips();
    lemma_entry_bytes_len(entry);
    crate::vector::lemma_le_bits(entry.values);
    let whole = bytes.subrange(cursor, cursor + entry_bytes(entry).len());
    let k = key_bytes(entry).len() as int;
    let m = entry.membership;
    let c1 = cursor + 4 + k;
    assert(bytes.subrange(cursor, c1) =~= whole.subrange(0, 4 + k));
    assert(whole.subrange(0, 4 + k) =~= string_u32(key_bytes(entry)));
    lemma_read_string_at(bytes, cursor, entry.key);
    assert(bytes.subrange(c1, c1 + 16) =~= whole.subrange(4 + k, 20 + k));
    assert(whole.subrange(4 + k, 20 + k) =~= m.space_id);
    assert(bytes.subrange(c1 + 16, c1 + 32) =~= whole.subrange(20 + k, 36 + k));
    assert(whole.subrange(20 + k, 36 + k) =~= m.memory_id);
    assert(bytes.subrange(c1 + 32, c1 + 64) =~= whole.subrange(36 + k, 68 + k));
    assert(whole.subrange(36 + k, 68 + k) =~= m.revision_id);
    assert(bytes.subrange(c1 + 64, c1 + 72) =~= whole.subrange(68 + k, 76 + k));
    assert(whole.subrange(68 + k, 76 + k) =~= le_u64(m.generation));
    assert(bytes.subrange(c1 + 72, c1 + 104) =~= whole.subrange(76 + k, 108 + k));
    assert(whole.subrange(76 + k, 108 + k) =~= m.payload_hash);
    let n = entry.values.len() as int;
    assert(bytes.subrange(c1 + 104, c1 + 104 + 4 * n) =~= whole.subrange(108 + k, 108 + k + 4 * n));
    assert(whole.subrange(108 + k, 108 + k + 4 * n) =~= le_bits(entry.values));
    lemma_read_values_at(bytes, c1 + 104, entry.values);
    assert(le_u64(m.generation).len() == 8);
    assert(from_le_u64(le_u64(m.generation)) == m.generation);
    assert(spec_read_fixed(bytes, c1, 16) == Ok::<(Seq<u8>, int), Seq<char>>((m.space_id, c1 + 16)));
    assert(spec_read_fixed(bytes, c1 + 16, 16) == Ok::<(Seq<u8>, int), Seq<char>>(
        (m.memory_id, c1 + 32),
    ));
    assert(spec_read_fixed(bytes, c1 + 32, 32) == Ok::<(Seq<u8>, int), Seq<char>>(
        (m.revision_id, c1 + 64),
    ));
    assert(spec_read_fixed(bytes, c1 + 64, 8) == Ok::<(Seq<u8>, int), Seq<char>>(
        (le_u64(m.generation), c1 + 72),
    ));
    assert(spec_read_fixed(bytes, c1 + 72, 32) == Ok::<(Seq<u8>, int), Seq<char>>(
        (m.payload_hash, c1 + 104),
    ));
    assert(c1 + 104 + 4 * n == cursor + entry_bytes(entry).len());
    assert(spec_read_values(bytes, c1 + 104, dimension as nat) == Ok::<(Seq<u32>, int), Seq<char>>(
        (entry.values, c1 + 104 + 4 * n),
    ));
    assert(spec_read_string(bytes, cursor) == Ok::<(Seq<char>, int), Seq<char>>((entry.key, c1)));
    let rebuilt = MembershipView {
        space_id: m.space_id,
        memory_id: m.memory_id,
        revision_id: m.revision_id,
        generation: from_le_u64(le_u64(m.generation)),
        payload_hash: m.payload_hash,
    };
    assert(rebuilt == m);
    assert(EntryView { key: entry.key, membership: rebuilt, values: entry.values } == entry);
}

proof fn lemma_read_entries_at(bytes: Seq<u8>, cursor: int, entries: Seq<EntryView>, dimension: u32)
    requires
        0 <= cursor,
        forall|i: int| 0 <= i < entries.len() ==> entry_encodable(#[trigger] entries[i], dimension),
        cursor + entries_bytes(entries).len() <= bytes.len(),
        bytes.len() <= usize::MAX,
        bytes.subrange(cursor, cursor + entries_bytes(entries).len()) == entries_bytes(entries),
    ensures
        spec_read_entries(bytes, cursor, entries.len(), dimension) == Ok::<
            (Seq<EntryView>, int),
            Seq<char>,
        >((entries, cursor + entries_bytes(entries).len())),
    decreases entries.len(),
{
    if entries.len() > 0 {
        let prefix = entries.drop_last();
        let last = entries.last();
        let p = entries_bytes(prefix).len() as int;
        let whole = bytes.subrange(cursor, cursor + entries_bytes(entries).len());
        assert(entries_bytes(entries) == entries_bytes(prefix) + entry_bytes(last));
        assert forall|i: int| 0 <= i < prefix.len() implies entry_encodable(
            #[trigger] prefix[i],
            dimension,
        ) by {
            assert(prefix[i] == entries[i]);
        }
        assert(bytes.subrange(cursor, cursor + p) =~= whole.subrange(0, p));
        assert(whole.subrange(0, p) =~= entries_bytes(prefix));
        lemma_read_entries_at(bytes, cursor, prefix, dimension);
        let q = entry_bytes(last).len() as int;
        assert(bytes.subrange(cursor + p, cursor + p + q) =~= whole.subrange(p, p + q));
        assert(whole.subrange(p, p + q) =~= entry_bytes(last));
        assert(entry_encodable(entries[entries.len() - 1], dimension));
        lemma_read_entry_at(bytes, cursor + p, last, dimension);
        assert(prefix.push(last) =~= entries);
    } else {
        assert(entries =~= Seq::<EntryView>::empty());
    }
}

/// Reading the encoding of a segment gives back its producer, dimension and
/// entries.
pub proof fn law_segment_encoding_reads_back(segment: SegmentView)
    requires
        segment_encodable(segment),
    ensures
        parse_segment(segment_bytes(segment)) == Ok::<
            (Seq<char>, u32, Seq<EntryView>),
            Seq<char>,
        >((segment.producer_signature, segment.dimension, segment.entries)),
{
    lemma_le_roundtrips();
    let bytes = segment_bytes(segment);
    let producer = encode_utf8(segment.producer_signature);
    let count = segment.entries.len();
    let head = ann_segment_magic() + le_u16(1) + le_u32(segment.dimension);
    assert(head.len() == 14);
    let tail = string_u32(producer) + le_u32(count as u32) + entries_bytes(segment.entries);
    assert(bytes =~= head + tail);
    assert(bytes.subrange(0, 8) =~= ann_segment_magic());
    assert(bytes.subrange(8, 10) =~= le_u16(1));
    assert(bytes.subrange(10, 14) =~= le_u32(segment.dimension));
    let c1: int = 18 + producer.len() as int;
    assert(bytes.subrange(14, c1) =~= string_u32(producer));
    lemma_read_string_at(bytes, 14, segment.producer_signature);
    assert(bytes.subrange(c1, c1 + 4) =~= le_u32(count as u32));
    lemma_read_u32_at(bytes, c1, count as u32);
    assert((count as u32) as nat == count);
    let c2: int = c1 + 4;
    assert(bytes.subrange(c2, bytes.len() as int) =~= entries_bytes(segment.entries));
    lemma_read_entries_at(bytes, c2, segment.entries, segment.dimension);
    assert(entry_encodable(segment.entries[0], segment.dimension));
}

/// Building from entries already in key order, one per key, keeps them as
/// they are.
pub proof fn law_sorted_entries_build_unchanged(entries: Seq<EntryView>, built: Seq<EntryView>)
    requires
        keys_sorted(entries),
        latest_by_key(entries, built),
    ensures
        built == entries,
    decreases entries.len(),
{
    // Every entry of a sorted sequence is the last of its key.
    assert forall|i: int| 0 <= i < entries.len() implies is_last_for_key(entries, i) by {
        assert forall|j: int| i < j < entries.len() implies key_bytes(#[trigger] entries[j])
            != key_bytes(entries[i]) by {
            assert(lex_less(key_bytes(entries[i]), key_bytes(entries[j])));
            lemma_lex_order_equal(key_bytes(entries[i]), key_bytes(entries[j]));
        }
    }
    lemma_sorted_same_elements(entries, built);
}

proof fn lemma_sorted_same_elements(a: Seq<EntryView>, b: Seq<EntryView>)
    requires
        keys_sorted(a),
        keys_sorted(b),
        forall|i: int| 0 <= i < a.len() ==> #[trigger] b.contains(a[i]),
        forall|k: int| 0 <= k < b.len() ==> #[trigger] a.contains(b[k]),
    ensures
        a == b,
    decreases a.len() + b.len(),
{
    if a.len() == 0 {
        if b.len() > 0 {
            assert(a.contains(b[0]));
        }
        assert(b =~= Seq::<EntryView>::empty());
    } else if b.len() == 0 {
        assert(b.contains(a[0]));
    } else {
        // The first elements agree: each is the least key of both.
        assert(b.contains(a[0]));
        let kb = choose|k: int| 0 <= k < b.len() && b[k] == a[0];
        assert(a.contains(b[0]));
        let ka = choose|i: int| 0 <= i < a.len() && a[i] == b[0];
        if kb > 0 {
            assert(lex_less(key_bytes(b[0]), key_bytes(b[kb])));
            if ka > 0 {
                assert(lex_less(key_bytes(a[0]), key_bytes(a[ka])));
                lemma_lex_less_transitive(key_bytes(b[0]), key_bytes(a[0]), key_bytes(b[0]));
                lemma_lex_order_equal(key_bytes(b[0]), key_bytes(b[0]));
            } else {
                lemma_lex_order_equal(key_bytes(b[0]), key_bytes(b[kb]));
            }
        }
        assert(kb == 0);
        let ta = a.drop_first();
        let tb = b.drop_first();
        assert forall|i: int, j: int| 0 <= i < j < ta.len() implies lex_less(
            key_bytes(#[trigger] ta[i]),
            key_bytes(#[trigger] ta[j]),
        ) by {
            assert(ta[i] == a[i + 1] && ta[j] == a[j + 1]);
        }
        assert forall|i: int, j: int| 0 <= i < j < tb.len() implies lex_less(
            key_bytes(#[trigger] tb[i]),
            key_bytes(#[trigger] tb[j]),
        ) by {
            assert(tb[i] == b[i + 1] && tb[j] == b[j + 1]);
        }
        assert forall|i: int| 0 <= i < ta.len() implies #[trigger] tb.contains(ta[i]) by {
            assert(ta[i] == a[i + 1]);
            assert(b.contains(a[i + 1]));
            let k = choose|k: int| 0 <= k < b.len() && b[k] == a[i + 1];
            assert(lex_less(key_bytes(a[0]), key_bytes(a[i + 1])));
            if k == 0 {
                lemma_lex_order_equal(key_bytes(a[0]), key_bytes(a[i + 1]));
            }
            assert(tb[k - 1] == ta[i]);
        }
        assert forall|k: int| 0 <= k < tb.len() implies #[trigger] ta.contains(tb[k]) by {
            assert(tb[k] == b[k + 1]);
            assert(a.contains(b[k + 1]));
            let i = choose|i: int| 0 <= i < a.len() && a[i] == b[k + 1];
            assert(lex_less(key_bytes(b[0]), key_bytes(b[k + 1])));
            if i == 0 {
                lemma_lex_order_equal(key_bytes(b[0]), key_bytes(b[k + 1]));
            }
            assert(ta[i - 1] == tb[k]);
        }
        lemma_sorted_same_elements(ta, tb);
        assert(a =~= seq![a[0]] + ta);
        assert(b =~= seq![b[0]] + tb);
    }
}

/// Reading back a written segment rebuilds the same segment: whatever
/// `from_canonical_bytes` returns on `segment_bytes(segment)` (it meets
/// `build_outcome` on what `parse_segment` reads there) is that segment.
pub proof fn law_segment_roundtrip(segment: SegmentView, result: Result<AnnSegmentV1, DerivedError>)
    requires
        segment_encodable(segment),
        build_outcome(result, segment.producer_signature, segment.entries),
    ensures
        result matches Ok(read) && read@ == segment,
{
    assert(entry_encodable(segment.entries[0], segment.dimension));
    assert(dimensions_agree(segment.entries, segment.entries[0].values.len() as int)) by {
        assert forall|i: int| 0 <= i < segment.entries.len() implies #[trigger] segment.entries[i].values.len()
            == segment.entries[0].values.len() by {
            assert(entry_encodable(segment.entries[i], segment.dimension));
        }
    }
    let read = result->Ok_0;
    law_sorted_entries_build_unchanged(segment.entries, read@.entries);
}


/// A segment that `build` made from valid entries is encodable, as long as
/// its lengths fit the format's length fields.
pub proof fn lemma_built_segment_encodable(
    producer_signature: Seq<char>,
    entries: Seq<EntryView>,
    built: AnnSegmentV1,
)
    requires
        build_outcome(Ok(built), producer_signature, entries),
        forall|i: int| 0 <= i < entries.len() ==> entry_valid(#[trigger] entries[i]),
        forall|i: int| 0 <= i < entries.len() ==> key_bytes(#[trigger] entries[i]).len() <= u32::MAX,
        encode_utf8(producer_signature).len() <= u32::MAX,
        built@.entries.len() <= u32::MAX,
        segment_bytes(built@).len() <= usize::MAX,
    ensures
        segment_encodable(built@),
{
    let segment = built@;
    let last = entries.len() - 1;
    assert(is_last_for_key(entries, last));
    assert(segment.entries.contains(entries[last]));
    assert forall|i: int| 0 <= i < segment.entries.len() implies entry_encodable(
        #[trigger] segment.entries[i],
        segment.dimension,
    ) by {
        let j = choose|j: int|
            0 <= j < entries.len() && #[trigger] entries[j] == segment.entries[i] && is_last_for_key(
                entries,
                j,
            );
        assert(entry_valid(entries[j]));
        assert(key_bytes(entries[j]).len() <= u32::MAX);
        assert(entries[j].values.len() == entries[0].values.len());
    }
}

/// A segment that `build` made reads back as itself: when its encoding
/// fits the format's length fields, reading `segment_bytes` of it gives
/// that segment again.
pub proof fn law_built_segment_roundtrip(
    producer_signature: Seq<char>,
    entries: Seq<EntryView>,
    built: AnnSegmentV1,
    read: Result<AnnSegmentV1, DerivedError>,
)
    requires
        build_outcome(Ok(built), producer_signature, entries),
        forall|i: int| 0 <= i < entries.len() ==> entry_valid(#[trigger] entries[i]),
        forall|i: int| 0 <= i < entries.len() ==> key_bytes(#[trigger] entries[i]).len() <= u32::MAX,
        encode_utf8(producer_signature).len() <= u32::MAX,
        built@.entries.len() <= u32::MAX,
        segment_bytes(built@).len() <= usize::MAX,
        build_outcome(read, built@.producer_signature, built@.entries),
    ensures
        read matches Ok(copy) && copy@ == built@,
{
    lemma_built_segment_encodable(producer_signature, entries, built);
    law_segment_roundtrip(built@, read);
}

} // verus!
