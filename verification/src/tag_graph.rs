use vstd::prelude::*;
use vstd::utf8::{decode_utf8, encode_utf8};

use crate::digest::{sha256, sha256_spec};
use crate::encode::{be_u32, extend_bytes, framed, push_be_u32, put_framed};
use crate::ids::{MemoryId, RevisionId, SpaceId};
use crate::projection::tags::TagProvenance;
use crate::seqs::{compare_bytes, lemma_lex_less_transitive, lemma_lex_order_equal, lemma_lex_order_flip, lemma_lex_order_range, lex_less, lex_order};
use crate::tag_dictionary::{last_value_with_id, normalize_tag_spec, tag_id_spec, TagDictionary, TagId};
use crate::{invalid, invalid_value, DerivedError};

verus! {

/// A tag membership to record: where, which value and where from.
#[derive(Clone, Debug)]
pub struct TagMembershipInput {
    pub space_id: SpaceId,
    pub memory_id: MemoryId,
    pub revision_id: RevisionId,
    pub value: String,
    pub provenance: TagProvenance,
    pub node_id: Option<String>,
}

impl TagMembershipInput {
    pub fn new(
        space_id: SpaceId,
        memory_id: MemoryId,
        revision_id: RevisionId,
        value: &str,
        provenance: TagProvenance,
    ) -> (input: Self)
        ensures
            input.space_id == space_id,
            input.memory_id == memory_id,
            input.revision_id == revision_id,
            input.value@ == value@,
            input.provenance == provenance,
            input.node_id is None,
    {
        TagMembershipInput {
            space_id,
            memory_id,
            revision_id,
            value: crate::text::owned(value),
            provenance,
            node_id: None,
        }
    }

    pub fn with_node_id(self, node_id: &str) -> (input: Self)
        ensures
            input.space_id == self.space_id,
            input.memory_id == self.memory_id,
            input.revision_id == self.revision_id,
            input.value == self.value,
            input.provenance == self.provenance,
            input.node_id matches Some(id) && id@ == node_id@,
    {
        TagMembershipInput { node_id: Some(crate::text::owned(node_id)), ..self }
    }
}

/// A recorded membership of a tag in one revision.
#[derive(Clone, Debug)]
pub struct TagMembershipEvidence {
    pub space_id: SpaceId,
    pub memory_id: MemoryId,
    pub revision_id: RevisionId,
    pub tag_id: TagId,
    pub normalized_value: String,
    pub provenance: TagProvenance,
    pub node_id: Option<String>,
}

/// What a membership holds.
pub ghost struct EvidenceView {
    pub space_id: Seq<u8>,
    pub memory_id: Seq<u8>,
    pub revision_id: Seq<u8>,
    pub tag_id: Seq<u8>,
    pub value: Seq<char>,
    pub provenance: TagProvenance,
    pub node_id: Option<Seq<char>>,
}

impl View for TagMembershipEvidence {
    type V = EvidenceView;

    closed spec fn view(&self) -> EvidenceView {
        EvidenceView {
            space_id: self.space_id@,
            memory_id: self.memory_id@,
            revision_id: self.revision_id@,
            tag_id: self.tag_id@,
            value: self.normalized_value@,
            provenance: self.provenance,
            node_id: match self.node_id {
                Some(id) => Some(id@),
                None => None,
            },
        }
    }
}

pub open spec fn evidence_views(memberships: Seq<TagMembershipEvidence>) -> Seq<EvidenceView> {
    memberships.map_values(|evidence: TagMembershipEvidence| evidence@)
}

/// A revision: its space, memory and revision ids.
pub type DocumentView = (Seq<u8>, Seq<u8>, Seq<u8>);

pub open spec fn document_of(evidence: EvidenceView) -> DocumentView {
    (evidence.space_id, evidence.memory_id, evidence.revision_id)
}

/// The distinct revisions of the memberships, in first-seen order.
pub open spec fn documents(memberships: Seq<EvidenceView>) -> Seq<DocumentView>
    decreases memberships.len(),
{
    if memberships.len() == 0 {
        seq![]
    } else {
        let earlier = documents(memberships.drop_last());
        let document = document_of(memberships.last());
        if earlier.contains(document) {
            earlier
        } else {
            earlier.push(document)
        }
    }
}

/// Revision `document` holds tag `tag` with provenance `provenance`.
pub open spec fn holds_tag(
    memberships: Seq<EvidenceView>,
    document: DocumentView,
    tag: Seq<u8>,
    provenance: TagProvenance,
) -> bool {
    exists|i: int|
        0 <= i < memberships.len() && document_of(#[trigger] memberships[i]) == document
            && memberships[i].tag_id == tag && memberships[i].provenance == provenance
}

/// How many of `documents` lie in `space` and hold both tags with
/// `provenance`.
pub open spec fn evidence_count(
    documents: Seq<DocumentView>,
    memberships: Seq<EvidenceView>,
    space: Seq<u8>,
    left: Seq<u8>,
    right: Seq<u8>,
    provenance: TagProvenance,
) -> nat
    decreases documents.len(),
{
    if documents.len() == 0 {
        0
    } else {
        let earlier = evidence_count(
            documents.drop_last(),
            memberships,
            space,
            left,
            right,
            provenance,
        );
        let document = documents.last();
        if document.0 == space && holds_tag(memberships, document, left, provenance) && holds_tag(
            memberships,
            document,
            right,
            provenance,
        ) {
            earlier + 1
        } else {
            earlier
        }
    }
}

/// The number of revisions, in `space`, that hold both tags with
/// `provenance`.
pub open spec fn co_occurrences(
    memberships: Seq<EvidenceView>,
    space: Seq<u8>,
    left: Seq<u8>,
    right: Seq<u8>,
    provenance: TagProvenance,
) -> nat {
    evidence_count(documents(memberships), memberships, space, left, right, provenance)
}

fn same_document(evidence: &TagMembershipEvidence, document: &(SpaceId, MemoryId, RevisionId)) -> (same:
    bool)
    ensures
        same == (document_of(evidence@) == (document.0@, document.1@, document.2@)),
{
    evidence.space_id == document.0 && evidence.memory_id == document.1 && evidence.revision_id
        == document.2
}

pub open spec fn document_views(documents: Seq<(SpaceId, MemoryId, RevisionId)>) -> Seq<DocumentView> {
    documents.map_values(|document: (SpaceId, MemoryId, RevisionId)| (document.0@, document.1@, document.2@))
}

/// The distinct revisions of the memberships, in first-seen order.
fn distinct_documents(memberships: &[TagMembershipEvidence]) -> (found: Vec<(SpaceId, MemoryId, RevisionId)>)
    ensures
        document_views(found@) == documents(evidence_views(memberships@)),
{
    let ghost views = evidence_views(memberships@);
    let mut found: Vec<(SpaceId, MemoryId, RevisionId)> = Vec::new();
    let mut i: usize = 0;
    assert(views.take(0) =~= Seq::<EvidenceView>::empty());
    assert(document_views(found@) =~= Seq::<DocumentView>::empty());
    while i < memberships.len()
        invariant
            views == evidence_views(memberships@),
            i <= memberships@.len(),
            document_views(found@) == documents(views.take(i as int)),
        decreases memberships@.len() - i,
    {
        let evidence = &memberships[i];
        assert(views[i as int] == evidence@);
        assert(views.take(i + 1).drop_last() =~= views.take(i as int));
        assert(views.take(i + 1).last() == evidence@);
        let ghost target = document_of(evidence@);
        let ghost before = document_views(found@);
        let mut seen = false;
        let mut k: usize = 0;
        while k < found.len()
            invariant
                before == document_views(found@),
                target == document_of(evidence@),
                k <= found@.len(),
                seen == exists|j: int| 0 <= j < k && before[j] == target,
            decreases found@.len() - k,
        {
            assert(before[k as int] == (found@[k as int].0@, found@[k as int].1@, found@[k as int].2@));
            if same_document(evidence, &found[k]) {
                seen = true;
            }
            k = k + 1;
        }
        if !seen {
            found.push((evidence.space_id, evidence.memory_id, evidence.revision_id));
            assert(document_views(found@) =~= before.push(target));
        }
        i = i + 1;
    }
    assert(views.take(memberships@.len() as int) =~= views);
    found
}

/// Whether revision `document` holds tag `tag` with `provenance`.
fn holds_tag_exec(
    memberships: &[TagMembershipEvidence],
    document: &(SpaceId, MemoryId, RevisionId),
    tag: &TagId,
    provenance: TagProvenance,
) -> (holds: bool)
    ensures
        holds == holds_tag(
            evidence_views(memberships@),
            (document.0@, document.1@, document.2@),
            tag@,
            provenance,
        ),
{
    let ghost views = evidence_views(memberships@);
    let mut i: usize = 0;
    while i < memberships.len()
        invariant
            views == evidence_views(memberships@),
            i <= memberships@.len(),
            forall|j: int|
                0 <= j < i ==> !(document_of(#[trigger] views[j]) == (
                    document.0@,
                    document.1@,
                    document.2@,
                ) && views[j].tag_id == tag@ && views[j].provenance == provenance),
        decreases memberships@.len() - i,
    {
        let evidence = &memberships[i];
        assert(views[i as int] == evidence@);
        if same_document(evidence, document) && evidence.tag_id == *tag && evidence.provenance
            == provenance {
            return true;
        }
        i = i + 1;
    }
    false
}

/// Counts the revisions in `space` that hold both tags with `provenance`.
fn count_evidence(
    documents: &[(SpaceId, MemoryId, RevisionId)],
    memberships: &[TagMembershipEvidence],
    space: &SpaceId,
    left: &TagId,
    right: &TagId,
    provenance: TagProvenance,
) -> (count: u32)
    requires
        documents@.len() <= u32::MAX,
    ensures
        count == evidence_count(
            document_views(documents@),
            evidence_views(memberships@),
            space@,
            left@,
            right@,
            provenance,
        ),
{
    let ghost views = document_views(documents@);
    let mut count: u32 = 0;
    let mut i: usize = 0;
    assert(views.take(0) =~= Seq::<DocumentView>::empty());
    while i < documents.len()
        invariant
            views == document_views(documents@),
            documents@.len() <= u32::MAX,
            i <= documents@.len(),
            count <= i,
            count == evidence_count(
                views.take(i as int),
                evidence_views(memberships@),
                space@,
                left@,
                right@,
                provenance,
            ),
        decreases documents@.len() - i,
    {
        let document = &documents[i];
        assert(views.take(i + 1).drop_last() =~= views.take(i as int));
        assert(views.take(i + 1).last() == (document.0@, document.1@, document.2@));
        if document.0 == *space && holds_tag_exec(memberships, document, left, provenance)
            && holds_tag_exec(memberships, document, right, provenance) {
            count = count + 1;
        }
        i = i + 1;
    }
    assert(views.take(documents@.len() as int) =~= views);
    count
}

/// A pair of tags that occur together in a space: a space id and two
/// tag ids, the left one the smaller.
pub type PairView = (Seq<u8>, Seq<u8>, Seq<u8>);

pub open spec fn pair_views(pairs: Seq<(SpaceId, TagId, TagId)>) -> Seq<PairView> {
    pairs.map_values(|pair: (SpaceId, TagId, TagId)| (pair.0@, pair.1@, pair.2@))
}

/// The bytes a pair is ordered by.
pub open spec fn pair_key(pair: PairView) -> Seq<u8> {
    pair.0 + pair.1 + pair.2
}

/// Pairs in strictly increasing order of their keys.
pub open spec fn pairs_sorted(pairs: Seq<PairView>) -> bool {
    forall|i: int, j: int|
        0 <= i < j < pairs.len() ==> lex_less(pair_key(#[trigger] pairs[i]), pair_key(#[trigger] pairs[j]))
}

pub open spec fn pair_lengths(pair: PairView) -> bool {
    pair.0.len() == 16 && pair.1.len() == 32 && pair.2.len() == 32
}

proof fn lemma_pair_key_injective(a: PairView, b: PairView)
    requires
        pair_lengths(a),
        pair_lengths(b),
        pair_key(a) == pair_key(b),
    ensures
        a == b,
{
    let k = pair_key(a);
    assert(a.0 =~= k.subrange(0, 16));
    assert(b.0 =~= k.subrange(0, 16));
    assert(a.1 =~= k.subrange(16, 48));
    assert(b.1 =~= k.subrange(16, 48));
    assert(a.2 =~= k.subrange(48, 80));
    assert(b.2 =~= k.subrange(48, 80));
}

fn pair_key_exec(pair: &(SpaceId, TagId, TagId)) -> (key: Vec<u8>)
    ensures
        key@ == pair_key((pair.0@, pair.1@, pair.2@)),
{
    let mut key: Vec<u8> = Vec::new();
    crate::encode::extend_bytes(&mut key, pair.0.as_bytes().as_slice());
    crate::encode::extend_bytes(&mut key, pair.1.as_bytes().as_slice());
    crate::encode::extend_bytes(&mut key, pair.2.as_bytes().as_slice());
    key
}

/// Adds `pair` to sorted pairs unless a pair with its key is there.
fn insert_pair(pairs: &mut Vec<(SpaceId, TagId, TagId)>, pair: (SpaceId, TagId, TagId))
    requires
        pairs_sorted(pair_views(old(pairs)@)),
        forall|i: int| 0 <= i < old(pairs)@.len() ==> pair_lengths(#[trigger] pair_views(old(pairs)@)[i]),
    ensures
        pairs_sorted(pair_views(final(pairs)@)),
        forall|i: int| 0 <= i < final(pairs)@.len() ==> pair_lengths(#[trigger] pair_views(final(pairs)@)[i]),
        pair_views(final(pairs)@).contains((pair.0@, pair.1@, pair.2@)),
        forall|x: PairView| #[trigger] pair_views(final(pairs)@).contains(x) <==> (pair_views(
            old(pairs)@,
        ).contains(x) || x == (pair.0@, pair.1@, pair.2@)),
{
    let ghost before = pair_views(pairs@);
    let ghost item = (pair.0@, pair.1@, pair.2@);
    let ghost key = pair_key(item);
    proof {
        pair.0.lemma_len();
        pair.1.lemma_len();
        pair.2.lemma_len();
    }
    let wanted = pair_key_exec(&pair);
    let mut position: usize = 0;
    let mut order: i8 = -1;
    while position < pairs.len()
        invariant
            before == pair_views(pairs@),
            pairs_sorted(before),
            key == pair_key(item),
            wanted@ == key,
            position <= pairs@.len(),
            forall|i: int| 0 <= i < position ==> lex_less(pair_key(#[trigger] before[i]), key),
        ensures
            position < pairs@.len() ==> order == lex_order(pair_key(before[position as int]), key)
                && order != -1,
        decreases pairs@.len() - position,
    {
        let current_key = pair_key_exec(&pairs[position]);
        let current = compare_bytes(current_key.as_slice(), wanted.as_slice());
        if current != -1 {
            order = current;
            break;
        }
        position = position + 1;
    }
    proof {
        if position < pairs.len() {
            lemma_lex_order_range(pair_key(before[position as int]), key);
        }
    }
    if position < pairs.len() && order == 0 {
        proof {
            lemma_lex_order_equal(pair_key(before[position as int]), key);
            lemma_pair_key_injective(before[position as int], item);
            assert(before.contains(item));
        }
        return;
    }
    proof {
        if position < pairs.len() {
            lemma_lex_order_flip(pair_key(before[position as int]), key);
        }
    }
    pairs.insert(position, pair);
    let ghost after = pair_views(pairs@);
    assert(after =~= before.insert(position as int, item));
    assert(after[position as int] == item);
    assert forall|i: int, j: int| 0 <= i < j < after.len() implies lex_less(
        pair_key(#[trigger] after[i]),
        pair_key(#[trigger] after[j]),
    ) by {
        if j == position {
            assert(after[i] == before[i]);
        } else if i == position {
            assert(after[j] == before[j - 1]);
            if j - 1 > position {
                lemma_lex_less_transitive(key, pair_key(before[position as int]), pair_key(before[j - 1]));
            }
        } else if j < position {
            assert(after[i] == before[i] && after[j] == before[j]);
        } else if i < position {
            assert(after[i] == before[i] && after[j] == before[j - 1]);
        } else {
            assert(after[i] == before[i - 1] && after[j] == before[j - 1]);
        }
    }
    assert forall|i: int| 0 <= i < after.len() implies pair_lengths(#[trigger] after[i]) by {
        if i < position {
            assert(after[i] == before[i]);
        } else if i > position {
            assert(after[i] == before[i - 1]);
        }
    }
    assert forall|x: PairView| #[trigger] after.contains(x) <==> (before.contains(x) || x == item) by {
        if after.contains(x) {
            let i = choose|i: int| 0 <= i < after.len() && after[i] == x;
            if i < position {
                assert(before[i] == x);
            } else if i > position {
                assert(before[i - 1] == x);
            }
        }
        if before.contains(x) {
            let i = choose|i: int| 0 <= i < before.len() && before[i] == x;
            if i < position {
                assert(after[i] == x);
            } else {
                assert(after[i + 1] == x);
            }
        }
    }
}

/// The tag pairs that co-occur: for each two memberships of one revision,
/// the space and the two tags, the smaller first.
pub open spec fn co_occurring(memberships: Seq<EvidenceView>, pair: PairView) -> bool {
    exists|a: int, b: int|
        0 <= a < memberships.len() && 0 <= b < memberships.len() && document_of(
            #[trigger] memberships[a],
        ) == document_of(#[trigger] memberships[b]) && lex_less(
            memberships[a].tag_id,
            memberships[b].tag_id,
        ) && pair == (memberships[a].space_id, memberships[a].tag_id, memberships[b].tag_id)
}

/// Every identifier of every membership has its fixed length.
pub open spec fn evidence_lengths(memberships: Seq<EvidenceView>) -> bool {
    forall|i: int|
        0 <= i < memberships.len() ==> (#[trigger] memberships[i]).space_id.len() == 16
            && memberships[i].memory_id.len() == 16 && memberships[i].revision_id.len() == 32
            && memberships[i].tag_id.len() == 32
}

/// The sorted pairs that co-occur.
fn co_occurring_pairs(memberships: &[TagMembershipEvidence]) -> (pairs: Vec<(SpaceId, TagId, TagId)>)
    ensures
        pairs_sorted(pair_views(pairs@)),
        forall|i: int| 0 <= i < pairs@.len() ==> pair_lengths(#[trigger] pair_views(pairs@)[i]),
        forall|x: PairView|
            #[trigger] pair_views(pairs@).contains(x) <==> co_occurring(evidence_views(memberships@), x),
{
    let ghost views = evidence_views(memberships@);
    let mut pairs: Vec<(SpaceId, TagId, TagId)> = Vec::new();
    let mut a: usize = 0;
    assert(pair_views(pairs@) =~= Seq::<PairView>::empty());
    while a < memberships.len()
        invariant
            views == evidence_views(memberships@),
            a <= memberships@.len(),
            pairs_sorted(pair_views(pairs@)),
            forall|i: int| 0 <= i < pairs@.len() ==> pair_lengths(#[trigger] pair_views(pairs@)[i]),
            forall|x: PairView|
                #[trigger] pair_views(pairs@).contains(x) <==> exists|i: int, j: int|
                    0 <= i < a && 0 <= j < views.len() && document_of(#[trigger] views[i])
                        == document_of(#[trigger] views[j]) && lex_less(views[i].tag_id, views[j].tag_id)
                        && x == (views[i].space_id, views[i].tag_id, views[j].tag_id),
        decreases memberships@.len() - a,
    {
        let mut b: usize = 0;
        while b < memberships.len()
            invariant
                views == evidence_views(memberships@),
                a < memberships@.len(),
                b <= memberships@.len(),
                pairs_sorted(pair_views(pairs@)),
                forall|i: int| 0 <= i < pairs@.len() ==> pair_lengths(#[trigger] pair_views(pairs@)[i]),
                forall|x: PairView|
                    #[trigger] pair_views(pairs@).contains(x) <==> (exists|i: int, j: int|
                        0 <= i < a && 0 <= j < views.len() && document_of(#[trigger] views[i])
                            == document_of(#[trigger] views[j]) && lex_less(views[i].tag_id, views[j].tag_id)
                            && x == (views[i].space_id, views[i].tag_id, views[j].tag_id)) || (exists|j: int|
                        0 <= j < b && document_of(views[a as int]) == document_of(#[trigger] views[j])
                            && lex_less(views[a as int].tag_id, views[j].tag_id) && x == (
                            views[a as int].space_id,
                            views[a as int].tag_id,
                            views[j].tag_id,
                        )),
            decreases memberships@.len() - b,
        {
            let first = &memberships[a];
            let second = &memberships[b];
            assert(views[a as int] == first@ && views[b as int] == second@);
            let same = first.space_id == second.space_id && first.memory_id == second.memory_id
                && first.revision_id == second.revision_id;
            let order = compare_bytes(first.tag_id.as_bytes().as_slice(), second.tag_id.as_bytes().as_slice());
            let ghost before = pair_views(pairs@);
            if same && order == -1 {
                insert_pair(&mut pairs, (first.space_id, first.tag_id, second.tag_id));
            }
            proof {
                let now = pair_views(pairs@);
                assert forall|x: PairView| #[trigger] now.contains(x) <==> (exists|i: int, j: int|
                    0 <= i < a && 0 <= j < views.len() && document_of(#[trigger] views[i])
                        == document_of(#[trigger] views[j]) && lex_less(views[i].tag_id, views[j].tag_id)
                        && x == (views[i].space_id, views[i].tag_id, views[j].tag_id)) || (exists|j: int|
                    0 <= j < b + 1 && document_of(views[a as int]) == document_of(#[trigger] views[j])
                        && lex_less(views[a as int].tag_id, views[j].tag_id) && x == (
                        views[a as int].space_id,
                        views[a as int].tag_id,
                        views[j].tag_id,
                    )) by {
                    if x == (views[a as int].space_id, views[a as int].tag_id, views[b as int].tag_id)
                        && document_of(views[a as int]) == document_of(views[b as int])
                        && lex_less(views[a as int].tag_id, views[b as int].tag_id) {
                        assert(now.contains(x));
                    }
                }
            }
            b = b + 1;
        }
        proof {
            let now = pair_views(pairs@);
            assert forall|x: PairView| #[trigger] now.contains(x) <==> exists|i: int, j: int|
                0 <= i < a + 1 && 0 <= j < views.len() && document_of(#[trigger] views[i])
                    == document_of(#[trigger] views[j]) && lex_less(views[i].tag_id, views[j].tag_id)
                    && x == (views[i].space_id, views[i].tag_id, views[j].tag_id) by {
                if exists|i: int, j: int|
                    0 <= i < a + 1 && 0 <= j < views.len() && document_of(#[trigger] views[i])
                        == document_of(#[trigger] views[j]) && lex_less(views[i].tag_id, views[j].tag_id)
                        && x == (views[i].space_id, views[i].tag_id, views[j].tag_id) {
                    let (i, j) = choose|i: int, j: int|
                        0 <= i < a + 1 && 0 <= j < views.len() && document_of(#[trigger] views[i])
                            == document_of(#[trigger] views[j]) && lex_less(views[i].tag_id, views[j].tag_id)
                            && x == (views[i].space_id, views[i].tag_id, views[j].tag_id);
                    if i == a {
                        assert(document_of(views[a as int]) == document_of(views[j]));
                    }
                }
            }
        }
        a = a + 1;
    }
    pairs
}

/// An association between two tags in one space, with the number of
/// revisions that carry both explicitly and both as generated tags.
#[derive(Clone, Debug)]
pub struct TagAssociationEvidence {
    pub space_id: SpaceId,
    pub left: TagId,
    pub right: TagId,
    explicit_evidence: u32,
    generated_evidence: u32,
}

/// What an association holds.
pub ghost struct EdgeView {
    pub space_id: Seq<u8>,
    pub left: Seq<u8>,
    pub right: Seq<u8>,
    pub explicit: u32,
    pub generated: u32,
}

impl View for TagAssociationEvidence {
    type V = EdgeView;

    closed spec fn view(&self) -> EdgeView {
        EdgeView {
            space_id: self.space_id@,
            left: self.left@,
            right: self.right@,
            explicit: self.explicit_evidence,
            generated: self.generated_evidence,
        }
    }
}

impl TagAssociationEvidence {
    pub fn explicit_evidence(&self) -> (count: u32)
        ensures
            count == self@.explicit,
    {
        self.explicit_evidence
    }

    pub fn generated_evidence(&self) -> (count: u32)
        ensures
            count == self@.generated,
    {
        self.generated_evidence
    }

    /// The association's weight in halves: an explicit co-occurrence
    /// counts one, a generated one a half.
    pub fn weight_half_units(&self) -> (halves: u64)
        ensures
            halves == 2 * self@.explicit + self@.generated,
    {
        2 * (self.explicit_evidence as u64) + self.generated_evidence as u64
    }
}

pub open spec fn edge_views(edges: Seq<TagAssociationEvidence>) -> Seq<EdgeView> {
    edges.map_values(|edge: TagAssociationEvidence| edge@)
}

pub open spec fn edge_pair(edge: EdgeView) -> PairView {
    (edge.space_id, edge.left, edge.right)
}

/// Some revision of the pair's space holds both of its tags explicitly, or
/// both as generated tags.
pub open spec fn pair_evidenced(memberships: Seq<EvidenceView>, pair: PairView) -> bool {
    co_occurrences(memberships, pair.0, pair.1, pair.2, TagProvenance::Explicit) + co_occurrences(
        memberships,
        pair.0,
        pair.1,
        pair.2,
        TagProvenance::Generated,
    ) > 0
}

/// An association counts, for its space and tags, the revisions that hold
/// both tags explicitly and those that hold both as generated tags.
pub open spec fn edge_counts_correct(memberships: Seq<EvidenceView>, edge: EdgeView) -> bool {
    &&& lex_less(edge.left, edge.right)
    &&& edge.explicit == co_occurrences(
        memberships,
        edge.space_id,
        edge.left,
        edge.right,
        TagProvenance::Explicit,
    )
    &&& edge.generated == co_occurrences(
        memberships,
        edge.space_id,
        edge.left,
        edge.right,
        TagProvenance::Generated,
    )
    &&& edge.explicit + edge.generated > 0
}

pub open spec fn has_edge(edges: Seq<EdgeView>, pair: PairView) -> bool {
    exists|i: int| 0 <= i < edges.len() && edge_pair(#[trigger] edges[i]) == pair
}

/// The associations of the memberships: in increasing order of space and
/// tags, one for each pair of tags (the smaller on the left) that some
/// revision of the space holds both explicitly or both as generated tags,
/// with the number of such revisions of each kind.
pub open spec fn edges_correct(memberships: Seq<EvidenceView>, edges: Seq<EdgeView>) -> bool {
    &&& forall|i: int, j: int|
        0 <= i < j < edges.len() ==> lex_less(
            pair_key(edge_pair(#[trigger] edges[i])),
            pair_key(edge_pair(#[trigger] edges[j])),
        )
    &&& forall|i: int| 0 <= i < edges.len() ==> edge_counts_correct(memberships, #[trigger] edges[i])
    &&& forall|pair: PairView|
        lex_less(pair.1, pair.2) && #[trigger] pair_evidenced(memberships, pair) ==> has_edge(
            edges,
            pair,
        )
}

proof fn lemma_has_edge_grows(before: Seq<EdgeView>, now: Seq<EdgeView>, pair: PairView)
    requires
        has_edge(before, pair),
        before.len() <= now.len(),
        forall|i: int| 0 <= i < before.len() ==> now[i] == before[i],
    ensures
        has_edge(now, pair),
{
    let i = choose|i: int| 0 <= i < before.len() && edge_pair(#[trigger] before[i]) == pair;
    assert(now[i] == before[i]);
}

proof fn lemma_documents_len(memberships: Seq<EvidenceView>)
    ensures
        documents(memberships).len() <= memberships.len(),
    decreases memberships.len(),
{
    if memberships.len() > 0 {
        lemma_documents_len(memberships.drop_last());
    }
}

proof fn lemma_documents_of_memberships(memberships: Seq<EvidenceView>, document: DocumentView)
    requires
        documents(memberships).contains(document),
    ensures
        exists|i: int| 0 <= i < memberships.len() && document_of(#[trigger] memberships[i]) == document,
    decreases memberships.len(),
{
    if memberships.len() > 0 {
        let prefix = memberships.drop_last();
        if documents(prefix).contains(document) {
            lemma_documents_of_memberships(prefix, document);
            let i = choose|i: int| 0 <= i < prefix.len() && document_of(#[trigger] prefix[i]) == document;
            assert(memberships[i] == prefix[i]);
        } else {
            crate::seqs::lemma_push_contains(documents(prefix), document_of(memberships.last()), document);
            assert(memberships[memberships.len() - 1] == memberships.last());
        }
    }
}

proof fn lemma_positive_count_has_document(
    docs: Seq<DocumentView>,
    memberships: Seq<EvidenceView>,
    space: Seq<u8>,
    left: Seq<u8>,
    right: Seq<u8>,
    provenance: TagProvenance,
)
    requires
        evidence_count(docs, memberships, space, left, right, provenance) > 0,
    ensures
        exists|k: int|
            0 <= k < docs.len() && (#[trigger] docs[k]).0 == space && holds_tag(
                memberships,
                docs[k],
                left,
                provenance,
            ) && holds_tag(memberships, docs[k], right, provenance),
    decreases docs.len(),
{
    let prefix = docs.drop_last();
    if evidence_count(prefix, memberships, space, left, right, provenance) > 0 {
        lemma_positive_count_has_document(prefix, memberships, space, left, right, provenance);
        let k = choose|k: int|
            0 <= k < prefix.len() && (#[trigger] prefix[k]).0 == space && holds_tag(
                memberships,
                prefix[k],
                left,
                provenance,
            ) && holds_tag(memberships, prefix[k], right, provenance);
        assert(docs[k] == prefix[k]);
    } else {
        assert(docs[docs.len() - 1] == docs.last());
    }
}

proof fn lemma_positive_count_co_occurs(
    memberships: Seq<EvidenceView>,
    space: Seq<u8>,
    left: Seq<u8>,
    right: Seq<u8>,
    provenance: TagProvenance,
)
    requires
        lex_less(left, right),
        co_occurrences(memberships, space, left, right, provenance) > 0,
    ensures
        co_occurring(memberships, (space, left, right)),
{
    let docs = documents(memberships);
    lemma_positive_count_has_document(docs, memberships, space, left, right, provenance);
    let k = choose|k: int|
        0 <= k < docs.len() && (#[trigger] docs[k]).0 == space && holds_tag(
            memberships,
            docs[k],
            left,
            provenance,
        ) && holds_tag(memberships, docs[k], right, provenance);
    let document = docs[k];
    let a = choose|a: int|
        0 <= a < memberships.len() && document_of(#[trigger] memberships[a]) == document
            && memberships[a].tag_id == left && memberships[a].provenance == provenance;
    let b = choose|b: int|
        0 <= b < memberships.len() && document_of(#[trigger] memberships[b]) == document
            && memberships[b].tag_id == right && memberships[b].provenance == provenance;
    assert(document_of(memberships[a]) == document_of(memberships[b]));
    assert(memberships[a].space_id == space);
}

/// The associations of the memberships, as `edges_correct` describes them.
#[verifier::rlimit(40)]
fn associations(memberships: &[TagMembershipEvidence]) -> (edges: Vec<TagAssociationEvidence>)
    requires
        memberships@.len() <= u32::MAX,
    ensures
        edges_correct(evidence_views(memberships@), edge_views(edges@)),
{
    let ghost views = evidence_views(memberships@);
    let documents_found = distinct_documents(memberships);
    proof {
        lemma_documents_len(views);
    }
    let pairs = co_occurring_pairs(memberships);
    let ghost pair_list = pair_views(pairs@);
    let mut edges: Vec<TagAssociationEvidence> = Vec::new();
    let ghost mut chosen: Seq<int> = Seq::empty();
    let mut k: usize = 0;
    assert(edge_views(edges@) =~= Seq::<EdgeView>::empty());
    while k < pairs.len()
        invariant
            views == evidence_views(memberships@),
            document_views(documents_found@) == documents(views),
            documents_found@.len() <= u32::MAX,
            pair_list == pair_views(pairs@),
            pairs_sorted(pair_list),
            forall|x: PairView| #[trigger] pair_list.contains(x) <==> co_occurring(views, x),
            k <= pairs@.len(),
            chosen.len() == edges@.len(),
            forall|i: int, j: int| 0 <= i < j < chosen.len() ==> chosen[i] < chosen[j],
            forall|i: int| 0 <= i < chosen.len() ==> 0 <= #[trigger] chosen[i] < k,
            forall|i: int|
                0 <= i < chosen.len() ==> edge_pair(#[trigger] edge_views(edges@)[i])
                    == pair_list[chosen[i]],
            forall|i: int|
                0 <= i < edges@.len() ==> edge_counts_correct(views, #[trigger] edge_views(edges@)[i]),
            forall|p: int|
                0 <= p < k && pair_evidenced(views, #[trigger] pair_list[p]) ==> has_edge(
                    edge_views(edges@),
                    pair_list[p],
                ),
        decreases pairs@.len() - k,
    {
        let pair = &pairs[k];
        let ghost current = pair_list[k as int];
        assert(current == (pair.0@, pair.1@, pair.2@));
        assert(pair_list.contains(current));
        let explicit = count_evidence(
            documents_found.as_slice(),
            memberships,
            &pair.0,
            &pair.1,
            &pair.2,
            TagProvenance::Explicit,
        );
        let generated = count_evidence(
            documents_found.as_slice(),
            memberships,
            &pair.0,
            &pair.1,
            &pair.2,
            TagProvenance::Generated,
        );
        let ghost before = edge_views(edges@);
        if explicit > 0 || generated > 0 {
            proof {
                let (a, b) = choose|a: int, b: int|
                    0 <= a < views.len() && 0 <= b < views.len() && document_of(#[trigger] views[a])
                        == document_of(#[trigger] views[b]) && lex_less(views[a].tag_id, views[b].tag_id)
                        && current == (views[a].space_id, views[a].tag_id, views[b].tag_id);
            }
            edges.push(
                TagAssociationEvidence {
                    space_id: pair.0,
                    left: pair.1,
                    right: pair.2,
                    explicit_evidence: explicit,
                    generated_evidence: generated,
                },
            );
            proof {
                let now = edge_views(edges@);
                assert(now =~= before.push(now.last()));
                assert(edge_pair(now[before.len() as int]) == current);
                chosen = chosen.push(k as int);
                assert forall|i: int| 0 <= i < chosen.len() implies edge_pair(#[trigger] now[i])
                    == pair_list[chosen[i]] by {
                    if i < before.len() {
                        assert(now[i] == before[i]);
                    }
                }
                assert forall|i: int| 0 <= i < now.len() implies edge_counts_correct(
                    views,
                    #[trigger] now[i],
                ) by {
                    if i < before.len() {
                        assert(now[i] == before[i]);
                    }
                }
                assert forall|p: int|
                    0 <= p < k + 1 && pair_evidenced(views, #[trigger] pair_list[p]) implies has_edge(
                    now,
                    pair_list[p],
                ) by {
                    if p < k {
                        lemma_has_edge_grows(before, now, pair_list[p]);
                    } else {
                        assert(edge_pair(now[before.len() as int]) == pair_list[p]);
                    }
                }
            }
        } else {
            assert(!pair_evidenced(views, current));
        }
        k = k + 1;
    }
    proof {
        let now = edge_views(edges@);
        assert forall|i: int, j: int| 0 <= i < j < now.len() implies lex_less(
            pair_key(edge_pair(#[trigger] now[i])),
            pair_key(edge_pair(#[trigger] now[j])),
        ) by {
            assert(chosen[i] < chosen[j]);
        }
        assert forall|pair: PairView|
            lex_less(pair.1, pair.2) && #[trigger] pair_evidenced(views, pair) implies has_edge(
            now,
            pair,
        ) by {
            if co_occurrences(views, pair.0, pair.1, pair.2, TagProvenance::Explicit) > 0 {
                lemma_positive_count_co_occurs(views, pair.0, pair.1, pair.2, TagProvenance::Explicit);
            } else {
                lemma_positive_count_co_occurs(views, pair.0, pair.1, pair.2, TagProvenance::Generated);
            }
            assert(pair == (pair.0, pair.1, pair.2));
            assert(pair_list.contains(pair));
            let p = choose|p: int| 0 <= p < pair_list.len() && pair_list[p] == pair;
        }
    }
    edges
}

/// The byte a provenance is ordered by.
pub open spec fn provenance_byte(provenance: TagProvenance) -> u8 {
    match provenance {
        TagProvenance::Explicit => 0,
        TagProvenance::Generated => 1,
    }
}

/// The bytes a node id is ordered by: no id before any id.
pub open spec fn node_key(node_id: Option<Seq<char>>) -> Seq<u8> {
    match node_id {
        None => seq![0u8],
        Some(id) => seq![1u8] + encode_utf8(id),
    }
}

/// The bytes a membership is ordered and found by: space, memory,
/// revision, tag, provenance and node id.
pub open spec fn membership_key(evidence: EvidenceView) -> Seq<u8> {
    evidence.space_id + evidence.memory_id + evidence.revision_id + evidence.tag_id + seq![
        provenance_byte(evidence.provenance),
    ] + node_key(evidence.node_id)
}

/// Two memberships of one tag, in one revision, from one source and node.
pub open spec fn same_membership(a: EvidenceView, b: EvidenceView) -> bool {
    &&& a.space_id == b.space_id
    &&& a.memory_id == b.memory_id
    &&& a.revision_id == b.revision_id
    &&& a.tag_id == b.tag_id
    &&& a.provenance == b.provenance
    &&& a.node_id == b.node_id
}

pub open spec fn evidence_has_lengths(evidence: EvidenceView) -> bool {
    &&& evidence.space_id.len() == 16
    &&& evidence.memory_id.len() == 16
    &&& evidence.revision_id.len() == 32
    &&& evidence.tag_id.len() == 32
}

/// Memberships in strictly increasing order of their keys.
pub open spec fn memberships_sorted(memberships: Seq<EvidenceView>) -> bool {
    forall|i: int, j: int|
        0 <= i < j < memberships.len() ==> lex_less(
            membership_key(#[trigger] memberships[i]),
            membership_key(#[trigger] memberships[j]),
        )
}

/// Some recorded membership is the same as `evidence`.
pub open spec fn membership_recorded(memberships: Seq<EvidenceView>, evidence: EvidenceView) -> bool {
    exists|i: int| 0 <= i < memberships.len() && same_membership(#[trigger] memberships[i], evidence)
}

proof fn lemma_membership_key_injective(a: EvidenceView, b: EvidenceView)
    requires
        evidence_has_lengths(a),
        evidence_has_lengths(b),
    ensures
        membership_key(a) == membership_key(b) <==> same_membership(a, b),
{
    broadcast use vstd::utf8::encode_utf8_decode_utf8;

    if membership_key(a) == membership_key(b) {
        let k = membership_key(a);
        assert(a.space_id =~= k.subrange(0, 16));
        assert(b.space_id =~= k.subrange(0, 16));
        assert(a.memory_id =~= k.subrange(16, 32));
        assert(b.memory_id =~= k.subrange(16, 32));
        assert(a.revision_id =~= k.subrange(32, 64));
        assert(b.revision_id =~= k.subrange(32, 64));
        assert(a.tag_id =~= k.subrange(64, 96));
        assert(b.tag_id =~= k.subrange(64, 96));
        assert(k[96] == provenance_byte(a.provenance));
        assert(k[96] == provenance_byte(b.provenance));
        assert(node_key(a.node_id) =~= k.subrange(97, k.len() as int));
        assert(node_key(b.node_id) =~= k.subrange(97, k.len() as int));
        match (a.node_id, b.node_id) {
            (Some(x), Some(y)) => {
                assert(encode_utf8(x) =~= node_key(a.node_id).subrange(1, node_key(a.node_id).len() as int));
                assert(encode_utf8(y) =~= node_key(b.node_id).subrange(1, node_key(b.node_id).len() as int));
                assert(decode_utf8(encode_utf8(x)) == x);
                assert(decode_utf8(encode_utf8(y)) == y);
            },
            (Some(x), None) => {
                assert(node_key(a.node_id)[0] == 1u8);
            },
            (None, Some(y)) => {
                assert(node_key(b.node_id)[0] == 1u8);
            },
            (None, None) => {},
        }
    }
}

fn membership_key_exec(evidence: &TagMembershipEvidence) -> (key: Vec<u8>)
    ensures
        key@ == membership_key(evidence@),
{
    let mut key: Vec<u8> = Vec::new();
    crate::encode::extend_bytes(&mut key, evidence.space_id.as_bytes().as_slice());
    crate::encode::extend_bytes(&mut key, evidence.memory_id.as_bytes().as_slice());
    crate::encode::extend_bytes(&mut key, evidence.revision_id.as_bytes().as_slice());
    crate::encode::extend_bytes(&mut key, evidence.tag_id.as_bytes().as_slice());
    let provenance: u8 = match evidence.provenance {
        TagProvenance::Explicit => 0,
        TagProvenance::Generated => 1,
    };
    key.push(provenance);
    match &evidence.node_id {
        None => key.push(0),
        Some(id) => {
            key.push(1);
            crate::encode::extend_bytes(&mut key, id.as_str().as_bytes());
        },
    }
    proof {
        assert(key@ =~= membership_key(evidence@));
    }
    key
}

/// Adds `evidence` at its place among sorted memberships unless the same
/// membership is recorded, and says whether it was added.
fn insert_sorted_membership(
    memberships: &mut Vec<TagMembershipEvidence>,
    evidence: TagMembershipEvidence,
) -> (added: bool)
    requires
        memberships_sorted(evidence_views(old(memberships)@)),
        evidence_lengths(evidence_views(old(memberships)@)),
    ensures
        memberships_sorted(evidence_views(final(memberships)@)),
        evidence_lengths(evidence_views(final(memberships)@)),
        added == !membership_recorded(evidence_views(old(memberships)@), evidence@),
        !added ==> final(memberships)@ == old(memberships)@,
        added ==> final(memberships)@.len() == old(memberships)@.len() + 1,
        added ==> forall|x: EvidenceView|
            #[trigger] evidence_views(final(memberships)@).contains(x) <==> (evidence_views(
                old(memberships)@,
            ).contains(x) || x == evidence@),
{
    let ghost before = evidence_views(memberships@);
    let ghost item = evidence@;
    let ghost key = membership_key(item);
    proof {
        evidence.space_id.lemma_len();
        evidence.memory_id.lemma_len();
        evidence.revision_id.lemma_len();
        evidence.tag_id.lemma_len();
    }
    let wanted = membership_key_exec(&evidence);
    let mut position: usize = 0;
    let mut order: i8 = -1;
    while position < memberships.len()
        invariant
            before == evidence_views(memberships@),
            memberships_sorted(before),
            key == membership_key(item),
            wanted@ == key,
            position <= memberships@.len(),
            forall|i: int| 0 <= i < position ==> lex_less(membership_key(#[trigger] before[i]), key),
        ensures
            position < memberships@.len() ==> order == lex_order(
                membership_key(before[position as int]),
                key,
            ) && order != -1,
        decreases memberships@.len() - position,
    {
        assert(before[position as int] == memberships@[position as int]@);
        let current_key = membership_key_exec(&memberships[position]);
        let current = compare_bytes(current_key.as_slice(), wanted.as_slice());
        if current != -1 {
            order = current;
            break;
        }
        position = position + 1;
    }
    proof {
        if position < memberships.len() {
            lemma_lex_order_range(membership_key(before[position as int]), key);
        }
    }
    if position < memberships.len() && order == 0 {
        proof {
            lemma_lex_order_equal(membership_key(before[position as int]), key);
            lemma_membership_key_injective(before[position as int], item);
            assert(same_membership(before[position as int], item));
        }
        return false;
    }
    proof {
        assert forall|i: int| 0 <= i < before.len() implies !same_membership(#[trigger] before[i], item) by {
            lemma_membership_key_injective(before[i], item);
            if i < position {
                lemma_lex_order_equal(membership_key(before[i]), key);
            } else {
                lemma_lex_order_flip(membership_key(before[position as int]), key);
                if i > position {
                    lemma_lex_less_transitive(key, membership_key(before[position as int]), membership_key(before[i]));
                }
                lemma_lex_order_equal(key, membership_key(before[i]));
            }
        }
        if position < memberships.len() {
            lemma_lex_order_flip(membership_key(before[position as int]), key);
        }
    }
    memberships.insert(position, evidence);
    let ghost after = evidence_views(memberships@);
    assert(after =~= before.insert(position as int, item));
    assert(after[position as int] == item);
    assert forall|i: int, j: int| 0 <= i < j < after.len() implies lex_less(
        membership_key(#[trigger] after[i]),
        membership_key(#[trigger] after[j]),
    ) by {
        if j == position {
            assert(after[i] == before[i]);
        } else if i == position {
            assert(after[j] == before[j - 1]);
            if j - 1 > position {
                lemma_lex_less_transitive(key, membership_key(before[position as int]), membership_key(before[j - 1]));
            }
        } else if j < position {
            assert(after[i] == before[i] && after[j] == before[j]);
        } else if i < position {
            assert(after[i] == before[i] && after[j] == before[j - 1]);
        } else {
            assert(after[i] == before[i - 1] && after[j] == before[j - 1]);
        }
    }
    assert forall|i: int| 0 <= i < after.len() implies (#[trigger] after[i]).space_id.len() == 16
        && after[i].memory_id.len() == 16 && after[i].revision_id.len() == 32
        && after[i].tag_id.len() == 32 by {
        if i < position {
            assert(after[i] == before[i]);
        } else if i > position {
            assert(after[i] == before[i - 1]);
        }
    }
    assert forall|x: EvidenceView| #[trigger] after.contains(x) <==> (before.contains(x) || x == item) by {
        if after.contains(x) {
            let i = choose|i: int| 0 <= i < after.len() && after[i] == x;
            if i < position {
                assert(before[i] == x);
            } else if i > position {
                assert(before[i - 1] == x);
            }
        }
        if before.contains(x) {
            let i = choose|i: int| 0 <= i < before.len() && before[i] == x;
            if i < position {
                assert(after[i] == x);
            } else {
                assert(after[i + 1] == x);
            }
        }
    }
    true
}

proof fn lemma_last_value_exists(values: Seq<Seq<char>>, value: Seq<char>)
    requires
        values.contains(value),
    ensures
        last_value_with_id(values, tag_id_spec(value)) is Some,
    decreases values.len(),
{
    if values.last() != value {
        let i = choose|i: int| 0 <= i < values.len() && values[i] == value;
        assert(values.drop_last()[i] == value);
        lemma_last_value_exists(values.drop_last(), value);
    }
}

/// The membership that `input` records for tag `tag_id` with normalized
/// value `value`.
pub open spec fn input_evidence(input: TagMembershipInput, tag_id: Seq<u8>, value: Seq<char>) -> EvidenceView {
    EvidenceView {
        space_id: input.space_id@,
        memory_id: input.memory_id@,
        revision_id: input.revision_id@,
        tag_id,
        value,
        provenance: input.provenance,
        node_id: match input.node_id {
            Some(id) => Some(id@),
            None => None,
        },
    }
}

/// What a tag graph holds: its memberships in key order and its
/// associations in order of space and tags.
pub ghost struct TagGraphView {
    pub memberships: Seq<EvidenceView>,
    pub edges: Seq<EdgeView>,
}

/// The memberships are sorted by key with no membership twice, every
/// identifier has its length, and the associations are those that the
/// memberships give.
pub open spec fn graph_wf(graph: TagGraphView) -> bool {
    &&& memberships_sorted(graph.memberships)
    &&& evidence_lengths(graph.memberships)
    &&& graph.memberships.len() <= u32::MAX
    &&& edges_correct(graph.memberships, graph.edges)
}

/// A deterministic association graph, local to each space, over global tag
/// identities. Memberships keep the provenance they came with; the
/// associations are derived from them and never change the dictionary.
#[derive(Clone, Debug)]
pub struct TagGraph {
    memberships: Vec<TagMembershipEvidence>,
    edges: Vec<TagAssociationEvidence>,
}

impl View for TagGraph {
    type V = TagGraphView;

    closed spec fn view(&self) -> TagGraphView {
        TagGraphView { memberships: evidence_views(self.memberships@), edges: edge_views(self.edges@) }
    }
}

impl TagGraph {
    pub open spec fn wf(&self) -> bool {
        graph_wf(self@)
    }

    pub fn new() -> (graph: Self)
        ensures
            graph.wf(),
            graph@.memberships.len() == 0,
            graph@.edges.len() == 0,
    {
        let graph = TagGraph { memberships: Vec::new(), edges: Vec::new() };
        assert(graph@.memberships =~= Seq::<EvidenceView>::empty());
        assert(graph@.edges =~= Seq::<EdgeView>::empty());
        graph
    }

    /// Interns the value of `input` and records its membership, unless the
    /// same membership is recorded already; then derives the associations
    /// again from all memberships.
    pub fn insert_membership(&mut self, dictionary: &mut TagDictionary, input: TagMembershipInput) -> (result:
        Result<TagId, DerivedError>)
        requires
            old(self).wf(),
            old(dictionary).wf(),
            old(self)@.memberships.len() < u32::MAX,
        ensures
            final(dictionary).wf(),
            normalize_tag_spec(input.value@).len() == 0 ==> {
                &&& result matches Err(error) && invalid_value(error, "Tag value must not be empty"@)
                &&& final(dictionary)@ == old(dictionary)@
                &&& final(self)@ == old(self)@
            },
            normalize_tag_spec(input.value@).len() > 0 ==> {
                let normalized = normalize_tag_spec(input.value@);
                let id = tag_id_spec(normalized);
                &&& result matches Ok(tag_id) && tag_id@ == id
                &&& final(dictionary)@ == if old(dictionary)@.contains(normalized) {
                    old(dictionary)@
                } else {
                    old(dictionary)@.push(normalized)
                }
                &&& last_value_with_id(final(dictionary)@, id) is Some
                &&& final(self).wf()
                &&& {
                    let evidence = input_evidence(
                        input,
                        id,
                        last_value_with_id(final(dictionary)@, id)->Some_0,
                    );
                    &&& membership_recorded(old(self)@.memberships, evidence)
                        ==> final(self)@.memberships == old(self)@.memberships
                    &&& !membership_recorded(old(self)@.memberships, evidence) ==> forall|x: EvidenceView|
                        #[trigger] final(self)@.memberships.contains(x) <==> (old(
                            self,
                        )@.memberships.contains(x) || x == evidence)
                }
            },
    {
        let tag_id = match dictionary.intern(input.value.as_str()) {
            Ok(tag_id) => tag_id,
            Err(error) => {
                return Err(error);
            },
        };
        proof {
            lemma_last_value_exists(dictionary@, normalize_tag_spec(input.value@));
        }
        let normalized_value = match dictionary.value(tag_id) {
            Some(value) => crate::text::owned(value),
            None => {
                return Err(invalid("Tag dictionary lost the inserted identity"));
            },
        };
        let evidence = TagMembershipEvidence {
            space_id: input.space_id,
            memory_id: input.memory_id,
            revision_id: input.revision_id,
            tag_id,
            normalized_value,
            provenance: input.provenance,
            node_id: input.node_id,
        };
        assert(evidence@ == input_evidence(input, tag_id@, last_value_with_id(dictionary@, tag_id@)->Some_0));
        let added = insert_sorted_membership(&mut self.memberships, evidence);
        if added {
            self.edges = associations(self.memberships.as_slice());
        }
        Ok(tag_id)
    }

    pub fn is_empty(&self) -> (empty: bool)
        ensures
            empty == (self@.memberships.len() == 0),
    {
        self.memberships.len() == 0
    }

    /// All memberships, in key order.
    pub fn membership_evidence(&self) -> (memberships: &[TagMembershipEvidence])
        ensures
            evidence_views(memberships@) == self@.memberships,
    {
        self.memberships.as_slice()
    }

    /// All associations, in order of space and tags.
    pub fn edges(&self) -> (edges: &[TagAssociationEvidence])
        ensures
            edge_views(edges@) == self@.edges,
    {
        self.edges.as_slice()
    }
}

impl Default for TagGraph {
    fn default() -> (graph: Self)
        ensures
            graph.wf(),
            graph@.memberships.len() == 0,
            graph@.edges.len() == 0,
    {
        TagGraph::new()
    }
}

/// The memberships of `memberships` that lie in `space`, in order.
pub open spec fn space_memberships(memberships: Seq<EvidenceView>, space: Seq<u8>) -> Seq<EvidenceView>
    decreases memberships.len(),
{
    if memberships.len() == 0 {
        seq![]
    } else {
        let earlier = space_memberships(memberships.drop_last(), space);
        if memberships.last().space_id == space {
            earlier.push(memberships.last())
        } else {
            earlier
        }
    }
}

/// The associations of `edges` that lie in `space`, in order.
pub open spec fn space_edges(edges: Seq<EdgeView>, space: Seq<u8>) -> Seq<EdgeView>
    decreases edges.len(),
{
    if edges.len() == 0 {
        seq![]
    } else {
        let earlier = space_edges(edges.drop_last(), space);
        if edges.last().space_id == space {
            earlier.push(edges.last())
        } else {
            earlier
        }
    }
}

/// The memberships of tag `tag` among `memberships`.
pub open spec fn tag_memberships(memberships: Seq<EvidenceView>, tag: Seq<u8>) -> Seq<EvidenceView>
    decreases memberships.len(),
{
    if memberships.len() == 0 {
        seq![]
    } else {
        let earlier = tag_memberships(memberships.drop_last(), tag);
        if memberships.last().tag_id == tag {
            earlier.push(memberships.last())
        } else {
            earlier
        }
    }
}

/// The tag graph seen from one space.
#[derive(Clone, Copy, Debug)]
pub struct TagSpaceGraph<'a> {
    graph: &'a TagGraph,
    space_id: SpaceId,
}

impl TagGraph {
    pub fn for_space(&self, space_id: SpaceId) -> (space_graph: TagSpaceGraph<'_>)
        ensures
            space_graph.graph() == self,
            space_graph.space() == space_id,
    {
        TagSpaceGraph { graph: self, space_id }
    }
}

impl<'a> TagSpaceGraph<'a> {
    pub closed spec fn graph(self) -> &'a TagGraph {
        self.graph
    }

    pub closed spec fn space(self) -> SpaceId {
        self.space_id
    }

    pub fn space_id(self) -> (space_id: SpaceId)
        ensures
            space_id == self.space(),
    {
        self.space_id
    }

    /// The memberships in the space, in key order.
    pub fn memberships(self) -> (memberships: Vec<&'a TagMembershipEvidence>)
        ensures
            memberships@.len() == space_memberships(self.graph()@.memberships, self.space()@).len(),
            forall|i: int|
                0 <= i < memberships@.len() ==> (#[trigger] memberships@[i])@ == space_memberships(
                    self.graph()@.memberships,
                    self.space()@,
                )[i],
    {
        let all = self.graph.memberships.as_slice();
        let ghost views = evidence_views(all@);
        let mut found: Vec<&'a TagMembershipEvidence> = Vec::new();
        let mut i: usize = 0;
        while i < all.len()
            invariant
                views == evidence_views(all@),
                views == self.graph()@.memberships,
                i <= all@.len(),
                found@.len() == space_memberships(views.take(i as int), self.space()@).len(),
                forall|j: int|
                    0 <= j < found@.len() ==> (#[trigger] found@[j])@ == space_memberships(
                        views.take(i as int),
                        self.space()@,
                    )[j],
            decreases all@.len() - i,
        {
            let evidence = &all[i];
            assert(views.take(i + 1).drop_last() =~= views.take(i as int));
            assert(views.take(i + 1).last() == evidence@);
            if evidence.space_id == self.space_id {
                found.push(evidence);
            }
            i = i + 1;
        }
        assert(views.take(all@.len() as int) =~= views);
        found
    }

    /// The number of distinct revisions in the space that carry `tag_id`.
    pub fn membership_count(self, tag_id: TagId) -> (count: usize)
        ensures
            count == documents(
                tag_memberships(space_memberships(self.graph()@.memberships, self.space()@), tag_id@),
            ).len(),
    {
        let all = self.graph.memberships.as_slice();
        let ghost views = evidence_views(all@);
        let ghost space = self.space()@;
        let mut found: Vec<(SpaceId, MemoryId, RevisionId)> = Vec::new();
        let mut i: usize = 0;
        assert(document_views(found@) =~= Seq::<DocumentView>::empty());
        while i < all.len()
            invariant
                views == evidence_views(all@),
                views == self.graph()@.memberships,
                space == self.space()@,
                i <= all@.len(),
                document_views(found@) == documents(
                    tag_memberships(space_memberships(views.take(i as int), space), tag_id@),
                ),
            decreases all@.len() - i,
        {
            let evidence = &all[i];
            let ghost prefix = views.take(i as int);
            assert(views.take(i + 1).drop_last() =~= prefix);
            assert(views.take(i + 1).last() == evidence@);
            if evidence.space_id == self.space_id && evidence.tag_id == tag_id {
                let ghost spaced = space_memberships(prefix, space);
                assert(spaced.push(evidence@).drop_last() =~= spaced);
                let ghost tagged = tag_memberships(spaced, tag_id@);
                assert(tagged.push(evidence@).drop_last() =~= tagged);
                if !contains_document(found.as_slice(), evidence) {
                    found.push((evidence.space_id, evidence.memory_id, evidence.revision_id));
                    assert(document_views(found@) =~= documents(tagged).push(document_of(evidence@)));
                }
            } else if evidence.space_id == self.space_id {
                let ghost spaced = space_memberships(prefix, space);
                assert(spaced.push(evidence@).drop_last() =~= spaced);
            }
            i = i + 1;
        }
        assert(views.take(all@.len() as int) =~= views);
        proof {
            assert(found@.len() == document_views(found@).len());
        }
        found.len()
    }

    /// The distinct tags of the memberships in the space, in increasing
    /// order.
    pub fn tag_ids(self) -> (tags: Vec<TagId>)
        ensures
            tags_sorted(tag_views(tags@)),
            forall|tag: Seq<u8>|
                #[trigger] tag_views(tags@).contains(tag) <==> tag_in_space(
                    self.graph()@.memberships,
                    self.space()@,
                    tag,
                ),
    {
        let all = self.graph.memberships.as_slice();
        let ghost views = evidence_views(all@);
        let ghost space = self.space()@;
        let mut tags: Vec<TagId> = Vec::new();
        let mut i: usize = 0;
        assert(tag_views(tags@) =~= Seq::<Seq<u8>>::empty());
        while i < all.len()
            invariant
                views == evidence_views(all@),
                views == self.graph()@.memberships,
                space == self.space()@,
                i <= all@.len(),
                tags_sorted(tag_views(tags@)),
                forall|tag: Seq<u8>|
                    #[trigger] tag_views(tags@).contains(tag) <==> exists|j: int|
                        0 <= j < i && views[j].space_id == space && #[trigger] views[j].tag_id == tag,
            decreases all@.len() - i,
        {
            let evidence = &all[i];
            assert(views[i as int] == evidence@);
            let ghost before = tag_views(tags@);
            if evidence.space_id == self.space_id {
                insert_sorted_tag(&mut tags, evidence.tag_id);
            }
            proof {
                let now = tag_views(tags@);
                assert forall|tag: Seq<u8>| #[trigger] now.contains(tag) <==> exists|j: int|
                    0 <= j < i + 1 && views[j].space_id == space && #[trigger] views[j].tag_id == tag by {
                    if exists|j: int| 0 <= j < i + 1 && views[j].space_id == space && #[trigger] views[j].tag_id == tag {
                        let j = choose|j: int| 0 <= j < i + 1 && views[j].space_id == space && #[trigger] views[j].tag_id == tag;
                        if j < i {
                            assert(before.contains(tag));
                        }
                    }
                    if before.contains(tag) {
                        let j = choose|j: int| 0 <= j < i && views[j].space_id == space && #[trigger] views[j].tag_id == tag;
                    }
                    if now.contains(tag) && !before.contains(tag) {
                        assert(views[i as int].tag_id == tag);
                    }
                }
            }
            i = i + 1;
        }
        tags
    }

    /// The associations in the space, in order of their tags.
    pub fn edges(self) -> (edges: Vec<&'a TagAssociationEvidence>)
        ensures
            edges@.len() == space_edges(self.graph()@.edges, self.space()@).len(),
            forall|i: int|
                0 <= i < edges@.len() ==> (#[trigger] edges@[i])@ == space_edges(
                    self.graph()@.edges,
                    self.space()@,
                )[i],
    {
        let all = self.graph.edges.as_slice();
        let ghost views = edge_views(all@);
        let mut found: Vec<&'a TagAssociationEvidence> = Vec::new();
        let mut i: usize = 0;
        while i < all.len()
            invariant
                views == edge_views(all@),
                views == self.graph()@.edges,
                i <= all@.len(),
                found@.len() == space_edges(views.take(i as int), self.space()@).len(),
                forall|j: int|
                    0 <= j < found@.len() ==> (#[trigger] found@[j])@ == space_edges(
                        views.take(i as int),
                        self.space()@,
                    )[j],
            decreases all@.len() - i,
        {
            let edge = &all[i];
            assert(views.take(i + 1).drop_last() =~= views.take(i as int));
            assert(views.take(i + 1).last() == edge@);
            if edge.space_id == self.space_id {
                found.push(edge);
            }
            i = i + 1;
        }
        assert(views.take(all@.len() as int) =~= views);
        found
    }

    /// The association of two tags in the space, in either order.
    pub fn edge(self, left: TagId, right: TagId) -> (edge: Option<&'a TagAssociationEvidence>)
        ensures
            edge matches Some(found) ==> self.graph()@.edges.contains(found@) && edge_pair(found@)
                == space_pair(self.space()@, left@, right@),
            edge is None ==> !has_edge(self.graph()@.edges, space_pair(self.space()@, left@, right@)),
    {
        let order = compare_bytes(left.as_bytes().as_slice(), right.as_bytes().as_slice());
        let (low, high) = if order <= 0 {
            (left, right)
        } else {
            (right, left)
        };
        let ghost wanted = space_pair(self.space()@, left@, right@);
        assert(wanted == (self.space()@, low@, high@));
        let all = self.graph.edges.as_slice();
        let ghost views = edge_views(all@);
        let mut i: usize = 0;
        while i < all.len()
            invariant
                views == edge_views(all@),
                views == self.graph()@.edges,
                wanted == (self.space()@, low@, high@),
                wanted == space_pair(self.space()@, left@, right@),
                i <= all@.len(),
                forall|j: int| 0 <= j < i ==> edge_pair(#[trigger] views[j]) != wanted,
            decreases all@.len() - i,
        {
            let candidate = &all[i];
            assert(views[i as int] == candidate@);
            if candidate.space_id == self.space_id && candidate.left == low && candidate.right == high {
                assert(views.contains(candidate@));
                return Some(candidate);
            }
            i = i + 1;
        }
        None
    }
}

/// The pair two tags form in a space: the smaller tag on the left.
pub open spec fn space_pair(space: Seq<u8>, left: Seq<u8>, right: Seq<u8>) -> PairView {
    if lex_order(left, right) <= 0 {
        (space, left, right)
    } else {
        (space, right, left)
    }
}

/// Whether the revision of `evidence` is among `documents`.
fn contains_document(documents: &[(SpaceId, MemoryId, RevisionId)], evidence: &TagMembershipEvidence) -> (found:
    bool)
    ensures
        found == document_views(documents@).contains(document_of(evidence@)),
{
    let ghost views = document_views(documents@);
    let ghost target = document_of(evidence@);
    let mut k: usize = 0;
    while k < documents.len()
        invariant
            views == document_views(documents@),
            target == document_of(evidence@),
            k <= documents@.len(),
            forall|j: int| 0 <= j < k ==> views[j] != target,
        decreases documents@.len() - k,
    {
        assert(views[k as int] == (documents@[k as int].0@, documents@[k as int].1@, documents@[k as int].2@));
        if same_document(evidence, &documents[k]) {
            assert(views.contains(target));
            return true;
        }
        k = k + 1;
    }
    false
}

pub open spec fn tag_views(tags: Seq<TagId>) -> Seq<Seq<u8>> {
    tags.map_values(|tag: TagId| tag@)
}

/// Tags in strictly increasing order.
pub open spec fn tags_sorted(tags: Seq<Seq<u8>>) -> bool {
    forall|i: int, j: int| 0 <= i < j < tags.len() ==> lex_less(#[trigger] tags[i], #[trigger] tags[j])
}

/// Some membership in `space` carries `tag`.
pub open spec fn tag_in_space(memberships: Seq<EvidenceView>, space: Seq<u8>, tag: Seq<u8>) -> bool {
    exists|i: int| 0 <= i < memberships.len() && memberships[i].space_id == space && #[trigger] memberships[i].tag_id == tag
}

/// Adds `tag` to sorted tags unless it is there.
fn insert_sorted_tag(tags: &mut Vec<TagId>, tag: TagId)
    requires
        tags_sorted(tag_views(old(tags)@)),
    ensures
        tags_sorted(tag_views(final(tags)@)),
        forall|x: Seq<u8>| #[trigger] tag_views(final(tags)@).contains(x) <==> (tag_views(
            old(tags)@,
        ).contains(x) || x == tag@),
{
    let ghost before = tag_views(tags@);
    let ghost key = tag@;
    let mut position: usize = 0;
    let mut order: i8 = -1;
    while position < tags.len()
        invariant
            before == tag_views(tags@),
            tags_sorted(before),
            key == tag@,
            position <= tags@.len(),
            forall|i: int| 0 <= i < position ==> lex_less(#[trigger] before[i], key),
        ensures
            position < tags@.len() ==> order == lex_order(before[position as int], key) && order != -1,
        decreases tags@.len() - position,
    {
        assert(before[position as int] == tags@[position as int]@);
        let current = compare_bytes(tags[position].as_bytes().as_slice(), tag.as_bytes().as_slice());
        if current != -1 {
            order = current;
            break;
        }
        position = position + 1;
    }
    proof {
        if position < tags.len() {
            lemma_lex_order_range(before[position as int], key);
        }
    }
    if position < tags.len() && order == 0 {
        proof {
            lemma_lex_order_equal(before[position as int], key);
            assert(before.contains(key));
        }
        return;
    }
    proof {
        if position < tags.len() {
            lemma_lex_order_flip(before[position as int], key);
        }
    }
    tags.insert(position, tag);
    let ghost after = tag_views(tags@);
    assert(after =~= before.insert(position as int, key));
    assert forall|i: int, j: int| 0 <= i < j < after.len() implies lex_less(#[trigger] after[i], #[trigger] after[j]) by {
        if j == position {
            assert(after[i] == before[i]);
        } else if i == position {
            assert(after[j] == before[j - 1]);
            if j - 1 > position {
                lemma_lex_less_transitive(key, before[position as int], before[j - 1]);
            }
        } else if j < position {
            assert(after[i] == before[i] && after[j] == before[j]);
        } else if i < position {
            assert(after[i] == before[i] && after[j] == before[j - 1]);
        } else {
            assert(after[i] == before[i - 1] && after[j] == before[j - 1]);
        }
    }
    assert forall|x: Seq<u8>| #[trigger] after.contains(x) <==> (before.contains(x) || x == key) by {
        if after.contains(x) {
            let i = choose|i: int| 0 <= i < after.len() && after[i] == x;
            if i < position {
                assert(before[i] == x);
            } else if i > position {
                assert(before[i - 1] == x);
            }
        }
        if before.contains(x) {
            let i = choose|i: int| 0 <= i < before.len() && before[i] == x;
            if i < position {
                assert(after[i] == x);
            } else {
                assert(after[i + 1] == x);
            }
        }
        if x == key {
            assert(after[position as int] == x);
        }
    }
}

/// The bytes a fingerprint takes from one membership.
pub open spec fn membership_fingerprint_bytes(evidence: EvidenceView) -> Seq<u8> {
    evidence.space_id + evidence.memory_id + evidence.revision_id + evidence.tag_id + framed(
        encode_utf8(evidence.value),
    ) + seq![provenance_byte(evidence.provenance)] + match evidence.node_id {
        Some(id) => seq![1u8] + framed(encode_utf8(id)),
        None => seq![0u8],
    }
}

pub open spec fn memberships_fingerprint_bytes(memberships: Seq<EvidenceView>) -> Seq<u8>
    decreases memberships.len(),
{
    if memberships.len() == 0 {
        seq![]
    } else {
        memberships_fingerprint_bytes(memberships.drop_last()) + membership_fingerprint_bytes(
            memberships.last(),
        )
    }
}

/// The bytes a fingerprint takes from one association whose weight, as an
/// `f32`, has the bits `weight_bits`.
pub open spec fn edge_fingerprint_bytes(edge: EdgeView, weight_bits: u32) -> Seq<u8> {
    edge.space_id + edge.left + edge.right + be_u32(edge.explicit) + be_u32(edge.generated) + be_u32(
        weight_bits,
    )
}

pub open spec fn edges_fingerprint_bytes(edges: Seq<EdgeView>, weight_bits: Seq<u32>) -> Seq<u8>
    decreases edges.len(),
{
    if edges.len() == 0 {
        seq![]
    } else {
        edges_fingerprint_bytes(edges.drop_last(), weight_bits.take(edges.len() - 1))
            + edge_fingerprint_bytes(edges.last(), weight_bits[edges.len() - 1])
    }
}

/// The bytes a graph's fingerprint digests.
pub open spec fn graph_fingerprint_preimage(graph: TagGraphView, weight_bits: Seq<u32>) -> Seq<u8> {
    encode_utf8("memoria-tag-graph-v1\0"@) + memberships_fingerprint_bytes(graph.memberships)
        + edges_fingerprint_bytes(graph.edges, weight_bits)
}

/// The bytes the fingerprint of one space of a graph digests.
pub open spec fn space_fingerprint_preimage(graph: TagGraphView, space: Seq<u8>, weight_bits: Seq<u32>) -> Seq<u8> {
    encode_utf8("memoria-tag-space-graph-v1\0"@) + space + memberships_fingerprint_bytes(
        space_memberships(graph.memberships, space),
    ) + edges_fingerprint_bytes(space_edges(graph.edges, space), weight_bits)
}

fn push_membership_fingerprint(out: &mut Vec<u8>, evidence: &TagMembershipEvidence)
    ensures
        final(out)@ == old(out)@ + membership_fingerprint_bytes(evidence@),
{
    extend_bytes(out, evidence.space_id.as_bytes().as_slice());
    extend_bytes(out, evidence.memory_id.as_bytes().as_slice());
    extend_bytes(out, evidence.revision_id.as_bytes().as_slice());
    extend_bytes(out, evidence.tag_id.as_bytes().as_slice());
    put_framed(out, evidence.normalized_value.as_str().as_bytes());
    let provenance: u8 = match evidence.provenance {
        TagProvenance::Explicit => 0,
        TagProvenance::Generated => 1,
    };
    out.push(provenance);
    match &evidence.node_id {
        Some(id) => {
            out.push(1);
            put_framed(out, id.as_str().as_bytes());
        },
        None => out.push(0),
    }
    assert(out@ =~= old(out)@ + membership_fingerprint_bytes(evidence@));
}

fn push_edge_fingerprint(out: &mut Vec<u8>, edge: &TagAssociationEvidence, weight_bits: u32)
    ensures
        final(out)@ == old(out)@ + edge_fingerprint_bytes(edge@, weight_bits),
{
    extend_bytes(out, edge.space_id.as_bytes().as_slice());
    extend_bytes(out, edge.left.as_bytes().as_slice());
    extend_bytes(out, edge.right.as_bytes().as_slice());
    push_be_u32(out, edge.explicit_evidence);
    push_be_u32(out, edge.generated_evidence);
    push_be_u32(out, weight_bits);
    assert(out@ =~= old(out)@ + edge_fingerprint_bytes(edge@, weight_bits));
}

fn push_memberships_fingerprint(
    out: &mut Vec<u8>,
    memberships: &[&TagMembershipEvidence],
    Ghost(expected): Ghost<Seq<EvidenceView>>,
)
    requires
        memberships@.len() == expected.len(),
        forall|i: int| 0 <= i < expected.len() ==> (#[trigger] memberships@[i])@ == expected[i],
    ensures
        final(out)@ == old(out)@ + memberships_fingerprint_bytes(expected),
{
    let ghost start = out@;
    let mut i: usize = 0;
    assert(expected.take(0) =~= Seq::<EvidenceView>::empty());
    assert(start =~= start + memberships_fingerprint_bytes(expected.take(0)));
    while i < memberships.len()
        invariant
            memberships@.len() == expected.len(),
            forall|i: int| 0 <= i < expected.len() ==> (#[trigger] memberships@[i])@ == expected[i],
            i <= expected.len(),
            out@ == start + memberships_fingerprint_bytes(expected.take(i as int)),
        decreases expected.len() - i,
    {
        assert(expected.take(i + 1).drop_last() =~= expected.take(i as int));
        assert(expected.take(i + 1).last() == memberships@[i as int]@);
        push_membership_fingerprint(out, memberships[i]);
        i = i + 1;
    }
    assert(expected.take(expected.len() as int) =~= expected);
}

fn push_edges_fingerprint(
    out: &mut Vec<u8>,
    edges: &[&TagAssociationEvidence],
    weight_bits: &[u32],
    Ghost(expected): Ghost<Seq<EdgeView>>,
)
    requires
        edges@.len() == expected.len(),
        weight_bits@.len() == expected.len(),
        forall|i: int| 0 <= i < expected.len() ==> (#[trigger] edges@[i])@ == expected[i],
    ensures
        final(out)@ == old(out)@ + edges_fingerprint_bytes(expected, weight_bits@),
{
    let ghost start = out@;
    let mut i: usize = 0;
    assert(expected.take(0) =~= Seq::<EdgeView>::empty());
    assert(start =~= start + edges_fingerprint_bytes(expected.take(0), weight_bits@.take(0)));
    while i < edges.len()
        invariant
            edges@.len() == expected.len(),
            weight_bits@.len() == expected.len(),
            forall|i: int| 0 <= i < expected.len() ==> (#[trigger] edges@[i])@ == expected[i],
            i <= expected.len(),
            out@ == start + edges_fingerprint_bytes(expected.take(i as int), weight_bits@.take(i as int)),
        decreases expected.len() - i,
    {
        let ghost next = expected.take(i + 1);
        assert(next.drop_last() =~= expected.take(i as int));
        assert(next.last() == edges@[i as int]@);
        assert(weight_bits@.take(i + 1).take(i as int) =~= weight_bits@.take(i as int));
        assert(weight_bits@.take(i + 1)[i as int] == weight_bits@[i as int]);
        push_edge_fingerprint(out, edges[i], weight_bits[i]);
        i = i + 1;
    }
    assert(expected.take(expected.len() as int) =~= expected);
    assert(weight_bits@.take(expected.len() as int) =~= weight_bits@);
}

fn all_memberships(memberships: &[TagMembershipEvidence]) -> (all: Vec<&TagMembershipEvidence>)
    ensures
        all@.len() == memberships@.len(),
        forall|i: int| 0 <= i < all@.len() ==> (#[trigger] all@[i])@ == memberships@[i]@,
{
    let mut all: Vec<&TagMembershipEvidence> = Vec::new();
    let mut i: usize = 0;
    while i < memberships.len()
        invariant
            i <= memberships@.len(),
            all@.len() == i,
            forall|j: int| 0 <= j < i ==> (#[trigger] all@[j])@ == memberships@[j]@,
        decreases memberships@.len() - i,
    {
        all.push(&memberships[i]);
        i = i + 1;
    }
    all
}

fn all_edges(edges: &[TagAssociationEvidence]) -> (all: Vec<&TagAssociationEvidence>)
    ensures
        all@.len() == edges@.len(),
        forall|i: int| 0 <= i < all@.len() ==> (#[trigger] all@[i])@ == edges@[i]@,
{
    let mut all: Vec<&TagAssociationEvidence> = Vec::new();
    let mut i: usize = 0;
    while i < edges.len()
        invariant
            i <= edges@.len(),
            all@.len() == i,
            forall|j: int| 0 <= j < i ==> (#[trigger] all@[j])@ == edges@[j]@,
        decreases edges@.len() - i,
    {
        all.push(&edges[i]);
        i = i + 1;
    }
    all
}

impl TagGraph {
    /// The graph's fingerprint: the SHA-256 digest of its memberships and
    /// associations in order. `weight_bits` holds, for each association in
    /// order, the bits of its `f32` weight.
    pub fn fingerprint(&self, weight_bits: &[u32]) -> (digest: [u8; 32])
        requires
            weight_bits@.len() == self@.edges.len(),
        ensures
            digest@ == sha256_spec(graph_fingerprint_preimage(self@, weight_bits@)),
    {
        let mut preimage: Vec<u8> = Vec::new();
        let domain: &str = "memoria-tag-graph-v1\0";
        extend_bytes(&mut preimage, domain.as_bytes());
        let memberships = all_memberships(self.memberships.as_slice());
        push_memberships_fingerprint(&mut preimage, memberships.as_slice(), Ghost(self@.memberships));
        let edges = all_edges(self.edges.as_slice());
        push_edges_fingerprint(&mut preimage, edges.as_slice(), weight_bits, Ghost(self@.edges));
        assert(preimage@ =~= graph_fingerprint_preimage(self@, weight_bits@));
        sha256(preimage.as_slice())
    }
}

impl<'a> TagSpaceGraph<'a> {
    /// The space's fingerprint: the SHA-256 digest of the space id and of
    /// its memberships and associations in order. `weight_bits` holds, for
    /// each association of the space in order, the bits of its `f32` weight.
    pub fn fingerprint(self, weight_bits: &[u32]) -> (digest: [u8; 32])
        requires
            weight_bits@.len() == space_edges(self.graph()@.edges, self.space()@).len(),
        ensures
            digest@ == sha256_spec(space_fingerprint_preimage(self.graph()@, self.space()@, weight_bits@)),
    {
        let mut preimage: Vec<u8> = Vec::new();
        let domain: &str = "memoria-tag-space-graph-v1\0";
        extend_bytes(&mut preimage, domain.as_bytes());
        extend_bytes(&mut preimage, self.space_id.as_bytes().as_slice());
        let memberships = self.memberships();
        push_memberships_fingerprint(
            &mut preimage,
            memberships.as_slice(),
            Ghost(space_memberships(self.graph()@.memberships, self.space()@)),
        );
        let edges = self.edges();
        push_edges_fingerprint(
            &mut preimage,
            edges.as_slice(),
            weight_bits,
            Ghost(space_edges(self.graph()@.edges, self.space()@)),
        );
        assert(preimage@ =~= space_fingerprint_preimage(self.graph()@, self.space()@, weight_bits@));
        sha256(preimage.as_slice())
    }
}

/// The revisions of `documents` that lie in `space`, in order.
pub open spec fn space_documents(documents: Seq<DocumentView>, space: Seq<u8>) -> Seq<DocumentView>
    decreases documents.len(),
{
    if documents.len() == 0 {
        seq![]
    } else {
        let earlier = space_documents(documents.drop_last(), space);
        if documents.last().0 == space {
            earlier.push(documents.last())
        } else {
            earlier
        }
    }
}

proof fn lemma_space_memberships_contains(memberships: Seq<EvidenceView>, space: Seq<u8>, x: EvidenceView)
    ensures
        space_memberships(memberships, space).contains(x) <==> (memberships.contains(x) && x.space_id
            == space),
    decreases memberships.len(),
{
    if memberships.len() > 0 {
        let prefix = memberships.drop_last();
        lemma_space_memberships_contains(prefix, space, x);
        let earlier = space_memberships(prefix, space);
        if memberships.last().space_id == space {
            crate::seqs::lemma_push_contains(earlier, memberships.last(), x);
        }
        crate::seqs::lemma_push_contains(prefix, memberships.last(), x);
        assert(memberships =~= prefix.push(memberships.last()));
    }
}

proof fn lemma_space_documents_contains(documents: Seq<DocumentView>, space: Seq<u8>, d: DocumentView)
    ensures
        space_documents(documents, space).contains(d) <==> (documents.contains(d) && d.0 == space),
    decreases documents.len(),
{
    if documents.len() > 0 {
        let prefix = documents.drop_last();
        lemma_space_documents_contains(prefix, space, d);
        let earlier = space_documents(prefix, space);
        if documents.last().0 == space {
            crate::seqs::lemma_push_contains(earlier, documents.last(), d);
        }
        crate::seqs::lemma_push_contains(prefix, documents.last(), d);
        assert(documents =~= prefix.push(documents.last()));
    }
}

proof fn lemma_holds_tag_in_space(
    memberships: Seq<EvidenceView>,
    space: Seq<u8>,
    document: DocumentView,
    tag: Seq<u8>,
    provenance: TagProvenance,
)
    requires
        document.0 == space,
    ensures
        holds_tag(memberships, document, tag, provenance) == holds_tag(
            space_memberships(memberships, space),
            document,
            tag,
            provenance,
        ),
{
    let filtered = space_memberships(memberships, space);
    if holds_tag(memberships, document, tag, provenance) {
        let i = choose|i: int|
            0 <= i < memberships.len() && document_of(#[trigger] memberships[i]) == document
                && memberships[i].tag_id == tag && memberships[i].provenance == provenance;
        lemma_space_memberships_contains(memberships, space, memberships[i]);
        let j = choose|j: int| 0 <= j < filtered.len() && filtered[j] == memberships[i];
        assert(document_of(filtered[j]) == document);
    }
    if holds_tag(filtered, document, tag, provenance) {
        let j = choose|j: int|
            0 <= j < filtered.len() && document_of(#[trigger] filtered[j]) == document
                && filtered[j].tag_id == tag && filtered[j].provenance == provenance;
        assert(filtered.contains(filtered[j]));
        lemma_space_memberships_contains(memberships, space, filtered[j]);
        let i = choose|i: int| 0 <= i < memberships.len() && memberships[i] == filtered[j];
        assert(document_of(memberships[i]) == document);
    }
}

proof fn lemma_count_space_documents(
    documents: Seq<DocumentView>,
    memberships: Seq<EvidenceView>,
    space: Seq<u8>,
    left: Seq<u8>,
    right: Seq<u8>,
    provenance: TagProvenance,
)
    ensures
        evidence_count(documents, memberships, space, left, right, provenance) == evidence_count(
            space_documents(documents, space),
            memberships,
            space,
            left,
            right,
            provenance,
        ),
    decreases documents.len(),
{
    if documents.len() > 0 {
        let prefix = documents.drop_last();
        lemma_count_space_documents(prefix, memberships, space, left, right, provenance);
        let earlier = space_documents(prefix, space);
        if documents.last().0 == space {
            assert(earlier.push(documents.last()).drop_last() =~= earlier);
        }
    }
}

proof fn lemma_count_space_memberships(
    documents: Seq<DocumentView>,
    memberships: Seq<EvidenceView>,
    space: Seq<u8>,
    left: Seq<u8>,
    right: Seq<u8>,
    provenance: TagProvenance,
)
    ensures
        evidence_count(documents, memberships, space, left, right, provenance) == evidence_count(
            documents,
            space_memberships(memberships, space),
            space,
            left,
            right,
            provenance,
        ),
    decreases documents.len(),
{
    if documents.len() > 0 {
        lemma_count_space_memberships(documents.drop_last(), memberships, space, left, right, provenance);
        let document = documents.last();
        if document.0 == space {
            lemma_holds_tag_in_space(memberships, space, document, left, provenance);
            lemma_holds_tag_in_space(memberships, space, document, right, provenance);
        }
    }
}

proof fn lemma_documents_of_space(memberships: Seq<EvidenceView>, space: Seq<u8>)
    ensures
        documents(space_memberships(memberships, space)) == space_documents(documents(memberships), space),
    decreases memberships.len(),
{
    if memberships.len() > 0 {
        let prefix = memberships.drop_last();
        let x = memberships.last();
        lemma_documents_of_space(prefix, space);
        let filtered = space_memberships(prefix, space);
        let found = documents(prefix);
        lemma_space_documents_contains(found, space, document_of(x));
        if x.space_id == space {
            assert(filtered.push(x).drop_last() =~= filtered);
            assert(filtered.push(x).last() == x);
            if !found.contains(document_of(x)) {
                assert(found.push(document_of(x)).drop_last() =~= found);
            }
        } else {
            if !found.contains(document_of(x)) {
                assert(found.push(document_of(x)).drop_last() =~= found);
            }
        }
    }
}

/// Associations are local to their space: the revisions of a space that
/// hold two tags are counted from the memberships of that space alone, so
/// memberships of the same tags in other spaces change no association of
/// the space.
pub proof fn law_cooccurrences_are_space_local(
    memberships: Seq<EvidenceView>,
    space: Seq<u8>,
    left: Seq<u8>,
    right: Seq<u8>,
    provenance: TagProvenance,
)
    ensures
        co_occurrences(memberships, space, left, right, provenance) == co_occurrences(
            space_memberships(memberships, space),
            space,
            left,
            right,
            provenance,
        ),
{
    let filtered = space_memberships(memberships, space);
    lemma_count_space_documents(documents(memberships), memberships, space, left, right, provenance);
    lemma_documents_of_space(memberships, space);
    lemma_count_space_memberships(documents(filtered), memberships, space, left, right, provenance);
}

/// Recording a membership is idempotent: a membership that the graph holds
/// counts as recorded, and `insert_membership` leaves the memberships of a
/// graph unchanged when it records one that is recorded already.
pub proof fn law_membership_insert_is_idempotent(memberships: Seq<EvidenceView>, evidence: EvidenceView)
    requires
        memberships.contains(evidence),
    ensures
        membership_recorded(memberships, evidence),
{
    let i = choose|i: int| 0 <= i < memberships.len() && memberships[i] == evidence;
    assert(same_membership(memberships[i], evidence));
}

/// An association is found whichever way round its two tags are named.
pub proof fn law_edge_lookup_is_symmetric(space: Seq<u8>, left: Seq<u8>, right: Seq<u8>)
    ensures
        space_pair(space, left, right) == space_pair(space, right, left),
{
    lemma_lex_order_flip(left, right);
    lemma_lex_order_equal(left, right);
    lemma_lex_order_range(left, right);
}

} // verus!
