use vstd::prelude::*;
use vstd::std_specs::cmp::PartialEqSpecImpl;
use vstd::utf8::encode_utf8;

use crate::digest::{sha256, sha256_spec};
use crate::encode::{extend_bytes, framed, put_framed};
use crate::text::{
    collapse, collapse_whitespace, is_blank, is_whitespace_spec, law_collapse_lowercases_every_character,
    lowercase_each, str_eq,
};
use crate::vector::{hex_lower, hex_spec};
use crate::{invalid, invalid_value, DerivedError};

verus! {

/// The stable global identity of a normalized Tag: a content hash, so a rebuilt dictionary assigns the same identity to the same value.
#[derive(Clone, Copy, Debug, Hash, PartialOrd, Ord)]
pub struct TagId([u8; 32]);

impl View for TagId {
    type V = Seq<u8>;

    closed spec fn view(&self) -> Seq<u8> {
        self.0@
    }
}

impl PartialEq for TagId {
    fn eq(&self, other: &Self) -> (equal: bool) {
        crate::ids::bytes_equal(self.0.as_slice(), other.0.as_slice())
    }
}

impl Eq for TagId {}

impl PartialEqSpecImpl for TagId {
    open spec fn obeys_eq_spec() -> bool {
        true
    }

    open spec fn eq_spec(&self, other: &Self) -> bool {
        self@ == other@
    }
}

impl TagId {
    pub fn from_bytes(bytes: [u8; 32]) -> (id: Self)
        ensures
            id@ == bytes@,
    {
        TagId(bytes)
    }

    pub fn as_bytes(&self) -> (bytes: &[u8; 32])
        ensures
            bytes@ == self@,
    {
        &self.0
    }

    pub fn into_bytes(self) -> (bytes: [u8; 32])
        ensures
            bytes@ == self@,
    {
        self.0
    }

    pub proof fn lemma_len(&self)
        ensures
            self@.len() == 32,
    {
    }

    /// The identity as text: `T_` and its bytes in lowercase hex.
    pub fn display_text(&self) -> (text: String)
        ensures
            text@ == "T_"@ + hex_spec(self@),
    {
        let mut text = crate::text::owned("T_");
        let hex = hex_lower(self.0.as_slice());
        crate::text::push_str(&mut text, hex.as_str());
        proof {
            reveal_strlit("T_");
        }
        text
    }
}


/// The bytes a Tag identity digests.
pub open spec fn tag_id_preimage(normalized: Seq<char>) -> Seq<u8> {
    encode_utf8("memoria-tag-id-v1\0"@) + framed(encode_utf8(normalized))
}

/// The identity of a normalized Tag value.
pub open spec fn tag_id_spec(normalized: Seq<char>) -> Seq<u8> {
    sha256_spec(tag_id_preimage(normalized))
}

impl TagId {
    pub fn from_normalized(value: &str) -> (id: Self)
        ensures
            id@ == tag_id_spec(value@),
    {
        let mut preimage: Vec<u8> = Vec::new();
        let domain: &str = "memoria-tag-id-v1\0";
        extend_bytes(&mut preimage, domain.as_bytes());
        put_framed(&mut preimage, value.as_bytes());
        assert(preimage@ =~= tag_id_preimage(value@));
        TagId(sha256(preimage.as_slice()))
    }
}

/// The normalized form of a Tag value: whitespace collapsed and lowercased.
pub open spec fn normalize_tag_spec(value: Seq<char>) -> Seq<char> {
    collapse_whitespace(value, true)
}

/// Normalizes whitespace and case, without any language understanding. An
/// empty result is refused: that happens exactly when `value` is empty or
/// only whitespace.
pub fn normalize_tag(value: &str) -> (result: Result<String, DerivedError>)
    ensures
        result is Ok <==> !is_blank(value@),
        normalize_tag_spec(value@).len() == 0 <==> is_blank(value@),
        normalize_tag_spec(value@).len() > 0 ==> (result matches Ok(normalized) && normalized@
            == normalize_tag_spec(value@)),
        normalize_tag_spec(value@).len() == 0 ==> (result matches Err(error) && invalid_value(
            error,
            "Tag value must not be empty"@,
        )),
{
    let normalized = collapse(value, true);
    if normalized.as_str().is_empty() {
        return Err(invalid("Tag value must not be empty"));
    }
    Ok(normalized)
}

/// The values of a dictionary in insertion order.
pub open spec fn entry_values(entries: Seq<(String, TagId)>) -> Seq<Seq<char>> {
    entries.map_values(|entry: (String, TagId)| entry.0@)
}

/// The last value, in insertion order, whose identity is `id`.
pub open spec fn last_value_with_id(values: Seq<Seq<char>>, id: Seq<u8>) -> Option<Seq<char>>
    decreases values.len(),
{
    if values.len() == 0 {
        None
    } else if tag_id_spec(values.last()) == id {
        Some(values.last())
    } else {
        last_value_with_id(values.drop_last(), id)
    }
}

/// A deterministic global dictionary from normalized Tag values to TagId.
#[derive(Clone, Debug)]
pub struct TagDictionary {
    entries: Vec<(String, TagId)>,
}

impl View for TagDictionary {
    type V = Seq<Seq<char>>;

    /// The interned normalized values, in insertion order.
    closed spec fn view(&self) -> Seq<Seq<char>> {
        entry_values(self.entries@)
    }
}

impl TagDictionary {
    /// No value twice, and every value paired with its identity.
    pub closed spec fn wf(&self) -> bool {
        &&& self@.no_duplicates()
        &&& forall|i: int|
            0 <= i < self.entries@.len() ==> (#[trigger] self.entries@[i]).1@ == tag_id_spec(
                self.entries@[i].0@,
            )
    }

    pub fn new() -> (dictionary: Self)
        ensures
            dictionary.wf(),
            dictionary@ == Seq::<Seq<char>>::empty(),
    {
        let dictionary = TagDictionary { entries: Vec::new() };
        assert(dictionary@ =~= Seq::<Seq<char>>::empty());
        dictionary
    }

    fn find(&self, normalized: &str) -> (found: Option<usize>)
        ensures
            found matches Some(i) ==> i < self.entries@.len() && self.entries@[i as int].0@
                == normalized@,
            found is None ==> !self@.contains(normalized@),
    {
        let mut i: usize = 0;
        while i < self.entries.len()
            invariant
                i <= self.entries@.len(),
                forall|j: int| 0 <= j < i ==> (#[trigger] self.entries@[j]).0@ != normalized@,
            decreases self.entries@.len() - i,
        {
            if str_eq(self.entries[i].0.as_str(), normalized) {
                return Some(i);
            }
            i = i + 1;
        }
        proof {
            if self@.contains(normalized@) {
                let j = choose|j: int| 0 <= j < self@.len() && self@[j] == normalized@;
                assert(self.entries@[j].0@ == normalized@);
            }
        }
        None
    }

    /// Normalizes `value` and returns its stable identity, recording the
    /// normalized value when it is new.
    pub fn intern(&mut self, value: &str) -> (result: Result<TagId, DerivedError>)
        requires
            old(self).wf(),
        ensures
            final(self).wf(),
            result is Ok <==> !is_blank(value@),
            normalize_tag_spec(value@).len() > 0 ==> (result matches Ok(id) && id@ == tag_id_spec(
                normalize_tag_spec(value@),
            )),
            normalize_tag_spec(value@).len() > 0 ==> final(self)@ == if old(self)@.contains(
                normalize_tag_spec(value@),
            ) {
                old(self)@
            } else {
                old(self)@.push(normalize_tag_spec(value@))
            },
            normalize_tag_spec(value@).len() == 0 ==> (result matches Err(error) && invalid_value(
                error,
                "Tag value must not be empty"@,
            )) && final(self)@ == old(self)@,
    {
        let normalized = match normalize_tag(value) {
            Ok(normalized) => normalized,
            Err(error) => {
                return Err(error);
            },
        };
        if let Some(i) = self.find(normalized.as_str()) {
            proof {
                assert(self@[i as int] == normalized@);
            }
            return Ok(self.entries[i].1);
        }
        let tag_id = TagId::from_normalized(normalized.as_str());
        let ghost before = self.entries@;
        self.entries.push((normalized, tag_id));
        proof {
            assert(self@ =~= entry_values(before).push(normalize_tag_spec(value@)));
            assert forall|i: int| 0 <= i < self.entries@.len() implies (
            #[trigger] self.entries@[i]).1@ == tag_id_spec(self.entries@[i].0@) by {
                if i < before.len() {
                    assert(self.entries@[i] == before[i]);
                }
            }
        }
        Ok(tag_id)
    }

    /// The identity of an already interned value.
    pub fn resolve(&self, value: &str) -> (id: Option<TagId>)
        requires
            self.wf(),
        ensures
            id matches Some(id) ==> normalize_tag_spec(value@).len() > 0 && self@.contains(
                normalize_tag_spec(value@),
            ) && id@ == tag_id_spec(normalize_tag_spec(value@)),
            id is None ==> normalize_tag_spec(value@).len() == 0 || !self@.contains(
                normalize_tag_spec(value@),
            ),
    {
        let normalized = match normalize_tag(value) {
            Ok(normalized) => normalized,
            Err(_) => {
                return None;
            },
        };
        match self.find(normalized.as_str()) {
            Some(i) => {
                proof {
                    assert(self@[i as int] == normalized@);
                }
                Some(self.entries[i].1)
            },
            None => None,
        }
    }

    /// The normalized value of an identity, as most recently interned.
    pub fn value(&self, tag_id: TagId) -> (value: Option<&str>)
        requires
            self.wf(),
        ensures
            value matches Some(v) ==> last_value_with_id(self@, tag_id@) == Some(v@),
            value is None ==> last_value_with_id(self@, tag_id@) is None,
    {
        let mut i: usize = self.entries.len();
        assert(self@.subrange(0, i as int) =~= self@);
        while i > 0
            invariant
                i <= self.entries@.len(),
                self.wf(),
                last_value_with_id(self@, tag_id@) == last_value_with_id(
                    self@.subrange(0, i as int),
                    tag_id@,
                ),
            decreases i,
        {
            let ghost prefix = self@.subrange(0, i as int);
            proof {
                assert(prefix.drop_last() =~= self@.subrange(0, i - 1));
                assert(prefix.last() == self.entries@[i - 1].0@);
            }
            if self.entries[i - 1].1 == tag_id {
                return Some(self.entries[i - 1].0.as_str());
            }
            i = i - 1;
        }
        None
    }

    pub fn len(&self) -> (count: usize)
        ensures
            count == self@.len(),
    {
        self.entries.len()
    }

    pub fn is_empty(&self) -> (empty: bool)
        ensures
            empty == (self@.len() == 0),
    {
        self.entries.len() == 0
    }
}

impl Default for TagDictionary {
    fn default() -> (dictionary: Self)
        ensures
            dictionary.wf(),
            dictionary@ == Seq::<Seq<char>>::empty(),
    {
        TagDictionary::new()
    }
}

/// Interning is content-addressed: two values with the same normalized form
/// get the same identity, in any dictionary and in any order.
pub proof fn law_same_normalization_same_identity(first: Seq<char>, second: Seq<char>)
    requires
        normalize_tag_spec(first) == normalize_tag_spec(second),
    ensures
        tag_id_spec(normalize_tag_spec(first)) == tag_id_spec(normalize_tag_spec(second)),
{
}

/// What `value` looks up answers with an interned value of that identity,
/// and answers nothing exactly when no interned value has it.
pub proof fn law_value_answers_with_its_identity(values: Seq<Seq<char>>, id: Seq<u8>)
    ensures
        last_value_with_id(values, id) matches Some(found) ==> values.contains(found) && tag_id_spec(
            found,
        ) == id,
        last_value_with_id(values, id) is None <==> forall|i: int|
            0 <= i < values.len() ==> tag_id_spec(#[trigger] values[i]) != id,
    decreases values.len(),
{
    if values.len() > 0 {
        let prefix = values.drop_last();
        law_value_answers_with_its_identity(prefix, id);
        if tag_id_spec(values.last()) == id {
            assert(values[values.len() - 1] == values.last());
        } else {
            if let Some(found) = last_value_with_id(prefix, id) {
                let i = choose|i: int| 0 <= i < prefix.len() && prefix[i] == found;
                assert(values[i] == found);
            }
            assert forall|i: int| 0 <= i < values.len() && (forall|j: int|
                0 <= j < prefix.len() ==> tag_id_spec(#[trigger] prefix[j]) != id) implies tag_id_spec(
                #[trigger] values[i],
            ) != id by {
                if i < prefix.len() {
                    assert(values[i] == prefix[i]);
                }
            }
            if exists|i: int| 0 <= i < prefix.len() && tag_id_spec(#[trigger] prefix[i]) == id {
                let i = choose|i: int| 0 <= i < prefix.len() && tag_id_spec(#[trigger] prefix[i]) == id;
                assert(values[i] == prefix[i]);
            }
        }
    }
}

/// An interned value reads back: after `intern`, `value` of the identity
/// gives the value interned, unless another interned value shares its
/// identity (a SHA-256 collision).
pub proof fn law_interned_value_reads_back(values: Seq<Seq<char>>, value: Seq<char>)
    requires
        values.contains(value),
        forall|i: int|
            0 <= i < values.len() && tag_id_spec(#[trigger] values[i]) == tag_id_spec(value)
                ==> values[i] == value,
    ensures
        last_value_with_id(values, tag_id_spec(value)) == Some(value),
    decreases values.len(),
{
    if values.last() != value {
        let prefix = values.drop_last();
        let i = choose|i: int| 0 <= i < values.len() && values[i] == value;
        assert(i < prefix.len());
        assert(prefix[i] == value);
        assert(tag_id_spec(values[values.len() - 1]) != tag_id_spec(value));
        assert forall|k: int|
            0 <= k < prefix.len() && tag_id_spec(#[trigger] prefix[k]) == tag_id_spec(value) implies prefix[k]
            == value by {
            assert(values[k] == prefix[k]);
        }
        law_interned_value_reads_back(prefix, value);
    }
}


/// A tag value that is one word, with any whitespace around it, normalizes
/// to that word with every character replaced by its full Unicode
/// lowercase mapping (`char::to_lowercase`), for every character, not
/// only ASCII: " Été " and "ÉTÉ" both give the lowercase of "ÉTÉ".
pub proof fn law_normalized_tag_is_lowercased(p: Seq<char>, w: Seq<char>, q: Seq<char>)
    requires
        is_blank(p),
        is_blank(q),
        forall|i: int| 0 <= i < w.len() ==> !is_whitespace_spec(#[trigger] w[i]),
    ensures
        normalize_tag_spec(p + w + q) == lowercase_each(w),
{
    law_collapse_lowercases_every_character(p, w, q);
}

} // verus!
