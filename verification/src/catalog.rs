use vstd::prelude::*;

use crate::artifact::{
    artifact_state_name, can_publish_spec, lemma_artifact_state_names_distinct, ArtifactId,
    ArtifactState,
};
use crate::ids::AuthorityGeneration;
use crate::text::{owned, str_eq};
use crate::DerivedError;

verus! {

/// The views of a sequence of strings.
pub open spec fn strings_view(strings: Seq<String>) -> Seq<Seq<char>> {
    strings.map_values(|s: String| s@)
}

/// `strings` lists `value`.
pub open spec fn has_string(strings: Seq<String>, value: Seq<char>) -> bool {
    exists|i: int| 0 <= i < strings.len() && #[trigger] strings[i]@ == value
}

fn contains_str(strings: &[String], value: &str) -> (found: bool)
    ensures
        found == has_string(strings@, value@),
{
    let mut i: usize = 0;
    while i < strings.len()
        invariant
            i <= strings@.len(),
            forall|j: int| 0 <= j < i ==> #[trigger] strings@[j]@ != value@,
        decreases strings@.len() - i,
    {
        if str_eq(strings[i].as_str(), value) {
            return true;
        }
        i = i + 1;
    }
    false
}

/// The artifact kinds whose presence makes a manifest serve structured queries.
pub open spec fn has_structured_kinds(kinds: Seq<String>) -> bool {
    &&& has_string(kinds, "structural"@)
    &&& has_string(kinds, "temporal"@)
    &&& has_string(kinds, "relations"@)
    &&& has_string(kinds, "entity_observations"@)
    &&& has_string(kinds, "explicit_tags"@)
}

/// The capabilities a manifest derives from the kinds of its artifacts.
pub open spec fn capabilities_for_kinds_spec(
    kinds: Seq<String>,
    has_compatible_semantic_artifact: bool,
    has_compatible_lexical_artifact: bool,
) -> Seq<Seq<char>> {
    let semantic: Seq<Seq<char>> = if has_compatible_semantic_artifact {
        seq!["semantic"@]
    } else {
        seq![]
    };
    let lexical: Seq<Seq<char>> = if has_string(kinds, "lexical"@)
        && has_compatible_lexical_artifact {
        seq!["lexical"@]
    } else {
        seq![]
    };
    let structured: Seq<Seq<char>> = if has_structured_kinds(kinds) {
        seq!["structured"@]
    } else {
        seq![]
    };
    let base: Seq<Seq<char>> = if has_string(kinds, "ir"@) && has_structured_kinds(kinds)
        && has_compatible_lexical_artifact {
        seq!["base-search"@]
    } else {
        seq![]
    };
    semantic + lexical + structured + base
}

/// The capabilities a manifest derives from the kinds of its artifacts.
pub fn capabilities_for_kinds(
    kinds: &[String],
    has_compatible_semantic_artifact: bool,
    has_compatible_lexical_artifact: bool,
) -> (capabilities: Vec<String>)
    ensures
        strings_view(capabilities@) == capabilities_for_kinds_spec(
            kinds@,
            has_compatible_semantic_artifact,
            has_compatible_lexical_artifact,
        ),
{
    let mut capabilities: Vec<String> = Vec::new();
    if has_compatible_semantic_artifact {
        capabilities.push(owned("semantic"));
    }
    if contains_str(kinds, "lexical") && has_compatible_lexical_artifact {
        capabilities.push(owned("lexical"));
    }
    let structured = contains_str(kinds, "structural") && contains_str(kinds, "temporal")
        && contains_str(kinds, "relations") && contains_str(kinds, "entity_observations")
        && contains_str(kinds, "explicit_tags");
    if structured {
        capabilities.push(owned("structured"));
    }
    if contains_str(kinds, "ir") && structured && has_compatible_lexical_artifact {
        capabilities.push(owned("base-search"));
    }
    assert(strings_view(capabilities@) =~= capabilities_for_kinds_spec(
        kinds@,
        has_compatible_semantic_artifact,
        has_compatible_lexical_artifact,
    ));
    capabilities
}

/// What the catalog holds about one artifact named for publication.
#[derive(Clone, Debug)]
pub struct ArtifactRow {
    pub state: String,
    pub authority_generation: i64,
    pub kind: String,
    pub version: i64,
    pub has_vector_membership: bool,
    pub has_lexical_record: bool,
}

/// The state whose stored name is `name`, if any.
pub open spec fn state_named(name: Seq<char>) -> Option<ArtifactState> {
    if exists|state: ArtifactState| artifact_state_name(state) == name {
        Some(choose|state: ArtifactState| artifact_state_name(state) == name)
    } else {
        None
    }
}

/// The artifact may enter a manifest at `generation`.
pub open spec fn row_publishable(row: ArtifactRow, generation: AuthorityGeneration, rebased: bool) -> bool {
    &&& state_named(row.state@) is Some
    &&& can_publish_spec(state_named(row.state@).unwrap())
    &&& row.authority_generation >= 0
    &&& (row.authority_generation == generation.spec_value() || (rebased && row.kind@ == "semantic"@
        && row.version == 1 && row.authority_generation < generation.spec_value()))
}

/// The error the first unpublishable artifact is refused with.
pub open spec fn row_refusal(
    id: ArtifactId,
    row: Option<ArtifactRow>,
    generation: AuthorityGeneration,
    error: DerivedError,
) -> bool {
    match row {
        None => error == DerivedError::ArtifactNotFound { id },
        Some(row) => if state_named(row.state@) is None {
            error matches DerivedError::InvalidCatalogState { value } && value@ == row.state@
        } else if !can_publish_spec(state_named(row.state@).unwrap()) {
            error == DerivedError::ArtifactNotValidated { id, state: state_named(row.state@).unwrap() }
        } else if row.authority_generation < 0 {
            error == DerivedError::InvalidGeneration { value: row.authority_generation }
        } else {
            error == DerivedError::ArtifactGenerationMismatch {
                id,
                expected: generation,
                actual: AuthorityGeneration(row.authority_generation as u64),
            }
        },
    }
}

/// The row is present and publishable.
pub open spec fn entry_publishable(
    entry: (ArtifactId, Option<ArtifactRow>),
    generation: AuthorityGeneration,
    rebased: bool,
) -> bool {
    entry.1 matches Some(row) && row_publishable(row, generation, rebased)
}

/// A semantic V1 artifact with at least one vector membership.
pub open spec fn semantic_with_vectors(entry: (ArtifactId, Option<ArtifactRow>)) -> bool {
    match entry.1 {
        Some(row) => row.kind@ == "semantic"@ && row.version == 1 && row.has_vector_membership,
        None => false,
    }
}

/// Some named artifact is a semantic V1 artifact with vector memberships.
pub open spec fn has_compatible_semantic(rows: Seq<(ArtifactId, Option<ArtifactRow>)>) -> bool {
    exists|i: int| 0 <= i < rows.len() && #[trigger] semantic_with_vectors(rows[i])
}

/// Whether the last lexical V1 artifact named has a registered lexical object.
pub open spec fn has_compatible_lexical(rows: Seq<(ArtifactId, Option<ArtifactRow>)>) -> bool
    decreases rows.len(),
{
    if rows.len() == 0 {
        false
    } else {
        match rows.last().1 {
            Some(row) => if row.kind@ == "lexical"@ && row.version == 1 {
                row.has_lexical_record
            } else {
                has_compatible_lexical(rows.drop_last())
            },
            None => has_compatible_lexical(rows.drop_last()),
        }
    }
}

/// The kinds of the named artifacts.
pub open spec fn row_kinds(rows: Seq<(ArtifactId, Option<ArtifactRow>)>) -> Seq<String> {
    rows.map_values(|entry: (ArtifactId, Option<ArtifactRow>)| entry.1.unwrap().kind)
}

/// The requested capabilities, without semantic or lexical when no
/// compatible artifact backs them.
pub open spec fn keep_capabilities(requested: Seq<Seq<char>>, semantic: bool, lexical: bool) -> Seq<
    Seq<char>,
>
    decreases requested.len(),
{
    if requested.len() == 0 {
        seq![]
    } else {
        let prefix = keep_capabilities(requested.drop_last(), semantic, lexical);
        let c = requested.last();
        if (c != "semantic"@ || semantic) && (c != "lexical"@ || lexical) {
            prefix.push(c)
        } else {
            prefix
        }
    }
}

/// The capabilities a published manifest records.
pub open spec fn published_capabilities(
    rows: Seq<(ArtifactId, Option<ArtifactRow>)>,
    requested: Seq<Seq<char>>,
) -> Seq<Seq<char>> {
    if requested.len() == 0 {
        capabilities_for_kinds_spec(
            row_kinds(rows),
            has_compatible_semantic(rows),
            has_compatible_lexical(rows),
        )
    } else {
        keep_capabilities(requested, has_compatible_semantic(rows), has_compatible_lexical(rows))
    }
}

/// Decides whether the named artifacts can be published together as a
/// manifest at `generation`, and with which capabilities. Every artifact
/// must exist, be validated or published, and carry the manifest's
/// generation; a rebased manifest may also keep an older semantic V1
/// artifact. The first artifact that fails refuses the whole publication.
pub fn plan_manifest_publication(
    rows: &[(ArtifactId, Option<ArtifactRow>)],
    generation: AuthorityGeneration,
    requested_capabilities: &[String],
    rebased: bool,
) -> (result: Result<Vec<String>, DerivedError>)
    ensures
        result is Ok <==> forall|i: int|
            0 <= i < rows@.len() ==> entry_publishable(#[trigger] rows@[i], generation, rebased),
        result matches Ok(capabilities) ==> strings_view(capabilities@) == published_capabilities(
            rows@,
            strings_view(requested_capabilities@),
        ),
        result matches Err(error) ==> exists|i: int|
            0 <= i < rows@.len() && !entry_publishable(#[trigger] rows@[i], generation, rebased)
                && (forall|j: int|
                0 <= j < i ==> entry_publishable(#[trigger] rows@[j], generation, rebased))
                && row_refusal(rows@[i].0, rows@[i].1, generation, error),
{
    proof {
        lemma_artifact_state_names_distinct();
    }
    let mut kinds: Vec<String> = Vec::new();
    let mut has_semantic = false;
    let mut has_lexical = false;
    let mut i: usize = 0;
    while i < rows.len()
        invariant
            i <= rows@.len(),
            forall|a: ArtifactState, b: ArtifactState|
                artifact_state_name(a) == artifact_state_name(b) ==> a == b,
            forall|j: int| 0 <= j < i ==> entry_publishable(#[trigger] rows@[j], generation, rebased),
            kinds@ == row_kinds(rows@.subrange(0, i as int)),
            has_semantic == has_compatible_semantic(rows@.subrange(0, i as int)),
            has_lexical == has_compatible_lexical(rows@.subrange(0, i as int)),
        decreases rows@.len() - i,
    {
        let id = rows[i].0;
        let row = match &rows[i].1 {
            None => {
                return Err(DerivedError::ArtifactNotFound { id });
            },
            Some(row) => row,
        };
        let state = match ArtifactState::parse(row.state.as_str()) {
            Ok(state) => state,
            Err(error) => {
                return Err(error);
            },
        };
        proof {
            assert(artifact_state_name(state) == row.state@);
            assert(state_named(row.state@) == Some(state));
        }
        if !state.can_publish() {
            return Err(DerivedError::ArtifactNotValidated { id, state });
        }
        if row.authority_generation < 0 {
            return Err(DerivedError::InvalidGeneration { value: row.authority_generation });
        }
        let artifact_generation = row.authority_generation as u64;
        let is_semantic = str_eq(row.kind.as_str(), "semantic");
        let compatible_older_semantic = rebased && is_semantic && row.version == 1
            && artifact_generation < generation.value();
        if artifact_generation != generation.value() && !compatible_older_semantic {
            return Err(
                DerivedError::ArtifactGenerationMismatch {
                    id,
                    expected: generation,
                    actual: AuthorityGeneration::new(artifact_generation),
                },
            );
        }
        let contributes = is_semantic && row.version == 1 && row.has_vector_membership;
        assert(contributes == semantic_with_vectors(rows@[i as int]));
        has_semantic = has_semantic || contributes;
        if str_eq(row.kind.as_str(), "lexical") && row.version == 1 {
            has_lexical = row.has_lexical_record;
        }
        kinds.push(row.kind.clone());
        proof {
            let prefix = rows@.subrange(0, i as int);
            let next = rows@.subrange(0, i + 1);
            assert(next.drop_last() =~= prefix);
            assert(next.last() == rows@[i as int]);
            assert(row_kinds(next) =~= row_kinds(prefix).push(row.kind));
            if has_compatible_semantic(next) {
                let k = choose|k: int| 0 <= k < next.len() && #[trigger] semantic_with_vectors(next[k]);
                if k < i {
                    assert(prefix[k] == next[k]);
                }
            }
            if has_compatible_semantic(prefix) {
                let k = choose|k: int| 0 <= k < prefix.len() && #[trigger] semantic_with_vectors(prefix[k]);
                assert(next[k] == prefix[k]);
            }
            assert(next[i as int] == rows@[i as int]);
            assert(has_compatible_semantic(next) == (has_compatible_semantic(prefix)
                || semantic_with_vectors(next[i as int])));
        }
        i = i + 1;
    }
    proof {
        assert(rows@.subrange(0, rows@.len() as int) =~= rows@);
    }
    let capabilities = if requested_capabilities.len() == 0 {
        capabilities_for_kinds(kinds.as_slice(), has_semantic, has_lexical)
    } else {
        keep_requested_capabilities(requested_capabilities, has_semantic, has_lexical)
    };
    Ok(capabilities)
}

fn keep_requested_capabilities(requested: &[String], semantic: bool, lexical: bool) -> (kept: Vec<String>)
    ensures
        strings_view(kept@) == keep_capabilities(strings_view(requested@), semantic, lexical),
{
    let mut kept: Vec<String> = Vec::new();
    let mut i: usize = 0;
    while i < requested.len()
        invariant
            i <= requested@.len(),
            strings_view(kept@) == keep_capabilities(
                strings_view(requested@.subrange(0, i as int)),
                semantic,
                lexical,
            ),
        decreases requested@.len() - i,
    {
        let capability = &requested[i];
        let keep = (!str_eq(capability.as_str(), "semantic") || semantic) && (!str_eq(
            capability.as_str(),
            "lexical",
        ) || lexical);
        proof {
            let prefix = strings_view(requested@.subrange(0, i as int));
            let next = strings_view(requested@.subrange(0, i + 1));
            assert(next.drop_last() =~= prefix);
            assert(next.last() == capability@);
        }
        if keep {
            kept.push(capability.clone());
        }
        proof {
            let next = strings_view(requested@.subrange(0, i + 1));
            assert(strings_view(kept@) =~= keep_capabilities(next, semantic, lexical));
        }
        i = i + 1;
    }
    proof {
        assert(requested@.subrange(0, requested@.len() as int) =~= requested@);
    }
    kept
}


proof fn lemma_compatible_lexical_has_object(rows: Seq<(ArtifactId, Option<ArtifactRow>)>)
    requires
        has_compatible_lexical(rows),
    ensures
        exists|i: int|
            0 <= i < rows.len() && ((#[trigger] rows[i]).1 matches Some(row) && row.kind@
                == "lexical"@ && row.version == 1 && row.has_lexical_record),
    decreases rows.len(),
{
    let last = rows.len() - 1;
    assert(rows.last() == rows[last]);
    match rows.last().1 {
        Some(row) => {
            if !(row.kind@ == "lexical"@ && row.version == 1) {
                lemma_compatible_lexical_has_object(rows.drop_last());
                let i = choose|i: int|
                    0 <= i < rows.drop_last().len() && ((#[trigger] rows.drop_last()[i]).1 matches Some(
                        row,
                    ) && row.kind@ == "lexical"@ && row.version == 1 && row.has_lexical_record);
                assert(rows[i] == rows.drop_last()[i]);
            }
        },
        None => {
            lemma_compatible_lexical_has_object(rows.drop_last());
            let i = choose|i: int|
                0 <= i < rows.drop_last().len() && ((#[trigger] rows.drop_last()[i]).1 matches Some(
                    row,
                ) && row.kind@ == "lexical"@ && row.version == 1 && row.has_lexical_record);
            assert(rows[i] == rows.drop_last()[i]);
        },
    }
}

proof fn lemma_keep_capabilities(
    requested: Seq<Seq<char>>,
    semantic: bool,
    lexical: bool,
    c: Seq<char>,
)
    ensures
        keep_capabilities(requested, semantic, lexical).contains(c) <==> requested.contains(c) && (c
            != "semantic"@ || semantic) && (c != "lexical"@ || lexical),
    decreases requested.len(),
{
    if requested.len() > 0 {
        let prefix = requested.drop_last();
        lemma_keep_capabilities(prefix, semantic, lexical, c);
        let kept = keep_capabilities(prefix, semantic, lexical);
        let last = requested.last();
        assert(requested == prefix.push(last));
        if requested.contains(c) && c != last {
            let i = choose|i: int| 0 <= i < requested.len() && requested[i] == c;
            assert(prefix[i] == c);
        }
        if prefix.contains(c) {
            let i = choose|i: int| 0 <= i < prefix.len() && prefix[i] == c;
            assert(requested[i] == c);
        }
        if (last != "semantic"@ || semantic) && (last != "lexical"@ || lexical) {
            assert(kept.push(last)[kept.len() as int] == last);
            if kept.push(last).contains(c) && c != last {
                let i = choose|i: int| 0 <= i < kept.push(last).len() && kept.push(last)[i] == c;
                assert(kept[i] == c);
            }
            if kept.contains(c) {
                let i = choose|i: int| 0 <= i < kept.len() && kept[i] == c;
                assert(kept.push(last)[i] == c);
            }
        }
        assert(requested[requested.len() - 1] == last);
    }
}

proof fn lemma_derived_capabilities_flags(kinds: Seq<String>, semantic: bool, lexical: bool, j: int)
    requires
        0 <= j < capabilities_for_kinds_spec(kinds, semantic, lexical).len(),
    ensures
        capabilities_for_kinds_spec(kinds, semantic, lexical)[j] == "semantic"@ ==> semantic,
        capabilities_for_kinds_spec(kinds, semantic, lexical)[j] == "lexical"@ ==> lexical,
{
    reveal_strlit("semantic");
    reveal_strlit("lexical");
    reveal_strlit("structured");
    reveal_strlit("base-search");
    let semantic_part: Seq<Seq<char>> = if semantic {
        seq!["semantic"@]
    } else {
        seq![]
    };
    let lexical_part: Seq<Seq<char>> = if has_string(kinds, "lexical"@) && lexical {
        seq!["lexical"@]
    } else {
        seq![]
    };
    let structured_part: Seq<Seq<char>> = if has_structured_kinds(kinds) {
        seq!["structured"@]
    } else {
        seq![]
    };
    let base_part: Seq<Seq<char>> = if has_string(kinds, "ir"@) && has_structured_kinds(kinds)
        && lexical {
        seq!["base-search"@]
    } else {
        seq![]
    };
    let a = semantic_part + lexical_part;
    let b = a + structured_part;
    let r = b + base_part;
    assert(r == capabilities_for_kinds_spec(kinds, semantic, lexical));
    assert("semantic"@.len() == 8);
    assert("lexical"@.len() == 7);
    assert("structured"@.len() == 10);
    assert("base-search"@.len() == 11);
    if j < b.len() {
        assert(r[j] == b[j]);
        if j < a.len() {
            assert(b[j] == a[j]);
            if j < semantic_part.len() {
                assert(a[j] == semantic_part[j]);
            } else {
                assert(a[j] == lexical_part[j - semantic_part.len()]);
            }
        } else {
            assert(b[j] == structured_part[j - a.len()]);
        }
    } else {
        assert(r[j] == base_part[j - b.len()]);
    }
}

/// A published manifest never advertises what no artifact backs: it lists
/// "lexical" only if some named lexical V1 artifact has a registered
/// lexical object, and "semantic" only if some named semantic V1 artifact
/// has vector memberships, whether the capabilities were requested or
/// derived. Requested capabilities are kept as asked, except that
/// unbacked "semantic" and "lexical" are dropped; nothing else is added.
pub proof fn law_published_capabilities_are_backed(
    rows: Seq<(ArtifactId, Option<ArtifactRow>)>,
    requested: Seq<Seq<char>>,
)
    ensures
        published_capabilities(rows, requested).contains("lexical"@) ==> exists|i: int|
            0 <= i < rows.len() && ((#[trigger] rows[i]).1 matches Some(row) && row.kind@
                == "lexical"@ && row.version == 1 && row.has_lexical_record),
        published_capabilities(rows, requested).contains("semantic"@) ==> exists|i: int|
            0 <= i < rows.len() && ((#[trigger] rows[i]).1 matches Some(row) && row.kind@
                == "semantic"@ && row.version == 1 && row.has_vector_membership),
        requested.len() > 0 ==> forall|c: Seq<char>|
            #[trigger] published_capabilities(rows, requested).contains(c) ==> requested.contains(c),
        requested.len() > 0 ==> forall|c: Seq<char>|
            requested.contains(c) && c != "semantic"@ && c != "lexical"@ ==> #[trigger] published_capabilities(
                rows,
                requested,
            ).contains(c),
{
    reveal_strlit("semantic");
    reveal_strlit("lexical");
    reveal_strlit("structured");
    reveal_strlit("base-search");
    let published = published_capabilities(rows, requested);
    let semantic = has_compatible_semantic(rows);
    let lexical = has_compatible_lexical(rows);
    if requested.len() > 0 {
        lemma_keep_capabilities(requested, semantic, lexical, "lexical"@);
        lemma_keep_capabilities(requested, semantic, lexical, "semantic"@);
        assert forall|c: Seq<char>| #[trigger] published.contains(c) implies requested.contains(c) by {
            lemma_keep_capabilities(requested, semantic, lexical, c);
        }
        assert forall|c: Seq<char>|
            requested.contains(c) && c != "semantic"@ && c != "lexical"@ implies #[trigger] published.contains(
                c,
            ) by {
            lemma_keep_capabilities(requested, semantic, lexical, c);
        }
    } else {
        let kinds = row_kinds(rows);
        if published.contains("lexical"@) {
            let i = choose|i: int| 0 <= i < published.len() && published[i] == "lexical"@;
            lemma_derived_capabilities_flags(kinds, semantic, lexical, i);
        }
        if published.contains("semantic"@) {
            let i = choose|i: int| 0 <= i < published.len() && published[i] == "semantic"@;
            lemma_derived_capabilities_flags(kinds, semantic, lexical, i);
        }
    }
    if published.contains("lexical"@) {
        assert(lexical);
        lemma_compatible_lexical_has_object(rows);
    }
    if published.contains("semantic"@) {
        assert(semantic);
        let i = choose|i: int| 0 <= i < rows.len() && #[trigger] semantic_with_vectors(rows[i]);
        assert(semantic_with_vectors(rows[i]));
    }
}

} // verus!
