use vstd::prelude::*;
use vstd::std_specs::cmp::PartialEqSpecImpl;

use crate::digest::{sha256, sha256_spec};
use crate::encode::{be_u32, framed, push_be_u32, put_framed, extend_bytes};
use vstd::utf8::encode_utf8;

verus! {

/// A Derived projection whose artifacts can be rebuilt from Authority.
#[derive(Clone, Copy, Debug, PartialEq, Eq, Hash, PartialOrd, Ord, Structural)]
pub enum ProjectionKind {
    Ir,
    Structure,
    Temporal,
    Relations,
    EntityObservations,
    ExplicitTags,
    Lexical,
    LocalEmbedding,
    ContextEmbedding,
    GeneratedTags,
    TagGraph,
    RerankView,
}

/// The number of projection kinds.
pub const PROJECTION_KIND_COUNT: usize = 12;

/// The position of a kind in declaration order.
pub open spec fn kind_index(kind: ProjectionKind) -> int {
    match kind {
        ProjectionKind::Ir => 0,
        ProjectionKind::Structure => 1,
        ProjectionKind::Temporal => 2,
        ProjectionKind::Relations => 3,
        ProjectionKind::EntityObservations => 4,
        ProjectionKind::ExplicitTags => 5,
        ProjectionKind::Lexical => 6,
        ProjectionKind::LocalEmbedding => 7,
        ProjectionKind::ContextEmbedding => 8,
        ProjectionKind::GeneratedTags => 9,
        ProjectionKind::TagGraph => 10,
        ProjectionKind::RerankView => 11,
    }
}

/// The kind at a position in declaration order.
pub open spec fn kind_at(index: int) -> ProjectionKind {
    if index <= 0 {
        ProjectionKind::Ir
    } else if index == 1 {
        ProjectionKind::Structure
    } else if index == 2 {
        ProjectionKind::Temporal
    } else if index == 3 {
        ProjectionKind::Relations
    } else if index == 4 {
        ProjectionKind::EntityObservations
    } else if index == 5 {
        ProjectionKind::ExplicitTags
    } else if index == 6 {
        ProjectionKind::Lexical
    } else if index == 7 {
        ProjectionKind::LocalEmbedding
    } else if index == 8 {
        ProjectionKind::ContextEmbedding
    } else if index == 9 {
        ProjectionKind::GeneratedTags
    } else if index == 10 {
        ProjectionKind::TagGraph
    } else {
        ProjectionKind::RerankView
    }
}

pub proof fn lemma_kind_index(kind: ProjectionKind)
    ensures
        0 <= kind_index(kind) < 12,
        kind_at(kind_index(kind)) == kind,
{
}

/// The stable name of a projection kind.
pub open spec fn kind_name(kind: ProjectionKind) -> Seq<char> {
    match kind {
        ProjectionKind::Ir => "ir"@,
        ProjectionKind::Structure => "structural"@,
        ProjectionKind::Temporal => "temporal"@,
        ProjectionKind::Relations => "relations"@,
        ProjectionKind::EntityObservations => "entity-observations"@,
        ProjectionKind::ExplicitTags => "explicit-tags"@,
        ProjectionKind::Lexical => "lexical"@,
        ProjectionKind::LocalEmbedding => "local-embedding"@,
        ProjectionKind::ContextEmbedding => "context-embedding"@,
        ProjectionKind::GeneratedTags => "generated-tags"@,
        ProjectionKind::TagGraph => "tag-graph"@,
        ProjectionKind::RerankView => "rerank-view"@,
    }
}

/// The direct dependencies of a projection kind, in declaration order.
pub open spec fn kind_dependencies(kind: ProjectionKind) -> Seq<ProjectionKind> {
    match kind {
        ProjectionKind::Ir => seq![],
        ProjectionKind::Structure => seq![ProjectionKind::Ir],
        ProjectionKind::Temporal => seq![ProjectionKind::Ir],
        ProjectionKind::Relations => seq![ProjectionKind::Ir],
        ProjectionKind::Lexical => seq![ProjectionKind::Ir],
        ProjectionKind::EntityObservations => seq![ProjectionKind::Ir, ProjectionKind::Structure],
        ProjectionKind::ExplicitTags => seq![ProjectionKind::Ir, ProjectionKind::Structure],
        ProjectionKind::LocalEmbedding => seq![ProjectionKind::Ir],
        ProjectionKind::ContextEmbedding => seq![ProjectionKind::Ir, ProjectionKind::Structure],
        ProjectionKind::GeneratedTags => seq![
            ProjectionKind::LocalEmbedding,
            ProjectionKind::ContextEmbedding,
        ],
        ProjectionKind::TagGraph => seq![ProjectionKind::ExplicitTags, ProjectionKind::GeneratedTags],
        ProjectionKind::RerankView => seq![
            ProjectionKind::Structure,
            ProjectionKind::Temporal,
            ProjectionKind::Relations,
            ProjectionKind::EntityObservations,
            ProjectionKind::ExplicitTags,
            ProjectionKind::Lexical,
            ProjectionKind::LocalEmbedding,
            ProjectionKind::ContextEmbedding,
            ProjectionKind::GeneratedTags,
            ProjectionKind::TagGraph,
        ],
    }
}

/// `dependent` lists `root` among its direct dependencies.
pub open spec fn depends_on(dependent: ProjectionKind, root: ProjectionKind) -> bool {
    kind_dependencies(dependent).contains(root)
}

/// The depth of a kind in the dependency graph: every dependency has a
/// strictly smaller depth than the kind that depends on it.
pub open spec fn kind_depth(kind: ProjectionKind) -> int {
    match kind {
        ProjectionKind::Ir => 0,
        ProjectionKind::Structure => 1,
        ProjectionKind::Temporal => 1,
        ProjectionKind::Relations => 1,
        ProjectionKind::Lexical => 1,
        ProjectionKind::LocalEmbedding => 1,
        ProjectionKind::EntityObservations => 2,
        ProjectionKind::ExplicitTags => 2,
        ProjectionKind::ContextEmbedding => 2,
        ProjectionKind::GeneratedTags => 3,
        ProjectionKind::TagGraph => 4,
        ProjectionKind::RerankView => 5,
    }
}

/// The dependency graph is acyclic: a dependency is strictly shallower.
pub proof fn lemma_dependency_depth(dependent: ProjectionKind, root: ProjectionKind)
    requires
        depends_on(dependent, root),
    ensures
        kind_depth(root) < kind_depth(dependent),
{
    let deps = kind_dependencies(dependent);
    let i = choose|i: int| 0 <= i < deps.len() && deps[i] == root;
    assert(deps[i] == root);
}

/// `target` is `root` or transitively depends on it.
pub open spec fn reaches(root: ProjectionKind, target: ProjectionKind) -> bool
    decreases 5 - kind_depth(root), 13int,
{
    target == root || reaches_via(root, target, 0)
}

/// `target` transitively depends on `root` through a direct dependent of
/// `root` at position `index` or later.
pub open spec fn reaches_via(root: ProjectionKind, target: ProjectionKind, index: int) -> bool
    decreases 5 - kind_depth(root), 12 - index,
{
    if index < 0 || index >= 12 {
        false
    } else if depends_on(kind_at(index), root) {
        proof {
            lemma_dependency_depth(kind_at(index), root);
        }
        reaches(kind_at(index), target) || reaches_via(root, target, index + 1)
    } else {
        reaches_via(root, target, index + 1)
    }
}

proof fn lemma_reaches_via(root: ProjectionKind, target: ProjectionKind, index: int)
    requires
        0 <= index <= 12,
    ensures
        reaches_via(root, target, index) <==> exists|j: int|
            index <= j < 12 && depends_on(kind_at(j), root) && #[trigger] reaches(kind_at(j), target),
    decreases 12 - index,
{
    if index < 12 {
        lemma_reaches_via(root, target, index + 1);
        if depends_on(kind_at(index), root) && reaches(kind_at(index), target) {
            assert(index <= index < 12 && depends_on(kind_at(index), root) && reaches(
                kind_at(index),
                target,
            ));
        }
        if reaches_via(root, target, index + 1) {
            let j = choose|j: int|
                index + 1 <= j < 12 && depends_on(kind_at(j), root) && #[trigger] reaches(
                    kind_at(j),
                    target,
                );
            assert(index <= j < 12 && depends_on(kind_at(j), root) && reaches(kind_at(j), target));
        }
        if exists|j: int|
            index <= j < 12 && depends_on(kind_at(j), root) && #[trigger] reaches(kind_at(j), target) {
            let j = choose|j: int|
                index <= j < 12 && depends_on(kind_at(j), root) && #[trigger] reaches(
                    kind_at(j),
                    target,
                );
            if j > index {
                assert(index + 1 <= j < 12 && depends_on(kind_at(j), root) && reaches(kind_at(j), target));
            }
        }
    }
}

/// Everything that has to be rebuilt when `root` changes.
pub open spec fn dependents_closure(root: ProjectionKind) -> Set<ProjectionKind> {
    Set::new(|target: ProjectionKind| reaches(root, target))
}

/// One step along a dependency edge extends reachability.
pub proof fn lemma_reaches_step(root: ProjectionKind, j: int, target: ProjectionKind)
    requires
        0 <= j < 12,
        depends_on(kind_at(j), root),
        reaches(kind_at(j), target),
    ensures
        reaches(root, target),
{
    lemma_reaches_via(root, target, 0);
}

/// A kind other than `root` reachable from `root` is reachable from one of
/// its direct dependents.
pub proof fn lemma_reaches_unfold(root: ProjectionKind, target: ProjectionKind)
    requires
        reaches(root, target),
        target != root,
    ensures
        exists|j: int|
            0 <= j < 12 && depends_on(kind_at(j), root) && #[trigger] reaches(kind_at(j), target),
{
    lemma_reaches_via(root, target, 0);
}

/// Reachability only goes deeper.
pub proof fn lemma_reaches_depth(root: ProjectionKind, target: ProjectionKind)
    requires
        reaches(root, target),
    ensures
        kind_depth(target) >= kind_depth(root),
    decreases 5 - kind_depth(root),
{
    if target != root {
        lemma_reaches_unfold(root, target);
        let j = choose|j: int|
            0 <= j < 12 && depends_on(kind_at(j), root) && #[trigger] reaches(kind_at(j), target);
        lemma_dependency_depth(kind_at(j), root);
        lemma_reaches_depth(kind_at(j), target);
    }
}

/// Reachability extends along one more dependency edge.
pub proof fn lemma_reaches_extend(root: ProjectionKind, target: ProjectionKind, j: int)
    requires
        reaches(root, target),
        0 <= j < 12,
        depends_on(kind_at(j), target),
    ensures
        reaches(root, kind_at(j)),
    decreases 5 - kind_depth(root),
{
    if target == root {
        lemma_reaches_step(root, j, kind_at(j));
    } else {
        lemma_reaches_unfold(root, target);
        let k = choose|k: int|
            0 <= k < 12 && depends_on(kind_at(k), root) && #[trigger] reaches(kind_at(k), target);
        lemma_dependency_depth(kind_at(k), root);
        lemma_reaches_extend(kind_at(k), target, j);
        lemma_reaches_step(root, k, kind_at(j));
    }
}

impl ProjectionKind {
    pub fn as_str(self) -> (name: &'static str)
        ensures
            name@ == kind_name(self),
    {
        match self {
            ProjectionKind::Ir => "ir",
            ProjectionKind::Structure => "structural",
            ProjectionKind::Temporal => "temporal",
            ProjectionKind::Relations => "relations",
            ProjectionKind::EntityObservations => "entity-observations",
            ProjectionKind::ExplicitTags => "explicit-tags",
            ProjectionKind::Lexical => "lexical",
            ProjectionKind::LocalEmbedding => "local-embedding",
            ProjectionKind::ContextEmbedding => "context-embedding",
            ProjectionKind::GeneratedTags => "generated-tags",
            ProjectionKind::TagGraph => "tag-graph",
            ProjectionKind::RerankView => "rerank-view",
        }
    }

    pub fn version(self) -> (version: u32)
        ensures
            version == 1,
    {
        1
    }

    pub fn dependencies(self) -> (dependencies: &'static [ProjectionKind])
        ensures
            dependencies@ == kind_dependencies(self),
    {
        match self {
            ProjectionKind::Ir => &[],
            ProjectionKind::Structure => &[ProjectionKind::Ir],
            ProjectionKind::Temporal => &[ProjectionKind::Ir],
            ProjectionKind::Relations => &[ProjectionKind::Ir],
            ProjectionKind::Lexical => &[ProjectionKind::Ir],
            ProjectionKind::EntityObservations => &[ProjectionKind::Ir, ProjectionKind::Structure],
            ProjectionKind::ExplicitTags => &[ProjectionKind::Ir, ProjectionKind::Structure],
            ProjectionKind::LocalEmbedding => &[ProjectionKind::Ir],
            ProjectionKind::ContextEmbedding => &[ProjectionKind::Ir, ProjectionKind::Structure],
            ProjectionKind::GeneratedTags => &[
                ProjectionKind::LocalEmbedding,
                ProjectionKind::ContextEmbedding,
            ],
            ProjectionKind::TagGraph => &[ProjectionKind::ExplicitTags, ProjectionKind::GeneratedTags],
            ProjectionKind::RerankView => &[
                ProjectionKind::Structure,
                ProjectionKind::Temporal,
                ProjectionKind::Relations,
                ProjectionKind::EntityObservations,
                ProjectionKind::ExplicitTags,
                ProjectionKind::Lexical,
                ProjectionKind::LocalEmbedding,
                ProjectionKind::ContextEmbedding,
                ProjectionKind::GeneratedTags,
                ProjectionKind::TagGraph,
            ],
        }
    }

    /// The kind at a position in declaration order.
    pub fn at(index: usize) -> (kind: ProjectionKind)
        requires
            index < 12,
        ensures
            kind == kind_at(index as int),
            kind_index(kind) == index,
    {
        match index {
            0 => ProjectionKind::Ir,
            1 => ProjectionKind::Structure,
            2 => ProjectionKind::Temporal,
            3 => ProjectionKind::Relations,
            4 => ProjectionKind::EntityObservations,
            5 => ProjectionKind::ExplicitTags,
            6 => ProjectionKind::Lexical,
            7 => ProjectionKind::LocalEmbedding,
            8 => ProjectionKind::ContextEmbedding,
            9 => ProjectionKind::GeneratedTags,
            10 => ProjectionKind::TagGraph,
            _ => ProjectionKind::RerankView,
        }
    }

    fn index(self) -> (index: usize)
        ensures
            index == kind_index(self),
    {
        match self {
            ProjectionKind::Ir => 0,
            ProjectionKind::Structure => 1,
            ProjectionKind::Temporal => 2,
            ProjectionKind::Relations => 3,
            ProjectionKind::EntityObservations => 4,
            ProjectionKind::ExplicitTags => 5,
            ProjectionKind::Lexical => 6,
            ProjectionKind::LocalEmbedding => 7,
            ProjectionKind::ContextEmbedding => 8,
            ProjectionKind::GeneratedTags => 9,
            ProjectionKind::TagGraph => 10,
            ProjectionKind::RerankView => 11,
        }
    }
}


/// The content hash of one projection's canonical input.
#[derive(Clone, Copy, Debug, Hash, PartialOrd, Ord)]
pub struct ProjectionInputHash([u8; 32]);

impl View for ProjectionInputHash {
    type V = Seq<u8>;

    closed spec fn view(&self) -> Seq<u8> {
        self.0@
    }
}

impl PartialEq for ProjectionInputHash {
    fn eq(&self, other: &Self) -> (equal: bool) {
        crate::ids::bytes_equal(self.0.as_slice(), other.0.as_slice())
    }
}

impl Eq for ProjectionInputHash {}

impl PartialEqSpecImpl for ProjectionInputHash {
    open spec fn obeys_eq_spec() -> bool {
        true
    }

    open spec fn eq_spec(&self, other: &Self) -> bool {
        self@ == other@
    }
}

impl ProjectionInputHash {
    pub fn from_bytes(bytes: [u8; 32]) -> (id: Self)
        ensures
            id@ == bytes@,
    {
        ProjectionInputHash(bytes)
    }

    pub fn as_bytes(&self) -> (bytes: &[u8; 32])
        ensures
            bytes@ == self@,
    {
        &self.0
    }

    pub fn into_bytes(self) -> (bytes: [u8; 32])
        ensures
            bytes@ == self@,
    {
        self.0
    }

    pub proof fn lemma_len(&self)
        ensures
            self@.len() == 32,
    {
    }
}


/// The bytes that a projection input hash digests.
pub open spec fn projection_input_preimage(
    kind: ProjectionKind,
    canonical_projection_bytes: Seq<u8>,
    producer_signature: Seq<u8>,
) -> Seq<u8> {
    encode_utf8("memoria-projection-input-v1\0"@) + framed(encode_utf8(kind_name(kind))) + be_u32(1)
        + framed(producer_signature) + framed(canonical_projection_bytes)
}

/// The projection input hash of a kind, canonical bytes and producer signature.
pub open spec fn projection_input_hash_spec(
    kind: ProjectionKind,
    canonical_projection_bytes: Seq<u8>,
    producer_signature: Seq<char>,
) -> Seq<u8> {
    sha256_spec(
        projection_input_preimage(kind, canonical_projection_bytes, encode_utf8(producer_signature)),
    )
}

impl ProjectionInputHash {
    pub fn new(kind: ProjectionKind, canonical_projection_bytes: &[u8], producer_signature: &str) -> (hash: Self)
        ensures
            hash@ == projection_input_hash_spec(kind, canonical_projection_bytes@, producer_signature@),
    {
        let mut preimage: Vec<u8> = Vec::new();
        let domain: &str = "memoria-projection-input-v1\0";
        extend_bytes(&mut preimage, domain.as_bytes());
        put_framed(&mut preimage, kind.as_str().as_bytes());
        push_be_u32(&mut preimage, kind.version());
        put_framed(&mut preimage, producer_signature.as_bytes());
        put_framed(&mut preimage, canonical_projection_bytes);
        assert(preimage@ =~= projection_input_preimage(
            kind,
            canonical_projection_bytes@,
            encode_utf8(producer_signature@),
        ));
        ProjectionInputHash(sha256(preimage.as_slice()))
    }
}

/// The category of a semantic change between two revisions of a Memory.
#[derive(Clone, Copy, Debug, PartialEq, Eq, Hash, PartialOrd, Ord, Structural)]
pub enum InvalidationCategory {
    VisibleText,
    Hierarchy,
    EntityBinding,
    EntitySurface,
    ExplicitTag,
    Temporal,
    Relation,
    MemoryRef,
    SourceMetadata,
    Extension,
    SemanticNodeLifecycle,
}

/// The categorized semantic changes between two revisions of a Memory.
#[derive(Clone, Debug)]
pub struct SemanticDiff {
    changes: Vec<InvalidationCategory>,
}

impl View for SemanticDiff {
    type V = Seq<InvalidationCategory>;

    closed spec fn view(&self) -> Seq<InvalidationCategory> {
        self.changes@
    }
}

impl SemanticDiff {
    /// A diff made of the given categorized changes.
    pub fn new(changes: Vec<InvalidationCategory>) -> (diff: Self)
        ensures
            diff@ == changes@,
    {
        SemanticDiff { changes }
    }

    pub fn is_empty(&self) -> (empty: bool)
        ensures
            empty == (self@.len() == 0),
    {
        self.changes.len() == 0
    }

    pub fn has_category(&self, category: InvalidationCategory) -> (found: bool)
        ensures
            found == self@.contains(category),
    {
        let mut i: usize = 0;
        while i < self.changes.len()
            invariant
                i <= self.changes@.len(),
                forall|j: int| 0 <= j < i ==> self.changes@[j] != category,
            decreases self.changes@.len() - i,
        {
            if self.changes[i] == category {
                return true;
            }
            i = i + 1;
        }
        false
    }
}

/// The category at a position of the fixed category order.
pub open spec fn category_at(index: int) -> InvalidationCategory {
    if index <= 0 {
        InvalidationCategory::VisibleText
    } else if index == 1 {
        InvalidationCategory::Hierarchy
    } else if index == 2 {
        InvalidationCategory::EntityBinding
    } else if index == 3 {
        InvalidationCategory::EntitySurface
    } else if index == 4 {
        InvalidationCategory::ExplicitTag
    } else if index == 5 {
        InvalidationCategory::Temporal
    } else if index == 6 {
        InvalidationCategory::Relation
    } else if index == 7 {
        InvalidationCategory::MemoryRef
    } else if index == 8 {
        InvalidationCategory::SourceMetadata
    } else if index == 9 {
        InvalidationCategory::Extension
    } else {
        InvalidationCategory::SemanticNodeLifecycle
    }
}

fn category_at_exec(index: usize) -> (category: InvalidationCategory)
    requires
        index < 11,
    ensures
        category == category_at(index as int),
{
    match index {
        0 => InvalidationCategory::VisibleText,
        1 => InvalidationCategory::Hierarchy,
        2 => InvalidationCategory::EntityBinding,
        3 => InvalidationCategory::EntitySurface,
        4 => InvalidationCategory::ExplicitTag,
        5 => InvalidationCategory::Temporal,
        6 => InvalidationCategory::Relation,
        7 => InvalidationCategory::MemoryRef,
        8 => InvalidationCategory::SourceMetadata,
        9 => InvalidationCategory::Extension,
        _ => InvalidationCategory::SemanticNodeLifecycle,
    }
}

/// The projections that a change of a category touches directly.
pub open spec fn category_roots(category: InvalidationCategory) -> Seq<ProjectionKind> {
    match category {
        InvalidationCategory::VisibleText => seq![
            ProjectionKind::Lexical,
            ProjectionKind::LocalEmbedding,
            ProjectionKind::ContextEmbedding,
        ],
        InvalidationCategory::Hierarchy => seq![ProjectionKind::Structure],
        InvalidationCategory::EntityBinding => seq![
            ProjectionKind::Structure,
            ProjectionKind::EntityObservations,
            ProjectionKind::ContextEmbedding,
        ],
        InvalidationCategory::EntitySurface => seq![
            ProjectionKind::EntityObservations,
            ProjectionKind::Lexical,
            ProjectionKind::LocalEmbedding,
            ProjectionKind::ContextEmbedding,
        ],
        InvalidationCategory::ExplicitTag => seq![ProjectionKind::ExplicitTags],
        InvalidationCategory::Temporal => seq![ProjectionKind::Temporal],
        InvalidationCategory::Relation => seq![ProjectionKind::Relations],
        InvalidationCategory::MemoryRef => seq![ProjectionKind::Structure],
        InvalidationCategory::SourceMetadata => seq![ProjectionKind::Structure],
        InvalidationCategory::Extension => seq![ProjectionKind::Structure],
        InvalidationCategory::SemanticNodeLifecycle => seq![ProjectionKind::Structure],
    }
}

fn category_roots_exec(category: InvalidationCategory) -> (roots: &'static [ProjectionKind])
    ensures
        roots@ == category_roots(category),
{
    match category {
        InvalidationCategory::VisibleText => &[
            ProjectionKind::Lexical,
            ProjectionKind::LocalEmbedding,
            ProjectionKind::ContextEmbedding,
        ],
        InvalidationCategory::Hierarchy => &[ProjectionKind::Structure],
        InvalidationCategory::EntityBinding => &[
            ProjectionKind::Structure,
            ProjectionKind::EntityObservations,
            ProjectionKind::ContextEmbedding,
        ],
        InvalidationCategory::EntitySurface => &[
            ProjectionKind::EntityObservations,
            ProjectionKind::Lexical,
            ProjectionKind::LocalEmbedding,
            ProjectionKind::ContextEmbedding,
        ],
        InvalidationCategory::ExplicitTag => &[ProjectionKind::ExplicitTags],
        InvalidationCategory::Temporal => &[ProjectionKind::Temporal],
        InvalidationCategory::Relation => &[ProjectionKind::Relations],
        InvalidationCategory::MemoryRef => &[ProjectionKind::Structure],
        InvalidationCategory::SourceMetadata => &[ProjectionKind::Structure],
        InvalidationCategory::Extension => &[ProjectionKind::Structure],
        InvalidationCategory::SemanticNodeLifecycle => &[ProjectionKind::Structure],
    }
}

/// Everything that a change of `category` invalidates beyond the IR itself.
pub open spec fn category_closure(category: InvalidationCategory) -> Set<ProjectionKind> {
    Set::new(
        |target: ProjectionKind|
            exists|i: int|
                0 <= i < category_roots(category).len() && #[trigger] reaches(
                    category_roots(category)[i],
                    target,
                ),
    )
}

/// The projections a diff invalidates: nothing for an empty diff; otherwise
/// the IR and every transitive dependent of the roots of each category present.
pub open spec fn plan_for(diff: Seq<InvalidationCategory>) -> Set<ProjectionKind> {
    if diff.len() == 0 {
        Set::empty()
    } else {
        Set::new(
            |target: ProjectionKind|
                target == ProjectionKind::Ir || exists|c: InvalidationCategory|
                    diff.contains(c) && #[trigger] category_closure(c).contains(target),
        )
    }
}

/// Every member of `set` at `depth` or deeper, but the IR, has all its
/// transitive dependents in `set` too.
pub open spec fn settled_from(set: Set<ProjectionKind>, depth: int) -> bool {
    forall|kind: ProjectionKind|
        #![trigger set.contains(kind)]
        set.contains(kind) && kind != ProjectionKind::Ir && kind_depth(kind) >= depth
            ==> dependents_closure(kind).subset_of(set)
}

/// The kinds of `set` among the first `count` kinds, in declaration order.
pub open spec fn kinds_in_order(set: Set<ProjectionKind>, count: nat) -> Seq<ProjectionKind>
    decreases count,
{
    if count == 0 {
        seq![]
    } else {
        let prefix = kinds_in_order(set, (count - 1) as nat);
        if set.contains(kind_at(count - 1)) {
            prefix.push(kind_at(count - 1))
        } else {
            prefix
        }
    }
}

/// The set of projections to rebuild after a semantic change.
#[derive(Clone, Debug)]
pub struct InvalidationPlan {
    rebuilds: [bool; 12],
}

impl View for InvalidationPlan {
    type V = Set<ProjectionKind>;

    closed spec fn view(&self) -> Set<ProjectionKind> {
        Set::new(|kind: ProjectionKind| self.rebuilds@[kind_index(kind)])
    }
}

impl PartialEq for InvalidationPlan {
    fn eq(&self, other: &Self) -> (equal: bool) {
        let mut i: usize = 0;
        while i < 12
            invariant
                i <= 12,
                forall|j: int| 0 <= j < i ==> self.rebuilds@[j] == other.rebuilds@[j],
            decreases 12 - i,
        {
            if self.rebuilds[i] != other.rebuilds[i] {
                assert(!self@.contains(kind_at(i as int)) || !other@.contains(kind_at(i as int)));
                assert(self@.contains(kind_at(i as int)) != other@.contains(kind_at(i as int)));
                return false;
            }
            i = i + 1;
        }
        assert(self@ =~= other@) by {
            assert forall|k: ProjectionKind| self@.contains(k) == other@.contains(k) by {
                lemma_kind_index(k);
            }
        }
        true
    }
}

impl Eq for InvalidationPlan {}

impl PartialEqSpecImpl for InvalidationPlan {
    open spec fn obeys_eq_spec() -> bool {
        true
    }

    open spec fn eq_spec(&self, other: &Self) -> bool {
        self@ == other@
    }
}

impl Default for InvalidationPlan {
    fn default() -> (plan: Self)
        ensures
            plan@ == Set::<ProjectionKind>::empty(),
    {
        let plan = InvalidationPlan { rebuilds: [false; 12] };
        assert(plan@ =~= Set::<ProjectionKind>::empty());
        plan
    }
}

/// `kinds` lists `kind`.
fn kinds_contain(kinds: &[ProjectionKind], kind: ProjectionKind) -> (found: bool)
    ensures
        found == kinds@.contains(kind),
{
    let mut i: usize = 0;
    while i < kinds.len()
        invariant
            i <= kinds@.len(),
            forall|j: int| 0 <= j < i ==> kinds@[j] != kind,
        decreases kinds@.len() - i,
    {
        if kinds[i] == kind {
            return true;
        }
        i = i + 1;
    }
    false
}

impl InvalidationPlan {
    pub fn from_diff(diff: &SemanticDiff) -> (plan: Self)
        ensures
            plan@ == plan_for(diff@),
    {
        let mut plan = InvalidationPlan::default();
        if diff.is_empty() {
            assert(plan@ =~= plan_for(diff@));
            return plan;
        }
        plan = InvalidationPlan {
            rebuilds: [true, false, false, false, false, false, false, false, false, false, false, false],
        };
        assert(plan@ =~= set![ProjectionKind::Ir]) by {
            assert forall|k: ProjectionKind| plan@.contains(k) == (k == ProjectionKind::Ir) by {
                lemma_kind_index(k);
            }
        }
        let mut i: usize = 0;
        while i < 11
            invariant
                i <= 11,
                diff@.len() > 0,
                settled_from(plan@, 0),
                plan@ == Set::new(
                    |target: ProjectionKind|
                        target == ProjectionKind::Ir || exists|j: int|
                            0 <= j < i && diff@.contains(category_at(j))
                                && #[trigger] category_closure(category_at(j)).contains(target),
                ),
            decreases 11 - i,
        {
            let category = category_at_exec(i);
            let ghost before = plan@;
            if diff.has_category(category) {
                plan.add_category(category);
            }
            assert(plan@ =~= Set::new(
                |target: ProjectionKind|
                    target == ProjectionKind::Ir || exists|j: int|
                        0 <= j < i + 1 && diff@.contains(category_at(j))
                            && #[trigger] category_closure(category_at(j)).contains(target),
            )) by {
                assert forall|target: ProjectionKind| #[trigger]
                    plan@.contains(target) == (target == ProjectionKind::Ir || exists|j: int|
                        0 <= j < i + 1 && diff@.contains(category_at(j))
                            && #[trigger] category_closure(category_at(j)).contains(target)) by {
                    if exists|j: int|
                        0 <= j < i + 1 && diff@.contains(category_at(j))
                            && #[trigger] category_closure(category_at(j)).contains(target) {
                        let j = choose|j: int|
                            0 <= j < i + 1 && diff@.contains(category_at(j))
                                && #[trigger] category_closure(category_at(j)).contains(target);
                        if j < i {
                            assert(before.contains(target));
                        }
                    }
                }
            }
            i = i + 1;
        }
        assert(plan@ =~= plan_for(diff@)) by {
            assert forall|target: ProjectionKind| #[trigger]
                plan@.contains(target) == plan_for(diff@).contains(target) by {
                if exists|c: InvalidationCategory|
                    diff@.contains(c) && #[trigger] category_closure(c).contains(target) {
                    let c = choose|c: InvalidationCategory|
                        diff@.contains(c) && #[trigger] category_closure(c).contains(target);
                    let j = category_index(c);
                    assert(category_at(j) == c);
                }
            }
        }
        plan
    }

    pub fn rebuilds(&self, kind: ProjectionKind) -> (rebuilt: bool)
        ensures
            rebuilt == self@.contains(kind),
    {
        self.rebuilds[kind.index()]
    }

    /// The projections to rebuild, in declaration order.
    pub fn projections(&self) -> (kinds: Vec<ProjectionKind>)
        ensures
            kinds@ == kinds_in_order(self@, 12),
    {
        let mut kinds: Vec<ProjectionKind> = Vec::new();
        let mut i: usize = 0;
        while i < 12
            invariant
                i <= 12,
                kinds@ == kinds_in_order(self@, i as nat),
            decreases 12 - i,
        {
            let kind = ProjectionKind::at(i);
            if self.rebuilds[i] {
                kinds.push(kind);
            }
            i = i + 1;
        }
        kinds
    }

    pub fn input_hash(
        &self,
        kind: ProjectionKind,
        canonical_projection_bytes: &[u8],
        producer_signature: &str,
    ) -> (hash: ProjectionInputHash)
        ensures
            hash@ == projection_input_hash_spec(kind, canonical_projection_bytes@, producer_signature@),
    {
        ProjectionInputHash::new(kind, canonical_projection_bytes, producer_signature)
    }

    fn add_category(&mut self, category: InvalidationCategory)
        requires
            settled_from(old(self)@, 0),
        ensures
            final(self)@ == old(self)@.union(category_closure(category)),
            settled_from(final(self)@, 0),
    {
        let roots = category_roots_exec(category);
        let ghost start = self@;
        let mut i: usize = 0;
        while i < roots.len()
            invariant
                i <= roots@.len(),
                roots@ == category_roots(category),
                settled_from(self@, 0),
                self@ == start.union(
                    Set::new(
                        |target: ProjectionKind|
                            exists|j: int| 0 <= j < i && #[trigger] reaches(roots@[j], target),
                    ),
                ),
            decreases roots@.len() - i,
        {
            let ghost before = self@;
            assert(roots@[i as int] != ProjectionKind::Ir);
            self.add_with_dependents(roots[i]);
            assert(self@ =~= start.union(
                Set::new(
                    |target: ProjectionKind|
                        exists|j: int| 0 <= j < i + 1 && #[trigger] reaches(roots@[j], target),
                ),
            )) by {
                assert forall|target: ProjectionKind|
                    self@.contains(target) == start.union(
                        Set::new(
                            |target: ProjectionKind|
                                exists|j: int| 0 <= j < i + 1 && #[trigger] reaches(roots@[j], target),
                        ),
                    ).contains(target) by {
                    if exists|j: int| 0 <= j < i + 1 && #[trigger] reaches(roots@[j], target) {
                        let j = choose|j: int| 0 <= j < i + 1 && #[trigger] reaches(roots@[j], target);
                        if j < i {
                            assert(before.contains(target));
                        } else {
                            assert(dependents_closure(roots@[j]).contains(target));
                        }
                    }
                    if reaches(roots@[i as int], target) {
                        assert(dependents_closure(roots@[i as int]).contains(target));
                    }
                }
            }
            proof {
                assert forall|kind: ProjectionKind|
                    #![trigger self@.contains(kind)]
                    self@.contains(kind) && kind != ProjectionKind::Ir && kind_depth(kind) >= 0
                        implies dependents_closure(kind).subset_of(self@) by {
                    if before.contains(kind) {
                        assert(dependents_closure(kind).subset_of(before));
                    } else {
                        assert(reaches(roots@[i as int], kind));
                        lemma_reaches_depth(roots@[i as int], kind);
                    }
                }
            }
            i = i + 1;
        }
        assert(self@ =~= start.union(category_closure(category)));
    }

    fn add_with_dependents(&mut self, root: ProjectionKind)
        requires
            root != ProjectionKind::Ir,
            settled_from(old(self)@, kind_depth(root)),
        ensures
            final(self)@ == old(self)@.union(dependents_closure(root)),
            settled_from(final(self)@, kind_depth(root)),
        decreases 5 - kind_depth(root),
    {
        let ghost start = self@;
        let root_index = root.index();
        if self.rebuilds[root_index] {
            assert(start.contains(root));
            assert(self@ =~= start.union(dependents_closure(root)));
            return;
        }
        self.rebuilds[root_index] = true;
        assert(self@ =~= start.insert(root)) by {
            assert forall|k: ProjectionKind| self@.contains(k) == start.insert(root).contains(k) by {
                lemma_kind_index(k);
                lemma_kind_index(root);
                if k != root {
                    assert(kind_index(k) != kind_index(root));
                }
            }
        }
        let mut i: usize = 0;
        while i < 12
            invariant
                i <= 12,
                root != ProjectionKind::Ir,
                self@ == start.insert(root).union(
                    Set::new(
                        |target: ProjectionKind|
                            exists|j: int|
                                0 <= j < i && depends_on(kind_at(j), root) && #[trigger] reaches(
                                    kind_at(j),
                                    target,
                                ),
                    ),
                ),
                forall|kind: ProjectionKind|
                    #![trigger self@.contains(kind)]
                    self@.contains(kind) && kind != ProjectionKind::Ir && kind != root
                        && kind_depth(kind) >= kind_depth(root) ==> dependents_closure(
                        kind,
                    ).subset_of(self@),
            decreases 12 - i,
        {
            let dependent = ProjectionKind::at(i);
            let ghost before = self@;
            if kinds_contain(dependent.dependencies(), root) {
                proof {
                    lemma_dependency_depth(dependent, root);
                }
                self.add_with_dependents(dependent);
                proof {
                    assert forall|kind: ProjectionKind|
                        #![trigger self@.contains(kind)]
                        self@.contains(kind) && kind != ProjectionKind::Ir && kind != root
                            && kind_depth(kind) >= kind_depth(root) implies dependents_closure(
                            kind,
                        ).subset_of(self@) by {
                        if before.contains(kind) {
                            assert(dependents_closure(kind).subset_of(before));
                        } else {
                            assert(reaches(dependent, kind));
                            lemma_reaches_depth(dependent, kind);
                        }
                    }
                }
            }
            assert(self@ =~= start.insert(root).union(
                Set::new(
                    |target: ProjectionKind|
                        exists|j: int|
                            0 <= j < i + 1 && depends_on(kind_at(j), root) && #[trigger] reaches(
                                kind_at(j),
                                target,
                            ),
                ),
            )) by {
                assert forall|target: ProjectionKind|
                    self@.contains(target) == start.insert(root).union(
                        Set::new(
                            |target: ProjectionKind|
                                exists|j: int|
                                    0 <= j < i + 1 && depends_on(kind_at(j), root)
                                        && #[trigger] reaches(kind_at(j), target),
                        ),
                    ).contains(target) by {
                    if exists|j: int|
                        0 <= j < i + 1 && depends_on(kind_at(j), root) && #[trigger] reaches(
                            kind_at(j),
                            target,
                        ) {
                        let j = choose|j: int|
                            0 <= j < i + 1 && depends_on(kind_at(j), root) && #[trigger] reaches(
                                kind_at(j),
                                target,
                            );
                        if j < i {
                            assert(before.contains(target));
                        } else {
                            assert(dependents_closure(dependent).contains(target));
                        }
                    }
                    if depends_on(dependent, root) && reaches(dependent, target) {
                        assert(dependents_closure(dependent).contains(target));
                    }
                }
            }
            i = i + 1;
        }
        assert(self@ =~= start.union(dependents_closure(root))) by {
            assert forall|target: ProjectionKind|
                self@.contains(target) == start.union(dependents_closure(root)).contains(target) by {
                if reaches(root, target) && target != root {
                    lemma_reaches_unfold(root, target);
                    let j = choose|j: int|
                        0 <= j < 12 && depends_on(kind_at(j), root) && #[trigger] reaches(
                            kind_at(j),
                            target,
                        );
                    assert(self@.contains(target));
                }
                if self@.contains(target) && !start.contains(target) && target != root {
                    let j = choose|j: int|
                        0 <= j < 12 && depends_on(kind_at(j), root) && #[trigger] reaches(
                            kind_at(j),
                            target,
                        );
                    lemma_reaches_step(root, j, target);
                }
            }
        }
        proof {
            assert(dependents_closure(root).subset_of(self@));
        }
    }
}

/// A non-empty change always rebuilds the IR, and every other projection it
/// rebuilds brings along every projection that depends on it.
pub proof fn law_plan_closed_under_dependents(
    diff: Seq<InvalidationCategory>,
    kind: ProjectionKind,
    dependent: ProjectionKind,
)
    requires
        diff.len() > 0,
        plan_for(diff).contains(kind),
        kind != ProjectionKind::Ir,
        depends_on(dependent, kind),
    ensures
        plan_for(diff).contains(ProjectionKind::Ir),
        plan_for(diff).contains(dependent),
{
    let c = choose|c: InvalidationCategory|
        diff.contains(c) && #[trigger] category_closure(c).contains(kind);
    let i = choose|i: int|
        0 <= i < category_roots(c).len() && #[trigger] reaches(category_roots(c)[i], kind);
    lemma_kind_index(dependent);
    lemma_reaches_extend(category_roots(c)[i], kind, kind_index(dependent));
    assert(category_closure(c).contains(dependent));
}

/// The position of a category in the fixed category order.
pub open spec fn category_index(category: InvalidationCategory) -> int {
    match category {
        InvalidationCategory::VisibleText => 0,
        InvalidationCategory::Hierarchy => 1,
        InvalidationCategory::EntityBinding => 2,
        InvalidationCategory::EntitySurface => 3,
        InvalidationCategory::ExplicitTag => 4,
        InvalidationCategory::Temporal => 5,
        InvalidationCategory::Relation => 6,
        InvalidationCategory::MemoryRef => 7,
        InvalidationCategory::SourceMetadata => 8,
        InvalidationCategory::Extension => 9,
        InvalidationCategory::SemanticNodeLifecycle => 10,
    }
}


proof fn lemma_root_rebuilt(diff: Seq<InvalidationCategory>, c: InvalidationCategory, i: int)
    requires
        diff.contains(c),
        0 <= i < category_roots(c).len(),
    ensures
        plan_for(diff).contains(category_roots(c)[i]),
        depends_on(ProjectionKind::RerankView, category_roots(c)[i]) ==> plan_for(diff).contains(
            ProjectionKind::RerankView,
        ),
{
    let root = category_roots(c)[i];
    assert(reaches(root, root));
    assert(category_closure(c).contains(root));
    if depends_on(ProjectionKind::RerankView, root) {
        assert(kind_at(11) == ProjectionKind::RerankView);
        assert(reaches(ProjectionKind::RerankView, ProjectionKind::RerankView));
        lemma_reaches_step(root, 11, ProjectionKind::RerankView);
        assert(category_closure(c).contains(ProjectionKind::RerankView));
    }
}

/// A diff that contains a category rebuilds the IR, the rerank view, and
/// every projection that reads that category directly: visible text feeds
/// the lexical and both embedding projections; hierarchy, memory
/// references, source metadata, extensions and node lifecycle feed the
/// structural projection; an entity binding feeds the structural, entity
/// and context-embedding projections; an entity surface feeds the entity,
/// lexical and both embedding projections; explicit tags, temporal values
/// and relations feed their own projections.
pub proof fn law_category_rebuilds_its_readers(
    diff: Seq<InvalidationCategory>,
    category: InvalidationCategory,
)
    requires
        diff.contains(category),
    ensures
        plan_for(diff).contains(ProjectionKind::Ir),
        plan_for(diff).contains(ProjectionKind::RerankView),
        category == InvalidationCategory::VisibleText ==> plan_for(diff).contains(
            ProjectionKind::Lexical,
        ) && plan_for(diff).contains(ProjectionKind::LocalEmbedding) && plan_for(diff).contains(
            ProjectionKind::ContextEmbedding,
        ),
        category == InvalidationCategory::Hierarchy ==> plan_for(diff).contains(
            ProjectionKind::Structure,
        ),
        category == InvalidationCategory::EntityBinding ==> plan_for(diff).contains(
            ProjectionKind::Structure,
        ) && plan_for(diff).contains(ProjectionKind::EntityObservations) && plan_for(
            diff,
        ).contains(ProjectionKind::ContextEmbedding),
        category == InvalidationCategory::EntitySurface ==> plan_for(diff).contains(
            ProjectionKind::EntityObservations,
        ) && plan_for(diff).contains(ProjectionKind::Lexical) && plan_for(diff).contains(
            ProjectionKind::LocalEmbedding,
        ) && plan_for(diff).contains(ProjectionKind::ContextEmbedding),
        category == InvalidationCategory::ExplicitTag ==> plan_for(diff).contains(
            ProjectionKind::ExplicitTags,
        ),
        category == InvalidationCategory::Temporal ==> plan_for(diff).contains(
            ProjectionKind::Temporal,
        ),
        category == InvalidationCategory::Relation ==> plan_for(diff).contains(
            ProjectionKind::Relations,
        ),
        category == InvalidationCategory::MemoryRef ==> plan_for(diff).contains(
            ProjectionKind::Structure,
        ),
        category == InvalidationCategory::SourceMetadata ==> plan_for(diff).contains(
            ProjectionKind::Structure,
        ),
        category == InvalidationCategory::Extension ==> plan_for(diff).contains(
            ProjectionKind::Structure,
        ),
        category == InvalidationCategory::SemanticNodeLifecycle ==> plan_for(diff).contains(
            ProjectionKind::Structure,
        ),
{
    let n = category_roots(category).len();
    if n > 0 {
        lemma_root_rebuilt(diff, category, 0);
    }
    if n > 1 {
        lemma_root_rebuilt(diff, category, 1);
    }
    if n > 2 {
        lemma_root_rebuilt(diff, category, 2);
    }
    if n > 3 {
        lemma_root_rebuilt(diff, category, 3);
    }
}

} // verus!
