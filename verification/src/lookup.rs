//! Lookup by identity over ordered entity lists: the first entity with a given id.

use vstd::prelude::*;
use crate::domain::{
    BomLineItem, Component, Constraint, Decision, EntityId, Evidence, FunctionalBlock, Net, Part,
    Pin, Placement, ProvenanceLink, Requirement, Track, Violation, Waiver,
};

verus! {

/// An entity that carries an identity.
pub trait HasId {
    spec fn id_of(&self) -> EntityId;

    fn entity_id(&self) -> (r: EntityId)
        ensures
            r == self.id_of(),
    ;
}

/// Some entity of `s` carries `id`.
pub open spec fn has_id<T: HasId>(s: Seq<T>, id: EntityId) -> bool {
    exists|i: int| 0 <= i < s.len() && (#[trigger] s[i]).id_of() == id
}

/// `i` is the first position of `s` whose entity carries `id`.
pub open spec fn first_with_id<T: HasId>(s: Seq<T>, id: EntityId, i: int) -> bool {
    &&& 0 <= i < s.len()
    &&& s[i].id_of() == id
    &&& forall|j: int| 0 <= j < i ==> (#[trigger] s[j]).id_of() != id
}

/// The first entity of `s` that carries `id`, if any.
pub open spec fn by_id<T: HasId>(s: Seq<T>, id: EntityId) -> Option<T> {
    if has_id(s, id) {
        Some(s[choose|i: int| first_with_id(s, id, i)])
    } else {
        None
    }
}

pub proof fn lemma_first_with_id_unique<T: HasId>(s: Seq<T>, id: EntityId, i: int, k: int)
    requires
        first_with_id(s, id, i),
        first_with_id(s, id, k),
    ensures
        i == k,
{
    if i < k {
        assert(s[i].id_of() != id);
    } else if k < i {
        assert(s[k].id_of() != id);
    }
}

pub proof fn lemma_by_id_at<T: HasId>(s: Seq<T>, id: EntityId, i: int)
    requires
        first_with_id(s, id, i),
    ensures
        by_id(s, id) == Some(s[i]),
{
    assert(has_id(s, id));
    let k = choose|k: int| first_with_id(s, id, k);
    lemma_first_with_id_unique(s, id, i, k);
}

/// The first entity of `v` with identity `id`.
pub fn find_by_id<T: HasId>(v: &Vec<T>, id: EntityId) -> (r: Option<&T>)
    ensures
        r is Some <==> has_id(v@, id),
        r matches Some(x) ==> by_id(v@, id) == Some(*x),
        r is None ==> by_id(v@, id) is None,
{
    let n = v.len();
    let mut i: usize = 0;
    while i < n
        invariant
            n == v@.len(),
            i <= n,
            forall|j: int| 0 <= j < i ==> (#[trigger] v@[j]).id_of() != id,
        decreases n - i,
    {
        if v[i].entity_id() == id {
            proof {
                lemma_by_id_at(v@, id, i as int);
            }
            return Some(&v[i]);
        }
        i = i + 1;
    }
    None
}

/// Whether some entity of `v` carries `id`.
pub fn contains_id<T: HasId>(v: &Vec<T>, id: EntityId) -> (r: bool)
    ensures
        r == has_id(v@, id),
{
    find_by_id(v, id).is_some()
}

/// Whether `id` occurs in a list of ids.
pub fn ids_contain(v: &Vec<EntityId>, id: EntityId) -> (r: bool)
    ensures
        r == v@.contains(id),
{
    let n = v.len();
    let mut i: usize = 0;
    while i < n
        invariant
            n == v@.len(),
            i <= n,
            forall|j: int| 0 <= j < i ==> v@[j] != id,
        decreases n - i,
    {
        if v[i] == id {
            assert(v@[i as int] == id);
            return true;
        }
        i = i + 1;
    }
    false
}

impl HasId for Requirement {
    open spec fn id_of(&self) -> EntityId {
        self.id
    }

    fn entity_id(&self) -> (r: EntityId) {
        self.id
    }
}

impl HasId for Decision {
    open spec fn id_of(&self) -> EntityId {
        self.id
    }

    fn entity_id(&self) -> (r: EntityId) {
        self.id
    }
}

impl HasId for Evidence {
    open spec fn id_of(&self) -> EntityId {
        self.id
    }

    fn entity_id(&self) -> (r: EntityId) {
        self.id
    }
}

impl HasId for ProvenanceLink {
    open spec fn id_of(&self) -> EntityId {
        self.id
    }

    fn entity_id(&self) -> (r: EntityId) {
        self.id
    }
}

impl HasId for Constraint {
    open spec fn id_of(&self) -> EntityId {
        self.id
    }

    fn entity_id(&self) -> (r: EntityId) {
        self.id
    }
}

impl HasId for Violation {
    open spec fn id_of(&self) -> EntityId {
        self.id
    }

    fn entity_id(&self) -> (r: EntityId) {
        self.id
    }
}

impl HasId for Waiver {
    open spec fn id_of(&self) -> EntityId {
        self.id
    }

    fn entity_id(&self) -> (r: EntityId) {
        self.id
    }
}

impl HasId for FunctionalBlock {
    open spec fn id_of(&self) -> EntityId {
        self.id
    }

    fn entity_id(&self) -> (r: EntityId) {
        self.id
    }
}

impl HasId for Component {
    open spec fn id_of(&self) -> EntityId {
        self.id
    }

    fn entity_id(&self) -> (r: EntityId) {
        self.id
    }
}

impl HasId for Pin {
    open spec fn id_of(&self) -> EntityId {
        self.id
    }

    fn entity_id(&self) -> (r: EntityId) {
        self.id
    }
}

impl HasId for Net {
    open spec fn id_of(&self) -> EntityId {
        self.id
    }

    fn entity_id(&self) -> (r: EntityId) {
        self.id
    }
}

impl HasId for Part {
    open spec fn id_of(&self) -> EntityId {
        self.id
    }

    fn entity_id(&self) -> (r: EntityId) {
        self.id
    }
}

impl HasId for BomLineItem {
    open spec fn id_of(&self) -> EntityId {
        self.id
    }

    fn entity_id(&self) -> (r: EntityId) {
        self.id
    }
}

impl HasId for Placement {
    open spec fn id_of(&self) -> EntityId {
        self.id
    }

    fn entity_id(&self) -> (r: EntityId) {
        self.id
    }
}

impl HasId for Track {
    open spec fn id_of(&self) -> EntityId {
        self.id
    }

    fn entity_id(&self) -> (r: EntityId) {
        self.id
    }
}

} // verus!

verus! {

/// `i` is the first position of `s` satisfying `p`.
pub open spec fn is_first_where<T>(s: Seq<T>, p: spec_fn(T) -> bool, i: int) -> bool {
    &&& 0 <= i < s.len()
    &&& p(s[i])
    &&& forall|j: int| 0 <= j < i ==> !p(#[trigger] s[j])
}

/// The first position of `s` satisfying `p`, if any.
pub open spec fn first_where<T>(s: Seq<T>, p: spec_fn(T) -> bool) -> Option<int> {
    if exists|i: int| is_first_where(s, p, i) {
        Some(choose|i: int| is_first_where(s, p, i))
    } else {
        None
    }
}

pub proof fn lemma_first_where_at<T>(s: Seq<T>, p: spec_fn(T) -> bool, i: int)
    requires
        is_first_where(s, p, i),
    ensures
        first_where(s, p) == Some(i),
{
    let k = choose|k: int| is_first_where(s, p, k);
    if k < i {
        assert(!p(s[k]));
    } else if i < k {
        assert(!p(s[i]));
    }
}

pub proof fn lemma_first_where_none<T>(s: Seq<T>, p: spec_fn(T) -> bool)
    requires
        forall|j: int| 0 <= j < s.len() ==> !p(#[trigger] s[j]),
    ensures
        first_where(s, p) is None,
{
}

/// A position satisfying `p` implies a first such position.
proof fn lemma_first_exists<T>(s: Seq<T>, p: spec_fn(T) -> bool, k: int)
    requires
        0 <= k < s.len(),
        p(s[k]),
    ensures
        exists|i: int| is_first_where(s, p, i),
    decreases k,
{
    if exists|j: int| 0 <= j < k && p(#[trigger] s[j]) {
        let j = choose|j: int| 0 <= j < k && p(#[trigger] s[j]);
        lemma_first_exists(s, p, j);
    } else {
        assert(is_first_where(s, p, k));
    }
}

/// When no first position exists, no position satisfies `p`.
pub proof fn lemma_first_where_none_all<T>(s: Seq<T>, p: spec_fn(T) -> bool)
    requires
        first_where(s, p) is None,
    ensures
        forall|j: int| 0 <= j < s.len() ==> !p(#[trigger] s[j]),
{
    assert forall|j: int| 0 <= j < s.len() implies !p(#[trigger] s[j]) by {
        if p(s[j]) {
            lemma_first_exists(s, p, j);
        }
    }
}

} // verus!
