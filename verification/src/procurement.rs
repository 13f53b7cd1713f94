//! BOM Planning: groups the schematic's components by class, orders one catalog part per
//! class (reusing a part already ordered under the same part number), commits one line
//! item per class, and projects the BOM IR. A re-entry once line items exist commits
//! nothing and only re-projects.

use vstd::prelude::*;
use crate::domain::{
    BomLineItem, BomLineItemView, Component, ComponentClass, EntityId, Part, ProvenanceLink,
    RelationType,
};
use crate::effects::{add_links, lemma_entity_then_links};
use crate::engines::{catalog_entry, PartCatalog};
use crate::fsm::{extends, lemma_extends_refl, lemma_extends_trans, phase_step, Machine, MachineError, StepResult};
use crate::lookup::{has_id, HasId, first_where, lemma_first_where_at, lemma_first_where_none, lemma_first_where_none_all};
use crate::domain::no_duplicates;
use crate::lowering::{bom_stage, lower_bom};
use crate::ports::{Event, ReasoningEngine};
use crate::protocol::{covered_by_line, link_events, request_events, CapabilityRequest};
use crate::runtime::{KernelView, RuntimeCore};
use crate::state::{apply_event, views, StateModel};
use crate::text::str_equal;

verus! {

pub open spec fn of_class(c: ComponentClass) -> spec_fn((ComponentClass, Seq<EntityId>)) -> bool {
    |g: (ComponentClass, Seq<EntityId>)| g.0 == c
}

/// Components grouped by class in order of first appearance, each group listing its
/// components in order.
pub open spec fn class_groups(cs: Seq<Component>) -> Seq<(ComponentClass, Seq<EntityId>)>
    decreases cs.len(),
{
    if cs.len() == 0 {
        Seq::empty()
    } else {
        let g = class_groups(cs.drop_last());
        let c = cs.last();
        match first_where(g, of_class(c.class)) {
            Some(j) => g.update(j, (g[j].0, g[j].1.push(c.id))),
            None => g.push((c.class, seq![c.id])),
        }
    }
}

/// No two components share an id.
pub open spec fn distinct_ids(cs: Seq<Component>) -> bool {
    forall|i: int, j: int| 0 <= i < j < cs.len() ==> (#[trigger] cs[i]).id != (#[trigger] cs[j]).id
}

/// Every id a group lists is the id of a component of the group's class.
pub open spec fn groups_sound(cs: Seq<Component>, gs: Seq<(ComponentClass, Seq<EntityId>)>) -> bool {
    forall|k: int, p: int|
        #![trigger gs[k].1[p]]
        0 <= k < gs.len() && 0 <= p < gs[k].1.len() ==> exists|q: int|
            0 <= q < cs.len() && (#[trigger] cs[q]).id == gs[k].1[p] && cs[q].class == gs[k].0
}

/// No group lists an id twice, and no id is listed by two groups.
pub open spec fn groups_apart(gs: Seq<(ComponentClass, Seq<EntityId>)>) -> bool {
    &&& forall|k: int| 0 <= k < gs.len() ==> no_duplicates((#[trigger] gs[k]).1)
    &&& forall|k1: int, k2: int, p1: int, p2: int|
        #![trigger gs[k1].1[p1], gs[k2].1[p2]]
        0 <= k1 < k2 < gs.len() && 0 <= p1 < gs[k1].1.len() && 0 <= p2 < gs[k2].1.len() ==> gs[k1].1[p1]
            != gs[k2].1[p2]
}

/// Every component's id is listed by some group, and each group of the components
/// without the last one is a prefix of the same group with it.
proof fn lemma_class_groups_complete(cs: Seq<Component>)
    ensures
        forall|q: int| 0 <= q < cs.len() ==> exists|k: int, p: int|
            0 <= k < class_groups(cs).len() && 0 <= p < class_groups(cs)[k].1.len()
                && #[trigger] class_groups(cs)[k].1[p] == (#[trigger] cs[q]).id,
    decreases cs.len(),
{
    if cs.len() > 0 {
        let c0 = cs.drop_last();
        let g0 = class_groups(c0);
        let c = cs.last();
        let n = cs.len() - 1;
        let g = class_groups(cs);
        lemma_class_groups_complete(c0);
        lemma_groups_grow(cs);
        assert forall|q: int| 0 <= q < cs.len() implies exists|k: int, p: int|
            0 <= k < g.len() && 0 <= p < g[k].1.len() && #[trigger] g[k].1[p] == (#[trigger] cs[q]).id by {
            if q < n {
                assert(cs[q] == c0[q]);
                let (k, p) = choose|k: int, p: int|
                    0 <= k < g0.len() && 0 <= p < g0[k].1.len() && #[trigger] g0[k].1[p] == (#[trigger] c0[q]).id;
                assert(g[k].1[p] == g0[k].1[p]);
            } else {
                let (k, p) = last_slot(cs);
                assert(g[k].1[p] == cs[q].id);
            }
        }
    }
}

/// Where the last component's id lands in the class groups.
pub open spec fn last_slot(cs: Seq<Component>) -> (int, int) {
    let g0 = class_groups(cs.drop_last());
    match first_where(g0, of_class(cs.last().class)) {
        Some(j) => (j, g0[j].1.len() as int),
        None => (g0.len() as int, 0),
    }
}

/// Adding a component only extends the groups: each earlier group keeps its ids in place,
/// and the new id sits at the last slot.
proof fn lemma_groups_grow(cs: Seq<Component>)
    requires
        cs.len() > 0,
    ensures
        class_groups(cs.drop_last()).len() <= class_groups(cs).len(),
        forall|k: int, p: int|
            0 <= k < class_groups(cs.drop_last()).len() && 0 <= p < class_groups(cs.drop_last())[k].1.len()
                ==> #[trigger] class_groups(cs)[k].1[p] == class_groups(cs.drop_last())[k].1[p],
        ({
            let (k, p) = last_slot(cs);
            &&& 0 <= k < class_groups(cs).len()
            &&& 0 <= p < class_groups(cs)[k].1.len()
            &&& class_groups(cs)[k].1[p] == cs.last().id
            &&& k < class_groups(cs.drop_last()).len() ==> p == class_groups(cs.drop_last())[k].1.len()
        }),
{
    let g0 = class_groups(cs.drop_last());
    let g = class_groups(cs);
    let c = cs.last();
    match first_where(g0, of_class(c.class)) {
        Some(j) => {
            assert(g == g0.update(j, (g0[j].0, g0[j].1.push(c.id))));
            assert forall|k: int, p: int| 0 <= k < g0.len() && 0 <= p < g0[k].1.len() implies #[trigger] g[k].1[p]
                == g0[k].1[p] by {
                if k == j {
                    assert(g[k].1 == g0[j].1.push(c.id));
                }
            }
        },
        None => {
            assert(g == g0.push((c.class, seq![c.id])));
            assert forall|k: int, p: int| 0 <= k < g0.len() && 0 <= p < g0[k].1.len() implies #[trigger] g[k].1[p]
                == g0[k].1[p] by {
                assert(g[k] == g0[k]);
            }
        },
    }
}

/// Groups that list no id twice and share none come from components with distinct ids.
pub proof fn lemma_apart_groups_distinct(cs: Seq<Component>)
    requires
        groups_apart(class_groups(cs)),
    ensures
        distinct_ids(cs),
    decreases cs.len(),
{
    if cs.len() > 0 {
        let c0 = cs.drop_last();
        let g0 = class_groups(c0);
        let g = class_groups(cs);
        let c = cs.last();
        let n = cs.len() - 1;
        lemma_groups_grow(cs);
        lemma_class_groups_complete(c0);
        let (kl, pl) = last_slot(cs);
        assert forall|k: int| 0 <= k < g0.len() implies no_duplicates((#[trigger] g0[k]).1) by {
            assert forall|a: int, b: int| 0 <= a < b < g0[k].1.len() implies g0[k].1[a] != g0[k].1[b] by {
                assert(g[k].1[a] == g0[k].1[a]);
                assert(g[k].1[b] == g0[k].1[b]);
                assert(no_duplicates(g[k].1));
            }
        }
        assert forall|k1: int, k2: int, p1: int, p2: int|
            #![trigger g0[k1].1[p1], g0[k2].1[p2]]
            0 <= k1 < k2 < g0.len() && 0 <= p1 < g0[k1].1.len() && 0 <= p2 < g0[k2].1.len() implies g0[k1].1[p1]
                != g0[k2].1[p2] by {
            assert(g[k1].1[p1] == g0[k1].1[p1]);
            assert(g[k2].1[p2] == g0[k2].1[p2]);
        }
        lemma_apart_groups_distinct(c0);
        assert forall|i: int, j: int| 0 <= i < j < cs.len() implies (#[trigger] cs[i]).id != (#[trigger] cs[j]).id by {
            if j < n {
                assert(cs[i] == c0[i] && cs[j] == c0[j]);
            } else {
                assert(cs[i] == c0[i]);
                let (k, p) = choose|k: int, p: int|
                    0 <= k < g0.len() && 0 <= p < g0[k].1.len() && #[trigger] g0[k].1[p] == (#[trigger] c0[i]).id;
                assert(g[k].1[p] == c0[i].id);
                assert(g[kl].1[pl] == c.id);
                if cs[i].id == cs[j].id {
                    if k == kl {
                        assert(p != pl);
                        assert(no_duplicates(g[k].1));
                        if p < pl {
                            assert(g[k].1[p] != g[k].1[pl]);
                        } else {
                            assert(g[k].1[pl] != g[k].1[p]);
                        }
                    } else if k < kl {
                        assert(g[k].1[p] != g[kl].1[pl]);
                    } else {
                        assert(g[kl].1[pl] != g[k].1[p]);
                    }
                }
            }
        }
    }
}

/// Every part from position `from` on carries a part number no part before it carries:
/// no number is ordered twice.
pub open spec fn newly_numbered(parts: Seq<Part>, from: int) -> bool {
    forall|k: int| from <= k < parts.len() ==> ordered_under(parts.take(k), (#[trigger] parts[k]).mpn@) is None
}

/// The part a class would reuse from `parts` does not carry the nil id.
pub open spec fn part_usable(parts: Seq<Part>, class: ComponentClass) -> bool {
    match ordered_under(parts, catalog_entry(class).0) {
        Some(id) => id.0 != 0,
        None => true,
    }
}

/// The design can be billed: its component ids are distinct, each class's count fits a
/// line's quantity, and no part it would reuse carries the nil id.
pub open spec fn billable(s: StateModel) -> bool {
    let gs = class_groups(s.components);
    &&& distinct_ids(s.components)
    &&& forall|k: int| 0 <= k < gs.len() ==> (#[trigger] gs[k]).1.len() <= u32::MAX
    &&& forall|k: int| 0 <= k < gs.len() ==> part_usable(s.parts, (#[trigger] gs[k]).0)
}

/// Within a longer part list, the part ordered under a number is the one its prefix
/// orders, when the prefix orders one; otherwise it lies past the prefix.
proof fn lemma_ordered_under_prefix(parts: Seq<Part>, n: int, mpn: Seq<char>)
    requires
        0 <= n <= parts.len(),
    ensures
        ordered_under(parts.take(n), mpn) is Some ==> ordered_under(parts, mpn) == ordered_under(parts.take(n), mpn),
        ordered_under(parts, mpn) matches Some(id) ==> ordered_under(parts.take(n), mpn) == Some(id) || exists|k: int|
            n <= k < parts.len() && (#[trigger] parts[k]).id == id,
{
    let ks = part_keys(parts);
    let kn = part_keys(parts.take(n));
    assert(kn =~= ks.take(n));
    if let Some(i) = first_where(kn, keyed(mpn)) {
        assert(crate::lookup::is_first_where(kn, keyed(mpn), i));
        assert forall|j: int| 0 <= j < i implies !keyed(mpn)(#[trigger] ks[j]) by {
            assert(ks[j] == kn[j]);
        }
        assert(ks[i] == kn[i]);
        assert(crate::lookup::is_first_where(ks, keyed(mpn), i));
        lemma_first_where_at(ks, keyed(mpn), i);
    }
    if let Some(i) = first_where(ks, keyed(mpn)) {
        assert(crate::lookup::is_first_where(ks, keyed(mpn), i));
        if i < n {
            assert forall|j: int| 0 <= j < i implies !keyed(mpn)(#[trigger] kn[j]) by {
                assert(ks[j] == kn[j]);
            }
            assert(ks[i] == kn[i]);
            assert(crate::lookup::is_first_where(kn, keyed(mpn), i));
            lemma_first_where_at(kn, keyed(mpn), i);
        } else {
            assert(parts[i].id == ks[i].1);
        }
    }
}

/// What the seam's admission of a line item tells: the line is intrinsically valid, orders
/// a part that is not nil, and covers only known components that no line covers yet.
proof fn lemma_admitted_line(
    st: crate::state::EngineeringState,
    autonomy: crate::protocol::Autonomy,
    item: BomLineItem,
    links: Vec<ProvenanceLink>,
)
    requires
        crate::protocol::rejection(st, autonomy, CapabilityRequest::CreateBomLineItem { item, links }, Ok(())) is None,
    ensures
        crate::domain::bom_line_item_check(item@) is Ok,
        item.part.0 != 0,
        forall|j: int| 0 <= j < item.components@.len() ==> !covered_by_line(st.bom_line_items@, #[trigger] item.components@[j]),
{
    let pred = |cid: EntityId| !has_id(st.components@, cid) || covered_by_line(st.bom_line_items@, cid);
    assert(first_where(item.components@, pred) is None);
    lemma_first_where_none_all(item.components@, pred);
    assert forall|j: int| 0 <= j < item.components@.len() implies !covered_by_line(st.bom_line_items@, #[trigger] item.components@[j]) by {
        assert(!pred(item.components@[j]));
    }
}

/// With distinct component ids, each id a group lists is a known component and on no line
/// of the earlier groups.
proof fn lemma_group_admissible(cs: Seq<Component>, i: int, lines: Seq<BomLineItem>)
    requires
        distinct_ids(cs),
        0 <= i < class_groups(cs).len(),
        lines.len() == i,
        forall|l: int| 0 <= l < i ==> (#[trigger] lines[l]).components@ == class_groups(cs)[l].1,
    ensures
        forall|p: int|
            0 <= p < class_groups(cs)[i].1.len() ==> has_id(cs, #[trigger] class_groups(cs)[i].1[p])
                && !covered_by_line(lines, class_groups(cs)[i].1[p]),
{
    let gs = class_groups(cs);
    lemma_class_groups(cs);
    assert forall|p: int| 0 <= p < gs[i].1.len() implies has_id(cs, #[trigger] gs[i].1[p])
        && !covered_by_line(lines, gs[i].1[p]) by {
        let cid = gs[i].1[p];
        let q = choose|q: int| 0 <= q < cs.len() && (#[trigger] cs[q]).id == gs[i].1[p] && cs[q].class == gs[i].0;
        assert(cs[q].id_of() == cid);
        if covered_by_line(lines, cid) {
            let l = choose|l: int| 0 <= l < lines.len() && (#[trigger] lines[l]).components@.contains(cid);
            let r = choose|r: int| 0 <= r < lines[l].components@.len() && lines[l].components@[r] == cid;
            assert(gs[l].1[r] == cid);
            let q2 = choose|q2: int| 0 <= q2 < cs.len() && (#[trigger] cs[q2]).id == gs[l].1[r] && cs[q2].class == gs[l].0;
            assert(gs[l].0 != gs[i].0);
            assert(q2 != q);
            if q2 < q {
                assert(cs[q2].id != cs[q].id);
            } else {
                assert(cs[q].id != cs[q2].id);
            }
        }
    }
}

/// A group opened for the last component keeps the groups sound.
proof fn lemma_groups_sound_push(cs: Seq<Component>, g0: Seq<(ComponentClass, Seq<EntityId>)>)
    requires
        cs.len() > 0,
        groups_sound(cs.drop_last(), g0),
    ensures
        groups_sound(cs, g0.push((cs.last().class, seq![cs.last().id]))),
{
    let g = g0.push((cs.last().class, seq![cs.last().id]));
    let c0 = cs.drop_last();
    let n = cs.len() - 1;
    assert forall|k: int, p: int|
        #![trigger g[k].1[p]]
        0 <= k < g.len() && 0 <= p < g[k].1.len() implies (exists|q: int|
            0 <= q < cs.len() && (#[trigger] cs[q]).id == g[k].1[p] && cs[q].class == g[k].0) by {
        if k == g0.len() {
            assert(g[k].1 == seq![cs.last().id]);
            assert(p == 0);
            assert(cs[n].id == g[k].1[p]);
            assert(cs[n].class == g[k].0);
        } else {
            assert(g[k] == g0[k]);
            let q = choose|q: int| 0 <= q < c0.len() && (#[trigger] c0[q]).id == g0[k].1[p] && c0[q].class == g0[k].0;
            assert(cs[q] == c0[q]);
        }
    }
}

/// The class groups are non-empty, no longer than the component list, of distinct
/// classes, and list only ids of components of their class; when the component ids are
/// distinct, no group lists an id twice.
pub proof fn lemma_class_groups(cs: Seq<Component>)
    ensures
        forall|k: int| 0 <= k < class_groups(cs).len() ==> 0 < (#[trigger] class_groups(cs)[k]).1.len() <= cs.len(),
        forall|k1: int, k2: int|
            0 <= k1 < k2 < class_groups(cs).len() ==> (#[trigger] class_groups(cs)[k1]).0 != (#[trigger] class_groups(cs)[k2]).0,
        groups_sound(cs, class_groups(cs)),
        distinct_ids(cs) ==> forall|k: int| 0 <= k < class_groups(cs).len() ==> no_duplicates((#[trigger] class_groups(cs)[k]).1),
    decreases cs.len(),
{
    if cs.len() > 0 {
        let c0 = cs.drop_last();
        let g0 = class_groups(c0);
        let c = cs.last();
        let n = cs.len() - 1;
        lemma_class_groups(c0);
        let g = class_groups(cs);
        assert(cs[n] == c);
        assert forall|q: int| 0 <= q < c0.len() implies (#[trigger] c0[q]) == cs[q] by {}
        if distinct_ids(cs) {
            assert forall|i: int, j: int| 0 <= i < j < c0.len() implies (#[trigger] c0[i]).id != (#[trigger] c0[j]).id by {
                assert(cs[i] == c0[i] && cs[j] == c0[j]);
            }
        }
        match first_where(g0, of_class(c.class)) {
            Some(j) => {
                assert(g == g0.update(j, (g0[j].0, g0[j].1.push(c.id))));
                assert(of_class(c.class)(g0[j]));
                assert forall|k: int, p: int|
                    #![trigger g[k].1[p]]
                    0 <= k < g.len() && 0 <= p < g[k].1.len() implies exists|q: int|
                        0 <= q < cs.len() && (#[trigger] cs[q]).id == g[k].1[p] && cs[q].class == g[k].0 by {
                    if k == j && p == g0[j].1.len() {
                        assert(cs[n].id == g[k].1[p]);
                    } else {
                        assert(g[k].1[p] == g0[k].1[p]);
                        let q = choose|q: int| 0 <= q < c0.len() && (#[trigger] c0[q]).id == g0[k].1[p] && c0[q].class == g0[k].0;
                        assert(cs[q] == c0[q]);
                    }
                }
                assert(groups_sound(cs, g));
                if distinct_ids(cs) {
                    assert forall|k: int| 0 <= k < g.len() implies no_duplicates((#[trigger] g[k]).1) by {
                        if k == j {
                            assert forall|a: int, b: int| 0 <= a < b < g[k].1.len() implies g[k].1[a] != g[k].1[b] by {
                                assert(g[k].1[a] == g0[j].1[a]);
                                if b == g0[j].1.len() {
                                    let q = choose|q: int| 0 <= q < c0.len() && (#[trigger] c0[q]).id == g0[j].1[a] && c0[q].class == g0[j].0;
                                    assert(cs[q] == c0[q]);
                                    assert(cs[q].id != cs[n].id);
                                } else {
                                    assert(g[k].1[b] == g0[j].1[b]);
                                }
                            }
                        }
                    }
                }
            },
            None => {
                lemma_first_where_none_all(g0, of_class(c.class));
                assert(g == g0.push((c.class, seq![c.id])));
                assert forall|k: int| 0 <= k < g0.len() implies (#[trigger] g0[k]).0 != c.class by {
                    assert(!of_class(c.class)(g0[k]));
                }
                lemma_groups_sound_push(cs, g0);
                assert(groups_sound(cs, g));
            },
        }
    }
}

pub open spec fn group_views(gs: Seq<(ComponentClass, Vec<EntityId>)>) -> Seq<(ComponentClass, Seq<EntityId>)> {
    gs.map_values(|g: (ComponentClass, Vec<EntityId>)| (g.0, g.1@))
}

fn group_by_class(cs: &Vec<Component>) -> (gs: Vec<(ComponentClass, Vec<EntityId>)>)
    ensures
        group_views(gs@) == class_groups(cs@),
{
    let mut gs: Vec<(ComponentClass, Vec<EntityId>)> = Vec::new();
    let n = cs.len();
    let mut i: usize = 0;
    while i < n
        invariant
            n == cs@.len(),
            i <= n,
            group_views(gs@) == class_groups(cs@.take(i as int)),
        decreases n - i,
    {
        let c = &cs[i];
        proof {
            assert(cs@.take(i + 1).drop_last() =~= cs@.take(i as int));
            assert(cs@.take(i + 1).last() == *c);
        }
        let ghost gv = group_views(gs@);
        let m = gs.len();
        let mut j: usize = 0;
        while j < m && gs[j].0 != c.class
            invariant
                m == gs@.len(),
                gv == group_views(gs@),
                j <= m,
                forall|k: int| 0 <= k < j ==> !of_class(c.class)(#[trigger] gv[k]),
            decreases m - j,
        {
            j = j + 1;
        }
        if j < m {
            proof {
                assert(of_class(c.class)(gv[j as int]));
                lemma_first_where_at(gv, of_class(c.class), j as int);
            }
            let mut ids = gs[j].1.clone();
            ids.push(c.id);
            let cls = gs[j].0;
            gs.set(j, (cls, ids));
            proof {
                assert(group_views(gs@) =~= gv.update(j as int, (gv[j as int].0, gv[j as int].1.push(c.id))));
            }
        } else {
            proof {
                lemma_first_where_none(gv, of_class(c.class));
            }
            let mut ids: Vec<EntityId> = Vec::new();
            ids.push(c.id);
            gs.push((c.class, ids));
            proof {
                assert(ids@ =~= seq![c.id]);
                assert(group_views(gs@) =~= gv.push((c.class, seq![c.id])));
            }
        }
        i = i + 1;
    }
    assert(cs@.take(n as int) =~= cs@);
    gs
}

/// A part list keyed by part number: each part's number and id, in order.
pub open spec fn part_keys(parts: Seq<Part>) -> Seq<(Seq<char>, EntityId)> {
    parts.map_values(|p: Part| (p.mpn@, p.id))
}

pub open spec fn cache_keys(cache: Seq<(String, EntityId)>) -> Seq<(Seq<char>, EntityId)> {
    cache.map_values(|e: (String, EntityId)| (e.0@, e.1))
}

pub open spec fn keyed(mpn: Seq<char>) -> spec_fn((Seq<char>, EntityId)) -> bool {
    |e: (Seq<char>, EntityId)| e.0 == mpn
}

/// The id listed first under a part number.
pub open spec fn first_keyed(keys: Seq<(Seq<char>, EntityId)>, mpn: Seq<char>) -> Option<EntityId> {
    match first_where(keys, keyed(mpn)) {
        Some(i) => Some(keys[i].1),
        None => None,
    }
}

/// The part ordered under a part number: the first part in the list that carries it.
pub open spec fn ordered_under(parts: Seq<Part>, mpn: Seq<char>) -> Option<EntityId> {
    first_keyed(part_keys(parts), mpn)
}

/// Appending a part keeps the part already ordered under a number; under a number not yet
/// ordered, the appended part becomes the one ordered when it carries that number.
proof fn lemma_ordered_under_push(parts: Seq<Part>, p: Part, mpn: Seq<char>)
    ensures
        ordered_under(parts, mpn) is Some ==> ordered_under(parts.push(p), mpn) == ordered_under(parts, mpn),
        ordered_under(parts, mpn) is None && p.mpn@ == mpn ==> ordered_under(parts.push(p), mpn) == Some(p.id),
{
    let ks = part_keys(parts);
    let kp = part_keys(parts.push(p));
    assert(kp =~= ks.push((p.mpn@, p.id)));
    if let Some(i) = first_where(ks, keyed(mpn)) {
        assert(crate::lookup::is_first_where(ks, keyed(mpn), i));
        assert(crate::lookup::is_first_where(kp, keyed(mpn), i));
        lemma_first_where_at(kp, keyed(mpn), i);
    } else if p.mpn@ == mpn {
        lemma_first_where_none_all(ks, keyed(mpn));
        assert(crate::lookup::is_first_where(kp, keyed(mpn), ks.len() as int));
        lemma_first_where_at(kp, keyed(mpn), ks.len() as int);
    }
}

/// The part ordered under a number is in the list and carries the number.
proof fn lemma_ordered_under_found(parts: Seq<Part>, mpn: Seq<char>)
    ensures
        ordered_under(parts, mpn) matches Some(id) ==> exists|k: int|
            0 <= k < parts.len() && (#[trigger] parts[k]).id == id && parts[k].mpn@ == mpn,
{
    let ks = part_keys(parts);
    if let Some(i) = first_where(ks, keyed(mpn)) {
        assert(crate::lookup::is_first_where(ks, keyed(mpn), i));
        assert(ks[i] == (parts[i].mpn@, parts[i].id));
        assert(parts[i].id == ks[i].1);
    }
}

/// A part built from the catalog entry of some class.
pub open spec fn from_catalog(p: Part) -> bool {
    exists|c: ComponentClass| (p.mpn@, p.manufacturer@, p.lifecycle, p.datasheet@) == #[trigger] catalog_entry(c)
}

/// `items` are the planned line items of `gs`: one per group, in order, covering the
/// group's components, with a quantity of their count, ordering the first part that carries
/// the class's catalog part number.
pub open spec fn lines_for(items: Seq<BomLineItemView>, parts: Seq<Part>, gs: Seq<(ComponentClass, Seq<EntityId>)>) -> bool {
    &&& items.len() == gs.len()
    &&& forall|k: int|
        0 <= k < gs.len() ==> (#[trigger] items[k]).components == gs[k].1 && items[k].quantity == gs[k].1.len()
            && ordered_under(parts, catalog_entry(gs[k].0).0) == Some(items[k].part)
}

/// A message the seam gives when it rejects a proposal.
pub open spec fn is_rejection(m: Seq<char>) -> bool {
    exists|t: Seq<char>| m == "capability rejected: "@ + t
}

pub struct BomPlanningMachine;

impl BomPlanningMachine {
    pub fn new() -> Self {
        BomPlanningMachine
    }

    fn cached_part(cache: &Vec<(String, EntityId)>, mpn: &str) -> (r: Option<EntityId>)
        ensures
            r == first_keyed(cache_keys(cache@), mpn@),
    {
        let ghost ks = cache_keys(cache@);
        let n = cache.len();
        let mut i: usize = 0;
        while i < n
            invariant
                n == cache@.len(),
                ks == cache_keys(cache@),
                i <= n,
                forall|j: int| 0 <= j < i ==> !keyed(mpn@)(#[trigger] ks[j]),
            decreases n - i,
        {
            if str_equal(cache[i].0.as_str(), mpn) {
                proof {
                    assert(keyed(mpn@)(ks[i as int]));
                    lemma_first_where_at(ks, keyed(mpn@), i as int);
                }
                return Some(cache[i].1);
            }
            i = i + 1;
        }
        proof {
            lemma_first_where_none(ks, keyed(mpn@));
        }
        None
    }

    /// Orders the parts and commits one line item per class group.
    fn synthesize<E: ReasoningEngine>(&self, ctx: &mut RuntimeCore<E>) -> (r: Result<(), MachineError>)
        requires
            old(ctx).wf(),
        ensures
            final(ctx).wf(),
            extends(old(ctx).log_value(), final(ctx).log_value()),
            final(ctx).autonomy_value() == old(ctx).autonomy_value(),
            r is Ok ==> {
                let s0 = old(ctx).state_value()@;
                let s1 = final(ctx).state_value()@;
                &&& s1.components == s0.components
                &&& s1.bom_line_items.take(s0.bom_line_items.len() as int) == s0.bom_line_items
                &&& lines_for(s1.bom_line_items.skip(s0.bom_line_items.len() as int), s1.parts, class_groups(s0.components))
                &&& s1.parts.take(s0.parts.len() as int) == s0.parts
                &&& forall|k: int| s0.parts.len() <= k < s1.parts.len() ==> from_catalog(#[trigger] s1.parts[k])
            },
            r matches Err(MachineError::Internal(m)) ==> is_rejection(m@),
            old(ctx).state_value()@.bom_line_items.len() == 0 ==> (r is Ok <==> billable(old(ctx).state_value()@)),
            final(ctx).state_value()@.parts.take(old(ctx).state_value()@.parts.len() as int) == old(ctx).state_value()@.parts,
            newly_numbered(final(ctx).state_value()@.parts, old(ctx).state_value()@.parts.len() as int),
    {
        let ghost s0 = ctx.state_value()@;
        let ghost fresh0 = s0.bom_line_items.len() == 0;
        let ghost owed = s0.bom_line_items.len() == 0 && billable(s0);
        let catalog = PartCatalog::new();
        let comps = ctx.components();
        let groups = group_by_class(&comps);
        let ghost gs = class_groups(s0.components);
        let existing = ctx.parts();
        let mut cache: Vec<(String, EntityId)> = Vec::new();
        let ne = existing.len();
        let mut e: usize = 0;
        while e < ne
            invariant
                ne == existing@.len(),
                existing@ == s0.parts,
                e <= ne,
                cache_keys(cache@) == part_keys(s0.parts.take(e as int)),
            decreases ne - e,
        {
            let p = &existing[e];
            let ghost before = cache@;
            let mpn = p.mpn.clone();
            proof {
                assert(mpn@ == s0.parts[e as int].mpn@);
            }
            cache.push((mpn, p.id));
            proof {
                assert(cache@ == before.push((mpn, p.id)));
                assert(cache_keys(cache@) =~= cache_keys(before).push((mpn@, p.id)));
                assert(s0.parts.take(e + 1) =~= s0.parts.take(e as int).push(s0.parts[e as int]));
                assert(part_keys(s0.parts.take(e + 1)) =~= part_keys(s0.parts.take(e as int)).push((mpn@, p.id)));
                assert(cache_keys(cache@) =~= part_keys(s0.parts.take(e + 1)));
            }
            e = e + 1;
        }
        proof {
            assert(s0.parts.take(ne as int) =~= s0.parts);
            lemma_extends_refl(ctx.log_value());
            assert(ctx.state_value()@.bom_line_items.skip(s0.bom_line_items.len() as int) =~= Seq::<BomLineItemView>::empty());
            assert(ctx.state_value()@.bom_line_items.take(s0.bom_line_items.len() as int) =~= s0.bom_line_items);
            assert(ctx.state_value()@.parts.take(s0.parts.len() as int) =~= s0.parts);
        }
        let n = groups.len();
        let mut i: usize = 0;
        while i < n
            invariant
                ctx.wf(),
                extends(old(ctx).log_value(), ctx.log_value()),
                ctx.autonomy_value() == old(ctx).autonomy_value(),
                s0 == old(ctx).state_value()@,
                n == groups@.len(),
                group_views(groups@) == gs,
                gs == class_groups(s0.components),
                i <= n,
                ctx.state_value()@.components == s0.components,
                ctx.state_value()@.bom_line_items.len() == s0.bom_line_items.len() + i,
                ctx.state_value()@.bom_line_items.take(s0.bom_line_items.len() as int) == s0.bom_line_items,
                lines_for(ctx.state_value()@.bom_line_items.skip(s0.bom_line_items.len() as int), ctx.state_value()@.parts, gs.take(i as int)),
                ctx.state_value()@.parts.take(s0.parts.len() as int) == s0.parts,
                ctx.state_value()@.parts.len() >= s0.parts.len(),
                forall|k: int| s0.parts.len() <= k < ctx.state_value()@.parts.len() ==> from_catalog(#[trigger] ctx.state_value()@.parts[k]),
                cache_keys(cache@) == part_keys(ctx.state_value()@.parts),
                owed == (s0.bom_line_items.len() == 0 && billable(s0)),
                forall|k: int| s0.parts.len() <= k < ctx.state_value()@.parts.len() ==> (#[trigger] ctx.state_value()@.parts[k]).id.0 != 0,
                fresh0 == (s0.bom_line_items.len() == 0),
                newly_numbered(ctx.state_value()@.parts, s0.parts.len() as int),
                fresh0 ==> forall|k: int| 0 <= k < i ==> no_duplicates((#[trigger] gs[k]).1) && gs[k].1.len() <= u32::MAX
                    && part_usable(s0.parts, gs[k].0),
                fresh0 ==> forall|k1: int, k2: int, p1: int, p2: int|
                    #![trigger gs[k1].1[p1], gs[k2].1[p2]]
                    0 <= k1 < k2 < i && 0 <= p1 < gs[k1].1.len() && 0 <= p2 < gs[k2].1.len() ==> gs[k1].1[p1]
                        != gs[k2].1[p2],
            decreases n - i,
        {
            let class = groups[i].0;
            let ids = groups[i].1.clone();
            let cp = catalog.part_for(class);
            let ghost st_before = ctx.state_value()@;
            let ghost log_before = ctx.log_value();
            let part_id = match Self::cached_part(&cache, cp.mpn) {
                Some(id) => {
                    proof {
                        lemma_extends_refl(ctx.log_value());
                    }
                    id
                },
                None => {
                    let pid = ctx.fresh_id();
                    let part = Part {
                        id: pid,
                        mpn: String::from_str(cp.mpn),
                        manufacturer: String::from_str(cp.manufacturer),
                        lifecycle: cp.lifecycle,
                        datasheet: String::from_str(cp.datasheet),
                    };
                    let ghost pv = part;
                    let links: Vec<ProvenanceLink> = Vec::new();
                    let ghost lv = links@;
                    let ghost before = ctx.state_value()@;
                    let ghost lb = ctx.log_value();
                    let req = CapabilityRequest::CreatePart { part, links };
                    match ctx.invoke(req, Ok(())) {
                        Ok(_) => {
                            proof {
                                lemma_entity_then_links(before, Event::PartCommitted { part: pv }, lv);
                                assert(lv =~= Seq::<ProvenanceLink>::empty());
                                let after = ctx.state_value()@;
                                assert(after.parts == before.parts.push(pv));
                                assert(from_catalog(pv)) by {
                                    assert((pv.mpn@, pv.manufacturer@, pv.lifecycle, pv.datasheet@) == catalog_entry(class));
                                }
                                assert(extends(lb, ctx.log_value())) by {
                                    assert(ctx.log_value().take(lb.len() as int) == lb);
                                }
                                lemma_extends_trans(old(ctx).log_value(), lb, ctx.log_value());
                                lemma_ordered_under_push(before.parts, pv, cp.mpn@);
                                assert(ordered_under(after.parts, cp.mpn@) == Some(pid));
                                assert forall|k: int| s0.parts.len() <= k < after.parts.len() implies ordered_under(
                                    after.parts.take(k),
                                    (#[trigger] after.parts[k]).mpn@,
                                ) is None by {
                                    if k < before.parts.len() {
                                        assert(after.parts.take(k) =~= before.parts.take(k));
                                        assert(after.parts[k] == before.parts[k]);
                                    } else {
                                        assert(after.parts.take(k) =~= before.parts);
                                    }
                                }
                                assert(after.parts.take(s0.parts.len() as int) =~= s0.parts) by {
                                    assert(before.parts.take(s0.parts.len() as int) == s0.parts);
                                }
                                assert forall|k: int| s0.parts.len() <= k < after.parts.len() implies from_catalog(#[trigger] after.parts[k]) by {
                                    if k < before.parts.len() {
                                        assert(after.parts[k] == before.parts[k]);
                                    }
                                }
                                assert(lines_for(after.bom_line_items.skip(s0.bom_line_items.len() as int), after.parts, gs.take(i as int))) by {
                                    let items = after.bom_line_items.skip(s0.bom_line_items.len() as int);
                                    assert forall|k: int| 0 <= k < gs.take(i as int).len() implies ordered_under(after.parts, catalog_entry(gs.take(i as int)[k].0).0) == Some((#[trigger] items[k]).part) by {
                                        lemma_ordered_under_push(before.parts, pv, catalog_entry(gs.take(i as int)[k].0).0);
                                    }
                                }
                            }
                        },
                        Err(err) => {
                            proof {
                                crate::engines::lemma_catalog_mpn_not_blank(class);
                            }
                            let m = err.message();
                            proof {
                                let crate::protocol::CapabilityError::Rejected(x) = err;
                                assert(m@ == "capability rejected: "@ + x@);
                            }
                            return Err(MachineError::Internal(m));
                        },
                    }
                    let ghost cb = cache@;
                    cache.push((String::from_str(cp.mpn), pid));
                    proof {
                        assert(cache_keys(cache@) =~= cache_keys(cb).push((cp.mpn@, pid)));
                        assert(part_keys(ctx.state_value()@.parts) =~= part_keys(st_before.parts).push((cp.mpn@, pid)));
                    }
                    pid
                },
            };
            let ghost st_mid = ctx.state_value()@;
            let ghost log_mid = ctx.log_value();
            let item_id = ctx.fresh_id();
            let count = ids.len();
            let mut links: Vec<ProvenanceLink> = Vec::new();
            let lid = ctx.fresh_id();
            links.push(ProvenanceLink { id: lid, from: item_id, to: part_id, relation: RelationType::TracesTo });
            let nc = ids.len();
            let mut j: usize = 0;
            while j < nc
                invariant
                    ctx.wf(),
                    ctx.state_value()@ == st_mid,
                    ctx.log_value() == log_mid,
                    ctx.autonomy_value() == old(ctx).autonomy_value(),
                    nc == ids@.len(),
                    j <= nc,
                decreases nc - j,
            {
                let l = ctx.fresh_id();
                links.push(ProvenanceLink { id: l, from: item_id, to: ids[j], relation: RelationType::TracesTo });
                j = j + 1;
            }
            let quantity: u32 = #[verifier::truncate] (count as u32);
            let item = BomLineItem { id: item_id, part: part_id, components: ids, quantity };
            let ghost iv = item@;
            let ghost lv = links@;
            let req = CapabilityRequest::CreateBomLineItem { item, links };
            let ghost est = ctx.state_value();
            let ghost auto = ctx.autonomy_value();
            match ctx.invoke(req, Ok(())) {
                Ok(_) => {
                    proof {
                        if fresh0 {
                            let it = req->item;
                            lemma_admitted_line(est, auto, it, req->CreateBomLineItem_links);
                            let mpn = catalog_entry(gs[i as int].0).0;
                            lemma_ordered_under_prefix(est@.parts, s0.parts.len() as int, mpn);
                            assert(it.components@ == gs[i as int].1);
                            assert(est@.bom_line_items.skip(0) =~= est@.bom_line_items);
                            assert forall|k1: int, k2: int, p1: int, p2: int|
                                #![trigger gs[k1].1[p1], gs[k2].1[p2]]
                                0 <= k1 < k2 < i + 1 && 0 <= p1 < gs[k1].1.len() && 0 <= p2 < gs[k2].1.len() implies gs[k1].1[p1]
                                    != gs[k2].1[p2] by {
                                if k2 == i {
                                    assert(est@.bom_line_items[k1] == est.bom_line_items@[k1]@);
                                    assert(gs.take(i as int)[k1] == gs[k1]);
                                    assert(est.bom_line_items@[k1].components@ == gs[k1].1);
                                    if gs[k1].1[p1] == gs[k2].1[p2] {
                                        assert(est.bom_line_items@[k1].components@.contains(it.components@[p2]));
                                        assert(covered_by_line(est.bom_line_items@, it.components@[p2]));
                                    }
                                }
                            }
                        }
                        lemma_entity_then_links(st_mid, Event::BomLineItemCommitted { item: req->item }, lv);
                        let after = ctx.state_value()@;
                        assert(after.bom_line_items == st_mid.bom_line_items.push(iv));
                        assert(after.parts == st_mid.parts);
                        assert(iv.components == gs[i as int].1);
                        let k0 = s0.bom_line_items.len() as int;
                        assert(after.bom_line_items.take(k0) =~= s0.bom_line_items) by {
                            assert(st_mid.bom_line_items.take(k0) == s0.bom_line_items);
                        }
                        assert(after.bom_line_items.skip(k0) =~= st_mid.bom_line_items.skip(k0).push(iv));
                        assert(gs.take(i + 1) =~= gs.take(i as int).push(gs[i as int]));
                        assert(ordered_under(after.parts, catalog_entry(gs[i as int].0).0) == Some(iv.part));
                        assert(extends(log_mid, ctx.log_value())) by {
                            assert(ctx.log_value().take(log_mid.len() as int) == log_mid);
                        }
                        lemma_extends_trans(old(ctx).log_value(), log_mid, ctx.log_value());
                    }
                },
                Err(err) => {
                    proof {
                        if owed {
                            let st = ctx.state_value();
                            let it = req->item;
                            lemma_class_groups(s0.components);
                            assert(st@.bom_line_items.skip(0) =~= st@.bom_line_items);
                            assert forall|l: int| 0 <= l < i implies (#[trigger] st.bom_line_items@[l]).components@ == gs[l].1 by {
                                assert(st@.bom_line_items[l] == st.bom_line_items@[l]@);
                                assert(gs.take(i as int)[l] == gs[l]);
                            }
                            lemma_group_admissible(s0.components, i as int, st.bom_line_items@);
                            assert(it.components@ == gs[i as int].1);
                            assert(forall|j: int| 0 <= j < it.components@.len() ==> !(|cid: EntityId|
                                !has_id(st.components@, cid) || covered_by_line(st.bom_line_items@, cid))(
                                #[trigger] it.components@[j],
                            ));
                            lemma_first_where_none(
                                it.components@,
                                |cid: EntityId| !has_id(st.components@, cid) || covered_by_line(st.bom_line_items@, cid),
                            );
                            assert(count <= u32::MAX);
                            assert(it.quantity as int == it.components@.len());
                            let mpn = catalog_entry(gs[i as int].0).0;
                            lemma_ordered_under_prefix(st@.parts, s0.parts.len() as int, mpn);
                            assert(part_usable(s0.parts, gs[i as int].0));
                            assert(it.part.0 != 0);
                            lemma_ordered_under_found(st@.parts, mpn);
                            let w = choose|w: int| 0 <= w < st@.parts.len() && (#[trigger] st@.parts[w]).id == it.part
                                && st@.parts[w].mpn@ == catalog_entry(gs[i as int].0).0;
                            assert(st.parts@[w].id_of() == it.part);
                            assert(crate::domain::bom_line_item_check(it@) is Ok);
                            assert(false);
                        }
                    }
                    let m = err.message();
                    proof {
                        let crate::protocol::CapabilityError::Rejected(x) = err;
                        assert(m@ == "capability rejected: "@ + x@);
                    }
                    return Err(MachineError::Internal(m));
                },
            }
            i = i + 1;
        }
        proof {
            assert(gs.take(n as int) =~= gs);
            if fresh0 {
                assert(groups_apart(gs));
                lemma_apart_groups_distinct(s0.components);
            }
        }
        Ok(())
    }
}

/// What planning the bill of materials did: order parts and commit line items unless line
/// items exist, then project the BOM IR and record the milestone. Ordering fails, with
/// the seam's refusal, exactly when the design is not billable.
pub open spec fn bom_planned(
    c0: KernelView,
    c1: KernelView,
    r: Result<StepResult, MachineError>,
) -> bool {
    let s0 = c0.state_value()@;
    let s1 = c1.state_value()@;
    let fresh = s0.bom_line_items.len() == 0;
    &&& !fresh ==> s1 == s0 && c1.id_state() == c0.id_state() && c1.log_value().len() == c0.log_value().len() + if r is Ok {
        1int
    } else {
        0int
    }
    &&& s1.parts.take(s0.parts.len() as int) == s0.parts
    &&& newly_numbered(s1.parts, s0.parts.len() as int)
    &&& fresh && billable(s0) ==> {
        &&& s1.components == s0.components
        &&& lines_for(s1.bom_line_items, s1.parts, class_groups(s0.components))
        &&& s1.parts.take(s0.parts.len() as int) == s0.parts
        &&& forall|k: int| s0.parts.len() <= k < s1.parts.len() ==> from_catalog(#[trigger] s1.parts[k])
    }
    &&& r is Ok ==> r == Ok::<StepResult, MachineError>(StepResult::Done) && bom_stage(s1) is None
        && c1.log_value().last().event == (Event::BomIrProduced {
            schema_version: 1,
            line_item_count: s1.bom_line_items.len() as usize,
        })
    &&& r matches Err(MachineError::Internal(m)) ==> (fresh && is_rejection(m@)) || bom_stage(s1) == Some(m@)
    &&& fresh && billable(s0) ==> (r matches Err(MachineError::Internal(m)) ==> bom_stage(s1) == Some(m@))
    &&& fresh && !billable(s0) ==> (r matches Err(MachineError::Internal(m)) && is_rejection(m@))
}

impl BomPlanningMachine {
    /// The `Planning` state's work: order parts and commit line items unless line items
    /// already exist, then project the BOM IR and record the milestone.
    pub fn plan<E: ReasoningEngine>(&self, ctx: &mut RuntimeCore<E>) -> (r: Result<StepResult, MachineError>)
        requires
            old(ctx).wf(),
        ensures
            final(ctx).wf(),
            extends(old(ctx).log_value(), final(ctx).log_value()),
            final(ctx).autonomy_value() == old(ctx).autonomy_value(),
            bom_planned(old(ctx).kernel(), final(ctx).kernel(), r),
    {
        let ghost l0 = ctx.log_value();
        let ghost s0 = ctx.state_value()@;
        proof {
            assert(s0.parts.take(s0.parts.len() as int) =~= s0.parts);
        }
        if ctx.state().bom_line_items.len() == 0 {
            match self.synthesize(ctx) {
                Ok(()) => {},
                Err(e) => {
                    return Err(e);
                },
            }
            proof {
                let s1 = ctx.state_value()@;
                assert(s1.bom_line_items.skip(0) =~= s1.bom_line_items);
            }
        } else {
            proof {
                lemma_extends_refl(ctx.log_value());
            }
        }
        let ghost l2 = ctx.log_value();
        let ir = match lower_bom(ctx) {
            Ok(ir) => ir,
            Err(e) => {
                return Err(e);
            },
        };
        let mut events: Vec<Event> = Vec::new();
        events.push(Event::BomIrProduced { schema_version: ir.schema_version, line_item_count: ir.line_items.len() });
        let ghost es = events@;
        let ghost sp = ctx.state_value()@;
        ctx.emit(events);
        proof {
            reveal_with_fuel(crate::state::fold_events, 2);
            assert(ctx.state_value()@ == sp);
            assert(ctx.log_value()[l2.len() + 0int].event == es[0]);
            assert(extends(l2, ctx.log_value())) by {
                assert(ctx.log_value().take(l2.len() as int) == l2);
            }
            lemma_extends_trans(l0, l2, ctx.log_value());
            assert(views(ir.line_items@).len() == ir.line_items@.len());
            assert(ctx.log_value().len() == l2.len() + 1);
        }
        Ok(StepResult::Done)
    }
}

impl Machine for BomPlanningMachine {
    open spec fn obeys_machine_spec() -> bool {
        true
    }

    open spec fn spec_name(&self) -> Seq<char> {
        "BomPlanning"@
    }

    open spec fn spec_initial(&self) -> Seq<char> {
        "Idle"@
    }

    open spec fn stepped(
        &self,
        next: &Self,
        state: Seq<char>,
        before: KernelView,
        after: KernelView,
        r: Result<StepResult, MachineError>,
    ) -> bool {
        phase_step(state, "Planning"@, before, after, r, bom_planned(before, after, r))
    }

    fn name(&self) -> (n: &str)
        ensures
            n@ == "BomPlanning"@,
    {
        "BomPlanning"
    }

    fn initial(&self) -> (s: String)
        ensures
            s@ == "Idle"@,
    {
        String::from_str("Idle")
    }

    fn step<E: ReasoningEngine>(&mut self, state: &str, ctx: &mut RuntimeCore<E>) -> (r: Result<
        StepResult,
        MachineError,
    >)
        ensures
            state@ == "Idle"@ ==> *final(ctx) == *old(ctx) && (r matches Ok(StepResult::Continue(n)) && n@
                == "Planning"@),
            state@ == "Planning"@ ==> bom_planned(old(ctx).kernel(), final(ctx).kernel(), r),
            state@ != "Idle"@ && state@ != "Planning"@ ==> *final(ctx) == *old(ctx) && (r matches Err(
                MachineError::Internal(m),
            ) && m@ == crate::checks::unknown_state_text(state@)),
    {
        proof {
            lemma_extends_refl(ctx.log_value());
            reveal_strlit("Idle");
            reveal_strlit("Planning");
            assert("Idle"@.len() != "Planning"@.len());
        }
        if str_equal(state, "Idle") {
            Ok(StepResult::Continue(String::from_str("Planning")))
        } else if str_equal(state, "Planning") {
            self.plan(ctx)
        } else {
            Err(crate::checks::unknown_state(state))
        }
    }
}

} // verus!
