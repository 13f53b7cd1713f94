//! Schematic Planning: realizes each functional block as a component with a fixed pin
//! template, joins the power and ground pins into nets, and projects the Schematic IR.
//! It makes no reasoning call, so a replay is identical. A re-entry after components
//! exist commits nothing and only re-projects.

use vstd::prelude::*;
use crate::domain::{
    Component, ComponentClass, EntityId, FunctionalBlock, FunctionalBlockView, Net, NetClass, Pin,
    PinElectricalType, ProvenanceLink, RelationType, Requirement, RequirementCategory,
    RequirementView,
};
use crate::lookup::{by_id, find_by_id, first_where, has_id, HasId, lemma_first_where_at, lemma_first_where_none};
use crate::effects::{add_links, lemma_component_pins_links, lemma_entity_then_links, pin_events};
use crate::fsm::{extends, lemma_extends_refl, lemma_extends_trans, phase_step, Machine, MachineError, StepResult};
use crate::ports::{Event, ReasoningEngine};
use crate::protocol::{link_events, request_events, CapabilityRequest};
use crate::runtime::{KernelView, RuntimeCore};
use crate::state::{apply_event, StateModel};
use crate::state::views;
use crate::text::{contains_text, decimal, decimal_text, lowercased, str_contains, str_equal, to_lowercase};
use crate::lowering::schematic_stage;
use crate::agents::derives;

verus! {

pub open spec fn req_has_id(id: EntityId) -> spec_fn(RequirementView) -> bool {
    |r: RequirementView| r.id == id
}

/// The requirement a block is primarily realizing: the first requirement carrying the
/// block's first requirement id.
pub open spec fn primary_requirement(b: FunctionalBlockView, reqs: Seq<RequirementView>) -> Option<RequirementView> {
    if b.requirements.len() == 0 {
        None
    } else {
        match first_where(reqs, req_has_id(b.requirements[0])) {
            Some(i) => Some(reqs[i]),
            None => None,
        }
    }
}

/// Wording that names a regulation concept.
pub open spec fn regulator_cue(s: Seq<char>) -> bool {
    contains_text(s, "regulator"@) || contains_text(s, "ldo"@) || contains_text(s, "voltage regulation"@)
}

/// Wording that names a power-entry concept.
pub open spec fn source_cue(s: Seq<char>) -> bool {
    contains_text(s, "usb"@) || contains_text(s, "power"@) || contains_text(s, "connector"@)
        || contains_text(s, "supply"@)
}

/// A block is a regulator when its primary requirement's lower-cased wording names
/// regulation; otherwise a power-entry connector when that requirement is functional and
/// names power entry; otherwise an IC load.
pub open spec fn classify_spec(b: FunctionalBlockView, reqs: Seq<RequirementView>) -> ComponentClass {
    match primary_requirement(b, reqs) {
        None => ComponentClass::Ic,
        Some(r) => class_named(lowercased(r.statement@), r.category),
    }
}

/// The class lower-case wording of a requirement in `category` names: a regulator when it
/// names regulation; otherwise a power-entry connector when the requirement is functional
/// and names power entry; otherwise an IC load.
pub open spec fn class_named(l: Seq<char>, category: RequirementCategory) -> ComponentClass {
    if regulator_cue(l) {
        ComponentClass::Regulator
    } else if category == RequirementCategory::Functional && source_cue(l) {
        ComponentClass::Connector
    } else {
        ComponentClass::Ic
    }
}

/// Classifies already lower-cased requirement wording of the given category.
pub fn class_from_lowered(st: &str, category: RequirementCategory) -> (c: ComponentClass)
    ensures
        c == class_named(st@, category),
{
    if str_contains(st, "regulator") || str_contains(st, "ldo") || str_contains(st, "voltage regulation") {
        return ComponentClass::Regulator;
    }
    if category == RequirementCategory::Functional && (str_contains(st, "usb") || str_contains(st, "power")
        || str_contains(st, "connector") || str_contains(st, "supply")) {
        return ComponentClass::Connector;
    }
    ComponentClass::Ic
}

fn first_requirement<'a>(reqs: &'a Vec<Requirement>, id: EntityId) -> (r: Option<&'a Requirement>)
    ensures
        match r {
            Some(q) => first_where(views(reqs@), req_has_id(id)) matches Some(i) && views(reqs@)[i] == q@,
            None => first_where(views(reqs@), req_has_id(id)) is None,
        },
{
    let ghost v = views(reqs@);
    let n = reqs.len();
    let mut i: usize = 0;
    while i < n
        invariant
            n == reqs@.len(),
            v == views(reqs@),
            i <= n,
            forall|j: int| 0 <= j < i ==> !req_has_id(id)(#[trigger] v[j]),
        decreases n - i,
    {
        if reqs[i].id == id {
            proof {
                assert(req_has_id(id)(v[i as int]));
                lemma_first_where_at(v, req_has_id(id), i as int);
            }
            return Some(&reqs[i]);
        }
        i = i + 1;
    }
    proof {
        lemma_first_where_none(v, req_has_id(id));
    }
    None
}

/// Classifies a block into a component class from its primary requirement.
pub fn classify(block: &FunctionalBlock, reqs: &Vec<Requirement>) -> (c: ComponentClass)
    ensures
        c == classify_spec(block@, views(reqs@)),
{
    if block.requirements.len() == 0 {
        return ComponentClass::Ic;
    }
    let primary = first_requirement(reqs, block.requirements[0]);
    match primary {
        None => ComponentClass::Ic,
        Some(r) => {
            let s = to_lowercase(r.statement.as_str());
            class_from_lowered(s.as_str(), r.category)
        },
    }
}

/// The reference-designator family of a class: connectors, regulators, and everything
/// else as an IC.
pub open spec fn family(c: ComponentClass) -> nat {
    match c {
        ComponentClass::Connector => 0,
        ComponentClass::Regulator => 1,
        _ => 2,
    }
}

pub open spec fn family_prefix(c: ComponentClass) -> Seq<char> {
    match c {
        ComponentClass::Connector => "J"@,
        ComponentClass::Regulator => "VR"@,
        _ => "U"@,
    }
}

/// How many of `cs` fall in family `f`.
pub open spec fn family_count(cs: Seq<ComponentClass>, f: nat) -> nat
    decreases cs.len(),
{
    if cs.len() == 0 {
        0
    } else {
        family_count(cs.drop_last(), f) + if family(cs.last()) == f { 1nat } else { 0nat }
    }
}

/// The reference designator of the `i`-th component: its family prefix and its
/// one-based rank within the family.
pub open spec fn refdes_of(cs: Seq<ComponentClass>, i: int) -> Seq<char> {
    family_prefix(cs[i]) + decimal(family_count(cs.take(i), family(cs[i])) + 1)
}

/// Realizes functional blocks as components and joins their power pins into nets.
pub struct SchematicPlanningMachine;

impl SchematicPlanningMachine {
    pub fn new() -> Self {
        SchematicPlanningMachine
    }
}

/// The fixed pin template of a class: designation and electrical type, in order.
pub open spec fn template(c: ComponentClass) -> Seq<(Seq<char>, PinElectricalType)> {
    match c {
        ComponentClass::Connector => seq![("VBUS"@, PinElectricalType::PowerOut), ("GND"@, PinElectricalType::Ground)],
        ComponentClass::Regulator => seq![
            ("VIN"@, PinElectricalType::PowerIn),
            ("VOUT"@, PinElectricalType::PowerOut),
            ("GND"@, PinElectricalType::Ground),
        ],
        ComponentClass::Ic => seq![("VDD"@, PinElectricalType::PowerIn), ("GND"@, PinElectricalType::Ground)],
        _ => seq![("1"@, PinElectricalType::Passive), ("2"@, PinElectricalType::Passive)],
    }
}

/// The pin template of a class.
pub fn pin_template(c: ComponentClass) -> (v: Vec<(&'static str, PinElectricalType)>)
    ensures
        v@.len() == template(c).len(),
        forall|i: int| 0 <= i < v@.len() ==> (#[trigger] v@[i]).0@ == template(c)[i].0 && v@[i].1 == template(c)[i].1,
{
    let mut v: Vec<(&'static str, PinElectricalType)> = Vec::new();
    match c {
        ComponentClass::Connector => {
            v.push(("VBUS", PinElectricalType::PowerOut));
            v.push(("GND", PinElectricalType::Ground));
        },
        ComponentClass::Regulator => {
            v.push(("VIN", PinElectricalType::PowerIn));
            v.push(("VOUT", PinElectricalType::PowerOut));
            v.push(("GND", PinElectricalType::Ground));
        },
        ComponentClass::Ic => {
            v.push(("VDD", PinElectricalType::PowerIn));
            v.push(("GND", PinElectricalType::Ground));
        },
        _ => {
            v.push(("1", PinElectricalType::Passive));
            v.push(("2", PinElectricalType::Passive));
        },
    }
    v
}

/// A pin's shape: its component, designation and electrical type.
pub open spec fn pin_shape(p: Pin) -> (EntityId, Seq<char>, PinElectricalType) {
    (p.component, p.designation@, p.electrical_type)
}

pub open spec fn pin_shapes(ps: Seq<Pin>) -> Seq<(EntityId, Seq<char>, PinElectricalType)> {
    ps.map_values(|p: Pin| pin_shape(p))
}

/// The pins a component is realized with: its class template, owned by the component.
pub open spec fn templated(c: Component) -> Seq<(EntityId, Seq<char>, PinElectricalType)> {
    template(c.class).map_values(|t: (Seq<char>, PinElectricalType)| (c.id, t.0, t.1))
}

/// The pins of a list of components, component by component.
pub open spec fn templated_all(cs: Seq<Component>) -> Seq<(EntityId, Seq<char>, PinElectricalType)>
    decreases cs.len(),
{
    if cs.len() == 0 {
        Seq::empty()
    } else {
        templated_all(cs.drop_last()) + templated(cs.last())
    }
}

pub open spec fn block_classes(blocks: Seq<FunctionalBlockView>, reqs: Seq<RequirementView>) -> Seq<ComponentClass> {
    blocks.map_values(|b: FunctionalBlockView| classify_spec(b, reqs))
}

/// `cs` realizes the blocks: one component per block, in order, of the block's class,
/// minted from it, with its reference designator and no value.
pub open spec fn realizes(cs: Seq<Component>, blocks: Seq<FunctionalBlockView>, classes: Seq<ComponentClass>) -> bool {
    &&& cs.len() == blocks.len()
    &&& classes.len() == blocks.len()
    &&& forall|i: int|
        0 <= i < cs.len() ==> (#[trigger] cs[i]).class == classes[i] && cs[i].from_block == blocks[i].id
            && cs[i].refdes@ == refdes_of(classes, i) && cs[i].value is None
}

/// Some link in `s` records that `child` was derived from `source`.
pub open spec fn derived(s: StateModel, child: EntityId, source: EntityId) -> bool {
    exists|j: int| 0 <= j < s.links.len() && derives(#[trigger] s.links[j], child, source)
}

/// Each of `cs` is recorded in `s` as derived from the block at the same place.
pub open spec fn all_derived(s: StateModel, cs: Seq<Component>, blocks: Seq<FunctionalBlockView>) -> bool {
    forall|k: int| 0 <= k < cs.len() ==> derived(s, (#[trigger] cs[k]).id, blocks[k].id)
}

pub open spec fn realize_refusal_text() -> Seq<char> {
    "capability rejected: component has no originating functional block"@
}

proof fn lemma_family_step(cs: Seq<ComponentClass>, i: int, f: nat)
    requires
        0 <= i < cs.len(),
    ensures
        family_count(cs.take(i + 1), f) == family_count(cs.take(i), f) + if family(cs[i]) == f { 1nat } else { 0nat },
{
    assert(cs.take(i + 1).drop_last() =~= cs.take(i));
}

proof fn lemma_family_bound(cs: Seq<ComponentClass>, f: nat)
    ensures
        family_count(cs, f) <= cs.len(),
    decreases cs.len(),
{
    if cs.len() > 0 {
        lemma_family_bound(cs.drop_last(), f);
    }
}

fn make_refdes(c: ComponentClass, rank: u64) -> (s: String)
    requires
        rank < u64::MAX,
    ensures
        s@ == family_prefix(c) + decimal((rank + 1) as nat),
        !crate::text::is_blank(s@),
{
    let digits = decimal_text(rank + 1);
    let s = match c {
        ComponentClass::Connector => String::from_str("J").concat(digits.as_str()),
        ComponentClass::Regulator => String::from_str("VR").concat(digits.as_str()),
        _ => String::from_str("U").concat(digits.as_str()),
    };
    proof {
        reveal_strlit("J");
        reveal_strlit("VR");
        reveal_strlit("U");
        assert(s@[0] == family_prefix(c)[0]);
        assert(!crate::text::is_white_space(s@[0]));
    }
    s
}

fn make_pins<E: ReasoningEngine>(ctx: &mut RuntimeCore<E>, cid: EntityId, c: ComponentClass) -> (pins: Vec<Pin>)
    requires
        old(ctx).wf(),
    ensures
        final(ctx).wf(),
        final(ctx).state_value() == old(ctx).state_value(),
        final(ctx).log_value() == old(ctx).log_value(),
        final(ctx).autonomy_value() == old(ctx).autonomy_value(),
        pin_shapes(pins@) == template(c).map_values(|t: (Seq<char>, PinElectricalType)| (cid, t.0, t.1)),
        pins@.len() > 0,
{
    let specs = pin_template(c);
    let mut pins: Vec<Pin> = Vec::new();
    let n = specs.len();
    let mut i: usize = 0;
    while i < n
        invariant
            ctx.wf(),
            ctx.state_value() == old(ctx).state_value(),
            ctx.log_value() == old(ctx).log_value(),
            ctx.autonomy_value() == old(ctx).autonomy_value(),
            n == specs@.len(),
            n == template(c).len(),
            forall|k: int| 0 <= k < n ==> (#[trigger] specs@[k]).0@ == template(c)[k].0 && specs@[k].1 == template(c)[k].1,
            i <= n,
            pin_shapes(pins@) == template(c).take(i as int).map_values(|t: (Seq<char>, PinElectricalType)| (cid, t.0, t.1)),
        decreases n - i,
    {
        let id = ctx.fresh_id();
        let (designation, electrical_type) = specs[i];
        let d = String::from_str(designation);
        let p = Pin { id, component: cid, designation: d, electrical_type };
        let ghost before = pins@;
        pins.push(p);
        proof {
            assert(d@ == template(c)[i as int].0);
            assert(pins@ == before.push(p));
            assert(pin_shapes(pins@) =~= pin_shapes(before).push(pin_shape(p)));
            assert(template(c).take(i + 1) =~= template(c).take(i as int).push(template(c)[i as int]));
            assert(pin_shapes(pins@) =~= template(c).take(i + 1).map_values(|t: (Seq<char>, PinElectricalType)| (cid, t.0, t.1)));
        }
        i = i + 1;
    }
    proof {
        assert(template(c).take(n as int) =~= template(c));
    }
    pins
}

impl SchematicPlanningMachine {
    /// Realizes every block, in order, as a component of its class with its reference
    /// designator and pin template, traced to its block.
    fn realize<E: ReasoningEngine>(&self, ctx: &mut RuntimeCore<E>) -> (r: Result<(), MachineError>)
        requires
            old(ctx).wf(),
        ensures
            final(ctx).wf(),
            extends(old(ctx).log_value(), final(ctx).log_value()),
            final(ctx).autonomy_value() == old(ctx).autonomy_value(),
            final(ctx).state_value()@.functional_blocks == old(ctx).state_value()@.functional_blocks,
            final(ctx).state_value()@.nets == old(ctx).state_value()@.nets,
            (forall|k: int| 0 <= k < old(ctx).state_value()@.functional_blocks.len()
                ==> (#[trigger] old(ctx).state_value()@.functional_blocks[k]).id.0 != 0) ==> r is Ok,
            r matches Err(MachineError::Internal(m)) ==> m@ == realize_refusal_text(),
            r is Ok ==> {
                let s0 = old(ctx).state_value()@;
                let s1 = final(ctx).state_value()@;
                let n0 = s0.components.len();
                let p0 = s0.pins.len();
                &&& s1.components.take(n0 as int) == s0.components
                &&& realizes(
                    s1.components.skip(n0 as int),
                    s0.functional_blocks,
                    block_classes(s0.functional_blocks, s0.requirements),
                )
                &&& s1.pins.take(p0 as int) == s0.pins
                &&& pin_shapes(s1.pins.skip(p0 as int)) == templated_all(s1.components.skip(n0 as int))
                &&& all_derived(s1, s1.components.skip(n0 as int), s0.functional_blocks)
            },
    {
        let ghost s0 = ctx.state_value()@;
        let blocks = ctx.functional_blocks();
        let reqs = ctx.requirements();
        let ghost bv = views(blocks@);
        let ghost classes = block_classes(bv, views(reqs@));
        proof {
            lemma_extends_refl(ctx.log_value());
            assert(ctx.state_value()@.components.skip(s0.components.len() as int) =~= Seq::<Component>::empty());
            assert(ctx.state_value()@.pins.skip(s0.pins.len() as int) =~= Seq::<Pin>::empty());
            assert(ctx.state_value()@.components.take(s0.components.len() as int) =~= s0.components);
            assert(ctx.state_value()@.pins.take(s0.pins.len() as int) =~= s0.pins);
            assert(pin_shapes(Seq::<Pin>::empty()) =~= Seq::empty());
        }
        let mut connectors: u64 = 0;
        let mut regulators: u64 = 0;
        let mut ics: u64 = 0;
        let n = blocks.len();
        let mut i: usize = 0;
        while i < n
            invariant
                ctx.wf(),
                extends(old(ctx).log_value(), ctx.log_value()),
                ctx.autonomy_value() == old(ctx).autonomy_value(),
                s0 == old(ctx).state_value()@,
                n == blocks@.len(),
                bv == views(blocks@),
                bv == s0.functional_blocks,
                views(reqs@) == s0.requirements,
                classes == block_classes(bv, views(reqs@)),
                i <= n,
                ctx.state_value()@.functional_blocks == s0.functional_blocks,
                ctx.state_value()@.nets == s0.nets,
                connectors == family_count(classes.take(i as int), 0),
                regulators == family_count(classes.take(i as int), 1),
                ics == family_count(classes.take(i as int), 2),
                connectors <= i && regulators <= i && ics <= i,
                ctx.state_value()@.components.len() == s0.components.len() + i,
                ctx.state_value()@.components.take(s0.components.len() as int) == s0.components,
                ctx.state_value()@.pins.take(s0.pins.len() as int) == s0.pins,
                ctx.state_value()@.pins.len() >= s0.pins.len(),
                forall|k: int|
                    0 <= k < i ==> (#[trigger] ctx.state_value()@.components[s0.components.len() + k]).class == classes[k]
                        && ctx.state_value()@.components[s0.components.len() + k].from_block == bv[k].id
                        && ctx.state_value()@.components[s0.components.len() + k].refdes@ == refdes_of(classes, k)
                        && ctx.state_value()@.components[s0.components.len() + k].value is None,
                pin_shapes(ctx.state_value()@.pins.skip(s0.pins.len() as int)) == templated_all(
                    ctx.state_value()@.components.skip(s0.components.len() as int),
                ),
                forall|k: int|
                    0 <= k < i ==> derived(
                        ctx.state_value()@,
                        (#[trigger] ctx.state_value()@.components[s0.components.len() + k]).id,
                        bv[k].id,
                    ),
            decreases n - i,
        {
            let block = &blocks[i];
            let class = classify(block, &reqs);
            proof {
                assert(classes[i as int] == class);
                lemma_family_step(classes, i as int, 0);
                lemma_family_step(classes, i as int, 1);
                lemma_family_step(classes, i as int, 2);
            }
            let refdes = match class {
                ComponentClass::Connector => {
                    let r = make_refdes(class, connectors);
                    connectors = connectors + 1;
                    r
                },
                ComponentClass::Regulator => {
                    let r = make_refdes(class, regulators);
                    regulators = regulators + 1;
                    r
                },
                _ => {
                    let r = make_refdes(class, ics);
                    ics = ics + 1;
                    r
                },
            };
            let ghost rd = refdes@;
            let ghost before_log = ctx.log_value();
            let ghost before = ctx.state_value()@;
            let cid = ctx.fresh_id();
            let component = Component { id: cid, refdes, class, value: None, from_block: block.id };
            let pins = make_pins(ctx, cid, class);
            let lid = ctx.fresh_id();
            let mut links: Vec<ProvenanceLink> = Vec::new();
            links.push(ProvenanceLink { id: lid, from: cid, to: block.id, relation: RelationType::DerivedFrom });
            let ghost comp = component;
            let ghost pv = pins@;
            let ghost lv = links@;
            let req = CapabilityRequest::RealizeComponent { component, pins, links };
            proof {
                assert(bv[i as int].id == block.id);
                assert(ctx.state_value().functional_blocks@[i as int]@.id == block.id);
                if block.id.0 != 0 {
                    assert(has_id(ctx.state_value().functional_blocks@, block.id)) by {
                        assert(ctx.state_value().functional_blocks@[i as int].id_of() == block.id);
                    }
                }
            }
            match ctx.invoke(req, Ok(())) {
                Ok(_) => {
                    proof {
                        let e = Event::ComponentCommitted { component: comp };
                        assert(request_events(req) == seq![e] + pin_events(pv) + link_events(lv));
                        lemma_component_pins_links(before, e, pv, lv);
                        let after = ctx.state_value()@;
                        assert(after.components == before.components.push(comp));
                        assert(after.pins == before.pins + pv);
                        let k0 = s0.components.len() as int;
                        let q0 = s0.pins.len() as int;
                        assert(after.components.take(k0) =~= s0.components) by {
                            assert(before.components.take(k0) == s0.components);
                        }
                        assert(after.pins.take(q0) =~= s0.pins) by {
                            assert(before.pins.take(q0) == s0.pins);
                        }
                        assert(after.components.skip(k0).drop_last() =~= before.components.skip(k0));
                        assert(after.components.skip(k0).last() == comp);
                        assert(pin_shapes(after.pins.skip(q0)) =~= pin_shapes(before.pins.skip(q0)) + pin_shapes(pv));
                        assert(templated(comp) =~= template(class).map_values(|t: (Seq<char>, PinElectricalType)| (cid, t.0, t.1)));
                        assert(rd == refdes_of(classes, i as int));
                        assert forall|k: int| 0 <= k < i + 1 implies (#[trigger] after.components[k0 + k]).class == classes[k]
                            && after.components[k0 + k].from_block == bv[k].id
                            && after.components[k0 + k].refdes@ == refdes_of(classes, k)
                            && after.components[k0 + k].value is None by {
                            if k < i {
                                assert(after.components[k0 + k] == before.components[k0 + k]);
                            }
                        }
                        assert(after.links == before.links + lv);
                        assert(derives(after.links[before.links.len() as int], cid, block.id));
                        assert forall|k: int| 0 <= k < i + 1 implies derived(
                            after,
                            (#[trigger] after.components[k0 + k]).id,
                            bv[k].id,
                        ) by {
                            if k < i {
                                assert(after.components[k0 + k] == before.components[k0 + k]);
                                let j = choose|j: int| 0 <= j < before.links.len() && derives(
                                    #[trigger] before.links[j],
                                    before.components[k0 + k].id,
                                    bv[k].id,
                                );
                                assert(after.links[j] == before.links[j]);
                            } else {
                                assert(after.links[before.links.len() as int] == lv[0]);
                            }
                        }
                        lemma_family_bound(classes.take(i + 1), 0);
                        lemma_family_bound(classes.take(i + 1), 1);
                        lemma_family_bound(classes.take(i + 1), 2);
                        assert(extends(before_log, ctx.log_value())) by {
                            assert(ctx.log_value().take(before_log.len() as int) == before_log);
                        }
                        lemma_extends_trans(old(ctx).log_value(), before_log, ctx.log_value());
                    }
                },
                Err(e) => {
                    proof {
                        assert(block.id.0 == 0);
                        reveal_strlit("capability rejected: ");
                        reveal_strlit("component has no originating functional block");
                        reveal_strlit("capability rejected: component has no originating functional block");
                    }
                    let m = e.message();
                    proof {
                        assert(m@ =~= realize_refusal_text());
                    }
                    return Err(MachineError::Internal(m));
                },
            }
            i = i + 1;
        }
        proof {
            let s1 = ctx.state_value()@;
            let k0 = s0.components.len() as int;
            assert(classes.len() == n);
            assert forall|k: int| 0 <= k < n implies (#[trigger] s1.components.skip(k0)[k]).class == classes[k]
                && s1.components.skip(k0)[k].from_block == bv[k].id
                && s1.components.skip(k0)[k].refdes@ == refdes_of(classes, k)
                && s1.components.skip(k0)[k].value is None by {
                assert(s1.components.skip(k0)[k] == s1.components[k0 + k]);
            }
            assert forall|k: int| 0 <= k < s1.components.skip(k0).len() implies derived(
                s1,
                (#[trigger] s1.components.skip(k0)[k]).id,
                s0.functional_blocks[k].id,
            ) by {
                assert(s1.components.skip(k0)[k] == s1.components[k0 + k]);
            }
        }
        Ok(())
    }
}

/// The power and ground rails a schematic's pins are joined into.
#[derive(Clone, Copy, PartialEq, Eq, Structural)]
pub enum Rail {
    Vbus,
    Vout,
    Ground,
}

/// The class of the component a pin belongs to.
pub open spec fn class_of(comps: Seq<Component>, p: Pin) -> Option<ComponentClass> {
    match by_id(comps, p.component) {
        Some(c) => Some(c.class),
        None => None,
    }
}

pub open spec fn has_regulator(comps: Seq<Component>) -> bool {
    exists|i: int| 0 <= i < comps.len() && (#[trigger] comps[i]).class == ComponentClass::Regulator
}

/// Whether a pin joins a rail. With a regulator, the input rail joins the source's
/// drivers and the regulator's inputs, and the output rail joins the regulator's drivers
/// and every other consumer; without one, a single rail joins every power pin. Ground
/// joins every ground pin.
pub open spec fn on_rail(rail: Rail, comps: Seq<Component>, regulated: bool, p: Pin) -> bool {
    match rail {
        Rail::Vbus => if regulated {
            (p.electrical_type == PinElectricalType::PowerOut && class_of(comps, p) == Some(ComponentClass::Connector))
                || (p.electrical_type == PinElectricalType::PowerIn && class_of(comps, p) == Some(
                ComponentClass::Regulator,
            ))
        } else {
            p.electrical_type == PinElectricalType::PowerOut || p.electrical_type == PinElectricalType::PowerIn
        },
        Rail::Vout => (p.electrical_type == PinElectricalType::PowerOut && class_of(comps, p) == Some(
            ComponentClass::Regulator,
        )) || (p.electrical_type == PinElectricalType::PowerIn && class_of(comps, p) != Some(
            ComponentClass::Regulator,
        )),
        Rail::Ground => p.electrical_type == PinElectricalType::Ground,
    }
}

/// The ids of the pins on a rail, in pin order.
pub open spec fn rail_ids(pins: Seq<Pin>, comps: Seq<Component>, rail: Rail, regulated: bool) -> Seq<EntityId>
    decreases pins.len(),
{
    if pins.len() == 0 {
        Seq::empty()
    } else {
        let rest = rail_ids(pins.drop_last(), comps, rail, regulated);
        if on_rail(rail, comps, regulated, pins.last()) {
            rest.push(pins.last().id)
        } else {
            rest
        }
    }
}

pub open spec fn if_members(name: Seq<char>, class: NetClass, members: Seq<EntityId>) -> Seq<(Seq<char>, NetClass, Seq<EntityId>)> {
    if members.len() > 0 {
        seq![(name, class, members)]
    } else {
        Seq::empty()
    }
}

/// The nets the schematic's pins are joined into, in commit order: the input rail, the
/// output rail when a regulator is present, then ground; an empty rail is not committed.
pub open spec fn planned_nets(pins: Seq<Pin>, comps: Seq<Component>) -> Seq<(Seq<char>, NetClass, Seq<EntityId>)> {
    let reg = has_regulator(comps);
    if_members("VBUS"@, NetClass::Power, rail_ids(pins, comps, Rail::Vbus, reg)) + (if reg {
        if_members("VOUT"@, NetClass::Power, rail_ids(pins, comps, Rail::Vout, reg))
    } else {
        Seq::empty()
    }) + if_members("GND"@, NetClass::Ground, rail_ids(pins, comps, Rail::Ground, reg))
}

proof fn lemma_first_component_exists(comps: Seq<Component>, id: EntityId, k: int)
    requires
        0 <= k < comps.len(),
        comps[k].id == id,
    ensures
        exists|i: int| crate::lookup::first_with_id(comps, id, i),
    decreases k,
{
    if exists|j: int| 0 <= j < k && (#[trigger] comps[j]).id == id {
        let j = choose|j: int| 0 <= j < k && (#[trigger] comps[j]).id == id;
        lemma_first_component_exists(comps, id, j);
    } else {
        assert(crate::lookup::first_with_id(comps, id, k));
    }
}

/// The class a pin's component lookup yields is the class of some component carrying
/// the pin's component id, and there is one exactly when some component carries it.
proof fn lemma_class_of_source(comps: Seq<Component>, p: Pin)
    ensures
        class_of(comps, p) is Some <==> exists|c: int| 0 <= c < comps.len() && (#[trigger] comps[c]).id == p.component,
        class_of(comps, p) matches Some(cl) ==> exists|c: int|
            0 <= c < comps.len() && (#[trigger] comps[c]).id == p.component && comps[c].class == cl,
{
    if exists|c: int| 0 <= c < comps.len() && (#[trigger] comps[c]).id == p.component {
        let c = choose|c: int| 0 <= c < comps.len() && (#[trigger] comps[c]).id == p.component;
        assert(comps[c].id_of() == p.component);
        assert(has_id(comps, p.component));
        lemma_first_component_exists(comps, p.component, c);
        let i = choose|i: int| crate::lookup::first_with_id(comps, p.component, i);
        crate::lookup::lemma_by_id_at(comps, p.component, i);
        assert(comps[i].id == p.component);
    } else {
        assert(!has_id(comps, p.component)) by {
            if has_id(comps, p.component) {
                let i = choose|i: int| 0 <= i < comps.len() && (#[trigger] comps[i]).id_of() == p.component;
                assert(comps[i].id == p.component);
            }
        }
    }
}

/// Every id on a rail is the id of some pin.
proof fn lemma_rail_ids_from_pins(pins: Seq<Pin>, comps: Seq<Component>, rail: Rail, regulated: bool, x: EntityId)
    requires
        rail_ids(pins, comps, rail, regulated).contains(x),
    ensures
        exists|j: int| 0 <= j < pins.len() && (#[trigger] pins[j]).id == x,
    decreases pins.len(),
{
    let q = pins.drop_last();
    let rest = rail_ids(q, comps, rail, regulated);
    if rest.contains(x) {
        lemma_rail_ids_from_pins(q, comps, rail, regulated, x);
        let j = choose|j: int| 0 <= j < q.len() && (#[trigger] q[j]).id == x;
        assert(pins[j] == q[j]);
    } else {
        let n = pins.len() - 1;
        assert(pins[n] == pins.last());
    }
}

/// With distinct pin ids, a pin's id is on a rail exactly when the pin joins that rail.
proof fn lemma_rail_membership(pins: Seq<Pin>, comps: Seq<Component>, rail: Rail, regulated: bool, j: int)
    requires
        0 <= j < pins.len(),
        forall|a: int, b: int| 0 <= a < b < pins.len() ==> (#[trigger] pins[a]).id != (#[trigger] pins[b]).id,
    ensures
        rail_ids(pins, comps, rail, regulated).contains(pins[j].id) <==> on_rail(rail, comps, regulated, pins[j]),
    decreases pins.len(),
{
    let q = pins.drop_last();
    let n = pins.len() - 1;
    let rest = rail_ids(q, comps, rail, regulated);
    assert(pins.last() == pins[n]);
    if j < n {
        assert(q[j] == pins[j]);
        assert forall|a: int, b: int| 0 <= a < b < q.len() implies (#[trigger] q[a]).id != (#[trigger] q[b]).id by {
            assert(q[a] == pins[a] && q[b] == pins[b]);
        }
        lemma_rail_membership(q, comps, rail, regulated, j);
        assert(pins[n].id != pins[j].id);
        if on_rail(rail, comps, regulated, pins[n]) {
            assert(rail_ids(pins, comps, rail, regulated) == rest.push(pins[n].id));
            assert(rest.push(pins[n].id).contains(pins[j].id) ==> rest.contains(pins[j].id)) by {
                if rest.push(pins[n].id).contains(pins[j].id) {
                    let k = choose|k: int| 0 <= k < rest.len() + 1 && rest.push(pins[n].id)[k] == pins[j].id;
                    assert(k < rest.len());
                    assert(rest[k] == pins[j].id);
                }
            }
            if rest.contains(pins[j].id) {
                let k = choose|k: int| 0 <= k < rest.len() && rest[k] == pins[j].id;
                assert(rest.push(pins[n].id)[k] == pins[j].id);
            }
        }
    } else {
        if rest.contains(pins[j].id) {
            lemma_rail_ids_from_pins(q, comps, rail, regulated, pins[j].id);
            let a = choose|a: int| 0 <= a < q.len() && (#[trigger] q[a]).id == pins[j].id;
            assert(q[a] == pins[a]);
            assert(pins[a].id != pins[n].id);
        }
        if on_rail(rail, comps, regulated, pins[n]) {
            assert(rest.push(pins[n].id)[rest.len() as int] == pins[j].id);
        }
    }
}

/// Where a planned rail with `name` holds `x` among its members.
pub open spec fn rail_holds(nets: Seq<(Seq<char>, NetClass, Seq<EntityId>)>, name: Seq<char>, x: EntityId) -> bool {
    exists|n: int| 0 <= n < nets.len() && (#[trigger] nets[n]).0 == name && nets[n].2.contains(x)
}

/// How schematic planning wires power when a regulator is present (the nets it commits
/// are exactly `planned_nets` of its pins and components): every `PowerIn` pin of a
/// component that is not a regulator (an IC's supply) joins the regulated "VOUT" net and
/// not the unregulated "VBUS" net; every `PowerIn` pin of a regulator (its input) joins
/// "VBUS" and not "VOUT"; every `PowerOut` pin of a regulator joins "VOUT"; and every
/// `PowerOut` pin of a connector (the source) joins "VBUS".
pub proof fn lemma_regulated_rails_law(pins: Seq<Pin>, comps: Seq<Component>)
    requires
        forall|a: int, b: int| 0 <= a < b < pins.len() ==> (#[trigger] pins[a]).id != (#[trigger] pins[b]).id,
        exists|c: int| 0 <= c < comps.len() && (#[trigger] comps[c]).class == ComponentClass::Regulator,
    ensures
        forall|j: int| #![trigger pins[j]] 0 <= j < pins.len() && pins[j].electrical_type == PinElectricalType::PowerIn
            && (forall|c: int| #![trigger comps[c]] 0 <= c < comps.len() && comps[c].id == pins[j].component
                ==> comps[c].class != ComponentClass::Regulator)
            ==> rail_holds(planned_nets(pins, comps), "VOUT"@, pins[j].id)
                && !rail_holds(planned_nets(pins, comps), "VBUS"@, pins[j].id),
        forall|j: int| #![trigger pins[j]] 0 <= j < pins.len() && pins[j].electrical_type == PinElectricalType::PowerIn
            && (exists|c: int| #![trigger comps[c]] 0 <= c < comps.len() && comps[c].id == pins[j].component)
            && (forall|c: int| #![trigger comps[c]] 0 <= c < comps.len() && comps[c].id == pins[j].component
                ==> comps[c].class == ComponentClass::Regulator)
            ==> rail_holds(planned_nets(pins, comps), "VBUS"@, pins[j].id)
                && !rail_holds(planned_nets(pins, comps), "VOUT"@, pins[j].id),
        forall|j: int| #![trigger pins[j]] 0 <= j < pins.len() && pins[j].electrical_type == PinElectricalType::PowerOut
            && (exists|c: int| #![trigger comps[c]] 0 <= c < comps.len() && comps[c].id == pins[j].component)
            && (forall|c: int| #![trigger comps[c]] 0 <= c < comps.len() && comps[c].id == pins[j].component
                ==> comps[c].class == ComponentClass::Regulator)
            ==> rail_holds(planned_nets(pins, comps), "VOUT"@, pins[j].id),
        forall|j: int| #![trigger pins[j]] 0 <= j < pins.len() && pins[j].electrical_type == PinElectricalType::PowerOut
            && (exists|c: int| #![trigger comps[c]] 0 <= c < comps.len() && comps[c].id == pins[j].component)
            && (forall|c: int| #![trigger comps[c]] 0 <= c < comps.len() && comps[c].id == pins[j].component
                ==> comps[c].class == ComponentClass::Connector)
            ==> rail_holds(planned_nets(pins, comps), "VBUS"@, pins[j].id),
{
    reveal_strlit("VBUS");
    reveal_strlit("VOUT");
    reveal_strlit("GND");
    assert(has_regulator(comps));
    let vb = rail_ids(pins, comps, Rail::Vbus, true);
    let vo = rail_ids(pins, comps, Rail::Vout, true);
    let gn = rail_ids(pins, comps, Rail::Ground, true);
    let na = if_members("VBUS"@, NetClass::Power, vb);
    let nb = if_members("VOUT"@, NetClass::Power, vo);
    let nc = if_members("GND"@, NetClass::Ground, gn);
    let pn = planned_nets(pins, comps);
    assert(pn == na + nb + nc);
    assert("VBUS"@ != "VOUT"@ && "VBUS"@ != "GND"@ && "VOUT"@ != "GND"@) by {
        assert("VBUS"@[1] != "VOUT"@[1]);
    }
    // A named entry of the planned nets carries that rail's members.
    assert forall|x: EntityId| rail_holds(pn, "VBUS"@, x) <==> vb.contains(x) by {
        if vb.contains(x) {
            assert(pn[0] == na[0]);
        }
        if rail_holds(pn, "VBUS"@, x) {
            let n = choose|n: int| 0 <= n < pn.len() && (#[trigger] pn[n]).0 == "VBUS"@ && pn[n].2.contains(x);
            if n < na.len() {
                assert(pn[n] == na[n]);
            } else if n < na.len() + nb.len() {
                assert(pn[n] == nb[n - na.len()]);
            } else {
                assert(pn[n] == nc[n - na.len() - nb.len()]);
            }
        }
    }
    assert forall|x: EntityId| rail_holds(pn, "VOUT"@, x) <==> vo.contains(x) by {
        if vo.contains(x) {
            assert(pn[na.len() as int] == nb[0]);
        }
        if rail_holds(pn, "VOUT"@, x) {
            let n = choose|n: int| 0 <= n < pn.len() && (#[trigger] pn[n]).0 == "VOUT"@ && pn[n].2.contains(x);
            if n < na.len() {
                assert(pn[n] == na[n]);
            } else if n < na.len() + nb.len() {
                assert(pn[n] == nb[n - na.len()]);
            } else {
                assert(pn[n] == nc[n - na.len() - nb.len()]);
            }
        }
    }
    assert forall|j: int| #![trigger pins[j]] 0 <= j < pins.len() implies
        (vb.contains(pins[j].id) <==> on_rail(Rail::Vbus, comps, true, pins[j]))
        && (vo.contains(pins[j].id) <==> on_rail(Rail::Vout, comps, true, pins[j]))
        && (class_of(comps, pins[j]) is Some <==> exists|c: int| 0 <= c < comps.len() && (#[trigger] comps[c]).id == pins[j].component)
        && (class_of(comps, pins[j]) matches Some(cl) ==> exists|c: int|
            0 <= c < comps.len() && (#[trigger] comps[c]).id == pins[j].component && comps[c].class == cl) by {
        lemma_rail_membership(pins, comps, Rail::Vbus, true, j);
        lemma_rail_membership(pins, comps, Rail::Vout, true, j);
        lemma_class_of_source(comps, pins[j]);
    }
}

/// How schematic planning wires power without a regulator, and ground in every design
/// (the nets it commits are exactly `planned_nets`): with no regulator every `PowerIn` and
/// `PowerOut` pin joins the single "VBUS" net and no "VOUT" net is planned; in every
/// design a pin joins the "GND" net exactly when it is a `Ground` pin.
pub proof fn lemma_single_rail_and_ground_law(pins: Seq<Pin>, comps: Seq<Component>)
    requires
        forall|a: int, b: int| 0 <= a < b < pins.len() ==> (#[trigger] pins[a]).id != (#[trigger] pins[b]).id,
    ensures
        (forall|c: int| #![trigger comps[c]] 0 <= c < comps.len() ==> comps[c].class != ComponentClass::Regulator)
            ==> (forall|j: int| #![trigger pins[j]] 0 <= j < pins.len()
                && (pins[j].electrical_type == PinElectricalType::PowerIn
                    || pins[j].electrical_type == PinElectricalType::PowerOut)
                ==> rail_holds(planned_nets(pins, comps), "VBUS"@, pins[j].id))
            && (forall|x: EntityId| !rail_holds(planned_nets(pins, comps), "VOUT"@, x)),
        forall|j: int| #![trigger pins[j]] 0 <= j < pins.len()
            ==> (rail_holds(planned_nets(pins, comps), "GND"@, pins[j].id)
                <==> pins[j].electrical_type == PinElectricalType::Ground),
{
    reveal_strlit("VBUS");
    reveal_strlit("VOUT");
    reveal_strlit("GND");
    let reg = has_regulator(comps);
    let vb = rail_ids(pins, comps, Rail::Vbus, reg);
    let vo = rail_ids(pins, comps, Rail::Vout, reg);
    let gn = rail_ids(pins, comps, Rail::Ground, reg);
    let na = if_members("VBUS"@, NetClass::Power, vb);
    let nb: Seq<(Seq<char>, NetClass, Seq<EntityId>)> = if reg {
        if_members("VOUT"@, NetClass::Power, vo)
    } else {
        Seq::empty()
    };
    let nc = if_members("GND"@, NetClass::Ground, gn);
    let pn = planned_nets(pins, comps);
    assert(pn == na + nb + nc);
    assert("VBUS"@ != "VOUT"@ && "VBUS"@ != "GND"@ && "VOUT"@ != "GND"@) by {
        assert("VBUS"@[1] != "VOUT"@[1]);
    }
    assert forall|x: EntityId| rail_holds(pn, "GND"@, x) <==> gn.contains(x) by {
        if gn.contains(x) {
            assert(pn[(na.len() + nb.len()) as int] == nc[0]);
        }
        if rail_holds(pn, "GND"@, x) {
            let n = choose|n: int| 0 <= n < pn.len() && (#[trigger] pn[n]).0 == "GND"@ && pn[n].2.contains(x);
            if n < na.len() {
                assert(pn[n] == na[n]);
            } else if n < na.len() + nb.len() {
                assert(pn[n] == nb[n - na.len()]);
            } else {
                assert(pn[n] == nc[n - na.len() - nb.len()]);
            }
        }
    }
    assert forall|j: int| #![trigger pins[j]] 0 <= j < pins.len() implies
        (rail_holds(pn, "GND"@, pins[j].id) <==> pins[j].electrical_type == PinElectricalType::Ground) by {
        lemma_rail_membership(pins, comps, Rail::Ground, reg, j);
    }
    if forall|c: int| #![trigger comps[c]] 0 <= c < comps.len() ==> comps[c].class != ComponentClass::Regulator {
        assert(!reg);
        assert forall|x: EntityId| #![trigger vb.contains(x)] vb.contains(x) implies rail_holds(pn, "VBUS"@, x) by {
            assert(pn[0] == na[0]);
        }
        assert forall|x: EntityId| !rail_holds(pn, "VOUT"@, x) by {
            if rail_holds(pn, "VOUT"@, x) {
                let n = choose|n: int| 0 <= n < pn.len() && (#[trigger] pn[n]).0 == "VOUT"@ && pn[n].2.contains(x);
                if n < na.len() {
                    assert(pn[n] == na[n]);
                } else {
                    assert(pn[n] == nc[n - na.len()]);
                }
            }
        }
        assert forall|j: int| #![trigger pins[j]] 0 <= j < pins.len()
            && (pins[j].electrical_type == PinElectricalType::PowerIn
                || pins[j].electrical_type == PinElectricalType::PowerOut)
            implies rail_holds(pn, "VBUS"@, pins[j].id) by {
            lemma_rail_membership(pins, comps, Rail::Vbus, reg, j);
            assert(vb.contains(pins[j].id));
        }
    }
}

pub open spec fn net_shape(n: crate::domain::NetView) -> (Seq<char>, NetClass, Seq<EntityId>) {
    (n.name@, n.class, n.members)
}

pub open spec fn net_shapes(ns: Seq<crate::domain::NetView>) -> Seq<(Seq<char>, NetClass, Seq<EntityId>)> {
    ns.map_values(|n: crate::domain::NetView| net_shape(n))
}

fn any_regulator(comps: &Vec<Component>) -> (r: bool)
    ensures
        r == has_regulator(comps@),
{
    let n = comps.len();
    let mut i: usize = 0;
    while i < n
        invariant
            n == comps@.len(),
            i <= n,
            forall|k: int| 0 <= k < i ==> (#[trigger] comps@[k]).class != ComponentClass::Regulator,
        decreases n - i,
    {
        if comps[i].class == ComponentClass::Regulator {
            assert(comps@[i as int].class == ComponentClass::Regulator);
            return true;
        }
        i = i + 1;
    }
    false
}

fn component_class(comps: &Vec<Component>, p: &Pin) -> (r: Option<ComponentClass>)
    ensures
        r == class_of(comps@, *p),
{
    match find_by_id(comps, p.component) {
        Some(c) => Some(c.class),
        None => None,
    }
}

fn pin_on_rail(rail: Rail, comps: &Vec<Component>, regulated: bool, p: &Pin) -> (r: bool)
    ensures
        r == on_rail(rail, comps@, regulated, *p),
{
    let c = component_class(comps, p);
    match rail {
        Rail::Vbus => if regulated {
            (p.electrical_type == PinElectricalType::PowerOut && c == Some(ComponentClass::Connector))
                || (p.electrical_type == PinElectricalType::PowerIn && c == Some(ComponentClass::Regulator))
        } else {
            p.electrical_type == PinElectricalType::PowerOut || p.electrical_type == PinElectricalType::PowerIn
        },
        Rail::Vout => (p.electrical_type == PinElectricalType::PowerOut && c == Some(ComponentClass::Regulator))
            || (p.electrical_type == PinElectricalType::PowerIn && c != Some(ComponentClass::Regulator)),
        Rail::Ground => p.electrical_type == PinElectricalType::Ground,
    }
}

fn select_rail(pins: &Vec<Pin>, comps: &Vec<Component>, rail: Rail, regulated: bool) -> (r: Vec<EntityId>)
    ensures
        r@ == rail_ids(pins@, comps@, rail, regulated),
        forall|k: int| 0 <= k < r@.len() ==> has_id(pins@, #[trigger] r@[k]),
{
    let mut out: Vec<EntityId> = Vec::new();
    let n = pins.len();
    let mut i: usize = 0;
    while i < n
        invariant
            n == pins@.len(),
            i <= n,
            out@ == rail_ids(pins@.take(i as int), comps@, rail, regulated),
            forall|k: int| 0 <= k < out@.len() ==> has_id(pins@, #[trigger] out@[k]),
        decreases n - i,
    {
        proof {
            assert(pins@.take(i + 1).drop_last() =~= pins@.take(i as int));
        }
        if pin_on_rail(rail, comps, regulated, &pins[i]) {
            proof {
                assert(pins@[i as int].id_of() == pins[i as int].id);
            }
            out.push(pins[i].id);
        }
        i = i + 1;
    }
    assert(pins@.take(n as int) =~= pins@);
    out
}

fn commit_rail<E: ReasoningEngine>(ctx: &mut RuntimeCore<E>, name: &str, class: NetClass, members: Vec<EntityId>)
    requires
        old(ctx).wf(),
        name@ == "VBUS"@ || name@ == "VOUT"@ || name@ == "GND"@,
        forall|k: int| 0 <= k < members@.len() ==> has_id(old(ctx).state_value().pins@, #[trigger] members@[k]),
    ensures
        final(ctx).wf(),
        extends(old(ctx).log_value(), final(ctx).log_value()),
        final(ctx).autonomy_value() == old(ctx).autonomy_value(),
        ({
            let s0 = old(ctx).state_value()@;
            let s1 = final(ctx).state_value()@;
            &&& s1.pins == s0.pins
            &&& s1.components == s0.components
            &&& s1.functional_blocks == s0.functional_blocks
            &&& final(ctx).state_value().pins@ == old(ctx).state_value().pins@
            &&& s1.links == s0.links
            &&& net_shapes(s1.nets) == net_shapes(s0.nets) + if_members(name@, class, members@)
        }),
{
    proof {
        lemma_extends_refl(ctx.log_value());
        assert(net_shapes(ctx.state_value()@.nets) + Seq::empty() =~= net_shapes(ctx.state_value()@.nets));
    }
    if members.len() == 0 {
        return;
    }
    let ghost before = ctx.state_value()@;
    let ghost st = ctx.state_value();
    let ghost before_log = ctx.log_value();
    let nid = ctx.fresh_id();
    let net = Net { id: nid, name: String::from_str(name), class, members };
    let ghost nv = net@;
    let links: Vec<ProvenanceLink> = Vec::new();
    let ghost lv = links@;
    let req = CapabilityRequest::CreateNet { net, links };
    proof {
        reveal_strlit("VBUS");
        reveal_strlit("VOUT");
        reveal_strlit("GND");
        assert(!crate::text::is_white_space(nv.name@[0]));
        assert(forall|j: int| 0 <= j < nv.members.len() ==> !(|pid: EntityId| !has_id(st.pins@, pid))(#[trigger] nv.members[j]));
        lemma_first_where_none(nv.members, |pid: EntityId| !has_id(st.pins@, pid));
    }
    match ctx.invoke(req, Ok(())) {
        Ok(_) => {
            proof {
                let e = Event::NetCommitted { net: req->net };
                lemma_entity_then_links(before, e, lv);
                assert(lv =~= Seq::<ProvenanceLink>::empty());
                let after = ctx.state_value()@;
                assert(after.nets == before.nets.push(nv));
                assert(net_shapes(after.nets) =~= net_shapes(before.nets).push(net_shape(nv)));
                assert(after.pins == before.pins);
                assert(after.links =~= before.links);
                assert(extends(before_log, ctx.log_value())) by {
                    assert(ctx.log_value().take(before_log.len() as int) == before_log);
                }
                lemma_extends_trans(old(ctx).log_value(), before_log, ctx.log_value());
            }
        },
        Err(_) => {
            proof {
                assert(false);
            }
        },
    }
}

/// What planning the schematic did: realize and join it unless components exist, then
/// project the Schematic IR and record the milestone.
pub open spec fn schematic_planned(
    c0: KernelView,
    c1: KernelView,
    r: Result<StepResult, MachineError>,
) -> bool {
    let s0 = c0.state_value()@;
    let s1 = c1.state_value()@;
    let fresh = s0.components.len() == 0;
    let realizable = forall|k: int| 0 <= k < s0.functional_blocks.len() ==> (#[trigger] s0.functional_blocks[k]).id.0 != 0;
    &&& !fresh ==> s1 == s0 && c1.id_state() == c0.id_state() && c1.log_value().len() == c0.log_value().len() + if r is Ok {
        1int
    } else {
        0int
    }
    &&& fresh && realizable ==> {
        &&& realizes(s1.components, s0.functional_blocks, block_classes(s0.functional_blocks, s0.requirements))
        &&& s1.pins.take(s0.pins.len() as int) == s0.pins
        &&& pin_shapes(s1.pins.skip(s0.pins.len() as int)) == templated_all(s1.components)
        &&& net_shapes(s1.nets) == net_shapes(s0.nets) + planned_nets(s1.pins, s1.components)
        &&& all_derived(s1, s1.components, s0.functional_blocks)
    }
    &&& r is Ok ==> r == Ok::<StepResult, MachineError>(StepResult::Done) && schematic_stage(s1) is None
        && c1.log_value().last().event == (Event::SchematicIrProduced {
            schema_version: 1,
            net_count: s1.nets.len() as usize,
        })
    &&& r matches Err(MachineError::Internal(m)) ==> (fresh && m@ == realize_refusal_text() && exists|k: int|
        0 <= k < s0.functional_blocks.len() && (#[trigger] s0.functional_blocks[k]).id.0 == 0)
        || schematic_stage(s1) == Some(m@)
}

impl SchematicPlanningMachine {
    /// Joins the realized pins into the planned nets.
    fn join<E: ReasoningEngine>(&self, ctx: &mut RuntimeCore<E>)
        requires
            old(ctx).wf(),
        ensures
            final(ctx).wf(),
            extends(old(ctx).log_value(), final(ctx).log_value()),
            final(ctx).autonomy_value() == old(ctx).autonomy_value(),
            ({
                let s0 = old(ctx).state_value()@;
                let s1 = final(ctx).state_value()@;
                &&& s1.pins == s0.pins
                &&& s1.components == s0.components
                &&& s1.functional_blocks == s0.functional_blocks
                &&& s1.links == s0.links
                &&& net_shapes(s1.nets) == net_shapes(s0.nets) + planned_nets(s0.pins, s0.components)
            }),
    {
        let ghost s0 = ctx.state_value()@;
        let pins = ctx.pins();
        let comps = ctx.components();
        let reg = any_regulator(&comps);
        let vbus = select_rail(&pins, &comps, Rail::Vbus, reg);
        let vout = select_rail(&pins, &comps, Rail::Vout, reg);
        let gnd = select_rail(&pins, &comps, Rail::Ground, reg);
        let ghost (v1, v2, v3) = (vbus@, vout@, gnd@);
        let ghost l0 = ctx.log_value();
        commit_rail(ctx, "VBUS", NetClass::Power, vbus);
        let ghost l1 = ctx.log_value();
        let ghost mid = ctx.state_value()@;
        if reg {
            commit_rail(ctx, "VOUT", NetClass::Power, vout);
        } else {
            proof {
                lemma_extends_refl(ctx.log_value());
            }
        }
        let ghost l2 = ctx.log_value();
        commit_rail(ctx, "GND", NetClass::Ground, gnd);
        proof {
            lemma_extends_trans(l0, l1, l2);
            lemma_extends_trans(l0, l2, ctx.log_value());
            let s1 = ctx.state_value()@;
            assert(net_shapes(s1.nets) =~= net_shapes(s0.nets) + planned_nets(s0.pins, s0.components));
        }
    }

    /// The `Planning` state's work: realize and join the schematic unless components
    /// already exist, then project the Schematic IR and record the milestone.
    pub fn plan<E: ReasoningEngine>(&self, ctx: &mut RuntimeCore<E>) -> (r: Result<StepResult, MachineError>)
        requires
            old(ctx).wf(),
        ensures
            final(ctx).wf(),
            extends(old(ctx).log_value(), final(ctx).log_value()),
            final(ctx).autonomy_value() == old(ctx).autonomy_value(),
            schematic_planned(old(ctx).kernel(), final(ctx).kernel(), r),
    {
        let ghost l0 = ctx.log_value();
        let ghost s0 = ctx.state_value()@;
        if ctx.state().components.len() == 0 {
            match self.realize(ctx) {
                Ok(()) => {},
                Err(e) => {
                    return Err(e);
                },
            }
            let ghost l1 = ctx.log_value();
            let ghost sr = ctx.state_value()@;
            self.join(ctx);
            proof {
                lemma_extends_trans(l0, l1, ctx.log_value());
                let s1 = ctx.state_value()@;
                assert(sr.components.skip(0) =~= sr.components);
                assert(sr.components.take(0) =~= s0.components);
                assert(s1.components =~= sr.components);
            }
        } else {
            proof {
                lemma_extends_refl(ctx.log_value());
            }
        }
        let ghost l2 = ctx.log_value();
        let ir = match crate::lowering::lower_schematic(ctx) {
            Ok(ir) => ir,
            Err(e) => {
                return Err(e);
            },
        };
        let mut events: Vec<Event> = Vec::new();
        events.push(Event::SchematicIrProduced { schema_version: ir.schema_version, net_count: ir.nets.len() });
        let ghost es = events@;
        let ghost sp = ctx.state_value()@;
        ctx.emit(events);
        proof {
            reveal_with_fuel(crate::state::fold_events, 2);
            assert(ctx.state_value()@ == sp);
            assert(ctx.log_value()[l2.len() + 0int].event == es[0]);
            assert(extends(l2, ctx.log_value())) by {
                assert(ctx.log_value().take(l2.len() as int) == l2);
            }
            lemma_extends_trans(l0, l2, ctx.log_value());
            assert(views(ir.nets@).len() == ir.nets@.len());
            assert(ctx.log_value().len() == l2.len() + 1);
        }
        Ok(StepResult::Done)
    }
}

impl Machine for SchematicPlanningMachine {
    open spec fn obeys_machine_spec() -> bool {
        true
    }

    open spec fn spec_name(&self) -> Seq<char> {
        "SchematicPlanning"@
    }

    open spec fn spec_initial(&self) -> Seq<char> {
        "Idle"@
    }

    open spec fn stepped(
        &self,
        next: &Self,
        state: Seq<char>,
        before: KernelView,
        after: KernelView,
        r: Result<StepResult, MachineError>,
    ) -> bool {
        phase_step(state, "Planning"@, before, after, r, schematic_planned(before, after, r))
    }

    fn name(&self) -> (n: &str)
        ensures
            n@ == "SchematicPlanning"@,
    {
        "SchematicPlanning"
    }

    fn initial(&self) -> (s: String)
        ensures
            s@ == "Idle"@,
    {
        String::from_str("Idle")
    }

    fn step<E: ReasoningEngine>(&mut self, state: &str, ctx: &mut RuntimeCore<E>) -> (r: Result<
        StepResult,
        MachineError,
    >)
        ensures
            state@ == "Idle"@ ==> *final(ctx) == *old(ctx) && (r matches Ok(StepResult::Continue(n)) && n@
                == "Planning"@),
            state@ == "Planning"@ ==> schematic_planned(old(ctx).kernel(), final(ctx).kernel(), r),
            state@ != "Idle"@ && state@ != "Planning"@ ==> *final(ctx) == *old(ctx) && (r matches Err(
                MachineError::Internal(m),
            ) && m@ == crate::checks::unknown_state_text(state@)),
    {
        proof {
            lemma_extends_refl(ctx.log_value());
            reveal_strlit("Idle");
            reveal_strlit("Planning");
            assert("Idle"@.len() != "Planning"@.len());
        }
        if str_equal(state, "Idle") {
            Ok(StepResult::Continue(String::from_str("Planning")))
        } else if str_equal(state, "Planning") {
            self.plan(ctx)
        } else {
            Err(crate::checks::unknown_state(state))
        }
    }
}

} // verus!
