//! What an admitted request does to the state model: the entity it carries is added,
//! then its provenance links.

use vstd::prelude::*;
use crate::domain::{Pin, ProvenanceLink};
use crate::ports::Event;
use crate::protocol::link_events;
use crate::state::{apply_event, fold_events, lemma_fold_append, StateModel};

verus! {

pub open spec fn add_links(s: StateModel, links: Seq<ProvenanceLink>) -> StateModel {
    StateModel { links: s.links + links, ..s }
}

pub open spec fn pin_events(pins: Seq<Pin>) -> Seq<Event> {
    pins.map_values(|p: Pin| Event::PinCommitted { pin: p })
}

/// Folding link events appends the links and changes nothing else.
pub proof fn lemma_fold_links(s: StateModel, links: Seq<ProvenanceLink>)
    ensures
        fold_events(s, link_events(links)) == add_links(s, links),
    decreases links.len(),
{
    if links.len() == 0 {
        assert(link_events(links) =~= Seq::<Event>::empty());
        assert(s.links + links =~= s.links);
        assert(add_links(s, links) == s);
    } else {
        lemma_fold_links(s, links.drop_last());
        assert(link_events(links).drop_last() =~= link_events(links.drop_last()));
        assert(s.links + links =~= (s.links + links.drop_last()).push(links.last()));
    }
}

/// Folding pin events appends the pins and changes nothing else.
pub proof fn lemma_fold_pins(s: StateModel, pins: Seq<Pin>)
    ensures
        fold_events(s, pin_events(pins)) == (StateModel { pins: s.pins + pins, ..s }),
    decreases pins.len(),
{
    if pins.len() == 0 {
        assert(pin_events(pins) =~= Seq::<Event>::empty());
        assert(s.pins + pins =~= s.pins);
    } else {
        lemma_fold_pins(s, pins.drop_last());
        assert(pin_events(pins).drop_last() =~= pin_events(pins.drop_last()));
        assert(s.pins + pins =~= (s.pins + pins.drop_last()).push(pins.last()));
    }
}

/// One entity event then its links.
pub proof fn lemma_entity_then_links(s: StateModel, e: Event, links: Seq<ProvenanceLink>)
    ensures
        fold_events(s, seq![e] + link_events(links)) == add_links(apply_event(s, e), links),
{
    lemma_fold_append(s, seq![e], link_events(links));
    reveal_with_fuel(fold_events, 2);
    assert(seq![e].drop_last() =~= Seq::<Event>::empty());
    lemma_fold_links(apply_event(s, e), links);
}

/// A component event, its pins, then its links.
pub proof fn lemma_component_pins_links(s: StateModel, e: Event, pins: Seq<Pin>, links: Seq<ProvenanceLink>)
    ensures
        fold_events(s, seq![e] + pin_events(pins) + link_events(links)) == add_links(
            StateModel { pins: apply_event(s, e).pins + pins, ..apply_event(s, e) },
            links,
        ),
{
    lemma_fold_append(s, seq![e] + pin_events(pins), link_events(links));
    lemma_fold_append(s, seq![e], pin_events(pins));
    reveal_with_fuel(fold_events, 2);
    assert(seq![e].drop_last() =~= Seq::<Event>::empty());
    lemma_fold_pins(apply_event(s, e), pins);
    lemma_fold_links(StateModel { pins: apply_event(s, e).pins + pins, ..apply_event(s, e) }, links);
}

} // verus!
