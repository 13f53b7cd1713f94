//! The two non-deterministic inputs of a run, time and identity, behind ports that can
//! be made deterministic: a logical clock and a seeded id source.

use vstd::prelude::*;
use crate::domain::EntityId;
use crate::ports::Timestamp;

verus! {

/// A source of timestamps. The runtime stamps each event with `now()` before appending.
pub trait Clock {
    fn now(&mut self) -> Timestamp;
}

/// A source of fresh entity ids: the only minter of ids during a run.
pub trait IdSource {
    fn fresh(&mut self) -> (id: EntityId)
        ensures
            id.0 != 0,
    ;
}

/// Calls `SystemTime::elapsed` on the Unix epoch: the milliseconds from the epoch to the
/// machine's clock, or 0 if the clock reads before the epoch. Nothing is stated of the
/// value: it is whatever the clock reads when called.
#[verifier::external_body]
fn wall_clock_millis() -> i64 {
    match std::time::UNIX_EPOCH.elapsed() {
        Ok(d) => d.as_millis() as i64,
        Err(_) => 0,
    }
}

/// The machine's wall clock.
pub struct SystemClock;

impl Clock for SystemClock {
    fn now(&mut self) -> Timestamp {
        Timestamp(wall_clock_millis())
    }
}

/// A counter clock: 0, 1, 2, ... (wrapping at the end of `i64`, as release builds of
/// integer addition do). Makes a run fully reproducible.
pub struct LogicalClock {
    pub next: i64,
}

impl LogicalClock {
    pub fn new() -> (c: Self)
        ensures
            c.next == 0,
    {
        LogicalClock { next: 0 }
    }
}

impl Clock for LogicalClock {
    fn now(&mut self) -> (t: Timestamp)
        ensures
            t.0 == old(self).next,
            final(self).next == old(self).next.wrapping_add(1),
    {
        let v = self.next;
        self.next = v.wrapping_add(1);
        Timestamp(v)
    }
}

/// The state step of SplitMix64.
pub open spec fn splitmix_advance(state: u64) -> u64 {
    state.wrapping_add(0x9E37_79B9_7F4A_7C15)
}

/// The output mix of SplitMix64 for an advanced state.
pub open spec fn splitmix_mix(z: u64) -> u64 {
    let z1 = (z ^ (z >> 30u64)).wrapping_mul(0xBF58_476D_1CE4_E5B9);
    let z2 = (z1 ^ (z1 >> 27u64)).wrapping_mul(0x94D0_49BB_1331_11EB);
    z2 ^ (z2 >> 31u64)
}

/// One SplitMix64 draw: advances the state and returns the mixed output.
fn splitmix64(state: &mut u64) -> (r: u64)
    ensures
        *final(state) == splitmix_advance(*old(state)),
        r == splitmix_mix(splitmix_advance(*old(state))),
{
    *state = state.wrapping_add(0x9E37_79B9_7F4A_7C15);
    let mut z = *state;
    z = (z ^ (z >> 30)).wrapping_mul(0xBF58_476D_1CE4_E5B9);
    z = (z ^ (z >> 27)).wrapping_mul(0x94D0_49BB_1331_11EB);
    z ^ (z >> 31)
}

/// The id minted from a source in `state`: two draws, high then low half; the null
/// value is replaced by 1.
pub open spec fn seeded_id(state: u64) -> EntityId {
    let hi = splitmix_mix(splitmix_advance(state));
    let lo = splitmix_mix(splitmix_advance(splitmix_advance(state)));
    let v = ((hi as u128) << 64u128) | (lo as u128);
    EntityId(if v == 0 { 1 } else { v })
}

/// A deterministic id source seeded per run: the same seed mints the same ids.
pub struct SeededIdSource {
    pub state: u64,
}

impl SeededIdSource {
    pub fn new(seed: u64) -> (s: Self)
        ensures
            s.state == seed,
    {
        SeededIdSource { state: seed }
    }
}

impl IdSource for SeededIdSource {
    fn fresh(&mut self) -> (id: EntityId)
        ensures
            id == seeded_id(old(self).state),
            final(self).state == splitmix_advance(splitmix_advance(old(self).state)),
    {
        let hi = splitmix64(&mut self.state) as u128;
        let lo = splitmix64(&mut self.state) as u128;
        let v = (hi << 64) | lo;
        EntityId(if v == 0 { 1 } else { v })
    }
}


/// The ids a source in `state` mints in its next `n` draws, in order.
pub open spec fn seeded_ids(state: u64, n: nat) -> Seq<EntityId>
    decreases n,
{
    if n == 0 {
        Seq::empty()
    } else {
        seq![seeded_id(state)] + seeded_ids(splitmix_advance(splitmix_advance(state)), (n - 1) as nat)
    }
}

/// Law (seeded ids): draws made one after another from a source, each as `fresh` states,
/// mint exactly `seeded_ids` of the first state: the ids depend on the seed alone, so two
/// sources seeded alike mint the same ids.
pub proof fn lemma_seeded_run(states: Seq<u64>, ids: Seq<EntityId>)
    requires
        states.len() == ids.len() + 1,
        forall|i: int|
            0 <= i < ids.len() ==> #[trigger] ids[i] == seeded_id(states[i]) && states[i + 1] == splitmix_advance(
                splitmix_advance(states[i]),
            ),
    ensures
        ids == seeded_ids(states[0], ids.len()),
    decreases ids.len(),
{
    if ids.len() > 0 {
        let rest_s = states.subrange(1, states.len() as int);
        let rest_i = ids.subrange(1, ids.len() as int);
        assert forall|i: int| 0 <= i < rest_i.len() implies #[trigger] rest_i[i] == seeded_id(rest_s[i]) && rest_s[i + 1]
            == splitmix_advance(splitmix_advance(rest_s[i])) by {
            assert(rest_i[i] == ids[i + 1]);
            assert(rest_s[i] == states[i + 1] && rest_s[i + 1] == states[i + 2]);
        }
        lemma_seeded_run(rest_s, rest_i);
        assert(ids[0] == seeded_id(states[0]));
        assert(ids =~= seq![ids[0]] + rest_i);
    }
}

/// Law (logical clock): readings taken one after another from a new clock, each as `now`
/// states, are 0, 1, 2, ... for as long as the counter does not wrap.
pub proof fn lemma_logical_run(nexts: Seq<i64>, readings: Seq<Timestamp>)
    requires
        nexts.len() == readings.len() + 1,
        nexts[0] == 0,
        readings.len() <= i64::MAX,
        forall|i: int|
            0 <= i < readings.len() ==> (#[trigger] readings[i]).0 == nexts[i] && nexts[i + 1] == nexts[i].wrapping_add(1),
    ensures
        forall|i: int| 0 <= i < readings.len() ==> (#[trigger] readings[i]).0 == i,
{
    assert forall|i: int| 0 <= i <= readings.len() implies nexts[i] == i by {
        lemma_logical_prefix(nexts, readings, i);
    }
    assert forall|i: int| 0 <= i < readings.len() implies (#[trigger] readings[i]).0 == i by {
        lemma_logical_prefix(nexts, readings, i);
    }
}

proof fn lemma_logical_prefix(nexts: Seq<i64>, readings: Seq<Timestamp>, i: int)
    requires
        nexts.len() == readings.len() + 1,
        nexts[0] == 0,
        readings.len() <= i64::MAX,
        forall|j: int|
            0 <= j < readings.len() ==> (#[trigger] readings[j]).0 == nexts[j] && nexts[j + 1] == nexts[j].wrapping_add(1),
        0 <= i <= readings.len(),
    ensures
        nexts[i] == i,
    decreases i,
{
    if i > 0 {
        lemma_logical_prefix(nexts, readings, i - 1);
        assert(readings[i - 1].0 == nexts[i - 1]);
    }
}
} // verus!
