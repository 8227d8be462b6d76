//! Rollback-aware input resolution (client side).
//!
//! Under client-side prediction the same historical tick can be simulated
//! many times.  For each controllable entity and each simulated tick, the
//! resolver selects the input sample that was authoritative at that tick
//! from the per-entity [`InputBuffer`], so that a tick replayed during
//! rollback sees exactly the input it saw the first time.

use vstd::prelude::*;

use crate::math::Vec2Fixed;
use crate::plugins::statesmachine::{CurrentStates, StateRecModel, States};
use crate::systems::characteractions::{move_action, spec_move};

verus! {

/// One captured input sample: the movement reading and the jump button.
#[derive(Clone, Copy, Debug, PartialEq, Eq, Structural)]
pub struct InputSample {
    pub move_dir: Vec2Fixed,
    pub jump: bool,
}

/// The per-entity history of captured input samples, ordered by tick,
/// append-only, with old ticks evicted to bound retention.  The resolver
/// consults it and never mutates it.
#[derive(Debug, PartialEq)]
pub struct InputBuffer(pub Vec<(u64, InputSample)>);

/// The predicate selecting the samples still inside the retention window.
pub open spec fn at_or_after(tick: u64) -> spec_fn((u64, InputSample)) -> bool {
    |p: (u64, InputSample)| p.0 >= tick
}

/// The sample resolution rule, scanning from the most recent entry down:
/// a sample recorded at exactly `tick` confirms the live reading; failing
/// that, the most recent sample at an earlier tick is the last-known input;
/// with no earlier sample the live reading is the fallback.
pub open spec fn spec_resolve(
    entries: Seq<(u64, InputSample)>,
    tick: u64,
    live: InputSample,
) -> InputSample
    decreases entries.len(),
{
    if entries.len() == 0 {
        live
    } else if entries.last().0 == tick {
        live
    } else if entries.last().0 < tick {
        entries.last().1
    } else {
        spec_resolve(entries.drop_last(), tick, live)
    }
}

/// On a tick-sorted buffer the resolution rule selects as specified: the
/// live reading when `tick` itself was captured; else the sample of the
/// greatest recorded tick below `tick`; else the live reading.
pub proof fn lemma_resolve_selects(entries: Seq<(u64, InputSample)>, tick: u64, live: InputSample)
    requires
        forall|i: int, j: int| 0 <= i < j < entries.len() ==> entries[i].0 < entries[j].0,
    ensures
        (exists|i: int| 0 <= i < entries.len() && entries[i].0 == tick) ==> spec_resolve(
            entries,
            tick,
            live,
        ) == live,
        !(exists|i: int| 0 <= i < entries.len() && entries[i].0 == tick) && (exists|i: int|
            0 <= i < entries.len() && entries[i].0 < tick) ==> exists|i: int|
            0 <= i < entries.len() && entries[i].0 < tick && spec_resolve(entries, tick, live)
                == entries[i].1 && (forall|j: int|
                0 <= j < entries.len() && entries[j].0 < tick ==> entries[j].0 <= entries[i].0),
        !(exists|i: int| 0 <= i < entries.len() && entries[i].0 == tick) && !(exists|i: int|
            0 <= i < entries.len() && entries[i].0 < tick) ==> spec_resolve(entries, tick, live)
            == live,
    decreases entries.len(),
{
    if entries.len() == 0 {
    } else if entries.last().0 == tick {
        assert(entries[entries.len() - 1].0 == tick);
    } else if entries.last().0 < tick {
        let n = entries.len() - 1;
        assert(entries[n].0 < tick);
        assert forall|i: int| 0 <= i < entries.len() implies entries[i].0 != tick by {
            if i < n {
                assert(entries[i].0 < entries[n].0);
            }
        }
        assert(spec_resolve(entries, tick, live) == entries[n].1);
        assert forall|j: int|
            0 <= j < entries.len() && entries[j].0 < tick implies entries[j].0 <= entries[n].0 by {
            if j < n {
                assert(entries[j].0 < entries[n].0);
            }
        }
    } else {
        let sub = entries.drop_last();
        let n = entries.len() - 1;
        lemma_resolve_selects(sub, tick, live);
        assert(spec_resolve(entries, tick, live) == spec_resolve(sub, tick, live));
        if exists|i: int| 0 <= i < entries.len() && entries[i].0 == tick {
            let i = choose|i: int| 0 <= i < entries.len() && entries[i].0 == tick;
            assert(i < n);
            assert(sub[i].0 == tick);
        }
        if exists|i: int| 0 <= i < entries.len() && entries[i].0 < tick {
            let i = choose|i: int| 0 <= i < entries.len() && entries[i].0 < tick;
            assert(i < n);
            assert(sub[i].0 < tick);
        }
        if exists|i: int| 0 <= i < sub.len() && sub[i].0 == tick {
            let i = choose|i: int| 0 <= i < sub.len() && sub[i].0 == tick;
            assert(entries[i].0 == tick);
        }
        if !(exists|i: int| 0 <= i < entries.len() && entries[i].0 == tick) && (exists|i: int|
            0 <= i < entries.len() && entries[i].0 < tick) {
            let w = choose|i: int|
                0 <= i < sub.len() && sub[i].0 < tick && spec_resolve(sub, tick, live) == sub[i].1
                    && (forall|j: int| 0 <= j < sub.len() && sub[j].0 < tick ==> sub[j].0
                    <= sub[i].0);
            assert(entries[w].0 < tick && spec_resolve(entries, tick, live) == entries[w].1);
            assert forall|j: int|
                0 <= j < entries.len() && entries[j].0 < tick implies entries[j].0
                <= entries[w].0 by {
                assert(j < n);
                assert(sub[j].0 < tick);
            }
        }
    }
}

impl InputBuffer {
    /// Ticks strictly increase along the buffer.
    pub open spec fn wf(self) -> bool {
        forall|i: int, j: int| 0 <= i < j < self.0@.len() ==> self.0@[i].0 < self.0@[j].0
    }

    /// Whether a sample was captured at exactly `tick`.
    pub open spec fn spec_has_tick(self, tick: u64) -> bool {
        exists|i: int| 0 <= i < self.0@.len() && self.0@[i].0 == tick
    }

    /// The sample captured at exactly `tick`, if any.
    pub fn get(&self, tick: u64) -> (r: Option<InputSample>)
        requires
            self.wf(),
        ensures
            match r {
                Some(s) => exists|i: int|
                    0 <= i < self.0@.len() && self.0@[i] == (tick, s),
                None => !self.spec_has_tick(tick),
            },
    {
        let mut i: usize = 0;
        while i < self.0.len()
            invariant
                i <= self.0.len(),
                forall|j: int| 0 <= j < i ==> self.0@[j].0 != tick,
            decreases self.0.len() - i,
        {
            if self.0[i].0 == tick {
                return Some(self.0[i].1);
            }
            i += 1;
        }
        None
    }

    /// The most recently captured sample, with its tick.
    pub fn get_last_with_tick(&self) -> (r: Option<(u64, InputSample)>)
        ensures
            self.0@.len() == 0 ==> r is None,
            self.0@.len() > 0 ==> r == Some(self.0@.last()),
    {
        if self.0.len() == 0 {
            None
        } else {
            Some(self.0[self.0.len() - 1])
        }
    }

    /// Appends the sample captured at `tick`; capture is append-only, so
    /// `tick` must lie past every recorded one.
    pub fn record(&mut self, tick: u64, sample: InputSample)
        requires
            old(self).wf(),
            old(self).0@.len() > 0 ==> old(self).0@.last().0 < tick,
        ensures
            final(self).wf(),
            final(self).0@ == old(self).0@.push((tick, sample)),
    {
        proof {
            assert forall|i: int, j: int|
                0 <= i < j < old(self).0@.push((tick, sample)).len() implies old(self).0@.push(
                (tick, sample),
            )[i].0 < old(self).0@.push((tick, sample))[j].0 by {
                if j < old(self).0@.len() {
                } else {
                    assert(old(self).0@[i].0 <= old(self).0@[old(self).0@.len() - 1].0);
                }
            }
        }
        self.0.push((tick, sample));
    }

    /// Evicts every sample older than `oldest_kept`, bounding retention.
    pub fn evict_before(&mut self, oldest_kept: u64)
        requires
            old(self).wf(),
        ensures
            final(self).wf(),
            final(self).0@ == old(self).0@.filter(at_or_after(oldest_kept)),
    {
        let mut kept: Vec<(u64, InputSample)> = Vec::new();
        let mut i: usize = 0;
        while i < self.0.len()
            invariant
                i <= self.0.len(),
                self.0@ == old(self).0@,
                kept@ == old(self).0@.take(i as int).filter(at_or_after(oldest_kept)),
            decreases self.0.len() - i,
        {
            let p = self.0[i];
            proof {
                old(self).0@.lemma_take_succ_push(i as int);
                old(self).0@.take(i as int).lemma_filter_push(p, at_or_after(oldest_kept));
            }
            if p.0 >= oldest_kept {
                kept.push(p);
            }
            i += 1;
        }
        proof {
            old(self).0@.lemma_take_len();
            lemma_filter_keeps_sorted(old(self).0@, at_or_after(oldest_kept));
        }
        self.0 = kept;
    }

    /// Selects the input for `tick`: the live reading `action_state` when a
    /// sample at exactly `tick` confirms it was captured; else the most
    /// recent earlier sample (the last-known input, required for determinism
    /// during resimulation); else the live reading (startup, no history).
    pub fn resolve(&self, tick: u64, action_state: InputSample) -> (r: InputSample)
        requires
            self.wf(),
        ensures
            r == spec_resolve(self.0@, tick, action_state),
            self.spec_has_tick(tick) ==> r == action_state,
            !self.spec_has_tick(tick) && (exists|i: int|
                0 <= i < self.0@.len() && self.0@[i].0 < tick) ==> exists|i: int|
                0 <= i < self.0@.len() && self.0@[i].0 < tick && r == self.0@[i].1 && (forall|
                    j: int,
                |
                    0 <= j < self.0@.len() && self.0@[j].0 < tick ==> self.0@[j].0
                        <= self.0@[i].0),
            !self.spec_has_tick(tick) && !(exists|i: int|
                0 <= i < self.0@.len() && self.0@[i].0 < tick) ==> r == action_state,
    {
        proof {
            lemma_resolve_selects(self.0@, tick, action_state);
            self.0@.lemma_take_len();
        }
        let mut i: usize = self.0.len();
        while i > 0
            invariant
                i <= self.0.len(),
                self.wf(),
                spec_resolve(self.0@, tick, action_state) == spec_resolve(
                    self.0@.take(i as int),
                    tick,
                    action_state,
                ),
            decreases i,
        {
            let entry = self.0[i - 1];
            proof {
                lemma_resolve_selects(self.0@, tick, action_state);
                assert(self.0@.take(i as int).last() == entry);
                assert(self.0@.take(i as int).drop_last() =~= self.0@.take(i as int - 1));
            }
            if entry.0 == tick {
                proof {
                    assert(spec_resolve(self.0@.take(i as int), tick, action_state)
                        == action_state);
                }
                return action_state;
            }
            if entry.0 < tick {
                proof {
                    assert(spec_resolve(self.0@.take(i as int), tick, action_state) == entry.1);
                }
                return entry.1;
            }
            i -= 1;
        }
        action_state
    }
}

/// A tick-sorted buffer stays tick-sorted after eviction.
proof fn lemma_filter_keeps_sorted(
    s: Seq<(u64, InputSample)>,
    pred: spec_fn((u64, InputSample)) -> bool,
)
    requires
        forall|i: int, j: int| 0 <= i < j < s.len() ==> s[i].0 < s[j].0,
    ensures
        forall|i: int, j: int|
            0 <= i < j < s.filter(pred).len() ==> s.filter(pred)[i].0 < s.filter(pred)[j].0,
    decreases s.len(),
{
    reveal(Seq::filter);
    if s.len() > 0 {
        lemma_filter_keeps_sorted(s.drop_last(), pred);
        let sub = s.drop_last().filter(pred);
        if pred(s.last()) {
            assert forall|i: int, j: int|
                0 <= i < j < s.filter(pred).len() implies s.filter(pred)[i].0 < s.filter(
                pred,
            )[j].0 by {
                if j == s.filter(pred).len() - 1 {
                    assert(s.filter(pred)[i] == sub[i]);
                    sub.lemma_index_contains(i);
                    s.drop_last().lemma_filter_contains_rev(pred, sub[i]);
                    let m = choose|m: int|
                        0 <= m < s.drop_last().len() && s.drop_last()[m] == sub[i];
                    assert(s[m] == sub[i]);
                    assert(s[m].0 < s.last().0);
                } else {
                    assert(s.filter(pred)[i] == sub[i] && s.filter(pred)[j] == sub[j]);
                }
            }
        }
    }
}

/// The authoritative tick of this simulation step: the rollback tick while a
/// resimulation is in progress, else the live tick.
pub fn resolve_tick(rollback_tick: Option<u64>, current_tick: u64) -> (r: u64)
    ensures
        r == match rollback_tick {
            Some(t) => t,
            None => current_tick,
        },
{
    match rollback_tick {
        Some(t) => t,
        None => current_tick,
    }
}

/// One client-side input step for a controllable entity: resolves the
/// authoritative tick, selects the input sample for it from the buffer, and
/// feeds the movement intent to the entity's state registry.  The caller
/// hands in device readings already clamped to unit length.
pub fn handle_combatant_actions(
    rollback_tick: Option<u64>,
    current_tick: u64,
    input_buffer: &InputBuffer,
    action_state: InputSample,
    current_states: &mut CurrentStates,
)
    requires
        input_buffer.wf(),
        old(current_states).wf(),
        action_state.move_dir.x > i64::MIN,
        forall|i: int|
            0 <= i < input_buffer.0@.len() ==> (#[trigger] input_buffer.0@[i]).1.move_dir.x
                > i64::MIN,
    ensures
        final(current_states).wf(),
        final(current_states)@ == spec_move(
            old(current_states)@,
            spec_resolve(
                input_buffer.0@,
                match rollback_tick {
                    Some(t) => t,
                    None => current_tick,
                },
                action_state,
            ).move_dir,
        ),
{
    let tick = resolve_tick(rollback_tick, current_tick);
    let sample = input_buffer.resolve(tick, action_state);
    proof {
        lemma_resolve_in_buffer(input_buffer.0@, tick, action_state);
    }
    move_action(sample.move_dir, current_states);
}

/// A resolved sample is the live reading or one out of the buffer.
proof fn lemma_resolve_in_buffer(entries: Seq<(u64, InputSample)>, tick: u64, live: InputSample)
    ensures
        spec_resolve(entries, tick, live) == live || exists|i: int|
            0 <= i < entries.len() && (#[trigger] entries[i]).1 == spec_resolve(
                entries,
                tick,
                live,
            ),
    decreases entries.len(),
{
    if entries.len() == 0 {
    } else if entries.last().0 == tick {
    } else if entries.last().0 < tick {
        assert(entries[entries.len() - 1].1 == spec_resolve(entries, tick, live));
    } else {
        lemma_resolve_in_buffer(entries.drop_last(), tick, live);
        if spec_resolve(entries, tick, live) != live {
            let i = choose|i: int|
                0 <= i < entries.drop_last().len() && (#[trigger] entries.drop_last()[i]).1
                    == spec_resolve(entries.drop_last(), tick, live);
            assert(entries[i].1 == spec_resolve(entries, tick, live));
        }
    }
}

} // verus!
