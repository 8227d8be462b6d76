//! The per-entity behavioral state machine.
//!
//! A [`CurrentStates`] registry maps each active [`States`] value to its
//! [`StateInfos`] record.  The registry is mutated only through
//! [`CurrentStates::transition`], which applies the static transition rules
//! (blacklist, stop list, stop-all).  A [`StatesApplied`] view tracks which
//! active states downstream consumers have already been notified about; the
//! reconciler passes diff the registry against it and emit [`StateAdded`] /
//! [`StateRemoved`] notifications, re-emitting after a consumer reports a
//! failure through [`StatesApplied::failed_apply`].

use vstd::prelude::*;

use crate::math::Vec3Fixed;

verus! {

/// A behavioral state an entity can occupy (several at once, subject to the
/// transition rules).
#[derive(Clone, Copy, Debug, PartialEq, Eq, Hash, Structural)]
pub enum States {
    Idle,
    Walking,
    Jumping,
    Died,
}

/// Static transition rules of one target state: states whose presence forbids
/// entering it, states forcibly removed upon entering it, and whether entering
/// it clears every other state.
pub struct StatesSettings {
    pub blacklist: Vec<States>,
    pub stop_list: Vec<States>,
    pub stop_all: bool,
}

/// Optional payload carried by an active state (currently only the walking
/// movement direction).
#[derive(Clone, Copy, Debug, PartialEq, Eq, Structural)]
pub enum StatesValues {
    Walking(Vec3Fixed),
}

/// Metadata attached to an active state: a best-effort wall-clock start stamp
/// in milliseconds, an advisory elapsed duration in milliseconds, a cooldown
/// flag, the states this transition stopped, and the optional payload.
#[derive(Debug, PartialEq)]
pub struct StateInfos {
    pub start: Option<u64>,
    pub duration: u64,
    pub in_cooldown: bool,
    pub stopped_states: Vec<States>,
    pub values: Option<StatesValues>,
}

/// Mathematical model of a [`StateInfos`] record.
pub ghost struct StateRecModel {
    pub start: Option<u64>,
    pub duration: u64,
    pub in_cooldown: bool,
    pub stopped_states: Seq<States>,
    pub values: Option<StatesValues>,
}

impl View for StateInfos {
    type V = StateRecModel;

    open spec fn view(&self) -> StateRecModel {
        StateRecModel {
            start: self.start,
            duration: self.duration,
            in_cooldown: self.in_cooldown,
            stopped_states: self.stopped_states@,
            values: self.values,
        }
    }
}

/// Notification that `state` became active on entity `0` and downstream
/// should act on it.
#[derive(Clone, Copy, Debug, PartialEq, Eq, Structural)]
pub struct StateAdded(pub u64, pub States);

/// Notification that `state` stopped being active on entity `0`.
#[derive(Clone, Copy, Debug, PartialEq, Eq, Structural)]
pub struct StateRemoved(pub u64, pub States);

/// The ordered set of states downstream consumers have been (successfully)
/// notified about for one entity.  It lags the registry by one reconciler
/// pass on additions, and further when a consumer reports a failure.
#[derive(Debug, PartialEq)]
pub struct StatesApplied(pub Vec<States>);

/// The per-entity registry of active states: a key-unique association of each
/// active [`States`] to its [`StateInfos`] record, in insertion order.
#[derive(Debug, PartialEq)]
pub struct CurrentStates(pub Vec<(States, StateInfos)>);

/// The blacklist of `s`: states whose presence forbids entering `s`.
pub open spec fn spec_blacklist(s: States) -> Seq<States> {
    match s {
        States::Idle => seq![States::Died, States::Jumping],
        States::Walking => seq![States::Died, States::Jumping],
        States::Jumping => seq![States::Died],
        States::Died => Seq::<States>::empty(),
    }
}

/// The stop list of `s`: states forcibly removed upon entering `s`.
pub open spec fn spec_stop_list(s: States) -> Seq<States> {
    match s {
        States::Idle => seq![States::Walking],
        States::Walking => seq![States::Idle],
        States::Jumping => seq![States::Idle, States::Walking],
        States::Died => Seq::<States>::empty(),
    }
}

/// Whether entering `s` clears every other active state.
pub open spec fn spec_stop_all(s: States) -> bool {
    s == States::Died
}

/// Model of one registry entry.
pub open spec fn pair_model(p: (States, StateInfos)) -> (States, StateRecModel) {
    (p.0, p.1@)
}

impl View for CurrentStates {
    type V = Seq<(States, StateRecModel)>;

    open spec fn view(&self) -> Seq<(States, StateRecModel)> {
        self.0@.map_values(|p: (States, StateInfos)| pair_model(p))
    }
}

/// Whether some entry of `s` has key `k`.
pub open spec fn spec_has_key(s: Seq<(States, StateRecModel)>, k: States) -> bool {
    exists|i: int| 0 <= i < s.len() && s[i].0 == k
}

/// The record stored under key `k` (meaningful when the keys are unique and
/// `k` is present).
pub open spec fn spec_record(s: Seq<(States, StateRecModel)>, k: States) -> StateRecModel {
    s[choose|i: int| 0 <= i < s.len() && s[i].0 == k].1
}

/// In a key-unique registry, the record found beside key `k` at index `i`
/// is the record `spec_record` denotes.
pub proof fn lemma_record_at(s: Seq<(States, StateRecModel)>, i: int, k: States)
    requires
        unique_keys(s),
        0 <= i < s.len(),
        s[i].0 == k,
    ensures
        spec_has_key(s, k),
        spec_record(s, k) == s[i].1,
{
    assert(spec_has_key(s, k));
    let j = choose|j: int| 0 <= j < s.len() && s[j].0 == k;
    assert(i == j);
}

/// No two entries of `s` share a key.
pub open spec fn unique_keys(s: Seq<(States, StateRecModel)>) -> bool {
    forall|i: int, j: int| 0 <= i < j < s.len() ==> s[i].0 != s[j].0
}

/// A transition into `target` is accepted iff `target` is not already active
/// and no state of its blacklist is active.
pub open spec fn spec_can_transition(s: Seq<(States, StateRecModel)>, target: States) -> bool {
    &&& !spec_has_key(s, target)
    &&& forall|b: States| spec_blacklist(target).contains(b) ==> !spec_has_key(s, b)
}

/// The predicate selecting the registry entries that survive a transition
/// into `target`.
pub open spec fn keeps_key(target: States) -> spec_fn((States, StateRecModel)) -> bool {
    |p: (States, StateRecModel)| !spec_stop_list(target).contains(p.0)
}

/// The registry after `transition(target, rec)`: unchanged on a rejected
/// transition; otherwise the surviving entries, in order, followed by the new
/// entry, with the stop list of `target` appended to its `stopped_states`.
pub open spec fn spec_transition(
    s: Seq<(States, StateRecModel)>,
    target: States,
    rec: StateRecModel,
) -> Seq<(States, StateRecModel)> {
    if !spec_can_transition(s, target) {
        s
    } else {
        let kept = if spec_stop_all(target) {
            Seq::<(States, StateRecModel)>::empty()
        } else {
            s.filter(keeps_key(target))
        };
        kept.push(
            (target, StateRecModel { stopped_states: rec.stopped_states + spec_stop_list(target), ..rec }),
        )
    }
}

impl States {
    /// The static transition rules of this state; a pure lookup table.
    pub fn get_settings(&self) -> (r: StatesSettings)
        ensures
            r.blacklist@ == spec_blacklist(*self),
            r.stop_list@ == spec_stop_list(*self),
            r.stop_all == spec_stop_all(*self),
    {
        match self {
            States::Idle => {
                let r = StatesSettings {
                    blacklist: vec![States::Died, States::Jumping],
                    stop_list: vec![States::Walking],
                    stop_all: false,
                };
                proof {
                    assert(r.blacklist@ =~= spec_blacklist(*self));
                    assert(r.stop_list@ =~= spec_stop_list(*self));
                }
                r
            },
            States::Walking => {
                let r = StatesSettings {
                    blacklist: vec![States::Died, States::Jumping],
                    stop_list: vec![States::Idle],
                    stop_all: false,
                };
                proof {
                    assert(r.blacklist@ =~= spec_blacklist(*self));
                    assert(r.stop_list@ =~= spec_stop_list(*self));
                }
                r
            },
            States::Jumping => {
                let r = StatesSettings {
                    blacklist: vec![States::Died],
                    stop_list: vec![States::Idle, States::Walking],
                    stop_all: false,
                };
                proof {
                    assert(r.blacklist@ =~= spec_blacklist(*self));
                    assert(r.stop_list@ =~= spec_stop_list(*self));
                }
                r
            },
            States::Died => {
                let r = StatesSettings {
                    blacklist: Vec::new(),
                    stop_list: Vec::new(),
                    stop_all: true,
                };
                proof {
                    assert(r.blacklist@ =~= spec_blacklist(*self));
                    assert(r.stop_list@ =~= spec_stop_list(*self));
                }
                r
            },
        }
    }
}

/// Copies a vector of states element by element.
fn clone_states_vec(v: &Vec<States>) -> (r: Vec<States>)
    ensures
        r@ == v@,
{
    let mut r: Vec<States> = Vec::new();
    let mut i: usize = 0;
    while i < v.len()
        invariant
            i <= v.len(),
            r@ == v@.take(i as int),
        decreases v.len() - i,
    {
        proof {
            v@.lemma_take_succ_push(i as int);
        }
        r.push(v[i]);
        i += 1;
    }
    proof {
        v@.lemma_take_len();
    }
    r
}

impl Clone for StateInfos {
    fn clone(&self) -> (r: Self)
        ensures
            r@ == self@,
    {
        StateInfos {
            start: self.start,
            duration: self.duration,
            in_cooldown: self.in_cooldown,
            stopped_states: clone_states_vec(&self.stopped_states),
            values: self.values,
        }
    }
}

impl Default for StateInfos {
    /// A fresh record: no start stamp, zero duration, no cooldown, nothing
    /// stopped, no payload.  The wall-clock stamp is best-effort metadata;
    /// a caller that wants one attaches it with the current time.
    fn default() -> (r: Self)
        ensures
            r@ == (StateRecModel {
                start: None,
                duration: 0,
                in_cooldown: false,
                stopped_states: Seq::<States>::empty(),
                values: None,
            }),
    {
        let r = StateInfos {
            start: None,
            duration: 0,
            in_cooldown: false,
            stopped_states: Vec::new(),
            values: None,
        };
        proof {
            assert(r.stopped_states@ =~= Seq::<States>::empty());
        }
        r
    }
}

/// The predicate selecting the applied-view entries other than `x`.
pub open spec fn not_state(x: States) -> spec_fn(States) -> bool {
    |s: States| s != x
}

impl StatesApplied {
    /// Reports that a downstream consumer could not act on the notification
    /// for `failed_apply_state`: the state is dropped from the applied view
    /// (the registry is untouched), so the next reconciler pass treats it as
    /// newly added and re-emits its notification.
    pub fn failed_apply(&mut self, failed_apply_state: &States)
        ensures
            final(self).0@ == old(self).0@.filter(not_state(*failed_apply_state)),
    {
        let mut kept: Vec<States> = Vec::new();
        let mut i: usize = 0;
        while i < self.0.len()
            invariant
                i <= self.0.len(),
                self.0@ == old(self).0@,
                kept@ == old(self).0@.take(i as int).filter(not_state(*failed_apply_state)),
            decreases self.0.len() - i,
        {
            let s = self.0[i];
            proof {
                old(self).0@.lemma_take_succ_push(i as int);
                old(self).0@.take(i as int).lemma_filter_push(s, not_state(*failed_apply_state));
            }
            if !(s == *failed_apply_state) {
                kept.push(s);
            }
            i += 1;
        }
        proof {
            old(self).0@.lemma_take_len();
        }
        self.0 = kept;
    }
}

impl Default for CurrentStates {
    /// A newly created entity's registry holds exactly the `Idle` state.
    fn default() -> (r: Self)
        ensures
            r@.len() == 1,
            r@[0].0 == States::Idle,
            r@[0].1 == StateInfos::default_spec(),
            r.wf(),
    {
        let mut v: Vec<(States, StateInfos)> = Vec::new();
        v.push((States::Idle, StateInfos::default()));
        let r = CurrentStates(v);
        proof {
            assert(r@[0] == pair_model(r.0@[0]));
        }
        r
    }
}

impl StateInfos {
    /// The model of a fresh record, as [`StateInfos::default`] builds it.
    pub open spec fn default_spec() -> StateRecModel {
        StateRecModel {
            start: None,
            duration: 0,
            in_cooldown: false,
            stopped_states: Seq::<States>::empty(),
            values: None,
        }
    }
}

impl CurrentStates {
    /// Key uniqueness: a state is present at most once.
    pub open spec fn wf(self) -> bool {
        unique_keys(self@)
    }

    /// Whether `state` is currently active.
    pub open spec fn spec_has(self, state: States) -> bool {
        spec_has_key(self@, state)
    }

    /// Whether `state` is currently active in the registry.
    pub fn contains_key(&self, state: &States) -> (r: bool)
        ensures
            r == spec_has_key(self@, *state),
    {
        let mut i: usize = 0;
        while i < self.0.len()
            invariant
                i <= self.0.len(),
                forall|j: int| 0 <= j < i ==> self@[j].0 != *state,
            decreases self.0.len() - i,
        {
            if self.0[i].0 == *state {
                proof {
                    assert(self@[i as int].0 == *state);
                }
                return true;
            }
            i += 1;
        }
        false
    }

    /// A transition into `transition_state` is accepted iff it is not already
    /// active and none of its blacklist is active.
    pub fn can_transition(&self, transition_state: &States) -> (r: bool)
        ensures
            r == spec_can_transition(self@, *transition_state),
    {
        let settings = transition_state.get_settings();
        if self.contains_key(transition_state) {
            return false;
        }
        let mut valid_transition = true;
        let mut i: usize = 0;
        while i < settings.blacklist.len()
            invariant
                i <= settings.blacklist.len(),
                settings.blacklist@ == spec_blacklist(*transition_state),
                valid_transition == (forall|j: int|
                    0 <= j < i ==> !spec_has_key(self@, settings.blacklist@[j])),
            decreases settings.blacklist.len() - i,
        {
            let present = self.contains_key(&settings.blacklist[i]);
            valid_transition = valid_transition && !present;
            i += 1;
        }
        proof {
            let bl = spec_blacklist(*transition_state);
            if valid_transition {
                assert forall|b: States| bl.contains(b) implies !spec_has_key(self@, b) by {
                    let j = choose|j: int| 0 <= j < bl.len() && bl[j] == b;
                    assert(!spec_has_key(self@, bl[j]));
                }
            } else {
                let j = choose|j: int| 0 <= j < bl.len() && spec_has_key(self@, bl[j]);
                assert(bl.contains(bl[j]));
            }
        }
        valid_transition
    }

    /// Applies a transition into `transition_state` carrying `state_infos`.
    ///
    /// A rejected transition (state already active, or blacklisted) is a
    /// silent no-op: that is the conflict-resolution policy, not an error.
    /// Otherwise every state of the target's stop list is removed (every
    /// other state, when the target stops all) and recorded in the new
    /// record's `stopped_states`, and the target is inserted; the update is
    /// atomic within a tick.
    pub fn transition(&mut self, transition_state: &States, state_infos: StateInfos)
        requires
            old(self).wf(),
        ensures
            final(self).wf(),
            final(self)@ == spec_transition(old(self)@, *transition_state, state_infos@),
    {
        let can = self.can_transition(transition_state);
        if !can {
            return;
        }
        let settings = transition_state.get_settings();
        let ghost target = *transition_state;
        let ghost old_model = self@;

        let mut kept: Vec<(States, StateInfos)> = Vec::new();
        if !settings.stop_all {
            let mut i: usize = 0;
            while i < self.0.len()
                invariant
                    i <= self.0.len(),
                    self.0@ == old(self).0@,
                    settings.stop_list@ == spec_stop_list(target),
                    kept@.map_values(|p: (States, StateInfos)| pair_model(p)) == old(
                        self,
                    )@.take(i as int).filter(keeps_key(target)),
                decreases self.0.len() - i,
            {
                let key = self.0[i].0;
                proof {
                    old(self)@.lemma_take_succ_push(i as int);
                    old(self)@.take(i as int).lemma_filter_push(
                        old(self)@[i as int],
                        keeps_key(target),
                    );
                    assert(old(self)@[i as int] == pair_model(old(self).0@[i as int]));
                }
                let mut in_stop_list = false;
                let mut j: usize = 0;
                while j < settings.stop_list.len()
                    invariant
                        j <= settings.stop_list.len(),
                        settings.stop_list@ == spec_stop_list(target),
                        in_stop_list == (exists|k: int|
                            0 <= k < j && settings.stop_list@[k] == key),
                    decreases settings.stop_list.len() - j,
                {
                    if settings.stop_list[j] == key {
                        in_stop_list = true;
                    }
                    j += 1;
                }
                proof {
                    if in_stop_list {
                        let k = choose|k: int|
                            0 <= k < spec_stop_list(target).len() && spec_stop_list(target)[k]
                                == key;
                        assert(spec_stop_list(target).contains(spec_stop_list(target)[k]));
                    } else {
                        if spec_stop_list(target).contains(key) {
                            let k = choose|k: int|
                                0 <= k < spec_stop_list(target).len() && spec_stop_list(target)[k]
                                    == key;
                        }
                    }
                    assert(in_stop_list == spec_stop_list(target).contains(key));
                }
                if !in_stop_list {
                    let rec = self.0[i].1.clone();
                    let ghost kept_pre = kept@;
                    kept.push((key, rec));
                    proof {
                        kept_pre.lemma_push_map_commute(
                            |p: (States, StateInfos)| pair_model(p),
                            (key, rec),
                        );
                        assert(pair_model((key, rec)) == old(self)@[i as int]);
                    }
                }
                i += 1;
            }
            proof {
                old(self)@.lemma_take_len();
            }
        }

        let ghost orig_rec = state_infos@;
        let mut infos = state_infos;
        proof {
            assert(orig_rec.stopped_states + spec_stop_list(target).take(0)
                =~= orig_rec.stopped_states);
        }
        let mut j: usize = 0;
        while j < settings.stop_list.len()
            invariant
                j <= settings.stop_list.len(),
                settings.stop_list@ == spec_stop_list(target),
                infos@ == (StateRecModel {
                    stopped_states: orig_rec.stopped_states + spec_stop_list(target).take(j as int),
                    ..orig_rec
                }),
            decreases settings.stop_list.len() - j,
        {
            infos.stopped_states.push(settings.stop_list[j]);
            proof {
                spec_stop_list(target).lemma_take_succ_push(j as int);
                assert(orig_rec.stopped_states + spec_stop_list(target).take(j as int + 1)
                    =~= (orig_rec.stopped_states + spec_stop_list(target).take(j as int)).push(
                    spec_stop_list(target)[j as int],
                ));
            }
            j += 1;
        }
        proof {
            spec_stop_list(target).lemma_take_len();
        }
        kept.push((*transition_state, infos));
        proof {
            let f = |p: (States, StateInfos)| pair_model(p);
            let kept_model = kept@.drop_last().map_values(f);
            kept@.drop_last().lemma_push_map_commute(f, (target, infos));
            assert(kept@.drop_last().push((target, infos)) =~= kept@);
            assert(kept@.map_values(f) =~= kept_model.push(pair_model((target, infos))));
            assert(infos@ == (StateRecModel {
                stopped_states: orig_rec.stopped_states + spec_stop_list(target),
                ..orig_rec
            }));
        }
        self.0 = kept;
        proof {
            let s2 = spec_transition(old_model, target, state_infos@);
            assert(self@ == s2);
            lemma_transition_keeps_unique(old_model, target, state_infos@);
        }
    }
}

/// A transition preserves key uniqueness, activates its target, and
/// deactivates exactly the stopped states.
pub proof fn lemma_transition_updates(
    s: Seq<(States, StateRecModel)>,
    target: States,
    rec: StateRecModel,
)
    requires
        unique_keys(s),
        spec_can_transition(s, target),
    ensures
        spec_has_key(spec_transition(s, target, rec), target),
        forall|k: States|
            k != target ==> (spec_has_key(spec_transition(s, target, rec), k) <==> (spec_has_key(
                s,
                k,
            ) && !spec_stop_all(target) && !spec_stop_list(target).contains(k))),
        unique_keys(spec_transition(s, target, rec)),
{
    let s2 = spec_transition(s, target, rec);
    assert(s2[s2.len() - 1].0 == target);
    lemma_transition_keeps_unique(s, target, rec);
    let kept = if spec_stop_all(target) {
        Seq::<(States, StateRecModel)>::empty()
    } else {
        s.filter(keeps_key(target))
    };
    assert forall|k: States| k != target implies (spec_has_key(s2, k) <==> (spec_has_key(s, k)
        && !spec_stop_all(target) && !spec_stop_list(target).contains(k))) by {
        if spec_stop_all(target) {
            if spec_has_key(s2, k) {
                let i = choose|i: int| 0 <= i < s2.len() && s2[i].0 == k;
                assert(i == s2.len() - 1);
            }
        } else {
            if spec_has_key(s2, k) {
                let i = choose|i: int| 0 <= i < s2.len() && s2[i].0 == k;
                assert(i < s2.len() - 1);
                assert(kept[i] == s2[i]);
                s.lemma_filter_pred(keeps_key(target), i);
                kept.lemma_index_contains(i);
                s.lemma_filter_contains_rev(keeps_key(target), kept[i]);
                let j = choose|j: int| 0 <= j < s.len() && s[j] == kept[i];
                assert(spec_has_key(s, k));
                assert(!spec_stop_list(target).contains(k));
            }
            if spec_has_key(s, k) && !spec_stop_list(target).contains(k) {
                let i = choose|i: int| 0 <= i < s.len() && s[i].0 == k;
                s.lemma_filter_contains(keeps_key(target), i);
                let j = choose|j: int| 0 <= j < kept.len() && kept[j] == s[i];
                assert(s2[j] == kept[j]);
                assert(spec_has_key(s2, k));
            }
        }
    }
}

/// Key uniqueness is preserved by a transition.
pub proof fn lemma_transition_keeps_unique(
    s: Seq<(States, StateRecModel)>,
    target: States,
    rec: StateRecModel,
)
    requires
        unique_keys(s),
    ensures
        unique_keys(spec_transition(s, target, rec)),
{
    if spec_can_transition(s, target) {
        let kept = if spec_stop_all(target) {
            Seq::<(States, StateRecModel)>::empty()
        } else {
            s.filter(keeps_key(target))
        };
        lemma_filter_keeps_unique(s, keeps_key(target));
        let s2 = spec_transition(s, target, rec);
        assert forall|i: int, j: int| 0 <= i < j < s2.len() implies s2[i].0 != s2[j].0 by {
            if j == s2.len() - 1 {
                assert(s2[i] == kept[i]);
                kept.lemma_index_contains(i);
                if !spec_stop_all(target) {
                    s.lemma_filter_contains_rev(keeps_key(target), kept[i]);
                    let m = choose|m: int| 0 <= m < s.len() && s[m] == kept[i];
                    assert(s2[i].0 != target);
                }
            } else {
                assert(s2[i] == kept[i] && s2[j] == kept[j]);
            }
        }
    }
}

/// The keys of a registry model, in registry order.
pub open spec fn keys_of(s: Seq<(States, StateRecModel)>) -> Seq<States> {
    s.map_values(|p: (States, StateRecModel)| p.0)
}

/// The predicate selecting states absent from `applied`.
pub open spec fn not_in(applied: Seq<States>) -> spec_fn(States) -> bool {
    |s: States| !applied.contains(s)
}

/// The predicate selecting states present in `applied`.
pub open spec fn in_seq(applied: Seq<States>) -> spec_fn(States) -> bool {
    |s: States| applied.contains(s)
}

/// The states an added pass notifies about: registry keys, in registry
/// order, that the applied view does not hold yet.
pub open spec fn spec_added(regv: Seq<(States, StateRecModel)>, applied: Seq<States>) -> Seq<
    States,
> {
    keys_of(regv).filter(not_in(applied))
}

/// The states a removed pass notifies about: applied-view entries, in
/// applied order, that are no longer registry keys.
pub open spec fn spec_dropped(regv: Seq<(States, StateRecModel)>, applied: Seq<States>) -> Seq<
    States,
> {
    applied.filter(not_in(keys_of(regv)))
}

/// The applied-view entries that are still registry keys, in applied order.
pub open spec fn spec_retained(regv: Seq<(States, StateRecModel)>, applied: Seq<States>) -> Seq<
    States,
> {
    applied.filter(in_seq(keys_of(regv)))
}

/// One full reconciler pass synchronizes the applied view: whatever it held
/// before, afterwards it holds a state iff the registry does.
pub proof fn lemma_reconciler_synchronizes(
    regv: Seq<(States, StateRecModel)>,
    applied: Seq<States>,
)
    ensures
        forall|s: States|
            #[trigger] (spec_retained(regv, applied) + spec_added(regv, applied)).contains(s)
                <==> spec_has_key(regv, s),
{
    let keys = keys_of(regv);
    let retained = spec_retained(regv, applied);
    let added = spec_added(regv, applied);
    assert forall|s: States| (retained + added).contains(s) implies spec_has_key(regv, s) by {
        let i = choose|i: int| 0 <= i < (retained + added).len() && (retained + added)[i] == s;
        if i < retained.len() {
            assert(retained[i] == s);
            applied.lemma_filter_pred(in_seq(keys), i);
        } else {
            assert(added[i - retained.len()] == s);
            added.lemma_index_contains(i - retained.len());
            keys.lemma_filter_contains_rev(not_in(applied), s);
        }
        lemma_keys_of_contains(regv, s);
    }
    assert forall|s: States| spec_has_key(regv, s) implies (retained + added).contains(s) by {
        lemma_keys_of_contains(regv, s);
        let k = choose|k: int| 0 <= k < keys.len() && keys[k] == s;
        if applied.contains(s) {
            let i = choose|i: int| 0 <= i < applied.len() && applied[i] == s;
            applied.lemma_filter_contains(in_seq(keys), i);
            let j = choose|j: int| 0 <= j < retained.len() && retained[j] == s;
            assert((retained + added)[j] == s);
        } else {
            keys.lemma_filter_contains(not_in(applied), k);
            let j = choose|j: int| 0 <= j < added.len() && added[j] == s;
            assert((retained + added)[retained.len() + j] == s);
        }
    }
}

/// A key is in a registry model iff it is one of its keys.
pub proof fn lemma_keys_of_contains(s: Seq<(States, StateRecModel)>, k: States)
    ensures
        spec_has_key(s, k) <==> keys_of(s).contains(k),
{
    if spec_has_key(s, k) {
        let i = choose|i: int| 0 <= i < s.len() && s[i].0 == k;
        assert(keys_of(s)[i] == k);
    }
    if keys_of(s).contains(k) {
        let i = choose|i: int| 0 <= i < keys_of(s).len() && keys_of(s)[i] == k;
        assert(s[i].0 == k);
    }
}

/// Key-unique registries have duplicate-free key sequences.
pub proof fn lemma_keys_of_distinct(s: Seq<(States, StateRecModel)>)
    requires
        unique_keys(s),
    ensures
        forall|i: int, j: int| 0 <= i < j < keys_of(s).len() ==> keys_of(s)[i] != keys_of(s)[j],
{
    assert forall|i: int, j: int|
        0 <= i < j < keys_of(s).len() implies keys_of(s)[i] != keys_of(s)[j] by {
        assert(keys_of(s)[i] == s[i].0 && keys_of(s)[j] == s[j].0);
    }
}

/// Filtering by a predicate every element satisfies returns the sequence
/// unchanged.
pub proof fn lemma_filter_all_true(s: Seq<States>, pred: spec_fn(States) -> bool)
    requires
        forall|i: int| 0 <= i < s.len() ==> pred(#[trigger] s[i]),
    ensures
        s.filter(pred) == s,
    decreases s.len(),
{
    reveal(Seq::filter);
    if s.len() > 0 {
        lemma_filter_all_true(s.drop_last(), pred);
        assert(s.filter(pred) =~= s);
    }
}

/// Tests whether `v` holds `s`.
fn vec_contains_state(v: &Vec<States>, s: &States) -> (r: bool)
    ensures
        r == v@.contains(*s),
{
    let mut i: usize = 0;
    while i < v.len()
        invariant
            i <= v.len(),
            forall|j: int| 0 <= j < i ==> v@[j] != *s,
        decreases v.len() - i,
    {
        if v[i] == *s {
            return true;
        }
        i += 1;
    }
    false
}

/// The added pass shared by the reconciler entry points: appends every
/// registry key missing from the applied view, in registry order, and emits
/// one `StateAdded` notification for each.
fn added_pass(
    entity: u64,
    current_states: &CurrentStates,
    states_applied: &mut StatesApplied,
) -> (events: Vec<StateAdded>)
    requires
        current_states.wf(),
    ensures
        events@.len() == spec_added(current_states@, old(states_applied).0@).len(),
        forall|i: int|
            0 <= i < events@.len() ==> events@[i] == StateAdded(
                entity,
                spec_added(current_states@, old(states_applied).0@)[i],
            ),
        final(states_applied).0@ == old(states_applied).0@ + spec_added(
            current_states@,
            old(states_applied).0@,
        ),
{
    let ghost regv = current_states@;
    let ghost reg_keys = keys_of(current_states@);
    let ghost oldap = old(states_applied).0@;
    let mut events: Vec<StateAdded> = Vec::new();
    let mut i: usize = 0;
    proof {
        assert(states_applied.0@ =~= oldap + reg_keys.take(0).filter(not_in(oldap)));
        assert(events@.map_values(|e: StateAdded| e.1) =~= reg_keys.take(0).filter(not_in(oldap)));
    }
    while i < current_states.0.len()
        invariant
            i <= current_states.0.len(),
            current_states.wf(),
            regv == current_states@,
            reg_keys == keys_of(current_states@),
            states_applied.0@ == oldap + reg_keys.take(i as int).filter(not_in(oldap)),
            events@.len() == reg_keys.take(i as int).filter(not_in(oldap)).len(),
            forall|k: int|
                0 <= k < events@.len() ==> events@[k] == StateAdded(
                    entity,
                    reg_keys.take(i as int).filter(not_in(oldap))[k],
                ),
        decreases current_states.0.len() - i,
    {
        let key = current_states.0[i].0;
        let ghost added_pre = reg_keys.take(i as int).filter(not_in(oldap));
        proof {
            assert(reg_keys[i as int] == regv[i as int].0);
            assert(regv[i as int] == pair_model(current_states.0@[i as int]));
            reg_keys.lemma_take_succ_push(i as int);
            reg_keys.take(i as int).lemma_filter_push(key, not_in(oldap));
        }
        let already = vec_contains_state(&states_applied.0, &key);
        proof {
            // `already` tests the current applied view; the states appended
            // so far are other registry keys, so it agrees with the old view
            // on `key`.
            if already {
                let k = choose|k: int|
                    0 <= k < states_applied.0@.len() && states_applied.0@[k] == key;
                if k < oldap.len() {
                    assert(oldap.contains(key));
                } else {
                    assert(added_pre[k - oldap.len()] == key);
                    added_pre.lemma_index_contains(k - oldap.len());
                    reg_keys.take(i as int).lemma_filter_contains_rev(not_in(oldap), key);
                    let j = choose|j: int|
                        0 <= j < reg_keys.take(i as int).len() && reg_keys.take(i as int)[j]
                            == key;
                    lemma_keys_of_distinct(regv);
                    assert(reg_keys[j] == reg_keys[i as int]);
                    assert(false);
                }
            } else {
                if oldap.contains(key) {
                    let k = choose|k: int| 0 <= k < oldap.len() && oldap[k] == key;
                    assert(states_applied.0@[k] == key);
                    assert(states_applied.0@.contains(key));
                }
            }
        }
        if !already {
            states_applied.0.push(key);
            events.push(StateAdded(entity, key));
        }
        i += 1;
    }
    proof {
        reg_keys.lemma_take_len();
        assert(reg_keys.take(reg_keys.len() as int) == reg_keys);
    }
    events
}

/// One reconciler tick for one entity: the added pass appends and notifies
/// every registry key missing from the applied view, then the removed pass
/// drops and notifies every applied state no longer in the registry.  Within
/// a tick, additions are reported in registry iteration order; downstream
/// must not rely on the relative order of two states added in the same tick.
pub fn check_states_changed(
    entity: u64,
    current_states: &CurrentStates,
    states_applied: &mut StatesApplied,
) -> (events: (Vec<StateAdded>, Vec<StateRemoved>))
    requires
        current_states.wf(),
    ensures
        events.0@.len() == spec_added(current_states@, old(states_applied).0@).len(),
        forall|i: int|
            0 <= i < events.0@.len() ==> events.0@[i] == StateAdded(
                entity,
                spec_added(current_states@, old(states_applied).0@)[i],
            ),
        events.1@.len() == spec_dropped(current_states@, old(states_applied).0@).len(),
        forall|i: int|
            0 <= i < events.1@.len() ==> events.1@[i] == StateRemoved(
                entity,
                spec_dropped(current_states@, old(states_applied).0@)[i],
            ),
        final(states_applied).0@ == spec_retained(current_states@, old(states_applied).0@)
            + spec_added(current_states@, old(states_applied).0@),
{
    let ghost regv = current_states@;
    let ghost reg_keys = keys_of(current_states@);
    let ghost oldap = old(states_applied).0@;
    let added_events = added_pass(entity, current_states, states_applied);
    let ghost added = spec_added(regv, oldap);
    let ghost applied1 = oldap + added;

    let mut removed_events: Vec<StateRemoved> = Vec::new();
    let mut kept: Vec<States> = Vec::new();
    let mut i: usize = 0;
    proof {
        assert(kept@ =~= applied1.take(0).filter(in_seq(reg_keys)));
        assert(removed_events@.map_values(|e: StateRemoved| e.1) =~= applied1.take(0).filter(
            not_in(reg_keys),
        ));
    }
    while i < states_applied.0.len()
        invariant
            i <= states_applied.0.len(),
            current_states.wf(),
            regv == current_states@,
            reg_keys == keys_of(current_states@),
            states_applied.0@ == applied1,
            kept@ == applied1.take(i as int).filter(in_seq(reg_keys)),
            removed_events@.len() == applied1.take(i as int).filter(not_in(reg_keys)).len(),
            forall|k: int|
                0 <= k < removed_events@.len() ==> removed_events@[k] == StateRemoved(
                    entity,
                    applied1.take(i as int).filter(not_in(reg_keys))[k],
                ),
        decreases states_applied.0.len() - i,
    {
        let s = states_applied.0[i];
        proof {
            applied1.lemma_take_succ_push(i as int);
            applied1.take(i as int).lemma_filter_push(s, in_seq(reg_keys));
            applied1.take(i as int).lemma_filter_push(s, not_in(reg_keys));
        }
        let present = current_states.contains_key(&s);
        proof {
            lemma_keys_of_contains(regv, s);
        }
        if present {
            kept.push(s);
        } else {
            removed_events.push(StateRemoved(entity, s));
        }
        i += 1;
    }
    proof {
        applied1.lemma_take_len();
    }
    states_applied.0 = kept;
    proof {
        // Split both filters of `applied1` over the concatenation; the added
        // states are all registry keys, so they survive the removed pass.
        Seq::filter_distributes_over_add(oldap, added, in_seq(reg_keys));
        Seq::filter_distributes_over_add(oldap, added, not_in(reg_keys));
        assert forall|k: int| 0 <= k < added.len() implies in_seq(reg_keys)(#[trigger] added[k]) by {
            keys_of(regv).lemma_filter_pred(not_in(oldap), k);
            added.lemma_index_contains(k);
            keys_of(regv).lemma_filter_contains_rev(not_in(oldap), added[k]);
        }
        lemma_filter_all_true(added, in_seq(reg_keys));
        added.lemma_all_neg_filter_empty(not_in(reg_keys));
        assert(applied1.filter(not_in(reg_keys)) =~= oldap.filter(not_in(reg_keys)));
        assert(states_applied.0@ == spec_retained(regv, oldap) + spec_added(regv, oldap));
    }
    (added_events, removed_events)
}

/// The retry pass: after a consumer reported a failure, the failed state is
/// back out of the applied view while still in the registry, so this pass
/// re-appends it and re-emits its `StateAdded` notification.
pub fn check_states_failed_apply(
    entity: u64,
    current_states: &CurrentStates,
    states_applied: &mut StatesApplied,
) -> (events: Vec<StateAdded>)
    requires
        current_states.wf(),
    ensures
        events@.len() == spec_added(current_states@, old(states_applied).0@).len(),
        forall|i: int|
            0 <= i < events@.len() ==> events@[i] == StateAdded(
                entity,
                spec_added(current_states@, old(states_applied).0@)[i],
            ),
        final(states_applied).0@ == old(states_applied).0@ + spec_added(
            current_states@,
            old(states_applied).0@,
        ),
{
    added_pass(entity, current_states, states_applied)
}

/// Creates the applied view, empty, for an entity that newly exposes state
/// to the simulation; an entity that already has one is left alone.
pub fn current_states_added(states_applied: &mut Option<StatesApplied>)
    ensures
        (*old(states_applied)) is Some ==> *final(states_applied) == *old(states_applied),
        (*old(states_applied)) is None ==> match *final(states_applied) {
            Some(sa) => sa.0@ == Seq::<States>::empty(),
            None => false,
        },
{
    if states_applied.is_none() {
        let empty = StatesApplied(Vec::new());
        proof {
            assert(empty.0@ =~= Seq::<States>::empty());
        }
        *states_applied = Some(empty);
    }
}

/// Filtering a key-unique sequence keeps its keys unique.
pub proof fn lemma_filter_keeps_unique(
    s: Seq<(States, StateRecModel)>,
    pred: spec_fn((States, StateRecModel)) -> bool,
)
    requires
        unique_keys(s),
    ensures
        unique_keys(s.filter(pred)),
    decreases s.len(),
{
    reveal(Seq::filter);
    if s.len() > 0 {
        lemma_filter_keeps_unique(s.drop_last(), pred);
        let sub = s.drop_last().filter(pred);
        if pred(s.last()) {
            assert forall|i: int, j: int|
                0 <= i < j < s.filter(pred).len() implies s.filter(pred)[i].0 != s.filter(
                pred,
            )[j].0 by {
                if j == s.filter(pred).len() - 1 {
                    assert(s.filter(pred)[i] == sub[i]);
                    sub.lemma_index_contains(i);
                    s.drop_last().lemma_filter_contains_rev(pred, sub[i]);
                    let m = choose|m: int| 0 <= m < s.drop_last().len() && s.drop_last()[m]
                        == sub[i];
                    assert(s[m] == sub[i]);
                    assert(s[m].0 != s.last().0);
                } else {
                    assert(s.filter(pred)[i] == sub[i] && s.filter(pred)[j] == sub[j]);
                }
            }
        }
    }
}

/// How many times `x` occurs in `s`.
pub open spec fn spec_count(s: Seq<States>, x: States) -> nat
    decreases s.len(),
{
    if s.len() == 0 {
        0
    } else {
        spec_count(s.drop_last(), x) + if s.last() == x {
            1nat
        } else {
            0nat
        }
    }
}

/// Filtering a duplicate-free sequence leaves each surviving element exactly
/// once.
pub proof fn lemma_filter_count_distinct(s: Seq<States>, pred: spec_fn(States) -> bool, x: States)
    requires
        forall|i: int, j: int| 0 <= i < j < s.len() ==> s[i] != s[j],
    ensures
        spec_count(s.filter(pred), x) == if s.contains(x) && pred(x) {
            1nat
        } else {
            0nat
        },
    decreases s.len(),
{
    reveal(Seq::filter);
    if s.len() == 0 {
    } else {
        let rest = s.drop_last();
        let last = s.last();
        lemma_filter_count_distinct(rest, pred, x);
        if s.contains(x) {
            let i = choose|i: int| 0 <= i < s.len() && s[i] == x;
            if i < s.len() - 1 {
                assert(rest[i] == x);
                assert(rest.contains(x));
            }
        }
        if rest.contains(x) {
            let i = choose|i: int| 0 <= i < rest.len() && rest[i] == x;
            assert(s[i] == x);
        }
        if last == x {
            assert(!rest.contains(x));
            assert(s.contains(x)) by {
                assert(s[s.len() - 1] == x);
            }
        }
        if pred(last) {
            assert(s.filter(pred) == rest.filter(pred).push(last));
            assert(s.filter(pred).drop_last() =~= rest.filter(pred));
            assert(s.filter(pred).last() == last);
        }
    }
}

/// A state already active is never re-entered: its transition is rejected
/// and the registry is left unchanged.
pub proof fn lemma_active_transition_rejected(registry: CurrentStates, s: States, rec: StateRecModel)
    requires
        registry.spec_has(s),
    ensures
        !spec_can_transition(registry@, s),
        spec_transition(registry@, s, rec) == registry@,
{
}

/// The blacklists in force: `Died` forbids entering `Walking` and `Idle`,
/// and `Jumping` forbids entering `Idle`.
pub proof fn lemma_blacklist_blocks(registry: CurrentStates)
    ensures
        registry.spec_has(States::Died) ==> !spec_can_transition(registry@, States::Walking),
        registry.spec_has(States::Died) ==> !spec_can_transition(registry@, States::Idle),
        registry.spec_has(States::Jumping) ==> !spec_can_transition(registry@, States::Idle),
{
    assert(spec_blacklist(States::Walking).contains(States::Died)) by {
        assert(spec_blacklist(States::Walking)[0] == States::Died);
    }
    assert(spec_blacklist(States::Idle).contains(States::Died)) by {
        assert(spec_blacklist(States::Idle)[0] == States::Died);
    }
    assert(spec_blacklist(States::Idle).contains(States::Jumping)) by {
        assert(spec_blacklist(States::Idle)[1] == States::Jumping);
    }
}

/// Entering `Idle` on a registry whose only conflict is `Walking` is
/// accepted, and the one transition removes `Walking` and inserts `Idle`:
/// no intermediate registry with both absent or both present is observable.
pub proof fn lemma_idle_replaces_walking(registry: CurrentStates, rec: StateRecModel)
    requires
        registry.wf(),
        !registry.spec_has(States::Idle),
        !registry.spec_has(States::Died),
        !registry.spec_has(States::Jumping),
    ensures
        spec_can_transition(registry@, States::Idle),
        spec_has_key(spec_transition(registry@, States::Idle, rec), States::Idle),
        !spec_has_key(spec_transition(registry@, States::Idle, rec), States::Walking),
{
    assert forall|b: States| spec_blacklist(States::Idle).contains(b) implies !spec_has_key(
        registry@,
        b,
    ) by {
        let i = choose|i: int|
            0 <= i < spec_blacklist(States::Idle).len() && spec_blacklist(States::Idle)[i] == b;
        assert(b == States::Died || b == States::Jumping);
    }
    lemma_transition_updates(registry@, States::Idle, rec);
    assert(spec_stop_list(States::Idle).contains(States::Walking)) by {
        assert(spec_stop_list(States::Idle)[0] == States::Walking);
    }
}

/// Retry-until-acknowledged: after `failed_apply(s)` dropped `s` from the
/// applied view while `s` stayed active in the registry, the next added pass
/// notifies `StateAdded(s)` exactly once.
pub proof fn lemma_failed_apply_renotifies(registry: CurrentStates, applied: Seq<States>, s: States)
    requires
        registry.wf(),
        registry.spec_has(s),
    ensures
        spec_count(spec_added(registry@, applied.filter(not_state(s))), s) == 1,
{
    let applied1 = applied.filter(not_state(s));
    assert(!applied1.contains(s)) by {
        if applied1.contains(s) {
            let i = choose|i: int| 0 <= i < applied1.len() && applied1[i] == s;
            applied.lemma_filter_pred(not_state(s), i);
        }
    }
    lemma_keys_of_distinct(registry@);
    lemma_keys_of_contains(registry@, s);
    lemma_filter_count_distinct(keys_of(registry@), not_in(applied1), s);
}

} // verus!
