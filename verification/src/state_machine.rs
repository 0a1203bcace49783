//! The state-resolution engine: named states with durations, an ordered list
//! of transition rules with two trigger classes, time advance with wraparound,
//! and transitive transition chasing with a visited-set cycle guard.

use vstd::prelude::*;

use crate::condition::Condition;
use crate::state_key::StateKey;

verus! {

use vstd::pervasive::cloned;

/// A state descriptor: how many ticks the state lasts and whether its clock
/// wraps around when it completes.
#[derive(Clone, Copy, PartialEq, Eq, Structural, Debug)]
pub struct State {
    /// The state duration, in ticks.
    pub duration: u64,
    /// Whether the state repeats.
    pub repeat: bool,
}

/// The live record of the state a machine is currently in.
#[derive(Clone, PartialEq, Eq, Debug)]
pub struct CurrentState<K> {
    /// The current state key.
    pub key: K,
    /// The current state duration, in ticks, copied from the state at entry.
    pub duration: u64,
    /// Ticks elapsed within the current state; at most `duration`.
    pub elapsed: u64,
    /// Whether the current state repeats, copied from the state at entry.
    pub repeat: bool,
}

impl<K> CurrentState<K> {
    /// Returns the current state's progress through its duration, as the
    /// exact ratio `elapsed / duration` (numerator, denominator).
    pub fn progress(&self) -> (r: (u64, u64))
        ensures
            r == (self.elapsed, self.duration),
    {
        (self.elapsed, self.duration)
    }

    /// Returns whether the current state has run through its whole duration.
    pub fn finished(&self) -> (b: bool)
        ensures
            b == (self.elapsed >= self.duration),
    {
        self.elapsed >= self.duration
    }
}

/// Where a transition rule starts: a specific state, or any state.
#[derive(Clone, PartialEq, Eq, Debug)]
pub enum TransitionStartState<K> {
    /// Any state.
    Any,
    /// A specific state.
    Node(K),
}

/// Where a transition rule ends: always a specific state.
#[derive(Clone, PartialEq, Eq, Debug)]
pub enum TransitionEndState<K> {
    /// A specific state.
    Node(K),
}

/// What makes a transition rule fire: completion of the current state, or a
/// condition over the machine's parameters.
#[derive(Clone, Debug)]
pub enum TransitionTrigger<C> {
    /// A condition over the parameters.
    Condition(C),
    /// The current state has completed.
    End,
}

/// A transition rule: a directed edge between states (or from any state),
/// gated by a trigger.
#[derive(Clone, Debug)]
pub struct Transition<K, C> {
    /// The start state.
    pub start_state: TransitionStartState<K>,
    /// The end state.
    pub end_state: TransitionEndState<K>,
    /// The trigger.
    pub trigger: TransitionTrigger<C>,
}

/// A construction error: the one way a machine can fail, each carrying the
/// offending key.
#[derive(Clone, PartialEq, Eq, Debug)]
pub enum StateMachineError<K> {
    /// The starting state does not exist.
    InvalidStartingState(K),
    /// The start state of a transition does not exist.
    InvalidTransitionStartState(K),
    /// The end state of a transition does not exist.
    InvalidTransitionEndState(K),
}

/// The mathematical content of a machine: everything its contracts speak of.
pub struct MachineView<K, P, C> {
    /// The live current-state record.
    pub current: CurrentState<K>,
    /// The named states, in construction order.
    pub states: Seq<(K, State)>,
    /// The transition rules, in declaration order.
    pub transitions: Seq<Transition<K, C>>,
    /// The opaque parameter value.
    pub params: P,
}

/// Which class of rule a scan considers.
///
/// A time step considers only `End` rules (the parameters have not changed);
/// a parameter change considers only `Condition` rules (time has not moved);
/// the chain that follows an initial transition considers both, with `End`
/// gated on the newly entered state being already complete.
#[derive(Clone, Copy, PartialEq, Eq, Structural, Debug)]
pub enum ScanKind {
    /// The scan after a time step.
    Time,
    /// The scan after a parameter change.
    Params,
    /// The scan inside chain resolution.
    Chain,
}

/// The key a transition rule ends in.
pub open spec fn end_key<K>(e: TransitionEndState<K>) -> K {
    match e {
        TransitionEndState::Node(k) => k,
    }
}

/// The descriptor stored for `key`, taking the first entry when a key is
/// listed more than once.
pub open spec fn spec_find_state<K>(states: Seq<(K, State)>, key: K) -> Option<State>
    decreases states.len(),
{
    if states.len() == 0 {
        None
    } else if states[0].0 == key {
        Some(states[0].1)
    } else {
        spec_find_state(states.skip(1), key)
    }
}

/// Whether `key` names a state.
pub open spec fn has_state<K>(states: Seq<(K, State)>, key: K) -> bool {
    spec_find_state(states, key) is Some
}

/// Whether a trigger fires, given the parameters, whether the current state
/// has completed, and which class of rule the scan considers.
pub open spec fn trigger_fires<P, C: Condition<P>>(
    t: TransitionTrigger<C>,
    params: P,
    ended: bool,
    scan: ScanKind,
) -> bool {
    match t {
        TransitionTrigger::End => match scan {
            ScanKind::Time => true,
            ScanKind::Params => false,
            ScanKind::Chain => ended,
        },
        TransitionTrigger::Condition(c) => match scan {
            ScanKind::Time => false,
            ScanKind::Params => c.holds(&params),
            ScanKind::Chain => c.holds(&params),
        },
    }
}

/// Whether a rule is taken when scanned from state `key`: its start matches,
/// its end is a different state (self-transitions are never taken), and its
/// trigger fires.
pub open spec fn rule_applies<K, P, C: Condition<P>>(
    t: Transition<K, C>,
    key: K,
    params: P,
    ended: bool,
    scan: ScanKind,
) -> bool {
    &&& (t.start_state == TransitionStartState::Node(key) || t.start_state
        == TransitionStartState::<K>::Any)
    &&& end_key(t.end_state) != key
    &&& trigger_fires(t.trigger, params, ended, scan)
}

/// The index of the first rule at or after `i` that applies, if any:
/// declaration order alone decides.
pub open spec fn first_rule_at<K, P, C: Condition<P>>(
    ts: Seq<Transition<K, C>>,
    key: K,
    params: P,
    ended: bool,
    scan: ScanKind,
    i: int,
) -> Option<int>
    decreases ts.len() - i,
{
    if i < 0 || i >= ts.len() {
        None
    } else if rule_applies(ts[i], key, params, ended, scan) {
        Some(i)
    } else {
        first_rule_at(ts, key, params, ended, scan, i + 1)
    }
}

/// The index of the first rule that applies, if any.
pub open spec fn first_rule<K, P, C: Condition<P>>(
    ts: Seq<Transition<K, C>>,
    key: K,
    params: P,
    ended: bool,
    scan: ScanKind,
) -> Option<int> {
    first_rule_at(ts, key, params, ended, scan, 0)
}

/// The current-state record after entering the state named `key`.
pub open spec fn entered<K>(key: K, st: State) -> CurrentState<K> {
    CurrentState { key, duration: st.duration, elapsed: 0, repeat: st.repeat }
}

/// Chain resolution: from `cur`, repeatedly take the first applicable rule,
/// stopping when none applies or when the candidate's end was already entered
/// in this cascade (the cycle guard). `visited` holds the keys entered so
/// far; `fuel` bounds the recursion and is in practice never exhausted, since
/// every step enters a distinct existing state.
pub open spec fn chase<K, P, C: Condition<P>>(
    states: Seq<(K, State)>,
    ts: Seq<Transition<K, C>>,
    params: P,
    cur: CurrentState<K>,
    visited: Seq<K>,
    fuel: nat,
) -> CurrentState<K>
    decreases fuel,
{
    if fuel == 0 {
        cur
    } else {
        match first_rule(ts, cur.key, params, cur.elapsed >= cur.duration, ScanKind::Chain) {
            None => cur,
            Some(i) => {
                let k = end_key(ts[i].end_state);
                if visited.contains(k) {
                    cur
                } else {
                    match spec_find_state(states, k) {
                        None => cur,
                        Some(st) => chase(
                            states,
                            ts,
                            params,
                            entered(k, st),
                            visited.push(k),
                            (fuel - 1) as nat,
                        ),
                    }
                }
            },
        }
    }
}

/// One initial transition along rule `i`, followed by chain resolution seeded
/// with the key just entered.
pub open spec fn take_rule<K, P, C: Condition<P>>(v: MachineView<K, P, C>, i: int) -> CurrentState<
    K,
> {
    let k = end_key(v.transitions[i].end_state);
    match spec_find_state(v.states, k) {
        None => v.current,
        Some(st) => chase(
            v.states,
            v.transitions,
            v.params,
            entered(k, st),
            seq![k],
            v.states.len() as nat,
        ),
    }
}

/// The machine after a parameter change to `p`: the parameters are replaced,
/// then the first applicable `Condition` rule, if any, is taken and the chain
/// resolved.
pub open spec fn step_params<K, P, C: Condition<P>>(v: MachineView<K, P, C>, p: P) -> MachineView<
    K,
    P,
    C,
> {
    let v1 = MachineView { params: p, ..v };
    let ended = v.current.elapsed >= v.current.duration;
    match first_rule(v.transitions, v.current.key, p, ended, ScanKind::Params) {
        None => v1,
        Some(i) => MachineView { current: take_rule(v1, i), ..v1 },
    }
}

/// The machine after `dt` ticks. While the current state is incomplete, time
/// accrues; at the tick where it completes, the clock wraps (repeat) or
/// clamps (one-shot), and only then is the first applicable `End` rule taken
/// and the chain resolved. Once a state is finished, further time changes
/// nothing.
pub open spec fn step_time<K, P, C: Condition<P>>(v: MachineView<K, P, C>, dt: u64) -> MachineView<
    K,
    P,
    C,
> {
    if v.current.elapsed >= v.current.duration {
        v
    } else {
        let e = v.current.elapsed + dt;
        if e < v.current.duration {
            MachineView { current: CurrentState { elapsed: e as u64, ..v.current }, ..v }
        } else {
            let wrapped = if v.current.repeat {
                (e % (v.current.duration as int)) as u64
            } else {
                v.current.duration
            };
            let v1 = MachineView {
                current: CurrentState { elapsed: wrapped, ..v.current },
                ..v
            };
            match first_rule(v.transitions, v.current.key, v.params, true, ScanKind::Time) {
                None => v1,
                Some(i) => MachineView { current: take_rule(v1, i), ..v1 },
            }
        }
    }
}

/// The first structural fault among the rules at or after `i`: a start or end
/// key that names no state, starts checked before ends within one rule.
pub open spec fn first_bad_rule<K, P, C: Condition<P>>(
    ts: Seq<Transition<K, C>>,
    states: Seq<(K, State)>,
    i: int,
) -> Option<StateMachineError<K>>
    decreases ts.len() - i,
{
    if i < 0 || i >= ts.len() {
        None
    } else {
        let bad_start = match ts[i].start_state {
            TransitionStartState::Any => None,
            TransitionStartState::Node(k) => if !has_state(states, k) {
                Some(StateMachineError::InvalidTransitionStartState(k))
            } else {
                None
            },
        };
        match bad_start {
            Some(e) => Some(e),
            None => {
                let k = end_key(ts[i].end_state);
                if !has_state(states, k) {
                    Some(StateMachineError::InvalidTransitionEndState(k))
                } else {
                    first_bad_rule(ts, states, i + 1)
                }
            },
        }
    }
}

/// The machine a valid construction yields, or the first construction error:
/// a missing starting state is reported first, then the first rule whose
/// start or end names no state.
pub open spec fn spec_new<K, P, C: Condition<P>>(
    starting_state: K,
    states: Seq<(K, State)>,
    transitions: Seq<Transition<K, C>>,
    parameters: P,
) -> Result<MachineView<K, P, C>, StateMachineError<K>> {
    match spec_find_state(states, starting_state) {
        None => Err(StateMachineError::InvalidStartingState(starting_state)),
        Some(st) => match first_bad_rule(transitions, states, 0) {
            Some(e) => Err(e),
            None => Ok(
                MachineView {
                    current: entered(starting_state, st),
                    states,
                    transitions,
                    params: parameters,
                },
            ),
        },
    }
}

/// The engine: the set of named states, the ordered rule list, the live
/// current-state record, and the opaque parameter value.
#[derive(Debug)]
pub struct StateMachine<K, P, C> {
    current_state: CurrentState<K>,
    states: Vec<(K, State)>,
    transitions: Vec<Transition<K, C>>,
    parameters: P,
}

impl<K, P, C> View for StateMachine<K, P, C> {
    type V = MachineView<K, P, C>;

    closed spec fn view(&self) -> MachineView<K, P, C> {
        MachineView {
            current: self.current_state,
            states: self.states@,
            transitions: self.transitions@,
            params: self.parameters,
        }
    }
}

/// Structural soundness of a machine: the current key and every key a rule
/// references name states, and the clock never runs past the duration.
pub open spec fn view_wf<K, P, C>(v: MachineView<K, P, C>) -> bool {
    &&& has_state(v.states, v.current.key)
    &&& v.current.elapsed <= v.current.duration
    &&& forall|i: int|
        0 <= i < v.transitions.len() ==> has_state(
            v.states,
            end_key(#[trigger] v.transitions[i].end_state),
        )
    &&& forall|i: int|
        0 <= i < v.transitions.len() ==> match #[trigger] v.transitions[i].start_state {
            TransitionStartState::Any => true,
            TransitionStartState::Node(k) => has_state(v.states, k),
        }
}

impl<K, P, C> StateMachine<K, P, C> {
    #[verifier::type_invariant]
    pub(crate) open spec fn wf(self) -> bool {
        view_wf(self@)
    }

    /// The state list, for validation against other per-state tables.
    pub(crate) fn states_list(&self) -> (r: &Vec<(K, State)>)
        ensures
            r@ == self@.states,
    {
        &self.states
    }
}

/// Whether `b` is the same rule as `a` up to cloning of its condition.
pub open spec fn rule_cloned<K, C: Clone>(a: Transition<K, C>, b: Transition<K, C>) -> bool {
    &&& b.start_state == a.start_state
    &&& b.end_state == a.end_state
    &&& match (a.trigger, b.trigger) {
        (TransitionTrigger::End, TransitionTrigger::End) => true,
        (TransitionTrigger::Condition(x), TransitionTrigger::Condition(y)) => cloned::<C>(x, y),
        _ => false,
    }
}

impl<K: StateKey, P: Clone, C: Clone> Clone for StateMachine<K, P, C> {
    /// The copy has the same current state, states and rule structure; its
    /// conditions and parameters are clones of the originals.
    fn clone(&self) -> (res: Self)
        ensures
            res@.current == self@.current,
            res@.states == self@.states,
            res@.transitions.len() == self@.transitions.len(),
            forall|i: int|
                0 <= i < self@.transitions.len() ==> rule_cloned(
                    self@.transitions[i],
                    #[trigger] res@.transitions[i],
                ),
            cloned::<P>(self@.params, res@.params),
    {
        proof {
            use_type_invariant(self);
        }
        let mut states: Vec<(K, State)> = Vec::new();
        let mut i: usize = 0;
        while i < self.states.len()
            invariant
                i <= self.states@.len(),
                states@ =~= self.states@.take(i as int),
            decreases self.states@.len() - i,
        {
            states.push((self.states[i].0.duplicate(), self.states[i].1));
            i = i + 1;
        }
        assert(states@ =~= self.states@);
        let mut transitions: Vec<Transition<K, C>> = Vec::new();
        let mut j: usize = 0;
        while j < self.transitions.len()
            invariant
                j <= self.transitions@.len(),
                transitions@.len() == j,
                forall|n: int|
                    0 <= n < j ==> rule_cloned(
                        self.transitions@[n],
                        #[trigger] transitions@[n],
                    ),
            decreases self.transitions@.len() - j,
        {
            let t = &self.transitions[j];
            let start_state = match &t.start_state {
                TransitionStartState::Any => TransitionStartState::Any,
                TransitionStartState::Node(k) => TransitionStartState::Node(k.duplicate()),
            };
            let end_state = match &t.end_state {
                TransitionEndState::Node(k) => TransitionEndState::Node(k.duplicate()),
            };
            let trigger = match &t.trigger {
                TransitionTrigger::End => TransitionTrigger::End,
                TransitionTrigger::Condition(c) => TransitionTrigger::Condition(c.clone()),
            };
            transitions.push(Transition { start_state, end_state, trigger });
            j = j + 1;
        }
        let current_state = CurrentState {
            key: self.current_state.key.duplicate(),
            duration: self.current_state.duration,
            elapsed: self.current_state.elapsed,
            repeat: self.current_state.repeat,
        };
        let res = StateMachine {
            current_state,
            states,
            transitions,
            parameters: self.parameters.clone(),
        };
        proof {
            assert forall|i: int| 0 <= i < res@.transitions.len() implies has_state(
                res@.states,
                end_key(#[trigger] res@.transitions[i].end_state),
            ) by {
                assert(rule_cloned(self@.transitions[i], res@.transitions[i]));
            }
            assert forall|i: int|
                0 <= i < res@.transitions.len() implies match #[trigger] res@.transitions[i].start_state {
                TransitionStartState::Any => true,
                TransitionStartState::Node(k) => has_state(res@.states, k),
            } by {
                assert(rule_cloned(self@.transitions[i], res@.transitions[i]));
            }
        }
        res
    }
}

/// Looks `key` up among the states, returning the first matching descriptor.
fn find_state_in<K: StateKey>(states: &Vec<(K, State)>, key: &K) -> (r: Option<State>)
    ensures
        r == spec_find_state(states@, *key),
{
    let mut i: usize = 0;
    assert(states@.skip(0) =~= states@);
    while i < states.len()
        invariant
            i <= states@.len(),
            spec_find_state(states@, *key) == spec_find_state(states@.skip(i as int), *key),
        decreases states@.len() - i,
    {
        if states[i].0.eq_key(key) {
            assert(states@.skip(i as int)[0] == states@[i as int]);
            return Some(states[i].1);
        }
        assert(states@.skip(i as int)[0] == states@[i as int]);
        assert(states@.skip(i as int).skip(1) =~= states@.skip(i as int + 1));
        i = i + 1;
    }
    None
}

/// Scans the rules in declaration order for the first that applies from
/// state `key`, under the given scan class.
fn find_first_rule<K: StateKey, P, C: Condition<P>>(
    ts: &Vec<Transition<K, C>>,
    key: &K,
    params: &P,
    ended: bool,
    scan: ScanKind,
) -> (r: Option<usize>)
    ensures
        match r {
            Some(i) => i < ts@.len() && first_rule(ts@, *key, *params, ended, scan) == Some(
                i as int,
            ),
            None => first_rule(ts@, *key, *params, ended, scan) is None,
        },
{
    let mut i: usize = 0;
    while i < ts.len()
        invariant
            i <= ts@.len(),
            first_rule(ts@, *key, *params, ended, scan) == first_rule_at(
                ts@,
                *key,
                *params,
                ended,
                scan,
                i as int,
            ),
        decreases ts@.len() - i,
    {
        let start_matches = match &ts[i].start_state {
            TransitionStartState::Any => true,
            TransitionStartState::Node(k) => k.eq_key(key),
        };
        if start_matches {
            let not_self = match &ts[i].end_state {
                TransitionEndState::Node(k) => !k.eq_key(key),
            };
            if not_self {
                let fires = match &ts[i].trigger {
                    TransitionTrigger::End => match scan {
                        ScanKind::Time => true,
                        ScanKind::Params => false,
                        ScanKind::Chain => ended,
                    },
                    TransitionTrigger::Condition(c) => match scan {
                        ScanKind::Time => false,
                        ScanKind::Params => c.eval(params),
                        ScanKind::Chain => c.eval(params),
                    },
                };
                if fires {
                    assert(rule_applies(ts@[i as int], *key, *params, ended, scan));
                    return Some(i);
                }
            }
        }
        assert(!rule_applies(ts@[i as int], *key, *params, ended, scan));
        i = i + 1;
    }
    None
}

/// Under a clean scan of all rules from `j` on, every rule start and end
/// names a state.
proof fn lemma_no_bad_rules<K, P, C: Condition<P>>(
    ts: Seq<Transition<K, C>>,
    states: Seq<(K, State)>,
    j: int,
)
    requires
        0 <= j,
        first_bad_rule(ts, states, j) is None,
    ensures
        forall|i: int|
            j <= i < ts.len() ==> has_state(states, end_key(#[trigger] ts[i].end_state)),
        forall|i: int|
            j <= i < ts.len() ==> match #[trigger] ts[i].start_state {
                TransitionStartState::Any => true,
                TransitionStartState::Node(k) => has_state(states, k),
            },
    decreases ts.len() - j,
{
    if j < ts.len() {
        lemma_no_bad_rules(ts, states, j + 1);
    }
}

/// A key the lookup finds is one of the listed keys.
pub proof fn lemma_has_state_contains<K>(states: Seq<(K, State)>, k: K)
    requires
        has_state(states, k),
    ensures
        exists|i: int| 0 <= i < states.len() && states[i].0 == k,
    decreases states.len(),
{
    if states.len() > 0 && states[0].0 != k {
        lemma_has_state_contains(states.skip(1), k);
        let i = choose|i: int| 0 <= i < states.skip(1).len() && states.skip(1)[i].0 == k;
        assert(states[i + 1].0 == k);
    }
}

/// A duplicate-free sequence of existing state keys is no longer than the
/// state list itself.
proof fn lemma_visited_bound<K>(states: Seq<(K, State)>, visited: Seq<K>)
    requires
        visited.no_duplicates(),
        forall|j: int| 0 <= j < visited.len() ==> has_state(states, #[trigger] visited[j]),
    ensures
        visited.len() <= states.len(),
{
    broadcast use vstd::seq_lib::group_seq_properties;

    let keys = states.map_values(|p: (K, State)| p.0);
    visited.unique_seq_to_set();
    keys.lemma_cardinality_of_set();
    assert forall|k: K| visited.to_set().contains(k) implies keys.to_set().contains(k) by {
        lemma_has_state_contains(states, k);
        let i = choose|i: int| 0 <= i < states.len() && states[i].0 == k;
        assert(keys[i] == k);
        assert(keys.contains(k));
    }
    vstd::seq_lib::seq_to_set_is_finite(keys);
    vstd::set_lib::lemma_len_subset(visited.to_set(), keys.to_set());
}

impl<K: StateKey, P, C: Condition<P>> StateMachine<K, P, C> {
    /// Runs chain resolution: follows the first applicable rule from the
    /// current state over and over, stopping when none applies or when the
    /// candidate state was already entered in this cascade.
    fn resolve_chain(&mut self, visited: Vec<K>)
        requires
            visited@.len() >= 1,
            visited@.no_duplicates(),
            forall|j: int|
                0 <= j < visited@.len() ==> has_state(old(self)@.states, #[trigger] visited@[j]),
        ensures
            final(self)@.current == chase(
                old(self)@.states,
                old(self)@.transitions,
                old(self)@.params,
                old(self)@.current,
                visited@,
                old(self)@.states.len() as nat,
            ),
            final(self)@.states == old(self)@.states,
            final(self)@.transitions == old(self)@.transitions,
            final(self)@.params == old(self)@.params,
    {
        let ghost s0 = self@;
        let ghost v0 = visited@;
        let mut visited = visited;
        proof {
            use_type_invariant(&*self);
            lemma_visited_bound(s0.states, v0);
        }
        loop
            invariant
                self@.states == s0.states,
                self@.transitions == s0.transitions,
                self@.params == s0.params,
                has_state(self@.states, self@.current.key),
                self@.current.elapsed <= self@.current.duration,
                visited@.no_duplicates(),
                forall|j: int|
                    0 <= j < visited@.len() ==> has_state(s0.states, #[trigger] visited@[j]),
                v0.len() >= 1,
                visited@.len() >= v0.len(),
                visited@.len() <= s0.states.len(),
                chase(s0.states, s0.transitions, s0.params, s0.current, v0, s0.states.len() as nat)
                    == chase(
                    s0.states,
                    s0.transitions,
                    s0.params,
                    self@.current,
                    visited@,
                    (s0.states.len() + v0.len() - visited@.len()) as nat,
                ),
            ensures
                self@.states == s0.states,
                self@.transitions == s0.transitions,
                self@.params == s0.params,
                self@.current == chase(
                    s0.states,
                    s0.transitions,
                    s0.params,
                    s0.current,
                    v0,
                    s0.states.len() as nat,
                ),
            decreases s0.states.len() + v0.len() - visited@.len(),
        {
            let ghost fuel = (s0.states.len() + v0.len() - visited@.len()) as nat;
            proof {
                use_type_invariant(&*self);
                assert(fuel >= 1);
            }
            let ended = self.current_state.elapsed >= self.current_state.duration;
            let found = find_first_rule(
                &self.transitions,
                &self.current_state.key,
                &self.parameters,
                ended,
                ScanKind::Chain,
            );
            match found {
                None => {
                    assert(chase(s0.states, s0.transitions, s0.params, self@.current, visited@, fuel)
                        == self@.current);
                    break ;
                },
                Some(i) => {
                    let (k_vis, k_cur, st) = match &self.transitions[i].end_state {
                        TransitionEndState::Node(k) => {
                            if vec_contains_key(&visited, k) {
                                assert(chase(
                                    s0.states,
                                    s0.transitions,
                                    s0.params,
                                    self@.current,
                                    visited@,
                                    fuel,
                                ) == self@.current);
                                break ;
                            }
                            let st = match find_state_in(&self.states, k) {
                                Some(st) => st,
                                None => vstd::pervasive::unreached(),
                            };
                            (k.duplicate(), k.duplicate(), st)
                        },
                    };
                    let ghost cur_before = self@.current;
                    let ghost vis_before = visited@;
                    self.current_state.elapsed = 0;
                    self.current_state.duration = st.duration;
                    self.current_state.repeat = st.repeat;
                    self.current_state.key = k_cur;
                    visited.push(k_vis);
                    proof {
                        assert(forall|m: int|
                            0 <= m < vis_before.len() ==> vis_before[m] != self@.current.key);
                        assert(visited@.no_duplicates());
                        lemma_visited_bound(s0.states, visited@);
                        assert(self@.current == entered(
                            self@.current.key,
                            spec_find_state(s0.states, self@.current.key)->Some_0,
                        ));
                        assert(chase(s0.states, s0.transitions, s0.params, cur_before, vis_before, fuel)
                            == chase(
                            s0.states,
                            s0.transitions,
                            s0.params,
                            self@.current,
                            visited@,
                            (fuel - 1) as nat,
                        ));
                    }
                },
            }
        }
    }

    /// Enters the end state of rule `i`, then resolves the ensuing chain,
    /// with the entered key seeding the visited set.
    fn enter_rule(&mut self, i: usize)
        requires
            i < old(self)@.transitions.len(),
        ensures
            final(self)@.current == take_rule(old(self)@, i as int),
            final(self)@.states == old(self)@.states,
            final(self)@.transitions == old(self)@.transitions,
            final(self)@.params == old(self)@.params,
    {
        proof {
            use_type_invariant(&*self);
        }
        let (k_vis, k_cur, st) = match &self.transitions[i].end_state {
            TransitionEndState::Node(k) => {
                let st = match find_state_in(&self.states, k) {
                    Some(st) => st,
                    None => vstd::pervasive::unreached(),
                };
                (k.duplicate(), k.duplicate(), st)
            },
        };
        self.current_state.elapsed = 0;
        self.current_state.duration = st.duration;
        self.current_state.repeat = st.repeat;
        self.current_state.key = k_cur;
        let mut visited: Vec<K> = Vec::new();
        visited.push(k_vis);
        proof {
            assert(visited@ =~= seq![end_key(self@.transitions[i as int].end_state)]);
        }
        self.resolve_chain(visited);
    }
}

/// Whether the key list already holds `key`.
fn vec_contains_key<K: StateKey>(v: &Vec<K>, key: &K) -> (b: bool)
    ensures
        b == v@.contains(*key),
{
    let mut i: usize = 0;
    while i < v.len()
        invariant
            i <= v@.len(),
            forall|j: int| 0 <= j < i ==> v@[j] != *key,
        decreases v@.len() - i,
    {
        if v[i].eq_key(key) {
            return true;
        }
        i = i + 1;
    }
    false
}

impl<K: StateKey, P, C: Condition<P>> StateMachine<K, P, C> {
    /// Creates a new machine, validating that the starting key and every key
    /// a rule references name states. On success the machine starts in the
    /// starting state with no time elapsed.
    pub fn new(
        starting_state: K,
        states: Vec<(K, State)>,
        transitions: Vec<Transition<K, C>>,
        parameters: P,
    ) -> (r: Result<Self, StateMachineError<K>>)
        ensures
            ({
                let s = spec_new(starting_state, states@, transitions@, parameters);
                match r {
                    Ok(m) => s is Ok && m@ == s->Ok_0,
                    Err(e) => s is Err && e == s->Err_0,
                }
            }),
    {
        let start = match find_state_in(&states, &starting_state) {
            Some(st) => st,
            None => {
                return Err(StateMachineError::InvalidStartingState(starting_state));
            },
        };
        let mut i: usize = 0;
        while i < transitions.len()
            invariant
                i <= transitions@.len(),
                spec_find_state(states@, starting_state) == Some(start),
                first_bad_rule(transitions@, states@, 0) == first_bad_rule(
                    transitions@,
                    states@,
                    i as int,
                ),
            decreases transitions@.len() - i,
        {
            match &transitions[i].start_state {
                TransitionStartState::Any => {},
                TransitionStartState::Node(k) => {
                    if find_state_in(&states, k).is_none() {
                        proof {
                            reveal_with_fuel(first_bad_rule, 2);
                            assert(first_bad_rule(transitions@, states@, i as int) == Some(
                                StateMachineError::InvalidTransitionStartState(*k),
                            ));
                        }
                        return Err(StateMachineError::InvalidTransitionStartState(k.duplicate()));
                    }
                },
            }
            match &transitions[i].end_state {
                TransitionEndState::Node(k) => {
                    if find_state_in(&states, k).is_none() {
                        proof {
                            reveal_with_fuel(first_bad_rule, 2);
                            assert(first_bad_rule(transitions@, states@, i as int) == Some(
                                StateMachineError::InvalidTransitionEndState(*k),
                            ));
                        }
                        return Err(StateMachineError::InvalidTransitionEndState(k.duplicate()));
                    }
                },
            }
            proof {
                reveal_with_fuel(first_bad_rule, 2);
                assert(first_bad_rule(transitions@, states@, i as int) == first_bad_rule(
                    transitions@,
                    states@,
                    i as int + 1,
                ));
            }
            i = i + 1;
        }
        proof {
            lemma_no_bad_rules(transitions@, states@, 0);
        }
        Ok(
            StateMachine {
                current_state: CurrentState {
                    key: starting_state,
                    duration: start.duration,
                    elapsed: 0,
                    repeat: start.repeat,
                },
                states,
                transitions,
                parameters,
            },
        )
    }

    /// Advances the machine's clock by `dt` ticks. While the current state is
    /// incomplete, time accrues; at the tick where it completes, the clock
    /// wraps (repeat) or clamps (one-shot) and the first applicable `End`
    /// rule, if any, is taken and the chain resolved. A state that was
    /// already finished is left untouched.
    pub fn update(&mut self, dt: u64)
        ensures
            final(self)@ == step_time(old(self)@, dt),
    {
        proof {
            use_type_invariant(&*self);
        }
        if self.current_state.elapsed < self.current_state.duration {
            let e: u128 = self.current_state.elapsed as u128 + dt as u128;
            if e < self.current_state.duration as u128 {
                self.current_state.elapsed = e as u64;
            } else {
                let wrapped: u64 = if self.current_state.repeat {
                    (e % (self.current_state.duration as u128)) as u64
                } else {
                    self.current_state.duration
                };
                proof {
                    assert(wrapped <= self.current_state.duration);
                }
                self.current_state.elapsed = wrapped;
                let found = find_first_rule(
                    &self.transitions,
                    &self.current_state.key,
                    &self.parameters,
                    true,
                    ScanKind::Time,
                );
                match found {
                    None => {},
                    Some(i) => {
                        self.enter_rule(i);
                    },
                }
            }
        }
    }

    /// Replaces the parameters with what `f` makes of them, then takes the
    /// first applicable `Condition` rule, if any, and resolves the chain.
    /// Time is not re-evaluated, so `End` rules are not considered.
    pub fn update_parameters<F: Fn(&P) -> P>(&mut self, f: F)
        requires
            call_requires(f, (&old(self)@.params,)),
        ensures
            call_ensures(f, (&old(self)@.params,), final(self)@.params),
            final(self)@ == step_params(old(self)@, final(self)@.params),
    {
        proof {
            use_type_invariant(&*self);
        }
        let p = f(&self.parameters);
        self.parameters = p;
        let ended = self.current_state.elapsed >= self.current_state.duration;
        let found = find_first_rule(
            &self.transitions,
            &self.current_state.key,
            &self.parameters,
            ended,
            ScanKind::Params,
        );
        match found {
            None => {},
            Some(i) => {
                self.enter_rule(i);
            },
        }
    }

    /// Returns the current state record; a read-only snapshot.
    pub fn state(&self) -> (r: &CurrentState<K>)
        ensures
            *r == self@.current,
    {
        &self.current_state
    }

    /// Returns the parameters.
    pub fn parameters(&self) -> (r: &P)
        ensures
            *r == self@.params,
    {
        &self.parameters
    }
}

} // verus!
