//! General properties of the engine, each stated and proved over the same
//! specification functions that the executable functions' contracts use.

use vstd::prelude::*;

use crate::animator::{frame_fits, frames_sorted, held_from, spec_held_index, Frame,
    PROGRESS_SCALE};
use crate::condition::Condition;
use crate::state_machine::{
    chase, end_key, entered, first_rule, first_rule_at, has_state, lemma_has_state_contains,
    rule_applies, spec_find_state, spec_new, step_params, step_time, take_rule, CurrentState,
    MachineView, ScanKind, State, Transition, TransitionEndState, TransitionStartState,
    TransitionTrigger,
};

verus! {

/// A valid construction starts in the supplied starting state with no time
/// elapsed.
pub proof fn lemma_new_starts_in_starting_state<K, P, C: Condition<P>>(
    starting_state: K,
    states: Seq<(K, State)>,
    transitions: Seq<Transition<K, C>>,
    parameters: P,
)
    requires
        spec_new(starting_state, states, transitions, parameters) is Ok,
    ensures
        spec_new(starting_state, states, transitions, parameters)->Ok_0.current.key
            == starting_state,
        spec_new(starting_state, states, transitions, parameters)->Ok_0.current.elapsed == 0,
{
}

/// The machine after a sequence of time steps, one per call.
pub open spec fn step_time_seq<K, P, C: Condition<P>>(
    v: MachineView<K, P, C>,
    dts: Seq<u64>,
) -> MachineView<K, P, C>
    decreases dts.len(),
{
    if dts.len() == 0 {
        v
    } else {
        step_time_seq(step_time(v, dts[0]), dts.skip(1))
    }
}

/// The total time of a sequence of time steps.
pub open spec fn total_ticks(dts: Seq<u64>) -> int
    decreases dts.len(),
{
    if dts.len() == 0 {
        0
    } else {
        dts[0] + total_ticks(dts.skip(1))
    }
}

/// One time step of a repeating state that no `End` rule redirects leaves
/// `elapsed` congruent to the total accrued time, modulo the duration, and
/// changes nothing else.
pub proof fn lemma_repeat_wraps<K, P, C: Condition<P>>(v: MachineView<K, P, C>, dt: u64)
    requires
        v.current.repeat,
        v.current.elapsed < v.current.duration,
        first_rule(v.transitions, v.current.key, v.params, true, ScanKind::Time) is None,
    ensures
        step_time(v, dt) == (MachineView {
            current: CurrentState {
                elapsed: ((v.current.elapsed + dt) % (v.current.duration as int)) as u64,
                ..v.current
            },
            ..v
        }),
        step_time(v, dt).current.elapsed < v.current.duration,
{
    let d = v.current.duration as int;
    let e = v.current.elapsed + dt;
    if e < d {
        vstd::arithmetic::div_mod::lemma_small_mod(e as nat, d as nat);
    } else {
        vstd::arithmetic::div_mod::lemma_mod_bound(e, d);
    }
}

/// Repeatedly advancing a repeating state that no `End` rule redirects is
/// periodic: after any sequence of time steps with total time `T`, `elapsed`
/// is `(elapsed + T) mod duration`, and nothing else changes.
pub proof fn lemma_repeat_is_periodic<K, P, C: Condition<P>>(
    v: MachineView<K, P, C>,
    dts: Seq<u64>,
)
    requires
        v.current.repeat,
        v.current.elapsed < v.current.duration,
        first_rule(v.transitions, v.current.key, v.params, true, ScanKind::Time) is None,
    ensures
        step_time_seq(v, dts) == (MachineView {
            current: CurrentState {
                elapsed: ((v.current.elapsed + total_ticks(dts)) % (
                v.current.duration as int)) as u64,
                ..v.current
            },
            ..v
        }),
    decreases dts.len(),
{
    let d = v.current.duration as int;
    if dts.len() == 0 {
        vstd::arithmetic::div_mod::lemma_small_mod(v.current.elapsed as nat, d as nat);
        assert(step_time_seq(v, dts) =~= (MachineView {
            current: CurrentState {
                elapsed: ((v.current.elapsed + total_ticks(dts)) % d) as u64,
                ..v.current
            },
            ..v
        }));
    } else {
        lemma_repeat_wraps(v, dts[0]);
        let v1 = step_time(v, dts[0]);
        lemma_repeat_is_periodic(v1, dts.skip(1));
        let e0 = v.current.elapsed as int;
        let rest = total_ticks(dts.skip(1));
        assert(rest >= 0) by {
            lemma_total_ticks_nonneg(dts.skip(1));
        }
        vstd::arithmetic::div_mod::lemma_add_mod_noop(e0 + dts[0], rest, d);
        vstd::arithmetic::div_mod::lemma_add_mod_noop_right((e0 + dts[0]) % d, rest, d);
        assert(v1.current.elapsed + rest == (e0 + dts[0]) % d + rest);
        assert(((e0 + dts[0]) % d + rest) % d == (e0 + dts[0] + rest) % d);
        assert(total_ticks(dts) == dts[0] + rest);
    }
}

/// The total time of a sequence of time steps is never negative.
pub proof fn lemma_total_ticks_nonneg(dts: Seq<u64>)
    ensures
        total_ticks(dts) >= 0,
    decreases dts.len(),
{
    if dts.len() > 0 {
        lemma_total_ticks_nonneg(dts.skip(1));
    }
}

/// A state that has already run through its whole duration is left untouched
/// by time: no time accrues and no rule is considered.
pub proof fn lemma_finished_state_is_stable<K, P, C: Condition<P>>(
    v: MachineView<K, P, C>,
    dt: u64,
)
    requires
        v.current.elapsed >= v.current.duration,
    ensures
        step_time(v, dt) == v,
{
}

/// Chain resolution never drives the clock past the duration: every entered
/// state starts at zero.
pub proof fn lemma_chase_elapsed_bounded<K, P, C: Condition<P>>(
    states: Seq<(K, State)>,
    ts: Seq<Transition<K, C>>,
    params: P,
    cur: CurrentState<K>,
    visited: Seq<K>,
    fuel: nat,
)
    requires
        cur.elapsed <= cur.duration,
    ensures
        chase(states, ts, params, cur, visited, fuel).elapsed <= chase(
            states,
            ts,
            params,
            cur,
            visited,
            fuel,
        ).duration,
    decreases fuel,
{
    if fuel > 0 {
        match first_rule(ts, cur.key, params, cur.elapsed >= cur.duration, ScanKind::Chain) {
            None => {},
            Some(i) => {
                let k = end_key(ts[i].end_state);
                if !visited.contains(k) {
                    match crate::state_machine::spec_find_state(states, k) {
                        None => {},
                        Some(st) => {
                            lemma_chase_elapsed_bounded(
                                states,
                                ts,
                                params,
                                entered(k, st),
                                visited.push(k),
                                (fuel - 1) as nat,
                            );
                        },
                    }
                }
            },
        }
    }
}

/// However a machine is stepped, the clock never runs past the duration:
/// `elapsed <= duration` is an invariant of both operations.
pub proof fn lemma_elapsed_never_exceeds_duration<K, P, C: Condition<P>>(
    v: MachineView<K, P, C>,
    dt: u64,
    p: P,
)
    requires
        v.current.elapsed <= v.current.duration,
    ensures
        step_time(v, dt).current.elapsed <= step_time(v, dt).current.duration,
        step_params(v, p).current.elapsed <= step_params(v, p).current.duration,
{
    let d = v.current.duration as int;
    if v.current.elapsed < v.current.duration {
        let e = v.current.elapsed + dt;
        if e >= d {
            vstd::arithmetic::div_mod::lemma_mod_bound(e, d);
        }
    }
    assert forall|w: MachineView<K, P, C>, i: int|
        w.current.elapsed <= w.current.duration implies crate::state_machine::take_rule(
        w,
        i,
    ).elapsed <= crate::state_machine::take_rule(w, i).duration by {
        let k = end_key(w.transitions[i].end_state);
        match crate::state_machine::spec_find_state(w.states, k) {
            None => {},
            Some(st) => {
                lemma_chase_elapsed_bounded(
                    w.states,
                    w.transitions,
                    w.params,
                    entered(k, st),
                    seq![k],
                    w.states.len() as nat,
                );
            },
        }
    }
}

/// Chain resolution only ever enters keys that name states.
proof fn lemma_chase_stays_valid<K, P, C: Condition<P>>(
    states: Seq<(K, State)>,
    ts: Seq<Transition<K, C>>,
    params: P,
    cur: CurrentState<K>,
    visited: Seq<K>,
    fuel: nat,
)
    requires
        has_state(states, cur.key),
    ensures
        has_state(states, chase(states, ts, params, cur, visited, fuel).key),
    decreases fuel,
{
    if fuel > 0 {
        match first_rule(ts, cur.key, params, cur.elapsed >= cur.duration, ScanKind::Chain) {
            None => {},
            Some(i) => {
                let k = end_key(ts[i].end_state);
                if !visited.contains(k) {
                    match spec_find_state(states, k) {
                        None => {},
                        Some(st) => {
                            lemma_chase_stays_valid(
                                states,
                                ts,
                                params,
                                entered(k, st),
                                visited.push(k),
                                (fuel - 1) as nat,
                            );
                        },
                    }
                }
            },
        }
    }
}

/// A rule the scan returns lies within the rule list.
proof fn lemma_first_rule_in_range<K, P, C: Condition<P>>(
    ts: Seq<Transition<K, C>>,
    key: K,
    params: P,
    ended: bool,
    scan: ScanKind,
    i: int,
)
    requires
        first_rule_at(ts, key, params, ended, scan, i) is Some,
    ensures
        0 <= first_rule_at(ts, key, params, ended, scan, i)->Some_0 < ts.len(),
    decreases ts.len() - i,
{
    if 0 <= i < ts.len() && !rule_applies(ts[i], key, params, ended, scan) {
        lemma_first_rule_in_range(ts, key, params, ended, scan, i + 1);
    }
}

/// Taking a rule whose end names a state leaves the machine in a state that
/// exists.
proof fn lemma_take_rule_valid<K, P, C: Condition<P>>(w: MachineView<K, P, C>, i: int)
    requires
        0 <= i < w.transitions.len(),
        has_state(w.states, end_key(w.transitions[i].end_state)),
        has_state(w.states, w.current.key),
    ensures
        has_state(w.states, take_rule(w, i).key),
{
    let k = end_key(w.transitions[i].end_state);
    match spec_find_state(w.states, k) {
        None => {},
        Some(st) => {
            lemma_chase_stays_valid(
                w.states,
                w.transitions,
                w.params,
                entered(k, st),
                seq![k],
                w.states.len() as nat,
            );
        },
    }
}

/// A machine in a valid state cannot reach an invalid one: every transition
/// target was validated up front, so both operations preserve structural
/// soundness, and only existing states are ever entered.
pub proof fn lemma_stepping_preserves_validity<K, P, C: Condition<P>>(
    v: MachineView<K, P, C>,
    dt: u64,
    p: P,
)
    requires
        crate::state_machine::view_wf(v),
    ensures
        crate::state_machine::view_wf(step_time(v, dt)),
        crate::state_machine::view_wf(step_params(v, p)),
{
    lemma_elapsed_never_exceeds_duration(v, dt, p);
    if v.current.elapsed < v.current.duration && v.current.elapsed + dt >= v.current.duration {
        let e = v.current.elapsed + dt;
        let wrapped = if v.current.repeat {
            (e % (v.current.duration as int)) as u64
        } else {
            v.current.duration
        };
        let v1 = MachineView { current: CurrentState { elapsed: wrapped, ..v.current }, ..v };
        match first_rule(v.transitions, v.current.key, v.params, true, ScanKind::Time) {
            None => {},
            Some(i) => {
                lemma_first_rule_in_range(
                    v.transitions,
                    v.current.key,
                    v.params,
                    true,
                    ScanKind::Time,
                    0,
                );
                lemma_take_rule_valid(v1, i);
            },
        }
    }
    let ended = v.current.elapsed >= v.current.duration;
    let v1p = MachineView { params: p, ..v };
    match first_rule(v.transitions, v.current.key, p, ended, ScanKind::Params) {
        None => {},
        Some(i) => {
            lemma_first_rule_in_range(v.transitions, v.current.key, p, ended, ScanKind::Params, 0);
            lemma_take_rule_valid(v1p, i);
        },
    }
}

/// No rule that applies from `key` ends in `key` itself.
proof fn lemma_all_self_rules_never_match<K, P, C: Condition<P>>(
    ts: Seq<Transition<K, C>>,
    key: K,
    params: P,
    ended: bool,
    scan: ScanKind,
    i: int,
)
    requires
        forall|j: int| 0 <= j < ts.len() ==> end_key(#[trigger] ts[j].end_state) == key,
        0 <= i,
    ensures
        first_rule_at(ts, key, params, ended, scan, i) is None,
    decreases ts.len() - i,
{
    if i < ts.len() {
        assert(!rule_applies(ts[i], key, params, ended, scan));
        lemma_all_self_rules_never_match(ts, key, params, ended, scan, i + 1);
    }
}

/// Self-transitions are never taken: a machine whose every rule ends in the
/// current state stays in that state, whatever time passes and however the
/// parameters change.
pub proof fn lemma_self_rules_leave_state_alone<K, P, C: Condition<P>>(
    v: MachineView<K, P, C>,
    dt: u64,
    p: P,
)
    requires
        forall|j: int|
            0 <= j < v.transitions.len() ==> end_key(#[trigger] v.transitions[j].end_state)
                == v.current.key,
    ensures
        step_time(v, dt).current.key == v.current.key,
        step_params(v, p).current.key == v.current.key,
{
    lemma_all_self_rules_never_match(
        v.transitions,
        v.current.key,
        v.params,
        true,
        ScanKind::Time,
        0,
    );
    lemma_all_self_rules_never_match(
        v.transitions,
        v.current.key,
        p,
        v.current.elapsed >= v.current.duration,
        ScanKind::Params,
        0,
    );
}

/// Chain resolution's cycle guard: with two always-true rules forming a
/// cycle between distinct states, a parameter change makes the first hop and
/// at most one more before the guard stops further movement, so the machine
/// comes back to the state it started in, freshly entered.
pub proof fn lemma_cycle_stops_after_one_extra_hop<K, P, C: Condition<P>>(
    v: MachineView<K, P, C>,
    p: P,
    a: K,
    b: K,
    ca: C,
    cb: C,
)
    requires
        v.current.key == a,
        a != b,
        has_state(v.states, a),
        has_state(v.states, b),
        v.transitions =~= seq![
            Transition {
                start_state: TransitionStartState::Node(a),
                end_state: TransitionEndState::Node(b),
                trigger: TransitionTrigger::Condition(ca),
            },
            Transition {
                start_state: TransitionStartState::Node(b),
                end_state: TransitionEndState::Node(a),
                trigger: TransitionTrigger::Condition(cb),
            },
        ],
        forall|q: P| ca.holds(&q),
        forall|q: P| cb.holds(&q),
    ensures
        step_params(v, p).current.key == a,
        step_params(v, p).current.elapsed == 0,
{
    let ts = v.transitions;
    let n = v.states.len() as nat;
    lemma_has_state_contains(v.states, a);
    lemma_has_state_contains(v.states, b);
    let ia = choose|i: int| 0 <= i < v.states.len() && v.states[i].0 == a;
    let ib = choose|i: int| 0 <= i < v.states.len() && v.states[i].0 == b;
    assert(ia != ib);
    assert(n >= 2);
    reveal_with_fuel(first_rule_at, 3);
    let ended = v.current.elapsed >= v.current.duration;
    assert(rule_applies(ts[0], a, p, ended, ScanKind::Params));
    assert(first_rule(ts, a, p, ended, ScanKind::Params) == Some(0int));
    let v1 = MachineView { params: p, ..v };
    let st_b = spec_find_state(v.states, b)->Some_0;
    let st_a = spec_find_state(v.states, a)->Some_0;
    let cur_b = entered(b, st_b);
    let cur_a = entered(a, st_a);
    reveal_with_fuel(chase, 3);
    assert(!rule_applies(ts[0], b, p, cur_b.elapsed >= cur_b.duration, ScanKind::Chain));
    assert(rule_applies(ts[1], b, p, cur_b.elapsed >= cur_b.duration, ScanKind::Chain));
    assert(first_rule(ts, b, p, cur_b.elapsed >= cur_b.duration, ScanKind::Chain) == Some(1int));
    assert(!seq![b].contains(a)) by {
        assert(forall|i: int| 0 <= i < seq![b].len() ==> seq![b][i] == b);
    }
    assert(rule_applies(ts[0], a, p, cur_a.elapsed >= cur_a.duration, ScanKind::Chain));
    assert(first_rule(ts, a, p, cur_a.elapsed >= cur_a.duration, ScanKind::Chain) == Some(0int));
    assert(seq![b].push(a).contains(b)) by {
        assert(seq![b].push(a)[0] == b);
    }
    assert(chase(v.states, ts, p, cur_a, seq![b].push(a), (n - 2) as nat) == cur_a);
    assert(chase(v.states, ts, p, cur_b, seq![b], (n - 1) as nat) == cur_a);
    assert(take_rule(v1, 0) == cur_a);
}

/// Thresholds sorted pairwise are sorted across any two positions.
proof fn lemma_sorted_across<F>(fl: Seq<Frame<F>>, a: int, b: int)
    requires
        frames_sorted(fl),
        0 <= a <= b < fl.len(),
    ensures
        fl[a].progress <= fl[b].progress,
    decreases b - a,
{
    if a < b {
        lemma_sorted_across(fl, a + 1, b);
    }
}

/// The frame scan never moves the held index backwards.
proof fn lemma_held_from_ge<F>(fl: Seq<Frame<F>>, num: int, den: int, held: int, i: int)
    requires
        held <= i,
    ensures
        held_from(fl, num, den, held, i) >= held,
    decreases fl.len() - i,
{
    if 0 <= i < fl.len() && frame_fits(fl[i], num, den) {
        lemma_held_from_ge(fl, num, den, i, i + 1);
    }
}

/// The scan's held index, walked from matching positions, picks the greatest
/// threshold not exceeding the progress, defaulting to the first frame.
proof fn lemma_held_from_greatest<F>(fl: Seq<Frame<F>>, num: int, den: int, held: int, i: int)
    requires
        fl.len() >= 1,
        frames_sorted(fl),
        den >= 0,
        0 <= held <= i <= fl.len(),
        i >= 1 ==> held == i - 1,
        i == 0 ==> held == 0,
        forall|j: int| 0 <= j < i ==> frame_fits(#[trigger] fl[j], num, den),
    ensures
        ({
            let r = held_from(fl, num, den, held, i);
            &&& 0 <= r < fl.len()
            &&& forall|j: int| 0 <= j < fl.len() && frame_fits(#[trigger] fl[j], num, den) ==> j
                <= r
            &&& frame_fits(fl[0], num, den) ==> frame_fits(fl[r], num, den)
            &&& !frame_fits(fl[0], num, den) ==> r == 0
        }),
    decreases fl.len() - i,
{
    if i >= fl.len() {
    } else if !frame_fits(fl[i], num, den) {
        assert forall|j: int| 0 <= j < fl.len() && frame_fits(#[trigger] fl[j], num, den) implies j
            <= held by {
            if j >= i {
                lemma_sorted_across(fl, i, j);
                vstd::arithmetic::mul::lemma_mul_inequality(
                    fl[i].progress as int,
                    fl[j].progress as int,
                    den,
                );
            }
        }
    } else {
        lemma_held_from_greatest(fl, num, den, i, i + 1);
    }
}

/// The displayed frame is the one with the greatest threshold not exceeding
/// the current progress, defaulting to the first frame: the scan is a step
/// function over the thresholds.
pub proof fn lemma_held_index_is_greatest_fit<F>(fl: Seq<Frame<F>>, num: int, den: int)
    requires
        fl.len() >= 1,
        frames_sorted(fl),
        den >= 0,
    ensures
        ({
            let r = spec_held_index(fl, num, den);
            &&& 0 <= r < fl.len()
            &&& forall|j: int| 0 <= j < fl.len() && frame_fits(#[trigger] fl[j], num, den) ==> j
                <= r
            &&& frame_fits(fl[0], num, den) ==> frame_fits(fl[r], num, den)
            &&& !frame_fits(fl[0], num, den) ==> r == 0
        }),
{
    lemma_held_from_greatest(fl, num, den, 0, 0);
}

/// Walked from held positions no further apart than the scan fronts, a scan
/// with less progress never holds a later frame than one with more.
proof fn lemma_held_from_monotonic<F>(
    fl: Seq<Frame<F>>,
    den: int,
    num1: int,
    num2: int,
    h1: int,
    h2: int,
    i: int,
)
    requires
        den >= 0,
        num1 <= num2,
        h1 <= h2,
        h1 <= i,
        h2 <= i,
    ensures
        held_from(fl, num1, den, h1, i) <= held_from(fl, num2, den, h2, i),
    decreases fl.len() - i,
{
    if 0 <= i < fl.len() {
        if frame_fits(fl[i], num1, den) {
            vstd::arithmetic::mul::lemma_mul_inequality(num1, num2, PROGRESS_SCALE as int);
            assert(frame_fits(fl[i], num2, den));
            lemma_held_from_monotonic(fl, den, num1, num2, i, i, i + 1);
        } else {
            lemma_held_from_ge(fl, num2, den, h2, i);
        }
    }
}

/// The frame lookup is monotonic in progress: within one state, a greater
/// progress never selects an earlier frame.
pub proof fn lemma_frame_lookup_monotonic<F>(fl: Seq<Frame<F>>, den: int, num1: int, num2: int)
    requires
        den >= 0,
        num1 <= num2,
    ensures
        spec_held_index(fl, num1, den) <= spec_held_index(fl, num2, den),
{
    lemma_held_from_monotonic(fl, den, num1, num2, 0, 0, 0);
}

} // verus!
