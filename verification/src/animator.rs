//! The frame-mapping layer: a per-state table of progress thresholds and
//! frame values, validated at construction, and a piecewise-constant lookup
//! from the engine's current progress to the frame that should be displayed.

use vstd::prelude::*;

use crate::condition::Condition;
use crate::state_key::StateKey;
use crate::state_machine::{
    has_state, lemma_has_state_contains, spec_find_state, step_params, step_time, MachineView,
    State, StateMachine,
};

verus! {

/// The denominator of a frame threshold: a threshold `t` stands for the
/// fraction `t / PROGRESS_SCALE` of a state's duration, so `0` is the start
/// of the state and `PROGRESS_SCALE` its end.
pub const PROGRESS_SCALE: u32 = 1000;

/// An animation frame: from which fraction of the state's duration it is
/// displayed, and the value (a sprite index, a texture handle) to display.
#[derive(Clone, Copy, PartialEq, Eq, Debug)]
pub struct Frame<F> {
    /// The threshold, in `PROGRESS_SCALE`-ths of the state's duration, from
    /// which the frame is displayed.
    pub progress: u32,
    /// The frame value.
    pub value: F,
}

/// A frame-table construction error, each carrying the offending key.
#[derive(Clone, PartialEq, Eq, Debug)]
pub enum AnimatorError<K> {
    /// A state's frame list is empty.
    EmptyStateFrames(K),
    /// A state has no frame list.
    MissingStateFrames(K),
    /// A state's frame list is not sorted by threshold.
    UnsortedStateFrames(K),
    /// A state's frame threshold lies outside the unit range; the second
    /// field is the offending threshold.
    InvalidStateFrameProgress(K, u32),
}

/// A parameter value carried beside an animator by a host integration layer.
#[derive(Clone, Copy, PartialEq, Eq, Debug)]
pub struct AnimatorParams<P> {
    /// The parameters.
    pub parameters: P,
}

/// The frame list stored for `key`, taking the first entry when a key is
/// listed more than once.
pub open spec fn spec_find_frames<K, F>(
    frames: Seq<(K, Seq<Frame<F>>)>,
    key: K,
) -> Option<Seq<Frame<F>>>
    decreases frames.len(),
{
    if frames.len() == 0 {
        None
    } else if frames[0].0 == key {
        Some(frames[0].1)
    } else {
        spec_find_frames(frames.skip(1), key)
    }
}

/// Whether a frame list's thresholds are non-decreasing in list order.
pub open spec fn frames_sorted<F>(fl: Seq<Frame<F>>) -> bool {
    forall|i: int| 0 <= i < fl.len() - 1 ==> (#[trigger] fl[i].progress) <= fl[i + 1].progress
}

/// The first threshold outside the unit range at or after `i`, if any.
pub open spec fn first_bad_threshold<F>(fl: Seq<Frame<F>>, i: int) -> Option<u32>
    decreases fl.len() - i,
{
    if i < 0 || i >= fl.len() {
        None
    } else if fl[i].progress > PROGRESS_SCALE {
        Some(fl[i].progress)
    } else {
        first_bad_threshold(fl, i + 1)
    }
}

/// The first fault of the frame list supplied for `key`, if any: no list,
/// an empty list, a threshold outside the unit range, unsorted thresholds,
/// checked in that order.
pub open spec fn frames_fault_for<K, F>(key: K, fl_opt: Option<Seq<Frame<F>>>) -> Option<
    AnimatorError<K>,
> {
    match fl_opt {
        None => Some(AnimatorError::MissingStateFrames(key)),
        Some(fl) => if fl.len() == 0 {
            Some(AnimatorError::EmptyStateFrames(key))
        } else {
            match first_bad_threshold(fl, 0) {
                Some(v) => Some(AnimatorError::InvalidStateFrameProgress(key, v)),
                None => if !frames_sorted(fl) {
                    Some(AnimatorError::UnsortedStateFrames(key))
                } else {
                    None
                },
            }
        },
    }
}

/// The first fault over the engine's states at or after `i`, each state's
/// frame list checked in state order.
pub open spec fn first_frames_fault<K, F>(
    states: Seq<(K, State)>,
    frames: Seq<(K, Seq<Frame<F>>)>,
    i: int,
) -> Option<AnimatorError<K>>
    decreases states.len() - i,
{
    if i < 0 || i >= states.len() {
        None
    } else {
        match frames_fault_for(states[i].0, spec_find_frames(frames, states[i].0)) {
            Some(e) => Some(e),
            None => first_frames_fault(states, frames, i + 1),
        }
    }
}

/// The mathematical content of an animator: the machine's view and the
/// per-state frame lists.
pub struct AnimatorView<K, P, F, C> {
    /// The wrapped machine.
    pub machine: MachineView<K, P, C>,
    /// The per-state frame lists, in supplied order.
    pub frames: Seq<(K, Seq<Frame<F>>)>,
}

/// Structural soundness of an animator: every state of the engine has a
/// frame list that passed validation.
pub open spec fn animator_wf<K, P, F, C>(v: AnimatorView<K, P, F, C>) -> bool {
    first_frames_fault(v.machine.states, v.frames, 0) is None
}

/// The animator a valid construction yields, or the first fault among the
/// frame lists, checked in the order of the engine's states.
pub open spec fn spec_new_animator<K, P, F, C>(
    m: MachineView<K, P, C>,
    frames: Seq<(K, Seq<Frame<F>>)>,
) -> Result<AnimatorView<K, P, F, C>, AnimatorError<K>> {
    match first_frames_fault(m.states, frames, 0) {
        Some(e) => Err(e),
        None => Ok(AnimatorView { machine: m, frames }),
    }
}

/// Whether the frame's threshold does not exceed the progress `num / den`:
/// `progress / PROGRESS_SCALE <= num / den`, compared exactly by cross
/// multiplication.
pub open spec fn frame_fits<F>(f: Frame<F>, num: int, den: int) -> bool {
    f.progress * den <= num * (PROGRESS_SCALE as int)
}

/// The scan that picks the displayed frame: walk the list holding the last
/// frame whose threshold does not exceed the progress, starting at the first
/// frame, and stop at the first frame whose threshold does.
pub open spec fn held_from<F>(fl: Seq<Frame<F>>, num: int, den: int, held: int, i: int) -> int
    decreases fl.len() - i,
{
    if i < 0 || i >= fl.len() {
        held
    } else if !frame_fits(fl[i], num, den) {
        held
    } else {
        held_from(fl, num, den, i, i + 1)
    }
}

/// The index of the displayed frame for progress `num / den`: the greatest
/// threshold not exceeding the progress, defaulting to the first frame.
pub open spec fn spec_held_index<F>(fl: Seq<Frame<F>>, num: int, den: int) -> int {
    held_from(fl, num, den, 0, 0)
}

/// The frame value displayed for state `key` at progress `num / den`.
pub open spec fn spec_frame_for<K, P, F, C>(
    v: AnimatorView<K, P, F, C>,
    key: K,
    num: int,
    den: int,
) -> F {
    let fl = spec_find_frames(v.frames, key)->Some_0;
    fl[spec_held_index(fl, num, den)].value
}

/// The frame value displayed for the machine's current state and progress.
pub open spec fn spec_current_frame<K, P, F, C>(v: AnimatorView<K, P, F, C>) -> F {
    spec_frame_for(v, v.machine.current.key, v.machine.current.elapsed as int, v.machine.current.duration as int)
}

/// A frame table wrapped around a state machine: drives the machine and maps
/// its progress to the frame value to display.
#[derive(Debug)]
pub struct Animator<K, P, F, C> {
    state_machine: StateMachine<K, P, C>,
    state_frames: Vec<(K, Vec<Frame<F>>)>,
}

/// The frame lists as mathematical sequences.
pub open spec fn frames_view<K, F>(v: Seq<(K, Vec<Frame<F>>)>) -> Seq<(K, Seq<Frame<F>>)> {
    v.map_values(|p: (K, Vec<Frame<F>>)| (p.0, p.1@))
}

impl<K, P, F, C> View for Animator<K, P, F, C> {
    type V = AnimatorView<K, P, F, C>;

    closed spec fn view(&self) -> AnimatorView<K, P, F, C> {
        AnimatorView { machine: self.state_machine@, frames: frames_view(self.state_frames@) }
    }
}

/// Looks `key` up among the frame lists, returning the first match.
fn find_frames_in<'a, K: StateKey, F>(frames: &'a Vec<(K, Vec<Frame<F>>)>, key: &K) -> (r: Option<
    &'a Vec<Frame<F>>,
>)
    ensures
        match r {
            Some(fl) => spec_find_frames(frames_view(frames@), *key) == Some(fl@),
            None => spec_find_frames(frames_view(frames@), *key) is None,
        },
{
    let ghost fv = frames_view(frames@);
    let mut i: usize = 0;
    assert(fv.skip(0) =~= fv);
    while i < frames.len()
        invariant
            i <= frames@.len(),
            fv == frames_view(frames@),
            fv.len() == frames@.len(),
            forall|j: int| 0 <= j < fv.len() ==> #[trigger] fv[j] == (frames@[j].0, frames@[j].1@),
            spec_find_frames(fv, *key) == spec_find_frames(fv.skip(i as int), *key),
        decreases frames@.len() - i,
    {
        if frames[i].0.eq_key(key) {
            assert(fv.skip(i as int)[0] == fv[i as int]);
            return Some(&frames[i].1);
        }
        assert(fv.skip(i as int)[0] == fv[i as int]);
        assert(fv.skip(i as int).skip(1) =~= fv.skip(i as int + 1));
        i = i + 1;
    }
    None
}

/// Checks one frame list: nonempty, thresholds within the unit range, and
/// sorted, in that order; reports the first fault.
fn check_frame_list<K: StateKey, F>(key: &K, fl: &Vec<Frame<F>>) -> (r: Option<AnimatorError<K>>)
    ensures
        r == frames_fault_for(*key, Some(fl@)),
{
    if fl.len() == 0 {
        return Some(AnimatorError::EmptyStateFrames(key.duplicate()));
    }
    let mut i: usize = 0;
    while i < fl.len()
        invariant
            i <= fl@.len(),
            first_bad_threshold(fl@, 0) == first_bad_threshold(fl@, i as int),
        decreases fl@.len() - i,
    {
        if fl[i].progress > PROGRESS_SCALE {
            return Some(AnimatorError::InvalidStateFrameProgress(key.duplicate(), fl[i].progress));
        }
        i = i + 1;
    }
    let mut j: usize = 1;
    while j < fl.len()
        invariant
            1 <= j,
            j <= fl@.len() || fl@.len() < 1,
            fl@.len() >= 1,
            first_bad_threshold(fl@, 0) is None,
            forall|n: int| 0 <= n < j - 1 ==> (#[trigger] fl@[n].progress) <= fl@[n + 1].progress,
        decreases fl@.len() - j,
    {
        if fl[j - 1].progress > fl[j].progress {
            assert(!frames_sorted(fl@));
            return Some(AnimatorError::UnsortedStateFrames(key.duplicate()));
        }
        j = j + 1;
    }
    assert(frames_sorted(fl@));
    None
}

/// Under a clean check of all states from `j` on, every state's frame list
/// is fault-free.
proof fn lemma_no_frames_fault<K, F>(
    states: Seq<(K, State)>,
    frames: Seq<(K, Seq<Frame<F>>)>,
    j: int,
)
    requires
        0 <= j,
        first_frames_fault(states, frames, j) is None,
    ensures
        forall|i: int|
            j <= i < states.len() ==> frames_fault_for(
                (#[trigger] states[i]).0,
                spec_find_frames(frames, states[i].0),
            ) is None,
    decreases states.len() - j,
{
    if j < states.len() {
        lemma_no_frames_fault(states, frames, j + 1);
    }
}

/// In a validated animator, every existing state key has a fault-free frame
/// list.
pub proof fn lemma_valid_frames_for_key<K, F>(
    states: Seq<(K, State)>,
    frames: Seq<(K, Seq<Frame<F>>)>,
    k: K,
)
    requires
        first_frames_fault(states, frames, 0) is None,
        has_state(states, k),
    ensures
        frames_fault_for(k, spec_find_frames(frames, k)) is None,
        spec_find_frames(frames, k) is Some,
        spec_find_frames(frames, k)->Some_0.len() >= 1,
        frames_sorted(spec_find_frames(frames, k)->Some_0),
{
    lemma_has_state_contains(states, k);
    lemma_no_frames_fault(states, frames, 0);
    let i = choose|i: int| 0 <= i < states.len() && states[i].0 == k;
    assert(frames_fault_for(states[i].0, spec_find_frames(frames, states[i].0)) is None);
}

/// Walks a frame list, holding the last frame whose threshold does not
/// exceed the progress `num / den`, and returns the held frame's value.
fn scan_frames<F: Copy>(fl: &Vec<Frame<F>>, num: u64, den: u64) -> (r: F)
    requires
        fl@.len() >= 1,
    ensures
        ({
            let h = spec_held_index(fl@, num as int, den as int);
            0 <= h < fl@.len() && r == fl@[h].value
        }),
{
    let mut held: usize = 0;
    let mut i: usize = 0;
    while i < fl.len()
        invariant
            held <= i,
            i <= fl@.len(),
            fl@.len() >= 1,
            held < fl@.len(),
            spec_held_index(fl@, num as int, den as int) == held_from(
                fl@,
                num as int,
                den as int,
                held as int,
                i as int,
            ),
        decreases fl@.len() - i,
    {
        proof {
            vstd::arithmetic::mul::lemma_mul_upper_bound(
                fl@[i as int].progress as int,
                u32::MAX as int,
                den as int,
                u64::MAX as int,
            );
            vstd::arithmetic::mul::lemma_mul_upper_bound(
                num as int,
                u64::MAX as int,
                PROGRESS_SCALE as int,
                PROGRESS_SCALE as int,
            );
        }
        let fits = (fl[i].progress as u128) * (den as u128) <= (num as u128) * (
        PROGRESS_SCALE as u128);
        if !fits {
            return fl[held].value;
        }
        held = i;
        i = i + 1;
    }
    fl[held].value
}

impl<K: StateKey, P, F: Copy, C: Condition<P>> Animator<K, P, F, C> {
    /// Returns the frame value to display for the machine's current state
    /// and progress.
    pub fn frame(&self) -> (r: F)
        requires
            animator_wf(self@),
        ensures
            r == spec_current_frame(self@),
    {
        proof {
            use_type_invariant(&self.state_machine);
            lemma_valid_frames_for_key(
                self@.machine.states,
                self@.frames,
                self@.machine.current.key,
            );
        }
        let cs = self.state_machine.state();
        let fl = match find_frames_in(&self.state_frames, &cs.key) {
            Some(fl) => fl,
            None => vstd::pervasive::unreached(),
        };
        scan_frames(fl, cs.elapsed, cs.duration)
    }

    /// Returns the frame value to display for state `key` at progress
    /// `progress_num / progress_den`: the frame with the greatest threshold
    /// not exceeding the progress, defaulting to the state's first frame.
    /// The key must name a state of the wrapped machine, as construction
    /// guarantees for the machine's own current key.
    pub fn frame_for(&self, key: &K, progress_num: u64, progress_den: u64) -> (r: F)
        requires
            animator_wf(self@),
            has_state(self@.machine.states, *key),
        ensures
            r == spec_frame_for(self@, *key, progress_num as int, progress_den as int),
    {
        proof {
            lemma_valid_frames_for_key(self@.machine.states, self@.frames, *key);
        }
        let fl = match find_frames_in(&self.state_frames, key) {
            Some(fl) => fl,
            None => vstd::pervasive::unreached(),
        };
        scan_frames(fl, progress_num, progress_den)
    }
}

impl<K: StateKey, P, F: Copy, C: Condition<P>> Animator<K, P, F, C> {
    /// Creates a new animator around the given machine, validating that
    /// every state of the machine has a nonempty, in-range, sorted frame
    /// list.
    pub fn new(state_machine: StateMachine<K, P, C>, state_frames: Vec<(K, Vec<Frame<F>>)>) -> (r:
        Result<Self, AnimatorError<K>>)
        ensures
            ({
                let s = spec_new_animator(state_machine@, frames_view(state_frames@));
                match r {
                    Ok(a) => s is Ok && a@ == s->Ok_0 && animator_wf(a@),
                    Err(e) => s is Err && e == s->Err_0,
                }
            }),
    {
        let states = state_machine.states_list();
        let ghost sv = states@;
        let ghost fv = frames_view(state_frames@);
        let mut i: usize = 0;
        while i < states.len()
            invariant
                i <= sv.len(),
                sv == states@,
                fv == frames_view(state_frames@),
                states@ == state_machine@.states,
                first_frames_fault(sv, fv, 0) == first_frames_fault(sv, fv, i as int),
            decreases sv.len() - i,
        {
            let key = &states[i].0;
            match find_frames_in(&state_frames, key) {
                None => {
                    return Err(AnimatorError::MissingStateFrames(key.duplicate()));
                },
                Some(fl) => {
                    match check_frame_list(key, fl) {
                        Some(e) => {
                            return Err(e);
                        },
                        None => {},
                    }
                },
            }
            i = i + 1;
        }
        Ok(Animator { state_machine, state_frames })
    }

    /// Advances the wrapped machine's clock by `dt` ticks.
    pub fn update(&mut self, dt: u64)
        ensures
            final(self)@.machine == step_time(old(self)@.machine, dt),
            final(self)@.frames == old(self)@.frames,
            animator_wf(old(self)@) ==> animator_wf(final(self)@),
    {
        self.state_machine.update(dt);
    }

    /// Replaces the wrapped machine's parameters with what `f` makes of
    /// them, taking any conditional transition that now applies.
    pub fn update_parameters<G: Fn(&P) -> P>(&mut self, f: G)
        requires
            call_requires(f, (&old(self)@.machine.params,)),
        ensures
            call_ensures(f, (&old(self)@.machine.params,), final(self)@.machine.params),
            final(self)@.machine == step_params(old(self)@.machine, final(self)@.machine.params),
            final(self)@.frames == old(self)@.frames,
            animator_wf(old(self)@) ==> animator_wf(final(self)@),
    {
        self.state_machine.update_parameters(f);
    }

    /// Returns the current state key.
    pub fn state(&self) -> (k: K)
        ensures
            k == self@.machine.current.key,
    {
        self.state_machine.state().key.duplicate()
    }

    /// Returns the parameters.
    pub fn parameters(&self) -> (r: &P)
        ensures
            *r == self@.machine.params,
    {
        self.state_machine.parameters()
    }
}

} // verus!
