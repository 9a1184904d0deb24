//! What the requests of a session do to a simulation.
//!
//! The simulation step is the host's: any function from a state and the
//! inputs of one frame to the next state. This module says, for every such
//! function, what state a host ends up in that carries out the requests of a
//! session in order, and proves that this state is the one that a simulation
//! without any prediction would have reached.

use crate::model::{
    advance_keeps_wf, initial, initial_is_wf, least_is_minimum, merge_all_grows,
    mismatch_is_recent, slot_of, step_requests, tick_keeps_wf, ReceivedView, RequestView,
    SessionView,
};
use crate::rollback::{SessionConfig, MAX_PREDICTION, SNAPSHOT_SLOTS};
use crate::transport::{PeerId, PlayerType};
use vstd::prelude::*;

verus! {

/// A host as far as the requests touch it: the current simulation state and
/// the snapshot slots, each holding the number of a snapshot and its state.
pub struct Machine<S> {
    pub state: S,
    pub slots: Map<usize, (usize, S)>,
}

/// The machine after one request.
pub open spec fn apply<S>(
    step: spec_fn(S, Seq<u8>) -> S,
    machine: Machine<S>,
    request: RequestView,
) -> Machine<S> {
    match request {
        RequestView::Save { frame, slot } => Machine {
            slots: machine.slots.insert(slot, (frame, machine.state)),
            ..machine
        },
        RequestView::Load { frame, slot } => Machine { state: machine.slots[slot].1, ..machine },
        RequestView::Advance { frame, inputs } => Machine {
            state: step(machine.state, inputs),
            ..machine
        },
    }
}

/// The machine after a list of requests, carried out in order.
pub open spec fn perform<S>(
    step: spec_fn(S, Seq<u8>) -> S,
    machine: Machine<S>,
    requests: Seq<RequestView>,
) -> Machine<S>
    decreases requests.len(),
{
    if requests.len() == 0 {
        machine
    } else {
        apply(step, perform(step, machine, requests.drop_last()), requests.last())
    }
}

/// The state after simulating `frames` in order from `start`, with no
/// snapshot, prediction or rollback involved.
pub open spec fn run<S>(step: spec_fn(S, Seq<u8>) -> S, start: S, frames: Seq<Seq<u8>>) -> S
    decreases frames.len(),
{
    if frames.len() == 0 {
        start
    } else {
        step(run(step, start, frames.drop_last()), frames.last())
    }
}

/// Whether a machine can carry out a request: a snapshot to load is in the
/// slot that the request names, and a slot to save to is one of the
/// [`SNAPSHOT_SLOTS`].
pub open spec fn serves<S>(machine: Machine<S>, request: RequestView) -> bool {
    match request {
        RequestView::Save { frame, slot } => slot < SNAPSHOT_SLOTS,
        RequestView::Load { frame, slot } => machine.slots.contains_key(slot)
            && machine.slots[slot].0 == frame,
        RequestView::Advance { frame, inputs } => true,
    }
}

/// Whether a machine can carry out the first `count` of the requests, one
/// after the other.
pub open spec fn serves_first<S>(
    step: spec_fn(S, Seq<u8>) -> S,
    machine: Machine<S>,
    requests: Seq<RequestView>,
    count: int,
) -> bool {
    forall|i: int|
        0 <= i < count ==> serves(
            perform(step, machine, #[trigger] requests.take(i)),
            requests[i],
        )
}

/// Slot `slot_of(k)` holds snapshot `k`, and it is the state after the first
/// `k` frames of `used`, for every `k` in `low..=high`.
pub open spec fn snapshots_hold<S>(
    machine: Machine<S>,
    step: spec_fn(S, Seq<u8>) -> S,
    start: S,
    used: Seq<Seq<u8>>,
    low: int,
    high: int,
) -> bool {
    forall|k: int|
        low <= k <= high ==> machine.slots.contains_key(#[trigger] slot_of(k)) && machine.slots[slot_of(
            k,
        )] == (k as usize, run(step, start, used.take(k)))
}

/// The first frame that a rollback may still reach.
pub open spec fn window_start(frame: nat) -> int {
    if frame <= MAX_PREDICTION {
        0
    } else {
        frame - MAX_PREDICTION
    }
}

/// The machine is where the session believes it to be: its state is the
/// result of simulating every frame with the inputs the session last used for
/// it, and, once a frame has been simulated, every snapshot of the rollback
/// window is in its slot.
pub open spec fn tracks<S>(
    session: SessionView,
    machine: Machine<S>,
    step: spec_fn(S, Seq<u8>) -> S,
    start: S,
) -> bool {
    &&& machine.state == run(step, start, session.used)
    &&& session.frame() > 0 ==> snapshots_hold(
        machine,
        step,
        start,
        session.used,
        window_start(session.frame()),
        session.frame() as int,
    )
}

/// The inputs of frames `0..frames` as confirmed, frame by frame.
pub open spec fn confirmed_frames(session: SessionView, frames: nat) -> Seq<Seq<u8>> {
    Seq::new(frames, |f: int| Seq::new(session.kinds.len(), |h: int| session.confirmed[h][f]))
}

/// Carrying out two lists of requests one after the other is carrying out
/// their concatenation.
pub proof fn perform_in_parts<S>(
    step: spec_fn(S, Seq<u8>) -> S,
    machine: Machine<S>,
    first: Seq<RequestView>,
    second: Seq<RequestView>,
)
    ensures
        perform(step, machine, first + second) == perform(
            step,
            perform(step, machine, first),
            second,
        ),
    decreases second.len(),
{
    if second.len() == 0 {
        assert(first + second =~= first);
    } else {
        perform_in_parts(step, machine, first, second.drop_last());
        assert((first + second).drop_last() =~= first + second.drop_last());
        assert((first + second).last() == second.last());
    }
}

/// Carrying out a single request is applying it.
pub proof fn perform_one<S>(
    step: spec_fn(S, Seq<u8>) -> S,
    machine: Machine<S>,
    request: RequestView,
)
    ensures
        perform(step, machine, seq![request]) == apply(step, machine, request),
{
    assert(seq![request].drop_last() =~= Seq::<RequestView>::empty());
    assert(perform(step, machine, seq![request].drop_last()) == machine);
}

/// Determinism: simulating the same frames from the same state gives the same
/// state, however many frames there are.
pub proof fn run_is_deterministic<S>(
    step: spec_fn(S, Seq<u8>) -> S,
    start: S,
    one: Seq<Seq<u8>>,
    other: Seq<Seq<u8>>,
)
    requires
        one.len() == other.len(),
        forall|f: int| 0 <= f < one.len() ==> (#[trigger] one[f]).len() == other[f].len(),
        forall|f: int, h: int|
            0 <= f < one.len() && 0 <= h < one[f].len() ==> #[trigger] one[f][h] == other[f][h],
    ensures
        run(step, start, one) == run(step, start, other),
{
    assert forall|f: int| 0 <= f < one.len() implies one[f] =~= other[f] by {
        assert(one[f].len() == other[f].len());
    }
    assert(one =~= other);
}

/// Simulating a list of frames can be interrupted anywhere and resumed from
/// the state reached: the result is the same.
pub proof fn run_in_parts<S>(
    step: spec_fn(S, Seq<u8>) -> S,
    start: S,
    frames: Seq<Seq<u8>>,
    cut: int,
)
    requires
        0 <= cut <= frames.len(),
    ensures
        run(step, start, frames) == run(step, run(step, start, frames.take(cut)), frames.skip(cut)),
    decreases frames.len(),
{
    if cut == frames.len() {
        assert(frames.take(cut) =~= frames);
        assert(frames.skip(cut) =~= Seq::<Seq<u8>>::empty());
    } else {
        run_in_parts(step, start, frames.drop_last(), cut);
        assert(frames.drop_last().take(cut) =~= frames.take(cut));
        assert(frames.drop_last().skip(cut) =~= frames.skip(cut).drop_last());
        assert(frames.skip(cut).last() == frames.last());
    }
}

/// Carrying out a list of requests and one more is applying the last to what
/// the others lead to.
pub proof fn perform_one_more<S>(
    step: spec_fn(S, Seq<u8>) -> S,
    machine: Machine<S>,
    requests: Seq<RequestView>,
    last: RequestView,
)
    ensures
        perform(step, machine, requests.push(last)) == apply(
            step,
            perform(step, machine, requests),
            last,
        ),
{
    assert(requests.push(last).drop_last() =~= requests);
}

/// Simulating the first `count` frames is simulating one frame fewer and
/// then frame `count - 1`.
pub proof fn run_one_more<S>(
    step: spec_fn(S, Seq<u8>) -> S,
    start: S,
    frames: Seq<Seq<u8>>,
    count: int,
)
    requires
        0 < count <= frames.len(),
    ensures
        run(step, start, frames.take(count)) == step(
            run(step, start, frames.take(count - 1)),
            frames[count - 1],
        ),
{
    assert(frames.take(count).drop_last() =~= frames.take(count - 1));
}

/// Snapshots that are less than [`SNAPSHOT_SLOTS`] frames
/// apart live in different slots.
pub proof fn slots_differ(one: int, other: int)
    requires
        0 <= one < other,
        other - one <= MAX_PREDICTION,
    ensures
        slot_of(one) != slot_of(other),
{
    let a = one % 9;
    let b = other % 9;
    vstd::arithmetic::div_mod::lemma_fundamental_div_mod(one, 9);
    vstd::arithmetic::div_mod::lemma_fundamental_div_mod(other, 9);
    vstd::arithmetic::div_mod::lemma_mod_bound(one, 9);
    vstd::arithmetic::div_mod::lemma_mod_bound(other, 9);
    if a == b {
        let q = other / 9 - one / 9;
        assert(other - one == 9 * q) by (nonlinear_arith)
            requires
                one == 9 * (one / 9) + a,
                other == 9 * (other / 9) + b,
                a == b,
                q == other / 9 - one / 9,
        ;
        assert(q <= 0 || q >= 1);
        assert(false);
    }
}

/// Saving snapshot `frame` leaves the snapshots of the up to
/// [`MAX_PREDICTION`] frames in front of it in their slots.
pub proof fn save_keeps_window<S>(
    step: spec_fn(S, Seq<u8>) -> S,
    start: S,
    used: Seq<Seq<u8>>,
    machine: Machine<S>,
    low: int,
    frame: int,
)
    requires
        0 <= low < frame <= used.len(),
        frame - low <= MAX_PREDICTION,
        frame <= usize::MAX,
        machine.state == run(step, start, used.take(frame)),
        snapshots_hold(machine, step, start, used, low, frame - 1),
    ensures
        snapshots_hold(
            apply(
                step,
                machine,
                RequestView::Save { frame: frame as usize, slot: slot_of(frame) },
            ),
            step,
            start,
            used,
            low,
            frame,
        ),
{
    let saved = apply(
        step,
        machine,
        RequestView::Save { frame: frame as usize, slot: slot_of(frame) },
    );
    assert forall|k: int| low <= k <= frame implies saved.slots.contains_key(
        #[trigger] slot_of(k),
    ) && saved.slots[slot_of(k)] == (k as usize, run(step, start, used.take(k))) by {
        if k < frame {
            slots_differ(k, frame);
            assert(machine.slots.contains_key(slot_of(k)));
        }
    }
}

/// Replaying frames `from..to` on a machine that stands in front of frame
/// `from` leaves it behind frame `to - 1`, with the snapshot of every frame on
/// the way in its slot and the older snapshots of the window still in theirs.
#[verifier::rlimit(50)]
pub proof fn replay_reaches<S>(
    step: spec_fn(S, Seq<u8>) -> S,
    start: S,
    used: Seq<Seq<u8>>,
    machine: Machine<S>,
    low: int,
    from: int,
    to: int,
)
    requires
        0 <= low <= from <= to <= used.len(),
        to - low <= MAX_PREDICTION,
        to <= usize::MAX,
        machine.state == run(step, start, used.take(from)),
        snapshots_hold(machine, step, start, used, low, from),
    ensures
        perform(step, machine, step_requests(used, from, to)).state == run(
            step,
            start,
            used.take(to),
        ),
        snapshots_hold(
            perform(step, machine, step_requests(used, from, to)),
            step,
            start,
            used,
            low,
            to,
        ),
    decreases to - from,
{
    if from < to {
        replay_reaches(step, start, used, machine, low, from, to - 1);
        let before = step_requests(used, from, to - 1);
        let advance = RequestView::Advance { frame: (to - 1) as usize, inputs: used[to - 1] };
        let save = RequestView::Save { frame: to as usize, slot: slot_of(to) };
        let m0 = perform(step, machine, before);
        let m1 = apply(step, m0, advance);
        perform_one_more(step, machine, before, advance);
        perform_one_more(step, machine, before.push(advance), save);
        run_one_more(step, start, used, to);
        assert(snapshots_hold(m1, step, start, used, low, to - 1));
        save_keeps_window(step, start, used, m1, low, to);
    }
}

/// The snapshots of the window stay what they are when the inputs of later
/// frames change.
pub proof fn snapshots_read_their_frames<S>(
    machine: Machine<S>,
    step: spec_fn(S, Seq<u8>) -> S,
    start: S,
    one: Seq<Seq<u8>>,
    other: Seq<Seq<u8>>,
    low: int,
    high: int,
)
    requires
        0 <= low,
        high <= one.len(),
        high <= other.len(),
        forall|f: int| 0 <= f < high ==> one[f] == other[f],
        snapshots_hold(machine, step, start, one, low, high),
    ensures
        snapshots_hold(machine, step, start, other, low, high),
{
    assert forall|k: int| low <= k <= high implies machine.slots.contains_key(
        #[trigger] slot_of(k),
    ) && machine.slots[slot_of(k)] == (k as usize, run(step, start, other.take(k))) by {
        assert(one.take(k) =~= other.take(k));
    }
}

/// Rollback is transparent. A host that has kept up with a session and
/// carries out the requests of one more tick has kept up with the session
/// after that tick: its state is the result of simulating every frame, from
/// the first on, with the inputs that the session now holds for it. Every
/// `Load` among the requests finds the snapshot it names in the slot it names.
#[verifier::rlimit(50)]
pub proof fn tick_keeps_track<S>(
    step: spec_fn(S, Seq<u8>) -> S,
    start: S,
    session: SessionView,
    machine: Machine<S>,
    locals: Map<usize, u8>,
    inbound: Seq<ReceivedView>,
    lost: Seq<PeerId>,
)
    requires
        session.wf(),
        session.frame() < usize::MAX,
        tracks(session, machine, step, start),
        !session.stalls(lost),
    ensures
        tracks(
            session.corrected(inbound),
            perform(step, machine, session.corrections(inbound)),
            step,
            start,
        ),
        tracks(
            session.after_tick(locals, inbound, lost),
            perform(step, machine, session.tick_requests(locals, inbound)),
            step,
            start,
        ),
        session.corrections(inbound).len() > 0 ==> {
            let target = session.merge_all(inbound).mismatch_from(0);
            &&& session.corrections(inbound)[0] == (RequestView::Load {
                frame: target as usize,
                slot: slot_of(target as int),
            })
            &&& machine.slots.contains_key(slot_of(target as int))
            &&& machine.slots[slot_of(target as int)].0 == target
        },
{
    tick_keeps_wf(session, locals, inbound, lost);
    mismatch_is_recent(session, inbound);
    let merged = session.merge_all(inbound);
    let from = merged.mismatch_from(0);
    let c = session.corrected(inbound);
    let frame = session.frame() as int;
    let low = window_start(session.frame());
    let fixes = session.corrections(inbound);
    let m1 = perform(step, machine, fixes);
    merge_all_grows(session, inbound);
    least_is_minimum(session.confirmed, session.frame());
    if from < frame {
        let load = RequestView::Load { frame: from as usize, slot: slot_of(from as int) };
        let replay = step_requests(c.used, from as int, frame);
        assert(fixes == seq![load] + replay);
        assert(fixes[0] == load);
        perform_in_parts(step, machine, seq![load], replay);
        let loaded = apply(step, machine, load);
        perform_one(step, machine, load);
        assert(machine.slots.contains_key(slot_of(from as int)));
        assert(c.used.take(from as int) =~= session.used.take(from as int));
        assert(loaded.state == run(step, start, c.used.take(from as int)));
        snapshots_read_their_frames(machine, step, start, session.used, c.used, low, from as int);
        replay_reaches(step, start, c.used, loaded, low, from as int, frame);
        assert(c.used.take(frame) =~= c.used);
    } else {
        assert(c.used =~= session.used);
        assert(fixes =~= Seq::<RequestView>::empty());
    }
    assert(tracks(c, m1, step, start));
    if c.can_advance() {
        advance_keeps_wf(c, locals);
        let a = c.advanced(locals);
        let opening = if frame == 0 {
            seq![RequestView::Save { frame: 0, slot: 0 }]
        } else {
            Seq::<RequestView>::empty()
        };
        let stepping = step_requests(a.used, frame, frame + 1);
        assert(c.stepping(locals) == opening + stepping);
        perform_in_parts(step, machine, fixes, c.stepping(locals));
        perform_in_parts(step, m1, opening, stepping);
        let m2 = perform(step, m1, opening);
        assert(a.used.take(frame) =~= c.used);
        if frame == 0 {
            perform_one(step, m1, RequestView::Save { frame: 0, slot: 0 });
        }
        assert(m2.state == run(step, start, a.used.take(frame)));
        let next_low = window_start(a.frame());
        assert(snapshots_hold(m2, step, start, a.used, next_low, frame)) by {
            if frame == 0 {
                assert(a.used.take(0) =~= Seq::<Seq<u8>>::empty());
                assert(slot_of(0) == 0);
            } else {
                snapshots_read_their_frames(m1, step, start, c.used, a.used, low, frame);
            }
        }
        replay_reaches(step, start, a.used, m2, next_low, frame, frame + 1);
        assert(a.used.take(frame + 1) =~= a.used);
    }
}

/// Rollback correctness. Once every input of the frames simulated so far is
/// confirmed, the state of a host that has kept up with the session is the
/// state that simulating those frames with the confirmed inputs from the start
/// gives, whatever was predicted on the way and however often frames were
/// replayed.
pub proof fn rollback_correctness<S>(
    step: spec_fn(S, Seq<u8>) -> S,
    start: S,
    session: SessionView,
    machine: Machine<S>,
)
    requires
        session.wf(),
        tracks(session, machine, step, start),
        session.settled() == session.frame(),
    ensures
        machine.state == run(step, start, confirmed_frames(session, session.frame())),
{
    least_is_minimum(session.confirmed, session.frame());
    let truth = confirmed_frames(session, session.frame());
    assert forall|f: int| 0 <= f < session.frame() implies session.used[f] =~= truth[f] by {
        assert(session.agrees_at(f));
        assert forall|h: int| 0 <= h < session.kinds.len() implies session.used[f][h]
            == truth[f][h] by {
            assert(session.confirmed[h].len() >= session.frame());
        }
    }
    assert(session.used =~= truth);
}

/// Two peers that have simulated as many frames, hold the same confirmed
/// inputs for them and have kept up with their sessions are in the same
/// state.
pub proof fn peers_agree<S>(
    step: spec_fn(S, Seq<u8>) -> S,
    start: S,
    here: SessionView,
    there: SessionView,
    machine_here: Machine<S>,
    machine_there: Machine<S>,
)
    requires
        here.wf(),
        there.wf(),
        tracks(here, machine_here, step, start),
        tracks(there, machine_there, step, start),
        here.kinds.len() == there.kinds.len(),
        here.frame() == there.frame(),
        here.settled() == here.frame(),
        there.settled() == there.frame(),
        forall|h: int, f: int|
            0 <= h < here.kinds.len() && 0 <= f < here.frame() ==> here.confirmed[h][f]
                == there.confirmed[h][f],
    ensures
        machine_here.state == machine_there.state,
{
    rollback_correctness(step, start, here, machine_here);
    rollback_correctness(step, start, there, machine_there);
    assert(confirmed_frames(here, here.frame()) =~~= confirmed_frames(there, there.frame()));
}

/// A host that has not done anything yet has kept up with a session that has
/// not simulated anything yet.
pub proof fn initial_is_tracked<S>(
    step: spec_fn(S, Seq<u8>) -> S,
    start: S,
    config: SessionConfig,
    players: Seq<PlayerType>,
    slots: Map<usize, (usize, S)>,
)
    ensures
        tracks(initial(config, players), Machine { state: start, slots }, step, start),
{
}

/// The replay requests are advances, and saves to the slots of their
/// snapshots.
pub proof fn step_requests_are_plain(used: Seq<Seq<u8>>, from: int, to: int)
    requires
        0 <= from,
    ensures
        forall|i: int|
            0 <= i < step_requests(used, from, to).len() ==> match #[trigger] step_requests(
                used,
                from,
                to,
            )[i] {
                RequestView::Save { frame, slot } => slot < SNAPSHOT_SLOTS,
                RequestView::Load { frame, slot } => false,
                RequestView::Advance { frame, inputs } => true,
            },
    decreases to - from,
{
    if from < to {
        step_requests_are_plain(used, from, to - 1);
        vstd::arithmetic::div_mod::lemma_mod_bound(to, 9);
    }
}

/// A host that has kept up with a session can serve every request of its
/// next tick.
#[verifier::rlimit(50)]
pub proof fn tick_is_served<S>(
    step: spec_fn(S, Seq<u8>) -> S,
    start: S,
    session: SessionView,
    machine: Machine<S>,
    locals: Map<usize, u8>,
    inbound: Seq<ReceivedView>,
    lost: Seq<PeerId>,
)
    requires
        session.wf(),
        session.frame() < usize::MAX,
        tracks(session, machine, step, start),
        !session.stalls(lost),
    ensures
        serves_first(
            step,
            machine,
            session.tick_requests(locals, inbound),
            session.tick_requests(locals, inbound).len() as int,
        ),
{
    tick_keeps_track(step, start, session, machine, locals, inbound, lost);
    tick_keeps_wf(session, locals, inbound, lost);
    mismatch_is_recent(session, inbound);
    let requests = session.tick_requests(locals, inbound);
    let fixes = session.corrections(inbound);
    let c = session.corrected(inbound);
    let merged = session.merge_all(inbound);
    let from = merged.mismatch_from(0);
    let frame = session.frame() as int;
    step_requests_are_plain(c.used, from as int, frame);
    step_requests_are_plain(c.advanced(locals).used, frame, frame + 1);
    assert forall|i: int| 0 <= i < requests.len() implies serves(
        perform(step, machine, #[trigger] requests.take(i)),
        requests[i],
    ) by {
        if i < fixes.len() {
            assert(requests[i] == fixes[i]);
            if i == 0 {
                assert(requests.take(0) =~= Seq::<RequestView>::empty());
            } else {
                assert(fixes[i] == step_requests(c.used, from as int, frame)[i - 1]);
            }
        } else {
            let tail = c.stepping(locals);
            assert(requests[i] == tail[i - fixes.len()]);
            let stepping = step_requests(c.advanced(locals).used, frame, frame + 1);
            if frame == 0 {
                if i - fixes.len() > 0 {
                    assert(tail[i - fixes.len()] == stepping[i - fixes.len() - 1]);
                }
            } else {
                assert(tail[i - fixes.len()] == stepping[i - fixes.len()]);
            }
        }
    }
}

/// What one tick is given: the local inputs, the messages that have arrived
/// and the peers that are reported lost.
pub struct TickInput {
    pub locals: Map<usize, u8>,
    pub inbound: Seq<ReceivedView>,
    pub lost: Seq<PeerId>,
}

/// The session after a list of ticks.
pub open spec fn session_after(session: SessionView, ticks: Seq<TickInput>) -> SessionView
    decreases ticks.len(),
{
    if ticks.len() == 0 {
        session
    } else {
        session_after(session, ticks.drop_last()).after_tick(
            ticks.last().locals,
            ticks.last().inbound,
            ticks.last().lost,
        )
    }
}

/// The machine of a host that carries out the requests of every tick of the
/// list that did not stall.
pub open spec fn machine_after<S>(
    step: spec_fn(S, Seq<u8>) -> S,
    session: SessionView,
    machine: Machine<S>,
    ticks: Seq<TickInput>,
) -> Machine<S>
    decreases ticks.len(),
{
    if ticks.len() == 0 {
        machine
    } else {
        let before = session_after(session, ticks.drop_last());
        let so_far = machine_after(step, session, machine, ticks.drop_last());
        if before.stalls(ticks.last().lost) {
            so_far
        } else {
            perform(step, so_far, before.tick_requests(ticks.last().locals, ticks.last().inbound))
        }
    }
}

/// A list of ticks leaves a well-formed session well formed and adds at most
/// one frame per tick.
pub proof fn ticks_keep_wf(session: SessionView, ticks: Seq<TickInput>)
    requires
        session.wf(),
    ensures
        session_after(session, ticks).wf(),
        session.frame() <= session_after(session, ticks).frame() <= session.frame() + ticks.len(),
    decreases ticks.len(),
{
    if ticks.len() > 0 {
        ticks_keep_wf(session, ticks.drop_last());
        let before = session_after(session, ticks.drop_last());
        let last = ticks.last();
        tick_keeps_wf(before, last.locals, last.inbound, last.lost);
        if !before.stalls(last.lost) && before.corrected(last.inbound).can_advance() {
            advance_keeps_wf(before.corrected(last.inbound), last.locals);
        }
    }
}

/// Rollback is transparent over a whole match. A host that starts where its
/// session starts and carries out the requests of every tick is, after any
/// number of ticks, where the session believes it to be.
pub proof fn match_keeps_track<S>(
    step: spec_fn(S, Seq<u8>) -> S,
    start: S,
    session: SessionView,
    machine: Machine<S>,
    ticks: Seq<TickInput>,
)
    requires
        session.wf(),
        session.frame() + ticks.len() <= usize::MAX,
        tracks(session, machine, step, start),
    ensures
        session_after(session, ticks).wf(),
        tracks(
            session_after(session, ticks),
            machine_after(step, session, machine, ticks),
            step,
            start,
        ),
    decreases ticks.len(),
{
    ticks_keep_wf(session, ticks);
    if ticks.len() > 0 {
        match_keeps_track(step, start, session, machine, ticks.drop_last());
        ticks_keep_wf(session, ticks.drop_last());
        let before = session_after(session, ticks.drop_last());
        let so_far = machine_after(step, session, machine, ticks.drop_last());
        let last = ticks.last();
        if before.stalls(last.lost) {
            let after = before.after_tick(last.locals, last.inbound, last.lost);
            assert(after.used == before.used);
        } else {
            tick_keeps_track(step, start, before, so_far, last.locals, last.inbound, last.lost);
        }
    }
}

/// Rollback correctness over a whole match. However the ticks of a match went,
/// whatever was predicted and however often frames were replayed: once every
/// input of the frames simulated so far is confirmed, the host is in the state
/// that simulating those frames with the confirmed inputs from the start
/// gives.
pub proof fn match_ends_where_the_truth_ends<S>(
    step: spec_fn(S, Seq<u8>) -> S,
    start: S,
    config: SessionConfig,
    players: Seq<PlayerType>,
    slots: Map<usize, (usize, S)>,
    ticks: Seq<TickInput>,
)
    requires
        config.num_players >= 2,
        players.len() == config.num_players,
        ticks.len() <= usize::MAX,
        session_after(initial(config, players), ticks).settled() == session_after(
            initial(config, players),
            ticks,
        ).frame(),
    ensures
        machine_after(step, initial(config, players), Machine { state: start, slots }, ticks).state
            == run(
            step,
            start,
            confirmed_frames(
                session_after(initial(config, players), ticks),
                session_after(initial(config, players), ticks).frame(),
            ),
        ),
{
    let session = initial(config, players);
    let machine = Machine { state: start, slots };
    initial_is_wf(config, players);
    initial_is_tracked(step, start, config, players, slots);
    match_keeps_track(step, start, session, machine, ticks);
    rollback_correctness(
        step,
        start,
        session_after(session, ticks),
        machine_after(step, session, machine, ticks),
    );
}

} // verus!
