//! The rollback session as contracts see it.
//!
//! A session is, to its contracts, four things: who sits behind each handle,
//! the input delay, the inputs that are confirmed for each player, and the
//! inputs that each simulated frame was last run with. This module says what
//! a tick makes of them and proves what every tick keeps true.

use crate::input::INPUT_MASK;
use crate::rollback::{BuildError, SessionConfig, MAX_PREDICTION, NEUTRAL, SNAPSHOT_SLOTS};
use crate::transport::{ChannelError, PeerId, PlayerType};
use vstd::prelude::*;

verus! {

/// An input message as contracts see it.
pub struct InputMessageView {
    pub handle: usize,
    pub start: usize,
    pub inputs: Seq<u8>,
}

/// A received message as contracts see it.
pub struct ReceivedView {
    pub from: PeerId,
    pub message: InputMessageView,
}

/// A request as contracts see it.
pub enum RequestView {
    Save { frame: usize, slot: usize },
    Load { frame: usize, slot: usize },
    Advance { frame: usize, inputs: Seq<u8> },
}

/// The slot that holds snapshot `frame`.
pub open spec fn slot_of(frame: int) -> usize {
    (frame % SNAPSHOT_SLOTS as int) as usize
}

/// The input that stands in for one that is not confirmed yet: the player's
/// last confirmed input, or neutral where there is none.
pub open spec fn predicted(known: Seq<u8>) -> u8 {
    if known.len() == 0 {
        NEUTRAL
    } else {
        known.last()
    }
}

/// The input of one player for `frame`: confirmed where known, else predicted.
pub open spec fn resolve_one(known: Seq<u8>, frame: int) -> u8 {
    if 0 <= frame < known.len() {
        known[frame]
    } else {
        predicted(known)
    }
}

/// The inputs of all players for `frame`, by handle.
pub open spec fn resolve(confirmed: Seq<Seq<u8>>, frame: int) -> Seq<u8> {
    Seq::new(confirmed.len(), |h: int| resolve_one(confirmed[h], frame))
}

/// The least of `bound` and the lengths of all rows.
pub open spec fn least(rows: Seq<Seq<u8>>, bound: nat) -> nat
    decreases rows.len(),
{
    if rows.len() == 0 {
        bound
    } else {
        let rest = least(rows.drop_last(), bound);
        if rows.last().len() < rest {
            rows.last().len()
        } else {
            rest
        }
    }
}

/// The requests that simulate frames `from..to` with the inputs in `used`,
/// each followed by the snapshot of the state it leaves.
pub open spec fn step_requests(used: Seq<Seq<u8>>, from: int, to: int) -> Seq<RequestView>
    decreases to - from,
{
    if to <= from {
        Seq::empty()
    } else {
        step_requests(used, from, to - 1).push(
            RequestView::Advance { frame: (to - 1) as usize, inputs: used[to - 1] },
        ).push(RequestView::Save { frame: to as usize, slot: slot_of(to) })
    }
}

/// The symbol a local player submits: what the host collected for the handle,
/// cut to the five meaningful bits, or neutral if it collected nothing.
pub open spec fn local_symbol(locals: Map<usize, u8>, handle: int) -> u8 {
    if locals.contains_key(handle as usize) {
        locals[handle as usize] & INPUT_MASK
    } else {
        NEUTRAL
    }
}

/// A session as contracts see it.
pub struct SessionView {
    /// Who sits behind each handle.
    pub kinds: Seq<PlayerType>,
    /// The input delay in frames.
    pub delay: nat,
    /// For each handle, the confirmed inputs of frames `0..len`.
    pub confirmed: Seq<Seq<u8>>,
    /// For each frame simulated so far, the inputs it was last run with.
    pub used: Seq<Seq<u8>>,
    /// Whether the session has stalled for good.
    pub ended: bool,
}

impl SessionView {
    /// The frame that the next tick simulates; also the number of frames
    /// simulated so far.
    pub open spec fn frame(self) -> nat {
        self.used.len()
    }

    /// The number of leading frames whose inputs are confirmed for every
    /// player. No rollback goes back beyond this frame.
    pub open spec fn settled(self) -> nat {
        least(self.confirmed, self.frame())
    }

    /// The rows have the right lengths and hold valid symbols, and every local
    /// player has submitted its input up to the delay.
    pub open spec fn shaped(self) -> bool {
        &&& self.kinds.len() >= 2
        &&& self.confirmed.len() == self.kinds.len()
        &&& forall|f: int| 0 <= f < self.used.len() ==> (#[trigger] self.used[f]).len() == self.kinds.len()
        &&& forall|h: int|
            0 <= h < self.kinds.len() && self.kinds[h] == PlayerType::Local ==> (
            #[trigger] self.confirmed[h]).len() == self.frame() + self.delay
        &&& forall|h: int, i: int|
            0 <= h < self.confirmed.len() && 0 <= i < self.confirmed[h].len()
                ==> #[trigger] self.confirmed[h][i] <= INPUT_MASK
    }

    /// Frame `f` was last simulated with every input that is confirmed for it.
    pub open spec fn agrees_at(self, f: int) -> bool {
        forall|h: int|
            0 <= h < self.kinds.len() && f < self.confirmed[h].len() ==> self.used[f][h]
                == #[trigger] self.confirmed[h][f]
    }

    /// Every simulated frame agrees with what is confirmed.
    pub open spec fn consistent(self) -> bool {
        forall|f: int| 0 <= f < self.frame() ==> self.agrees_at(f)
    }

    /// What holds of a session between ticks.
    pub open spec fn wf(self) -> bool {
        &&& self.shaped()
        &&& self.consistent()
        &&& self.frame() - self.settled() <= MAX_PREDICTION
    }

    /// Whether a received message is taken in: it comes from the peer that
    /// plays its handle, holds valid symbols only, starts no later than the
    /// first frame still unconfirmed for that handle, and reaches beyond it,
    /// but not beyond what the machine can count.
    pub open spec fn accepts(self, received: ReceivedView) -> bool {
        let m = received.message;
        &&& m.handle < self.kinds.len()
        &&& self.kinds[m.handle as int] == PlayerType::Remote(received.from)
        &&& m.start <= self.confirmed[m.handle as int].len() < m.start + m.inputs.len()
        &&& m.start + m.inputs.len() <= usize::MAX
        &&& forall|i: int| 0 <= i < m.inputs.len() ==> #[trigger] m.inputs[i] <= INPUT_MASK
    }

    /// The session after one received message. An accepted message confirms
    /// the frames it adds; what was confirmed before stays as it was.
    pub open spec fn merge(self, received: ReceivedView) -> SessionView {
        if self.accepts(received) {
            let h = received.message.handle as int;
            let known = self.confirmed[h];
            SessionView {
                confirmed: self.confirmed.update(
                    h,
                    known + received.message.inputs.skip(known.len() - received.message.start),
                ),
                ..self
            }
        } else {
            self
        }
    }

    /// The session after a list of received messages, taken in order.
    pub open spec fn merge_all(self, inbound: Seq<ReceivedView>) -> SessionView
        decreases inbound.len(),
    {
        if inbound.len() == 0 {
            self
        } else {
            self.merge_all(inbound.drop_last()).merge(inbound.last())
        }
    }

    /// The first frame from `f` on that was simulated with an input that
    /// differs from the confirmed one; the current frame if there is none.
    pub open spec fn mismatch_from(self, f: nat) -> nat
        decreases self.frame() - f,
    {
        if f >= self.frame() {
            self.frame()
        } else if !self.agrees_at(f as int) {
            f
        } else {
            self.mismatch_from(f + 1)
        }
    }

    /// The session with frames `from..` resolved anew from what is confirmed.
    pub open spec fn rewritten(self, from: nat) -> SessionView {
        SessionView {
            used: Seq::new(
                self.frame(),
                |f: int|
                    if f < from {
                        self.used[f]
                    } else {
                        resolve(self.confirmed, f)
                    },
            ),
            ..self
        }
    }

    /// The session after the messages of a tick are merged and every frame
    /// from the first mismatch on is resolved anew.
    pub open spec fn corrected(self, inbound: Seq<ReceivedView>) -> SessionView {
        let merged = self.merge_all(inbound);
        merged.rewritten(merged.mismatch_from(0))
    }

    /// The requests that bring the simulation state in line with
    /// `corrected`: none if no frame was mispredicted, else the load of the
    /// snapshot in front of the first mispredicted frame and the replay of
    /// every frame from there up to, not including, the current one.
    pub open spec fn corrections(self, inbound: Seq<ReceivedView>) -> Seq<RequestView> {
        let merged = self.merge_all(inbound);
        let from = merged.mismatch_from(0);
        if from < self.frame() {
            seq![RequestView::Load { frame: from as usize, slot: slot_of(from as int) }]
                + step_requests(merged.rewritten(from).used, from as int, self.frame() as int)
        } else {
            Seq::empty()
        }
    }

    /// Whether the rollback window leaves room for one more frame.
    pub open spec fn can_advance(self) -> bool {
        self.frame() - self.settled() < MAX_PREDICTION
    }

    /// The session after every local player has submitted its next input.
    pub open spec fn submitted(self, locals: Map<usize, u8>) -> SessionView {
        SessionView {
            confirmed: Seq::new(
                self.confirmed.len(),
                |h: int|
                    if self.kinds[h] == PlayerType::Local {
                        self.confirmed[h].push(local_symbol(locals, h))
                    } else {
                        self.confirmed[h]
                    },
            ),
            ..self
        }
    }

    /// The session after the local inputs are submitted and the current frame
    /// is resolved.
    pub open spec fn advanced(self, locals: Map<usize, u8>) -> SessionView {
        let s = self.submitted(locals);
        SessionView { used: s.used.push(resolve(s.confirmed, s.frame() as int)), ..s }
    }

    /// The requests that simulate the current frame. In front of the very
    /// first frame stands the save of the initial state.
    pub open spec fn stepping(self, locals: Map<usize, u8>) -> Seq<RequestView> {
        let opening = if self.frame() == 0 {
            seq![RequestView::Save { frame: 0, slot: 0 }]
        } else {
            Seq::empty()
        };
        opening + step_requests(
            self.advanced(locals).used,
            self.frame() as int,
            self.frame() as int + 1,
        )
    }

    /// Whether one of the session's remote players sits at `peer`.
    pub open spec fn involves(self, peer: PeerId) -> bool {
        exists|h: int| 0 <= h < self.kinds.len() && #[trigger] self.kinds[h] == PlayerType::Remote(peer)
    }

    /// Whether a tick stalls: the session has ended before, or a peer that is
    /// reported lost plays in it.
    pub open spec fn stalls(self, lost: Seq<PeerId>) -> bool {
        self.ended || exists|i: int| 0 <= i < lost.len() && self.involves(#[trigger] lost[i])
    }

    /// The session a tick leaves behind.
    pub open spec fn after_tick(
        self,
        locals: Map<usize, u8>,
        inbound: Seq<ReceivedView>,
        lost: Seq<PeerId>,
    ) -> SessionView {
        if self.stalls(lost) {
            SessionView { ended: true, ..self }
        } else {
            let c = self.corrected(inbound);
            if c.can_advance() {
                c.advanced(locals)
            } else {
                c
            }
        }
    }

    /// The requests a tick answers with, if it does not stall.
    pub open spec fn tick_requests(
        self,
        locals: Map<usize, u8>,
        inbound: Seq<ReceivedView>,
    ) -> Seq<RequestView> {
        let c = self.corrected(inbound);
        if c.can_advance() {
            self.corrections(inbound) + c.stepping(locals)
        } else {
            self.corrections(inbound)
        }
    }
}

/// The session with which a match starts: no frame is simulated, and for every
/// player the frames in front of the input delay are confirmed as neutral.
pub open spec fn initial(config: SessionConfig, players: Seq<PlayerType>) -> SessionView {
    SessionView {
        kinds: players,
        delay: config.input_delay as nat,
        confirmed: Seq::new(
            players.len(),
            |h: int| Seq::new(config.input_delay as nat, |i: int| NEUTRAL),
        ),
        used: Seq::empty(),
        ended: false,
    }
}

/// Why `build` refuses, if it does. The checks are made in this order.
pub open spec fn build_error(
    config: SessionConfig,
    players: Seq<PlayerType>,
    channel_taken: bool,
) -> Option<BuildError> {
    if config.num_players < 2 {
        Some(BuildError::PlayerCount { configured: config.num_players })
    } else if players.len() > config.num_players {
        Some(
            BuildError::Registration {
                handle: config.num_players,
                player: players[config.num_players as int],
            },
        )
    } else if players.len() < config.num_players {
        Some(BuildError::MissingPlayers { registered: players.len() as usize })
    } else if channel_taken {
        Some(BuildError::Channel(ChannelError::Taken))
    } else {
        None
    }
}

/// `least` is a lower bound of the bound and of every row's length, and it
/// is one of them.
pub proof fn least_is_minimum(table: Seq<Seq<u8>>, bound: nat)
    ensures
        least(table, bound) <= bound,
        forall|h: int| 0 <= h < table.len() ==> least(table, bound) <= (#[trigger] table[h]).len(),
        least(table, bound) == bound || exists|h: int|
            0 <= h < table.len() && (#[trigger] table[h]).len() == least(table, bound),
    decreases table.len(),
{
    if table.len() > 0 {
        let front = table.drop_last();
        least_is_minimum(front, bound);
        assert forall|h: int| 0 <= h < table.len() implies least(table, bound) <= (
        #[trigger] table[h]).len() by {
            if h < front.len() {
                assert(front[h] == table[h]);
            }
        }
        if least(table, bound) != bound && least(table, bound) != table.last().len() {
            let h = choose|h: int|
                0 <= h < front.len() && (#[trigger] front[h]).len() == least(front, bound);
            assert(table[h] == front[h]);
        } else if least(table, bound) != bound {
            assert(table[table.len() - 1].len() == least(table, bound));
        }
    }
}

/// A number that is no greater than the bound and than every row's length is
/// no greater than `least`.
pub proof fn least_is_greatest(table: Seq<Seq<u8>>, bound: nat, n: nat)
    requires
        n <= bound,
        forall|h: int| 0 <= h < table.len() ==> n <= (#[trigger] table[h]).len(),
    ensures
        n <= least(table, bound),
{
    least_is_minimum(table, bound);
}

/// The initial session of a valid configuration and a full roster is well
/// formed.
pub proof fn initial_is_wf(config: SessionConfig, players: Seq<PlayerType>)
    requires
        config.num_players >= 2,
        players.len() == config.num_players,
    ensures
        initial(config, players).wf(),
{
    let view = initial(config, players);
    least_is_minimum(view.confirmed, view.frame());
}

/// Whether `longer` starts with `shorter`.
pub open spec fn extends(longer: Seq<u8>, shorter: Seq<u8>) -> bool {
    shorter.len() <= longer.len() && longer.take(shorter.len() as int) == shorter
}

/// `after` differs from `before` at most in that rows of remote players have
/// grown at their ends.
pub open spec fn grown(before: SessionView, after: SessionView) -> bool {
    &&& after.kinds == before.kinds
    &&& after.delay == before.delay
    &&& after.used == before.used
    &&& after.ended == before.ended
    &&& after.confirmed.len() == before.confirmed.len()
    &&& forall|h: int|
        0 <= h < before.confirmed.len() ==> extends(#[trigger] after.confirmed[h], before.confirmed[h])
    &&& forall|h: int|
        0 <= h < before.confirmed.len() && before.kinds[h] == PlayerType::Local
            ==> #[trigger] after.confirmed[h] == before.confirmed[h]
}

/// Merging one message keeps the shape of a session and only lets rows of
/// remote players grow.
pub proof fn merge_grows(session: SessionView, received: ReceivedView)
    requires
        session.shaped(),
    ensures
        session.merge(received).shaped(),
        grown(session, session.merge(received)),
{
    let after = session.merge(received);
    assert forall|h: int| 0 <= h < session.confirmed.len() implies extends(
        #[trigger] after.confirmed[h],
        session.confirmed[h],
    ) by {
        assert(after.confirmed[h].take(session.confirmed[h].len() as int) =~= session.confirmed[h]);
    }
    if session.accepts(received) {
        let handle = received.message.handle as int;
        let known = session.confirmed[handle];
        let added = received.message.inputs.skip(known.len() - received.message.start);
        assert forall|h: int, i: int|
            0 <= h < after.confirmed.len() && 0 <= i < after.confirmed[h].len()
                implies #[trigger] after.confirmed[h][i] <= INPUT_MASK by {
            if h == handle && i >= known.len() {
                assert(after.confirmed[h][i] == added[i - known.len()]);
                assert(added[i - known.len()] == received.message.inputs[i - received.message.start]);
            } else if h == handle {
                assert(after.confirmed[h][i] == known[i]);
            } else {
                assert(after.confirmed[h][i] == session.confirmed[h][i]);
            }
        }
    }
}

/// Merging a list of messages keeps the shape of a session and only lets rows
/// of remote players grow.
pub proof fn merge_all_grows(session: SessionView, inbound: Seq<ReceivedView>)
    requires
        session.shaped(),
    ensures
        session.merge_all(inbound).shaped(),
        grown(session, session.merge_all(inbound)),
    decreases inbound.len(),
{
    if inbound.len() == 0 {
        assert forall|h: int| 0 <= h < session.confirmed.len() implies extends(
            #[trigger] session.confirmed[h],
            session.confirmed[h],
        ) by {
            assert(session.confirmed[h].take(session.confirmed[h].len() as int) =~= session.confirmed[h]);
        }
    } else {
        let middle = session.merge_all(inbound.drop_last());
        merge_all_grows(session, inbound.drop_last());
        merge_grows(middle, inbound.last());
        let after = middle.merge(inbound.last());
        assert forall|h: int| 0 <= h < session.confirmed.len() implies extends(
            #[trigger] after.confirmed[h],
            session.confirmed[h],
        ) by {
            assert(extends(middle.confirmed[h], session.confirmed[h]));
            assert(extends(after.confirmed[h], middle.confirmed[h]));
            assert(after.confirmed[h].take(session.confirmed[h].len() as int) =~= middle.confirmed[h].take(
                session.confirmed[h].len() as int,
            ));
        }
    }
}

/// If every frame in `start..first` agrees and `first` is the current frame or
/// does not agree, then `first` is where the search from `start` ends.
pub proof fn mismatch_is_first(session: SessionView, start: nat, first: nat)
    requires
        start <= first <= session.frame(),
        forall|f: int| start <= f < first ==> session.agrees_at(f),
        first == session.frame() || !session.agrees_at(first as int),
    ensures
        session.mismatch_from(start) == first,
    decreases first - start,
{
    if start < first {
        mismatch_is_first(session, start + 1, first);
    }
}

/// The search for a mismatch ends between its start and the current frame, on
/// a frame that does not agree unless it is the current one, and passes only
/// frames that agree.
pub proof fn mismatch_is_found(session: SessionView, start: nat)
    requires
        start <= session.frame(),
    ensures
        start <= session.mismatch_from(start) <= session.frame(),
        forall|f: int| start <= f < session.mismatch_from(start) ==> session.agrees_at(f),
        session.mismatch_from(start) < session.frame() ==> !session.agrees_at(
            session.mismatch_from(start) as int,
        ),
    decreases session.frame() - start,
{
    if start < session.frame() && session.agrees_at(start as int) {
        mismatch_is_found(session, start + 1);
    }
}

/// The replay requests of frames `from..to` look at the inputs of those frames
/// only.
pub proof fn step_requests_read_their_frames(
    a: Seq<Seq<u8>>,
    b: Seq<Seq<u8>>,
    from: int,
    to: int,
)
    requires
        forall|f: int| from <= f < to ==> a[f] == b[f],
    ensures
        step_requests(a, from, to) == step_requests(b, from, to),
    decreases to - from,
{
    if from < to {
        step_requests_read_their_frames(a, b, from, to - 1);
    }
}

/// Cutting a symbol to its five meaningful bits gives a valid symbol and
/// leaves a valid symbol as it is.
pub proof fn masked_is_valid(symbol: u8)
    ensures
        symbol & INPUT_MASK <= INPUT_MASK,
        symbol <= INPUT_MASK ==> symbol & INPUT_MASK == symbol,
{
    assert(symbol & 31 <= 31) by (bit_vector);
    assert(symbol <= 31 ==> symbol & 31 == symbol) by (bit_vector);
}

/// `least` does not shrink when the bound and the rows grow.
pub proof fn least_grows(before: Seq<Seq<u8>>, after: Seq<Seq<u8>>, low: nat, high: nat)
    requires
        low <= high,
        before.len() == after.len(),
        forall|h: int| 0 <= h < before.len() ==> (#[trigger] before[h]).len() <= after[h].len(),
    ensures
        least(before, low) <= least(after, high),
{
    least_is_minimum(before, low);
    assert forall|h: int| 0 <= h < after.len() implies least(before, low) <= (#[trigger] after[h]).len() by {
        assert(least(before, low) <= before[h].len());
    }
    least_is_greatest(after, high, least(before, low));
}

/// What was settled before the messages of a tick stays untouched by them:
/// the first mismatch after merging is no earlier than the settled frame.
pub proof fn mismatch_is_recent(session: SessionView, inbound: Seq<ReceivedView>)
    requires
        session.wf(),
    ensures
        session.settled() <= session.merge_all(inbound).mismatch_from(0) <= session.frame(),
        forall|f: int| 0 <= f < session.settled() ==> session.merge_all(inbound).agrees_at(f),
{
    let merged = session.merge_all(inbound);
    merge_all_grows(session, inbound);
    least_is_minimum(session.confirmed, session.frame());
    assert forall|f: int| 0 <= f < session.settled() implies merged.agrees_at(f) by {
        assert(session.agrees_at(f));
        assert forall|h: int|
            0 <= h < merged.kinds.len() && f < merged.confirmed[h].len() implies merged.used[f][h]
                == #[trigger] merged.confirmed[h][f] by {
            assert(extends(merged.confirmed[h], session.confirmed[h]));
            assert(f < session.confirmed[h].len());
            assert(merged.confirmed[h].take(session.confirmed[h].len() as int)[f]
                == merged.confirmed[h][f]);
        }
    }
    mismatch_is_found(merged, 0);
    if merged.mismatch_from(0) < session.settled() {
        assert(merged.agrees_at(merged.mismatch_from(0) as int));
    }
}

/// A tick leaves a well-formed session well formed.
#[verifier::rlimit(50)]
pub proof fn tick_keeps_wf(
    session: SessionView,
    locals: Map<usize, u8>,
    inbound: Seq<ReceivedView>,
    lost: Seq<PeerId>,
)
    requires
        session.wf(),
    ensures
        session.corrected(inbound).wf(),
        session.corrected(inbound).frame() == session.frame(),
        session.after_tick(locals, inbound, lost).wf(),
{
    let merged = session.merge_all(inbound);
    merge_all_grows(session, inbound);
    let from = merged.mismatch_from(0);
    mismatch_is_found(merged, 0);
    let c = merged.rewritten(from);
    assert(c.shaped());
    assert(c.consistent()) by {
        assert forall|f: int| 0 <= f < c.frame() implies c.agrees_at(f) by {
            if f < from {
                assert(merged.agrees_at(f));
            }
        }
    }
    assert(session.settled() <= c.settled()) by {
        assert forall|h: int| 0 <= h < session.confirmed.len() implies (
        #[trigger] session.confirmed[h]).len() <= c.confirmed[h].len() by {
            assert(extends(merged.confirmed[h], session.confirmed[h]));
        }
        least_grows(session.confirmed, c.confirmed, session.frame(), c.frame());
    }
    assert(c.wf());
    if session.stalls(lost) {
        let ended = SessionView { ended: true, ..session };
        assert(ended.shaped());
        assert(ended.consistent()) by {
            assert forall|f: int| 0 <= f < ended.frame() implies ended.agrees_at(f) by {
                assert(session.agrees_at(f));
            }
        }
        assert(ended.settled() == session.settled());
    } else if c.can_advance() {
        advance_keeps_wf(c, locals);
    }
}

/// Submitting the local inputs and resolving the current frame leaves a
/// well-formed session well formed, if the rollback window has room.
#[verifier::rlimit(50)]
pub proof fn advance_keeps_wf(session: SessionView, locals: Map<usize, u8>)
    requires
        session.wf(),
        session.can_advance(),
    ensures
        session.advanced(locals).wf(),
        session.advanced(locals).frame() == session.frame() + 1,
{
    let s = session.submitted(locals);
    let a = session.advanced(locals);
    assert forall|h: int, i: int|
        0 <= h < a.confirmed.len() && 0 <= i < a.confirmed[h].len()
            implies #[trigger] a.confirmed[h][i] <= INPUT_MASK by {
        if session.kinds[h] == PlayerType::Local && i == session.confirmed[h].len() {
            if locals.contains_key(h as usize) {
                masked_is_valid(locals[h as usize]);
            }
        } else {
            assert(a.confirmed[h][i] == session.confirmed[h][i]);
        }
    }
    assert(a.shaped());
    assert(a.consistent()) by {
        assert forall|f: int| 0 <= f < a.frame() implies a.agrees_at(f) by {
            if f < session.frame() {
                assert(session.agrees_at(f));
                assert forall|h: int|
                    0 <= h < a.kinds.len() && f < a.confirmed[h].len() implies a.used[f][h]
                        == #[trigger] a.confirmed[h][f] by {
                    if session.kinds[h] == PlayerType::Local {
                        assert(session.confirmed[h].len() == session.frame() + session.delay);
                    }
                    assert(a.confirmed[h][f] == session.confirmed[h][f]);
                }
            }
        }
    }
    assert forall|h: int| 0 <= h < session.confirmed.len() implies (
    #[trigger] session.confirmed[h]).len() <= a.confirmed[h].len() by {}
    least_grows(session.confirmed, a.confirmed, session.frame(), a.frame());
}

/// Number of frames behind the current one whose inputs a session holds on
/// to. Rollback and messages never reach further back; what is older is
/// forgotten.
pub open spec fn retained(delay: nat) -> nat {
    2 * MAX_PREDICTION as nat + delay + 1
}

/// The first frame whose inputs a session holds on to when it stands at
/// `frame`.
pub open spec fn oldest_needed(frame: nat, delay: nat) -> nat {
    if frame >= retained(delay) {
        (frame - retained(delay)) as nat
    } else {
        0
    }
}

/// Number of latest inputs that a message repeats for a player. However many
/// messages were lost before, a peer that is within the rollback window of the
/// sender is at most this far behind, so every message that arrives brings it
/// up to date.
pub open spec fn span(delay: nat) -> nat {
    2 * (MAX_PREDICTION as nat + delay) + 1
}

impl SessionView {
    /// The frame with which the message for local player `handle` starts.
    pub open spec fn message_start(self, handle: int) -> nat {
        let known = self.confirmed[handle].len();
        if known <= span(self.delay) {
            0
        } else {
            (known - span(self.delay)) as nat
        }
    }

    /// The message that tells the remote peers the latest inputs of local
    /// player `handle`.
    pub open spec fn message_of(self, handle: int) -> InputMessageView {
        InputMessageView {
            handle: handle as usize,
            start: self.message_start(handle) as usize,
            inputs: self.confirmed[handle].skip(self.message_start(handle) as int),
        }
    }

    /// The messages for the local players among the first `count` handles.
    pub open spec fn outbound_upto(self, count: int) -> Seq<InputMessageView>
        decreases count,
    {
        if count <= 0 {
            Seq::empty()
        } else {
            let earlier = self.outbound_upto(count - 1);
            if self.kinds[count - 1] == PlayerType::Local {
                earlier.push(self.message_of(count - 1))
            } else {
                earlier
            }
        }
    }

    /// What the host sends to every remote peer after a tick: one message per
    /// local player, in handle order.
    pub open spec fn outbound(self) -> Seq<InputMessageView> {
        self.outbound_upto(self.kinds.len() as int)
    }
}

/// Whether `message` tells inputs of `truth`: each of its inputs is the one
/// that `truth` holds for that frame.
pub open spec fn tells(message: InputMessageView, truth: Seq<u8>) -> bool {
    &&& message.start + message.inputs.len() <= truth.len()
    &&& forall|i: int|
        0 <= i < message.inputs.len() ==> #[trigger] message.inputs[i] == truth[message.start + i]
}

/// A peer that holds a beginning of a player's true inputs still holds a
/// beginning of them after merging any message that tells true inputs,
/// whenever that message was written and however late it arrives.
pub proof fn merge_keeps_the_truth(
    receiver: SessionView,
    received: ReceivedView,
    handle: int,
    truth: Seq<u8>,
)
    requires
        receiver.shaped(),
        0 <= handle < receiver.kinds.len(),
        extends(truth, receiver.confirmed[handle]),
        received.message.handle == handle ==> tells(received.message, truth),
    ensures
        extends(truth, receiver.merge(received).confirmed[handle]),
{
    let known = receiver.confirmed[handle];
    let after = receiver.merge(received).confirmed[handle];
    if receiver.accepts(received) && received.message.handle == handle {
        let message = received.message;
        let added = message.inputs.skip(known.len() - message.start);
        assert(after == known + added);
        assert(after.len() == message.start + message.inputs.len());
        assert(truth.take(after.len() as int) =~= after) by {
            assert forall|i: int| 0 <= i < after.len() implies truth[i] == after[i] by {
                if i < known.len() {
                    assert(truth.take(known.len() as int)[i] == truth[i]);
                } else {
                    assert(after[i] == message.inputs[i - message.start]);
                }
            }
        }
    } else {
        assert(after == known);
    }
}

/// The message that a session writes for a local player tells that player's
/// inputs as the session holds them, and so tells them as the session will
/// hold them at any later time.
pub proof fn message_tells_the_truth(sender: SessionView, handle: int, later: Seq<u8>)
    requires
        0 <= handle < sender.confirmed.len(),
        sender.confirmed[handle].len() <= usize::MAX,
        extends(later, sender.confirmed[handle]),
    ensures
        tells(sender.message_of(handle), later),
{
    let told = sender.confirmed[handle];
    let message = sender.message_of(handle);
    assert forall|i: int| 0 <= i < message.inputs.len() implies #[trigger] message.inputs[i]
        == later[message.start + i] by {
        assert(later.take(told.len() as int)[message.start + i] == later[message.start + i]);
    }
}

/// Whether the session holds, for every remote player, a beginning of that
/// player's inputs as `truth` has them.
pub open spec fn follows(session: SessionView, truth: Seq<Seq<u8>>) -> bool {
    &&& truth.len() == session.kinds.len()
    &&& forall|h: int|
        0 <= h < session.kinds.len() && session.kinds[h] != PlayerType::Local ==> extends(
            #[trigger] truth[h],
            session.confirmed[h],
        )
}

/// Whether every message of the list tells inputs of `truth`.
pub open spec fn all_tell(inbound: Seq<ReceivedView>, truth: Seq<Seq<u8>>) -> bool {
    forall|i: int|
        0 <= i < inbound.len() && (#[trigger] inbound[i]).message.handle < truth.len() ==> tells(
            inbound[i].message,
            truth[inbound[i].message.handle as int],
        )
}

/// A session that follows the truth still follows it after merging messages
/// that tell the truth, in whatever order they arrive and whichever are
/// missing or come twice.
pub proof fn merging_follows_the_truth(
    session: SessionView,
    inbound: Seq<ReceivedView>,
    truth: Seq<Seq<u8>>,
)
    requires
        session.shaped(),
        follows(session, truth),
        all_tell(inbound, truth),
    ensures
        follows(session.merge_all(inbound), truth),
    decreases inbound.len(),
{
    if inbound.len() > 0 {
        let front = inbound.drop_last();
        assert(all_tell(front, truth)) by {
            assert forall|i: int|
                0 <= i < front.len() && (#[trigger] front[i]).message.handle
                    < truth.len() implies tells(
                front[i].message,
                truth[front[i].message.handle as int],
            ) by {
                assert(front[i] == inbound[i]);
            }
        }
        merging_follows_the_truth(session, front, truth);
        merge_all_grows(session, front);
        let middle = session.merge_all(front);
        let last = inbound.last();
        assert(inbound[inbound.len() - 1] == last);
        assert forall|h: int|
            0 <= h < middle.kinds.len() && middle.kinds[h] != PlayerType::Local implies extends(
            #[trigger] truth[h],
            middle.merge(last).confirmed[h],
        ) by {
            merge_keeps_the_truth(middle, last, h, truth[h]);
        }
    }
}

/// A tick keeps a session that follows the truth following it, and lets the
/// inputs of its own players only grow at their ends: what a session has
/// told once it never takes back.
pub proof fn tick_follows_the_truth(
    session: SessionView,
    locals: Map<usize, u8>,
    inbound: Seq<ReceivedView>,
    lost: Seq<PeerId>,
    truth: Seq<Seq<u8>>,
)
    requires
        session.wf(),
        follows(session, truth),
        all_tell(inbound, truth),
    ensures
        follows(session.after_tick(locals, inbound, lost), truth),
        forall|h: int|
            0 <= h < session.kinds.len() ==> extends(
                #[trigger] session.after_tick(locals, inbound, lost).confirmed[h],
                session.confirmed[h],
            ),
{
    let after = session.after_tick(locals, inbound, lost);
    merging_follows_the_truth(session, inbound, truth);
    merge_all_grows(session, inbound);
    let merged = session.merge_all(inbound);
    let c = session.corrected(inbound);
    assert(c.confirmed == merged.confirmed);
    assert(c.kinds == session.kinds);
    if session.stalls(lost) {
        assert(after.confirmed == session.confirmed);
        assert forall|h: int| 0 <= h < session.kinds.len() implies extends(
            #[trigger] after.confirmed[h],
            session.confirmed[h],
        ) by {
            assert(session.confirmed[h].take(session.confirmed[h].len() as int)
                =~= session.confirmed[h]);
        }
    } else {
        assert forall|h: int| 0 <= h < session.kinds.len() implies extends(
            #[trigger] after.confirmed[h],
            session.confirmed[h],
        ) && (session.kinds[h] != PlayerType::Local ==> after.confirmed[h]
            == merged.confirmed[h]) by {
            assert(extends(merged.confirmed[h], session.confirmed[h]));
            if c.can_advance() {
                let s = c.submitted(locals);
                assert(after.confirmed == s.confirmed);
                if session.kinds[h] == PlayerType::Local {
                    assert(after.confirmed[h] == merged.confirmed[h].push(local_symbol(locals, h)));
                } else {
                    assert(after.confirmed[h] == merged.confirmed[h]);
                }
            } else {
                assert(after.confirmed[h] == merged.confirmed[h]);
            }
            assert(after.confirmed[h].take(session.confirmed[h].len() as int)
                =~= merged.confirmed[h].take(session.confirmed[h].len() as int));
        }
    }
}

/// A peer that holds a beginning of the sender's inputs of a player, and is
/// no further behind than the message reaches back, holds all of them after
/// merging the sender's message. A peer that is further behind, or is not told
/// by the transport that the message comes from that player's peer, keeps what
/// it has.
pub proof fn message_catches_up(
    sender: SessionView,
    receiver: SessionView,
    from: PeerId,
    handle: int,
)
    requires
        sender.shaped(),
        receiver.shaped(),
        0 <= handle < sender.kinds.len(),
        sender.kinds.len() == receiver.kinds.len(),
        sender.kinds.len() <= usize::MAX,
        sender.confirmed[handle].len() <= usize::MAX,
        receiver.kinds[handle] == PlayerType::Remote(from),
        extends(sender.confirmed[handle], receiver.confirmed[handle]),
    ensures
        extends(
            sender.confirmed[handle],
            receiver.merge(
                ReceivedView { from, message: sender.message_of(handle) },
            ).confirmed[handle],
        ),
        sender.message_start(handle) <= receiver.confirmed[handle].len() ==> receiver.merge(
            ReceivedView { from, message: sender.message_of(handle) },
        ).confirmed[handle] == sender.confirmed[handle],
{
    let told = sender.confirmed[handle];
    let known = receiver.confirmed[handle];
    let message = sender.message_of(handle);
    let received = ReceivedView { from, message };
    let after = receiver.merge(received).confirmed[handle];
    let start = sender.message_start(handle) as int;
    assert(message.inputs.len() == told.len() - start);
    if receiver.accepts(received) {
        let added = message.inputs.skip(known.len() - start);
        assert(after == known + added);
        assert(after =~= told) by {
            assert(after.len() == told.len());
            assert forall|i: int| 0 <= i < after.len() implies after[i] == told[i] by {
                if i < known.len() {
                    assert(told.take(known.len() as int)[i] == told[i]);
                }
            }
        }
        assert(told.take(told.len() as int) =~= told);
    } else {
        assert(after == known);
        if start <= known.len() {
            assert forall|i: int| 0 <= i < message.inputs.len() implies #[trigger] message.inputs[i]
                <= INPUT_MASK by {
                assert(message.inputs[i] == told[start + i]);
            }
            assert(known.len() >= told.len());
            assert(told.take(known.len() as int) =~= told);
        }
    }
}

} // verus!
