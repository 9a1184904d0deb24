//! The rollback session: the synchronisation engine of a match.
//!
//! A session keeps, for every player handle, the inputs that are confirmed so
//! far, and, for every frame simulated so far, the inputs that the simulation
//! was last run with. Each tick it merges what the remote peers sent, finds the
//! earliest frame that was simulated with a prediction that turned out wrong,
//! and answers with the requests that the host has to carry out on the
//! simulation state: load a snapshot, advance a frame with given inputs, save a
//! snapshot.
//!
//! Snapshots are named by the number of frames they contain: snapshot `k` is
//! the state in which frames `0..k` have run, so it is the state right after
//! frame `k - 1` and right before frame `k`. The host keeps them in
//! [`SNAPSHOT_SLOTS`] slots; snapshot `k` lives in slot `k % SNAPSHOT_SLOTS`.
//!
//! A session never simulates more than [`MAX_PREDICTION`] frames past the last
//! frame for which every player's input is confirmed. That is the rollback
//! window: no rollback ever reaches further back, and a peer whose input is
//! later than that holds the match up instead of desynchronising it.
//!
//! Inputs are held only as long as a rollback or a message may still need
//! them: twice the window and the input delay behind the current frame they
//! are forgotten.

use crate::input::INPUT_MASK;
use crate::model::{
    advance_keeps_wf, build_error, extends, initial, initial_is_wf, least, least_grows,
    least_is_minimum, merge_all_grows, merge_grows, mismatch_is_first, mismatch_is_recent,
    oldest_needed, resolve, resolve_one, retained, slot_of, step_requests,
    step_requests_read_their_frames, tick_keeps_wf, InputMessageView, ReceivedView, RequestView,
    SessionView,
};
use crate::trail::Trail;
use crate::transport::{
    Channel, ChannelError, PeerId, PlayerType, Transport, TransportView, CHANNEL,
};
use std::collections::HashMap;
use vstd::prelude::*;

verus! {

/// Length of the rollback window in frames.
pub const MAX_PREDICTION: usize = 8;

/// Number of snapshot slots the host needs: one per frame of the window, and
/// one for the state in front of it.
pub const SNAPSHOT_SLOTS: usize = 9;

/// The symbol of a player who presses nothing.
pub const NEUTRAL: u8 = 0;

/// Match-wide constants, agreed before play starts.
#[derive(Clone, Copy, Debug, PartialEq, Eq, Structural)]
pub struct SessionConfig {
    /// Number of player handles; at least two.
    pub num_players: usize,
    /// Number of frames by which local input is put off.
    pub input_delay: usize,
}

impl Default for SessionConfig {
    fn default() -> (config: SessionConfig)
        ensures
            config.num_players == 2,
            config.input_delay == 2,
    {
        SessionConfig { num_players: 2, input_delay: 2 }
    }
}

/// A run of confirmed inputs of one player: `inputs[i]` is the input of
/// `handle` for frame `start + i`.
#[derive(Debug, PartialEq, Eq)]
pub struct InputMessage {
    pub handle: usize,
    pub start: usize,
    pub inputs: Vec<u8>,
}

impl View for InputMessage {
    type V = InputMessageView;

    open spec fn view(&self) -> InputMessageView {
        InputMessageView { handle: self.handle, start: self.start, inputs: self.inputs@ }
    }
}

/// A message together with the peer that the transport names as its sender.
#[derive(Debug, PartialEq, Eq)]
pub struct Received {
    pub from: PeerId,
    pub message: InputMessage,
}

impl View for Received {
    type V = ReceivedView;

    open spec fn view(&self) -> ReceivedView {
        ReceivedView { from: self.from, message: self.message@ }
    }
}

/// One thing the host has to do to the simulation state.
#[derive(Debug, PartialEq, Eq)]
pub enum Request {
    /// Copy the current state into `slot` as snapshot `frame`.
    Save { frame: usize, slot: usize },
    /// Replace the current state by snapshot `frame`, which is in `slot`.
    Load { frame: usize, slot: usize },
    /// Run the simulation step of `frame` with one input per player handle.
    Advance { frame: usize, inputs: Vec<u8> },
}

impl View for Request {
    type V = RequestView;

    open spec fn view(&self) -> RequestView {
        match *self {
            Request::Save { frame, slot } => RequestView::Save { frame, slot },
            Request::Load { frame, slot } => RequestView::Load { frame, slot },
            Request::Advance { frame, inputs } => RequestView::Advance { frame, inputs: inputs@ },
        }
    }
}

/// The views of a list of requests, in order.
pub open spec fn request_views(requests: Seq<Request>) -> Seq<RequestView> {
    Seq::new(requests.len(), |i: int| requests[i]@)
}

/// The views of a list of received messages, in order.
pub open spec fn received_views(inbound: Seq<Received>) -> Seq<ReceivedView> {
    Seq::new(inbound.len(), |i: int| inbound[i]@)
}

/// What a tick that was not stalled hands back.
#[derive(Debug, PartialEq, Eq)]
pub struct Resolved {
    /// What the host has to do, in this order, before the next tick.
    pub requests: Vec<Request>,
    /// Whether a new frame was simulated. If so the last but one request is
    /// its `Advance`, which holds the resolved inputs of that frame.
    pub advanced: bool,
}

/// The session has ended abnormally: a remote player's peer is gone.
#[derive(Clone, Copy, Debug, PartialEq, Eq, Structural)]
pub enum Stall {
    PeerLost,
}

/// Why no session was built.
#[derive(Clone, Copy, Debug, PartialEq, Eq, Structural)]
pub enum BuildError {
    /// The configuration asks for fewer than two players.
    PlayerCount { configured: usize },
    /// A player could not be given the handle that its place in the roster
    /// asks for: the configuration has no such handle.
    Registration { handle: usize, player: PlayerType },
    /// Fewer players were given than the configuration asks for.
    MissingPlayers { registered: usize },
    /// The transport did not hand out its channel.
    Channel(ChannelError),
}

/// The views of the rows of a table of symbols.
pub open spec fn rows(table: Seq<Vec<u8>>) -> Seq<Seq<u8>> {
    Seq::new(table.len(), |i: int| table[i]@)
}

/// The sequences of a list of trails.
pub open spec fn trails(table: Seq<Trail<u8>>) -> Seq<Seq<u8>> {
    Seq::new(table.len(), |i: int| table[i]@)
}

/// The views of a list of messages, in order.
pub open spec fn message_views(messages: Seq<InputMessage>) -> Seq<InputMessageView> {
    Seq::new(messages.len(), |i: int| messages[i]@)
}

/// The rollback session of one peer.
pub struct Session {
    kinds: Vec<PlayerType>,
    delay: usize,
    channel: Channel,
    confirmed: Vec<Trail<u8>>,
    used: Trail<Vec<u8>>,
    ended: bool,
}

impl View for Session {
    type V = SessionView;

    closed spec fn view(&self) -> SessionView {
        SessionView {
            kinds: self.kinds@,
            delay: self.delay as nat,
            confirmed: trails(self.confirmed@),
            used: rows(self.used@),
            ended: self.ended,
        }
    }
}

fn copy_row(row: &Vec<u8>) -> (copy: Vec<u8>)
    ensures
        copy@ == row@,
{
    let mut copy: Vec<u8> = Vec::new();
    let mut i: usize = 0;
    while i < row.len()
        invariant
            i <= row.len(),
            copy@ == row@.take(i as int),
        decreases row.len() - i,
    {
        copy.push(row[i]);
        assert(row@.take(i + 1) =~= row@.take(i as int).push(row@[i as int]));
        i = i + 1;
    }
    assert(row@.take(row.len() as int) =~= row@);
    copy
}

fn valid_symbols(inputs: &Vec<u8>) -> (valid: bool)
    ensures
        valid == (forall|i: int| 0 <= i < inputs.len() ==> #[trigger] inputs@[i] <= INPUT_MASK),
{
    let mut i: usize = 0;
    while i < inputs.len()
        invariant
            i <= inputs.len(),
            forall|k: int| 0 <= k < i ==> #[trigger] inputs@[k] <= INPUT_MASK,
        decreases inputs.len() - i,
    {
        if inputs[i] > INPUT_MASK {
            return false;
        }
        i = i + 1;
    }
    true
}

fn neutral_trail(length: usize) -> (row: Trail<u8>)
    ensures
        row.wf(),
        row.start() == 0,
        row@ == Seq::new(length as nat, |i: int| NEUTRAL),
{
    let mut row: Trail<u8> = Trail::new();
    let mut i: usize = 0;
    while i < length
        invariant
            i <= length,
            row.wf(),
            row.start() == 0,
            row@ == Seq::new(i as nat, |k: int| NEUTRAL),
        decreases length - i,
    {
        row.push(NEUTRAL);
        assert(row@ =~= Seq::new((i + 1) as nat, |k: int| NEUTRAL));
        i = i + 1;
    }
    row
}

impl Session {
    /// The channel that was bound to the session when it was built. It stays
    /// with the session for as long as the session lives.
    pub closed spec fn bound(&self) -> Channel {
        self.channel
    }

    /// The first frame whose inputs the session still holds.
    pub closed spec fn held_from(&self) -> nat {
        self.used.start()
    }

    /// The session holds what it may still need: the inputs of every player
    /// and of every simulated frame from `held_from` on, and `held_from` is
    /// the first frame or lies at least `retained` frames back.
    spec fn stored(&self) -> bool {
        &&& self.used.wf()
        &&& forall|h: int|
            0 <= h < self.confirmed@.len() ==> (#[trigger] self.confirmed@[h]).wf()
                && self.confirmed@[h].start() == self.used.start()
        &&& (self.used.start() == 0 || self.used.start() + retained(self.delay as nat)
            <= self.used@.len())
    }

    /// The session holds what it may still need and nothing older: between
    /// ticks, `held_from` lies exactly `retained` frames back, or is the first
    /// frame if there are not yet as many.
    pub closed spec fn valid(&self) -> bool {
        self.stored() && self.used.start() == oldest_needed(
            self.used@.len(),
            self.delay as nat,
        )
    }

    /// What holds of a session between ticks.
    pub open spec fn wf(&self) -> bool {
        self.valid() && self@.wf()
    }

    /// In a session whose last settled frame is within the window, nothing
    /// that a rollback, a prediction or a message reads has been forgotten.
    proof fn nothing_needed_is_gone(&self)
        requires
            self.stored(),
            self@.confirmed.len() == self@.kinds.len(),
            self@.frame() - self@.settled() <= MAX_PREDICTION,
        ensures
            self.held_from() <= self@.settled(),
            self@.frame() <= usize::MAX,
            forall|h: int|
                0 <= h < self@.confirmed.len() ==> self.held_from() <= (
                #[trigger] self@.confirmed[h]).len() <= usize::MAX && (self.held_from() == 0
                    || self.held_from() < self@.confirmed[h].len()),
    {
        least_is_minimum(self@.confirmed, self@.frame());
        self.used.start_is_inside();
        assert forall|h: int| 0 <= h < self@.confirmed.len() implies self.held_from() <= (
        #[trigger] self@.confirmed[h]).len() <= usize::MAX && (self.held_from() == 0
            || self.held_from() < self@.confirmed[h].len()) by {
            self.confirmed@[h].start_is_inside();
            assert(self@.settled() <= self@.confirmed[h].len());
        }
    }

    /// Builds the session of a match. All of `players` are registered first,
    /// each under the handle that is its place in the list; then the channel
    /// that the transport holds is taken from it and bound to the session. If
    /// anything is refused, nothing has happened: the transport still holds
    /// what it held.
    pub fn build(config: &SessionConfig, players: &Vec<PlayerType>, transport: &mut Transport) -> (built:
        Result<Session, BuildError>)
        ensures
            match built {
                Ok(session) => {
                    &&& build_error(*config, players@, old(transport)@.channel_taken).is_none()
                    &&& session@ == initial(*config, players@)
                    &&& session.wf()
                    &&& Some(session.bound()) == old(transport).held()
                    &&& final(transport).held().is_none()
                    &&& final(transport)@ == (TransportView {
                        channel_taken: true,
                        ..old(transport)@
                    })
                },
                Err(error) => {
                    &&& build_error(*config, players@, old(transport)@.channel_taken) == Some(error)
                    &&& final(transport)@ == old(transport)@
                    &&& final(transport).held() == old(transport).held()
                },
            },
    {
        if config.num_players < 2 {
            return Err(BuildError::PlayerCount { configured: config.num_players });
        }
        let mut kinds: Vec<PlayerType> = Vec::new();
        let mut confirmed: Vec<Trail<u8>> = Vec::new();
        let mut handle: usize = 0;
        while handle < players.len()
            invariant
                handle <= players.len(),
                handle <= config.num_players,
                config.num_players >= 2,
                transport@ == old(transport)@,
                transport.held() == old(transport).held(),
                kinds@ == players@.take(handle as int),
                confirmed.len() == handle,
                forall|h: int|
                    0 <= h < handle ==> (#[trigger] confirmed@[h]).wf() && confirmed@[h].start() == 0
                        && confirmed@[h]@ == Seq::new(config.input_delay as nat, |i: int| NEUTRAL),
            decreases players.len() - handle,
        {
            if handle >= config.num_players {
                return Err(BuildError::Registration { handle, player: players[handle] });
            }
            kinds.push(players[handle]);
            confirmed.push(neutral_trail(config.input_delay));
            assert(players@.take(handle + 1) =~= players@.take(handle as int).push(
                players@[handle as int],
            ));
            handle = handle + 1;
        }
        assert(players@.take(players.len() as int) =~= players@);
        if players.len() < config.num_players {
            return Err(BuildError::MissingPlayers { registered: players.len() });
        }
        let channel = match transport.take_channel(CHANNEL) {
            Ok(channel) => channel,
            Err(error) => {
                return Err(BuildError::Channel(error));
            },
        };
        let session = Session {
            kinds,
            delay: config.input_delay,
            channel,
            confirmed,
            used: Trail::new(),
            ended: false,
        };
        proof {
            let view = initial(*config, players@);
            assert(session@.confirmed =~= view.confirmed);
            assert(session@.used =~= view.used);
            initial_is_wf(*config, players@);
        }
        Ok(session)
    }

    /// The frame that the next tick simulates.
    pub fn frame(&self) -> (frame: usize)
        requires
            self.valid(),
        ensures
            frame == self@.frame(),
    {
        self.used.len()
    }

    /// Number of player handles.
    pub fn num_players(&self) -> (count: usize)
        ensures
            count == self@.kinds.len(),
    {
        self.kinds.len()
    }

    /// The input delay in frames.
    pub fn input_delay(&self) -> (delay: usize)
        ensures
            delay == self@.delay,
    {
        self.delay
    }

    /// Whether the session has stalled for good.
    pub fn ended(&self) -> (ended: bool)
        ensures
            ended == self@.ended,
    {
        self.ended
    }

    /// The channel that is bound to the session: the one that `build` took
    /// from the transport.
    pub fn channel(&self) -> (channel: &Channel)
        ensures
            *channel == self.bound(),
    {
        &self.channel
    }

    /// The number of leading frames for which the input of `handle` is
    /// confirmed, if the session has such a handle.
    pub fn confirmed(&self, handle: usize) -> (frames: Option<usize>)
        requires
            self.wf(),
        ensures
            frames == if handle < self@.kinds.len() {
                Some(self@.confirmed[handle as int].len() as usize)
            } else {
                None
            },
    {
        if handle < self.confirmed.len() {
            Some(self.confirmed[handle].len())
        } else {
            None
        }
    }

    /// The first frame whose inputs are still held. Everything in front of it
    /// is settled and has been forgotten.
    pub fn oldest(&self) -> (frame: usize)
        requires
            self.wf(),
        ensures
            frame == self.held_from(),
            frame == oldest_needed(self@.frame(), self@.delay),
            frame <= self@.settled(),
    {
        proof {
            self.nothing_needed_is_gone();
        }
        self.used.first()
    }

    /// Who sits behind `handle`, if the session has such a handle.
    pub fn player(&self, handle: usize) -> (player: Option<PlayerType>)
        ensures
            player == if handle < self@.kinds.len() {
                Some(self@.kinds[handle as int])
            } else {
                None
            },
    {
        if handle < self.kinds.len() {
            Some(self.kinds[handle])
        } else {
            None
        }
    }

    /// The number of leading frames that no rollback will touch again.
    pub fn settled(&self) -> (settled: usize)
        requires
            self.valid(),
        ensures
            settled == self@.settled(),
    {
        self.least_confirmed()
    }

    fn least_confirmed(&self) -> (settled: usize)
        requires
            self.stored(),
        ensures
            settled == self@.settled(),
    {
        let mut settled: usize = self.used.len();
        let mut h: usize = 0;
        while h < self.confirmed.len()
            invariant
                self.stored(),
                h <= self.confirmed.len(),
                settled == least(trails(self.confirmed@).take(h as int), self.used@.len()),
            decreases self.confirmed.len() - h,
        {
            let known = self.confirmed[h].len();
            if known < settled {
                settled = known;
            }
            proof {
                let table = trails(self.confirmed@);
                assert(table.take(h + 1).drop_last() =~= table.take(h as int));
                assert(table.take(h + 1).last() == table[h as int]);
            }
            h = h + 1;
        }
        proof {
            let table = trails(self.confirmed@);
            assert(table.take(table.len() as int) =~= table);
        }
        settled
    }

    fn merge(&mut self, received: &Received)
        requires
            old(self).stored(),
            old(self)@.shaped(),
        ensures
            final(self).stored(),
            final(self).held_from() == old(self).held_from(),
            final(self).bound() == old(self).bound(),
            final(self)@ == old(self)@.merge(received@),
    {
        let message = &received.message;
        let handle = message.handle;
        if handle >= self.kinds.len() {
            return ;
        }
        if self.kinds[handle] != PlayerType::Remote(received.from) {
            return ;
        }
        let known = self.confirmed[handle].len();
        if message.start > known {
            return ;
        }
        let overlap = known - message.start;
        if overlap >= message.inputs.len() {
            return ;
        }
        if message.inputs.len() - overlap > usize::MAX - known {
            return ;
        }
        if !valid_symbols(&message.inputs) {
            return ;
        }
        let mut i: usize = overlap;
        while i < message.inputs.len()
            invariant
                overlap <= i <= message.inputs.len(),
                handle < self.confirmed.len(),
                known + (message.inputs.len() - overlap) <= usize::MAX,
                known == old(self).confirmed@[handle as int]@.len(),
                self.kinds == old(self).kinds,
                self.delay == old(self).delay,
                self.used == old(self).used,
                self.ended == old(self).ended,
                self.channel == old(self).channel,
                self.confirmed.len() == old(self).confirmed.len(),
                forall|j: int|
                    0 <= j < self.confirmed.len() && j != handle ==> self.confirmed@[j] == old(self).confirmed@[j],
                self.confirmed@[handle as int].wf(),
                self.confirmed@[handle as int].start() == old(self).confirmed@[handle as int].start(),
                self.confirmed@[handle as int]@ == old(self).confirmed@[handle as int]@
                    + message.inputs@.subrange(overlap as int, i as int),
            decreases message.inputs.len() - i,
        {
            self.confirmed[handle].push(message.inputs[i]);
            assert(message.inputs@.subrange(overlap as int, i + 1) =~= message.inputs@.subrange(
                overlap as int,
                i as int,
            ).push(message.inputs@[i as int]));
            i = i + 1;
        }
        proof {
            let before = old(self)@;
            assert(before.accepts(received@));
            assert(message.inputs@.subrange(overlap as int, message.inputs.len() as int)
                =~= message.inputs@.skip(overlap as int));
            assert(self@.confirmed =~= before.merge(received@).confirmed);
        }
    }

    fn resolve(&self, frame: usize) -> (inputs: Vec<u8>)
        requires
            self.stored(),
            self@.confirmed.len() == self@.kinds.len(),
            self@.frame() - self@.settled() <= MAX_PREDICTION,
            self.held_from() <= frame,
        ensures
            inputs@ == resolve(self@.confirmed, frame as int),
    {
        proof {
            self.nothing_needed_is_gone();
        }
        let mut inputs: Vec<u8> = Vec::new();
        let mut h: usize = 0;
        while h < self.confirmed.len()
            invariant
                self.stored(),
                self.held_from() <= frame,
                forall|k: int|
                    0 <= k < self@.confirmed.len() ==> self.held_from() <= (
                    #[trigger] self@.confirmed[k]).len() && (self.held_from() == 0
                        || self.held_from() < self@.confirmed[k].len()),
                h <= self.confirmed.len(),
                inputs@ == Seq::new(
                    h as nat,
                    |k: int| resolve_one(self.confirmed@[k]@, frame as int),
                ),
            decreases self.confirmed.len() - h,
        {
            let known = &self.confirmed[h];
            assert(self@.confirmed[h as int] == known@);
            let length = known.len();
            let symbol = if frame < length {
                *known.get(frame)
            } else if length == 0 {
                NEUTRAL
            } else {
                *known.get(length - 1)
            };
            inputs.push(symbol);
            assert(inputs@ =~= Seq::new(
                (h + 1) as nat,
                |k: int| resolve_one(self.confirmed@[k]@, frame as int),
            ));
            h = h + 1;
        }
        assert(inputs@ =~= resolve(self@.confirmed, frame as int));
        inputs
    }

    fn agrees(&self, frame: usize) -> (agrees: bool)
        requires
            self.stored(),
            self@.shaped(),
            self.held_from() <= frame < self@.frame(),
        ensures
            agrees == self@.agrees_at(frame as int),
    {
        let used = self.used.get(frame);
        assert(used@ == self@.used[frame as int]);
        let mut h: usize = 0;
        while h < self.kinds.len()
            invariant
                self.stored(),
                self@.shaped(),
                self.held_from() <= frame < self@.frame(),
                used@ == self@.used[frame as int],
                h <= self.kinds.len(),
                forall|k: int|
                    0 <= k < h && frame < self@.confirmed[k].len() ==> self@.used[frame as int][k]
                        == #[trigger] self@.confirmed[k][frame as int],
            decreases self.kinds.len() - h,
        {
            assert(self@.used[frame as int].len() == self@.kinds.len());
            let known = &self.confirmed[h];
            assert(self@.confirmed[h as int] == known@);
            if frame < known.len() && used[h] != *known.get(frame) {
                assert(self@.used[frame as int][h as int] != self@.confirmed[h as int][frame as int]);
                return false;
            }
            h = h + 1;
        }
        true
    }

    fn first_mismatch(&self, floor: usize) -> (first: usize)
        requires
            self.stored(),
            self@.shaped(),
            self.held_from() <= floor <= self@.frame(),
            forall|f: int| 0 <= f < floor ==> self@.agrees_at(f),
        ensures
            first == self@.mismatch_from(0),
            floor <= first <= self@.frame(),
    {
        let frame = self.used.len();
        let mut f: usize = floor;
        while f < frame
            invariant
                self.stored(),
                self@.shaped(),
                frame == self@.frame(),
                self.held_from() <= floor <= f <= self@.frame(),
                forall|k: int| 0 <= k < f ==> self@.agrees_at(k),
            decreases frame - f,
        {
            if !self.agrees(f) {
                proof {
                    mismatch_is_first(self@, 0, f as nat);
                }
                return f;
            }
            f = f + 1;
        }
        proof {
            mismatch_is_first(self@, 0, f as nat);
        }
        f
    }

    #[verifier::rlimit(50)]
    fn replay(&mut self, from: usize, requests: &mut Vec<Request>)
        requires
            old(self).stored(),
            old(self)@.confirmed.len() == old(self)@.kinds.len(),
            old(self)@.frame() - old(self)@.settled() <= MAX_PREDICTION,
            old(self).held_from() <= from <= old(self)@.frame(),
        ensures
            final(self).stored(),
            final(self).held_from() == old(self).held_from(),
            final(self).bound() == old(self).bound(),
            final(self)@ == old(self)@.rewritten(from as nat),
            request_views(final(requests)@) == request_views(old(requests)@) + step_requests(
                final(self)@.used,
                from as int,
                old(self)@.frame() as int,
            ),
    {
        let frame = self.used.len();
        let mut f: usize = from;
        while f < frame
            invariant
                self.stored(),
                frame == self@.frame(),
                self@.confirmed.len() == self@.kinds.len(),
                self@.frame() - self@.settled() <= MAX_PREDICTION,
                self.held_from() == old(self).held_from(),
                self.held_from() <= from <= f <= frame,
                self.kinds == old(self).kinds,
                self.delay == old(self).delay,
                self.confirmed == old(self).confirmed,
                self.ended == old(self).ended,
                self.channel == old(self).channel,
                self.used@.len() == old(self).used@.len(),
                forall|k: int|
                    0 <= k < self.used@.len() && !(from <= k < f) ==> self.used@[k] == old(self).used@[k],
                forall|k: int|
                    from <= k < f ==> (#[trigger] self.used@[k])@ == resolve(self@.confirmed, k),
                request_views(requests@) == request_views(old(requests)@) + step_requests(
                    self@.used,
                    from as int,
                    f as int,
                ),
            decreases frame - f,
        {
            let ghost before = self@.used;
            let ghost listed = request_views(requests@);
            let inputs = self.resolve(f);
            requests.push(Request::Advance { frame: f, inputs: copy_row(&inputs) });
            self.used.set(f, inputs);
            requests.push(Request::Save { frame: f + 1, slot: (f + 1) % SNAPSHOT_SLOTS });
            proof {
                assert(self@.used.len() == before.len());
                assert(self@.settled() == old(self)@.settled());
                step_requests_read_their_frames(before, self@.used, from as int, f as int);
                assert(request_views(requests@) =~= listed.push(
                    RequestView::Advance { frame: f, inputs: self@.used[f as int] },
                ).push(RequestView::Save { frame: (f + 1) as usize, slot: slot_of(f + 1) }));
                assert(request_views(requests@) =~= request_views(old(requests)@) + step_requests(
                    self@.used,
                    from as int,
                    f + 1,
                ));
            }
            f = f + 1;
        }
        proof {
            assert(self@.used =~= old(self)@.rewritten(from as nat).used);
        }
    }

    fn submit(&mut self, local_inputs: &HashMap<usize, u8>)
        requires
            old(self).stored(),
            old(self)@.shaped(),
            old(self)@.frame() + old(self)@.delay < usize::MAX,
        ensures
            final(self).stored(),
            final(self).held_from() == old(self).held_from(),
            final(self).bound() == old(self).bound(),
            final(self)@ == old(self)@.submitted(local_inputs@),
    {
        broadcast use vstd::std_specs::hash::group_hash_axioms;

        let mut h: usize = 0;
        while h < self.kinds.len()
            invariant
                h <= self.kinds.len(),
                old(self)@.shaped(),
                old(self)@.frame() + old(self)@.delay < usize::MAX,
                self.stored(),
                self.kinds == old(self).kinds,
                self.delay == old(self).delay,
                self.used == old(self).used,
                self.ended == old(self).ended,
                self.channel == old(self).channel,
                self.confirmed.len() == self.kinds.len(),
                self.confirmed.len() == old(self).confirmed.len(),
                forall|k: int| h <= k < self.confirmed.len() ==> self.confirmed@[k] == old(self).confirmed@[k],
                forall|k: int|
                    0 <= k < h ==> (#[trigger] self.confirmed@[k])@ == old(self)@.submitted(
                        local_inputs@,
                    ).confirmed[k],
            decreases self.kinds.len() - h,
        {
            if self.kinds[h] == PlayerType::Local {
                let symbol = match local_inputs.get(&h) {
                    Some(symbol) => *symbol & INPUT_MASK,
                    None => NEUTRAL,
                };
                assert(old(self)@.confirmed[h as int].len() == old(self)@.frame() + old(self)@.delay);
                self.confirmed[h].push(symbol);
            }
            h = h + 1;
        }
        proof {
            assert(self@.confirmed =~= old(self)@.submitted(local_inputs@).confirmed);
        }
    }

    /// Forgets the inputs that lie more than `retained` frames back.
    #[verifier::rlimit(50)]
    fn prune(&mut self)
        requires
            old(self).stored(),
            old(self)@.wf(),
            old(self).held_from() <= oldest_needed(old(self)@.frame(), old(self)@.delay),
        ensures
            final(self).wf(),
            final(self)@ == old(self)@,
            final(self).bound() == old(self).bound(),
    {
        proof {
            self.nothing_needed_is_gone();
        }
        if self.delay > usize::MAX - 2 * MAX_PREDICTION - 1 {
            return ;
        }
        let keep = 2 * MAX_PREDICTION + self.delay + 1;
        let frame = self.used.len();
        if frame < keep {
            return ;
        }
        let upto = frame - keep;
        if upto <= self.used.first() {
            return ;
        }
        proof {
            least_is_minimum(self@.confirmed, self@.frame());
            assert forall|k: int| 0 <= k < self.confirmed.len() implies upto <= (
            #[trigger] self.confirmed@[k])@.len() by {
                assert(self@.settled() <= self@.confirmed[k].len());
            }
        }
        let mut h: usize = 0;
        while h < self.confirmed.len()
            invariant
                h <= self.confirmed.len(),
                self.kinds == old(self).kinds,
                self.delay == old(self).delay,
                self.used == old(self).used,
                self.ended == old(self).ended,
                self.channel == old(self).channel,
                self.confirmed.len() == old(self).confirmed.len(),
                old(self).stored(),
                old(self).held_from() < upto,
                forall|k: int|
                    0 <= k < old(self).confirmed.len() ==> upto <= (
                    #[trigger] old(self).confirmed@[k])@.len(),
                forall|k: int|
                    0 <= k < self.confirmed.len() ==> (#[trigger] self.confirmed@[k]).wf()
                        && self.confirmed@[k]@ == old(self).confirmed@[k]@,
                forall|k: int| 0 <= k < h ==> (#[trigger] self.confirmed@[k]).start() == upto,
                forall|k: int|
                    h <= k < self.confirmed.len() ==> (#[trigger] self.confirmed@[k]).start() == old(self).held_from(),
            decreases self.confirmed.len() - h,
        {
            self.confirmed[h].forget(upto);
            h = h + 1;
        }
        self.used.forget(upto);
        proof {
            assert(self@.confirmed =~= old(self)@.confirmed);
        }
    }

    /// Whether one of the session's remote players sits at `peer`.
    pub fn involves(&self, peer: PeerId) -> (involved: bool)
        ensures
            involved == self@.involves(peer),
    {
        let mut h: usize = 0;
        while h < self.kinds.len()
            invariant
                h <= self.kinds.len(),
                forall|k: int| 0 <= k < h ==> #[trigger] self.kinds@[k] != PlayerType::Remote(peer),
            decreases self.kinds.len() - h,
        {
            if self.kinds[h] == PlayerType::Remote(peer) {
                return true;
            }
            h = h + 1;
        }
        false
    }

    fn stalls(&self, lost: &Vec<PeerId>) -> (stalls: bool)
        ensures
            stalls == self@.stalls(lost@),
    {
        if self.ended {
            return true;
        }
        let mut i: usize = 0;
        while i < lost.len()
            invariant
                i <= lost.len(),
                forall|k: int| 0 <= k < i ==> !self@.involves(#[trigger] lost@[k]),
            decreases lost.len() - i,
        {
            if self.involves(lost[i]) {
                return true;
            }
            i = i + 1;
        }
        false
    }

    /// One tick of the session.
    ///
    /// If the session has ended, or a peer in `lost` plays in it, the tick
    /// stalls: the session is marked as ended and nothing else changes.
    ///
    /// Otherwise the messages in `inbound` are merged. If a frame was
    /// simulated with a prediction that differs from an input now confirmed,
    /// the requests begin with the load of the snapshot in front of the first
    /// such frame and the replay of every frame from there on. Then, unless
    /// the rollback window is used up, the local players' inputs from
    /// `local_inputs` are submitted for the frame that lies the input delay
    /// ahead, and the current frame is simulated with every confirmed input
    /// and a prediction for the rest.
    ///
    /// Whatever the tick does, the channel stays bound to the session.
    #[verifier::rlimit(50)]
    pub fn advance_frame(
        &mut self,
        local_inputs: &HashMap<usize, u8>,
        inbound: &Vec<Received>,
        lost: &Vec<PeerId>,
    ) -> (tick: Result<Resolved, Stall>)
        requires
            old(self).wf(),
            old(self)@.frame() + old(self)@.delay < usize::MAX,
        ensures
            final(self).wf(),
            final(self)@ == old(self)@.after_tick(local_inputs@, received_views(inbound@), lost@),
            final(self).bound() == old(self).bound(),
            old(self)@.stalls(lost@) ==> tick == Err::<Resolved, Stall>(Stall::PeerLost),
            !old(self)@.stalls(lost@) ==> tick.is_ok() && request_views(tick.unwrap().requests@)
                == old(self)@.tick_requests(local_inputs@, received_views(inbound@))
                && tick.unwrap().advanced == old(self)@.corrected(
                received_views(inbound@),
            ).can_advance(),
    {
        proof {
            tick_keeps_wf(old(self)@, local_inputs@, received_views(inbound@), lost@);
            self.nothing_needed_is_gone();
        }
        if self.stalls(lost) {
            self.ended = true;
            return Err(Stall::PeerLost);
        }
        let ghost start = self@;
        let ghost heard = received_views(inbound@);
        let floor = self.least_confirmed();
        let mut i: usize = 0;
        while i < inbound.len()
            invariant
                i <= inbound.len(),
                start.shaped(),
                self.stored(),
                self.held_from() == old(self).held_from(),
                self.bound() == old(self).bound(),
                self@ == start.merge_all(received_views(inbound@).take(i as int)),
                self@.shaped(),
            decreases inbound.len() - i,
        {
            self.merge(&inbound[i]);
            proof {
                let taken = received_views(inbound@).take(i + 1);
                assert(taken.drop_last() =~= received_views(inbound@).take(i as int));
                assert(taken.last() == inbound@[i as int]@);
                merge_grows(start.merge_all(taken.drop_last()), taken.last());
            }
            i = i + 1;
        }
        let ghost merged = self@;
        proof {
            assert(heard.take(inbound.len() as int) =~= heard);
            merge_all_grows(start, heard);
            mismatch_is_recent(start, heard);
            assert(merged.frame() - merged.settled() <= MAX_PREDICTION) by {
                assert forall|h: int| 0 <= h < start.confirmed.len() implies (
                #[trigger] start.confirmed[h]).len() <= merged.confirmed[h].len() by {
                    assert(extends(merged.confirmed[h], start.confirmed[h]));
                }
                least_grows(
                    start.confirmed,
                    merged.confirmed,
                    start.frame(),
                    merged.frame(),
                );
            }
        }
        let frame = self.used.len();
        let first = self.first_mismatch(floor);
        let mut requests: Vec<Request> = Vec::new();
        assert(request_views(requests@) =~= Seq::empty());
        if first < frame {
            requests.push(Request::Load { frame: first, slot: first % SNAPSHOT_SLOTS });
            assert(request_views(requests@) =~= seq![
                RequestView::Load { frame: first, slot: slot_of(first as int) },
            ]);
            self.replay(first, &mut requests);
        } else {
            assert(merged.rewritten(first as nat).used =~= merged.used);
        }
        assert(self@ == start.corrected(heard));
        assert(request_views(requests@) == start.corrections(heard));
        let settled = self.least_confirmed();
        proof {
            least_is_minimum(self@.confirmed, self@.frame());
        }
        if frame - settled >= MAX_PREDICTION {
            return Ok(Resolved { requests, advanced: false });
        }
        let ghost corrected = self@;
        let ghost listed = request_views(requests@);
        if frame == 0 {
            requests.push(Request::Save { frame: 0, slot: 0 });
        }
        self.submit(local_inputs);
        proof {
            advance_keeps_wf(corrected, local_inputs@);
            let submitted = corrected.submitted(local_inputs@);
            assert(submitted.frame() - submitted.settled() <= MAX_PREDICTION) by {
                assert forall|h: int| 0 <= h < corrected.confirmed.len() implies (
                #[trigger] corrected.confirmed[h]).len() <= submitted.confirmed[h].len() by {}
                least_grows(
                    corrected.confirmed,
                    submitted.confirmed,
                    corrected.frame(),
                    submitted.frame(),
                );
            }
        }
        let inputs = self.resolve(frame);
        requests.push(Request::Advance { frame, inputs: copy_row(&inputs) });
        self.used.push(inputs);
        let next = self.used.len();
        requests.push(Request::Save { frame: next, slot: next % SNAPSHOT_SLOTS });
        proof {
            let after = corrected.advanced(local_inputs@);
            assert(self@.used =~= after.used);
            assert(step_requests(after.used, frame as int, frame as int) =~= Seq::empty());
            assert(request_views(requests@) =~= listed + corrected.stepping(local_inputs@));
        }
        self.prune();
        Ok(Resolved { requests, advanced: true })
    }

    fn message_start(&self, handle: usize) -> (start: usize)
        requires
            self.wf(),
            handle < self@.confirmed.len(),
        ensures
            start == self@.message_start(handle as int),
    {
        let known = self.confirmed[handle].len();
        if self.delay > (usize::MAX - 17) / 2 {
            return 0;
        }
        let span = 2 * (MAX_PREDICTION + self.delay) + 1;
        if known <= span {
            0
        } else {
            known - span
        }
    }

    /// The messages to send to every remote peer: for each local player, its
    /// latest confirmed inputs.
    pub fn outbound(&self) -> (messages: Vec<InputMessage>)
        requires
            self.wf(),
        ensures
            message_views(messages@) == self@.outbound(),
    {
        proof {
            self.nothing_needed_is_gone();
        }
        let mut messages: Vec<InputMessage> = Vec::new();
        let mut handle: usize = 0;
        while handle < self.kinds.len()
            invariant
                self.wf(),
                handle <= self.kinds.len(),
                message_views(messages@) == self@.outbound_upto(handle as int),
            decreases self.kinds.len() - handle,
        {
            if self.kinds[handle] == PlayerType::Local {
                let start = self.message_start(handle);
                let known = &self.confirmed[handle];
                assert(known@ == self@.confirmed[handle as int]);
                assert(known@.len() == self@.frame() + self@.delay);
                let length = known.len();
                let mut inputs: Vec<u8> = Vec::new();
                let mut i: usize = start;
                while i < length
                    invariant
                        known.wf(),
                        known.start() <= start <= i <= length,
                        length == known@.len(),
                        inputs@ == known@.subrange(start as int, i as int),
                    decreases length - i,
                {
                    inputs.push(*known.get(i));
                    assert(known@.subrange(start as int, i + 1) =~= known@.subrange(
                        start as int,
                        i as int,
                    ).push(known@[i as int]));
                    i = i + 1;
                }
                assert(known@.subrange(start as int, known@.len() as int) =~= known@.skip(
                    start as int,
                ));
                let ghost listed = message_views(messages@);
                messages.push(InputMessage { handle, start, inputs });
                assert(message_views(messages@) =~= listed.push(self@.message_of(handle as int)));
            } else {
                assert(self@.outbound_upto(handle + 1) == self@.outbound_upto(handle as int));
            }
            handle = handle + 1;
        }
        messages
    }
}

} // verus!
