//! Matchmaking: from a loaded game to a running session.
//!
//! The states are `Loading`, `Discovering`, `WaitingForPeers`, `ReadyToStart`
//! and `InGame`. The host reports what discovery sees; this module decides
//! when the match starts and builds its session.

use crate::model::{build_error, initial};
use crate::rollback::{BuildError, Session, SessionConfig};
use crate::transport::{
    Channel, ChannelError, PeerChange, PeerId, Transport, TransportView, CHANNEL,
};
use vstd::prelude::*;

verus! {

/// Number of players in a match.
pub const MAX_PLAYER_COUNT: usize = 2;

/// Number of frames by which local input is put off.
pub const INPUT_DELAY: usize = 2;

/// The signalling endpoint the host dials. Its last part asks for a room of
/// [`MAX_PLAYER_COUNT`] players.
pub const ROOM: &'static str = "ws://127.0.0.1:3536/coolgamer?next=2";

/// Where matchmaking stands.
#[derive(Clone, Copy, Debug, PartialEq, Eq, Structural)]
pub enum MatchState {
    /// Assets are still loading.
    Loading,
    /// Ready to look for peers; no connection yet.
    Discovering,
    /// Connected to the signalling endpoint, waiting for the room to fill.
    WaitingForPeers,
    /// The room is full and the session is about to be built.
    ReadyToStart,
    /// The session runs.
    InGame,
}

/// The matchmaking state machine of one peer.
#[derive(Debug)]
pub struct Matchmaking {
    state: MatchState,
    transport: Option<Transport>,
}

/// Matchmaking as contracts see it.
pub struct MatchmakingView {
    pub state: MatchState,
    pub transport: Option<TransportView>,
}

impl MatchmakingView {
    /// A transport exists from the connect request on, it waits for
    /// [`MAX_PLAYER_COUNT`] players and keeps its peers in order.
    pub open spec fn wf(self) -> bool {
        match self.state {
            MatchState::Loading | MatchState::Discovering => self.transport.is_none(),
            _ => self.transport.is_some() && self.transport.unwrap().required
                == MAX_PLAYER_COUNT && self.transport.unwrap().wf(),
        }
    }

    /// The configuration of every session this machine builds.
    pub open spec fn config() -> SessionConfig {
        SessionConfig { num_players: MAX_PLAYER_COUNT, input_delay: INPUT_DELAY }
    }

    /// Whether a poll looks at what discovery reports: matchmaking waits for
    /// peers and the channel has not been taken.
    pub open spec fn listens(self) -> bool {
        self.state == MatchState::WaitingForPeers && !self.transport.unwrap().channel_taken
    }

    /// Matchmaking after a poll with this report. A poll that listens takes
    /// the report over and goes on to `ReadyToStart` if the room is full.
    pub open spec fn polled(self, id: Option<PeerId>, changes: Seq<PeerChange>) -> MatchmakingView {
        if !self.listens() {
            self
        } else {
            let transport = self.transport.unwrap().updated(id, changes);
            MatchmakingView {
                state: if transport.players().len() >= MAX_PLAYER_COUNT {
                    MatchState::ReadyToStart
                } else {
                    MatchState::WaitingForPeers
                },
                transport: Some(transport),
            }
        }
    }

    /// Why the session of the players that are here now cannot be built, if
    /// it cannot.
    pub open spec fn refusal(self) -> Option<BuildError> {
        build_error(
            Self::config(),
            self.transport.unwrap().players(),
            self.transport.unwrap().channel_taken,
        )
    }

    /// Matchmaking after the attempt to start. From `ReadyToStart` it goes on
    /// to `InGame`, the channel taken, if the session can be built, and back
    /// to `WaitingForPeers` with nothing else changed if not.
    pub open spec fn started(self) -> MatchmakingView {
        if self.state != MatchState::ReadyToStart {
            self
        } else if self.refusal().is_none() {
            MatchmakingView {
                state: MatchState::InGame,
                transport: Some(TransportView { channel_taken: true, ..self.transport.unwrap() }),
            }
        } else {
            MatchmakingView { state: MatchState::WaitingForPeers, ..self }
        }
    }
}

impl View for Matchmaking {
    type V = MatchmakingView;

    closed spec fn view(&self) -> MatchmakingView {
        MatchmakingView {
            state: self.state,
            transport: match self.transport {
                Some(transport) => Some(transport@),
                None => None,
            },
        }
    }
}

/// What a step of matchmaking led to.
pub enum Progress {
    /// Matchmaking is not in the state for this step; nothing was done.
    Idle,
    /// The channel is taken, so a session runs already; nothing was done.
    AlreadyStarted,
    /// Fewer players are here than the match needs.
    NeedPlayers { present: usize },
    /// The room is full; the session can be started.
    Ready,
    /// The room is full but no session could be built. Matchmaking waits on
    /// and the channel is still with the transport.
    Failed(BuildError),
    /// The match has started with this session.
    Started(Session),
}

impl Matchmaking {
    /// The channel that the transport still holds; none before the connect
    /// request and none once the channel is taken.
    pub closed spec fn held(&self) -> Option<Channel> {
        match self.transport {
            Some(transport) => transport.held(),
            None => None,
        }
    }

    /// Matchmaking of a game that has just been launched.
    pub fn new() -> (matchmaking: Matchmaking)
        ensures
            matchmaking@.wf(),
            matchmaking@ == (MatchmakingView { state: MatchState::Loading, transport: None }),
            matchmaking.held().is_none(),
    {
        Matchmaking { state: MatchState::Loading, transport: None }
    }

    /// Where matchmaking stands.
    pub fn state(&self) -> (state: MatchState)
        ensures
            state == self@.state,
    {
        self.state
    }

    /// The transport, once a connect request has been issued.
    pub fn transport(&self) -> (transport: Option<&Transport>)
        ensures
            transport.is_some() == self@.transport.is_some(),
            transport.is_some() ==> transport.unwrap()@ == self@.transport.unwrap()
                && transport.unwrap().held() == self.held(),
    {
        self.transport.as_ref()
    }

    /// Assets are loaded: `Loading` becomes `Discovering`. In every other
    /// state nothing changes.
    pub fn loaded(&mut self)
        requires
            old(self)@.wf(),
        ensures
            final(self)@.wf(),
            final(self)@ == if old(self)@.state == MatchState::Loading {
                MatchmakingView { state: MatchState::Discovering, ..old(self)@ }
            } else {
                old(self)@
            },
            final(self).held() == old(self).held(),
    {
        if self.state == MatchState::Loading {
            self.state = MatchState::Discovering;
        }
    }

    /// The signalling endpoint could not be reached, or the connection to it
    /// broke before a session was built. Matchmaking falls back to
    /// `Discovering` and forgets the transport, so that the host can issue the
    /// connect request again on a later tick. Once the channel is taken, and
    /// in every state but `WaitingForPeers`, nothing changes.
    pub fn endpoint_unreachable(&mut self) -> (retry: bool)
        requires
            old(self)@.wf(),
        ensures
            final(self)@.wf(),
            retry == old(self)@.listens(),
            final(self)@ == if retry {
                MatchmakingView { state: MatchState::Discovering, transport: None }
            } else {
                old(self)@
            },
            final(self).held() == if retry {
                None
            } else {
                old(self).held()
            },
    {
        if self.state != MatchState::WaitingForPeers {
            return false;
        }
        let free = match &self.transport {
            Some(transport) => transport.get_channel(CHANNEL).is_ok(),
            None => false,
        };
        if free {
            self.transport = None;
            self.state = MatchState::Discovering;
        }
        free
    }

    /// Takes the channel out of the transport, as the transport's own
    /// `take_channel` does.
    pub fn take_channel(&mut self, index: usize) -> (taken: Result<Channel, ChannelError>)
        requires
            old(self)@.wf(),
        ensures
            final(self)@.wf(),
            final(self)@.state == old(self)@.state,
            taken.is_ok() ==> Some(taken.unwrap()) == old(self).held() && final(self).held().is_none(),
            taken.is_err() ==> final(self).held() == old(self).held(),
            old(self)@.transport.is_none() ==> taken == Err::<Channel, ChannelError>(
                ChannelError::NotFound,
            ) && final(self)@ == old(self)@,
            old(self)@.transport.is_some() && index != CHANNEL ==> taken == Err::<
                Channel,
                ChannelError,
            >(ChannelError::NotFound) && final(self)@ == old(self)@,
            old(self)@.transport.is_some() && index == CHANNEL && old(self)@.transport.unwrap().channel_taken
                ==> taken == Err::<Channel, ChannelError>(ChannelError::Taken) && final(self)@
                == old(self)@,
            old(self)@.transport.is_some() && index == CHANNEL && !old(self)@.transport.unwrap().channel_taken
                ==> taken.is_ok() && final(self)@.transport == Some(
                TransportView { channel_taken: true, ..old(self)@.transport.unwrap() },
            ),
    {
        match &mut self.transport {
            Some(transport) => transport.take_channel(index),
            None => Err(ChannelError::NotFound),
        }
    }

    /// Looks at what discovery reports. `id` is this peer's address if the
    /// host knows it by now, `changes` are the peers that have come and gone
    /// since the last poll.
    ///
    /// Outside `WaitingForPeers` nothing happens. If the channel is taken a
    /// session runs already, and nothing happens either. Otherwise the report
    /// is taken over, and with as many players as the match needs matchmaking
    /// goes on to `ReadyToStart`.
    pub fn poll(&mut self, id: Option<PeerId>, changes: &Vec<PeerChange>) -> (progress: Progress)
        requires
            old(self)@.wf(),
        ensures
            final(self)@.wf(),
            final(self)@ == old(self)@.polled(id, changes@),
            final(self).held() == old(self).held(),
            match progress {
                Progress::Idle => old(self)@.state != MatchState::WaitingForPeers,
                Progress::AlreadyStarted => old(self)@.state == MatchState::WaitingForPeers
                    && !old(self)@.listens(),
                Progress::NeedPlayers { present } => old(self)@.listens() && final(self)@.state
                    == MatchState::WaitingForPeers && present == final(self)@.transport.unwrap().players().len(),
                Progress::Ready => old(self)@.listens() && final(self)@.state
                    == MatchState::ReadyToStart,
                Progress::Failed(_) => false,
                Progress::Started(_) => false,
            },
    {
        if self.state != MatchState::WaitingForPeers {
            return Progress::Idle;
        }
        match &mut self.transport {
            None => Progress::Idle,
            Some(transport) => {
                if transport.get_channel(CHANNEL).is_err() {
                    return Progress::AlreadyStarted;
                }
                transport.update_peers(id, changes);
                let roster = transport.players();
                if roster.len() < MAX_PLAYER_COUNT {
                    return Progress::NeedPlayers { present: roster.len() };
                }
                self.state = MatchState::ReadyToStart;
                Progress::Ready
            },
        }
    }

    /// Builds the session of the players that are here. Outside `ReadyToStart`
    /// nothing happens. If the session is refused, matchmaking goes back to
    /// `WaitingForPeers` and nothing else has changed: the channel is where it
    /// was. If it is built, the channel belongs to it and the state is
    /// `InGame`.
    pub fn start(&mut self) -> (progress: Progress)
        requires
            old(self)@.wf(),
        ensures
            final(self)@.wf(),
            final(self)@ == old(self)@.started(),
            match progress {
                Progress::Idle => old(self)@.state != MatchState::ReadyToStart && final(self).held()
                    == old(self).held(),
                Progress::Failed(error) => old(self)@.state == MatchState::ReadyToStart && old(self)@.refusal() == Some(error) && final(self).held() == old(self).held(),
                Progress::Started(session) => old(self)@.state == MatchState::ReadyToStart && old(self)@.refusal().is_none() && session.wf() && session@ == initial(
                    MatchmakingView::config(),
                    old(self)@.transport.unwrap().players(),
                ) && Some(session.bound()) == old(self).held() && final(self).held().is_none(),
                Progress::AlreadyStarted => false,
                Progress::NeedPlayers { present } => false,
                Progress::Ready => false,
            },
    {
        if self.state != MatchState::ReadyToStart {
            return Progress::Idle;
        }
        let config = SessionConfig { num_players: MAX_PLAYER_COUNT, input_delay: INPUT_DELAY };
        match &mut self.transport {
            None => Progress::Idle,
            Some(transport) => {
                let roster = transport.players();
                match Session::build(&config, &roster, transport) {
                    Ok(session) => {
                        self.state = MatchState::InGame;
                        Progress::Started(session)
                    },
                    Err(error) => {
                        self.state = MatchState::WaitingForPeers;
                        Progress::Failed(error)
                    },
                }
            },
        }
    }
}

/// Issues the connect request: in `Discovering`, a transport that waits for
/// [`MAX_PLAYER_COUNT`] players comes into being, matchmaking goes on to
/// `WaitingForPeers`, and the host is told which endpoint to dial. In every
/// other state nothing happens.
pub fn connect(matchmaking: &mut Matchmaking) -> (room: Option<&'static str>)
    requires
        old(matchmaking)@.wf(),
    ensures
        final(matchmaking)@.wf(),
        old(matchmaking)@.state == MatchState::Discovering ==> room.is_some() && room.unwrap()@
            == ROOM@ && final(matchmaking)@ == (MatchmakingView {
            state: MatchState::WaitingForPeers,
            transport: Some(
                TransportView {
                    required: MAX_PLAYER_COUNT as nat,
                    id: None,
                    peers: Seq::empty(),
                    channel_taken: false,
                },
            ),
        }),
        old(matchmaking)@.state == MatchState::Discovering ==> final(matchmaking).held().is_some()
            && final(matchmaking).held().unwrap().index() == CHANNEL,
        old(matchmaking)@.state != MatchState::Discovering ==> room.is_none() && final(matchmaking)@ == old(matchmaking)@ && final(matchmaking).held() == old(matchmaking).held(),
{
    if matchmaking.state != MatchState::Discovering {
        return None;
    }
    matchmaking.transport = Some(Transport::new(MAX_PLAYER_COUNT));
    matchmaking.state = MatchState::WaitingForPeers;
    Some(ROOM)
}

/// One tick of matchmaking, made until the match runs: a poll and, if the
/// room is full, the start.
///
/// Outside `WaitingForPeers` and `ReadyToStart` nothing happens. If the
/// channel is taken a session runs already, and nothing happens either.
/// Otherwise the report is taken over. With fewer players than the match
/// needs, matchmaking waits on. With enough, a session is built: if that is
/// refused, matchmaking waits on and the channel stays where it was; if it
/// succeeds, the channel belongs to the session and the state is `InGame`.
pub fn wait_for_players(
    matchmaking: &mut Matchmaking,
    id: Option<PeerId>,
    changes: &Vec<PeerChange>,
) -> (progress: Progress)
    requires
        old(matchmaking)@.wf(),
    ensures
        final(matchmaking)@.wf(),
        final(matchmaking)@ == old(matchmaking)@.polled(id, changes@).started(),
        final(matchmaking)@.state != MatchState::ReadyToStart,
        match progress {
            Progress::Started(session) => Some(session.bound()) == old(matchmaking).held()
                && final(matchmaking).held().is_none(),
            _ => final(matchmaking).held() == old(matchmaking).held(),
        },
        match progress {
            Progress::Idle => old(matchmaking)@.state != MatchState::WaitingForPeers && old(matchmaking)@.state != MatchState::ReadyToStart,
            Progress::AlreadyStarted => old(matchmaking)@.state == MatchState::WaitingForPeers
                && !old(matchmaking)@.listens(),
            Progress::NeedPlayers { present } => old(matchmaking)@.listens() && final(matchmaking)@.state == MatchState::WaitingForPeers && present == final(matchmaking)@.transport.unwrap().players().len() && present < MAX_PLAYER_COUNT,
            Progress::Ready => false,
            Progress::Failed(error) => old(matchmaking)@.polled(id, changes@).state
                == MatchState::ReadyToStart && old(matchmaking)@.polled(id, changes@).refusal()
                == Some(error) && final(matchmaking)@ == (MatchmakingView {
                state: MatchState::WaitingForPeers,
                ..old(matchmaking)@.polled(id, changes@)
            }),
            Progress::Started(session) => old(matchmaking)@.polled(id, changes@).state
                == MatchState::ReadyToStart && old(matchmaking)@.polled(
                id,
                changes@,
            ).refusal().is_none() && final(matchmaking)@.state == MatchState::InGame
                && session.wf() && session@ == initial(
                MatchmakingView::config(),
                old(matchmaking)@.polled(id, changes@).transport.unwrap().players(),
            ),
        },
{
    let polled = matchmaking.poll(id, changes);
    if matchmaking.state == MatchState::ReadyToStart {
        matchmaking.start()
    } else {
        polled
    }
}

} // verus!
