use blockshot::rollback::BuildError;
use blockshot::session::{
    connect, wait_for_players, MatchState, Matchmaking, Progress, INPUT_DELAY, MAX_PLAYER_COUNT,
    ROOM,
};
use blockshot::transport::{
    ChannelError, PeerChange, PeerId, PeerState, PlayerType, CHANNEL,
};

const ME: Option<PeerId> = Some(PeerId(5));

fn came(peer: u128) -> PeerChange {
    PeerChange { peer: PeerId(peer), state: PeerState::Connected }
}

fn went(peer: u128) -> PeerChange {
    PeerChange { peer: PeerId(peer), state: PeerState::Disconnected }
}

fn waiting() -> Matchmaking {
    let mut matchmaking = Matchmaking::new();
    matchmaking.loaded();
    assert_eq!(connect(&mut matchmaking), Some(ROOM));
    matchmaking
}

fn channel_is_free(matchmaking: &Matchmaking) -> bool {
    matchmaking.transport().expect("connected").get_channel(CHANNEL).is_ok()
}

#[test]
fn match_constants() {
    assert_eq!(MAX_PLAYER_COUNT, 2);
    assert_eq!(INPUT_DELAY, 2);
    assert_eq!(ROOM, "ws://127.0.0.1:3536/coolgamer?next=2");
}

#[test]
fn matchmaking_starts_loading_without_a_transport() {
    let matchmaking = Matchmaking::new();
    assert_eq!(matchmaking.state(), MatchState::Loading);
    assert!(matchmaking.transport().is_none());
}

#[test]
fn loaded_moves_on_to_discovering_once() {
    let mut matchmaking = Matchmaking::new();
    matchmaking.loaded();
    assert_eq!(matchmaking.state(), MatchState::Discovering);
    assert!(matchmaking.transport().is_none());
    matchmaking.loaded();
    assert_eq!(matchmaking.state(), MatchState::Discovering);
    let mut later = waiting();
    later.loaded();
    assert_eq!(later.state(), MatchState::WaitingForPeers);
}

#[test]
fn connect_needs_discovering() {
    let mut matchmaking = Matchmaking::new();
    assert_eq!(connect(&mut matchmaking), None);
    assert_eq!(matchmaking.state(), MatchState::Loading);
    assert!(matchmaking.transport().is_none());
}

#[test]
fn connect_opens_the_transport() {
    let mut matchmaking = Matchmaking::new();
    matchmaking.loaded();
    assert_eq!(connect(&mut matchmaking), Some("ws://127.0.0.1:3536/coolgamer?next=2"));
    assert_eq!(matchmaking.state(), MatchState::WaitingForPeers);
    let transport = matchmaking.transport().expect("connected");
    assert_eq!(transport.required(), 2);
    assert_eq!(transport.id(), None);
    assert!(transport.connected_peers().is_empty());
    assert!(transport.get_channel(CHANNEL).is_ok());
}

#[test]
fn connect_twice_changes_nothing() {
    let mut matchmaking = waiting();
    wait_for_players(&mut matchmaking, ME, &vec![]);
    assert_eq!(connect(&mut matchmaking), None);
    assert_eq!(matchmaking.state(), MatchState::WaitingForPeers);
    assert_eq!(matchmaking.transport().expect("connected").id(), ME);
}

#[test]
fn polling_before_connect_is_idle() {
    let mut matchmaking = Matchmaking::new();
    assert!(matches!(wait_for_players(&mut matchmaking, ME, &vec![came(1)]), Progress::Idle));
    assert_eq!(matchmaking.state(), MatchState::Loading);
    matchmaking.loaded();
    assert!(matches!(wait_for_players(&mut matchmaking, ME, &vec![came(1)]), Progress::Idle));
    assert_eq!(matchmaking.state(), MatchState::Discovering);
    assert!(matchmaking.transport().is_none());
}

#[test]
fn too_few_players_keep_waiting() {
    let mut matchmaking = waiting();
    assert!(matches!(
        wait_for_players(&mut matchmaking, None, &vec![]),
        Progress::NeedPlayers { present: 1 }
    ));
    assert!(matches!(
        wait_for_players(&mut matchmaking, None, &vec![came(8)]),
        Progress::NeedPlayers { present: 1 }
    ));
    assert!(matches!(
        wait_for_players(&mut matchmaking, ME, &vec![went(8)]),
        Progress::NeedPlayers { present: 1 }
    ));
    assert_eq!(matchmaking.state(), MatchState::WaitingForPeers);
    assert_eq!(matchmaking.transport().expect("connected").players(), vec![PlayerType::Local]);
    assert!(channel_is_free(&matchmaking));
}

#[test]
fn a_full_room_starts_the_match() {
    let mut matchmaking = waiting();
    wait_for_players(&mut matchmaking, ME, &vec![]);
    match wait_for_players(&mut matchmaking, None, &vec![came(4)]) {
        Progress::Started(session) => {
            assert_eq!(session.num_players(), 2);
            assert_eq!(session.input_delay(), 2);
            assert_eq!(session.frame(), 0);
            assert_eq!(session.player(0), Some(PlayerType::Remote(PeerId(4))));
            assert_eq!(session.player(1), Some(PlayerType::Local));
        }
        _ => panic!("no session"),
    }
    assert_eq!(matchmaking.state(), MatchState::InGame);
    assert!(!channel_is_free(&matchmaking));
    assert_eq!(
        matchmaking.transport().expect("connected").players(),
        vec![PlayerType::Remote(PeerId(4)), PlayerType::Local]
    );
}

#[test]
fn the_lower_address_gets_the_lower_handle() {
    let mut matchmaking = waiting();
    match wait_for_players(&mut matchmaking, ME, &vec![came(6)]) {
        Progress::Started(session) => {
            assert_eq!(session.player(0), Some(PlayerType::Local));
            assert_eq!(session.player(1), Some(PlayerType::Remote(PeerId(6))));
        }
        _ => panic!("no session"),
    }
}

#[test]
fn polling_in_game_is_idle() {
    let mut matchmaking = waiting();
    assert!(matches!(
        wait_for_players(&mut matchmaking, ME, &vec![came(4)]),
        Progress::Started(_)
    ));
    assert!(matches!(wait_for_players(&mut matchmaking, ME, &vec![came(9)]), Progress::Idle));
    assert!(matches!(wait_for_players(&mut matchmaking, ME, &vec![went(4)]), Progress::Idle));
    assert_eq!(matchmaking.state(), MatchState::InGame);
    assert_eq!(matchmaking.transport().expect("connected").connected_peers(), &vec![PeerId(4)]);
}

#[test]
fn a_taken_channel_means_the_session_runs_already() {
    let mut matchmaking = waiting();
    wait_for_players(&mut matchmaking, ME, &vec![]);
    let _channel = matchmaking.take_channel(CHANNEL).expect("first take");
    assert!(matches!(
        wait_for_players(&mut matchmaking, ME, &vec![came(4)]),
        Progress::AlreadyStarted
    ));
    assert_eq!(matchmaking.state(), MatchState::WaitingForPeers);
    assert!(matchmaking.transport().expect("connected").connected_peers().is_empty());
}

#[test]
fn take_channel_goes_through_to_the_transport() {
    let mut matchmaking = Matchmaking::new();
    assert_eq!(matchmaking.take_channel(CHANNEL).unwrap_err(), ChannelError::NotFound);
    let mut matchmaking = waiting();
    assert_eq!(matchmaking.take_channel(1).unwrap_err(), ChannelError::NotFound);
    assert!(matchmaking.take_channel(CHANNEL).is_ok());
    assert_eq!(matchmaking.take_channel(CHANNEL).unwrap_err(), ChannelError::Taken);
    assert_eq!(matchmaking.state(), MatchState::WaitingForPeers);
}

#[test]
fn an_unreachable_endpoint_allows_a_retry() {
    let mut matchmaking = waiting();
    wait_for_players(&mut matchmaking, ME, &vec![]);
    assert!(matchmaking.endpoint_unreachable());
    assert_eq!(matchmaking.state(), MatchState::Discovering);
    assert!(matchmaking.transport().is_none());
    assert!(!matchmaking.endpoint_unreachable());
    assert_eq!(connect(&mut matchmaking), Some(ROOM));
    assert_eq!(matchmaking.state(), MatchState::WaitingForPeers);
    assert_eq!(matchmaking.transport().expect("connected").id(), None);
}

#[test]
fn an_unreachable_endpoint_does_not_end_a_running_match() {
    let mut fresh = Matchmaking::new();
    assert!(!fresh.endpoint_unreachable());
    assert_eq!(fresh.state(), MatchState::Loading);
    let mut matchmaking = waiting();
    assert!(matches!(
        wait_for_players(&mut matchmaking, ME, &vec![came(4)]),
        Progress::Started(_)
    ));
    assert!(!matchmaking.endpoint_unreachable());
    assert_eq!(matchmaking.state(), MatchState::InGame);
    let mut taken = waiting();
    let _channel = taken.take_channel(CHANNEL).expect("first take");
    assert!(!taken.endpoint_unreachable());
    assert_eq!(taken.state(), MatchState::WaitingForPeers);
}

#[test]
fn build_failure_does_not_partially_commit() {
    let mut matchmaking = waiting();
    match wait_for_players(&mut matchmaking, ME, &vec![came(1), came(9)]) {
        Progress::Failed(error) => assert_eq!(
            error,
            BuildError::Registration { handle: 2, player: PlayerType::Remote(PeerId(9)) }
        ),
        _ => panic!("a session or no failure"),
    }
    assert_eq!(matchmaking.state(), MatchState::WaitingForPeers);
    assert!(channel_is_free(&matchmaking));
    assert_eq!(
        matchmaking.transport().expect("connected").connected_peers(),
        &vec![PeerId(1), PeerId(9)]
    );
    assert!(matches!(
        wait_for_players(&mut matchmaking, None, &vec![went(9)]),
        Progress::Started(_)
    ));
    assert_eq!(matchmaking.state(), MatchState::InGame);
    assert!(!channel_is_free(&matchmaking));
}

#[test]
fn a_poll_stops_at_ready_to_start() {
    let mut matchmaking = waiting();
    assert!(matches!(matchmaking.poll(ME, &vec![]), Progress::NeedPlayers { present: 1 }));
    assert_eq!(matchmaking.state(), MatchState::WaitingForPeers);
    assert!(matches!(matchmaking.poll(None, &vec![came(4)]), Progress::Ready));
    assert_eq!(matchmaking.state(), MatchState::ReadyToStart);
    assert!(channel_is_free(&matchmaking));
    assert!(matches!(matchmaking.poll(None, &vec![came(7)]), Progress::Idle));
    assert_eq!(matchmaking.transport().expect("connected").connected_peers(), &vec![PeerId(4)]);
    match matchmaking.start() {
        Progress::Started(session) => {
            assert_eq!(session.player(0), Some(PlayerType::Remote(PeerId(4))));
            assert_eq!(session.player(1), Some(PlayerType::Local));
        }
        _ => panic!("no session"),
    }
    assert_eq!(matchmaking.state(), MatchState::InGame);
    assert!(!channel_is_free(&matchmaking));
}

#[test]
fn start_needs_ready_to_start() {
    let mut matchmaking = Matchmaking::new();
    assert!(matches!(matchmaking.start(), Progress::Idle));
    matchmaking.loaded();
    assert!(matches!(matchmaking.start(), Progress::Idle));
    let mut matchmaking = waiting();
    assert!(matches!(matchmaking.start(), Progress::Idle));
    assert_eq!(matchmaking.state(), MatchState::WaitingForPeers);
    matchmaking.poll(ME, &vec![came(4)]);
    assert!(matches!(matchmaking.start(), Progress::Started(_)));
    assert!(matches!(matchmaking.start(), Progress::Idle));
    assert_eq!(matchmaking.state(), MatchState::InGame);
}

#[test]
fn a_refused_start_goes_back_to_waiting() {
    let mut matchmaking = waiting();
    assert!(matches!(matchmaking.poll(ME, &vec![came(4), came(6)]), Progress::Ready));
    match matchmaking.start() {
        Progress::Failed(error) => assert_eq!(
            error,
            BuildError::Registration { handle: 2, player: PlayerType::Remote(PeerId(6)) }
        ),
        _ => panic!("a session or no failure"),
    }
    assert_eq!(matchmaking.state(), MatchState::WaitingForPeers);
    assert!(channel_is_free(&matchmaking));
    assert_eq!(
        matchmaking.transport().expect("connected").connected_peers(),
        &vec![PeerId(4), PeerId(6)]
    );
}

#[test]
fn a_start_without_the_channel_is_refused() {
    let mut matchmaking = waiting();
    assert!(matches!(matchmaking.poll(ME, &vec![came(4)]), Progress::Ready));
    let _channel = matchmaking.take_channel(CHANNEL).expect("first take");
    match matchmaking.start() {
        Progress::Failed(error) => assert_eq!(error, BuildError::Channel(ChannelError::Taken)),
        _ => panic!("a session or no failure"),
    }
    assert_eq!(matchmaking.state(), MatchState::WaitingForPeers);
    assert!(matches!(
        wait_for_players(&mut matchmaking, None, &vec![]),
        Progress::AlreadyStarted
    ));
}

#[test]
fn the_tick_finishes_a_pending_start() {
    let mut matchmaking = waiting();
    assert!(matches!(matchmaking.poll(ME, &vec![came(4)]), Progress::Ready));
    assert!(matches!(
        wait_for_players(&mut matchmaking, None, &vec![came(9)]),
        Progress::Started(_)
    ));
    assert_eq!(matchmaking.state(), MatchState::InGame);
    assert_eq!(matchmaking.transport().expect("connected").connected_peers(), &vec![PeerId(4)]);
}

#[test]
fn an_unreachable_endpoint_does_not_undo_ready_to_start() {
    let mut matchmaking = waiting();
    assert!(matches!(matchmaking.poll(ME, &vec![came(4)]), Progress::Ready));
    assert!(!matchmaking.endpoint_unreachable());
    assert_eq!(matchmaking.state(), MatchState::ReadyToStart);
}

#[test]
fn the_session_is_bound_to_the_channel_of_the_transport() {
    let mut matchmaking = waiting();
    let offered = matchmaking
        .transport()
        .expect("connected")
        .get_channel(CHANNEL)
        .expect("a free channel")
        .index();
    assert_eq!(offered, CHANNEL);
    match wait_for_players(&mut matchmaking, ME, &vec![came(4)]) {
        Progress::Started(session) => assert_eq!(session.channel().index(), offered),
        _ => panic!("no session"),
    }
    assert_eq!(matchmaking.take_channel(CHANNEL).unwrap_err(), ChannelError::Taken);
}
