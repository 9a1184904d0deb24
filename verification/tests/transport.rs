use blockshot::transport::{
    ChannelError, PeerChange, PeerId, PeerState, PlayerType, Transport, CHANNEL,
};

fn came(peer: u128) -> PeerChange {
    PeerChange { peer: PeerId(peer), state: PeerState::Connected }
}

fn went(peer: u128) -> PeerChange {
    PeerChange { peer: PeerId(peer), state: PeerState::Disconnected }
}

#[test]
fn new_transport_waits_with_its_channel() {
    let transport = Transport::new(2);
    assert_eq!(transport.required(), 2);
    assert_eq!(transport.id(), None);
    assert!(transport.connected_peers().is_empty());
    assert!(!transport.ready());
    assert!(transport.get_channel(CHANNEL).is_ok());
}

#[test]
fn a_peer_without_an_address_knows_only_itself() {
    let mut transport = Transport::new(2);
    assert_eq!(transport.players(), vec![PlayerType::Local]);
    transport.update_peers(None, &vec![came(9)]);
    assert_eq!(transport.players(), vec![PlayerType::Local]);
    assert!(!transport.ready());
    assert_eq!(transport.connected_peers(), &vec![PeerId(9)]);
}

#[test]
fn the_address_is_kept_once_known() {
    let mut transport = Transport::new(2);
    transport.update_peers(Some(PeerId(5)), &vec![]);
    assert_eq!(transport.id(), Some(PeerId(5)));
    transport.update_peers(None, &vec![]);
    assert_eq!(transport.id(), Some(PeerId(5)));
    transport.update_peers(Some(PeerId(6)), &vec![]);
    assert_eq!(transport.id(), Some(PeerId(6)));
}

#[test]
fn peers_are_kept_in_ascending_order() {
    let mut transport = Transport::new(4);
    transport.update_peers(Some(PeerId(50)), &vec![came(70), came(10), came(30)]);
    assert_eq!(transport.connected_peers(), &vec![PeerId(10), PeerId(30), PeerId(70)]);
    transport.update_peers(None, &vec![came(20), came(u128::MAX), came(0)]);
    assert_eq!(
        transport.connected_peers(),
        &vec![PeerId(0), PeerId(10), PeerId(20), PeerId(30), PeerId(70), PeerId(u128::MAX)]
    );
}

#[test]
fn a_peer_that_comes_twice_is_listed_once() {
    let mut transport = Transport::new(2);
    transport.update_peers(Some(PeerId(1)), &vec![came(4), came(4)]);
    transport.update_peers(None, &vec![came(4)]);
    assert_eq!(transport.connected_peers(), &vec![PeerId(4)]);
}

#[test]
fn a_peer_that_goes_is_forgotten() {
    let mut transport = Transport::new(2);
    transport.update_peers(Some(PeerId(1)), &vec![came(4), came(2), came(8)]);
    transport.update_peers(None, &vec![went(4)]);
    assert_eq!(transport.connected_peers(), &vec![PeerId(2), PeerId(8)]);
    transport.update_peers(None, &vec![went(4), went(3)]);
    assert_eq!(transport.connected_peers(), &vec![PeerId(2), PeerId(8)]);
    transport.update_peers(None, &vec![went(8), went(2)]);
    assert!(transport.connected_peers().is_empty());
}

#[test]
fn changes_apply_in_order() {
    let mut transport = Transport::new(2);
    transport.update_peers(Some(PeerId(1)), &vec![came(4), went(4), came(6), went(7), came(4)]);
    assert_eq!(transport.connected_peers(), &vec![PeerId(4), PeerId(6)]);
    transport.update_peers(None, &vec![went(4), came(4), went(4)]);
    assert_eq!(transport.connected_peers(), &vec![PeerId(6)]);
}

#[test]
fn seats_go_by_address() {
    let mut transport = Transport::new(3);
    transport.update_peers(Some(PeerId(50)), &vec![came(70), came(10)]);
    assert_eq!(
        transport.players(),
        vec![PlayerType::Remote(PeerId(10)), PlayerType::Local, PlayerType::Remote(PeerId(70))]
    );
    let mut lowest = Transport::new(3);
    lowest.update_peers(Some(PeerId(1)), &vec![came(70), came(10)]);
    assert_eq!(
        lowest.players(),
        vec![PlayerType::Local, PlayerType::Remote(PeerId(10)), PlayerType::Remote(PeerId(70))]
    );
    let mut highest = Transport::new(3);
    highest.update_peers(Some(PeerId(99)), &vec![came(70), came(10)]);
    assert_eq!(
        highest.players(),
        vec![PlayerType::Remote(PeerId(10)), PlayerType::Remote(PeerId(70)), PlayerType::Local]
    );
}

#[test]
fn both_ends_give_the_same_handles() {
    let mut here = Transport::new(3);
    here.update_peers(Some(PeerId(20)), &vec![came(30), came(10)]);
    let mut there = Transport::new(3);
    there.update_peers(Some(PeerId(30)), &vec![came(10), came(20)]);
    let seats_here: Vec<PeerId> = here
        .players()
        .iter()
        .map(|p| match p {
            PlayerType::Local => PeerId(20),
            PlayerType::Remote(peer) => *peer,
        })
        .collect();
    let seats_there: Vec<PeerId> = there
        .players()
        .iter()
        .map(|p| match p {
            PlayerType::Local => PeerId(30),
            PlayerType::Remote(peer) => *peer,
        })
        .collect();
    assert_eq!(seats_here, vec![PeerId(10), PeerId(20), PeerId(30)]);
    assert_eq!(seats_here, seats_there);
}

#[test]
fn ready_counts_this_peer_too() {
    let mut transport = Transport::new(2);
    transport.update_peers(Some(PeerId(5)), &vec![]);
    assert!(!transport.ready());
    transport.update_peers(None, &vec![came(3)]);
    assert!(transport.ready());
    transport.update_peers(None, &vec![came(4)]);
    assert!(transport.ready());
    transport.update_peers(None, &vec![went(3), went(4)]);
    assert!(!transport.ready());
    assert!(Transport::new(1).ready());
    assert!(Transport::new(0).ready());
}

#[test]
fn channel_is_handed_out_once() {
    let mut transport = Transport::new(2);
    let channel = transport.take_channel(CHANNEL).expect("first take");
    assert_eq!(channel.index(), 0);
    assert_eq!(transport.take_channel(CHANNEL).unwrap_err(), ChannelError::Taken);
    assert_eq!(transport.take_channel(CHANNEL).unwrap_err(), ChannelError::Taken);
    assert_eq!(transport.get_channel(CHANNEL).unwrap_err(), ChannelError::Taken);
}

#[test]
fn other_channels_do_not_exist() {
    let mut transport = Transport::new(2);
    assert_eq!(transport.get_channel(1).unwrap_err(), ChannelError::NotFound);
    assert_eq!(transport.take_channel(7).unwrap_err(), ChannelError::NotFound);
    assert!(transport.get_channel(CHANNEL).is_ok());
    assert!(transport.take_channel(CHANNEL).is_ok());
    assert_eq!(transport.take_channel(1).unwrap_err(), ChannelError::NotFound);
}

#[test]
fn looking_at_the_channel_does_not_take_it() {
    let mut transport = Transport::new(2);
    assert!(transport.get_channel(CHANNEL).is_ok());
    assert!(transport.get_channel(CHANNEL).is_ok());
    assert!(transport.take_channel(CHANNEL).is_ok());
}

#[test]
fn taking_the_channel_leaves_the_peers_alone() {
    let mut transport = Transport::new(2);
    transport.update_peers(Some(PeerId(2)), &vec![came(1)]);
    let _channel = transport.take_channel(CHANNEL).expect("first take");
    assert_eq!(transport.players(), vec![PlayerType::Remote(PeerId(1)), PlayerType::Local]);
    assert_eq!(transport.required(), 2);
}
