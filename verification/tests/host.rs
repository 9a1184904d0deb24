use blockshot::host::{Host, TickError};
use blockshot::input::INPUT_FIRE;
use blockshot::player::Arena;
use blockshot::rollback::{
    InputMessage, Received, Request, Session, SessionConfig, Stall,
};
use blockshot::transport::{PeerId, PlayerType, Transport};
use std::collections::HashMap;

fn session() -> Session {
    let mut transport = Transport::new(2);
    Session::build(
        &SessionConfig::default(),
        &vec![PlayerType::Local, PlayerType::Remote(PeerId(7))],
        &mut transport,
    )
    .expect("a full roster builds")
}

fn local(symbol: u8) -> HashMap<usize, u8> {
    let mut inputs = HashMap::new();
    inputs.insert(0, symbol);
    inputs
}

fn from_remote(start: usize, inputs: Vec<u8>) -> Received {
    Received { from: PeerId(7), message: InputMessage { handle: 1, start, inputs } }
}

#[test]
fn host_starts_from_its_arena() {
    let host = Host::new(Arena::spawn());
    assert_eq!(host.arena(), &Arena::spawn());
}

#[test]
fn host_advances_saves_and_loads() {
    let mut host = Host::new(Arena::spawn());
    assert!(host.apply(&Request::Save { frame: 0, slot: 0 }));
    assert!(host.apply(&Request::Advance { frame: 0, inputs: vec![INPUT_FIRE, 0] }));
    assert_eq!(host.arena().shots.len(), 1);
    assert!(host.apply(&Request::Save { frame: 1, slot: 1 }));
    assert!(host.apply(&Request::Load { frame: 0, slot: 0 }));
    assert_eq!(host.arena(), &Arena::spawn());
    assert!(host.apply(&Request::Load { frame: 1, slot: 1 }));
    assert_eq!(host.arena().shots.len(), 1);
}

#[test]
fn host_refuses_what_it_cannot_serve() {
    let mut host = Host::new(Arena::spawn());
    assert!(!host.apply(&Request::Load { frame: 0, slot: 0 }));
    assert!(!host.apply(&Request::Save { frame: 9, slot: 9 }));
    assert!(!host.apply(&Request::Load { frame: 9, slot: 9 }));
    assert!(host.apply(&Request::Save { frame: 3, slot: 3 }));
    assert!(!host.apply(&Request::Load { frame: 12, slot: 3 }));
    assert!(host.apply(&Request::Load { frame: 3, slot: 3 }));
    assert_eq!(host.arena(), &Arena::spawn());
}

#[test]
fn perform_stops_at_the_first_request_it_cannot_serve() {
    let mut host = Host::new(Arena::spawn());
    let requests = vec![
        Request::Advance { frame: 0, inputs: vec![INPUT_FIRE, 0] },
        Request::Load { frame: 5, slot: 5 },
        Request::Advance { frame: 1, inputs: vec![0, INPUT_FIRE] },
    ];
    assert_eq!(host.perform(&requests), 1);
    assert_eq!(host.arena().shots.len(), 1);
    assert_eq!(host.perform(&vec![]), 0);
    let served = vec![
        Request::Save { frame: 1, slot: 1 },
        Request::Advance { frame: 1, inputs: vec![0, INPUT_FIRE] },
        Request::Load { frame: 1, slot: 1 },
    ];
    assert_eq!(host.perform(&served), 3);
    assert_eq!(host.arena().shots.len(), 1);
}

#[test]
fn rollback_ends_where_a_run_without_prediction_ends() {
    let mut s = session();
    let mut host = Host::new(Arena::spawn());
    let locals = [INPUT_FIRE, 0, INPUT_FIRE, 0, INPUT_FIRE, 0];
    for (tick, symbol) in locals.iter().enumerate() {
        let inbound = if tick == 5 {
            vec![from_remote(2, vec![INPUT_FIRE, 0, INPUT_FIRE, 1])]
        } else {
            vec![]
        };
        assert_eq!(host.tick(&mut s, &local(*symbol), &inbound, &vec![]), Ok(true));
    }
    assert_eq!(s.frame(), 6);
    assert_eq!(s.settled(), 6);
    let mut truth = Arena::spawn();
    truth.simulate(&vec![
        vec![0, 0],
        vec![0, 0],
        vec![INPUT_FIRE, INPUT_FIRE],
        vec![0, 0],
        vec![INPUT_FIRE, INPUT_FIRE],
        vec![0, 1],
    ]);
    assert_eq!(host.arena(), &truth);
    assert_eq!(host.arena().shots.len(), 4);
}

#[test]
fn prediction_shows_until_it_is_corrected() {
    let mut s = session();
    let mut host = Host::new(Arena::spawn());
    for _ in 0..4 {
        assert_eq!(host.tick(&mut s, &local(0), &vec![], &vec![]), Ok(true));
    }
    assert!(host.arena().shots.is_empty());
    let late = vec![from_remote(2, vec![INPUT_FIRE])];
    assert_eq!(host.tick(&mut s, &local(0), &late, &vec![]), Ok(true));
    assert_eq!(host.arena().shots.len(), 1);
    assert_eq!(host.arena().shots[0].owner, 1);
    let mut predicted = Arena::spawn();
    predicted.simulate(&vec![
        vec![0, 0],
        vec![0, 0],
        vec![0, INPUT_FIRE],
        vec![0, INPUT_FIRE],
        vec![0, INPUT_FIRE],
    ]);
    assert_eq!(host.arena(), &predicted);
}

#[test]
fn a_stalled_tick_leaves_the_host_alone() {
    let mut s = session();
    let mut host = Host::new(Arena::spawn());
    assert_eq!(host.tick(&mut s, &local(INPUT_FIRE), &vec![], &vec![]), Ok(true));
    let before = host.arena().snapshot();
    assert_eq!(
        host.tick(&mut s, &local(0), &vec![], &vec![PeerId(7)]),
        Err(TickError::Stalled(Stall::PeerLost))
    );
    assert_eq!(host.arena(), &before);
    assert_eq!(s.frame(), 1);
}

#[test]
fn a_held_tick_reports_no_new_frame() {
    let mut s = session();
    let mut host = Host::new(Arena::spawn());
    for _ in 0..10 {
        assert_eq!(host.tick(&mut s, &local(0), &vec![], &vec![]), Ok(true));
    }
    assert_eq!(host.tick(&mut s, &local(0), &vec![], &vec![]), Ok(false));
}

#[test]
fn a_host_that_missed_requests_is_found_out() {
    let mut s = session();
    let mut host = Host::new(Arena::spawn());
    for _ in 0..3 {
        s.advance_frame(&local(0), &vec![], &vec![]).expect("no peer is lost");
    }
    assert_eq!(
        host.tick(&mut s, &local(0), &vec![from_remote(2, vec![1])], &vec![]),
        Err(TickError::Unserved { request: 0 })
    );
}
