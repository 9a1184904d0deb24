//! A host for the arena: it carries out the requests of a session on an
//! [`Arena`] and keeps the snapshots.

use crate::player::{spec_step, Arena, ArenaView};
use crate::replay::{
    apply, perform, perform_one_more, serves, serves_first, tick_is_served, tick_keeps_track,
    tracks, Machine,
};
use crate::model::RequestView;
use crate::rollback::{
    received_views, request_views, Received, Request, Session, Stall, SNAPSHOT_SLOTS,
};
use crate::transport::PeerId;
use std::collections::HashMap;
use vstd::prelude::*;

verus! {

/// Snapshot `frame` of the arena.
#[derive(Debug, PartialEq, Eq)]
pub struct Snapshot {
    pub frame: usize,
    pub arena: Arena,
}

/// The arena and its snapshot slots.
#[derive(Debug)]
pub struct Host {
    arena: Arena,
    slots: Vec<Option<Snapshot>>,
}

/// Why a tick of host and session did not go through.
#[derive(Clone, Copy, Debug, PartialEq, Eq, Structural)]
pub enum TickError {
    /// The session has stalled; see [`Stall`].
    Stalled(Stall),
    /// The host could not serve the request with this index. This does not
    /// happen to a host that has carried out all requests of its session.
    Unserved { request: usize },
}

/// The simulation step of the arena as a function of state and inputs.
pub open spec fn arena_step() -> spec_fn(ArenaView, Seq<u8>) -> ArenaView {
    |arena: ArenaView, inputs: Seq<u8>| spec_step(arena, inputs)
}

impl View for Host {
    type V = Machine<ArenaView>;

    closed spec fn view(&self) -> Machine<ArenaView> {
        Machine {
            state: self.arena@,
            slots: Map::new(
                |slot: usize| slot < self.slots.len() && self.slots@[slot as int].is_some(),
                |slot: usize|
                    (
                        self.slots@[slot as int].unwrap().frame,
                        self.slots@[slot as int].unwrap().arena@,
                    ),
            ),
        }
    }
}

impl Host {
    /// Every host has [`SNAPSHOT_SLOTS`] slots.
    pub closed spec fn wf(&self) -> bool {
        self.slots.len() == SNAPSHOT_SLOTS
    }

    /// A host that starts from `arena` with all slots empty.
    pub fn new(arena: Arena) -> (host: Host)
        ensures
            host.wf(),
            host@ == (Machine { state: arena@, slots: Map::<usize, (usize, ArenaView)>::empty() }),
    {
        let mut slots: Vec<Option<Snapshot>> = Vec::new();
        let mut i: usize = 0;
        while i < SNAPSHOT_SLOTS
            invariant
                i <= SNAPSHOT_SLOTS,
                slots.len() == i,
                forall|k: int| 0 <= k < i ==> (#[trigger] slots@[k]).is_none(),
            decreases SNAPSHOT_SLOTS - i,
        {
            slots.push(None);
            i = i + 1;
        }
        let host = Host { arena, slots };
        assert(host@.slots =~= Map::<usize, (usize, ArenaView)>::empty());
        host
    }

    /// The current state of the simulation.
    pub fn arena(&self) -> (arena: &Arena)
        ensures
            arena@ == self@.state,
    {
        &self.arena
    }

    /// Carries out one request. A request that cannot be served changes
    /// nothing.
    pub fn apply(&mut self, request: &Request) -> (served: bool)
        requires
            old(self).wf(),
        ensures
            final(self).wf(),
            served == serves(old(self)@, request@),
            served ==> final(self)@ == apply(arena_step(), old(self)@, request@),
            !served ==> final(self)@ == old(self)@,
    {
        match request {
            Request::Save { frame, slot } => {
                if *slot >= SNAPSHOT_SLOTS {
                    return false;
                }
                let snapshot = Snapshot { frame: *frame, arena: self.arena.snapshot() };
                self.slots[*slot] = Some(snapshot);
                assert(self@.slots =~= old(self)@.slots.insert(*slot, (*frame, old(self)@.state)));
                true
            },
            Request::Load { frame, slot } => {
                if *slot >= self.slots.len() {
                    return false;
                }
                match &self.slots[*slot] {
                    Some(snapshot) => {
                        if snapshot.frame != *frame {
                            return false;
                        }
                        self.arena.restore(&snapshot.arena);
                        assert(self@.slots =~= old(self)@.slots);
                        true
                    },
                    None => false,
                }
            },
            Request::Advance { frame, inputs } => {
                self.arena.step(inputs);
                assert(self@.slots =~= old(self)@.slots);
                true
            },
        }
    }

    /// Carries out requests in order, up to the first that cannot be served.
    /// The result is the number of requests carried out: all of them, unless
    /// one could not be served.
    pub fn perform(&mut self, requests: &Vec<Request>) -> (done: usize)
        requires
            old(self).wf(),
        ensures
            final(self).wf(),
            done <= requests.len(),
            final(self)@ == perform(arena_step(), old(self)@, request_views(requests@).take(done as int)),
            serves_first(arena_step(), old(self)@, request_views(requests@), done as int),
            done < requests.len() ==> !serves(final(self)@, requests@[done as int]@),
    {
        let ghost views = request_views(requests@);
        let mut done: usize = 0;
        assert(views.take(0) =~= Seq::<RequestView>::empty());
        while done < requests.len()
            invariant
                self.wf(),
                done <= requests.len(),
                views == request_views(requests@),
                self@ == perform(arena_step(), old(self)@, views.take(done as int)),
                serves_first(arena_step(), old(self)@, views, done as int),
            decreases requests.len() - done,
        {
            if !self.apply(&requests[done]) {
                return done;
            }
            proof {
                assert(views.take(done + 1) =~= views.take(done as int).push(views[done as int]));
                perform_one_more(arena_step(), old(self)@, views.take(done as int), views[done as int]);
            }
            done = done + 1;
        }
        done
    }

    /// One tick of session and host together: the session advances and the
    /// host carries out what it asks for. `Ok` holds whether a new frame was
    /// simulated.
    ///
    /// A host that has kept up with the session so far serves every request
    /// and has kept up with it afterwards.
#[verifier::rlimit(50)]
    pub fn tick(
        &mut self,
        session: &mut Session,
        local_inputs: &HashMap<usize, u8>,
        inbound: &Vec<Received>,
        lost: &Vec<PeerId>,
    ) -> (outcome: Result<bool, TickError>)
        requires
            old(self).wf(),
            old(session).wf(),
            old(session)@.frame() + old(session)@.delay < usize::MAX,
        ensures
            final(self).wf(),
            final(session).wf(),
            final(session)@ == old(session)@.after_tick(
                local_inputs@,
                received_views(inbound@),
                lost@,
            ),
            old(session)@.stalls(lost@) ==> outcome == Err::<bool, TickError>(
                TickError::Stalled(Stall::PeerLost),
            ) && final(self)@ == old(self)@,
            !old(session)@.stalls(lost@) ==> {
                let requests = old(session)@.tick_requests(local_inputs@, received_views(inbound@));
                let advanced = old(session)@.corrected(received_views(inbound@)).can_advance();
                &&& outcome == if serves_first(
                    arena_step(),
                    old(self)@,
                    requests,
                    requests.len() as int,
                ) {
                    Ok::<bool, TickError>(advanced)
                } else {
                    Err::<bool, TickError>(
                        TickError::Unserved { request: unserved(arena_step(), old(self)@, requests) },
                    )
                }
                &&& outcome.is_ok() ==> final(self)@ == perform(arena_step(), old(self)@, requests)
                &&& forall|start: ArenaView|
                    tracks(old(session)@, old(self)@, arena_step(), start) ==> outcome.is_ok()
                        && tracks(final(session)@, final(self)@, arena_step(), start)
            },
    {
        let ghost before = session@;
        let ghost machine = self@;
        let ghost heard = received_views(inbound@);
        match session.advance_frame(local_inputs, inbound, lost) {
            Err(stall) => Err(TickError::Stalled(stall)),
            Ok(resolved) => {
                let ghost requests = before.tick_requests(local_inputs@, heard);
                let done = self.perform(&resolved.requests);
                proof {
                    assert forall|start: ArenaView|
                        tracks(before, machine, arena_step(), start) implies serves_first(
                        arena_step(),
                        machine,
                        requests,
                        requests.len() as int,
                    ) && tracks(
                        session@,
                        perform(arena_step(), machine, requests),
                        arena_step(),
                        start,
                    ) by {
                        tick_is_served(
                            arena_step(),
                            start,
                            before,
                            machine,
                            local_inputs@,
                            heard,
                            lost@,
                        );
                        tick_keeps_track(
                            arena_step(),
                            start,
                            before,
                            machine,
                            local_inputs@,
                            heard,
                            lost@,
                        );
                    }
                    if done < resolved.requests.len() {
                        first_unserved(arena_step(), machine, requests, done as int);
                    } else {
                        assert(requests.take(done as int) =~= requests);
                    }
                }
                if done < resolved.requests.len() {
                    Err(TickError::Unserved { request: done })
                } else {
                    Ok(resolved.advanced)
                }
            },
        }
    }
}

/// The index of the first request that the machine cannot serve; the number
/// of requests if it can serve them all.
pub open spec fn unserved<S>(
    step: spec_fn(S, Seq<u8>) -> S,
    machine: Machine<S>,
    requests: Seq<RequestView>,
) -> usize {
    choose|index: usize|
        index <= requests.len() && serves_first(step, machine, requests, index as int) && (index
            < requests.len() ==> !serves(
            perform(step, machine, requests.take(index as int)),
            requests[index as int],
        ))
}

/// The first request that cannot be served is the only index up to which all
/// requests are served and at which one is not.
pub proof fn first_unserved<S>(
    step: spec_fn(S, Seq<u8>) -> S,
    machine: Machine<S>,
    requests: Seq<RequestView>,
    index: int,
)
    requires
        0 <= index < requests.len(),
        index <= usize::MAX,
        serves_first(step, machine, requests, index),
        !serves(perform(step, machine, requests.take(index)), requests[index]),
    ensures
        unserved(step, machine, requests) == index,
        !serves_first(step, machine, requests, requests.len() as int),
{
    let found = unserved(step, machine, requests);
    let witness = index as usize;
    assert(witness <= requests.len() && serves_first(step, machine, requests, witness as int) && (
    witness < requests.len() ==> !serves(
        perform(step, machine, requests.take(witness as int)),
        requests[witness as int],
    )));
    if found < index {
        assert(serves(perform(step, machine, requests.take(found as int)), requests[found as int]));
    } else if found > index {
        assert(serves(perform(step, machine, requests.take(index)), requests[index]));
    }
}

} // verus!
