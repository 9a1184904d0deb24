//! Bookkeeping for the peer-to-peer transport.
//!
//! The host owns the socket. This module keeps what the rest of the core needs
//! to know about it: which peers are connected, which seat each participant
//! gets, and whether the one logical channel is still to be had.
//!
//! Seats are given by address: the participants, this peer among them, are
//! put in ascending order of their addresses, and a participant's place in
//! that order is its player handle. Every peer that sees the same participants
//! therefore gives every one of them the same handle.

use vstd::prelude::*;

verus! {

/// Index of the only logical channel a transport offers.
pub const CHANNEL: usize = 0;

/// Address of a participant, as the transport names it.
#[derive(Clone, Copy, Debug, PartialEq, Eq, Structural, Hash)]
pub struct PeerId(pub u128);

/// Who sits behind a player handle.
#[derive(Clone, Copy, Debug, PartialEq, Eq, Structural)]
pub enum PlayerType {
    /// A player on this device.
    Local,
    /// A player on the device of the given peer.
    Remote(PeerId),
}

/// What discovery reports of a peer.
#[derive(Clone, Copy, Debug, PartialEq, Eq, Structural)]
pub enum PeerState {
    Connected,
    Disconnected,
}

/// A peer has come or gone.
#[derive(Clone, Copy, Debug, PartialEq, Eq, Structural)]
pub struct PeerChange {
    pub peer: PeerId,
    pub state: PeerState,
}

/// Why a channel could not be handed out.
#[derive(Clone, Copy, Debug, PartialEq, Eq, Structural)]
pub enum ChannelError {
    /// The transport has no channel with that index.
    NotFound,
    /// The channel was handed out before.
    Taken,
}

/// Ownership of a logical channel. There is never more than one value of this
/// type per transport: it cannot be copied, and a transport hands it out once.
/// A channel knows the index under which its transport offered it.
#[derive(Debug)]
pub struct Channel {
    index: usize,
}

impl Channel {
    /// The index under which the transport offered this channel.
    pub closed spec fn spec_index(&self) -> usize {
        self.index
    }

    /// The index under which the host finds the socket's channel: the one
    /// under which the transport offered this channel.
    #[verifier::when_used_as_spec(spec_index)]
    pub fn index(&self) -> (index: usize)
        ensures
            index == self.spec_index(),
    {
        self.index
    }
}

/// Whether the addresses rise strictly from each peer to the next.
pub open spec fn ascending(peers: Seq<PeerId>) -> bool {
    forall|i: int, j: int| 0 <= i < j < peers.len() ==> peers[i].0 < peers[j].0
}

/// Number of peers with an address below that of `peer`.
pub open spec fn rank(peers: Seq<PeerId>, peer: PeerId) -> nat
    decreases peers.len(),
{
    if peers.len() == 0 {
        0
    } else {
        rank(peers.drop_last(), peer) + if peers.last().0 < peer.0 {
            1nat
        } else {
            0nat
        }
    }
}

/// The peers with `peer` among them.
pub open spec fn joined(peers: Seq<PeerId>, peer: PeerId) -> Seq<PeerId> {
    if peers.contains(peer) {
        peers
    } else {
        peers.insert(rank(peers, peer) as int, peer)
    }
}

/// The peers without `peer`.
pub open spec fn parted(peers: Seq<PeerId>, peer: PeerId) -> Seq<PeerId> {
    if peers.contains(peer) {
        peers.remove(rank(peers, peer) as int)
    } else {
        peers
    }
}

/// The peers after one change.
pub open spec fn changed(peers: Seq<PeerId>, change: PeerChange) -> Seq<PeerId> {
    match change.state {
        PeerState::Connected => joined(peers, change.peer),
        PeerState::Disconnected => parted(peers, change.peer),
    }
}

/// The peers after a list of changes, taken in order.
pub open spec fn changed_all(peers: Seq<PeerId>, changes: Seq<PeerChange>) -> Seq<PeerId>
    decreases changes.len(),
{
    if changes.len() == 0 {
        peers
    } else {
        changed(changed_all(peers, changes.drop_last()), changes.last())
    }
}

/// The players in handle order, for a peer with address `me` that is connected
/// to `peers`: every participant in ascending order of address, this peer as
/// the local player.
pub open spec fn seated(peers: Seq<PeerId>, me: PeerId) -> Seq<PlayerType> {
    let mine = rank(peers, me) as int;
    Seq::new(
        peers.len() + 1,
        |h: int|
            if h < mine {
                PlayerType::Remote(peers[h])
            } else if h == mine {
                PlayerType::Local
            } else {
                PlayerType::Remote(peers[h - 1])
            },
    )
}

/// The address behind a seat, seen from the peer with address `me`.
pub open spec fn address(player: PlayerType, me: PeerId) -> PeerId {
    match player {
        PlayerType::Local => me,
        PlayerType::Remote(peer) => peer,
    }
}

/// In an ascending list the rank of an address is the place where it is or
/// would have to be: everything in front is below it, everything from there
/// on is not.
#[verifier::rlimit(50)]
pub proof fn rank_divides(peers: Seq<PeerId>, peer: PeerId)
    requires
        ascending(peers),
    ensures
        rank(peers, peer) <= peers.len(),
        forall|i: int| 0 <= i < rank(peers, peer) ==> (#[trigger] peers[i]).0 < peer.0,
        forall|i: int| rank(peers, peer) <= i < peers.len() ==> (#[trigger] peers[i]).0 >= peer.0,
        peers.contains(peer) <==> (rank(peers, peer) < peers.len() && peers[rank(peers, peer) as int]
            == peer),
    decreases peers.len(),
{
    if peers.len() > 0 {
        let front = peers.drop_last();
        assert(ascending(front)) by {
            assert forall|i: int, j: int| 0 <= i < j < front.len() implies front[i].0
                < front[j].0 by {
                assert(peers[i].0 < peers[j].0);
            }
        }
        rank_divides(front, peer);
        let k = rank(peers, peer) as int;
        assert forall|i: int| 0 <= i < k implies (#[trigger] peers[i]).0 < peer.0 by {
            if i < front.len() {
                assert(front[i] == peers[i]);
                if i >= rank(front, peer) {
                    assert(peers[i].0 < peers[peers.len() - 1].0 || i == peers.len() - 1);
                }
            }
        }
        assert forall|i: int| k <= i < peers.len() implies (#[trigger] peers[i]).0 >= peer.0 by {
            if i < front.len() {
                assert(front[i] == peers[i]);
                if peers.last().0 < peer.0 {
                    assert(rank(front, peer) <= front.len());
                    assert(peers[i].0 < peers[peers.len() - 1].0);
                    if rank(front, peer) < front.len() {
                        assert(front[rank(front, peer) as int].0 >= peer.0);
                        assert(peers[rank(front, peer) as int].0 < peers[peers.len() - 1].0);
                    }
                }
            }
        }
        if peers.contains(peer) {
            let at = choose|at: int| 0 <= at < peers.len() && peers[at] == peer;
            if at < k {
                assert(peers[at].0 < peer.0);
            }
            if at > k {
                assert(peers[k].0 < peers[at].0);
                assert(peers[k].0 >= peer.0);
            }
        }
        if k < peers.len() && peers[k] == peer {
            assert(peers.contains(peer));
        }
    } else {
        assert(!peers.contains(peer));
    }
}

/// A change keeps an ascending list ascending.
pub proof fn change_keeps_order(peers: Seq<PeerId>, change: PeerChange)
    requires
        ascending(peers),
    ensures
        ascending(changed(peers, change)),
{
    rank_divides(peers, change.peer);
    let after = changed(peers, change);
    let k = rank(peers, change.peer) as int;
    assert forall|i: int, j: int| 0 <= i < j < after.len() implies after[i].0 < after[j].0 by {
        if after != peers {
            match change.state {
                PeerState::Connected => {
                    let a = if i < k {
                        i
                    } else {
                        i - 1
                    };
                    let b = if j < k {
                        j
                    } else {
                        j - 1
                    };
                    if i != k && j != k {
                        assert(peers[a].0 < peers[b].0);
                    } else if i == k {
                        assert(peers[b].0 >= change.peer.0);
                        assert(peers[b] != change.peer);
                    } else {
                        assert(peers[a].0 < change.peer.0);
                    }
                },
                PeerState::Disconnected => {
                    let a = if i < k {
                        i
                    } else {
                        i + 1
                    };
                    let b = if j < k {
                        j
                    } else {
                        j + 1
                    };
                    assert(peers[a].0 < peers[b].0);
                },
            }
        }
    }
}

/// A list of changes keeps an ascending list ascending.
pub proof fn changes_keep_order(peers: Seq<PeerId>, changes: Seq<PeerChange>)
    requires
        ascending(peers),
    ensures
        ascending(changed_all(peers, changes)),
    decreases changes.len(),
{
    if changes.len() > 0 {
        changes_keep_order(peers, changes.drop_last());
        change_keeps_order(changed_all(peers, changes.drop_last()), changes.last());
    }
}

/// After a peer has joined it is among the peers, and everyone else is there
/// exactly if it was there before. After a peer has parted it is not among
/// them, and everyone else is there exactly if it was there before.
#[verifier::rlimit(50)]
pub proof fn change_is_exact(peers: Seq<PeerId>, change: PeerChange, other: PeerId)
    requires
        ascending(peers),
    ensures
        changed(peers, change).contains(change.peer) == (change.state == PeerState::Connected),
        other != change.peer ==> changed(peers, change).contains(other) == peers.contains(other),
{
    rank_divides(peers, change.peer);
    let after = changed(peers, change);
    let k = rank(peers, change.peer) as int;
    change_keeps_order(peers, change);
    match change.state {
        PeerState::Connected => {
            if !peers.contains(change.peer) {
                assert(after[k] == change.peer);
                if peers.contains(other) {
                    let at = choose|at: int| 0 <= at < peers.len() && peers[at] == other;
                    if at < k {
                        assert(after[at] == other);
                    } else {
                        assert(after[at + 1] == other);
                    }
                }
                if after.contains(other) && other != change.peer {
                    let at = choose|at: int| 0 <= at < after.len() && after[at] == other;
                    if at < k {
                        assert(peers[at] == other);
                    } else {
                        assert(peers[at - 1] == other);
                    }
                }
            }
        },
        PeerState::Disconnected => {
            if peers.contains(change.peer) {
                if after.contains(change.peer) {
                    let at = choose|at: int| 0 <= at < after.len() && after[at] == change.peer;
                    if at < k {
                        assert(peers[at].0 < peers[k].0);
                    } else {
                        assert(peers[k].0 < peers[at + 1].0);
                    }
                }
                if peers.contains(other) && other != change.peer {
                    let at = choose|at: int| 0 <= at < peers.len() && peers[at] == other;
                    if at < k {
                        assert(after[at] == other);
                    } else {
                        assert(after[at - 1] == other);
                    }
                }
                if after.contains(other) {
                    let at = choose|at: int| 0 <= at < after.len() && after[at] == other;
                    if at < k {
                        assert(peers[at] == other);
                    } else {
                        assert(peers[at + 1] == other);
                    }
                }
            }
        },
    }
}

/// Two ascending lists with the same members are the same list.
#[verifier::rlimit(50)]
pub proof fn order_is_unique(one: Seq<PeerId>, other: Seq<PeerId>)
    requires
        ascending(one),
        ascending(other),
        forall|peer: PeerId| one.contains(peer) == other.contains(peer),
    ensures
        one == other,
    decreases one.len(),
{
    if one.len() == 0 {
        if other.len() > 0 {
            assert(other.contains(other[0]));
        }
        assert(one =~= other);
    } else {
        let top = one.last();
        assert(one.contains(top));
        assert(other.contains(top));
        let at = choose|at: int| 0 <= at < other.len() && other[at] == top;
        assert(other.contains(other.last()));
        assert(one.contains(other.last()));
        let back = choose|back: int| 0 <= back < one.len() && one[back] == other.last();
        if at < other.len() - 1 {
            assert(other[at].0 < other[other.len() - 1].0);
            if back < one.len() - 1 {
                assert(one[back].0 < one[one.len() - 1].0);
            }
            assert(false);
        }
        assert(other.last() == top);
        let one_front = one.drop_last();
        let other_front = other.drop_last();
        assert forall|peer: PeerId| one_front.contains(peer) == other_front.contains(peer) by {
            if one_front.contains(peer) {
                let i = choose|i: int| 0 <= i < one_front.len() && one_front[i] == peer;
                assert(one[i].0 < one[one.len() - 1].0);
                assert(one.contains(peer));
                let j = choose|j: int| 0 <= j < other.len() && other[j] == peer;
                assert(other_front[j] == peer);
            }
            if other_front.contains(peer) {
                let j = choose|j: int| 0 <= j < other_front.len() && other_front[j] == peer;
                assert(other[j].0 < other[other.len() - 1].0);
                assert(other.contains(peer));
                let i = choose|i: int| 0 <= i < one.len() && one[i] == peer;
                assert(one_front[i] == peer);
            }
        }
        assert(ascending(one_front)) by {
            assert forall|i: int, j: int| 0 <= i < j < one_front.len() implies one_front[i].0
                < one_front[j].0 by {
                assert(one[i].0 < one[j].0);
            }
        }
        assert(ascending(other_front)) by {
            assert forall|i: int, j: int| 0 <= i < j < other_front.len() implies other_front[i].0
                < other_front[j].0 by {
                assert(other[i].0 < other[j].0);
            }
        }
        order_is_unique(one_front, other_front);
        assert(one =~= one_front.push(top));
        assert(other =~= other_front.push(top));
    }
}

/// The seats are the participants in ascending order of address.
pub proof fn seats_are_in_order(peers: Seq<PeerId>, me: PeerId)
    requires
        ascending(peers),
        !peers.contains(me),
    ensures
        seated(peers, me).len() == peers.len() + 1,
        forall|h: int|
            0 <= h < seated(peers, me).len() ==> address(#[trigger] seated(peers, me)[h], me)
                == joined(peers, me)[h],
        ascending(joined(peers, me)),
{
    rank_divides(peers, me);
    change_keeps_order(peers, PeerChange { peer: me, state: PeerState::Connected });
}

/// All peers give the same handles. If two peers are connected to each other
/// and to the same others, every seat holds the same address at both.
pub proof fn seats_agree(here: Seq<PeerId>, me: PeerId, there: Seq<PeerId>, you: PeerId)
    requires
        ascending(here),
        ascending(there),
        !here.contains(me),
        !there.contains(you),
        forall|peer: PeerId| joined(here, me).contains(peer) == joined(there, you).contains(peer),
    ensures
        seated(here, me).len() == seated(there, you).len(),
        forall|h: int|
            0 <= h < seated(here, me).len() ==> address(#[trigger] seated(here, me)[h], me)
                == address(seated(there, you)[h], you),
{
    seats_are_in_order(here, me);
    seats_are_in_order(there, you);
    order_is_unique(joined(here, me), joined(there, you));
    rank_divides(here, me);
    rank_divides(there, you);
    assert(joined(here, me).len() == here.len() + 1);
    assert(joined(there, you).len() == there.len() + 1);
    assert forall|h: int| 0 <= h < seated(here, me).len() implies address(
        #[trigger] seated(here, me)[h],
        me,
    ) == address(seated(there, you)[h], you) by {
        assert(address(seated(there, you)[h], you) == joined(there, you)[h]);
    }
}

/// What is known of a transport: how many players the match needs, this
/// peer's own address once the signalling server has assigned it, the peers
/// that are connected, and whether the channel is still here.
#[derive(Debug)]
pub struct Transport {
    required: usize,
    id: Option<PeerId>,
    peers: Vec<PeerId>,
    channel: Option<Channel>,
}

/// A transport as contracts see it.
pub struct TransportView {
    pub required: nat,
    pub id: Option<PeerId>,
    pub peers: Seq<PeerId>,
    pub channel_taken: bool,
}

impl TransportView {
    /// The connected peers are kept in ascending order of address.
    pub open spec fn wf(self) -> bool {
        ascending(self.peers)
    }

    /// The players in handle order. A peer that does not know its own address
    /// yet knows of no one but itself.
    pub open spec fn players(self) -> Seq<PlayerType> {
        match self.id {
            Some(me) => seated(self.peers, me),
            None => seq![PlayerType::Local],
        }
    }

    /// The transport after discovery has reported: the address is taken over
    /// if one is given, then the changes are applied in order.
    pub open spec fn updated(self, id: Option<PeerId>, changes: Seq<PeerChange>) -> TransportView {
        TransportView {
            id: if id.is_some() {
                id
            } else {
                self.id
            },
            peers: changed_all(self.peers, changes),
            ..self
        }
    }
}

impl View for Transport {
    type V = TransportView;

    closed spec fn view(&self) -> TransportView {
        TransportView {
            required: self.required as nat,
            id: self.id,
            peers: self.peers@,
            channel_taken: self.channel.is_none(),
        }
    }
}

impl Transport {
    /// The channel that the transport still holds; none once it is taken.
    pub closed spec fn held(&self) -> Option<Channel> {
        self.channel
    }

    /// The channel is taken exactly if the transport holds none.
    pub proof fn held_unless_taken(&self)
        ensures
            self.held().is_none() == self@.channel_taken,
    {
    }

    /// A transport that has just been asked to connect: nobody is discovered
    /// yet and the channel, offered under [`CHANNEL`], is waiting to be taken.
    pub fn new(required: usize) -> (transport: Transport)
        ensures
            transport@.wf(),
            transport@ == (TransportView {
                required: required as nat,
                id: None,
                peers: Seq::empty(),
                channel_taken: false,
            }),
            transport.held().is_some(),
            transport.held().unwrap().index() == CHANNEL,
    {
        Transport { required, id: None, peers: Vec::new(), channel: Some(Channel { index: CHANNEL }) }
    }

    /// Number of players the match waits for.
    pub fn required(&self) -> (required: usize)
        ensures
            required == self@.required,
    {
        self.required
    }

    /// This peer's own address, once it is known.
    pub fn id(&self) -> (id: Option<PeerId>)
        ensures
            id == self@.id,
    {
        self.id
    }

    /// The connected peers in ascending order of address.
    pub fn connected_peers(&self) -> (peers: &Vec<PeerId>)
        ensures
            peers@ == self@.peers,
    {
        &self.peers
    }

    fn position(&self, peer: PeerId) -> (at: usize)
        requires
            self@.wf(),
        ensures
            at == rank(self@.peers, peer),
            at <= self@.peers.len(),
    {
        let mut at: usize = 0;
        while at < self.peers.len() && self.peers[at].0 < peer.0
            invariant
                self@.wf(),
                at <= self.peers.len(),
                forall|i: int| 0 <= i < at ==> (#[trigger] self.peers@[i]).0 < peer.0,
            decreases self.peers.len() - at,
        {
            at = at + 1;
        }
        proof {
            rank_divides(self@.peers, peer);
            let k = rank(self@.peers, peer) as int;
            if at < k {
                assert(self.peers@[at as int].0 < peer.0);
            }
            if k < at {
                assert(self.peers@[k].0 < peer.0);
            }
        }
        at
    }

    /// Takes over what discovery reports: this peer's address, if the host
    /// knows it by now, and the peers that have come and gone since the last
    /// report.
    pub fn update_peers(&mut self, id: Option<PeerId>, changes: &Vec<PeerChange>)
        requires
            old(self)@.wf(),
        ensures
            final(self)@.wf(),
            final(self)@ == old(self)@.updated(id, changes@),
            final(self).held() == old(self).held(),
    {
        if id.is_some() {
            self.id = id;
        }
        let mut i: usize = 0;
        while i < changes.len()
            invariant
                i <= changes.len(),
                self@.wf(),
                self.held() == old(self).held(),
                self@ == (TransportView {
                    peers: changed_all(old(self)@.peers, changes@.take(i as int)),
                    ..old(self)@.updated(id, changes@)
                }),
            decreases changes.len() - i,
        {
            let change = changes[i];
            let at = self.position(change.peer);
            proof {
                rank_divides(self@.peers, change.peer);
                change_keeps_order(self@.peers, change);
                assert(changes@.take(i + 1).drop_last() =~= changes@.take(i as int));
                assert(changes@.take(i + 1).last() == change);
            }
            let present = at < self.peers.len() && self.peers[at].0 == change.peer.0;
            match change.state {
                PeerState::Connected => {
                    if !present {
                        self.peers.insert(at, change.peer);
                    }
                },
                PeerState::Disconnected => {
                    if present {
                        self.peers.remove(at);
                    }
                },
            }
            i = i + 1;
        }
        proof {
            assert(changes@.take(changes.len() as int) =~= changes@);
        }
    }

    /// The players in handle order.
    pub fn players(&self) -> (players: Vec<PlayerType>)
        requires
            self@.wf(),
        ensures
            players@ == self@.players(),
    {
        let mut players: Vec<PlayerType> = Vec::new();
        match self.id {
            None => {
                players.push(PlayerType::Local);
                assert(players@ =~= seq![PlayerType::Local]);
            },
            Some(me) => {
                let mine = self.position(me);
                let mut h: usize = 0;
                while h < self.peers.len()
                    invariant
                        h <= self.peers.len(),
                        mine == rank(self@.peers, me),
                        mine <= self.peers.len(),
                        players.len() == if h <= mine {
                            h as int
                        } else {
                            h + 1
                        },
                        forall|k: int|
                            0 <= k < players.len() ==> #[trigger] players@[k] == seated(
                                self@.peers,
                                me,
                            )[k],
                    decreases self.peers.len() - h,
                {
                    if h == mine {
                        players.push(PlayerType::Local);
                    }
                    players.push(PlayerType::Remote(self.peers[h]));
                    h = h + 1;
                }
                if mine == self.peers.len() {
                    players.push(PlayerType::Local);
                }
                assert(players@ =~= seated(self@.peers, me));
            },
        }
        players
    }

    /// Whether as many players are here as the match needs. Fewer is no error:
    /// the caller asks again on a later tick.
    pub fn ready(&self) -> (ready: bool)
        ensures
            ready == (self@.players().len() >= self@.required),
    {
        let present = if self.id.is_some() {
            if self.peers.len() == usize::MAX {
                return true;
            }
            self.peers.len() + 1
        } else {
            1
        };
        present >= self.required
    }

    /// Looks at a channel without taking it: the channel that the transport
    /// holds, if the index is [`CHANNEL`] and the channel is still here.
    pub fn get_channel(&self, index: usize) -> (found: Result<&Channel, ChannelError>)
        ensures
            index != CHANNEL ==> found == Err::<&Channel, ChannelError>(ChannelError::NotFound),
            index == CHANNEL && self@.channel_taken ==> found == Err::<&Channel, ChannelError>(
                ChannelError::Taken,
            ),
            index == CHANNEL && !self@.channel_taken ==> found.is_ok() && Some(*found.unwrap())
                == self.held(),
    {
        if index != CHANNEL {
            return Err(ChannelError::NotFound);
        }
        match &self.channel {
            Some(channel) => Ok(channel),
            None => Err(ChannelError::Taken),
        }
    }

    /// Hands the channel that the transport holds to the caller. This
    /// succeeds once; every later call, and every call for an index other than
    /// [`CHANNEL`], fails and leaves the transport as it was.
    pub fn take_channel(&mut self, index: usize) -> (taken: Result<Channel, ChannelError>)
        ensures
            index != CHANNEL ==> taken == Err::<Channel, ChannelError>(ChannelError::NotFound)
                && final(self)@ == old(self)@ && final(self).held() == old(self).held(),
            index == CHANNEL && old(self)@.channel_taken ==> taken == Err::<Channel, ChannelError>(
                ChannelError::Taken,
            ) && final(self)@ == old(self)@ && final(self).held() == old(self).held(),
            index == CHANNEL && !old(self)@.channel_taken ==> taken.is_ok() && Some(taken.unwrap())
                == old(self).held() && final(self).held().is_none() && final(self)@ == (
            TransportView { channel_taken: true, ..old(self)@ }),
    {
        if index != CHANNEL {
            return Err(ChannelError::NotFound);
        }
        match self.channel.take() {
            Some(channel) => Ok(channel),
            None => Err(ChannelError::Taken),
        }
    }
}

} // verus!
