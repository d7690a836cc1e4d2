//! The coordinator of an ecom: the stores and peers it knows, the leader it
//! follows, the routing of online orders and its part in the ring election.

use rand::rngs::StdRng;
use vstd::prelude::*;
use crate::abstract_ecom::{AbstractEcom, Election, NewLeader2, SendOrder};
use crate::abstract_store::{AbstractStore, NewLeader, Order};
use crate::chance::{draw_between, pick, seeded};
use crate::errors::Errors;
use crate::ring::{election_winner, greatest, greatest_of, law_ring_ignores_order, next_in_ring, Peers};
use crate::roster::Roster;
use crate::text::{decimal, fields, lemma_without, parse_usize, parse_usize_spec, split_fields, texts, usize_to_string, without};
use crate::wire::{record2, write_record2};

verus! {

/// The shortest deadline, in seconds, that an order is given.
pub const MIN_SECS_LIMIT: usize = 1;

/// The bound, in seconds, below which every deadline stays.
pub const MAX_SECS_LIMIT: usize = 10;

/// A store with id `store_id` connected.
pub struct NewStore {
    pub store_id: String,
}

/// An online order `<product>,<quantity>` together with the stores that have
/// refused it so far.
pub struct NewOrder {
    pub order: String,
    pub visited_stores: Vec<String>,
}

/// The link to the store with id `store_id` closed.
pub struct StoreDisconnected {
    pub store_id: String,
}

/// A peer connected and named itself `id`.
pub struct NewEcom {
    pub id: String,
}

/// The link to the peer with id `ecom_id` closed.
pub struct EcomDisconnected {
    pub ecom_id: usize,
}

/// An election token: the ids it has passed, in order, and the hop that the
/// link it arrived on suggests.
pub struct CoordElection {
    pub ecom_id: usize,
    pub visited: Vec<usize>,
}

/// The ecom with id `new_leader_id` leads from now on.
pub struct ChangeLeader {
    pub new_leader_id: usize,
}

/// The store with id `sender_id` asks who leads.
pub struct GetLeader {
    pub sender_id: String,
}

/// The coordinator of the ecom with id `id`. `active_stores` and
/// `active_ecoms` name the stores and the peers that it holds a link to,
/// `curr_leader` is the ecom that it takes for the leader, if any, and
/// `online_orders` are the orders that it was started with.
pub struct Coordinator {
    pub online_orders: Vec<String>,
    pub active_stores: Roster,
    pub active_ecoms: Peers,
    pub rng: StdRng,
    pub id: usize,
    pub curr_leader: Option<usize>,
}

/// An announcement of the leader together with the store whose link is to
/// carry it.
pub struct StoreNotice {
    pub store_id: String,
    pub msg: NewLeader,
}

/// An announcement of the leader together with the peer whose link is to
/// carry it.
pub struct PeerNotice {
    pub ecom_id: usize,
    pub msg: NewLeader2,
}

/// The link that was made for a store, and the announcement of the leader
/// that the link is to carry first.
pub struct StoreWelcome {
    pub link: AbstractStore,
    pub first: NewLeader,
}

/// The link that was made for a peer, and the announcements that the stores
/// are owed if the peer became the leader.
pub struct PeerWelcome {
    pub link: AbstractEcom,
    pub notices: Vec<StoreNotice>,
}

/// Where an order goes next.
pub enum OrderRoute {
    /// To the peer that leads, as it came.
    ToLeader { ecom_id: usize, msg: SendOrder },
    /// Nowhere: every store has refused it.
    Dropped,
    /// Back to the coordinator for another draw: the store that was drawn had
    /// refused it already.
    Retry(NewOrder),
    /// To a store that has not seen it, with a deadline attached.
    ToStore { store_id: String, order: Order },
}

/// What a coordinator does with an election token.
pub enum ElectionStep {
    /// The token came round: the winner is announced to every peer and
    /// followed here.
    Finished { announcements: Vec<PeerNotice>, local: ChangeLeader },
    /// The token goes on to the next peer in the ring, with this ecom added.
    Forward { ecom_id: usize, msg: Election },
    /// There is no peer: this ecom leads.
    SelfElected(ChangeLeader),
}

/// What a coordinator knows, as plain values.
pub struct CoordinatorState {
    pub id: usize,
    pub leader: Option<usize>,
    pub stores: Seq<Seq<char>>,
    pub peers: Seq<usize>,
}

impl CoordinatorState {
    /// No store and no peer is listed twice, and the id after this ecom's
    /// fits in a `usize`.
    pub open spec fn wf(self) -> bool {
        &&& self.stores.no_duplicates()
        &&& self.peers.no_duplicates()
        &&& self.id < usize::MAX
    }

    /// A leader other than this ecom is a peer that this ecom holds a link
    /// to.
    pub open spec fn leader_linked(self) -> bool {
        self.leader matches Some(l) ==> l == self.id || self.peers.contains(l)
    }

    /// The state once `leader` was announced.
    pub open spec fn led_by(self, leader: usize) -> CoordinatorState {
        CoordinatorState { id: self.id, leader: Some(leader), stores: self.stores, peers: self.peers }
    }

    /// The state once the store `store` has a link.
    pub open spec fn with_store(self, store: Seq<char>) -> CoordinatorState {
        CoordinatorState {
            id: self.id,
            leader: self.leader,
            stores: if self.stores.contains(store) {
                self.stores
            } else {
                self.stores.push(store)
            },
            peers: self.peers,
        }
    }

    /// The state once the link to the store `store` is gone.
    pub open spec fn without_store(self, store: Seq<char>) -> CoordinatorState {
        CoordinatorState {
            id: self.id,
            leader: self.leader,
            stores: without(self.stores, store),
            peers: self.peers,
        }
    }

    /// Whether the peer `peer` takes the lead when it connects: a leader is
    /// known and its id is below the peer's.
    pub open spec fn yields_to(self, peer: usize) -> bool {
        self.leader matches Some(l) && peer > l
    }

    /// The state once the peer `peer` has a link.
    pub open spec fn with_peer(self, peer: usize) -> CoordinatorState {
        CoordinatorState {
            id: self.id,
            leader: if self.yields_to(peer) {
                Some(peer)
            } else {
                self.leader
            },
            stores: self.stores,
            peers: if self.peers.contains(peer) {
                self.peers
            } else {
                self.peers.push(peer)
            },
        }
    }

    /// The state once the link to the peer `peer` is gone: without a leader
    /// if the peer led.
    pub open spec fn without_peer(self, peer: usize) -> CoordinatorState {
        CoordinatorState {
            id: self.id,
            leader: if self.leader == Some(peer) {
                None
            } else {
                self.leader
            },
            stores: self.stores,
            peers: without(self.peers, peer),
        }
    }

    /// The peer that orders are forwarded to: the leader, where it is another
    /// ecom that this one holds a link to.
    pub open spec fn forwards_to(self) -> Option<usize> {
        match self.leader {
            Some(l) => if l != self.id && self.peers.contains(l) {
                Some(l)
            } else {
                None
            },
            None => None,
        }
    }

    /// Whether every store has refused an order that `visited` these stores.
    pub open spec fn all_visited(self, visited: Seq<Seq<char>>) -> bool {
        forall|i: int| 0 <= i < self.stores.len() ==> visited.contains(#[trigger] self.stores[i])
    }

    /// Whether `r` is a way to route the order `order`, which `visited`
    /// these stores. Without a store or without a leader the order is
    /// rejected. An ecom that follows a peer forwards the order to it. The
    /// leader, or an ecom without a link to the leader, drops an order that
    /// every store has refused, and else draws a store and a deadline.
    pub open spec fn is_route(
        self,
        order: Seq<char>,
        visited: Seq<Seq<char>>,
        r: Result<OrderRoute, Errors>,
    ) -> bool {
        if self.stores.len() == 0 {
            r matches Err(Errors::NoActiveStoresError)
        } else if self.leader is None {
            r matches Err(Errors::NoActiveLeader)
        } else if self.forwards_to() is Some {
            r matches Ok(OrderRoute::ToLeader { ecom_id, msg }) && Some(ecom_id) == self.forwards_to()
                && msg.order@ == order
        } else if self.all_visited(visited) {
            r matches Ok(OrderRoute::Dropped)
        } else {
            r matches Ok(route) && exists|store: Seq<char>, deadline: usize|
                #![trigger is_local_route(order, visited, store, deadline, route)]
                self.stores.contains(store) && MIN_SECS_LIMIT <= deadline < MAX_SECS_LIMIT
                    && is_local_route(order, visited, store, deadline, route)
        }
    }

    /// Whether `r` is what this coordinator does with an election token that
    /// has passed `visited`. A token that has passed this ecom came round:
    /// the greatest id on it wins and every peer is told. Any other token
    /// goes on to the peer that follows this ecom in the ring, with this
    /// ecom's id added; an ecom without peers elects itself.
    pub open spec fn is_election_step(self, visited: Seq<usize>, r: ElectionStep) -> bool {
        if visited.contains(self.id) {
            r matches ElectionStep::Finished { announcements, local } && local.new_leader_id
                == greatest(visited) && are_peer_notices(self.peers, greatest(visited), announcements@)
        } else {
            match next_in_ring(self.peers, self.id) {
                Some(next) => r matches ElectionStep::Forward { ecom_id, msg } && ecom_id == next
                    && msg.visited@ == visited.push(self.id),
                None => r matches ElectionStep::SelfElected(m) && m.new_leader_id == self.id,
            }
        }
    }
}

/// The order with a deadline: an order `<product>,<quantity>` gets `deadline`
/// attached as its third field, and an order that has a third field keeps
/// the deadline that it carries.
pub open spec fn with_deadline(order: Seq<char>, deadline: usize) -> Seq<char> {
    if fields(order, ',').len() >= 3 {
        order
    } else {
        record2(order, decimal(deadline as nat))
    }
}

/// Whether `route` sends the order `order`, which `visited` these stores, on
/// after `store` and `deadline` were drawn: back for another draw if `store`
/// is among those visited, and else to `store` with its deadline.
pub open spec fn is_local_route(
    order: Seq<char>,
    visited: Seq<Seq<char>>,
    store: Seq<char>,
    deadline: usize,
    route: OrderRoute,
) -> bool {
    if visited.contains(store) {
        route matches OrderRoute::Retry(m) && m.order@ == order && texts(m.visited_stores@) == visited
    } else {
        route matches OrderRoute::ToStore { store_id, order: sent } && store_id@ == store
            && sent.order@ == with_deadline(order, deadline) && texts(
            sent.visited_stores@,
        ) == visited
    }
}

/// Whether `out` announces `leader` to each of `stores`, in their order.
pub open spec fn are_store_notices(stores: Seq<Seq<char>>, leader: usize, out: Seq<StoreNotice>) -> bool {
    &&& out.len() == stores.len()
    &&& forall|i: int|
        0 <= i < out.len() ==> (#[trigger] out[i]).store_id@ == stores[i] && out[i].msg.leader_id@
            == decimal(leader as nat)
}

/// Whether `out` announces `leader` to each of `peers`, in their order.
pub open spec fn are_peer_notices(peers: Seq<usize>, leader: usize, out: Seq<PeerNotice>) -> bool {
    &&& out.len() == peers.len()
    &&& forall|i: int|
        0 <= i < out.len() ==> (#[trigger] out[i]).ecom_id == peers[i] && out[i].msg.new_leader_id
            == leader
}

/// Whether `name` is among `names`.
pub fn holds(names: &Vec<String>, name: &String) -> (b: bool)
    ensures
        b == texts(names@).contains(name@),
{
    let n = names.len();
    let mut i: usize = 0;
    while i < n
        invariant
            i <= n,
            n == names@.len(),
            forall|j: int| 0 <= j < i ==> texts(names@)[j] != name@,
        decreases n - i,
    {
        if names[i] == *name {
            assert(texts(names@)[i as int] == name@);
            return true;
        }
        i += 1;
    }
    false
}

/// Whether `id` is among `ids`.
pub fn lists(ids: &Vec<usize>, id: usize) -> (b: bool)
    ensures
        b == ids@.contains(id),
{
    let n = ids.len();
    let mut i: usize = 0;
    while i < n
        invariant
            i <= n,
            n == ids@.len(),
            forall|j: int| 0 <= j < i ==> ids@[j] != id,
        decreases n - i,
    {
        if ids[i] == id {
            return true;
        }
        i += 1;
    }
    false
}

/// Sends an order on after `store` and `deadline` were drawn for it: back for
/// another draw if the store has refused it already, and else to the store,
/// with the deadline attached unless the order carries one.
pub fn route_local(msg: NewOrder, store: String, deadline: usize) -> (route: OrderRoute)
    ensures
        is_local_route(msg.order@, texts(msg.visited_stores@), store@, deadline, route),
{
    if holds(&msg.visited_stores, &store) {
        OrderRoute::Retry(msg)
    } else {
        let order = if split_fields(msg.order.as_str(), ',').len() >= 3 {
            msg.order
        } else {
            let digits = usize_to_string(deadline);
            write_record2(msg.order.as_str(), digits.as_str())
        };
        OrderRoute::ToStore {
            store_id: store,
            order: Order { order, visited_stores: msg.visited_stores },
        }
    }
}

impl Coordinator {
    /// What the coordinator knows, as plain values.
    pub open spec fn state(&self) -> CoordinatorState {
        CoordinatorState {
            id: self.id,
            leader: self.curr_leader,
            stores: self.active_stores@,
            peers: self.active_ecoms@,
        }
    }

    /// No store and no peer is listed twice, and the id after this ecom's
    /// fits in a `usize`.
    pub open spec fn wf(&self) -> bool {
        self.state().wf()
    }

    /// The coordinator of the ecom `id`, which starts as its own leader,
    /// without stores or peers. Its draws start from `seed`.
    pub fn new(id: usize, online_orders: Vec<String>, seed: u64) -> (c: Self)
        requires
            id < usize::MAX,
        ensures
            c.wf(),
            c.id == id,
            c.curr_leader == Some(id),
            c.active_stores@ == Seq::<Seq<char>>::empty(),
            c.active_ecoms@ == Seq::<usize>::empty(),
            c.online_orders == online_orders,
    {
        Coordinator {
            online_orders,
            active_stores: Roster::new(),
            active_ecoms: Peers::new(),
            rng: seeded(seed),
            id,
            curr_leader: Some(id),
        }
    }

    /// The announcements that tell every store that `leader` leads.
    pub fn notices_for_stores(&self, leader: usize) -> (out: Vec<StoreNotice>)
        ensures
            are_store_notices(self.active_stores@, leader, out@),
    {
        let n = self.active_stores.len();
        let mut out: Vec<StoreNotice> = Vec::new();
        let mut i: usize = 0;
        while i < n
            invariant
                i <= n,
                n == self.active_stores@.len(),
                are_store_notices(self.active_stores@.take(i as int), leader, out@),
            decreases n - i,
        {
            let store_id = self.active_stores.name(i).clone();
            let leader_id = usize_to_string(leader);
            out.push(StoreNotice { store_id, msg: NewLeader { leader_id } });
            i += 1;
        }
        assert(self.active_stores@.take(n as int) =~= self.active_stores@);
        out
    }

    /// Registers a store that connected. Where a leader is known, the store
    /// gets a link with an empty mirror, and the link is to carry the
    /// announcement of that leader first. Without a leader the store is
    /// refused.
    pub fn new_store(&mut self, msg: NewStore) -> (r: Result<StoreWelcome, Errors>)
        requires
            old(self).wf(),
        ensures
            final(self).wf(),
            final(self).online_orders == old(self).online_orders,
            match old(self).state().leader {
                Some(leader) => {
                    &&& r matches Ok(w)
                    &&& w.link.wf()
                    &&& w.link.store_id@ == msg.store_id@
                    &&& w.link.stock@ == Map::<Seq<char>, usize>::empty()
                    &&& w.link.orders_buffer@.len() == 0
                    &&& w.first.leader_id@ == decimal(leader as nat)
                    &&& final(self).state() == old(self).state().with_store(msg.store_id@)
                },
                None => {
                    &&& r matches Err(Errors::NoActiveLeader)
                    &&& final(self).state() == old(self).state()
                },
            },
    {
        match self.curr_leader {
            Some(leader) => {
                let link = AbstractStore::new(msg.store_id.clone());
                let first = NewLeader { leader_id: usize_to_string(leader) };
                self.active_stores.insert(msg.store_id);
                Ok(StoreWelcome { link, first })
            },
            None => Err(Errors::NoActiveLeader),
        }
    }

    /// Routes an online order.
    pub fn new_order(&mut self, msg: NewOrder) -> (r: Result<OrderRoute, Errors>)
        requires
            old(self).wf(),
        ensures
            final(self).wf(),
            final(self).state() == old(self).state(),
            final(self).online_orders == old(self).online_orders,
            old(self).state().is_route(msg.order@, texts(msg.visited_stores@), r),
    {
        let ghost state = self.state();
        let ghost order = msg.order@;
        let ghost visited = texts(msg.visited_stores@);
        if self.active_stores.is_empty() {
            return Err(Errors::NoActiveStoresError);
        }
        let leader = match self.curr_leader {
            Some(leader) => leader,
            None => {
                return Err(Errors::NoActiveLeader);
            },
        };
        if leader != self.id && self.active_ecoms.contains(leader) {
            return Ok(OrderRoute::ToLeader { ecom_id: leader, msg: SendOrder { order: msg.order } });
        }
        if self.every_store_in(&msg.visited_stores) {
            return Ok(OrderRoute::Dropped);
        }
        let store = match pick(&mut self.rng, self.active_stores.as_vec()) {
            Some(store) => store.clone(),
            None => {
                return Err(Errors::NoActiveStoresError);
            },
        };
        let deadline = draw_between(&mut self.rng, MIN_SECS_LIMIT, MAX_SECS_LIMIT);
        let route = route_local(msg, store, deadline);
        assert(is_local_route(order, visited, store@, deadline, route));
        Ok(route)
    }

    /// Whether each store is among `visited`.
    pub fn every_store_in(&self, visited: &Vec<String>) -> (b: bool)
        ensures
            b == self.state().all_visited(texts(visited@)),
    {
        let n = self.active_stores.len();
        let mut i: usize = 0;
        while i < n
            invariant
                i <= n,
                n == self.active_stores@.len(),
                forall|j: int|
                    0 <= j < i ==> texts(visited@).contains(#[trigger] self.active_stores@[j]),
            decreases n - i,
        {
            if !holds(visited, self.active_stores.name(i)) {
                assert(!texts(visited@).contains(self.state().stores[i as int]));
                return false;
            }
            i += 1;
        }
        true
    }

    /// Forgets a store whose link closed. A store that has no link is
    /// reported as not connected.
    pub fn store_disconnected(&mut self, msg: StoreDisconnected) -> (r: Result<(), Errors>)
        requires
            old(self).wf(),
        ensures
            final(self).wf(),
            final(self).online_orders == old(self).online_orders,
            final(self).state() == old(self).state().without_store(msg.store_id@),
            r == if old(self).active_stores@.contains(msg.store_id@) {
                Ok::<(), Errors>(())
            } else {
                Err::<(), Errors>(Errors::StoreNotConnectedError)
            },
    {
        if self.active_stores.remove(&msg.store_id) {
            Ok(())
        } else {
            Err(Errors::StoreNotConnectedError)
        }
    }

    /// Registers a peer that connected. The peer takes the lead if a leader
    /// is known and the peer's id is above the leader's; every store is then
    /// owed the announcement. A name that is no number below `usize::MAX` is
    /// rejected and changes nothing.
    pub fn new_ecom(&mut self, msg: NewEcom) -> (r: Result<PeerWelcome, Errors>)
        requires
            old(self).wf(),
        ensures
            final(self).wf(),
            final(self).online_orders == old(self).online_orders,
            old(self).state().leader_linked() ==> final(self).state().leader_linked(),
            match parse_usize_spec(msg.id@) {
                Some(peer) => if peer < usize::MAX {
                    &&& r matches Ok(w)
                    &&& w.link.id == peer
                    &&& w.link.wf()
                    &&& final(self).state() == old(self).state().with_peer(peer)
                    &&& if old(self).state().yields_to(peer) {
                        are_store_notices(old(self).active_stores@, peer, w.notices@)
                    } else {
                        w.notices@.len() == 0
                    }
                } else {
                    r matches Err(Errors::CouldNotParse) && final(self).state() == old(self).state()
                },
                None => r matches Err(Errors::CouldNotParse) && final(self).state() == old(
                    self,
                ).state(),
            },
    {
        let peer = match parse_usize(msg.id.as_str()) {
            Some(peer) => peer,
            None => {
                return Err(Errors::CouldNotParse);
            },
        };
        if peer == usize::MAX {
            return Err(Errors::CouldNotParse);
        }
        let mut notices: Vec<StoreNotice> = Vec::new();
        if let Some(leader) = self.curr_leader {
            if peer > leader {
                self.curr_leader = Some(peer);
                notices = self.notices_for_stores(peer);
            }
        }
        let ghost before = self.active_ecoms@;
        self.active_ecoms.insert(peer);
        proof {
            if !before.contains(peer) {
                assert(before.push(peer)[before.len() as int] == peer);
                assert forall|x: usize| before.contains(x) implies before.push(peer).contains(x) by {
                    let i = choose|i: int| 0 <= i < before.len() && before[i] == x;
                    assert(before.push(peer)[i] == x);
                }
            }
        }
        Ok(PeerWelcome { link: AbstractEcom { id: peer }, notices })
    }

    /// Forgets a peer whose link closed. If the peer led, the coordinator is
    /// left without a leader and starts an election with an empty token for
    /// itself. A peer that has no link is reported as not connected.
    pub fn ecom_disconnected(&mut self, msg: EcomDisconnected) -> (r: Result<
        Option<CoordElection>,
        Errors,
    >)
        requires
            old(self).wf(),
        ensures
            final(self).wf(),
            final(self).online_orders == old(self).online_orders,
            old(self).state().leader_linked() ==> final(self).state().leader_linked(),
            if old(self).active_ecoms@.contains(msg.ecom_id) {
                &&& final(self).state() == old(self).state().without_peer(msg.ecom_id)
                &&& if old(self).curr_leader == Some(msg.ecom_id) {
                    r matches Ok(Some(token)) && token.visited@.len() == 0 && token.ecom_id == old(
                        self,
                    ).id + 1
                } else {
                    r matches Ok(None)
                }
            } else {
                r matches Err(Errors::StoreNotConnectedError) && final(self).state() == old(
                    self,
                ).state()
            },
    {
        proof {
            lemma_without(self.active_ecoms@, msg.ecom_id);
        }
        if !self.active_ecoms.remove(msg.ecom_id) {
            return Err(Errors::StoreNotConnectedError);
        }
        let led = match self.curr_leader {
            Some(leader) => leader == msg.ecom_id,
            None => false,
        };
        if led {
            self.curr_leader = None;
            Ok(Some(CoordElection { ecom_id: self.id + 1, visited: Vec::new() }))
        } else {
            Ok(None)
        }
    }

    /// Takes part in an election: decides what becomes of a token.
    pub fn coord_election(&self, msg: CoordElection) -> (r: ElectionStep)
        ensures
            self.state().is_election_step(msg.visited@, r),
    {
        if lists(&msg.visited, self.id) {
            let winner = greatest_of(&msg.visited).unwrap();
            let n = self.active_ecoms.len();
            let mut announcements: Vec<PeerNotice> = Vec::new();
            let mut i: usize = 0;
            while i < n
                invariant
                    i <= n,
                    n == self.active_ecoms@.len(),
                    are_peer_notices(self.active_ecoms@.take(i as int), winner, announcements@),
                decreases n - i,
            {
                announcements.push(
                    PeerNotice {
                        ecom_id: self.active_ecoms.id(i),
                        msg: NewLeader2 { new_leader_id: winner },
                    },
                );
                i += 1;
            }
            assert(self.active_ecoms@.take(n as int) =~= self.active_ecoms@);
            ElectionStep::Finished { announcements, local: ChangeLeader { new_leader_id: winner } }
        } else {
            match self.active_ecoms.next_after(self.id) {
                Some(next) => {
                    let mut visited = msg.visited;
                    visited.push(self.id);
                    ElectionStep::Forward { ecom_id: next, msg: Election { visited } }
                },
                None => ElectionStep::SelfElected(ChangeLeader { new_leader_id: self.id }),
            }
        }
    }

    /// Follows a leader that was announced, and owes every store the
    /// announcement.
    pub fn change_leader(&mut self, msg: ChangeLeader) -> (notices: Vec<StoreNotice>)
        ensures
            final(self).state() == old(self).state().led_by(msg.new_leader_id),
            final(self).online_orders == old(self).online_orders,
            are_store_notices(old(self).active_stores@, msg.new_leader_id, notices@),
    {
        self.curr_leader = Some(msg.new_leader_id);
        self.notices_for_stores(msg.new_leader_id)
    }

    /// Answers a store that asks who leads. There is no answer for a store
    /// without a link, nor while no leader is known.
    pub fn get_leader(&self, msg: GetLeader) -> (r: Option<StoreNotice>)
        ensures
            match r {
                Some(notice) => {
                    &&& self.active_stores@.contains(msg.sender_id@)
                    &&& self.curr_leader matches Some(leader)
                    &&& notice.store_id@ == msg.sender_id@
                    &&& notice.msg.leader_id@ == decimal(leader as nat)
                },
                None => !self.active_stores@.contains(msg.sender_id@) || self.curr_leader is None,
            },
    {
        if !self.active_stores.contains(&msg.sender_id) {
            return None;
        }
        match self.curr_leader {
            Some(leader) => Some(
                StoreNotice {
                    store_id: msg.sender_id,
                    msg: NewLeader { leader_id: usize_to_string(leader) },
                },
            ),
            None => None,
        }
    }
}

impl CoordinatorState {
    /// The state after stores came and went: `(true, s)` is the store `s`
    /// getting a link, `(false, s)` its link closing.
    pub open spec fn after_stores(self, changes: Seq<(bool, Seq<char>)>) -> CoordinatorState
        decreases changes.len(),
    {
        if changes.len() == 0 {
            self
        } else {
            let before = self.after_stores(changes.drop_last());
            if changes.last().0 {
                before.with_store(changes.last().1)
            } else {
                before.without_store(changes.last().1)
            }
        }
    }
}

/// An order is sent only to a store that has not refused it. So if the stores
/// that an order visited are all different, they still are once the store
/// that it was sent to refuses it too: no order visits a store twice.
pub proof fn law_no_store_visited_twice(
    order: Seq<char>,
    visited: Seq<Seq<char>>,
    store: Seq<char>,
    deadline: usize,
    route: OrderRoute,
)
    requires
        visited.no_duplicates(),
        is_local_route(order, visited, store, deadline, route),
        route is ToStore,
    ensures
        !visited.contains(store),
        visited.push(store).no_duplicates(),
{
    let longer = visited.push(store);
    assert forall|i: int, j: int|
        0 <= i < longer.len() && 0 <= j < longer.len() && i != j implies longer[i] != longer[j] by {
        if i < visited.len() {
            assert(visited.contains(visited[i]));
        }
        if j < visited.len() {
            assert(visited.contains(visited[j]));
        }
    }
}

/// Once a leader was announced to a coordinator, a leader stays known while
/// stores come and go. A store that gets a link then is told of that leader,
/// and no order is sent to a store before it has a link.
pub proof fn law_new_store_hears_leader_first(
    state: CoordinatorState,
    leader: usize,
    changes: Seq<(bool, Seq<char>)>,
    order: Seq<char>,
    visited: Seq<Seq<char>>,
    r: Result<OrderRoute, Errors>,
)
    ensures
        state.led_by(leader).after_stores(changes).leader == Some(leader),
        state.is_route(order, visited, r) ==> (r matches Ok(OrderRoute::ToStore { store_id, order: sent })
            ==> state.stores.contains(store_id@)),
    decreases changes.len(),
{
    if changes.len() > 0 {
        law_new_store_hears_leader_first(state, leader, changes.drop_last(), order, visited, r);
    }
}

/// Announcing to a coordinator the leader that it follows already changes
/// nothing.
pub proof fn law_same_leader_again(state: CoordinatorState, leader: usize)
    ensures
        state.led_by(leader).led_by(leader) == state.led_by(leader),
        state.leader == Some(leader) ==> state.led_by(leader) == state,
{
}

/// A coordinator whose peers are the other members of a ring treats an
/// election token as the election among these members has it: it names the
/// winner where the election ends, and else hands the token, with its own id
/// added, to the member that the election visits next. The election then has
/// the winner that it has from there.
pub proof fn law_election_step_follows_ring(
    state: CoordinatorState,
    members: Seq<usize>,
    visited: Seq<usize>,
    hops: nat,
    r: ElectionStep,
)
    requires
        members.no_duplicates(),
        forall|x: usize| state.peers.contains(x) <==> members.contains(x) && x != state.id,
        state.is_election_step(visited, r),
    ensures
        match r {
            ElectionStep::Finished { announcements, local } => election_winner(
                members,
                state.id,
                visited,
                hops,
            ) == Some(local.new_leader_id),
            ElectionStep::SelfElected(local) => election_winner(members, state.id, visited, hops)
                == Some(local.new_leader_id),
            ElectionStep::Forward { ecom_id, msg } => hops > 0 ==> election_winner(
                members,
                state.id,
                visited,
                hops,
            ) == election_winner(members, ecom_id, msg.visited@, (hops - 1) as nat),
        },
{
    lemma_without(members, state.id);
    let others = without(members, state.id);
    assert forall|x: usize| state.peers.contains(x) <==> others.contains(x) by {
        if x != state.id {
            assert(others.contains(x) <==> members.contains(x));
        }
    }
    law_ring_ignores_order(state.peers, others, state.id);
}

/// A coordinator that follows a peer holds a link to it for as long as it
/// follows it: when the link to the leader goes, the coordinator is left
/// without a leader, and the coming and going of other peers changes nothing
/// of that.
pub proof fn law_leader_is_linked(state: CoordinatorState, peer: usize)
    requires
        state.wf(),
        state.leader_linked(),
        peer != state.id,
    ensures
        state.with_peer(peer).leader_linked(),
        state.without_peer(peer).leader_linked(),
        state.leader == Some(peer) ==> state.without_peer(peer).leader is None,
{
    lemma_without(state.peers, peer);
    let more = state.with_peer(peer).peers;
    if !state.peers.contains(peer) {
        assert(more[state.peers.len() as int] == peer);
        assert forall|x: usize| state.peers.contains(x) implies more.contains(x) by {
            let i = choose|i: int| 0 <= i < state.peers.len() && state.peers[i] == x;
            assert(more[i] == x);
        }
    }
}

} // verus!
