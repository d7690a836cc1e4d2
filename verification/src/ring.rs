//! The ring of ecom peers: who follows whom, and who wins an election.

use vstd::prelude::*;
use vstd::seq_lib::seq_to_set_is_finite;
use vstd::set_lib::lemma_len_subset;
use crate::text::{first_index, lemma_first_index, lemma_first_index_found, lemma_without, without};

verus! {

/// The smallest of `ids` that is greater than `bound`, if there is one.
pub open spec fn least_above(ids: Seq<usize>, bound: int) -> Option<usize>
    decreases ids.len(),
{
    if ids.len() == 0 {
        None
    } else {
        let rest = least_above(ids.drop_last(), bound);
        let x = ids.last();
        if x > bound && (rest is None || x < rest->0) {
            Some(x)
        } else {
            rest
        }
    }
}

/// The peer that follows `me` in the ring of `ids`: the smallest id above
/// `me`, or the smallest id of all where none is above. Nobody follows where
/// there is no peer.
pub open spec fn next_in_ring(ids: Seq<usize>, me: usize) -> Option<usize> {
    match least_above(ids, me as int) {
        Some(x) => Some(x),
        None => least_above(ids, -1),
    }
}

/// The greatest of `ids`; 0 where there is none.
pub open spec fn greatest(ids: Seq<usize>) -> usize
    decreases ids.len(),
{
    if ids.len() == 0 {
        0
    } else if ids.last() > greatest(ids.drop_last()) {
        ids.last()
    } else {
        greatest(ids.drop_last())
    }
}

/// `least_above` is a member above the bound that no other member above the
/// bound is below, and it is nothing only where no member is above the bound.
pub proof fn lemma_least_above(ids: Seq<usize>, bound: int)
    ensures
        match least_above(ids, bound) {
            Some(x) => ids.contains(x) && x > bound && forall|i: int|
                0 <= i < ids.len() && ids[i] > bound ==> x <= #[trigger] ids[i],
            None => forall|i: int| 0 <= i < ids.len() ==> #[trigger] ids[i] <= bound,
        },
    decreases ids.len(),
{
    if ids.len() > 0 {
        let head = ids.drop_last();
        lemma_least_above(head, bound);
        assert forall|i: int| 0 <= i < head.len() implies head[i] == ids[i] by {}
        match least_above(ids, bound) {
            Some(x) => {
                if x == ids.last() {
                    assert(ids[ids.len() - 1] == x);
                } else {
                    let i = choose|i: int| 0 <= i < head.len() && head[i] == x;
                    assert(ids[i] == x);
                }
                assert forall|i: int| 0 <= i < ids.len() && ids[i] > bound implies x
                    <= #[trigger] ids[i] by {
                    if i < head.len() {
                        assert(head[i] == ids[i]);
                    }
                }
            },
            None => {
                assert forall|i: int| 0 <= i < ids.len() implies #[trigger] ids[i] <= bound by {
                    if i < head.len() {
                        assert(head[i] == ids[i]);
                    }
                }
            },
        }
    }
}

/// `greatest` of a sequence that is not empty is a member that no member is
/// above.
pub proof fn lemma_greatest(ids: Seq<usize>)
    requires
        ids.len() > 0,
    ensures
        ids.contains(greatest(ids)),
        forall|i: int| 0 <= i < ids.len() ==> #[trigger] ids[i] <= greatest(ids),
    decreases ids.len(),
{
    let head = ids.drop_last();
    let last = ids.len() - 1;
    assert(ids[last] == ids.last());
    if head.len() > 0 {
        lemma_greatest(head);
        let g = greatest(head);
        let i = choose|i: int| 0 <= i < head.len() && head[i] == g;
        assert(ids[i] == g);
        assert forall|i: int| 0 <= i < ids.len() implies #[trigger] ids[i] <= greatest(ids) by {
            if i < head.len() {
                assert(head[i] == ids[i]);
            }
        }
        if greatest(ids) == g {
            assert(ids[i] == greatest(ids));
        } else {
            assert(ids[last] == greatest(ids));
        }
    } else {
        assert(greatest(head) == 0);
        assert(ids[last] == greatest(ids));
    }
}

/// The ids of the peers that an ecom holds a link to, in the order in which
/// they connected.
pub struct Peers {
    ids: Vec<usize>,
}

impl View for Peers {
    type V = Seq<usize>;

    closed spec fn view(&self) -> Seq<usize> {
        self.ids@
    }
}

impl Peers {
    /// No peer is listed twice.
    pub open spec fn wf(&self) -> bool {
        self@.no_duplicates()
    }

    /// No peers.
    pub fn new() -> (p: Self)
        ensures
            p@ == Seq::<usize>::empty(),
            p.wf(),
    {
        Peers { ids: Vec::new() }
    }

    /// The number of peers.
    pub fn len(&self) -> (n: usize)
        ensures
            n == self@.len(),
    {
        self.ids.len()
    }

    /// The peer that connected `i`-th among those present.
    pub fn id(&self, i: usize) -> (id: usize)
        requires
            i < self@.len(),
        ensures
            id == self@[i as int],
    {
        self.ids[i]
    }

    /// Where `id` stands among the peers, if it is one.
    pub fn position(&self, id: usize) -> (r: Option<usize>)
        ensures
            match r {
                Some(i) => i < self@.len() && i == first_index(self@, id),
                None => first_index(self@, id) == self@.len(),
            },
    {
        let n = self.ids.len();
        let mut i: usize = 0;
        while i < n
            invariant
                i <= n,
                n == self@.len(),
                forall|j: int| 0 <= j < i ==> self@[j] != id,
            decreases n - i,
        {
            if self.ids[i] == id {
                proof {
                    lemma_first_index(self@, id, i as int);
                }
                return Some(i);
            }
            i += 1;
        }
        proof {
            lemma_first_index(self@, id, n as int);
        }
        None
    }

    /// Whether `id` is a peer.
    pub fn contains(&self, id: usize) -> (b: bool)
        ensures
            b == self@.contains(id),
    {
        proof {
            lemma_first_index_found(self@, id);
        }
        self.position(id).is_some()
    }

    /// Lets `id` join at the end unless it is a peer already; says whether it
    /// joined.
    pub fn insert(&mut self, id: usize) -> (added: bool)
        requires
            old(self).wf(),
        ensures
            final(self).wf(),
            added == !old(self)@.contains(id),
            final(self)@ == if added {
                old(self)@.push(id)
            } else {
                old(self)@
            },
    {
        if self.contains(id) {
            false
        } else {
            self.ids.push(id);
            true
        }
    }

    /// Takes `id` out; says whether it was a peer.
    pub fn remove(&mut self, id: usize) -> (removed: bool)
        requires
            old(self).wf(),
        ensures
            final(self).wf(),
            removed == old(self)@.contains(id),
            final(self)@ == without(old(self)@, id),
    {
        proof {
            lemma_first_index_found(self@, id);
            lemma_without(self@, id);
        }
        match self.position(id) {
            Some(i) => {
                self.ids.remove(i);
                true
            },
            None => false,
        }
    }

    /// The peer that follows `me` in the ring.
    pub fn next_after(&self, me: usize) -> (r: Option<usize>)
        ensures
            r == next_in_ring(self@, me),
    {
        let n = self.ids.len();
        let mut above: Option<usize> = None;
        let mut least: Option<usize> = None;
        let mut i: usize = 0;
        assert(self@.take(0) =~= Seq::<usize>::empty());
        while i < n
            invariant
                i <= n,
                n == self@.len(),
                above == least_above(self@.take(i as int), me as int),
                least == least_above(self@.take(i as int), -1),
            decreases n - i,
        {
            assert(self@.take(i + 1).drop_last() =~= self@.take(i as int));
            let x = self.ids[i];
            if x > me {
                above = match above {
                    Some(a) => if x < a {
                        Some(x)
                    } else {
                        Some(a)
                    },
                    None => Some(x),
                };
            }
            least = match least {
                Some(a) => if x < a {
                    Some(x)
                } else {
                    Some(a)
                },
                None => Some(x),
            };
            i += 1;
        }
        assert(self@.take(n as int) =~= self@);
        match above {
            Some(x) => Some(x),
            None => least,
        }
    }
}

/// The greatest of `ids`, if there is any.
pub fn greatest_of(ids: &Vec<usize>) -> (r: Option<usize>)
    ensures
        r == if ids@.len() == 0 {
            None
        } else {
            Some(greatest(ids@))
        },
{
    let n = ids.len();
    if n == 0 {
        return None;
    }
    let mut best: usize = 0;
    let mut i: usize = 0;
    assert(ids@.take(0) =~= Seq::<usize>::empty());
    while i < n
        invariant
            i <= n,
            n == ids@.len(),
            best == greatest(ids@.take(i as int)),
        decreases n - i,
    {
        assert(ids@.take(i + 1).drop_last() =~= ids@.take(i as int));
        if ids[i] > best {
            best = ids[i];
        }
        i += 1;
    }
    assert(ids@.take(n as int) =~= ids@);
    Some(best)
}

/// The winner of an election among `members`, each of which holds a link to
/// every other, when the token has passed `visited` and reaches `at` with
/// `hops` hops left to make. The member that finds itself on the token names
/// the greatest id on it. Any other member sends the token to the peer that
/// follows it in the ring, and a member without peers wins itself. There is
/// no winner if the hops run out first.
pub open spec fn election_winner(
    members: Seq<usize>,
    at: usize,
    visited: Seq<usize>,
    hops: nat,
) -> Option<usize>
    decreases hops,
{
    if visited.contains(at) {
        Some(greatest(visited))
    } else {
        match next_in_ring(without(members, at), at) {
            None => Some(at),
            Some(next) => if hops == 0 {
                None
            } else {
                election_winner(members, next, visited.push(at), (hops - 1) as nat)
            },
        }
    }
}

/// A sequence without repetitions whose items all occur in another is no
/// longer than the other.
pub proof fn lemma_no_longer_than(part: Seq<usize>, whole: Seq<usize>)
    requires
        part.no_duplicates(),
        forall|i: int| 0 <= i < part.len() ==> whole.contains(#[trigger] part[i]),
    ensures
        part.len() <= whole.len(),
{
    part.unique_seq_to_set();
    seq_to_set_is_finite(whole);
    assert(part.to_set().subset_of(whole.to_set())) by {
        assert forall|x: usize| part.to_set().contains(x) implies whole.to_set().contains(x) by {
            let i = choose|i: int| 0 <= i < part.len() && part[i] == x;
            assert(whole.contains(part[i]));
        }
    }
    lemma_len_subset(part.to_set(), whole.to_set());
    whole.lemma_cardinality_of_set();
}

/// Sequences that are not empty and hold the same ids have the same greatest
/// id.
pub proof fn lemma_greatest_of_same(a: Seq<usize>, b: Seq<usize>)
    requires
        a.len() > 0,
        forall|x: usize| a.contains(x) <==> b.contains(x),
    ensures
        greatest(a) == greatest(b),
{
    assert(a.contains(a[0]));
    let k = choose|k: int| 0 <= k < b.len() && b[k] == a[0];
    lemma_greatest(a);
    lemma_greatest(b);
    let ga = greatest(a);
    let gb = greatest(b);
    assert(b.contains(ga));
    assert(a.contains(gb));
    let i = choose|i: int| 0 <= i < b.len() && b[i] == ga;
    let j = choose|j: int| 0 <= j < a.len() && a[j] == gb;
    assert(b[i] <= gb);
    assert(a[j] <= ga);
}

/// The token of an election walks the ring in rising order of ids, wraps
/// round once, and comes back to where it started with every member on it.
proof fn lemma_election_walk(
    members: Seq<usize>,
    start: usize,
    at: usize,
    visited: Seq<usize>,
    hops: nat,
    wrapped: bool,
)
    requires
        members.no_duplicates(),
        members.contains(start),
        members.contains(at),
        visited.no_duplicates(),
        visited.len() + hops == members.len(),
        !wrapped ==> at >= start && forall|m: usize|
            visited.contains(m) <==> members.contains(m) && start <= m < at,
        wrapped ==> at <= start && forall|m: usize|
            visited.contains(m) <==> members.contains(m) && (m >= start || m < at),
    ensures
        election_winner(members, at, visited, hops) == Some(greatest(members)),
    decreases hops,
{
    if visited.contains(at) {
        assert(wrapped && at == start);
        lemma_greatest_of_same(visited, members);
    } else {
        let peers = without(members, at);
        lemma_without(members, at);
        lemma_least_above(peers, at as int);
        lemma_least_above(peers, -1);
        let longer = visited.push(at);
        assert(longer.no_duplicates()) by {
            assert forall|i: int, j: int|
                0 <= i < longer.len() && 0 <= j < longer.len() && i != j implies longer[i]
                != longer[j] by {
                if i < visited.len() {
                    assert(visited.contains(visited[i]));
                }
                if j < visited.len() {
                    assert(visited.contains(visited[j]));
                }
            }
        }
        assert forall|m: usize| longer.contains(m) <==> (visited.contains(m) || m == at) by {
            if visited.contains(m) {
                let i = choose|i: int| 0 <= i < visited.len() && visited[i] == m;
                assert(longer[i] == m);
            }
            if m == at {
                assert(longer[visited.len() as int] == m);
            }
        }
        assert forall|i: int| 0 <= i < longer.len() implies members.contains(
            #[trigger] longer[i],
        ) by {
            assert(longer.contains(longer[i]));
        }
        lemma_no_longer_than(longer, members);
        assert(hops >= 1);
        match least_above(peers, at as int) {
            Some(next) => {
                assert forall|m: usize| members.contains(m) && m > at implies next <= m by {
                    assert(peers.contains(m));
                    let i = choose|i: int| 0 <= i < peers.len() && peers[i] == m;
                    assert(next <= peers[i]);
                }
                if wrapped {
                    assert(at < start);
                    assert(next <= start);
                }
                lemma_election_walk(members, start, next, longer, (hops - 1) as nat, wrapped);
            },
            None => {
                assert forall|m: usize| members.contains(m) implies m <= at by {
                    if m != at {
                        assert(peers.contains(m));
                        let i = choose|i: int| 0 <= i < peers.len() && peers[i] == m;
                        assert(peers[i] <= at);
                    }
                }
                if wrapped {
                    assert(at == start);
                    assert(visited.contains(at));
                }
                match least_above(peers, -1) {
                    Some(next) => {
                        assert forall|m: usize| members.contains(m) implies next <= m by {
                            if m != at {
                                assert(peers.contains(m));
                                let i = choose|i: int| 0 <= i < peers.len() && peers[i] == m;
                                assert(next <= peers[i]);
                            }
                        }
                        lemma_election_walk(members, start, next, longer, (hops - 1) as nat, true);
                    },
                    None => {
                        lemma_greatest(members);
                        let g = greatest(members);
                        if g != at {
                            assert(peers.contains(g));
                            let i = choose|i: int| 0 <= i < peers.len() && peers[i] == g;
                            assert(peers[i] <= -1);
                        }
                    },
                }
            },
        }
    }
}

/// In a ring whose members all hold a link to every other, an election that
/// any member starts with an empty token ends within as many hops as there
/// are members, and the member with the greatest id wins. Elections that two
/// members start therefore have the same winner.
pub proof fn law_election_elects_greatest(members: Seq<usize>, first: usize, second: usize)
    requires
        members.no_duplicates(),
        members.contains(first),
        members.contains(second),
    ensures
        election_winner(members, first, Seq::empty(), members.len()) == Some(greatest(members)),
        election_winner(members, first, Seq::empty(), members.len()) == election_winner(
            members,
            second,
            Seq::empty(),
            members.len(),
        ),
{
    lemma_election_walk(members, first, first, Seq::empty(), members.len(), false);
    lemma_election_walk(members, second, second, Seq::empty(), members.len(), false);
}

/// Who follows an ecom in the ring depends on which peers it has, not on the
/// order in which they connected.
pub proof fn law_ring_ignores_order(a: Seq<usize>, b: Seq<usize>, me: usize)
    requires
        forall|x: usize| a.contains(x) <==> b.contains(x),
    ensures
        next_in_ring(a, me) == next_in_ring(b, me),
{
    lemma_least_of_same(a, b, me as int);
    lemma_least_of_same(a, b, -1);
}

/// Sequences that hold the same ids have the same least id above a bound.
pub proof fn lemma_least_of_same(a: Seq<usize>, b: Seq<usize>, bound: int)
    requires
        forall|x: usize| a.contains(x) <==> b.contains(x),
    ensures
        least_above(a, bound) == least_above(b, bound),
{
    lemma_least_above(a, bound);
    lemma_least_above(b, bound);
    match least_above(a, bound) {
        Some(x) => {
            assert(b.contains(x));
            let i = choose|i: int| 0 <= i < b.len() && b[i] == x;
            assert(b[i] > bound);
            let y = least_above(b, bound)->0;
            assert(a.contains(y));
            let j = choose|j: int| 0 <= j < a.len() && a[j] == y;
            assert(x <= a[j]);
            assert(y <= b[i]);
        },
        None => {
            if least_above(b, bound) is Some {
                let y = least_above(b, bound)->0;
                assert(a.contains(y));
                let j = choose|j: int| 0 <= j < a.len() && a[j] == y;
                assert(a[j] <= bound);
            }
        },
    }
}

} // verus!
