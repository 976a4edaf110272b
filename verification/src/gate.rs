//! The connection gate: peers wait until enough of them are connected, then each
//! of them is sent its queries at once.

use vstd::prelude::*;
use vstd::arithmetic::div_mod::lemma_fundamental_div_mod_converse;

verus! {

/// A query to open an outbound session with: its sequence number, and the peer to send it to.
#[derive(Clone, Copy, Debug, PartialEq, Eq)]
pub struct Query<P> {
    pub peer: P,
    pub number: u64,
}

/// The queries for a batch of peers: for each peer in turn, `per_peer` queries
/// numbered from zero.
pub open spec fn queries_for<P>(peers: Seq<P>, per_peer: nat) -> Seq<Query<P>> {
    Seq::new(
        peers.len() * per_peer,
        |i: int| Query { peer: peers[i / per_peer as int], number: (i % per_peer as int) as u64 },
    )
}

/// The peers that are connected and have not been sent their queries yet.
pub struct ConnectionGate<P> {
    pub expected_connections: usize,
    pub queries_per_connection: u64,
    pub pending: Vec<P>,
}

impl<P: Copy> ConnectionGate<P> {
    /// A gate that opens when `expected_connections` peers wait at it.
    pub fn new(expected_connections: usize, queries_per_connection: u64) -> (gate: Self)
        ensures
            gate.expected_connections == expected_connections,
            gate.queries_per_connection == queries_per_connection,
            gate.pending@ == Seq::<P>::empty(),
    {
        ConnectionGate { expected_connections, queries_per_connection, pending: Vec::new() }
    }

    /// How the state `after` the arrival of `peer`, and the queries to send, follow
    /// from the state before it. With the newcomer counted, either enough peers wait:
    /// then every waiting peer gets its queries, numbered from zero, peer after peer
    /// in order of arrival, and nobody waits any longer. Or the newcomer waits with
    /// the others and no query is sent.
    pub open spec fn peer_admitted(self, after: Self, peer: P, queries: Seq<Query<P>>) -> bool {
        let waiting = self.pending@.push(peer);
        &&& after.expected_connections == self.expected_connections
        &&& after.queries_per_connection == self.queries_per_connection
        &&& if waiting.len() >= self.expected_connections {
            &&& queries == queries_for(waiting, self.queries_per_connection as nat)
            &&& queries.len() == waiting.len() * self.queries_per_connection
            &&& after.pending@ == Seq::<P>::empty()
        } else {
            &&& queries == Seq::<Query<P>>::empty()
            &&& after.pending@ == waiting
        }
    }

    /// A peer has connected and joins those that wait. Once as many wait as are
    /// expected, all of them leave together, and the queries for them are returned;
    /// until then none is.
    pub fn create_outbound_sessions_if_all_peers_connected(&mut self, peer: P) -> (queries: Vec<
        Query<P>,
    >)
        ensures
            old(self).peer_admitted(*final(self), peer, queries@),
    {
        self.pending.push(peer);
        let mut queries: Vec<Query<P>> = Vec::new();
        if self.pending.len() >= self.expected_connections {
            let ghost peers = self.pending@;
            let per_peer: u64 = self.queries_per_connection;
            let mut at: usize = 0;
            while at < self.pending.len()
                invariant
                    at <= self.pending.len(),
                    self.pending@ == peers,
                    per_peer == self.queries_per_connection,
                    self.expected_connections == old(self).expected_connections,
                    self.queries_per_connection == old(self).queries_per_connection,
                    queries@ == queries_for(peers.take(at as int), per_peer as nat),
                decreases self.pending.len() - at,
            {
                let waiting: P = self.pending[at];
                let ghost before = queries@;
                let mut number: u64 = 0;
                while number < per_peer
                    invariant
                        number <= per_peer,
                        at < peers.len(),
                        waiting == peers[at as int],
                        before == queries_for(peers.take(at as int), per_peer as nat),
                        queries@ == before + Seq::new(
                            number as nat,
                            |n: int| Query { peer: waiting, number: n as u64 },
                        ),
                    decreases per_peer - number,
                {
                    queries.push(Query { peer: waiting, number });
                    number = number + 1;
                    proof {
                        assert(queries@ =~= before + Seq::new(
                            number as nat,
                            |n: int| Query { peer: waiting, number: n as u64 },
                        ));
                    }
                }
                proof {
                    lemma_queries_for_push(peers.take(at as int), waiting, per_peer as nat);
                    assert(peers.take(at as int).push(waiting) =~= peers.take(at + 1));
                }
                at = at + 1;
            }
            proof {
                assert(peers.take(peers.len() as int) =~= peers);
            }
            self.pending = Vec::new();
        }
        queries
    }
}

/// The queries for a batch with one more peer are those for the batch, followed by
/// that peer's queries, numbered from zero.
pub proof fn lemma_queries_for_push<P>(peers: Seq<P>, peer: P, per_peer: nat)
    ensures
        queries_for(peers.push(peer), per_peer) == queries_for(peers, per_peer) + Seq::new(
            per_peer,
            |n: int| Query { peer, number: n as u64 },
        ),
{
    let longer = queries_for(peers.push(peer), per_peer);
    let joined = queries_for(peers, per_peer) + Seq::new(
        per_peer,
        |n: int| Query { peer, number: n as u64 },
    );
    let count = peers.len() as int;
    let each = per_peer as int;
    assert((count + 1) * each == count * each + each) by (nonlinear_arith);
    assert(longer.len() == joined.len());
    assert forall|i: int| 0 <= i < longer.len() implies longer[i] == joined[i] by {
        if i < count * each {
            assert(i / each < count) by (nonlinear_arith)
                requires
                    0 <= i < count * each,
                    each > 0,
            ;
            assert(0 <= i / each) by (nonlinear_arith)
                requires
                    0 <= i,
                    each > 0,
            ;
        } else {
            let n = i - count * each;
            lemma_fundamental_div_mod_converse(i, each, count, n);
        }
    }
    assert(longer =~= joined);
}

proof fn lemma_gate_fills<P: Copy>(
    gates: Seq<ConnectionGate<P>>,
    peers: Seq<P>,
    answers: Seq<Seq<Query<P>>>,
    arrived: int,
)
    requires
        0 <= arrived < peers.len(),
        gates.len() == peers.len() + 1,
        answers.len() == peers.len(),
        gates[0].pending@ == Seq::<P>::empty(),
        gates[0].expected_connections == peers.len(),
        forall|i: int|
            0 <= i < peers.len() ==> (#[trigger] gates[i]).peer_admitted(
                gates[i + 1],
                peers[i],
                answers[i],
            ),
    ensures
        gates[arrived].pending@ == peers.take(arrived),
        gates[arrived].expected_connections == peers.len(),
        gates[arrived].queries_per_connection == gates[0].queries_per_connection,
    decreases arrived,
{
    if arrived == 0 {
        assert(peers.take(0) =~= Seq::<P>::empty());
    } else {
        let before = arrived - 1;
        lemma_gate_fills(gates, peers, answers, before);
        assert(gates[before].peer_admitted(gates[before + 1], peers[before], answers[before]));
        assert(peers.take(before).push(peers[before]) =~= peers.take(arrived));
    }
}

/// A gate opens once for the peers it expects. When as many peers arrive at an
/// empty gate, one after the other, as it expects, no arrival but the last yields
/// a query. The last one yields the queries of all of them: as many as there are
/// peers, times the queries of one connection; query `i` goes to peer
/// `i / queries_per_connection` and has the number `i % queries_per_connection`.
/// Nobody waits afterwards.
pub proof fn lemma_gate_opens_for_expected_peers<P: Copy>(
    gates: Seq<ConnectionGate<P>>,
    peers: Seq<P>,
    answers: Seq<Seq<Query<P>>>,
)
    requires
        peers.len() >= 1,
        gates.len() == peers.len() + 1,
        answers.len() == peers.len(),
        gates[0].pending@ == Seq::<P>::empty(),
        gates[0].expected_connections == peers.len(),
        forall|i: int|
            0 <= i < peers.len() ==> (#[trigger] gates[i]).peer_admitted(
                gates[i + 1],
                peers[i],
                answers[i],
            ),
    ensures
        forall|i: int|
            0 <= i < peers.len() - 1 ==> #[trigger] answers[i] == Seq::<Query<P>>::empty(),
        answers.last() == queries_for(peers, gates[0].queries_per_connection as nat),
        answers.last().len() == peers.len() * gates[0].queries_per_connection,
        forall|i: int|
            0 <= i < peers.len() * gates[0].queries_per_connection ==> #[trigger] answers.last()[i]
                == (Query {
                peer: peers[i / gates[0].queries_per_connection as int],
                number: (i % gates[0].queries_per_connection as int) as u64,
            }),
        gates.last().pending@ == Seq::<P>::empty(),
{
    let last = peers.len() - 1;
    assert forall|i: int| 0 <= i < last implies #[trigger] answers[i] == Seq::<
        Query<P>,
    >::empty() by {
        lemma_gate_fills(gates, peers, answers, i);
        assert(gates[i].peer_admitted(gates[i + 1], peers[i], answers[i]));
    }
    lemma_gate_fills(gates, peers, answers, last);
    assert(gates[last].peer_admitted(gates[last + 1], peers[last], answers[last]));
    assert(peers.take(last).push(peers[last]) =~= peers);
}

} // verus!
