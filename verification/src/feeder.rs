//! The inbound feeder: which prepared batch each inbound session gets, and the
//! order in which its payloads are sent once every expected session has arrived.

use vstd::prelude::*;
use vstd::arithmetic::div_mod::{lemma_fundamental_div_mod, lemma_mod_pos_bound};
use crate::error::InvariantViolation;
use crate::ids::InboundSessionId;

verus! {

/// The control message that opens the stream of an inbound session.
#[derive(Clone, Copy, Debug, PartialEq, Eq, Structural)]
pub struct InboundSessionStart {
    pub num_messages: u64,
    pub message_size: u64,
}

/// One call that the driver makes on an inbound session.
#[derive(Clone, Debug, PartialEq, Eq)]
pub enum FeedAction {
    /// Send the stream-start message.
    Start { session: InboundSessionId, start: InboundSessionStart },
    /// Send one payload.
    Content { session: InboundSessionId, payload: Vec<u8> },
    /// Close the session.
    Close { session: InboundSessionId },
}

/// An inbound session and the payloads it has not been sent yet.
pub struct FeedSlot {
    pub session: InboundSessionId,
    pub payloads: Vec<Vec<u8>>,
}

/// The mathematical content of a `FeedSlot`.
pub struct SlotModel {
    pub session: InboundSessionId,
    pub payloads: Seq<Vec<u8>>,
}

impl View for FeedSlot {
    type V = SlotModel;

    open spec fn view(&self) -> SlotModel {
        SlotModel { session: self.session, payloads: self.payloads@ }
    }
}

/// The contents of a table of slots.
pub open spec fn slot_models(slots: Seq<FeedSlot>) -> Seq<SlotModel> {
    Seq::new(slots.len(), |i: int| slots[i]@)
}

/// One stream-start message for each session, in the order of the table.
pub open spec fn start_actions(slots: Seq<SlotModel>, start: InboundSessionStart) -> Seq<
    FeedAction,
> {
    Seq::new(slots.len(), |i: int| FeedAction::Start { session: slots[i].session, start })
}

/// The calls of one round, in the order of the table. In round `round` a session
/// that began with more than `round` payloads is sent the next one, counted from
/// the end of its batch; one that began with exactly `round` payloads is closed;
/// one that began with fewer was closed in an earlier round and gets nothing.
pub open spec fn round_actions(slots: Seq<SlotModel>, round: nat) -> Seq<FeedAction>
    decreases slots.len(),
{
    if slots.len() == 0 {
        Seq::empty()
    } else {
        let before = round_actions(slots.drop_last(), round);
        let slot = slots.last();
        if slot.payloads.len() > round {
            before.push(
                FeedAction::Content {
                    session: slot.session,
                    payload: slot.payloads[slot.payloads.len() - 1 - round],
                },
            )
        } else if slot.payloads.len() == round {
            before.push(FeedAction::Close { session: slot.session })
        } else {
            before
        }
    }
}

/// The length of the longest batch in the table, zero for an empty table.
pub open spec fn longest_batch(slots: Seq<SlotModel>) -> nat
    decreases slots.len(),
{
    if slots.len() == 0 {
        0
    } else {
        let before = longest_batch(slots.drop_last());
        if slots.last().payloads.len() > before {
            slots.last().payloads.len()
        } else {
            before
        }
    }
}

/// The calls of the first `rounds` rounds.
pub open spec fn rounds_before(slots: Seq<SlotModel>, rounds: nat) -> Seq<FeedAction>
    decreases rounds,
{
    if rounds == 0 {
        Seq::empty()
    } else {
        rounds_before(slots, (rounds - 1) as nat) + round_actions(slots, (rounds - 1) as nat)
    }
}

/// Every payload send and every close: round after round until the longest batch
/// is sent and its session closed.
pub open spec fn drain_actions(slots: Seq<SlotModel>) -> Seq<FeedAction> {
    rounds_before(slots, longest_batch(slots) + 1)
}

/// All calls of a feed: the stream-start messages first, then the rounds.
pub open spec fn feed_actions(slots: Seq<SlotModel>, start: InboundSessionStart) -> Seq<
    FeedAction,
> {
    start_actions(slots, start) + drain_actions(slots)
}

/// What is left of a batch when `sent` rounds have gone by.
pub open spec fn unsent(payloads: Seq<Vec<u8>>, sent: nat) -> Seq<Vec<u8>> {
    if payloads.len() >= sent {
        payloads.take(payloads.len() - sent)
    } else {
        Seq::empty()
    }
}

/// A payload of filler bytes: `size` bytes, each of them 1.
pub open spec fn filler(size: nat) -> Seq<u8> {
    Seq::new(size, |i: int| 1u8)
}

/// A filler payload of `size` bytes.
pub fn filler_payload(size: usize) -> (payload: Vec<u8>)
    ensures
        payload@ == filler(size as nat),
{
    let payload = vec![1u8; size];
    assert(payload@ =~= filler(size as nat));
    payload
}

/// One batch of `num_messages` filler payloads of `message_size` bytes for each of
/// `sessions` expected inbound sessions.
pub fn prepare_batches(sessions: usize, num_messages: usize, message_size: usize) -> (batches: Vec<
    Vec<Vec<u8>>,
>)
    ensures
        batches@.len() == sessions,
        forall|b: int| 0 <= b < sessions ==> (#[trigger] batches@[b])@.len() == num_messages,
        forall|b: int, m: int|
            0 <= b < sessions && 0 <= m < num_messages ==> (#[trigger] batches@[b]@[m])@ == filler(
                message_size as nat,
            ),
{
    let mut batches: Vec<Vec<Vec<u8>>> = Vec::new();
    let mut b: usize = 0;
    while b < sessions
        invariant
            b <= sessions,
            batches@.len() == b,
            forall|c: int| 0 <= c < b ==> (#[trigger] batches@[c])@.len() == num_messages,
            forall|c: int, m: int|
                0 <= c < b && 0 <= m < num_messages ==> (#[trigger] batches@[c]@[m])@ == filler(
                    message_size as nat,
                ),
        decreases sessions - b,
    {
        let mut batch: Vec<Vec<u8>> = Vec::new();
        let mut m: usize = 0;
        while m < num_messages
            invariant
                m <= num_messages,
                batch@.len() == m,
                forall|k: int| 0 <= k < m ==> (#[trigger] batch@[k])@ == filler(message_size as nat),
            decreases num_messages - m,
        {
            batch.push(filler_payload(message_size));
            m = m + 1;
        }
        batches.push(batch);
        b = b + 1;
    }
    batches
}

/// Whether a call on an inbound session went through. The networking layer
/// refuses a message or a close for a session that is no longer live, and that
/// is a violation.
pub fn check_feed_call(accepted: bool) -> (outcome: Result<(), InvariantViolation>)
    ensures
        outcome == if accepted {
            Ok::<(), InvariantViolation>(())
        } else {
            Err::<(), InvariantViolation>(InvariantViolation::InboundSessionDisappeared)
        },
{
    if accepted {
        Ok(())
    } else {
        Err(InvariantViolation::InboundSessionDisappeared)
    }
}

/// The prepared batches and the sessions that have claimed one. The sessions
/// are kept in order of arrival, and none of them twice.
pub struct InboundFeeder {
    start: InboundSessionStart,
    unclaimed: Vec<Vec<Vec<u8>>>,
    sessions: Vec<FeedSlot>,
}

impl InboundFeeder {
    /// The stream-start message that every session is sent.
    pub closed spec fn start(&self) -> InboundSessionStart {
        self.start
    }

    /// The batches that no session has claimed yet; the last one is claimed next.
    pub closed spec fn unclaimed(&self) -> Seq<Vec<Vec<u8>>> {
        self.unclaimed@
    }

    /// The sessions that hold a batch and wait to be fed, in order of arrival.
    pub closed spec fn claimed(&self) -> Seq<SlotModel> {
        slot_models(self.sessions@)
    }

    /// No session waits twice.
    pub open spec fn well_formed(&self) -> bool {
        distinct_sessions(self.claimed())
    }

    /// A feeder with one batch for each expected inbound session and no session yet.
    pub fn new(start: InboundSessionStart, batches: Vec<Vec<Vec<u8>>>) -> (feeder: Self)
        ensures
            feeder.well_formed(),
            feeder.start() == start,
            feeder.unclaimed() == batches@,
            feeder.claimed() == Seq::<SlotModel>::empty(),
    {
        let feeder = InboundFeeder { start, unclaimed: batches, sessions: Vec::new() };
        assert(feeder.claimed() =~= Seq::<SlotModel>::empty());
        feeder
    }

    /// The number of batches that no session has claimed yet.
    pub fn unclaimed_batches(&self) -> (n: usize)
        ensures
            n == self.unclaimed().len(),
    {
        self.unclaimed.len()
    }

    /// The number of sessions that hold a batch and wait to be fed.
    pub fn waiting_sessions(&self) -> (n: usize)
        ensures
            n == self.claimed().len(),
    {
        self.sessions.len()
    }

    /// Whether the session holds a batch and waits to be fed.
    pub fn is_waiting(&self, session: InboundSessionId) -> (waiting: bool)
        ensures
            waiting == !absent(self.claimed(), session),
    {
        let mut i: usize = 0;
        while i < self.sessions.len()
            invariant
                i <= self.sessions.len(),
                forall|j: int| 0 <= j < i ==> (#[trigger] self.claimed()[j]).session != session,
            decreases self.sessions.len() - i,
        {
            if self.sessions[i].session.value == session.value {
                assert(self.claimed()[i as int].session == session);
                return true;
            }
            i = i + 1;
        }
        false
    }

    /// How the feeder `after` the arrival of `session`, and the outcome, follow from
    /// the feeder before it. With no batch left the outcome is a violation, and so
    /// it is where the session waits already; nothing changes then. Otherwise the
    /// session takes the last batch and joins the waiting sessions; if that batch
    /// was the last of all, the outcome holds the feed of every waiting session
    /// and none waits any longer; if not, the outcome holds no call at all.
    pub open spec fn session_claimed(
        self,
        after: Self,
        session: InboundSessionId,
        outcome: Result<Vec<FeedAction>, InvariantViolation>,
    ) -> bool {
        &&& after.start() == self.start()
        &&& outcome.is_err() <==> (self.unclaimed().len() == 0 || !absent(self.claimed(), session))
        &&& match outcome {
            Err(violation) => {
                &&& violation == if self.unclaimed().len() == 0 {
                    InvariantViolation::UnexpectedInboundSession
                } else {
                    InvariantViolation::RepeatedInboundSession
                }
                &&& after.unclaimed() == self.unclaimed()
                &&& after.claimed() == self.claimed()
            },
            Ok(actions) => {
                let waiting = self.claimed().push(
                    SlotModel { session, payloads: self.unclaimed().last()@ },
                );
                &&& after.unclaimed() == self.unclaimed().drop_last()
                &&& if self.unclaimed().len() == 1 {
                    &&& actions@ == feed_actions(waiting, self.start())
                    &&& after.claimed() == Seq::<SlotModel>::empty()
                } else {
                    &&& actions@ == Seq::<FeedAction>::empty()
                    &&& after.claimed() == waiting
                }
            },
        }
    }

    /// A new inbound session claims the last unclaimed batch and waits. The session
    /// that claims the last batch of all starts the feed of every waiting session,
    /// itself included; until then nothing is sent to anyone. A session for which
    /// no batch is left is a violation, and so is one that waits already; the
    /// feeder stays as it was then.
    pub fn on_new_inbound_session(&mut self, session: InboundSessionId) -> (outcome: Result<
        Vec<FeedAction>,
        InvariantViolation,
    >)
        ensures
            old(self).session_claimed(*final(self), session, outcome),
            old(self).well_formed() ==> final(self).well_formed(),
    {
        if self.unclaimed.len() == 0 {
            return Err(InvariantViolation::UnexpectedInboundSession);
        }
        if self.is_waiting(session) {
            return Err(InvariantViolation::RepeatedInboundSession);
        }
        match self.unclaimed.pop() {
            None => Err(InvariantViolation::UnexpectedInboundSession),
            Some(payloads) => {
                let ghost waiting = self.claimed().push(SlotModel { session, payloads: payloads@ });
                self.sessions.push(FeedSlot { session, payloads });
                proof {
                    assert(self.claimed() =~= waiting);
                    if old(self).well_formed() {
                        assert forall|a: int, b: int| 0 <= a < b < waiting.len() implies waiting[a].session
                            != waiting[b].session by {
                            let before = old(self).claimed();
                            assert(waiting[a] == before[a]);
                            if b < before.len() {
                                assert(waiting[b] == before[b]);
                            }
                        }
                    }
                }
                if self.unclaimed.len() == 0 {
                    Ok(self.send_data_to_inbound_sessions())
                } else {
                    Ok(Vec::new())
                }
            },
        }
    }

    /// Feeds every session that holds a batch and forgets it: one stream-start
    /// message each, then round after round one payload each, taken from the end
    /// of its batch, and a close in the round after its last payload. The feed
    /// begins only when every batch is claimed.
    pub fn send_data_to_inbound_sessions(&mut self) -> (actions: Vec<FeedAction>)
        requires
            old(self).unclaimed().len() == 0,
        ensures
            actions@ == feed_actions(old(self).claimed(), old(self).start()),
            final(self).claimed() == Seq::<SlotModel>::empty(),
            final(self).unclaimed() == old(self).unclaimed(),
            final(self).start() == old(self).start(),
    {
        let ghost table = self.claimed();
        let start = self.start;
        let n: usize = self.sessions.len();
        let mut actions: Vec<FeedAction> = Vec::new();
        let mut lengths: Vec<usize> = Vec::new();
        let mut longest: usize = 0;
        let mut i: usize = 0;
        while i < n
            invariant
                i <= n,
                *self == *old(self),
                table == self.claimed(),
                n == self.sessions.len(),
                start == self.start,
                actions@ == start_actions(table.take(i as int), start),
                lengths@.len() == i,
                forall|j: int| 0 <= j < i ==> lengths@[j] == table[j].payloads.len(),
                longest == longest_batch(table.take(i as int)),
            decreases n - i,
        {
            let slot = &self.sessions[i];
            let len: usize = slot.payloads.len();
            actions.push(FeedAction::Start { session: slot.session, start });
            lengths.push(len);
            if len > longest {
                longest = len;
            }
            proof {
                assert(table.take(i + 1).drop_last() =~= table.take(i as int));
                assert(actions@ =~= start_actions(table.take(i + 1), start));
            }
            i = i + 1;
        }
        proof {
            assert(table.take(n as int) =~= table);
        }
        let ghost opened = actions@;
        let mut round: usize = 0;
        let mut drained = false;
        while !drained
            invariant
                round <= longest,
                longest == longest_batch(table),
                n == self.sessions.len(),
                n == table.len(),
                lengths@.len() == n,
                forall|j: int| 0 <= j < n ==> lengths@[j] == table[j].payloads.len(),
                self.start == old(self).start,
                self.unclaimed == old(self).unclaimed,
                opened == start_actions(table, start),
                start == old(self).start,
                table == old(self).claimed(),
                !drained ==> actions@ == opened + rounds_before(table, round as nat),
                !drained ==> forall|j: int|
                    0 <= j < n ==> self.sessions@[j].session == table[j].session
                        && self.sessions@[j].payloads@ == unsent(table[j].payloads, round as nat),
                drained ==> actions@ == opened + rounds_before(table, (longest + 1) as nat),
            decreases (longest - round) + (if drained { 0int } else { 1int }),
        {
            let ghost earlier = actions@;
            let mut k: usize = 0;
            while k < n
                invariant
                    k <= n,
                    n == self.sessions.len(),
                    n == table.len(),
                    lengths@.len() == n,
                    forall|j: int| 0 <= j < n ==> lengths@[j] == table[j].payloads.len(),
                    self.start == old(self).start,
                    self.unclaimed == old(self).unclaimed,
                    actions@ == earlier + round_actions(table.take(k as int), round as nat),
                    forall|j: int|
                        0 <= j < n ==> self.sessions@[j].session == table[j].session,
                    forall|j: int|
                        0 <= j < k ==> self.sessions@[j].payloads@ == unsent(
                            table[j].payloads,
                            (round + 1) as nat,
                        ),
                    forall|j: int|
                        k <= j < n ==> self.sessions@[j].payloads@ == unsent(
                            table[j].payloads,
                            round as nat,
                        ),
                decreases n - k,
            {
                let len: usize = lengths[k];
                proof {
                    assert(table.take(k + 1).drop_last() =~= table.take(k as int));
                    assert(table.take(k + 1).last() == table[k as int]);
                }
                if len > round {
                    let slot = &mut self.sessions[k];
                    let session = slot.session;
                    let sent = slot.payloads.pop();
                    match sent {
                        Some(payload) => {
                            actions.push(FeedAction::Content { session, payload });
                        },
                        None => {},
                    }
                    proof {
                        let batch = table[k as int].payloads;
                        assert(unsent(batch, round as nat).drop_last() =~= unsent(
                            batch,
                            (round + 1) as nat,
                        ));
                    }
                } else if len == round {
                    let session = self.sessions[k].session;
                    actions.push(FeedAction::Close { session });
                    proof {
                        let batch = table[k as int].payloads;
                        assert(unsent(batch, round as nat) =~= unsent(batch, (round + 1) as nat));
                    }
                } else {
                    proof {
                        let batch = table[k as int].payloads;
                        assert(unsent(batch, round as nat) =~= unsent(batch, (round + 1) as nat));
                    }
                }
                proof {
                    assert(actions@ =~= earlier + round_actions(
                        table.take(k + 1),
                        round as nat,
                    ));
                }
                k = k + 1;
            }
            proof {
                assert(table.take(n as int) =~= table);
                assert(actions@ =~= opened + rounds_before(table, (round + 1) as nat));
            }
            if round == longest {
                drained = true;
            } else {
                round = round + 1;
            }
        }
        self.sessions = Vec::new();
        proof {
            assert(self.claimed() =~= Seq::<SlotModel>::empty());
        }
        actions
    }
}

/// Every batch in the table holds `count` payloads.
pub open spec fn uniform(slots: Seq<SlotModel>, count: nat) -> bool {
    forall|j: int| 0 <= j < slots.len() ==> (#[trigger] slots[j]).payloads.len() == count
}

/// One round over a table whose batches all hold `count` payloads: in each of
/// the first `count` rounds every session is sent a payload, in the round after
/// them every session is closed.
pub open spec fn uniform_round(slots: Seq<SlotModel>, count: nat, round: nat) -> Seq<FeedAction> {
    Seq::new(
        slots.len(),
        |j: int|
            if round < count {
                FeedAction::Content {
                    session: slots[j].session,
                    payload: slots[j].payloads[count - 1 - round],
                }
            } else {
                FeedAction::Close { session: slots[j].session }
            },
    )
}

/// The feed of a table whose batches all hold `count` payloads, call by call. The
/// calls come in rows of one call for each session, in the order of the table:
/// first a row of stream-start messages, then `count` rows of payloads, each
/// batch sent from its end to its beginning, then a row of closes.
pub open spec fn uniform_feed(slots: Seq<SlotModel>, start: InboundSessionStart, count: nat) -> Seq<
    FeedAction,
> {
    Seq::new(
        slots.len() * (count + 2),
        |i: int|
            {
                let row = i / (slots.len() as int);
                let slot = slots[i % (slots.len() as int)];
                if row == 0 {
                    FeedAction::Start { session: slot.session, start }
                } else if row <= count {
                    FeedAction::Content {
                        session: slot.session,
                        payload: slot.payloads[count - row],
                    }
                } else {
                    FeedAction::Close { session: slot.session }
                }
            },
    )
}

proof fn lemma_uniform_round(slots: Seq<SlotModel>, count: nat, round: nat)
    requires
        uniform(slots, count),
        round <= count,
    ensures
        round_actions(slots, round) == uniform_round(slots, count, round),
    decreases slots.len(),
{
    if slots.len() > 0 {
        let init = slots.drop_last();
        assert forall|j: int| 0 <= j < init.len() implies (#[trigger] init[j]).payloads.len()
            == count by {
            assert(init[j] == slots[j]);
        }
        lemma_uniform_round(init, count, round);
        assert(slots.last() == slots[slots.len() - 1]);
    }
    assert(round_actions(slots, round) =~= uniform_round(slots, count, round));
}

proof fn lemma_uniform_longest(slots: Seq<SlotModel>, count: nat)
    requires
        uniform(slots, count),
        slots.len() > 0,
    ensures
        longest_batch(slots) == count,
    decreases slots.len(),
{
    let init = slots.drop_last();
    assert(slots.last() == slots[slots.len() - 1]);
    if init.len() > 0 {
        assert forall|j: int| 0 <= j < init.len() implies (#[trigger] init[j]).payloads.len()
            == count by {
            assert(init[j] == slots[j]);
        }
        lemma_uniform_longest(init, count);
    }
}

proof fn lemma_uniform_rounds_len(slots: Seq<SlotModel>, count: nat, rounds: nat)
    requires
        uniform(slots, count),
        rounds <= count + 1,
    ensures
        rounds_before(slots, rounds).len() == rounds * slots.len(),
    decreases rounds,
{
    if rounds > 0 {
        let earlier = (rounds - 1) as nat;
        lemma_uniform_rounds_len(slots, count, earlier);
        lemma_uniform_round(slots, count, earlier);
        assert(rounds * slots.len() == earlier * slots.len() + slots.len()) by (nonlinear_arith)
            requires
                rounds == earlier + 1,
        ;
        assert(rounds_before(slots, rounds) == rounds_before(slots, earlier) + round_actions(
            slots,
            earlier,
        ));
    } else {
        assert(rounds * slots.len() == 0) by (nonlinear_arith)
            requires
                rounds == 0,
        ;
    }
}

proof fn lemma_uniform_cell(slots: Seq<SlotModel>, count: nat, rounds: nat, round: nat, j: int)
    requires
        uniform(slots, count),
        round < rounds <= count + 1,
        0 <= j < slots.len(),
    ensures
        0 <= round * slots.len() + j < rounds_before(slots, rounds).len(),
        rounds_before(slots, rounds)[round * slots.len() + j] == uniform_round(
            slots,
            count,
            round,
        )[j],
    decreases rounds,
{
    let earlier = (rounds - 1) as nat;
    let n = slots.len();
    lemma_uniform_rounds_len(slots, count, earlier);
    lemma_uniform_rounds_len(slots, count, rounds);
    lemma_uniform_round(slots, count, earlier);
    assert(rounds * n == earlier * n + n) by (nonlinear_arith)
        requires
            rounds == earlier + 1,
    ;
    assert(0 <= round * n) by (nonlinear_arith);
    if round == earlier {
    } else {
        lemma_uniform_cell(slots, count, earlier, round, j);
    }
}

/// A table whose batches all hold `count` payloads is fed row by row: every
/// session gets its stream-start message, then its `count` payloads, then its
/// close, each once, in that order and nothing after the close.
pub proof fn lemma_uniform_feed(slots: Seq<SlotModel>, start: InboundSessionStart, count: nat)
    requires
        uniform(slots, count),
    ensures
        feed_actions(slots, start) == uniform_feed(slots, start, count),
        feed_actions(slots, start).len() == slots.len() * (count + 2),
{
    let n = slots.len();
    let plan = feed_actions(slots, start);
    let rows = uniform_feed(slots, start, count);
    if n == 0 {
        reveal_with_fuel(rounds_before, 2);
        assert(plan =~= rows);
    } else {
        lemma_uniform_longest(slots, count);
        lemma_uniform_rounds_len(slots, count, count + 1);
        assert(n + (count + 1) * n == n * (count + 2)) by (nonlinear_arith);
        assert(plan.len() == rows.len());
        assert forall|i: int| 0 <= i < plan.len() implies plan[i] == rows[i] by {
            let row = i / (n as int);
            let col = i % (n as int);
            lemma_fundamental_div_mod(i, n as int);
            lemma_mod_pos_bound(i, n as int);
            assert(0 <= row < count + 2) by (nonlinear_arith)
                requires
                    i == n * row + col,
                    0 <= col < n,
                    0 <= i < n * (count + 2),
            ;
            if row == 0 {
                assert(i == col) by (nonlinear_arith)
                    requires
                        i == n * row + col,
                        row == 0,
                ;
            } else {
                let round = (row - 1) as nat;
                lemma_uniform_cell(slots, count, count + 1, round, col);
                assert(i - n == round * n + col) by (nonlinear_arith)
                    requires
                        i == n * row + col,
                        round == row - 1,
                ;
            }
        }
        assert(plan =~= rows);
    }
}

/// No session is fed ahead of another. In the feed of a table whose batches all
/// hold `count` payloads, call `i` is on the session of slot `i % n`, where `n`
/// is the number of slots: the sessions take turns, in the order of the table,
/// from the first stream-start message to the last close.
pub proof fn lemma_uniform_feed_takes_turns(
    slots: Seq<SlotModel>,
    start: InboundSessionStart,
    count: nat,
)
    requires
        uniform(slots, count),
    ensures
        forall|i: int|
            0 <= i < slots.len() * (count + 2) ==> session_of(
                #[trigger] feed_actions(slots, start)[i],
            ) == slots[i % (slots.len() as int)].session,
{
    lemma_uniform_feed(slots, start, count);
}

/// Nothing is sent before the last expected session has arrived. When as many
/// sessions arrive, one after the other, as there are batches, every arrival but
/// the last is answered with no call at all; the last one is answered with the
/// feed of all of them in order of arrival, each with the batch it claimed, and
/// leaves neither a batch nor a waiting session behind.
pub proof fn lemma_feed_waits_for_last_session(
    feeders: Seq<InboundFeeder>,
    sessions: Seq<InboundSessionId>,
    outcomes: Seq<Result<Vec<FeedAction>, InvariantViolation>>,
)
    requires
        sessions.len() >= 1,
        feeders.len() == sessions.len() + 1,
        outcomes.len() == sessions.len(),
        feeders[0].claimed() == Seq::<SlotModel>::empty(),
        feeders[0].unclaimed().len() == sessions.len(),
        forall|a: int, b: int| 0 <= a < b < sessions.len() ==> sessions[a] != sessions[b],
        forall|i: int|
            0 <= i < sessions.len() ==> (#[trigger] feeders[i]).session_claimed(
                feeders[i + 1],
                sessions[i],
                outcomes[i],
            ),
    ensures
        forall|i: int|
            0 <= i < sessions.len() - 1 ==> ((#[trigger] outcomes[i]) matches Ok(actions)
                && actions@ == Seq::<FeedAction>::empty()),
        (outcomes.last() matches Ok(actions) && actions@ == feed_actions(
            claims_in_order(feeders[0].unclaimed(), sessions, sessions.len() as int),
            feeders[0].start(),
        )),
        feeders.last().claimed() == Seq::<SlotModel>::empty(),
        feeders.last().unclaimed() == Seq::<Vec<Vec<u8>>>::empty(),
{
    let last = sessions.len() - 1;
    assert forall|i: int| 0 <= i < last implies ((#[trigger] outcomes[i]) matches Ok(actions)
        && actions@ == Seq::<FeedAction>::empty()) by {
        lemma_claims_accumulate(feeders, sessions, outcomes, i);
        assert(feeders[i].session_claimed(feeders[i + 1], sessions[i], outcomes[i]));
    }
    lemma_claims_accumulate(feeders, sessions, outcomes, last);
    assert(feeders[last].session_claimed(feeders[last + 1], sessions[last], outcomes[last]));
    let batches = feeders[0].unclaimed();
    assert(claims_in_order(batches, sessions, last).push(
        SlotModel { session: sessions[last], payloads: batches[0]@ },
    ) =~= claims_in_order(batches, sessions, last + 1));
    assert(feeders.last().unclaimed() =~= Seq::<Vec<Vec<u8>>>::empty());
}

/// The lifecycle of the expected sessions. When every batch holds `count`
/// payloads and as many sessions arrive as there are batches, the last arrival
/// is answered with a feed in rows: every session gets its stream-start message,
/// then its `count` payloads, then its close, each once and in that order.
pub proof fn lemma_expected_sessions_are_fed_in_rows(
    feeders: Seq<InboundFeeder>,
    sessions: Seq<InboundSessionId>,
    outcomes: Seq<Result<Vec<FeedAction>, InvariantViolation>>,
    count: nat,
)
    requires
        sessions.len() >= 1,
        feeders.len() == sessions.len() + 1,
        outcomes.len() == sessions.len(),
        feeders[0].claimed() == Seq::<SlotModel>::empty(),
        feeders[0].unclaimed().len() == sessions.len(),
        forall|a: int, b: int| 0 <= a < b < sessions.len() ==> sessions[a] != sessions[b],
        forall|b: int|
            0 <= b < sessions.len() ==> (#[trigger] feeders[0].unclaimed()[b])@.len() == count,
        forall|i: int|
            0 <= i < sessions.len() ==> (#[trigger] feeders[i]).session_claimed(
                feeders[i + 1],
                sessions[i],
                outcomes[i],
            ),
    ensures
        (outcomes.last() matches Ok(actions) && actions@ == uniform_feed(
            claims_in_order(feeders[0].unclaimed(), sessions, sessions.len() as int),
            feeders[0].start(),
            count,
        )),
{
    let batches = feeders[0].unclaimed();
    let claims = claims_in_order(batches, sessions, sessions.len() as int);
    lemma_feed_waits_for_last_session(feeders, sessions, outcomes);
    assert forall|j: int| 0 <= j < claims.len() implies (#[trigger] claims[j]).payloads.len()
        == count by {
        assert(batches[batches.len() - 1 - j]@.len() == count);
    }
    lemma_uniform_feed(claims, feeders[0].start(), count);
}

/// Every expected session lives once. When as many sessions arrive, one after the
/// other and each under its own identifier, as there are batches, the calls that
/// the last arrival is answered with hold for each session, in this order: its
/// stream-start message, the payloads of the batch it claimed, from its end to
/// its beginning, and its close.
pub proof fn lemma_expected_sessions_live_once(
    feeders: Seq<InboundFeeder>,
    sessions: Seq<InboundSessionId>,
    outcomes: Seq<Result<Vec<FeedAction>, InvariantViolation>>,
    j: int,
)
    requires
        sessions.len() >= 1,
        0 <= j < sessions.len(),
        feeders.len() == sessions.len() + 1,
        outcomes.len() == sessions.len(),
        feeders[0].claimed() == Seq::<SlotModel>::empty(),
        feeders[0].unclaimed().len() == sessions.len(),
        forall|a: int, b: int| 0 <= a < b < sessions.len() ==> sessions[a] != sessions[b],
        forall|i: int|
            0 <= i < sessions.len() ==> (#[trigger] feeders[i]).session_claimed(
                feeders[i + 1],
                sessions[i],
                outcomes[i],
            ),
    ensures
        (outcomes.last() matches Ok(actions) && calls_on(actions@, sessions[j]) == lifecycle(
            claims_in_order(feeders[0].unclaimed(), sessions, sessions.len() as int)[j],
            feeders[0].start(),
        )),
{
    let claims = claims_in_order(feeders[0].unclaimed(), sessions, sessions.len() as int);
    lemma_feed_waits_for_last_session(feeders, sessions, outcomes);
    assert forall|a: int, b: int| 0 <= a < b < claims.len() implies claims[a].session
        != claims[b].session by {
        assert(sessions[a] != sessions[b]);
    }
    lemma_session_lifecycle(claims, feeders[0].start(), j);
}

/// The first `arrived` sessions, each with the batch it claimed: batches are
/// claimed from the last one down.
pub open spec fn claims_in_order(
    batches: Seq<Vec<Vec<u8>>>,
    sessions: Seq<InboundSessionId>,
    arrived: int,
) -> Seq<SlotModel> {
    Seq::new(
        arrived as nat,
        |j: int| SlotModel { session: sessions[j], payloads: batches[batches.len() - 1 - j]@ },
    )
}

proof fn lemma_claims_accumulate(
    feeders: Seq<InboundFeeder>,
    sessions: Seq<InboundSessionId>,
    outcomes: Seq<Result<Vec<FeedAction>, InvariantViolation>>,
    arrived: int,
)
    requires
        0 <= arrived < sessions.len(),
        feeders.len() == sessions.len() + 1,
        outcomes.len() == sessions.len(),
        feeders[0].claimed() == Seq::<SlotModel>::empty(),
        feeders[0].unclaimed().len() == sessions.len(),
        forall|a: int, b: int| 0 <= a < b < sessions.len() ==> sessions[a] != sessions[b],
        forall|i: int|
            0 <= i < sessions.len() ==> (#[trigger] feeders[i]).session_claimed(
                feeders[i + 1],
                sessions[i],
                outcomes[i],
            ),
    ensures
        feeders[arrived].start() == feeders[0].start(),
        feeders[arrived].unclaimed() == feeders[0].unclaimed().take(sessions.len() - arrived),
        feeders[arrived].claimed() == claims_in_order(feeders[0].unclaimed(), sessions, arrived),
        absent(feeders[arrived].claimed(), sessions[arrived]),
    decreases arrived,
{
    let batches = feeders[0].unclaimed();
    let claims = claims_in_order(batches, sessions, arrived);
    assert forall|a: int| 0 <= a < claims.len() implies (#[trigger] claims[a]).session
        != sessions[arrived] by {
        assert(sessions[a] != sessions[arrived]);
    }
    if arrived == 0 {
        assert(batches.take(sessions.len() as int) =~= batches);
        assert(claims_in_order(batches, sessions, 0) =~= Seq::<SlotModel>::empty());
    } else {
        let before = arrived - 1;
        lemma_claims_accumulate(feeders, sessions, outcomes, before);
        assert(feeders[before].session_claimed(
            feeders[before + 1],
            sessions[before],
            outcomes[before],
        ));
        let left = batches.take(sessions.len() - before);
        assert(left.drop_last() =~= batches.take(sessions.len() - arrived));
        assert(left.last() == batches[batches.len() - 1 - before]);
        assert(claims_in_order(batches, sessions, before).push(
            SlotModel { session: sessions[before], payloads: left.last()@ },
        ) =~= claims_in_order(batches, sessions, arrived));
    }
}

/// The session that a call is made on.
pub open spec fn session_of(action: FeedAction) -> InboundSessionId {
    match action {
        FeedAction::Start { session, .. } => session,
        FeedAction::Content { session, .. } => session,
        FeedAction::Close { session } => session,
    }
}

/// The calls that are made on one session, in order.
pub open spec fn calls_on(actions: Seq<FeedAction>, session: InboundSessionId) -> Seq<FeedAction>
    decreases actions.len(),
{
    if actions.len() == 0 {
        Seq::empty()
    } else {
        let before = calls_on(actions.drop_last(), session);
        if session_of(actions.last()) == session {
            before.push(actions.last())
        } else {
            before
        }
    }
}

/// No two slots of the table belong to one session.
pub open spec fn distinct_sessions(slots: Seq<SlotModel>) -> bool {
    forall|a: int, b: int| 0 <= a < b < slots.len() ==> slots[a].session != slots[b].session
}

/// No slot of the table belongs to the session.
pub open spec fn absent(slots: Seq<SlotModel>, session: InboundSessionId) -> bool {
    forall|a: int| 0 <= a < slots.len() ==> (#[trigger] slots[a]).session != session
}

/// The payloads of a slot as calls, from the end of the batch to its beginning.
pub open spec fn payload_calls(slot: SlotModel, sent: nat) -> Seq<FeedAction> {
    Seq::new(
        sent,
        |r: int|
            FeedAction::Content {
                session: slot.session,
                payload: slot.payloads[slot.payloads.len() - 1 - r],
            },
    )
}

/// The whole life of a session in a feed: its stream-start message, its payloads
/// from the end of the batch to its beginning, and its close.
pub open spec fn lifecycle(slot: SlotModel, start: InboundSessionStart) -> Seq<FeedAction> {
    seq![FeedAction::Start { session: slot.session, start }] + payload_calls(
        slot,
        slot.payloads.len(),
    ) + seq![FeedAction::Close { session: slot.session }]
}

/// The calls on a session in the first `rounds` rounds.
pub open spec fn calls_before(slot: SlotModel, rounds: nat) -> Seq<FeedAction> {
    if rounds <= slot.payloads.len() {
        payload_calls(slot, rounds)
    } else {
        payload_calls(slot, slot.payloads.len()).push(FeedAction::Close { session: slot.session })
    }
}

proof fn lemma_calls_on_push(actions: Seq<FeedAction>, last: FeedAction, session: InboundSessionId)
    ensures
        calls_on(actions.push(last), session) == if session_of(last) == session {
            calls_on(actions, session).push(last)
        } else {
            calls_on(actions, session)
        },
{
    assert(actions.push(last).drop_last() =~= actions);
}

proof fn lemma_calls_on_add(a: Seq<FeedAction>, b: Seq<FeedAction>, session: InboundSessionId)
    ensures
        calls_on(a + b, session) == calls_on(a, session) + calls_on(b, session),
    decreases b.len(),
{
    if b.len() == 0 {
        assert(a + b =~= a);
        assert(calls_on(a, session) + calls_on(b, session) =~= calls_on(a, session));
    } else {
        lemma_calls_on_add(a, b.drop_last(), session);
        assert(a + b =~= (a + b.drop_last()).push(b.last()));
        lemma_calls_on_push(a + b.drop_last(), b.last(), session);
        assert(calls_on(a, session) + calls_on(b, session) =~= if session_of(b.last())
            == session {
            (calls_on(a, session) + calls_on(b.drop_last(), session)).push(b.last())
        } else {
            calls_on(a, session) + calls_on(b.drop_last(), session)
        });
    }
}

proof fn lemma_starts_push(slots: Seq<SlotModel>, start: InboundSessionStart)
    requires
        slots.len() > 0,
    ensures
        start_actions(slots, start) == start_actions(slots.drop_last(), start).push(
            FeedAction::Start { session: slots.last().session, start },
        ),
{
    assert(start_actions(slots, start) =~= start_actions(slots.drop_last(), start).push(
        FeedAction::Start { session: slots.last().session, start },
    ));
}

proof fn lemma_init_keeps(slots: Seq<SlotModel>, session: InboundSessionId)
    requires
        slots.len() > 0,
    ensures
        distinct_sessions(slots) ==> distinct_sessions(slots.drop_last()),
        absent(slots, session) ==> absent(slots.drop_last(), session),
        distinct_sessions(slots) && slots.last().session == session ==> absent(
            slots.drop_last(),
            session,
        ),
{
    let init = slots.drop_last();
    if distinct_sessions(slots) {
        assert forall|a: int, b: int| 0 <= a < b < init.len() implies init[a].session
            != init[b].session by {
            assert(init[a] == slots[a] && init[b] == slots[b]);
        }
        if slots.last().session == session {
            assert forall|a: int| 0 <= a < init.len() implies (#[trigger] init[a]).session
                != session by {
                assert(init[a] == slots[a]);
                assert(slots[a].session != slots[slots.len() - 1].session);
            }
        }
    }
    if absent(slots, session) {
        assert forall|a: int| 0 <= a < init.len() implies (#[trigger] init[a]).session
            != session by {
            assert(init[a] == slots[a]);
        }
    }
}

proof fn lemma_absent_gets_no_call(
    slots: Seq<SlotModel>,
    start: InboundSessionStart,
    round: nat,
    session: InboundSessionId,
)
    requires
        absent(slots, session),
    ensures
        calls_on(start_actions(slots, start), session) == Seq::<FeedAction>::empty(),
        calls_on(round_actions(slots, round), session) == Seq::<FeedAction>::empty(),
    decreases slots.len(),
{
    if slots.len() > 0 {
        let init = slots.drop_last();
        let last = slots.last();
        assert(last == slots[slots.len() - 1]);
        lemma_init_keeps(slots, session);
        lemma_absent_gets_no_call(init, start, round, session);
        lemma_starts_push(slots, start);
        lemma_calls_on_push(
            start_actions(init, start),
            FeedAction::Start { session: last.session, start },
            session,
        );
        if last.payloads.len() > round {
            lemma_calls_on_push(
                round_actions(init, round),
                FeedAction::Content {
                    session: last.session,
                    payload: last.payloads[last.payloads.len() - 1 - round],
                },
                session,
            );
        } else if last.payloads.len() == round {
            lemma_calls_on_push(
                round_actions(init, round),
                FeedAction::Close { session: last.session },
                session,
            );
        }
    } else {
        assert(start_actions(slots, start) =~= Seq::<FeedAction>::empty());
    }
}

/// The one call, if any, that a round makes on the session of a slot.
pub open spec fn round_call(slot: SlotModel, round: nat) -> Seq<FeedAction> {
    if slot.payloads.len() > round {
        seq![
            FeedAction::Content {
                session: slot.session,
                payload: slot.payloads[slot.payloads.len() - 1 - round],
            },
        ]
    } else if slot.payloads.len() == round {
        seq![FeedAction::Close { session: slot.session }]
    } else {
        Seq::empty()
    }
}

proof fn lemma_present_gets_its_calls(
    slots: Seq<SlotModel>,
    start: InboundSessionStart,
    round: nat,
    j: int,
)
    requires
        distinct_sessions(slots),
        0 <= j < slots.len(),
    ensures
        calls_on(start_actions(slots, start), slots[j].session) == seq![
            FeedAction::Start { session: slots[j].session, start },
        ],
        calls_on(round_actions(slots, round), slots[j].session) == round_call(slots[j], round),
    decreases slots.len(),
{
    let session = slots[j].session;
    let init = slots.drop_last();
    let last = slots.last();
    assert(last == slots[slots.len() - 1]);
    lemma_init_keeps(slots, session);
    lemma_starts_push(slots, start);
    lemma_calls_on_push(
        start_actions(init, start),
        FeedAction::Start { session: last.session, start },
        session,
    );
    if last.payloads.len() > round {
        lemma_calls_on_push(
            round_actions(init, round),
            FeedAction::Content {
                session: last.session,
                payload: last.payloads[last.payloads.len() - 1 - round],
            },
            session,
        );
    } else if last.payloads.len() == round {
        lemma_calls_on_push(
            round_actions(init, round),
            FeedAction::Close { session: last.session },
            session,
        );
    }
    if j == slots.len() - 1 {
        lemma_absent_gets_no_call(init, start, round, session);
        assert(calls_on(start_actions(slots, start), session) =~= seq![
            FeedAction::Start { session, start },
        ]);
        assert(calls_on(round_actions(slots, round), session) =~= round_call(slots[j], round));
    } else {
        assert(init[j] == slots[j]);
        assert(slots[j].session != slots[slots.len() - 1].session);
        lemma_present_gets_its_calls(init, start, round, j);
    }
}

proof fn lemma_calls_in_rounds(slots: Seq<SlotModel>, rounds: nat, j: int)
    requires
        distinct_sessions(slots),
        0 <= j < slots.len(),
    ensures
        calls_on(rounds_before(slots, rounds), slots[j].session) == calls_before(slots[j], rounds),
    decreases rounds,
{
    let session = slots[j].session;
    if rounds == 0 {
        assert(calls_before(slots[j], 0) =~= Seq::<FeedAction>::empty());
    } else {
        let earlier = (rounds - 1) as nat;
        lemma_calls_in_rounds(slots, earlier, j);
        lemma_present_gets_its_calls(
            slots,
            InboundSessionStart { num_messages: 0, message_size: 0 },
            earlier,
            j,
        );
        lemma_calls_on_add(rounds_before(slots, earlier), round_actions(slots, earlier), session);
        assert(calls_before(slots[j], earlier) + round_call(slots[j], earlier) =~= calls_before(
            slots[j],
            rounds,
        ));
    }
}

proof fn lemma_longest_bounds(slots: Seq<SlotModel>, j: int)
    requires
        0 <= j < slots.len(),
    ensures
        slots[j].payloads.len() <= longest_batch(slots),
    decreases slots.len(),
{
    if j < slots.len() - 1 {
        assert(slots.drop_last()[j] == slots[j]);
        lemma_longest_bounds(slots.drop_last(), j);
    } else {
        assert(slots.last() == slots[j]);
    }
}

/// The lifecycle of every session in a feed, whatever the batches hold. Of the
/// calls of a feed, those on one session are, in this order: its stream-start
/// message, each payload of its batch once, from the end of the batch to its
/// beginning, and its close. Nothing comes before the stream-start message and
/// nothing after the close.
pub proof fn lemma_session_lifecycle(slots: Seq<SlotModel>, start: InboundSessionStart, j: int)
    requires
        distinct_sessions(slots),
        0 <= j < slots.len(),
    ensures
        calls_on(feed_actions(slots, start), slots[j].session) == lifecycle(slots[j], start),
{
    let session = slots[j].session;
    let rounds = longest_batch(slots) + 1;
    lemma_longest_bounds(slots, j);
    lemma_present_gets_its_calls(slots, start, 0, j);
    lemma_calls_in_rounds(slots, rounds, j);
    lemma_calls_on_add(start_actions(slots, start), drain_actions(slots), session);
    assert(calls_on(feed_actions(slots, start), session) =~= lifecycle(slots[j], start));
}

} // verus!
